use copypatch::codegen::{CodeGen, CodeGenInner, I64Ref};
use copypatch::ir::{ConstValue, DataType, Op};
use copypatch::machine::{CodeError, GeneratedCode};

fn finish(cg: &mut CodeGen, v: &I64Ref, args: Vec<i64>) -> i64 {
    cg.generate_return(v);
    let code = cg.generate_code();
    code.call(&args)
}

#[test]
fn arg_plus_constant() {
    let mut cg = CodeGen::new(1);
    let a = cg.get_arg(0);
    let five = cg.new_i64_const(5);
    let sum = cg.add_owned(a, &five);
    assert_eq!(finish(&mut cg, &sum, vec![10]), 15);
}

#[test]
fn constant_plus_constant() {
    let mut cg = CodeGen::new(0);
    let three = cg.new_i64_const(3);
    let four = cg.new_i64_const(4);
    let sum = cg.add_owned(three, &four);
    assert_eq!(finish(&mut cg, &sum, vec![]), 7);
}

fn clone_session(return_first: bool) -> (i64, usize, usize) {
    let mut cg = CodeGen::new(1);
    let arg0 = cg.get_arg(0);
    let b = cg.clone_i64(&arg0);
    let one = cg.new_i64_const(1);
    let two = cg.new_i64_const(2);
    let x = cg.add_ref(&arg0, &one);
    let y = cg.add_owned(b, &two);
    let (xi, yi) = (x.index(), y.index());
    let r = if return_first { finish(&mut cg, &x, vec![10]) } else { finish(&mut cg, &y, vec![10]) };
    assert_eq!(arg0.index(), 0);
    (r, xi, yi)
}

#[test]
fn clone_then_add_both() {
    let (first, xi, yi) = clone_session(true);
    let (second, _, _) = clone_session(false);
    assert_eq!(first, 11);
    assert_eq!(second, 12);
    assert_ne!(xi, yi);
    assert_ne!(xi, 0);
    assert_ne!(yi, 0);
}

#[test]
fn argument_unchanged_after_clone_and_adds() {
    let mut cg = CodeGen::new(1);
    let arg0 = cg.get_arg(0);
    let b = cg.clone_i64(&arg0);
    let one = cg.new_i64_const(1);
    let two = cg.new_i64_const(2);
    let _x = cg.add_ref(&arg0, &one);
    let _y = cg.add_owned(b, &two);
    assert_eq!(finish(&mut cg, &arg0, vec![10]), 10);
}

#[test]
fn round_trip_on_several_pairs() {
    let pairs: Vec<(i64, i64)> = vec![(0, 0), (-7, 3), (i64::MAX, 1), (i64::MIN, -1), (123456789, -987654321)];
    for (a, b) in pairs {
        let mut cg = CodeGen::new(1);
        let arg = cg.get_arg(0);
        let c = cg.new_i64_const(b);
        let sum = cg.add_owned(arg, &c);
        assert_eq!(finish(&mut cg, &sum, vec![a]), a.wrapping_add(b));
    }
}

#[test]
fn owned_add_reuses_index() {
    let mut cg = CodeGen::new(1);
    let c = cg.new_i64_const(7);
    let idx = c.index();
    let one = cg.new_i64_const(1);
    let r = cg.add_owned(c, &one);
    assert_eq!(r.index(), idx);
    let arg = cg.get_arg(0);
    let r2 = cg.add_owned(r, &arg);
    assert_eq!(r2.index(), idx);
    assert_eq!(finish(&mut cg, &r2, vec![2]), 10);
}

#[test]
fn add_to_argument_gets_new_index() {
    let mut cg = CodeGen::new(2);
    let a = cg.get_arg(1);
    let one = cg.new_i64_const(1);
    let r = cg.add_owned(a, &one);
    assert_ne!(r.index(), 1);
    let again = cg.get_arg(1);
    assert_eq!(again.index(), 1);
    assert_eq!(finish(&mut cg, &again, vec![4, 9]), 9);
}

#[test]
fn add_assign_on_argument_moves_handle() {
    let mut cg = CodeGen::new(1);
    let mut a = cg.get_arg(0);
    let three = cg.new_i64_const(3);
    cg.add_assign(&mut a, &three);
    assert_ne!(a.index(), 0);
    cg.add_assign(&mut a, &three);
    assert_eq!(finish(&mut cg, &a, vec![1]), 7);
}

#[test]
fn freed_index_is_reused_first() {
    let mut cg = CodeGen::new(1);
    let arg = cg.get_arg(0);
    let c = cg.new_i64_const(5);
    let one = cg.new_i64_const(1);
    let x = cg.add_owned(c, &one);
    let freed = x.index();
    cg.drop_i64(x);
    let y = cg.clone_i64(&arg);
    assert_eq!(y.index(), freed);
    assert_eq!(finish(&mut cg, &y, vec![42]), 42);
}

#[test]
fn last_freed_is_reused_first() {
    let mut cg = CodeGen::new(1);
    let arg = cg.get_arg(0);
    let p = cg.clone_i64(&arg);
    let q = cg.clone_i64(&arg);
    let (pi, qi) = (p.index(), q.index());
    cg.drop_i64(p);
    cg.drop_i64(q);
    let r1 = cg.clone_i64(&arg);
    let r2 = cg.clone_i64(&arg);
    assert_eq!(r1.index(), qi);
    assert_eq!(r2.index(), pi);
}

#[test]
fn dropping_argument_keeps_it() {
    let mut cg = CodeGen::new(1);
    let a = cg.get_arg(0);
    cg.drop_i64(a);
    let a2 = cg.get_arg(0);
    assert_eq!(finish(&mut cg, &a2, vec![31]), 31);
}

#[test]
fn clone_of_constant_is_independent() {
    let mut cg = CodeGen::new(0);
    let c = cg.new_i64_const(10);
    let d = cg.clone_i64(&c);
    assert_ne!(c.index(), d.index());
    let one = cg.new_i64_const(1);
    let d2 = cg.add_owned(d, &one);
    assert_eq!(finish(&mut cg, &c, vec![]), 10);
    let mut cg2 = CodeGen::new(0);
    let c = cg2.new_i64_const(10);
    let d = cg2.clone_i64(&c);
    let one = cg2.new_i64_const(1);
    let _c2 = cg2.add_owned(c, &one);
    assert_eq!(finish(&mut cg2, &d, vec![]), 10);
    let _ = d2;
}

#[test]
fn clone_of_variable_is_independent() {
    let mut cg = CodeGen::new(1);
    let arg = cg.get_arg(0);
    let one = cg.new_i64_const(1);
    let v = cg.add_ref(&arg, &one);
    let w = cg.clone_i64(&v);
    let hundred = cg.new_i64_const(100);
    let _v2 = cg.add_owned(v, &hundred);
    assert_eq!(finish(&mut cg, &w, vec![5]), 6);
}

#[test]
fn value_added_to_itself() {
    let mut cg = CodeGen::new(1);
    let arg = cg.get_arg(0);
    let c = cg.clone_i64(&arg);
    let i = cg.add(c.as_value(), c.as_value());
    assert_eq!(i, c.index());
    assert_eq!(finish(&mut cg, &c, vec![21]), 42);
}

#[test]
fn argument_added_to_itself() {
    let mut cg = CodeGen::new(1);
    let a = cg.get_arg(0);
    let b = cg.get_arg(0);
    let s = cg.add_owned(a, &b);
    let s2 = cg.add_owned(s, &b);
    assert_eq!(finish(&mut cg, &s2, vec![7]), 21);
}

#[test]
fn two_arguments_summed() {
    let mut cg = CodeGen::new(2);
    let a = cg.get_arg(0);
    let b = cg.get_arg(1);
    let s = cg.add_ref(&a, &b);
    assert_eq!(finish(&mut cg, &s, vec![30, 12]), 42);
}

#[test]
fn constant_returned_without_arguments() {
    let mut cg = CodeGen::new(0);
    let c = cg.new_i64_const(-5);
    assert_eq!(finish(&mut cg, &c, vec![]), -5);
}

#[test]
fn bool_constants_get_own_entries() {
    let mut cg = CodeGen::new(0);
    let t = cg.new_bool_const(true);
    let f = cg.new_bool_const(false);
    assert_ne!(t.index(), f.index());
    let t2 = cg.clone_bool(&t);
    assert_ne!(t2.index(), t.index());
    cg.drop_bool(t);
    let n = cg.new_i64_const(1);
    assert_eq!(n.index(), 3);
}

#[test]
fn reset_keeps_arguments_only() {
    let mut cg = CodeGen::new(1);
    let a = cg.get_arg(0);
    let c = cg.new_i64_const(9);
    let _s = cg.add_owned(a, &c);
    cg.reset();
    let c2 = cg.new_i64_const(1);
    assert_eq!(c2.index(), 1);
    let a = cg.get_arg(0);
    assert_eq!(finish(&mut cg, &a, vec![3]), 3);
}

#[test]
fn generated_code_ops() {
    let mut cg = CodeGen::new(1);
    let a = cg.get_arg(0);
    let five = cg.new_i64_const(5);
    let sum = cg.add_owned(a, &five);
    cg.generate_return(&sum);
    let code = cg.generate_code();
    assert_eq!(code.call(&vec![1]), 6);
    let direct = GeneratedCode::new(
        16,
        vec![Op::TakeReg1Stack(0), Op::AddConst(ConstValue::I64(5)), Op::StoreReg1(0), Op::Return],
    );
    assert!(direct.is_ok());
    assert_eq!(direct.unwrap().call(&vec![1]), 6);
}

#[test]
fn code_outside_frame_is_refused() {
    let r = GeneratedCode::new(8, vec![Op::TakeReg1Const(ConstValue::I64(1)), Op::StoreReg1(8)]);
    assert!(matches!(r, Err(CodeError::OutOfFrame(1))));
    let r = GeneratedCode::new(16, vec![Op::TakeReg2Stack(4)]);
    assert!(matches!(r, Err(CodeError::OutOfFrame(0))));
    let r = GeneratedCode::new(0, vec![Op::StoreReg1(0), Op::Return]);
    assert!(r.is_ok());
}

#[test]
fn ops_after_return_do_nothing() {
    let code = GeneratedCode::new(
        8,
        vec![
            Op::TakeReg1Const(ConstValue::I64(4)),
            Op::TakeReg2Const(ConstValue::Bool(true)),
            Op::Add(copypatch::ir::DataType::I64),
            Op::StoreReg1(0),
            Op::Return,
            Op::TakeReg1Const(ConstValue::I64(0)),
            Op::StoreReg1(0),
        ],
    )
    .unwrap();
    assert_eq!(code.call(&vec![]), 5);
}

#[test]
fn double_free_is_harmless() {
    let mut inner = CodeGenInner::new(1);
    let i = inner.allocate_stack(DataType::I64);
    inner.free_value(i);
    inner.free_value(i);
    let a = inner.allocate_stack(DataType::I64);
    let b = inner.allocate_stack(DataType::I64);
    assert_eq!(a, i);
    assert_ne!(a, b);
}

#[test]
fn return_slot_is_in_frame_without_arguments() {
    let mut cg = CodeGen::new(0);
    let c = cg.new_i64_const(3);
    cg.generate_return(&c);
    let code = cg.generate_code();
    assert!(code.frame_bytes() >= 8);
    assert_eq!(code.call(&vec![]), 3);
}

#[test]
fn free_argument_does_nothing_in_table() {
    let mut inner = CodeGenInner::new(2);
    inner.free_value(1);
    let a = inner.allocate_stack(DataType::I64);
    assert_eq!(a, 2);
}
