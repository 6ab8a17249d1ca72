use vstd::prelude::*;
use crate::ir::{ConstValue, Op};
use crate::machine::{entry_stack, frame_words, result_of, run, slot, step, Machine};
use crate::state::{
    add_val, clear, initial, clone_val, const_val, dirty1, emit, is_readonly, free_val, holds, lemma_put1, lemma_put2,
    lemma_spill1, live, load1_op, load2_op, put1, put2, ret_val, room, spill1, wf, CGValue, CgState,
};

verus! {

/// The machine after running `ops` from `m`.
pub open spec fn exec_seq(m: Machine, ops: Seq<Op>) -> Machine
    decreases ops.len(),
{
    if ops.len() == 0 {
        m
    } else {
        step(exec_seq(m, ops.drop_last()), ops.last())
    }
}

pub proof fn lemma_exec_push(m: Machine, ops: Seq<Op>, op: Op)
    ensures
        exec_seq(m, ops.push(op)) == step(exec_seq(m, ops), op),
{
    assert(ops.push(op).drop_last() =~= ops);
}

pub proof fn lemma_run_exec(ops: Seq<Op>, n: nat, m: Machine)
    requires
        n <= ops.len(),
    ensures
        run(ops, n, m) == exec_seq(m, ops.subrange(0, n as int)),
    decreases n,
{
    if n > 0 {
        lemma_run_exec(ops, (n - 1) as nat, m);
        assert(ops.subrange(0, n as int).drop_last() =~= ops.subrange(0, n - 1));
    }
}

pub open spec fn var_pos(v: CGValue) -> usize {
    match v {
        CGValue::Variable { stack_pos, .. } => stack_pos,
        _ => 0,
    }
}

/// What one live entry claims of the machine: a register that holds it holds
/// its content, a constant is its literal, and a variable's slot holds its
/// content unless the first register holds a newer one.
pub open spec fn entry_ok(s: CgState, m: Machine, vals: Map<usize, i64>, i: usize) -> bool {
    &&& vals.dom().contains(i)
    &&& (holds(s.reg1, i) ==> m.reg1 == vals[i])
    &&& (holds(s.reg2, i) ==> m.reg2 == vals[i])
    &&& (s.values[i as int] matches CGValue::Constant(c) ==> vals[i] == c.word())
    &&& (s.values[i as int] is Variable && s.reg1 != Some((i, true))
        ==> m.mem[slot(var_pos(s.values[i as int]))] == vals[i])
}

/// The machine `m` agrees with the session `s` when every live entry `i`
/// has the content `vals[i]`.
pub open spec fn consistent(s: CgState, m: Machine, vals: Map<usize, i64>) -> bool {
    &&& !m.halted
    &&& m.mem.len() * 8 >= s.stack_ptr
    &&& forall|i: usize| #[trigger] live(s, i) ==> entry_ok(s, m, vals, i)
}

pub proof fn lemma_spill1_sem(s: CgState, m0: Machine, vals: Map<usize, i64>)
    requires
        wf(s),
        consistent(s, exec_seq(m0, s.ops), vals),
    ensures
        consistent(spill1(s), exec_seq(m0, spill1(s).ops), vals),
        exec_seq(m0, spill1(s).ops).reg1 == exec_seq(m0, s.ops).reg1,
        exec_seq(m0, spill1(s).ops).reg2 == exec_seq(m0, s.ops).reg2,
        exec_seq(m0, spill1(s).ops).mem.len() == exec_seq(m0, s.ops).mem.len(),
{
    lemma_spill1(s);
    let m = exec_seq(m0, s.ops);
    if let Some((i, d)) = s.reg1 {
        if d {
            let p = match s.values[i as int] {
                CGValue::Variable { stack_pos, .. } => stack_pos,
                _ => 0,
            };
            lemma_exec_push(m0, s.ops, Op::StoreReg1(p));
            let t = spill1(s);
            let m2 = exec_seq(m0, t.ops);
            assert(m2.mem == m.mem.update(slot(p), m.reg1));
            assert(live(s, i));
            assert(crate::state::pos_of(s.values[i as int]) is Some);
            assert(slot(p) < m.mem.len());
            assert forall|k: usize| #[trigger] live(t, k) implies entry_ok(t, m2, vals, k) by {
                assert(live(s, k));
                assert(entry_ok(s, m, vals, k));
                if t.values[k as int] is Variable && k != i {
                    assert(pos_distinct(s, k, i));
                    assert(slot(var_pos(t.values[k as int])) != slot(p));
                }
            }
        }
    }
}

pub proof fn lemma_put1_sem(s: CgState, m0: Machine, vals: Map<usize, i64>, v: usize)
    requires
        wf(s),
        live(s, v),
        consistent(s, exec_seq(m0, s.ops), vals),
    ensures
        consistent(put1(s, v), exec_seq(m0, put1(s, v).ops), vals),
        exec_seq(m0, put1(s, v).ops).reg1 == vals[v],
        exec_seq(m0, put1(s, v).ops).reg2 == exec_seq(m0, s.ops).reg2,
        exec_seq(m0, put1(s, v).ops).mem.len() == exec_seq(m0, s.ops).mem.len(),
{
    lemma_put1(s, v);
    assert(entry_ok(s, exec_seq(m0, s.ops), vals, v));
    if !holds(s.reg1, v) {
        lemma_spill1_sem(s, m0, vals);
        let t = spill1(s);
        assert(live(t, v));
        assert(entry_ok(t, exec_seq(m0, t.ops), vals, v));
        lemma_exec_push(m0, t.ops, load1_op(t.values[v as int]));
        let u = put1(s, v);
        let m2 = exec_seq(m0, u.ops);
        assert forall|k: usize| #[trigger] live(u, k) implies entry_ok(u, m2, vals, k) by {
            assert(live(t, k));
            assert(entry_ok(t, exec_seq(m0, t.ops), vals, k));
        }
    }
}

pub proof fn lemma_put2_sem(s: CgState, m0: Machine, vals: Map<usize, i64>, v: usize)
    requires
        wf(s),
        live(s, v),
        consistent(s, exec_seq(m0, s.ops), vals),
    ensures
        consistent(put2(s, v), exec_seq(m0, put2(s, v).ops), vals),
        exec_seq(m0, put2(s, v).ops).reg2 == vals[v],
        exec_seq(m0, put2(s, v).ops).reg1 == exec_seq(m0, s.ops).reg1,
        exec_seq(m0, put2(s, v).ops).mem.len() == exec_seq(m0, s.ops).mem.len(),
{
    lemma_put2(s, v);
    assert(entry_ok(s, exec_seq(m0, s.ops), vals, v));
    if !holds(s.reg2, v) {
        let u = put2(s, v);
        let m2 = exec_seq(m0, u.ops);
        if holds(s.reg1, v) {
            lemma_spill1_sem(s, m0, vals);
            let t = spill1(s);
            lemma_exec_push(m0, t.ops, Op::DuplicateReg1IntoReg2);
            assert forall|k: usize| #[trigger] live(u, k) implies entry_ok(u, m2, vals, k) by {
                assert(live(t, k));
                assert(entry_ok(t, exec_seq(m0, t.ops), vals, k));
            }
        } else {
            lemma_exec_push(m0, s.ops, load2_op(s.values[v as int]));
            assert forall|k: usize| #[trigger] live(u, k) implies entry_ok(u, m2, vals, k) by {
                assert(live(s, k));
                assert(entry_ok(s, exec_seq(m0, s.ops), vals, k));
            }
        }
    }
}

/// The machine and session right before `dirty1` in an addition: the first
/// register holds `l` in the session and `sum` in the machine.
pub open spec fn pre_dirty(t2: CgState, m: Machine, vals: Map<usize, i64>, l: usize, sum: i64) -> bool {
    &&& !m.halted
    &&& m.mem.len() * 8 >= dirty1(t2).0.stack_ptr
    &&& holds(t2.reg1, l)
    &&& m.reg1 == sum
    &&& forall|i: usize| #[trigger] live(t2, i) && i != l ==> entry_ok(t2, m, vals, i)
    &&& live(t2, l) && vals.dom().contains(l)
    &&& (holds(t2.reg2, l) ==> m.reg2 == vals[l])
    &&& (t2.values[l as int] is Variable && t2.reg1 != Some((l, true))
        ==> m.mem[slot(var_pos(t2.values[l as int]))] == vals[l])
}

pub proof fn lemma_dirty1_sem(t2: CgState, m: Machine, vals: Map<usize, i64>, l: usize, sum: i64)
    requires
        wf(t2),
        room(t2),
        pre_dirty(t2, m, vals, l, sum),
    ensures
        dirty1(t2).1 is Some,
        consistent(dirty1(t2).0, m, vals.insert(dirty1(t2).1.unwrap(), sum)),
        is_readonly(t2.values[l as int]) ==> dirty1(t2).1.unwrap() != l,
        !is_readonly(t2.values[l as int]) ==> dirty1(t2).1.unwrap() == l,
{
    crate::state::lemma_dirty1(t2);
    let (u, res) = dirty1(t2);
    let j = res.unwrap();
    let vals2 = vals.insert(j, sum);
    let t3 = CgState { reg2: clear(t2.reg2, l), ..t2 };
    assert(wf(t3));
    match t2.values[l as int] {
        CGValue::Variable { data_type, readonly, .. } => {
            if readonly {
                crate::state::lemma_alloc(t3, data_type);
                assert forall|k: usize| #[trigger] live(u, k) implies entry_ok(u, m, vals2, k) by {
                    if k != j {
                        assert(live(t2, k));
                        assert(u.values[k as int] == t2.values[k as int]);
                        if k != l {
                            assert(entry_ok(t2, m, vals, k));
                        }
                    }
                }
            } else {
                assert forall|k: usize| #[trigger] live(u, k) implies entry_ok(u, m, vals2, k) by {
                    assert(live(t2, k));
                    if k != l {
                        assert(entry_ok(t2, m, vals, k));
                    }
                }
            }
        },
        CGValue::Constant(c) => {
            assert forall|k: usize| #[trigger] live(u, k) implies entry_ok(u, m, vals2, k) by {
                assert(live(t2, k));
                if k != l {
                    assert(u.values[k as int] == t2.values[k as int]);
                    assert(entry_ok(t2, m, vals, k));
                }
            }
        },
        CGValue::Free(_) => {},
    }
}

/// The machine meaning of an addition: afterwards the index it gives back
/// holds the wrapping sum, and every other live entry keeps its content.
pub proof fn lemma_add_sem(s: CgState, m0: Machine, vals: Map<usize, i64>, l: usize, r: usize)
    requires
        wf(s),
        room(s),
        live(s, l),
        live(s, r),
        consistent(s, exec_seq(m0, s.ops), vals),
        exec_seq(m0, s.ops).mem.len() * 8 >= add_val(s, l, r).0.stack_ptr,
    ensures
        consistent(
            add_val(s, l, r).0,
            exec_seq(m0, add_val(s, l, r).0.ops),
            vals.insert(add_val(s, l, r).1, vals[l].wrapping_add(vals[r])),
        ),
        exec_seq(m0, add_val(s, l, r).0.ops).mem.len() == exec_seq(m0, s.ops).mem.len(),
{
    let sum = vals[l].wrapping_add(vals[r]);
    assert(entry_ok(s, exec_seq(m0, s.ops), vals, r));
    assert(entry_ok(s, exec_seq(m0, s.ops), vals, l));
    lemma_put1_sem(s, m0, vals, l);
    lemma_put1(s, l);
    let t = put1(s, l);
    assert(live(t, r));
    let t2 = match s.values[r as int] {
        CGValue::Constant(c) => emit(t, Op::AddConst(c)),
        CGValue::Variable { data_type, .. } => emit(put2(t, r), Op::Add(data_type)),
        CGValue::Free(_) => t,
    };
    let m2 = exec_seq(m0, t2.ops);
    match s.values[r as int] {
        CGValue::Constant(c) => {
            lemma_exec_push(m0, t.ops, Op::AddConst(c));
            crate::state::lemma_emit_fits(t.ops, Op::AddConst(c), t.stack_size);
            assert forall|i: usize| #[trigger] live(t2, i) && i != l implies entry_ok(t2, m2, vals, i) by {
                assert(live(t, i));
                assert(entry_ok(t, exec_seq(m0, t.ops), vals, i));
            }
            assert(entry_ok(t, exec_seq(m0, t.ops), vals, l));
        },
        CGValue::Variable { data_type, .. } => {
            lemma_put2_sem(t, m0, vals, r);
            lemma_put2(t, r);
            let t1 = put2(t, r);
            lemma_exec_push(m0, t1.ops, Op::Add(data_type));
            crate::state::lemma_emit_fits(t1.ops, Op::Add(data_type), t1.stack_size);
            assert(live(t1, l));
            assert(entry_ok(t1, exec_seq(m0, t1.ops), vals, l));
            assert forall|i: usize| #[trigger] live(t2, i) && i != l implies entry_ok(t2, m2, vals, i) by {
                assert(live(t1, i));
                assert(entry_ok(t1, exec_seq(m0, t1.ops), vals, i));
            }
        },
        CGValue::Free(_) => {},
    }
    assert(pre_dirty(t2, m2, vals, l, sum));
    lemma_dirty1_sem(t2, m2, vals, l, sum);
}

/// The machine meaning of a clone: the new index holds the content of `v`,
/// and every live entry keeps its own.
pub proof fn lemma_clone_sem(s: CgState, m0: Machine, vals: Map<usize, i64>, v: usize)
    requires
        wf(s),
        room(s),
        live(s, v),
        consistent(s, exec_seq(m0, s.ops), vals),
        exec_seq(m0, s.ops).mem.len() * 8 >= clone_val(s, v).0.stack_ptr,
    ensures
        consistent(
            clone_val(s, v).0,
            exec_seq(m0, clone_val(s, v).0.ops),
            vals.insert(clone_val(s, v).1, vals[v]),
        ),
        exec_seq(m0, clone_val(s, v).0.ops).mem.len() == exec_seq(m0, s.ops).mem.len(),
{
    crate::state::lemma_clone(s, v);
    assert(entry_ok(s, exec_seq(m0, s.ops), vals, v));
    let (u2, j) = clone_val(s, v);
    let vals2 = vals.insert(j, vals[v]);
    match s.values[v as int] {
        CGValue::Variable { data_type, .. } => {
            lemma_spill1_sem(s, m0, vals);
            lemma_spill1(s);
            let t0 = spill1(s);
            lemma_put1_sem(t0, m0, vals, v);
            lemma_put1(t0, v);
            let t = put1(t0, v);
            crate::state::lemma_alloc(t, data_type);
            let u = crate::state::alloc_slot(t, data_type).0;
            let p = crate::state::pos_of(u.values[j as int]).unwrap_or(0);
            lemma_exec_push(m0, u.ops, Op::StoreReg1(p));
            let m = exec_seq(m0, t.ops);
            let m2 = exec_seq(m0, u2.ops);
            assert(u.ops == t.ops);
            assert(slot(p) < m.mem.len());
            assert forall|k: usize| #[trigger] live(u2, k) implies entry_ok(u2, m2, vals2, k) by {
                if k != j {
                    assert(live(t, k));
                    assert(entry_ok(t, m, vals, k));
                    assert(u.values[k as int] == t.values[k as int]);
                    if u2.values[k as int] is Variable {
                        assert(pos_distinct(u, k, j));
                        assert(slot(var_pos(u2.values[k as int])) != slot(p));
                    }
                }
            }
        },
        _ => {
            assert forall|k: usize| #[trigger] live(u2, k) implies entry_ok(u2, exec_seq(m0, u2.ops), vals2, k) by {
                if k != j {
                    assert(live(s, k));
                    assert(entry_ok(s, exec_seq(m0, s.ops), vals, k));
                }
            }
        },
    }
}

pub proof fn lemma_const_sem(s: CgState, m0: Machine, vals: Map<usize, i64>, c: ConstValue)
    requires
        wf(s),
        room(s),
        consistent(s, exec_seq(m0, s.ops), vals),
    ensures
        consistent(const_val(s, c).0, exec_seq(m0, s.ops), vals.insert(const_val(s, c).1, c.word())),
        const_val(s, c).0.ops == s.ops,
{
    let (u, j) = const_val(s, c);
    let vals2 = vals.insert(j, c.word());
    assert forall|k: usize| #[trigger] live(u, k) implies entry_ok(u, exec_seq(m0, s.ops), vals2, k) by {
        if k != j {
            assert(u.values[k as int] == s.values[k as int]);
            assert(live(s, k));
            assert(entry_ok(s, exec_seq(m0, s.ops), vals, k));
        } else {
            assert(!holds(s.reg1, j));
            assert(!holds(s.reg2, j));
            assert(u.values[j as int] == CGValue::Constant(c));
        }
    }
}

pub proof fn lemma_free_sem(s: CgState, m0: Machine, vals: Map<usize, i64>, v: usize)
    requires
        wf(s),
        v < s.values.len(),
        consistent(s, exec_seq(m0, s.ops), vals),
    ensures
        consistent(free_val(s, v), exec_seq(m0, s.ops), vals),
        free_val(s, v).ops == s.ops,
{
    let u = free_val(s, v);
    assert forall|k: usize| #[trigger] live(u, k) implies entry_ok(u, exec_seq(m0, s.ops), vals, k) by {
        assert(live(s, k));
        assert(entry_ok(s, exec_seq(m0, s.ops), vals, k));
    }
}

/// A return stores the content of `v` in the first word and stops.
pub proof fn lemma_ret_sem(s: CgState, m0: Machine, vals: Map<usize, i64>, v: usize)
    requires
        wf(s),
        live(s, v),
        consistent(s, exec_seq(m0, s.ops), vals),
        exec_seq(m0, s.ops).mem.len() >= 1,
    ensures
        exec_seq(m0, ret_val(s, v).ops).mem[0] == vals[v],
        exec_seq(m0, ret_val(s, v).ops).halted,
{
    lemma_put1_sem(s, m0, vals, v);
    let t = put1(s, v);
    lemma_exec_push(m0, t.ops, Op::StoreReg1(0));
    lemma_exec_push(m0, t.ops.push(Op::StoreReg1(0)), Op::Return);
}

/// The values of a session's arguments, one per argument word.
pub open spec fn arg_contents(args: Seq<i64>) -> Map<usize, i64> {
    Map::new(|i: usize| i < args.len(), |i: usize| args[i as int])
}

/// A fresh session agrees with a machine whose stack starts with the
/// arguments.
pub proof fn lemma_initial_sem(args: Seq<i64>, m0: Machine)
    requires
        args.len() * 8 <= usize::MAX,
        !m0.halted,
        m0.mem.len() >= args.len(),
        m0.mem.len() >= 1,
        forall|i: int| 0 <= i < args.len() ==> m0.mem[i] == args[i],
    ensures
        consistent(initial(args.len() as usize), exec_seq(m0, initial(args.len() as usize).ops), arg_contents(args)),
{
    let s = initial(args.len() as usize);
    assert(exec_seq(m0, s.ops) == m0);
    assert forall|k: usize| #[trigger] live(s, k) implies entry_ok(s, m0, arg_contents(args), k) by {
        assert(slot((k * 8) as usize) == k);
    }
}

/// What each entry of a session holds, as a function of the arguments.
pub type Contents = spec_fn(Seq<i64>) -> Map<usize, i64>;

/// A machine that a call of the session's code may start from: running, with
/// the arguments in its first words and room for every slot of the session.
pub open spec fn starts(s: CgState, m0: Machine) -> bool {
    &&& !m0.halted
    &&& m0.mem.len() * 8 >= s.stack_ptr
    &&& m0.mem.len() >= s.args_size
    &&& m0.mem.len() >= 1
}

/// Operations that fit the frame keep the machine's stack at its length.
pub proof fn lemma_exec_len(m0: Machine, ops: Seq<Op>, ss: usize)
    requires
        crate::machine::ops_fit(ops, ss),
        m0.mem.len() * 8 >= ss,
        m0.mem.len() >= 1,
    ensures
        exec_seq(m0, ops).mem.len() == m0.mem.len(),
    decreases ops.len(),
{
    if ops.len() > 0 {
        let init = ops.drop_last();
        assert forall|k: int| 0 <= k < init.len() implies (#[trigger] init[k]).fits(frame_words(ss, 0)) by {
            assert(init[k] == ops[k]);
        }
        lemma_exec_len(m0, init, ss);
        assert(ops.last() == ops[ops.len() - 1]);
        assert(ops.last().fits(frame_words(ss, 0)));
    }
}

/// The session's code so far computes `f`: from every start, the machine
/// agrees with the session on the contents that `f` gives for the arguments.
pub open spec fn sem_ok(s: CgState, f: Contents) -> bool {
    forall|m0: Machine| #[trigger] starts(s, m0) ==> consistent(
        s,
        exec_seq(m0, s.ops),
        f(m0.mem.take(s.args_size as int)),
    )
}

pub proof fn lemma_sem_initial(n: usize)
    requires
        n * 8 <= usize::MAX,
    ensures
        sem_ok(initial(n), |a: Seq<i64>| arg_contents(a)),
{
    let s = initial(n);
    assert forall|m0: Machine| #[trigger] starts(s, m0) implies consistent(
        s,
        exec_seq(m0, s.ops),
        arg_contents(m0.mem.take(n as int)),
    ) by {
        let a = m0.mem.take(n as int);
        assert(a.len() == n);
        assert(initial(a.len() as usize) == s);
        lemma_initial_sem(a, m0);
    }
}

pub proof fn lemma_sem_const(s: CgState, f: Contents, c: ConstValue)
    requires
        wf(s),
        room(s),
        sem_ok(s, f),
    ensures
        sem_ok(const_val(s, c).0, |a: Seq<i64>| f(a).insert(const_val(s, c).1, c.word())),
{
    let (u, j) = const_val(s, c);
    assert forall|m0: Machine| #[trigger] starts(u, m0) implies consistent(
        u,
        exec_seq(m0, u.ops),
        f(m0.mem.take(u.args_size as int)).insert(j, c.word()),
    ) by {
        assert(starts(s, m0));
        lemma_const_sem(s, m0, f(m0.mem.take(s.args_size as int)), c);
    }
}

pub proof fn lemma_sem_free(s: CgState, f: Contents, v: usize)
    requires
        wf(s),
        v < s.values.len(),
        sem_ok(s, f),
    ensures
        sem_ok(free_val(s, v), f),
{
    let u = free_val(s, v);
    assert forall|m0: Machine| #[trigger] starts(u, m0) implies consistent(
        u,
        exec_seq(m0, u.ops),
        f(m0.mem.take(u.args_size as int)),
    ) by {
        assert(starts(s, m0));
        lemma_free_sem(s, m0, f(m0.mem.take(s.args_size as int)), v);
    }
}

pub proof fn lemma_sem_clone(s: CgState, f: Contents, v: usize)
    requires
        wf(s),
        room(s),
        live(s, v),
        sem_ok(s, f),
    ensures
        sem_ok(clone_val(s, v).0, |a: Seq<i64>| f(a).insert(clone_val(s, v).1, f(a)[v])),
{
    let (u, j) = clone_val(s, v);
    crate::state::lemma_clone(s, v);
    assert forall|m0: Machine| #[trigger] starts(u, m0) implies consistent(
        u,
        exec_seq(m0, u.ops),
        f(m0.mem.take(u.args_size as int)).insert(j, f(m0.mem.take(u.args_size as int))[v]),
    ) by {
        assert(starts(s, m0));
        lemma_exec_len(m0, s.ops, s.stack_size);
        lemma_clone_sem(s, m0, f(m0.mem.take(s.args_size as int)), v);
    }
}

pub proof fn lemma_sem_add(s: CgState, f: Contents, l: usize, r: usize)
    requires
        wf(s),
        room(s),
        live(s, l),
        live(s, r),
        sem_ok(s, f),
    ensures
        sem_ok(
            add_val(s, l, r).0,
            |a: Seq<i64>| f(a).insert(add_val(s, l, r).1, f(a)[l].wrapping_add(f(a)[r])),
        ),
{
    let (u, j) = add_val(s, l, r);
    crate::state::lemma_add(s, l, r);
    assert forall|m0: Machine| #[trigger] starts(u, m0) implies consistent(
        u,
        exec_seq(m0, u.ops),
        f(m0.mem.take(u.args_size as int)).insert(
            j,
            f(m0.mem.take(u.args_size as int))[l].wrapping_add(f(m0.mem.take(u.args_size as int))[r]),
        ),
    ) by {
        assert(starts(s, m0));
        lemma_exec_len(m0, s.ops, s.stack_size);
        lemma_add_sem(s, m0, f(m0.mem.take(s.args_size as int)), l, r);
    }
}

/// After a return of `v`, a call on arguments `a` gives the content of `v`.
pub proof fn lemma_sem_ret(s: CgState, f: Contents, v: usize, a: Seq<i64>)
    requires
        wf(s),
        live(s, v),
        sem_ok(s, f),
        a.len() == s.args_size,
    ensures
        result_of(ret_val(s, v).ops, ret_val(s, v).stack_size, a) == f(a)[v],
{
    let u = ret_val(s, v);
    crate::state::lemma_ret(s, v);
    let words = frame_words(u.stack_size, a.len());
    let m0 = Machine { reg1: 0, reg2: 0, mem: entry_stack(a, words), halted: false };
    assert(starts(s, m0));
    assert(m0.mem.take(s.args_size as int) =~= a);
    lemma_exec_len(m0, s.ops, s.stack_size);
    lemma_ret_sem(s, m0, f(a), v);
    lemma_run_exec(u.ops, u.ops.len(), m0);
    assert(u.ops.subrange(0, u.ops.len() as int) =~= u.ops);
}

pub open spec fn pos_distinct(s: CgState, a: usize, b: usize) -> bool {
    crate::state::pos_of(s.values[a as int]) != crate::state::pos_of(s.values[b as int])
}

} // verus!
