use vstd::prelude::*;
use crate::ir::{ConstValue, DataType, Op};
use crate::machine::{entry_stack, frame_words, result_of, run, step, Machine};
use crate::semantics::{var_pos, consistent, entry_ok, exec_seq, lemma_add_sem, lemma_clone_sem};
use crate::state::{
    add_val, alloc_slot, clone_val, const_val, dirty1, free_val, holds, initial, is_free,
    is_readonly, is_mutable_var, lemma_spill1, pos_of, spill1, lemma_clone, lemma_put1, lemma_put2, live, put1, put2, ret_val, room,
    wf, CGValue, CgState,
};

verus! {

/// The operations of a session with one argument, one constant `b`, the sum
/// of the two (the argument given up) and a return of that sum.
pub open spec fn arg_plus_const(b: i64) -> CgState {
    let s0 = initial(1);
    let (s1, c) = const_val(s0, ConstValue::I64(b));
    let (s2, sum) = add_val(s1, 0, c);
    ret_val(s2, sum)
}

/// Round trip: for every pair of 64-bit integers, the session above called
/// with `a` returns the wrapping sum `a + b`.
pub proof fn lemma_round_trip(a: i64, b: i64)
    ensures
        result_of(arg_plus_const(b).ops, arg_plus_const(b).stack_size, seq![a]) == a.wrapping_add(b),
{
    let s = arg_plus_const(b);
    let ops = seq![Op::TakeReg1Stack(0), Op::AddConst(ConstValue::I64(b)), Op::StoreReg1(0), Op::Return];
    assert(initial(1).values[0] == CGValue::Variable { data_type: DataType::I64, stack_pos: 0, readonly: true });
    assert(s.ops =~= ops);
    assert(s.stack_size == 16);
    let words = frame_words(16, 1);
    assert(words == 2);
    let m0 = Machine { reg1: 0, reg2: 0, mem: entry_stack(seq![a], words), halted: false };
    let m1 = step(m0, ops[0]);
    let m2 = step(m1, ops[1]);
    let m3 = step(m2, ops[2]);
    assert(run(ops, 0, m0) == m0);
    assert(run(ops, 1, m0) == m1);
    assert(run(ops, 2, m0) == m2);
    assert(run(ops, 3, m0) == m3);
    assert(m1.reg1 == a);
    assert(m3.mem[0] == a.wrapping_add(b));
    assert(run(ops, 4, m0).mem[0] == a.wrapping_add(b));
}

/// What an addition leaves of the other entries: every live entry but the
/// left operand keeps its content, and a read-only left operand keeps its own.
pub proof fn lemma_add_frame(s: CgState, l: usize, r: usize)
    requires
        wf(s),
        room(s),
        live(s, l),
        live(s, r),
    ensures
        forall|i: usize| #[trigger] live(s, i) && i != l ==> live(add_val(s, l, r).0, i)
            && add_val(s, l, r).0.values[i as int] == s.values[i as int],
        is_readonly(s.values[l as int]) ==> add_val(s, l, r).0.values[l as int] == s.values[l as int],
        live(add_val(s, l, r).0, l),
        add_val(s, l, r).1 == l || !live(s, add_val(s, l, r).1),
{
    lemma_put1(s, l);
    let t = put1(s, l);
    lemma_put2(t, r);
    let t2 = match s.values[r as int] {
        CGValue::Constant(c) => crate::state::emit(t, Op::AddConst(c)),
        CGValue::Variable { data_type, .. } => crate::state::emit(put2(t, r), Op::Add(data_type)),
        CGValue::Free(_) => t,
    };
    assert(t2.values == s.values);
    assert(holds(t2.reg1, l));
    match t2.values[l as int] {
        CGValue::Variable { data_type, readonly, .. } => {
            if readonly {
                let t3 = CgState { reg2: crate::state::clear(t2.reg2, l), ..t2 };
                assert(wf(t3));
                crate::state::lemma_alloc(t3, data_type);
            }
        },
        _ => {},
    }
}

/// In-place reuse: adding to a value that is not a read-only argument, with
/// the left operand given up, gives back that operand's own index.
pub proof fn lemma_add_in_place(s: CgState, l: usize, r: usize)
    requires
        wf(s),
        room(s),
        live(s, l),
        live(s, r),
        !is_readonly(s.values[l as int]),
    ensures
        add_val(s, l, r).1 == l,
        is_mutable_var(s.values[l as int]) ==> {
            &&& add_val(s, l, r).0.values == s.values
            &&& add_val(s, l, r).0.free_slots == s.free_slots
            &&& add_val(s, l, r).0.stack_ptr == s.stack_ptr
        },
{
    lemma_put1(s, l);
    lemma_put2(put1(s, l), r);
}

/// Copy on mutate: adding to a read-only argument puts the sum under a new
/// index, and the argument's entry stays as it was, usable afterwards.
pub proof fn lemma_copy_on_mutate(s: CgState, l: usize, r: usize)
    requires
        wf(s),
        room(s),
        live(s, l),
        live(s, r),
        is_readonly(s.values[l as int]),
    ensures
        add_val(s, l, r).1 != l,
        add_val(s, l, r).0.values[l as int] == s.values[l as int],
        live(add_val(s, l, r).0, l),
        add_val(s, l, r).1 == l || !live(s, add_val(s, l, r).1),
        is_mutable_var(add_val(s, l, r).0.values[add_val(s, l, r).1 as int]),
        pos_of(add_val(s, l, r).0.values[add_val(s, l, r).1 as int]) != pos_of(s.values[l as int]),
        add_val(s, l, r).0.reg1 == Some((add_val(s, l, r).1, true)),
        no_store(add_val(s, l, r).0.ops, s.ops.len() as int, var_pos(s.values[l as int])),
{
    lemma_add_frame(s, l, r);
    crate::state::lemma_add(s, l, r);
    lemma_put1(s, l);
    lemma_put2(put1(s, l), r);
    let p = var_pos(s.values[l as int]);
    let from = s.ops.len() as int;
    let (u, res) = add_val(s, l, r);
    assert(pos_of(u.values[res as int]) != pos_of(u.values[l as int]));
    assert(no_store(s.ops, from, p));
    lemma_spill1(s);
    let s1 = spill1(s);
    if let Some((i, d)) = s.reg1 {
        if d {
            assert(i != l);
            assert(pos_of(s.values[i as int]) != pos_of(s.values[l as int]));
            let q = pos_of(s.values[i as int]).unwrap_or(0);
            assert(q != p);
            lemma_no_store_push(s.ops, from, p, Op::StoreReg1(q));
        }
    }
    assert(no_store(s1.ops, from, p));
    if !holds(s.reg1, l) {
        lemma_no_store_push(s1.ops, from, p, crate::state::load1_op(s1.values[l as int]));
    }
    let t = put1(s, l);
    assert(no_store(t.ops, from, p));
    assert(t.reg1 == Some((l, false)));
    let t1 = put2(t, r);
    if !holds(t.reg2, r) {
        if holds(t.reg1, r) {
            assert(spill1(t) == t);
            lemma_no_store_push(t.ops, from, p, Op::DuplicateReg1IntoReg2);
        } else {
            lemma_no_store_push(t.ops, from, p, crate::state::load2_op(t.values[r as int]));
        }
    }
    assert(no_store(t1.ops, from, p));
    match s.values[r as int] {
        CGValue::Constant(c) => lemma_no_store_push(t.ops, from, p, Op::AddConst(c)),
        CGValue::Variable { data_type, .. } => lemma_no_store_push(t1.ops, from, p, Op::Add(data_type)),
        CGValue::Free(_) => {},
    }
    let t2 = match s.values[r as int] {
        CGValue::Constant(c) => crate::state::emit(t, Op::AddConst(c)),
        CGValue::Variable { data_type, .. } => crate::state::emit(put2(t, r), Op::Add(data_type)),
        CGValue::Free(_) => t,
    };
    let t3 = CgState { reg2: crate::state::clear(t2.reg2, l), ..t2 };
    assert(wf(t3));
    let dt = DataType::I64;
    crate::state::lemma_alloc(t3, dt);
}

/// No operation from position `from` on stores to offset `p`.
pub open spec fn no_store(ops: Seq<Op>, from: int, p: usize) -> bool {
    forall|k: int| from <= k < ops.len() ==> #[trigger] ops[k] != Op::StoreReg1(p)
}

pub proof fn lemma_no_store_push(ops: Seq<Op>, from: int, p: usize, op: Op)
    requires
        no_store(ops, from, p),
        op != Op::StoreReg1(p),
        0 <= from <= ops.len(),
    ensures
        no_store(ops.push(op), from, p),
{
    assert forall|k: int| from <= k < ops.push(op).len() implies #[trigger] ops.push(op)[k] != Op::StoreReg1(p) by {
        if k < ops.len() {
            assert(ops.push(op)[k] == ops[k]);
        }
    }
}

/// Freeing an entry that is already free changes nothing, so the free list
/// never gets an index twice.
pub proof fn lemma_double_free(s: CgState, v: usize)
    requires
        wf(s),
        v < s.values.len(),
    ensures
        free_val(free_val(s, v), v) == free_val(s, v),
{
}

/// Last in, first out: after freeing a mutable entry, the next allocation
/// takes that index again, and for a variable its stack offset too, with no
/// new offset carved out.
pub proof fn lemma_free_then_alloc(s: CgState, v: usize, dt: DataType)
    requires
        wf(s),
        room(s),
        v < s.values.len(),
        !is_free(s.values[v as int]),
        !is_readonly(s.values[v as int]),
    ensures
        alloc_slot(free_val(s, v), dt).1 == v,
        s.values[v as int] matches CGValue::Variable { stack_pos, .. } ==> {
            &&& alloc_slot(free_val(s, v), dt).0.values[v as int] == (CGValue::Variable {
                data_type: dt,
                stack_pos,
                readonly: false,
            })
            &&& alloc_slot(free_val(s, v), dt).0.stack_ptr == s.stack_ptr
        },
{
    let t = free_val(s, v);
    assert(t.free_slots.last() == v);
}

/// Clone independence: a clone gets an index of its own, and changing
/// either of the two afterwards leaves the other's entry as it was.
pub proof fn lemma_clone_independent(s: CgState, v: usize, r: usize)
    requires
        wf(s),
        s.stack_ptr + 24 <= usize::MAX,
        s.values.len() + 3 <= usize::MAX,
        live(s, v),
        live(s, r),
    ensures
        clone_val(s, v).1 != v,
        add_val(clone_val(s, v).0, clone_val(s, v).1, r).0.values[v as int] == s.values[v as int],
        add_val(clone_val(s, v).0, v, r).0.values[clone_val(s, v).1 as int]
            == clone_val(s, v).0.values[clone_val(s, v).1 as int],
{
    lemma_clone(s, v);
    let (t, w) = clone_val(s, v);
    assert(live(t, v));
    assert(live(t, r));
    lemma_add_frame(t, w, r);
    lemma_add_frame(t, v, r);
}

/// Register aliasing: once a value is in both registers and the first one is
/// changed, the second no longer claims to hold that value, nor the index
/// that now owns the changed content.
pub proof fn lemma_alias_dropped(s: CgState, v: usize)
    requires
        wf(s),
        room(s),
        live(s, v),
    ensures
        holds(put2(put1(s, v), v).reg1, v),
        holds(put2(put1(s, v), v).reg2, v),
        dirty1(put2(put1(s, v), v)).1 matches Some(j) && {
            let u = dirty1(put2(put1(s, v), v)).0;
            &&& u.reg1 == Some((j, true))
            &&& !holds(u.reg2, j)
            &&& !holds(u.reg2, v)
        },
{
    lemma_put1(s, v);
    lemma_put2(put1(s, v), v);
    let t = put2(put1(s, v), v);
    crate::state::lemma_dirty1(t);
}

/// Copy on mutate, at run time: where the machine agrees with the session,
/// adding to a read-only argument leaves the argument's content as it was
/// and puts the sum under another index.
pub proof fn lemma_copy_on_mutate_sem(
    s: CgState,
    m0: Machine,
    vals: Map<usize, i64>,
    l: usize,
    r: usize,
)
    requires
        wf(s),
        room(s),
        live(s, l),
        live(s, r),
        is_readonly(s.values[l as int]),
        consistent(s, exec_seq(m0, s.ops), vals),
        exec_seq(m0, s.ops).mem.len() * 8 >= s.stack_ptr + 8,
    ensures
        ({
            let (u, res) = add_val(s, l, r);
            let after = vals.insert(res, vals[l].wrapping_add(vals[r]));
            &&& res != l
            &&& consistent(u, exec_seq(m0, u.ops), after)
            &&& live(u, l) && after[l] == vals[l]
        }),
{
    lemma_copy_on_mutate(s, l, r);
    crate::state::lemma_add(s, l, r);
    lemma_add_sem(s, m0, vals, l, r);
}

/// Clone independence, at run time: where the machine agrees with the
/// session, after cloning `v` into `w`, adding `r` to either one gives that
/// one the sum and leaves the other with the content that `v` had.
pub proof fn lemma_clone_independent_sem(
    s: CgState,
    m0: Machine,
    vals: Map<usize, i64>,
    v: usize,
    r: usize,
)
    requires
        wf(s),
        s.stack_ptr + 24 <= usize::MAX,
        s.values.len() + 3 <= usize::MAX,
        live(s, v),
        live(s, r),
        consistent(s, exec_seq(m0, s.ops), vals),
        exec_seq(m0, s.ops).mem.len() * 8 >= s.stack_ptr + 16,
    ensures
        ({
            let (t, w) = clone_val(s, v);
            let cloned = vals.insert(w, vals[v]);
            let sum = vals[v].wrapping_add(vals[r]);
            let (u1, x1) = add_val(t, w, r);
            let (u2, x2) = add_val(t, v, r);
            &&& w != v
            &&& x1 == w
            &&& consistent(u1, exec_seq(m0, u1.ops), cloned.insert(x1, sum))
            &&& cloned.insert(x1, sum)[v] == vals[v] && live(u1, v)
            &&& x2 != w
            &&& consistent(u2, exec_seq(m0, u2.ops), cloned.insert(x2, sum))
            &&& cloned.insert(x2, sum)[w] == vals[v] && live(u2, w)
        }),
{
    lemma_clone(s, v);
    lemma_clone_sem(s, m0, vals, v);
    let (t, w) = clone_val(s, v);
    let cloned = vals.insert(w, vals[v]);
    assert(live(t, v));
    assert(live(t, r));
    assert(cloned[v] == vals[v]);
    assert(cloned[r] == vals[r]) by {
        assert(entry_ok(t, exec_seq(m0, t.ops), cloned, r));
        assert(entry_ok(s, exec_seq(m0, s.ops), vals, r));
        if r == w {
            assert(!live(s, w) || w == v);
        }
    };
    crate::state::lemma_add(t, w, r);
    crate::state::lemma_add(t, v, r);
    lemma_add_in_place(t, w, r);
    lemma_add_frame(t, w, r);
    lemma_add_frame(t, v, r);
    lemma_add_sem(t, m0, cloned, w, r);
    lemma_add_sem(t, m0, cloned, v, r);
}

} // verus!
