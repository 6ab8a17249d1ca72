use vstd::prelude::*;
use crate::ir::{ConstValue, DataType, Op};
use crate::machine::{frame_words, ops_fit};

verus! {

/// One entry of the value table.
#[derive(Clone, Copy, Debug, PartialEq, Eq, Structural)]
pub enum CGValue {
    /// A value with a stack slot; `readonly` only for function arguments.
    Variable { data_type: DataType, stack_pos: usize, readonly: bool },
    /// An inline literal with no storage until it is first mutated.
    Constant(ConstValue),
    /// A reclaimed entry, with the stack offset it held, if it had one.
    Free(Option<usize>),
}

/// The stack offset that an entry holds or keeps for reuse.
pub open spec fn pos_of(v: CGValue) -> Option<usize> {
    match v {
        CGValue::Variable { stack_pos, .. } => Some(stack_pos),
        CGValue::Free(p) => p,
        CGValue::Constant(_) => None,
    }
}

pub open spec fn is_free(v: CGValue) -> bool {
    v is Free
}

pub open spec fn is_readonly(v: CGValue) -> bool {
    v matches CGValue::Variable { readonly, .. } && readonly
}

pub open spec fn is_mutable_var(v: CGValue) -> bool {
    v matches CGValue::Variable { readonly, .. } && !readonly
}

/// A register entry: the table index it holds and whether it is dirty.
pub type RegEntry = Option<(usize, bool)>;

pub open spec fn holds(r: RegEntry, i: usize) -> bool {
    r matches Some((j, _)) && j == i
}

/// Abstract state of one generation session.
pub struct CgState {
    pub args_size: usize,
    pub values: Seq<CGValue>,
    pub free_slots: Seq<usize>,
    pub reg1: RegEntry,
    pub reg2: RegEntry,
    pub ops: Seq<Op>,
    pub stack_ptr: usize,
    pub stack_size: usize,
}

/// An entry that a handle may refer to.
pub open spec fn live(s: CgState, i: usize) -> bool {
    i < s.values.len() && !is_free(s.values[i as int])
}

/// The table that a session starts with: one read-only slot per argument.
pub open spec fn arg_values(args: usize) -> Seq<CGValue> {
    Seq::new(
        args as nat,
        |i: int| CGValue::Variable { data_type: DataType::I64, stack_pos: (i * 8) as usize, readonly: true },
    )
}

/// The first offset past the argument slots and the return slot at offset
/// 0 (which is the first argument's slot when there is one).
pub open spec fn first_free_offset(args: usize) -> usize {
    if args == 0 { 8 } else { (args * 8) as usize }
}

pub open spec fn initial(args: usize) -> CgState {
    CgState {
        args_size: args,
        values: arg_values(args),
        free_slots: Seq::empty(),
        reg1: None,
        reg2: None,
        ops: Seq::empty(),
        stack_ptr: first_free_offset(args),
        stack_size: first_free_offset(args),
    }
}

/// Room for one more operation: the next slot and the next entry fit.
pub open spec fn room(s: CgState) -> bool {
    s.stack_ptr + 16 <= usize::MAX && s.values.len() + 2 <= usize::MAX
}

// ---- well-formedness ----

pub open spec fn args_wf(s: CgState) -> bool {
    &&& s.args_size <= s.values.len()
    &&& s.args_size * 8 <= s.stack_ptr
    &&& forall|i: int| 0 <= i < s.values.len() && is_readonly(#[trigger] s.values[i]) ==> i < s.args_size
    &&& forall|i: int| 0 <= i < s.args_size ==> (#[trigger] s.values[i]) == (CGValue::Variable {
        data_type: DataType::I64, stack_pos: (i * 8) as usize, readonly: true })
}

pub open spec fn slots_wf(s: CgState) -> bool {
    &&& s.stack_ptr % 8 == 0
    &&& s.stack_ptr >= 8
    &&& s.stack_size == s.stack_ptr
    &&& forall|i: int| 0 <= i < s.values.len() ==> (#[trigger] pos_of(s.values[i]) matches Some(p)
        ==> p % 8 == 0 && p + 8 <= s.stack_ptr && (i >= s.args_size ==> p >= s.args_size * 8))
    &&& forall|i: int, j: int| 0 <= i < s.values.len() && 0 <= j < s.values.len() && i != j
        && #[trigger] pos_of(s.values[i]) is Some && #[trigger] pos_of(s.values[j]) is Some
        ==> pos_of(s.values[i]) != pos_of(s.values[j])
}

pub open spec fn free_list_wf(s: CgState) -> bool {
    &&& forall|k: int| 0 <= k < s.free_slots.len() ==> (#[trigger] s.free_slots[k]) < s.values.len()
        && is_free(s.values[s.free_slots[k] as int])
    &&& forall|k: int, l: int| 0 <= k < s.free_slots.len() && 0 <= l < s.free_slots.len() && k != l
        ==> #[trigger] s.free_slots[k] != #[trigger] s.free_slots[l]
}

pub open spec fn regs_wf(s: CgState) -> bool {
    &&& (s.reg1 matches Some((i, d)) ==> live(s, i) && (d ==> is_mutable_var(s.values[i as int])))
    &&& (s.reg2 matches Some((i, d)) ==> live(s, i) && !d)
    &&& (s.reg1 matches Some((i, d)) ==> (d ==> !holds(s.reg2, i)))
}

/// The session invariant.
pub open spec fn wf(s: CgState) -> bool {
    &&& args_wf(s)
    &&& slots_wf(s)
    &&& free_list_wf(s)
    &&& regs_wf(s)
    &&& ops_fit(s.ops, s.stack_size)
}

// ---- transitions ----

pub open spec fn emit(s: CgState, op: Op) -> CgState {
    CgState { ops: s.ops.push(op), ..s }
}

/// Writes a dirty first register back to its value's slot.
pub open spec fn spill1(s: CgState) -> CgState {
    match s.reg1 {
        Some((i, true)) => CgState {
            reg1: Some((i, false)),
            ..emit(s, Op::StoreReg1(pos_of(s.values[i as int]).unwrap_or(0)))
        },
        _ => s,
    }
}

pub open spec fn load1_op(v: CGValue) -> Op {
    match v {
        CGValue::Constant(c) => Op::TakeReg1Const(c),
        _ => Op::TakeReg1Stack(pos_of(v).unwrap_or(0)),
    }
}

pub open spec fn load2_op(v: CGValue) -> Op {
    match v {
        CGValue::Constant(c) => Op::TakeReg2Const(c),
        _ => Op::TakeReg2Stack(pos_of(v).unwrap_or(0)),
    }
}

/// Brings value `v` into the first register.
pub open spec fn put1(s: CgState, v: usize) -> CgState {
    if holds(s.reg1, v) {
        s
    } else {
        let t = spill1(s);
        CgState { reg1: Some((v, false)), ..emit(t, load1_op(t.values[v as int])) }
    }
}

/// Brings value `v` into the second register, copying it from the first
/// register where it is there.
pub open spec fn put2(s: CgState, v: usize) -> CgState {
    if holds(s.reg2, v) {
        s
    } else if holds(s.reg1, v) {
        let t = spill1(s);
        CgState { reg2: Some((v, false)), ..emit(t, Op::DuplicateReg1IntoReg2) }
    } else {
        CgState { reg2: Some((v, false)), ..emit(s, load2_op(s.values[v as int])) }
    }
}

/// A fresh stack slot: the next offset, which raises the high-water mark.
pub open spec fn carve(s: CgState) -> CgState {
    CgState {
        stack_ptr: (s.stack_ptr + 8) as usize,
        stack_size: (s.stack_ptr + 8) as usize,
        ..s
    }
}

/// Takes an index for a new mutable variable: the most recently freed one if
/// any, else a new entry; its offset is the one the entry kept, else fresh.
pub open spec fn alloc_slot(s: CgState, dt: DataType) -> (CgState, usize) {
    let (t, i) = if s.free_slots.len() > 0 {
        (CgState { free_slots: s.free_slots.drop_last(), ..s }, s.free_slots.last())
    } else {
        (CgState { values: s.values.push(CGValue::Free(None)), ..s }, s.values.len() as usize)
    };
    match t.values[i as int] {
        CGValue::Free(Some(p)) => (
            CgState {
                values: t.values.update(
                    i as int,
                    CGValue::Variable { data_type: dt, stack_pos: p, readonly: false },
                ),
                ..t
            },
            i,
        ),
        _ => (
            CgState {
                values: t.values.update(
                    i as int,
                    CGValue::Variable { data_type: dt, stack_pos: t.stack_ptr, readonly: false },
                ),
                ..carve(t)
            },
            i,
        ),
    }
}

pub open spec fn clear(r: RegEntry, v: usize) -> RegEntry {
    if holds(r, v) {
        None
    } else {
        r
    }
}

/// Marks the first register as changed, and gives the index that now owns
/// its content: a read-only value moves to a fresh slot, a constant becomes a
/// variable with a slot of its own, and a copy of the same index in the
/// second register is dropped.
pub open spec fn dirty1(s: CgState) -> (CgState, Option<usize>) {
    match s.reg1 {
        None => (s, None),
        Some((i, _)) => {
            let t = CgState { reg2: clear(s.reg2, i), ..s };
            match t.values[i as int] {
                CGValue::Variable { data_type, readonly, .. } => if readonly {
                    let (u, j) = alloc_slot(t, data_type);
                    (CgState { reg1: Some((j, true)), ..u }, Some(j))
                } else {
                    (CgState { reg1: Some((i, true)), ..t }, Some(i))
                },
                CGValue::Constant(c) => (
                    CgState {
                        values: t.values.update(
                            i as int,
                            CGValue::Variable {
                                data_type: c.spec_type(),
                                stack_pos: t.stack_ptr,
                                readonly: false,
                            },
                        ),
                        reg1: Some((i, true)),
                        ..carve(t)
                    },
                    Some(i),
                ),
                CGValue::Free(_) => (t, None),
            }
        },
    }
}

/// A new entry that holds the same content as `v`.
pub open spec fn clone_val(s: CgState, v: usize) -> (CgState, usize) {
    match s.values[v as int] {
        CGValue::Variable { data_type, .. } => {
            let t = put1(spill1(s), v);
            let (u, j) = alloc_slot(t, data_type);
            (
                CgState {
                    reg1: Some((j, false)),
                    ..emit(u, Op::StoreReg1(pos_of(u.values[j as int]).unwrap_or(0)))
                },
                j,
            )
        },
        _ => (CgState { values: s.values.push(s.values[v as int]), ..s }, s.values.len() as usize),
    }
}

/// Releases `v`: read-only and already free entries stay; others become free,
/// keep their offset, go on the free list and leave the registers.
pub open spec fn free_val(s: CgState, v: usize) -> CgState {
    match s.values[v as int] {
        CGValue::Variable { readonly, stack_pos, .. } => if readonly {
            s
        } else {
            CgState {
                values: s.values.update(v as int, CGValue::Free(Some(stack_pos))),
                free_slots: s.free_slots.push(v),
                reg1: clear(s.reg1, v),
                reg2: clear(s.reg2, v),
                ..s
            }
        },
        CGValue::Constant(_) => CgState {
            values: s.values.update(v as int, CGValue::Free(None)),
            free_slots: s.free_slots.push(v),
            reg1: clear(s.reg1, v),
            reg2: clear(s.reg2, v),
            ..s
        },
        CGValue::Free(_) => s,
    }
}

/// A new constant entry, appended to the table.
pub open spec fn const_val(s: CgState, c: ConstValue) -> (CgState, usize) {
    (CgState { values: s.values.push(CGValue::Constant(c)), ..s }, s.values.len() as usize)
}

/// One addition: left into the first register, right into the second (or
/// as an immediate where it is a constant), then the first register is
/// marked changed. Gives the index that holds the sum.
pub open spec fn add_val(s: CgState, l: usize, r: usize) -> (CgState, usize) {
    let t = put1(s, l);
    let t2 = match s.values[r as int] {
        CGValue::Constant(c) => emit(t, Op::AddConst(c)),
        CGValue::Variable { data_type, .. } => emit(put2(t, r), Op::Add(data_type)),
        CGValue::Free(_) => t,
    };
    let (u, res) = dirty1(t2);
    (u, res.unwrap_or(l))
}

/// Stores `v` into the return slot and returns.
pub open spec fn ret_val(s: CgState, v: usize) -> CgState {
    emit(emit(put1(s, v), Op::StoreReg1(0)), Op::Return)
}

// ---- preservation of the invariant ----

pub proof fn lemma_fits_grow(ops: Seq<Op>, a: usize, b: usize)
    requires
        ops_fit(ops, a),
        a <= b,
    ensures
        ops_fit(ops, b),
{
    assert forall|k: int| 0 <= k < ops.len() implies (#[trigger] ops[k]).fits(
        frame_words(b, 0),
    ) by {
        assert(ops[k].fits(frame_words(a, 0)));
    }
}

pub proof fn lemma_emit_fits(ops: Seq<Op>, op: Op, ss: usize)
    requires
        ops_fit(ops, ss),
        op.offset() matches Some(o) ==> o % 8 == 0 && (o == 0 || o + 8 <= ss),
    ensures
        ops_fit(ops.push(op), ss),
{
    assert forall|k: int| 0 <= k < ops.push(op).len() implies (#[trigger] ops.push(op)[k]).fits(
        frame_words(ss, 0),
    ) by {
        if k < ops.len() {
            assert(ops.push(op)[k] == ops[k]);
        }
    }
}

pub proof fn lemma_spill1(s: CgState)
    requires
        wf(s),
    ensures
        wf(spill1(s)),
        spill1(s).values == s.values,
        spill1(s).free_slots == s.free_slots,
        spill1(s).reg2 == s.reg2,
        spill1(s).stack_ptr == s.stack_ptr,
        spill1(s).args_size == s.args_size,
        s.reg1 matches Some((i, _)) ==> spill1(s).reg1 == Some((i, false)),
        s.reg1 is None ==> spill1(s).reg1 is None,
{
    if let Some((i, d)) = s.reg1 {
        if d {
            let p = pos_of(s.values[i as int]).unwrap_or(0);
            assert(pos_of(s.values[i as int]) is Some);
            lemma_emit_fits(s.ops, Op::StoreReg1(p), s.stack_size);
        }
    }
}

pub proof fn lemma_load_fits(s: CgState, v: usize)
    requires
        wf(s),
        live(s, v),
    ensures
        ops_fit(s.ops.push(load1_op(s.values[v as int])), s.stack_size),
        ops_fit(s.ops.push(load2_op(s.values[v as int])), s.stack_size),
{
    lemma_emit_fits(s.ops, load1_op(s.values[v as int]), s.stack_size);
    lemma_emit_fits(s.ops, load2_op(s.values[v as int]), s.stack_size);
}

pub proof fn lemma_put1(s: CgState, v: usize)
    requires
        wf(s),
        live(s, v),
    ensures
        wf(put1(s, v)),
        holds(put1(s, v).reg1, v),
        put1(s, v).values == s.values,
        put1(s, v).free_slots == s.free_slots,
        put1(s, v).reg2 == s.reg2,
        put1(s, v).stack_ptr == s.stack_ptr,
        put1(s, v).args_size == s.args_size,
{
    lemma_spill1(s);
    if !holds(s.reg1, v) {
        lemma_load_fits(spill1(s), v);
    }
}

pub proof fn lemma_put2(s: CgState, v: usize)
    requires
        wf(s),
        live(s, v),
    ensures
        wf(put2(s, v)),
        holds(put2(s, v).reg2, v),
        put2(s, v).values == s.values,
        put2(s, v).free_slots == s.free_slots,
        put2(s, v).stack_ptr == s.stack_ptr,
        put2(s, v).args_size == s.args_size,
        s.reg1 matches Some((i, _)) ==> put2(s, v).reg1 matches Some((j, _)) && i == j,
        s.reg1 is None ==> put2(s, v).reg1 is None,
{
    lemma_spill1(s);
    if !holds(s.reg2, v) && !holds(s.reg1, v) {
        lemma_load_fits(s, v);
    } else if !holds(s.reg2, v) {
        lemma_emit_fits(spill1(s).ops, Op::DuplicateReg1IntoReg2, s.stack_size);
    }
}

pub proof fn lemma_alloc(s: CgState, dt: DataType)
    requires
        wf(s),
        room(s),
    ensures
        ({
            let (u, j) = alloc_slot(s, dt);
            &&& wf(u)
            &&& j < u.values.len()
            &&& j >= s.args_size
            &&& u.values[j as int] matches CGValue::Variable { data_type, readonly, .. }
                && data_type == dt && !readonly
            &&& !holds(s.reg1, j) && !holds(s.reg2, j)
            &&& u.reg1 == s.reg1 && u.reg2 == s.reg2 && u.ops == s.ops && u.args_size == s.args_size
            &&& s.values.len() <= u.values.len() <= s.values.len() + 1
            &&& s.stack_ptr <= u.stack_ptr <= s.stack_ptr + 8
            &&& forall|i: int| 0 <= i < s.values.len() && i != j ==> u.values[i] == s.values[i]
            &&& (j < s.values.len() ==> is_free(s.values[j as int]))
        }),
{
    let (u, j) = alloc_slot(s, dt);
    if s.free_slots.len() > 0 {
        let k = s.free_slots.len() - 1;
        assert(s.free_slots[k as int] == j);
        let t = CgState { free_slots: s.free_slots.drop_last(), ..s };
        assert forall|a: int| 0 <= a < t.free_slots.len() implies (#[trigger] t.free_slots[a]) != j by {
            assert(t.free_slots[a] == s.free_slots[a]);
        }
        assert(forall|a: int| 0 <= a < t.free_slots.len() ==> #[trigger] t.free_slots[a] == s.free_slots[a]);
    } else {
        let t = CgState { values: s.values.push(CGValue::Free(None)), ..s };
        assert(forall|a: int| 0 <= a < s.values.len() ==> #[trigger] t.values[a] == s.values[a]);
    }
    lemma_fits_grow(s.ops, s.stack_size, u.stack_size);
    assert(args_wf(u));
    assert(slots_wf(u));
    assert(free_list_wf(u));
    assert(regs_wf(u));
}

pub proof fn lemma_dirty1(s: CgState)
    requires
        wf(s),
        room(s),
        s.reg1 is Some,
    ensures
        ({
            let (u, r) = dirty1(s);
            &&& wf(u)
            &&& r matches Some(j) && u.reg1 == Some((j, true))
            &&& u.ops == s.ops
            &&& u.values.len() <= s.values.len() + 1
            &&& u.stack_ptr <= s.stack_ptr + 8
        }),
{
    let i = s.reg1.unwrap().0;
    let t = CgState { reg2: clear(s.reg2, i), ..s };
    assert(wf(t));
    match t.values[i as int] {
        CGValue::Variable { data_type, readonly, .. } => {
            if readonly {
                lemma_alloc(t, data_type);
            }
        },
        CGValue::Constant(c) => {
            let u = dirty1(s).0;
            lemma_fits_grow(s.ops, s.stack_size, u.stack_size);
            assert(forall|a: int| 0 <= a < s.values.len() && a != i ==> #[trigger] u.values[a] == s.values[a]);
        },
        CGValue::Free(_) => {},
    }
}

pub proof fn lemma_clone(s: CgState, v: usize)
    requires
        wf(s),
        room(s),
        live(s, v),
    ensures
        ({
            let (u, j) = clone_val(s, v);
            &&& wf(u)
            &&& live(u, j)
            &&& j != v
            &&& forall|i: usize| #[trigger] live(s, i) ==> live(u, i) && u.values[i as int] == s.values[i as int]
            &&& u.values.len() <= s.values.len() + 1
            &&& u.stack_ptr <= s.stack_ptr + 8
        }),
{
    match s.values[v as int] {
        CGValue::Variable { data_type, .. } => {
            lemma_spill1(s);
            lemma_put1(spill1(s), v);
            let t = put1(spill1(s), v);
            lemma_alloc(t, data_type);
            let (u, j) = alloc_slot(t, data_type);
            assert(pos_of(u.values[j as int]) is Some);
            lemma_emit_fits(u.ops, Op::StoreReg1(pos_of(u.values[j as int]).unwrap_or(0)), u.stack_size);
        },
        _ => {
            let u = clone_val(s, v).0;
            assert(forall|a: int| 0 <= a < s.values.len() ==> #[trigger] u.values[a] == s.values[a]);
        },
    }
}

pub proof fn lemma_const(s: CgState, c: ConstValue)
    requires
        wf(s),
        room(s),
    ensures
        wf(const_val(s, c).0),
        live(const_val(s, c).0, const_val(s, c).1),
        forall|i: usize| #[trigger] live(s, i) ==> live(const_val(s, c).0, i),
        const_val(s, c).0.values.len() == s.values.len() + 1,
        const_val(s, c).0.stack_ptr == s.stack_ptr,
{
    let u = const_val(s, c).0;
    assert(forall|a: int| 0 <= a < s.values.len() ==> #[trigger] u.values[a] == s.values[a]);
}

pub proof fn lemma_free(s: CgState, v: usize)
    requires
        wf(s),
        v < s.values.len(),
    ensures
        wf(free_val(s, v)),
        free_val(s, v).values.len() == s.values.len(),
        free_val(s, v).stack_ptr == s.stack_ptr,
{
    let u = free_val(s, v);
    if !is_free(s.values[v as int]) && !is_readonly(s.values[v as int]) {
        assert(forall|a: int| 0 <= a < s.free_slots.len() ==> #[trigger] u.free_slots[a] == s.free_slots[a]);
        assert(u.free_slots[s.free_slots.len() as int] == v);
        assert(forall|a: int| 0 <= a < s.values.len() && a != v ==> #[trigger] u.values[a] == s.values[a]);
    }
}

pub proof fn lemma_add(s: CgState, l: usize, r: usize)
    requires
        wf(s),
        room(s),
        live(s, l),
        live(s, r),
    ensures
        wf(add_val(s, l, r).0),
        live(add_val(s, l, r).0, add_val(s, l, r).1),
        add_val(s, l, r).0.values.len() <= s.values.len() + 1,
        add_val(s, l, r).0.stack_ptr <= s.stack_ptr + 8,
{
    lemma_put1(s, l);
    let t = put1(s, l);
    match s.values[r as int] {
        CGValue::Constant(c) => {
            lemma_emit_fits(t.ops, Op::AddConst(c), t.stack_size);
            lemma_dirty1(emit(t, Op::AddConst(c)));
        },
        CGValue::Variable { data_type, .. } => {
            lemma_put2(t, r);
            lemma_emit_fits(put2(t, r).ops, Op::Add(data_type), t.stack_size);
            lemma_dirty1(emit(put2(t, r), Op::Add(data_type)));
        },
        CGValue::Free(_) => {},
    }
}

pub proof fn lemma_ret(s: CgState, v: usize)
    requires
        wf(s),
        live(s, v),
    ensures
        wf(ret_val(s, v)),
        ret_val(s, v).values == s.values,
        ret_val(s, v).stack_ptr == s.stack_ptr,
{
    lemma_put1(s, v);
    let t = put1(s, v);
    lemma_emit_fits(t.ops, Op::StoreReg1(0), t.stack_size);
    lemma_emit_fits(t.ops.push(Op::StoreReg1(0)), Op::Return, t.stack_size);
}

} // verus!
