use vstd::prelude::*;
use crate::ir::{ConstValue, DataType, Op};
use crate::machine::{result_of, GeneratedCode};
use crate::semantics::{
    arg_contents, var_pos, lemma_sem_add, lemma_sem_clone, lemma_sem_const, lemma_sem_free, lemma_sem_initial,
    lemma_sem_ret, sem_ok, Contents,
};
use crate::laws::{lemma_add_frame, lemma_add_in_place, lemma_copy_on_mutate, no_store};
use crate::state::{
    add_val, alloc_slot, clear, first_free_offset, holds, is_free, is_mutable_var, is_readonly, const_val, lemma_const, arg_values, carve, clone_val, dirty1, free_val, initial, lemma_add, lemma_alloc,
    lemma_clone, lemma_dirty1, lemma_free, lemma_put1, lemma_put2, lemma_ret, lemma_spill1, live, pos_of,
    put1, put2, ret_val, room, spill1, wf, CGValue, CgState, RegEntry,
};

verus! {

/// The value table, the two scratch registers and the emitted operations of
/// one generation session.
pub struct CodeGenInner {
    args_size: usize,
    values: Vec<CGValue>,
    free_slots: Vec<usize>,
    reg1: RegEntry,
    reg2: RegEntry,
    code: Vec<Op>,
    stack_ptr: usize,
    stack_size: usize,
}

impl View for CodeGenInner {
    type V = CgState;

    closed spec fn view(&self) -> CgState {
        CgState {
            args_size: self.args_size,
            values: self.values@,
            free_slots: self.free_slots@,
            reg1: self.reg1,
            reg2: self.reg2,
            ops: self.code@,
            stack_ptr: self.stack_ptr,
            stack_size: self.stack_size,
        }
    }
}

fn slot_of(v: CGValue) -> (r: usize)
    ensures
        r == pos_of(v).unwrap_or(0),
{
    match v {
        CGValue::Variable { stack_pos, .. } => stack_pos,
        CGValue::Free(Some(p)) => p,
        _ => 0,
    }
}

impl CodeGenInner {
    fn arg_table(args: usize) -> (r: Vec<CGValue>)
        requires
            args * 8 <= usize::MAX,
        ensures
            r@ == arg_values(args),
    {
        let mut values: Vec<CGValue> = Vec::new();
        let mut i: usize = 0;
        while i < args
            invariant
                i <= args,
                args * 8 <= usize::MAX,
                values@ =~= arg_values(i),
                forall|k: int| 0 <= k < i ==> #[trigger] arg_values(i)[k] == arg_values(args)[k],
            decreases args - i,
        {
            values.push(CGValue::Variable { data_type: DataType::I64, stack_pos: i * 8, readonly: true });
            i = i + 1;
            assert(values@ =~= arg_values(i));
        }
        assert(values@ =~= arg_values(args));
        values
    }

    pub fn new(args: usize) -> (r: CodeGenInner)
        requires
            args * 8 <= usize::MAX,
        ensures
            r@ == initial(args),
            wf(r@),
    {
        let values = CodeGenInner::arg_table(args);
        let first: usize = if args == 0 { 8 } else { args * 8 };
        let r = CodeGenInner {
            args_size: args,
            values,
            free_slots: Vec::new(),
            reg1: None,
            reg2: None,
            code: Vec::new(),
            stack_ptr: first,
            stack_size: first,
        };
        proof {
            let s = initial(args);
            assert(r@.values =~= s.values);
            assert(r@.free_slots =~= s.free_slots);
            assert(r@.ops =~= s.ops);
            assert forall|i: int, j: int| 0 <= i < s.values.len() && 0 <= j < s.values.len() && i != j
                && #[trigger] pos_of(s.values[i]) is Some && #[trigger] pos_of(s.values[j]) is Some
                implies pos_of(s.values[i]) != pos_of(s.values[j]) by {
                assert(s.values[i] == CGValue::Variable { data_type: DataType::I64, stack_pos: (i * 8) as usize, readonly: true });
                assert(s.values[j] == CGValue::Variable { data_type: DataType::I64, stack_pos: (j * 8) as usize, readonly: true });
            }
        }
        r
    }

    pub fn reset(&mut self)
        requires
            wf(old(self)@),
        ensures
            final(self)@ == initial(old(self)@.args_size),
            wf(final(self)@),
    {
        *self = CodeGenInner::new(self.args_size);
    }

    /// Makes register `reg` free for another value: a dirty first register is
    /// written back to its slot; the second is never dirty.
    pub fn free_reg(&mut self, reg: usize)
        requires
            wf(old(self)@),
            reg < 2,
        ensures
            final(self)@ == (if reg == 0 { spill1(old(self)@) } else { old(self)@ }),
            wf(final(self)@),
    {
        proof { lemma_spill1(self@); }
        if reg == 0 {
            if let Some((i, dirty)) = self.reg1 {
                if dirty {
                    let p = slot_of(self.values[i]);
                    self.code.push(Op::StoreReg1(p));
                    self.reg1 = Some((i, false));
                }
            }
        }
    }

    pub fn put_in_reg1(&mut self, v: usize)
        requires
            wf(old(self)@),
            live(old(self)@, v),
        ensures
            final(self)@ == put1(old(self)@, v),
            wf(final(self)@),
    {
        proof { lemma_put1(self@, v); }
        if let Some((i, _)) = self.reg1 {
            if i == v {
                return;
            }
        }
        self.free_reg(0);
        let op = match self.values[v] {
            CGValue::Constant(c) => Op::TakeReg1Const(c),
            other => Op::TakeReg1Stack(slot_of(other)),
        };
        self.code.push(op);
        self.reg1 = Some((v, false));
    }

    pub fn put_in_reg2(&mut self, v: usize)
        requires
            wf(old(self)@),
            live(old(self)@, v),
        ensures
            final(self)@ == put2(old(self)@, v),
            wf(final(self)@),
    {
        proof { lemma_put2(self@, v); }
        if let Some((i, _)) = self.reg2 {
            if i == v {
                return;
            }
        }
        if let Some((i, _)) = self.reg1 {
            if i == v {
                self.free_reg(0);
                self.code.push(Op::DuplicateReg1IntoReg2);
                self.reg2 = Some((v, false));
                return;
            }
        }
        let op = match self.values[v] {
            CGValue::Constant(c) => Op::TakeReg2Const(c),
            other => Op::TakeReg2Stack(slot_of(other)),
        };
        self.code.push(op);
        self.reg2 = Some((v, false));
    }

    fn carve_slot(&mut self) -> (p: usize)
        requires
            old(self)@.stack_ptr + 8 <= usize::MAX,
            old(self)@.stack_size == old(self)@.stack_ptr,
        ensures
            final(self)@ == carve(old(self)@),
            p == old(self)@.stack_ptr,
    {
        let p = self.stack_ptr;
        self.stack_ptr = self.stack_ptr + 8;
        self.stack_size = self.stack_ptr;
        p
    }

    pub fn allocate_stack(&mut self, data_type: DataType) -> (r: usize)
        requires
            wf(old(self)@),
            room(old(self)@),
        ensures
            (final(self)@, r) == alloc_slot(old(self)@, data_type),
            wf(final(self)@),
            old(self)@.free_slots.len() > 0 ==> r == old(self)@.free_slots.last(),
            old(self)@.free_slots.len() > 0 ==> (old(self)@.values[old(self)@.free_slots.last() as int]
                matches CGValue::Free(Some(p)) ==> {
                &&& final(self)@.values[r as int] == (CGValue::Variable { data_type, stack_pos: p, readonly: false })
                &&& final(self)@.stack_ptr == old(self)@.stack_ptr
                &&& final(self)@.stack_size == old(self)@.stack_size
            }),
    {
        proof { lemma_alloc(self@, data_type); }
        let i = match self.free_slots.pop() {
            Some(i) => i,
            None => {
                let i = self.values.len();
                self.values.push(CGValue::Free(None));
                i
            },
        };
        let p = match self.values[i] {
            CGValue::Free(Some(p)) => p,
            _ => self.carve_slot(),
        };
        self.values.set(i, CGValue::Variable { data_type, stack_pos: p, readonly: false });
        i
    }

    pub fn dirty_reg1(&mut self) -> (r: Option<usize>)
        requires
            wf(old(self)@),
            room(old(self)@),
        ensures
            (final(self)@, r) == dirty1(old(self)@),
            wf(final(self)@),
            old(self)@.reg1 is None ==> r is None && final(self)@ == old(self)@,
            old(self)@.reg1 matches Some((i, _)) ==> !holds(final(self)@.reg2, i),
            r matches Some(j) ==> final(self)@.reg1 == Some((j, true)) && !holds(final(self)@.reg2, j),
    {
        proof {
            if self@.reg1 is Some {
                lemma_dirty1(self@);
                let i = self@.reg1.unwrap().0;
                let t = CgState { reg2: clear(self@.reg2, i), ..self@ };
                assert(wf(t));
                if let CGValue::Variable { data_type, readonly, .. } = self@.values[i as int] {
                    if readonly {
                        lemma_alloc(t, data_type);
                    }
                }
            }
        }
        let i = match self.reg1 {
            Some((i, _)) => i,
            None => { return None; },
        };
        if let Some((j, _)) = self.reg2 {
            if j == i {
                self.reg2 = None;
            }
        }
        match self.values[i] {
            CGValue::Variable { data_type, readonly, .. } => {
                if readonly {
                    let slot = self.allocate_stack(data_type);
                    self.reg1 = Some((slot, true));
                    Some(slot)
                } else {
                    self.reg1 = Some((i, true));
                    Some(i)
                }
            },
            CGValue::Constant(c) => {
                let stack_pos = self.carve_slot();
                self.values.set(i, CGValue::Variable { data_type: c.get_type(), stack_pos, readonly: false });
                self.reg1 = Some((i, true));
                Some(i)
            },
            CGValue::Free(_) => None,
        }
    }

    /// Makes a new entry with the same content as `v`.
    pub fn clone_value(&mut self, v: usize) -> (r: usize)
        requires
            wf(old(self)@),
            room(old(self)@),
            live(old(self)@, v),
        ensures
            (final(self)@, r) == clone_val(old(self)@, v),
            wf(final(self)@),
            r != v,
            is_mutable_var(final(self)@.values[r as int]) || final(self)@.values[r as int] == old(self)@.values[v as int],
            forall|i: usize| #[trigger] live(old(self)@, i) ==> live(final(self)@, i)
                && final(self)@.values[i as int] == old(self)@.values[i as int],
    {
        proof { lemma_clone(self@, v); lemma_spill1(self@); }
        match self.values[v] {
            CGValue::Variable { data_type, .. } => {
                self.free_reg(0);
                self.put_in_reg1(v);
                let j = self.allocate_stack(data_type);
                let p = slot_of(self.values[j]);
                self.code.push(Op::StoreReg1(p));
                self.reg1 = Some((j, false));
                j
            },
            other => {
                let i = self.values.len();
                self.values.push(other);
                i
            },
        }
    }

    fn push_const(&mut self, c: ConstValue) -> (r: usize)
        requires
            wf(old(self)@),
            room(old(self)@),
        ensures
            (final(self)@, r) == const_val(old(self)@, c),
    {
        let i = self.values.len();
        self.values.push(CGValue::Constant(c));
        i
    }

    pub fn free_value(&mut self, v: usize)
        requires
            wf(old(self)@),
            v < old(self)@.values.len(),
        ensures
            final(self)@ == free_val(old(self)@, v),
            wf(final(self)@),
            !is_free(old(self)@.values[v as int]) && !is_readonly(old(self)@.values[v as int]) ==> {
                &&& final(self)@.free_slots.last() == v
                &&& final(self)@.values[v as int] == CGValue::Free(pos_of(old(self)@.values[v as int]))
            },
    {
        proof { lemma_free(self@, v); }
        let freed = match self.values[v] {
            CGValue::Variable { readonly, stack_pos, .. } => {
                if readonly {
                    return;
                }
                CGValue::Free(Some(stack_pos))
            },
            CGValue::Constant(_) => CGValue::Free(None),
            CGValue::Free(_) => { return; },
        };
        self.values.set(v, freed);
        self.free_slots.push(v);
        if let Some((i, _)) = self.reg1 {
            if i == v {
                self.reg1 = None;
            }
        }
        if let Some((i, _)) = self.reg2 {
            if i == v {
                self.reg2 = None;
            }
        }
    }

    pub fn add(&mut self, l: usize, r: usize) -> (res: usize)
        requires
            wf(old(self)@),
            room(old(self)@),
            live(old(self)@, l),
            live(old(self)@, r),
        ensures
            (final(self)@, res) == add_val(old(self)@, l, r),
            wf(final(self)@),
            !is_readonly(old(self)@.values[l as int]) ==> res == l,
            is_mutable_var(old(self)@.values[l as int]) ==> {
                &&& final(self)@.values == old(self)@.values
                &&& final(self)@.free_slots == old(self)@.free_slots
                &&& final(self)@.stack_ptr == old(self)@.stack_ptr
            },
            is_readonly(old(self)@.values[l as int]) ==> {
                &&& res != l
                &&& final(self)@.values[l as int] == old(self)@.values[l as int]
                &&& is_mutable_var(final(self)@.values[res as int])
                &&& pos_of(final(self)@.values[res as int]) != pos_of(old(self)@.values[l as int])
                &&& final(self)@.reg1 == Some((res, true))
                &&& no_store(final(self)@.ops, old(self)@.ops.len() as int, var_pos(old(self)@.values[l as int]))
            },
            forall|i: usize| #[trigger] live(old(self)@, i) && i != l ==> live(final(self)@, i)
                && final(self)@.values[i as int] == old(self)@.values[i as int],
    {
        proof {
            lemma_add(self@, l, r);
            lemma_put1(self@, l);
            lemma_add_frame(self@, l, r);
            if is_readonly(self@.values[l as int]) {
                lemma_copy_on_mutate(self@, l, r);
            } else {
                lemma_add_in_place(self@, l, r);
            }
        }
        let vr = self.values[r];
        self.put_in_reg1(l);
        match vr {
            CGValue::Variable { data_type, .. } => {
                proof { lemma_put2(self@, r); }
                self.put_in_reg2(r);
                self.code.push(Op::Add(data_type));
            },
            CGValue::Constant(c) => {
                self.code.push(Op::AddConst(c));
            },
            CGValue::Free(_) => {},
        }
        proof {
            let s = self@;
            assert(wf(s)) by {
                crate::state::lemma_emit_fits(s.ops.drop_last(), s.ops.last(), s.stack_size);
                assert(s.ops.drop_last().push(s.ops.last()) =~= s.ops);
            }
        }
        match self.dirty_reg1() {
            Some(i) => i,
            None => l,
        }
    }

    pub fn generate_return(&mut self, return_value: usize)
        requires
            wf(old(self)@),
            live(old(self)@, return_value),
        ensures
            final(self)@ == ret_val(old(self)@, return_value),
            wf(final(self)@),
            final(self)@.stack_size >= 8,
    {
        proof { lemma_ret(self@, return_value); }
        self.put_in_reg1(return_value);
        self.code.push(Op::StoreReg1(0));
        self.code.push(Op::Return);
    }

    pub fn generate_code(&self) -> (r: GeneratedCode)
        requires
            wf(self@),
        ensures
            r.wf(),
            r.ops() == self@.ops,
            r.frame_size() == self@.stack_size,
    {
        let mut code: Vec<Op> = Vec::new();
        let mut k: usize = 0;
        while k < self.code.len()
            invariant
                k <= self.code@.len(),
                code@ =~= self.code@.subrange(0, k as int),
            decreases self.code@.len() - k,
        {
            code.push(self.code[k]);
            k = k + 1;
        }
        assert(code@ =~= self.code@);
        GeneratedCode::from_parts(self.stack_size, code)
    }
}

/// A reference to one entry of a session's value table.
#[derive(Debug, PartialEq, Eq, Structural)]
pub struct CGValueRef {
    i: usize,
    data_type: DataType,
}

impl CGValueRef {
    pub closed spec fn idx(&self) -> usize {
        self.i
    }

    pub closed spec fn ty(&self) -> DataType {
        self.data_type
    }

    fn new(i: usize, data_type: DataType) -> (r: CGValueRef)
        ensures
            r.idx() == i,
            r.ty() == data_type,
    {
        CGValueRef { i, data_type }
    }

    /// A reference to a read-only argument; many may exist at once.
    fn new_readonly(i: usize, data_type: DataType) -> (r: CGValueRef)
        ensures
            r.idx() == i,
            r.ty() == data_type,
    {
        CGValueRef { i, data_type }
    }

    pub fn index(&self) -> (r: usize)
        ensures
            r == self.idx(),
    {
        self.i
    }
}

/// Handle to a 64-bit integer value. It is not `Clone`: a copy is made by
/// the session, which gives it an entry of its own.
#[derive(Debug, PartialEq, Eq, Structural)]
pub struct I64Ref(CGValueRef);

/// Handle to a boolean value.
#[derive(Debug, PartialEq, Eq, Structural)]
pub struct BoolRef(CGValueRef);

impl I64Ref {
    pub closed spec fn idx(&self) -> usize {
        self.0.idx()
    }

    pub fn index(&self) -> (r: usize)
        ensures
            r == self.idx(),
    {
        self.0.index()
    }
}

impl I64Ref {
    pub fn as_value(&self) -> (r: &CGValueRef)
        ensures
            r.idx() == self.idx(),
    {
        &self.0
    }
}

impl BoolRef {
    pub closed spec fn idx(&self) -> usize {
        self.0.idx()
    }

    pub fn index(&self) -> (r: usize)
        ensures
            r == self.idx(),
    {
        self.0.index()
    }
}

/// A generation session: hands out value handles, combines them and emits
/// the operations that compute them. Beside the table it keeps, as ghost
/// state, what each entry holds as a function of the arguments.
pub struct CodeGen {
    inner: CodeGenInner,
    contents: Ghost<Contents>,
}

impl View for CodeGen {
    type V = CgState;

    closed spec fn view(&self) -> CgState {
        self.inner@
    }
}

impl CodeGen {
    /// What each live entry holds, for given arguments.
    pub closed spec fn contents(&self) -> Contents {
        self.contents@
    }

    /// The session invariant: the table is well formed and the code emitted
    /// so far computes `contents`.
    pub open spec fn inv(&self) -> bool {
        wf(self@) && sem_ok(self@, self.contents())
    }

    /// A session for a function of `args` 64-bit arguments.
    pub fn new(args: usize) -> (r: CodeGen)
        requires
            args * 8 <= usize::MAX,
        ensures
            r@ == initial(args),
            r.inv(),
            r.contents() == (|a: Seq<i64>| arg_contents(a)),
    {
        proof { lemma_sem_initial(args); }
        CodeGen { inner: CodeGenInner::new(args), contents: Ghost(|a: Seq<i64>| arg_contents(a)) }
    }

    /// The `n`-th argument. Arguments are read-only, so any number of
    /// handles may refer to one.
    pub fn get_arg(&self, n: usize) -> (r: I64Ref)
        requires
            n < self@.args_size,
        ensures
            r.idx() == n,
    {
        I64Ref(CGValueRef::new_readonly(n, DataType::I64))
    }

    fn new_const(&mut self, c: ConstValue) -> (r: usize)
        requires
            old(self).inv(),
            room(old(self)@),
        ensures
            (final(self)@, r) == const_val(old(self)@, c),
            final(self).inv(),
            final(self).contents() == (|a: Seq<i64>| old(self).contents()(a).insert(r, c.word())),
    {
        proof {
            lemma_const(self@, c);
            lemma_sem_const(self@, self.contents@, c);
        }
        let ghost f = self.contents@;
        let i = self.inner.push_const(c);
        self.contents = Ghost(|a: Seq<i64>| f(a).insert(i, c.word()));
        i
    }

    pub fn new_i64_const(&mut self, n: i64) -> (r: I64Ref)
        requires
            old(self).inv(),
            room(old(self)@),
        ensures
            (final(self)@, r.idx()) == const_val(old(self)@, ConstValue::I64(n)),
            final(self).inv(),
            final(self).contents() == (|a: Seq<i64>| old(self).contents()(a).insert(r.idx(), n)),
    {
        let i = self.new_const(ConstValue::I64(n));
        I64Ref(CGValueRef::new(i, DataType::I64))
    }

    pub fn new_bool_const(&mut self, b: bool) -> (r: BoolRef)
        requires
            old(self).inv(),
            room(old(self)@),
        ensures
            (final(self)@, r.idx()) == const_val(old(self)@, ConstValue::Bool(b)),
            final(self).inv(),
            final(self).contents() == (|a: Seq<i64>| old(self).contents()(a).insert(
                r.idx(),
                ConstValue::Bool(b).word(),
            )),
    {
        let i = self.new_const(ConstValue::Bool(b));
        BoolRef(CGValueRef::new(i, DataType::Bool))
    }

    /// Gives the entry of `v` back to the session (a no-op for arguments).
    pub fn free_value(&mut self, v: CGValueRef)
        requires
            old(self).inv(),
            v.idx() < old(self)@.values.len(),
        ensures
            final(self)@ == free_val(old(self)@, v.idx()),
            final(self).inv(),
            final(self).contents() == old(self).contents(),
    {
        proof { lemma_sem_free(self@, self.contents@, v.i); }
        self.inner.free_value(v.i);
    }

    /// Ends the life of an integer handle.
    pub fn drop_i64(&mut self, v: I64Ref)
        requires
            old(self).inv(),
            v.idx() < old(self)@.values.len(),
        ensures
            final(self)@ == free_val(old(self)@, v.idx()),
            final(self).inv(),
            final(self).contents() == old(self).contents(),
    {
        self.free_value(v.0);
    }

    /// Ends the life of a boolean handle.
    pub fn drop_bool(&mut self, v: BoolRef)
        requires
            old(self).inv(),
            v.idx() < old(self)@.values.len(),
        ensures
            final(self)@ == free_val(old(self)@, v.idx()),
            final(self).inv(),
            final(self).contents() == old(self).contents(),
    {
        self.free_value(v.0);
    }

    /// A new entry holding what `v` holds.
    pub fn clone_value(&mut self, v: &CGValueRef) -> (r: CGValueRef)
        requires
            old(self).inv(),
            room(old(self)@),
            live(old(self)@, v.idx()),
        ensures
            (final(self)@, r.idx()) == clone_val(old(self)@, v.idx()),
            r.ty() == v.ty(),
            final(self).inv(),
            final(self).contents() == (|a: Seq<i64>| old(self).contents()(a).insert(
                r.idx(),
                old(self).contents()(a)[v.idx()],
            )),
    {
        proof {
            lemma_clone(self@, v.i);
            lemma_sem_clone(self@, self.contents@, v.i);
        }
        let ghost f = self.contents@;
        let ghost vi = v.i;
        let i = self.inner.clone_value(v.i);
        self.contents = Ghost(|a: Seq<i64>| f(a).insert(i, f(a)[vi]));
        CGValueRef::new(i, v.data_type)
    }

    /// A second, independent integer handle with the same content.
    pub fn clone_i64(&mut self, v: &I64Ref) -> (r: I64Ref)
        requires
            old(self).inv(),
            room(old(self)@),
            live(old(self)@, v.idx()),
        ensures
            (final(self)@, r.idx()) == clone_val(old(self)@, v.idx()),
            final(self).inv(),
            final(self).contents() == (|a: Seq<i64>| old(self).contents()(a).insert(
                r.idx(),
                old(self).contents()(a)[v.idx()],
            )),
    {
        I64Ref(self.clone_value(&v.0))
    }

    /// A second, independent boolean handle with the same content.
    pub fn clone_bool(&mut self, v: &BoolRef) -> (r: BoolRef)
        requires
            old(self).inv(),
            room(old(self)@),
            live(old(self)@, v.idx()),
        ensures
            (final(self)@, r.idx()) == clone_val(old(self)@, v.idx()),
            final(self).inv(),
            final(self).contents() == (|a: Seq<i64>| old(self).contents()(a).insert(
                r.idx(),
                old(self).contents()(a)[v.idx()],
            )),
    {
        BoolRef(self.clone_value(&v.0))
    }

    /// Emits `l + r` and gives the index that holds the sum: `l` itself
    /// unless it is a read-only argument.
    pub fn add(&mut self, l: &CGValueRef, r: &CGValueRef) -> (res: usize)
        requires
            old(self).inv(),
            room(old(self)@),
            live(old(self)@, l.idx()),
            live(old(self)@, r.idx()),
        ensures
            (final(self)@, res) == add_val(old(self)@, l.idx(), r.idx()),
            final(self).inv(),
            !is_readonly(old(self)@.values[l.idx() as int]) ==> res == l.idx(),
            is_readonly(old(self)@.values[l.idx() as int]) ==> res != l.idx(),
            final(self).contents() == (|a: Seq<i64>| old(self).contents()(a).insert(
                res,
                old(self).contents()(a)[l.idx()].wrapping_add(old(self).contents()(a)[r.idx()]),
            )),
    {
        proof {
            lemma_add(self@, l.i, r.i);
            lemma_sem_add(self@, self.contents@, l.i, r.i);
        }
        let ghost f = self.contents@;
        let ghost (li, ri) = (l.i, r.i);
        let i = self.inner.add(l.i, r.i);
        self.contents = Ghost(|a: Seq<i64>| f(a).insert(i, f(a)[li].wrapping_add(f(a)[ri])));
        i
    }

    /// `l + r` where the caller gives up `l`: its entry is updated in place
    /// unless it is a read-only argument.
    pub fn add_owned(&mut self, l: I64Ref, r: &I64Ref) -> (res: I64Ref)
        requires
            old(self).inv(),
            room(old(self)@),
            live(old(self)@, l.idx()),
            live(old(self)@, r.idx()),
        ensures
            (final(self)@, res.idx()) == add_val(old(self)@, l.idx(), r.idx()),
            final(self).inv(),
            !is_readonly(old(self)@.values[l.idx() as int]) ==> res.idx() == l.idx(),
            is_readonly(old(self)@.values[l.idx() as int]) ==> res.idx() != l.idx(),
            final(self).contents() == (|a: Seq<i64>| old(self).contents()(a).insert(
                res.idx(),
                old(self).contents()(a)[l.idx()].wrapping_add(old(self).contents()(a)[r.idx()]),
            )),
    {
        let i = self.add(&l.0, &r.0);
        I64Ref(CGValueRef::new(i, DataType::I64))
    }

    /// `l + r` where the caller keeps `l`: the sum goes to a copy of it.
    pub fn add_ref(&mut self, l: &I64Ref, r: &I64Ref) -> (res: I64Ref)
        requires
            old(self).inv(),
            old(self)@.stack_ptr + 24 <= usize::MAX,
            old(self)@.values.len() + 3 <= usize::MAX,
            live(old(self)@, l.idx()),
            live(old(self)@, r.idx()),
        ensures
            ({
                let (t, c) = clone_val(old(self)@, l.idx());
                (final(self)@, res.idx()) == add_val(t, c, r.idx())
            }),
            res.idx() != l.idx(),
            final(self).inv(),
            final(self).contents() == (|a: Seq<i64>| {
                let g = old(self).contents()(a).insert(clone_val(old(self)@, l.idx()).1, old(self).contents()(a)[l.idx()]);
                g.insert(res.idx(), g[clone_val(old(self)@, l.idx()).1].wrapping_add(g[r.idx()]))
            }),
    {
        proof { lemma_clone(self@, l.idx()); }
        let c = self.clone_i64(l);
        proof {
            lemma_add_in_place(self@, c.idx(), r.idx());
        }
        self.add_owned(c, r)
    }

    /// `l += r`.
    pub fn add_assign(&mut self, l: &mut I64Ref, r: &I64Ref)
        requires
            old(self).inv(),
            room(old(self)@),
            live(old(self)@, old(l).idx()),
            live(old(self)@, r.idx()),
        ensures
            (final(self)@, final(l).idx()) == add_val(old(self)@, old(l).idx(), r.idx()),
            final(self).inv(),
            final(self).contents() == (|a: Seq<i64>| old(self).contents()(a).insert(
                final(l).idx(),
                old(self).contents()(a)[old(l).idx()].wrapping_add(old(self).contents()(a)[r.idx()]),
            )),
    {
        let i = self.add(&l.0, &r.0);
        if i != l.0.i {
            *l = I64Ref(CGValueRef::new(i, DataType::I64));
        }
    }

    /// Starts the session over: only the arguments remain.
    pub fn reset(&mut self)
        requires
            wf(old(self)@),
        ensures
            final(self)@ == initial(old(self)@.args_size),
            final(self).inv(),
            final(self).contents() == (|a: Seq<i64>| arg_contents(a)),
    {
        proof { lemma_sem_initial(self@.args_size); }
        self.inner.reset();
        self.contents = Ghost(|a: Seq<i64>| arg_contents(a));
    }

    /// Emits the store of `return_value` into the return slot and the
    /// return. The code then gives, on any arguments, what the value holds.
    pub fn generate_return(&mut self, return_value: &I64Ref)
        requires
            old(self).inv(),
            live(old(self)@, return_value.idx()),
        ensures
            final(self)@ == ret_val(old(self)@, return_value.idx()),
            wf(final(self)@),
            final(self)@.stack_size >= 8,
            forall|a: Seq<i64>| a.len() == old(self)@.args_size ==> #[trigger] result_of(
                final(self)@.ops,
                final(self)@.stack_size,
                a,
            ) == old(self).contents()(a)[return_value.idx()],
    {
        proof {
            assert forall|a: Seq<i64>| a.len() == self@.args_size implies #[trigger] result_of(
                ret_val(self@, return_value.idx()).ops,
                ret_val(self@, return_value.idx()).stack_size,
                a,
            ) == self.contents@(a)[return_value.idx()] by {
                lemma_sem_ret(self@, self.contents@, return_value.idx(), a);
            }
        }
        self.inner.generate_return(return_value.0.i);
    }

    /// The operations emitted so far, with the frame they need.
    pub fn generate_code(&self) -> (r: GeneratedCode)
        requires
            wf(self@),
        ensures
            r.wf(),
            r.ops() == self@.ops,
            r.frame_size() == self@.stack_size,
    {
        self.inner.generate_code()
    }
}

} // verus!
