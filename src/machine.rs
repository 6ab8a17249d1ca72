use vstd::prelude::*;
use crate::ir::Op;

verus! {

/// State of the straight-line machine that runs emitted operations: the two
/// scratch registers, the private stack as words, and whether it returned.
pub struct Machine {
    pub reg1: i64,
    pub reg2: i64,
    pub mem: Seq<i64>,
    pub halted: bool,
}

/// Word index of a byte offset.
pub open spec fn slot(o: usize) -> int {
    o as int / 8
}

/// The effect of one operation.
pub open spec fn step(m: Machine, op: Op) -> Machine {
    if m.halted {
        m
    } else {
        match op {
            Op::TakeReg1Stack(o) => Machine { reg1: m.mem[slot(o)], ..m },
            Op::TakeReg1Const(c) => Machine { reg1: c.word(), ..m },
            Op::TakeReg2Stack(o) => Machine { reg2: m.mem[slot(o)], ..m },
            Op::TakeReg2Const(c) => Machine { reg2: c.word(), ..m },
            Op::DuplicateReg1IntoReg2 => Machine { reg2: m.reg1, ..m },
            Op::StoreReg1(o) => Machine { mem: m.mem.update(slot(o), m.reg1), ..m },
            Op::Add(_) => Machine { reg1: m.reg1.wrapping_add(m.reg2), ..m },
            Op::AddConst(c) => Machine { reg1: m.reg1.wrapping_add(c.word()), ..m },
            Op::Return => Machine { halted: true, ..m },
        }
    }
}

/// The machine after the first `n` operations of `ops`.
pub open spec fn run(ops: Seq<Op>, n: nat, m: Machine) -> Machine
    decreases n,
{
    if n == 0 {
        m
    } else {
        step(run(ops, (n - 1) as nat, m), ops[n - 1])
    }
}

/// Number of stack words a call provides: the frame, the arguments, and at
/// least the return slot.
pub open spec fn frame_words(stack_size: usize, nargs: nat) -> nat {
    let w = stack_size as nat / 8;
    let w2 = if w < nargs { nargs } else { w };
    if w2 < 1 { 1 } else { w2 }
}

/// The private stack at entry: the arguments word by word, then zeros.
pub open spec fn entry_stack(args: Seq<i64>, words: nat) -> Seq<i64> {
    Seq::new(words, |k: int| if k < args.len() { args[k] } else { 0i64 })
}

/// What a call of `ops` on `args` returns: the first word of the private
/// stack once every operation has run.
pub open spec fn result_of(ops: Seq<Op>, stack_size: usize, args: Seq<i64>) -> i64 {
    let m0 = Machine {
        reg1: 0,
        reg2: 0,
        mem: entry_stack(args, frame_words(stack_size, args.len())),
        halted: false,
    };
    run(ops, ops.len(), m0).mem[0]
}

/// Every operation of `ops` stays inside a frame of `stack_size` bytes (the
/// return slot at offset 0 always exists).
pub open spec fn ops_fit(ops: Seq<Op>, stack_size: usize) -> bool {
    forall|k: int| 0 <= k < ops.len() ==> (#[trigger] ops[k]).fits(frame_words(stack_size, 0))
}

/// Why an operation sequence cannot be installed.
#[derive(Clone, Copy, Debug, PartialEq, Eq, Structural)]
pub enum CodeError {
    /// The operation at this position addresses a word outside the frame or
    /// an offset that is not word-aligned.
    OutOfFrame(usize),
}

/// An installed operation sequence together with the size of the private
/// stack it runs on.
pub struct GeneratedCode {
    code: Vec<Op>,
    stack_size: usize,
}

impl GeneratedCode {
    pub closed spec fn ops(&self) -> Seq<Op> {
        self.code@
    }

    pub closed spec fn frame_size(&self) -> usize {
        self.stack_size
    }

    pub closed spec fn wf(&self) -> bool {
        ops_fit(self.code@, self.stack_size)
    }

    /// Installs `code` for a private stack of `stack_size` bytes; refuses it
    /// where an operation reaches outside that stack.
    pub fn new(stack_size: usize, code: Vec<Op>) -> (r: Result<GeneratedCode, CodeError>)
        ensures
            ops_fit(code@, stack_size) <==> r is Ok,
            r matches Ok(g) ==> g.wf() && g.ops() == code@ && g.frame_size() == stack_size,
            r matches Err(CodeError::OutOfFrame(k)) ==> k < code@.len() && !code@[k as int].fits(
                frame_words(stack_size, 0),
            ) && forall|j: int| 0 <= j < k ==> (#[trigger] code@[j]).fits(
                frame_words(stack_size, 0),
            ),
    {
        let words0: usize = stack_size / 8;
        let words: usize = if words0 < 1 { 1 } else { words0 };
        assert(words as nat == frame_words(stack_size, 0));
        let mut k: usize = 0;
        while k < code.len()
            invariant
                k <= code@.len(),
                words as nat == frame_words(stack_size, 0),
                forall|j: int| 0 <= j < k ==> (#[trigger] code@[j]).fits(frame_words(stack_size, 0)),
            decreases code@.len() - k,
        {
            match code[k].stack_offset() {
                Some(o) => {
                    if o % 8 != 0 || o / 8 >= words {
                        return Err(CodeError::OutOfFrame(k));
                    }
                },
                None => {},
            }
            k = k + 1;
        }
        Ok(GeneratedCode { code, stack_size })
    }

    /// Size in bytes of the frame the code was built for.
    pub fn frame_bytes(&self) -> (r: usize)
        ensures
            r == self.frame_size(),
    {
        self.stack_size
    }

    pub(crate) fn from_parts(stack_size: usize, code: Vec<Op>) -> (r: GeneratedCode)
        requires
            ops_fit(code@, stack_size),
        ensures
            r.wf(),
            r.ops() == code@,
            r.frame_size() == stack_size,
    {
        GeneratedCode { code, stack_size }
    }

    /// Runs the code: writes the arguments word by word into a fresh private
    /// stack, performs the operations up to the return, and reads the result
    /// from the first word.
    pub fn call(&self, args: &Vec<i64>) -> (r: i64)
        requires
            self.wf(),
        ensures
            r == result_of(self.ops(), self.frame_size(), args@),
    {
        let w0: usize = self.stack_size / 8;
        let w1: usize = if w0 < args.len() { args.len() } else { w0 };
        let words: usize = if w1 < 1 { 1 } else { w1 };
        let mut mem: Vec<i64> = Vec::new();
        let mut k: usize = 0;
        while k < words
            invariant
                k <= words,
                mem@.len() == k,
                forall|j: int| 0 <= j < k ==> mem@[j] == (if j < args@.len() { args@[j] } else { 0i64 }),
            decreases words - k,
        {
            if k < args.len() {
                mem.push(args[k]);
            } else {
                mem.push(0);
            }
            k = k + 1;
        }
        let ghost m0 = Machine {
            reg1: 0,
            reg2: 0,
            mem: entry_stack(args@, frame_words(self.stack_size, args@.len())),
            halted: false,
        };
        assert(mem@ =~= m0.mem);
        let mut reg1: i64 = 0;
        let mut reg2: i64 = 0;
        let mut halted = false;
        let mut n: usize = 0;
        while n < self.code.len()
            invariant
                self.wf(),
                n <= self.code@.len(),
                mem@.len() == words,
                words >= frame_words(self.stack_size, 0),
                run(self.code@, n as nat, m0) == (Machine { reg1, reg2, mem: mem@, halted }),
            decreases self.code@.len() - n,
        {
            let op = self.code[n];
            assert(self.code@[n as int].fits(frame_words(self.stack_size, 0)));
            if !halted {
                match op {
                    Op::TakeReg1Stack(o) => { reg1 = mem[o / 8]; },
                    Op::TakeReg1Const(c) => { reg1 = c.to_word(); },
                    Op::TakeReg2Stack(o) => { reg2 = mem[o / 8]; },
                    Op::TakeReg2Const(c) => { reg2 = c.to_word(); },
                    Op::DuplicateReg1IntoReg2 => { reg2 = reg1; },
                    Op::StoreReg1(o) => { mem.set(o / 8, reg1); },
                    Op::Add(_) => { reg1 = reg1.wrapping_add(reg2); },
                    Op::AddConst(c) => { reg1 = reg1.wrapping_add(c.to_word()); },
                    Op::Return => { halted = true; },
                }
            }
            n = n + 1;
        }
        mem[0]
    }
}

} // verus!
