use vstd::prelude::*;

verus! {

/// Semantic type of a generated value.
#[derive(Clone, Copy, Debug, PartialEq, Eq, Structural)]
pub enum DataType {
    I64,
    Bool,
}

/// An inline literal.
#[derive(Clone, Copy, Debug, PartialEq, Eq, Structural)]
pub enum ConstValue {
    I64(i64),
    Bool(bool),
}

impl ConstValue {
    /// The 64-bit word that holds this literal at run time.
    pub open spec fn word(self) -> i64 {
        match self {
            ConstValue::I64(n) => n,
            ConstValue::Bool(b) => if b { 1 } else { 0 },
        }
    }

    pub open spec fn spec_type(self) -> DataType {
        match self {
            ConstValue::I64(_) => DataType::I64,
            ConstValue::Bool(_) => DataType::Bool,
        }
    }

    pub fn get_type(&self) -> (r: DataType)
        ensures
            r == self.spec_type(),
    {
        match self {
            ConstValue::I64(_) => DataType::I64,
            ConstValue::Bool(_) => DataType::Bool,
        }
    }

    pub fn to_word(&self) -> (r: i64)
        ensures
            r == self.word(),
    {
        match self {
            ConstValue::I64(n) => *n,
            ConstValue::Bool(b) => if *b { 1 } else { 0 },
        }
    }
}

/// One primitive operation of the stencil backend. Stack offsets are byte
/// offsets into the private stack, one 8-byte word per slot.
#[derive(Clone, Copy, Debug, PartialEq, Eq, Structural)]
pub enum Op {
    TakeReg1Stack(usize),
    TakeReg1Const(ConstValue),
    TakeReg2Stack(usize),
    TakeReg2Const(ConstValue),
    DuplicateReg1IntoReg2,
    StoreReg1(usize),
    Add(DataType),
    AddConst(ConstValue),
    Return,
}

impl Op {
    /// The stack offset that the operation reads or writes, if any.
    pub open spec fn offset(self) -> Option<usize> {
        match self {
            Op::TakeReg1Stack(o) => Some(o),
            Op::TakeReg2Stack(o) => Some(o),
            Op::StoreReg1(o) => Some(o),
            _ => None,
        }
    }

    /// The operation touches only whole words among the first `words` ones.
    pub open spec fn fits(self, words: nat) -> bool {
        match self.offset() {
            Some(o) => o % 8 == 0 && (o / 8) < words,
            None => true,
        }
    }

    pub fn stack_offset(&self) -> (r: Option<usize>)
        ensures
            r == self.offset(),
    {
        match self {
            Op::TakeReg1Stack(o) => Some(*o),
            Op::TakeReg2Stack(o) => Some(*o),
            Op::StoreReg1(o) => Some(*o),
            _ => None,
        }
    }
}

} // verus!
