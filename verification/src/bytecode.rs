//! The linear stack-machine instruction set and the machine's value type.

use vstd::prelude::*;

verus! {

/// The binary operator codes.
#[derive(Clone, Copy, PartialEq, Eq, Structural, Debug)]
pub enum BinOpCode {
    Add,
    Sub,
    Mul,
    Div,
    Pow,
}

/// The unary operator codes.
#[derive(Clone, Copy, PartialEq, Eq, Structural, Debug)]
pub enum UnaryOpCode {
    Identity,
    Negate,
}

/// One instruction.  A float push carries the literal's lexeme; the machine
/// asks its driver for the bits it denotes.
pub enum ByteCode {
    PUSHI(i64),
    PUSHF(String),
    BINOP(BinOpCode),
    UNARYOP(UnaryOpCode),
}

/// The mathematical model of an instruction.
pub enum ByteCodeS {
    PUSHI(i64),
    PUSHF(Seq<char>),
    BINOP(BinOpCode),
    UNARYOP(UnaryOpCode),
}

impl View for ByteCode {
    type V = ByteCodeS;

    open spec fn view(&self) -> ByteCodeS {
        match self {
            ByteCode::PUSHI(i) => ByteCodeS::PUSHI(*i),
            ByteCode::PUSHF(s) => ByteCodeS::PUSHF(s@),
            ByteCode::BINOP(c) => ByteCodeS::BINOP(*c),
            ByteCode::UNARYOP(c) => ByteCodeS::UNARYOP(*c),
        }
    }
}

/// The model of an instruction sequence.
pub open spec fn codes_view(s: Seq<ByteCode>) -> Seq<ByteCodeS> {
    s.map_values(|c: ByteCode| c@)
}

/// An append-only instruction list.
pub struct ByteCodes {
    pub codes: Vec<ByteCode>,
}

impl View for ByteCodes {
    type V = Seq<ByteCodeS>;

    open spec fn view(&self) -> Seq<ByteCodeS> {
        codes_view(self.codes@)
    }
}

impl ByteCodes {
    /// An empty instruction list.
    pub fn new() -> (r: ByteCodes)
        ensures
            r@ == Seq::<ByteCodeS>::empty(),
    {
        let r = ByteCodes { codes: Vec::new() };
        proof {
            assert(r@ =~= Seq::<ByteCodeS>::empty());
        }
        r
    }

    /// Appends one instruction.
    pub fn add_code(&mut self, code: ByteCode)
        ensures
            final(self)@ == old(self)@.push(code@),
    {
        let ghost pre = self@;
        self.codes.push(code);
        proof {
            assert(self@ =~= pre.push(code@));
        }
    }
}

/// A runtime value: a signed 64-bit integer, or a float carried as its
/// IEEE-754 bit pattern.
#[derive(Clone, Copy, PartialEq, Eq, Structural, Debug)]
pub enum Value {
    Int(i64),
    Float(u64),
}

/// A failure while the machine runs.  A well-formed compile never
/// underflows the stack; the arithmetic failures depend on the values.
#[derive(Clone, Copy, PartialEq, Eq, Structural, Debug)]
pub enum RuntimeError {
    DivisionByZero,
    NegativeIntegerExponent,
    IntegerOverflow,
    StackUnderflow,
}

} // verus!
