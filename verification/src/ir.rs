//! The intermediate representation that the code generator reads: the
//! compiler's functions, their operations, and the operands of those.
use vstd::prelude::*;

verus! {

/// A position in the source program.
#[derive(Clone, Copy, Debug, PartialEq, Eq, Structural)]
pub struct Loc {
    pub line_number: i32,
    pub line_offset: i32,
}

/// An operand of an operation.
#[derive(Clone, Debug)]
pub enum Arg {
    /// The value of an external (global) name.
    External(Vec<u8>),
    /// The value stored at the address held by an automatic variable.
    Deref(usize),
    /// The address of an automatic variable (numbered from 1).
    RefAutoVar(usize),
    /// The address of an external name.
    RefExternal(Vec<u8>),
    /// An unsigned integer literal.
    Literal(u64),
    /// The value of an automatic variable (numbered from 1).
    AutoVar(usize),
    /// The string that starts at this offset of the data section.
    DataOffset(usize),
    /// A placeholder that no finished program holds.
    Bogus,
}

/// A binary operator.
#[derive(Clone, Copy, Debug, PartialEq, Eq, Structural)]
pub enum Binop {
    BitOr,
    BitAnd,
    BitShl,
    BitShr,
    Plus,
    Minus,
    Mod,
    Div,
    Mult,
    Less,
    Greater,
    Equal,
    NotEqual,
    GreaterEqual,
    LessEqual,
}

/// One operation of a function body.
#[derive(Clone, Debug)]
pub enum Op {
    /// A placeholder that no finished program holds.
    Bogus,
    UnaryNot { result: usize, arg: Arg },
    Negate { result: usize, arg: Arg },
    Asm { args: Vec<Vec<u8>> },
    /// `auto[index] = lhs binop rhs`
    Binop { binop: Binop, index: usize, lhs: Arg, rhs: Arg },
    /// `auto[index] = arg`
    AutoAssign { index: usize, arg: Arg },
    ExternalAssign { name: Vec<u8>, arg: Arg },
    Store { index: usize, arg: Arg },
    Funcall { result: usize, fun: Arg, args: Vec<Arg> },
    Label { label: usize },
    JmpLabel { label: usize },
    JmpIfNotLabel { label: usize, arg: Arg },
    Return { arg: Option<Arg> },
}

/// An operation together with the place in the source it comes from.
#[derive(Clone, Debug)]
pub struct OpWithLocation {
    pub opcode: Op,
    pub loc: Loc,
}

/// A compiled function.
#[derive(Clone, Debug)]
pub struct Func {
    /// The function's name, without a terminating zero byte.
    pub name: Vec<u8>,
    pub params_count: usize,
    pub auto_vars_count: usize,
    pub body: Vec<OpWithLocation>,
}

/// What the compiler hands to the code generator.
#[derive(Clone, Debug)]
pub struct Compiler {
    /// The data section: strings, each terminated by a zero byte.
    pub data: Vec<u8>,
    pub funcs: Vec<Func>,
}

} // verus!
