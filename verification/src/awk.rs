//! The compiled program representation of the `awk` interpreter: stack
//! machine opcodes, rule patterns, and the built-in name tables.  Numeric
//! constants and the assembled program carry floating-point values and so
//! live with the interpreter, outside this crate.

use vstd::prelude::*;

verus! {

pub type VarId = u32;

/// One instruction of the stack machine.
#[derive(Debug, PartialEq, Eq, Clone, Copy, Structural)]
pub enum OpCode {
    Add,
    Sub,
    Mul,
    Div,
    Mod,
    Pow,
    Le,
    Lt,
    Ge,
    Gt,
    Eq,
    Ne,
    Match,
    Concat,
    /// Is the key on top of the stack inside the array preceding it?
    In,
    Negate,
    Not,
    PostInc,
    PostDec,
    PreInc,
    PreDec,
    AsNumber,
    /// Duplicate the value on top of the stack.
    Dup,
    /// Pop the value from the stack.
    Pop,
    /// Push the value of the global variable.
    GlobalRef(u32),
    /// Push a reference to the field whose number is on top of the stack.
    FieldRef,
    /// Assign the top of the stack to the reference preceding it.
    Assign,
    /// Index the array below the top of the stack with the key on top.
    IndexArray,
    LocalRef(u32),
    /// Delete the key on top of the stack from the array preceding it.
    Delete,
    /// Jumps are relative; offset 0 is the jump instruction itself.
    JumpIfFalse(i32),
    JumpIfTrue(i32),
    Jump(i32),
    Call { id: u32, argc: u16 },
    CallBuiltin { function: BuiltinFunction, argc: u16 },
    /// Push the numbered constant.
    PushConstant(u32),
    PushOne,
    PushUninitialized,
    PushUninitializedScalar,
    Next,
    Exit,
    Return,
    /// Invalid opcode; cannot appear inside a valid program.
    Invalid,
}

/// When a rule fires: on an expression, inside a range, or always.
#[derive(Debug, PartialEq)]
pub enum Pattern {
    Expr(Vec<OpCode>),
    Range { start: Vec<OpCode>, end: Vec<OpCode> },
    All,
}

/// One pattern-action rule.
#[derive(Debug, PartialEq)]
pub struct AwkRule {
    pub pattern: Pattern,
    pub instructions: Vec<OpCode>,
}

/// What a global name refers to.
#[derive(Debug, Clone, Copy, PartialEq, Eq, Structural)]
pub enum NameType {
    Var,
    Array,
    Function,
}

/// A compiled user function.
#[derive(Debug, PartialEq)]
pub struct Function {
    pub parameters_count: usize,
    pub instructions: Vec<OpCode>,
}

/// The special variables, in their fixed global-slot order.
#[derive(Debug, Clone, Copy, PartialEq, Eq, Structural)]
pub enum SpecialVar {
    Argc,
    Argv,
    Convfmt,
    Environ,
    Filename,
    Fnr,
    Fs,
    Nf,
    Nr,
    Ofmt,
    Ofs,
    Ors,
    Rlength,
    Rs,
    Rstart,
    Subsep,
    /// The total number of special variables.
    Count,
}

/// The built-in functions.
#[derive(Debug, PartialEq, Eq, Clone, Copy, Structural)]
pub enum BuiltinFunction {
    Atan2,
    Cos,
    Sin,
    Exp,
    Log,
    Sqrt,
    Int,
    Rand,
    Srand,
    Gsub,
    Index,
    Length,
    Match,
    Split,
    Sprintf,
    Sub,
    Substr,
    ToLower,
    ToUpper,
    Close,
    GetLine,
    System,
    Print,
    Printf,
    /// The total number of builtin functions.
    Count,
}

} // verus!
