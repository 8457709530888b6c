use vstd::prelude::*;

verus! {

/// The closed set of operation kinds understood by the machine.
#[derive(Clone, Copy, Debug, PartialEq, Eq, Structural)]
pub enum Op {
    Const,
    Add,
    Sub,
    Mul,
    Div,
    Print,
    PrintStr,
    Pop,
    Push,
    PushStr,
    Noop,
    Block,
    Loop,
    Return,
    Break,
    CallExt,
    Call,
    Fork,
    If,
    Else,
    Not,
    GT,
    LT,
    GTE,
    LTE,
    Eq,
    EndIf,
    Function,
    EndFunction,
    GetPid,
    Child,
    Debug,
    Include,
}

/// The name the function module gives to an operation kind.
pub type Operation = Op;

/// One instruction: an operation with its optional immediate operand.
pub type Instruction = (Op, Option<i32>);

} // verus!

verus! {

/// A copy of `code[a..b]`.
pub fn copy_code(code: &Vec<Instruction>, a: usize, b: usize) -> (r: Vec<Instruction>)
    requires
        a <= b <= code.len(),
    ensures
        r@ == code@.subrange(a as int, b as int),
{
    let mut r: Vec<Instruction> = Vec::new();
    let mut k: usize = a;
    while k < b
        invariant
            a <= k <= b <= code.len(),
            r@ =~= code@.subrange(a as int, k as int),
        decreases b - k,
    {
        r.push(code[k]);
        k = k + 1;
    }
    r
}

} // verus!
