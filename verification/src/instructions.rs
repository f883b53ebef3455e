//! The instruction set the virtual machine executes.

use vstd::prelude::*;
use crate::value::{MiValue, MiType, ValueView, value_wf};
use crate::codec::check_value_wf;

verus! {

/// One opcode with its operands. Register operands are indices into the
/// 16-slot register file; names refer to labels, functions, arguments or
/// local variables.
#[derive(Debug)]
pub enum Instruction {
    /// Stores a literal value in a register.
    Move(usize, MiValue),
    /// Copies one register to another: source, then destination.
    MoveBetween(usize, usize),
    /// Copies a bound argument of the current frame into a register.
    MoveArgument(String, usize),
    /// Pushes a register's value onto the argument stack.
    MoveAsArgument(usize),
    /// Adds two registers into a third: both operands, then the destination.
    Add(usize, usize, usize),
    /// Subtracts the second register from the first into a third.
    Sub(usize, usize, usize),
    /// Multiplies two registers into a third.
    Mul(usize, usize, usize),
    /// Divides the first register by the second into a third.
    Div(usize, usize, usize),
    /// Takes the remainder of the first register by the second into a third.
    Rem(usize, usize, usize),
    /// Raises the first register to the second into a third.
    Pow(usize, usize, usize),
    /// Logical OR of two boolean registers into a third.
    Or(usize, usize, usize),
    /// Logical XOR of two boolean registers into a third.
    Xor(usize, usize, usize),
    /// Logical AND of two boolean registers into a third.
    And(usize, usize, usize),
    /// Logical NOT of a boolean register into another.
    Not(usize, usize),
    /// Numeric less-than of two registers into a boolean register.
    Lt(usize, usize, usize),
    /// Numeric less-or-equal of two registers into a boolean register.
    Le(usize, usize, usize),
    /// Numeric greater-than of two registers into a boolean register.
    Gt(usize, usize, usize),
    /// Numeric greater-or-equal of two registers into a boolean register.
    Ge(usize, usize, usize),
    /// Returns from the current stack frame.
    Return,
    /// Binds a local variable of the current frame to a register's value.
    SetVariable(usize, String),
    /// Copies a local variable of the current frame into a register.
    MovFromVariable(String, usize),
    /// Throws an error whose name and message are read from two registers.
    ThrowFrom(usize, usize),
    /// Structural equality of two registers into a boolean register.
    Eq(usize, usize, usize),
    /// Structural inequality of two registers into a boolean register.
    Ne(usize, usize, usize),
    /// Establishes a label at this instruction's index.
    DefineLabel(String),
    /// Jumps to a label unconditionally.
    JumpUnconditional(String),
    /// Jumps to a label when the register's first byte is exactly one.
    JumpConditional(usize, String),
    /// Calls a function label.
    Call(String),
    /// Establishes a function label: name, parameter names, return type.
    DefineFnLabel(String, Vec<String>, MiType),
    /// Marks the end of a function body.
    EndFunction,
    /// Writes a register's rendered value to standard output.
    StdoutWrite(usize),
    /// Writes a register's debugged rendering to standard output.
    StdoutWriteDebugged(usize),
    /// Flushes standard output.
    StdoutFlush,
    /// Writes a register's rendered value to standard error.
    StderrWrite(usize),
    /// Writes a register's debugged rendering to standard error.
    StderrWriteDebugged(usize),
    /// Flushes standard error.
    StderrFlush,
    /// Reads one line from standard input into a register.
    BufferedStdinRead(usize),
}

/// The mathematical shape of an instruction.
pub ghost enum InstructionView {
    Move(usize, ValueView),
    MoveBetween(usize, usize),
    MoveArgument(Seq<char>, usize),
    MoveAsArgument(usize),
    Add(usize, usize, usize),
    Sub(usize, usize, usize),
    Mul(usize, usize, usize),
    Div(usize, usize, usize),
    Rem(usize, usize, usize),
    Pow(usize, usize, usize),
    Or(usize, usize, usize),
    Xor(usize, usize, usize),
    And(usize, usize, usize),
    Not(usize, usize),
    Lt(usize, usize, usize),
    Le(usize, usize, usize),
    Gt(usize, usize, usize),
    Ge(usize, usize, usize),
    Return,
    SetVariable(usize, Seq<char>),
    MovFromVariable(Seq<char>, usize),
    ThrowFrom(usize, usize),
    Eq(usize, usize, usize),
    Ne(usize, usize, usize),
    DefineLabel(Seq<char>),
    JumpUnconditional(Seq<char>),
    JumpConditional(usize, Seq<char>),
    Call(Seq<char>),
    DefineFnLabel(Seq<char>, Seq<Seq<char>>, MiType),
    EndFunction,
    StdoutWrite(usize),
    StdoutWriteDebugged(usize),
    StdoutFlush,
    StderrWrite(usize),
    StderrWriteDebugged(usize),
    StderrFlush,
    BufferedStdinRead(usize),
}

impl View for Instruction {
    type V = InstructionView;

    open spec fn view(&self) -> InstructionView {
        match self {
            Instruction::Move(r, v) => InstructionView::Move(*r, v@),
            Instruction::MoveBetween(a, b) => InstructionView::MoveBetween(*a, *b),
            Instruction::MoveArgument(n, r) => InstructionView::MoveArgument(n@, *r),
            Instruction::MoveAsArgument(r) => InstructionView::MoveAsArgument(*r),
            Instruction::Add(a, b, d) => InstructionView::Add(*a, *b, *d),
            Instruction::Sub(a, b, d) => InstructionView::Sub(*a, *b, *d),
            Instruction::Mul(a, b, d) => InstructionView::Mul(*a, *b, *d),
            Instruction::Div(a, b, d) => InstructionView::Div(*a, *b, *d),
            Instruction::Rem(a, b, d) => InstructionView::Rem(*a, *b, *d),
            Instruction::Pow(a, b, d) => InstructionView::Pow(*a, *b, *d),
            Instruction::Or(a, b, d) => InstructionView::Or(*a, *b, *d),
            Instruction::Xor(a, b, d) => InstructionView::Xor(*a, *b, *d),
            Instruction::And(a, b, d) => InstructionView::And(*a, *b, *d),
            Instruction::Not(a, d) => InstructionView::Not(*a, *d),
            Instruction::Lt(a, b, d) => InstructionView::Lt(*a, *b, *d),
            Instruction::Le(a, b, d) => InstructionView::Le(*a, *b, *d),
            Instruction::Gt(a, b, d) => InstructionView::Gt(*a, *b, *d),
            Instruction::Ge(a, b, d) => InstructionView::Ge(*a, *b, *d),
            Instruction::Return => InstructionView::Return,
            Instruction::SetVariable(r, n) => InstructionView::SetVariable(*r, n@),
            Instruction::MovFromVariable(n, r) => InstructionView::MovFromVariable(n@, *r),
            Instruction::ThrowFrom(a, b) => InstructionView::ThrowFrom(*a, *b),
            Instruction::Eq(a, b, d) => InstructionView::Eq(*a, *b, *d),
            Instruction::Ne(a, b, d) => InstructionView::Ne(*a, *b, *d),
            Instruction::DefineLabel(n) => InstructionView::DefineLabel(n@),
            Instruction::JumpUnconditional(n) => InstructionView::JumpUnconditional(n@),
            Instruction::JumpConditional(r, n) => InstructionView::JumpConditional(*r, n@),
            Instruction::Call(n) => InstructionView::Call(n@),
            Instruction::DefineFnLabel(n, args, ret) => InstructionView::DefineFnLabel(
                n@,
                args.deep_view(),
                *ret,
            ),
            Instruction::EndFunction => InstructionView::EndFunction,
            Instruction::StdoutWrite(r) => InstructionView::StdoutWrite(*r),
            Instruction::StdoutWriteDebugged(r) => InstructionView::StdoutWriteDebugged(*r),
            Instruction::StdoutFlush => InstructionView::StdoutFlush,
            Instruction::StderrWrite(r) => InstructionView::StderrWrite(*r),
            Instruction::StderrWriteDebugged(r) => InstructionView::StderrWriteDebugged(*r),
            Instruction::StderrFlush => InstructionView::StderrFlush,
            Instruction::BufferedStdinRead(r) => InstructionView::BufferedStdinRead(*r),
        }
    }
}

impl DeepView for Instruction {
    type V = InstructionView;

    open spec fn deep_view(&self) -> InstructionView {
        self.view()
    }
}

/// A copy of a vector of strings, character for character.
pub fn clone_strings(v: &Vec<String>) -> (r: Vec<String>)
    ensures
        r.deep_view() == v.deep_view(),
{
    let mut r: Vec<String> = Vec::new();
    let n = v.len();
    let mut i: usize = 0;
    while i < n
        invariant
            n == v.len(),
            0 <= i <= n,
            r@.len() == i,
            forall|j: int| 0 <= j < i ==> r@[j]@ == v@[j]@,
        decreases n - i,
    {
        r.push(v[i].clone());
        i += 1;
    }
    proof {
        assert(r.deep_view() =~= v.deep_view());
    }
    r
}

impl Clone for Instruction {
    /// A clone has the same view.
    fn clone(&self) -> (r: Self)
        ensures
            r@ == self@,
    {
        match self {
            Instruction::Move(r, v) => Instruction::Move(*r, v.clone()),
            Instruction::MoveBetween(a, b) => Instruction::MoveBetween(*a, *b),
            Instruction::MoveArgument(n, r) => Instruction::MoveArgument(n.clone(), *r),
            Instruction::MoveAsArgument(r) => Instruction::MoveAsArgument(*r),
            Instruction::Add(a, b, d) => Instruction::Add(*a, *b, *d),
            Instruction::Sub(a, b, d) => Instruction::Sub(*a, *b, *d),
            Instruction::Mul(a, b, d) => Instruction::Mul(*a, *b, *d),
            Instruction::Div(a, b, d) => Instruction::Div(*a, *b, *d),
            Instruction::Rem(a, b, d) => Instruction::Rem(*a, *b, *d),
            Instruction::Pow(a, b, d) => Instruction::Pow(*a, *b, *d),
            Instruction::Or(a, b, d) => Instruction::Or(*a, *b, *d),
            Instruction::Xor(a, b, d) => Instruction::Xor(*a, *b, *d),
            Instruction::And(a, b, d) => Instruction::And(*a, *b, *d),
            Instruction::Not(a, d) => Instruction::Not(*a, *d),
            Instruction::Lt(a, b, d) => Instruction::Lt(*a, *b, *d),
            Instruction::Le(a, b, d) => Instruction::Le(*a, *b, *d),
            Instruction::Gt(a, b, d) => Instruction::Gt(*a, *b, *d),
            Instruction::Ge(a, b, d) => Instruction::Ge(*a, *b, *d),
            Instruction::Return => Instruction::Return,
            Instruction::SetVariable(r, n) => Instruction::SetVariable(*r, n.clone()),
            Instruction::MovFromVariable(n, r) => Instruction::MovFromVariable(n.clone(), *r),
            Instruction::ThrowFrom(a, b) => Instruction::ThrowFrom(*a, *b),
            Instruction::Eq(a, b, d) => Instruction::Eq(*a, *b, *d),
            Instruction::Ne(a, b, d) => Instruction::Ne(*a, *b, *d),
            Instruction::DefineLabel(n) => Instruction::DefineLabel(n.clone()),
            Instruction::JumpUnconditional(n) => Instruction::JumpUnconditional(n.clone()),
            Instruction::JumpConditional(r, n) => Instruction::JumpConditional(*r, n.clone()),
            Instruction::Call(n) => Instruction::Call(n.clone()),
            Instruction::DefineFnLabel(n, args, ret) => Instruction::DefineFnLabel(
                n.clone(),
                clone_strings(args),
                *ret,
            ),
            Instruction::EndFunction => Instruction::EndFunction,
            Instruction::StdoutWrite(r) => Instruction::StdoutWrite(*r),
            Instruction::StdoutWriteDebugged(r) => Instruction::StdoutWriteDebugged(*r),
            Instruction::StdoutFlush => Instruction::StdoutFlush,
            Instruction::StderrWrite(r) => Instruction::StderrWrite(*r),
            Instruction::StderrWriteDebugged(r) => Instruction::StderrWriteDebugged(*r),
            Instruction::StderrFlush => Instruction::StderrFlush,
            Instruction::BufferedStdinRead(r) => Instruction::BufferedStdinRead(*r),
        }
    }
}

/// A literal value carried by an instruction satisfies the payload-length
/// invariant.
pub open spec fn instr_wf(i: InstructionView) -> bool {
    match i {
        InstructionView::Move(_, v) => value_wf(v),
        _ => true,
    }
}

/// Every instruction of the program carries only well-formed values.
pub open spec fn instrs_wf(instrs: Seq<InstructionView>) -> bool {
    forall|i: int| 0 <= i < instrs.len() ==> instr_wf(#[trigger] instrs[i])
}

/// Checks the payload-length invariant of every literal in the program.
pub fn check_instructions_wf(instrs: &Vec<Instruction>) -> (r: bool)
    ensures
        r == instrs_wf(instrs.deep_view()),
{
    let n = instrs.len();
    let mut i: usize = 0;
    while i < n
        invariant
            n == instrs@.len(),
            0 <= i <= n,
            forall|j: int| 0 <= j < i ==> instr_wf(#[trigger] instrs.deep_view()[j]),
        decreases n - i,
    {
        let ok = match &instrs[i] {
            Instruction::Move(_, v) => check_value_wf(v),
            _ => true,
        };
        if !ok {
            assert(!instr_wf(instrs.deep_view()[i as int]));
            return false;
        }
        assert(instr_wf(instrs.deep_view()[i as int]));
        i += 1;
    }
    true
}

} // verus!
