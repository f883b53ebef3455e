//! Function values: builtin references and user-defined function records.

use vstd::prelude::*;
use crate::args::{MiArgs, ArgsView};
use crate::value::MiType;
use crate::instructions::{Instruction, InstructionView};

verus! {

/// A user-defined function record.
#[derive(Debug)]
pub struct MiFunction {
    pub name: String,
    pub arguments: MiArgs,
    pub returns: MiType,
    pub instructions: Vec<Instruction>,
}

/// The mathematical shape of a user-defined function.
#[verifier::ext_equal]
pub ghost struct FunctionRecordView {
    pub name: Seq<char>,
    pub arguments: ArgsView,
    pub returns: MiType,
    pub instructions: Seq<InstructionView>,
}

impl View for MiFunction {
    type V = FunctionRecordView;

    open spec fn view(&self) -> FunctionRecordView {
        FunctionRecordView {
            name: self.name@,
            arguments: self.arguments@,
            returns: self.returns,
            instructions: self.instructions.deep_view(),
        }
    }
}

/// A function value: either a builtin referenced by index, or a user-defined
/// record.
#[derive(Debug)]
pub enum Function {
    Builtin(u32),
    Defined(MiFunction),
}

/// The mathematical shape of a function value.
pub ghost enum FunctionView {
    Builtin(u32),
    Defined(FunctionRecordView),
}

impl View for Function {
    type V = FunctionView;

    open spec fn view(&self) -> FunctionView {
        match self {
            Function::Builtin(k) => FunctionView::Builtin(*k),
            Function::Defined(f) => FunctionView::Defined(f@),
        }
    }
}

} // verus!
