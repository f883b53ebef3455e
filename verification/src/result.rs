//! The error record the virtual machine throws and unwinds, and the
//! outcome of a whole run.

use vstd::prelude::*;
use crate::value::MiValue;

verus! {

/// Holds the error data that the VM can unwind.
#[derive(Debug)]
pub struct MiError {
    pub name: String,
    pub message: String,
    pub backtrace: String,
}

/// The mathematical shape of an error record.
#[verifier::ext_equal]
pub ghost struct ErrorView {
    pub name: Seq<char>,
    pub message: Seq<char>,
    pub backtrace: Seq<char>,
}

impl View for MiError {
    type V = ErrorView;

    open spec fn view(&self) -> ErrorView {
        ErrorView { name: self.name@, message: self.message@, backtrace: self.backtrace@ }
    }
}

/// Represents either a produced value or an error.
#[derive(Debug)]
pub enum MiResult {
    Value(MiValue),
    Error(MiError),
}

} // verus!
