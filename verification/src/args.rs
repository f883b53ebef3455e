//! The argument record of a user-defined function.

use vstd::prelude::*;
use crate::value::MiType;
use crate::maps::assoc_view;

verus! {

/// A function's parameters: an ordered mapping from name to declared type,
/// and an optional variant marker.
#[derive(Debug)]
pub struct MiArgs {
    pub arguments: Vec<(String, MiType)>,
    pub variant: Option<String>,
}

/// The mathematical shape of an argument record.
#[verifier::ext_equal]
pub ghost struct ArgsView {
    pub arguments: Seq<(Seq<char>, MiType)>,
    pub variant: Option<Seq<char>>,
}

impl View for MiArgs {
    type V = ArgsView;

    open spec fn view(&self) -> ArgsView {
        ArgsView {
            arguments: assoc_view(self.arguments@),
            variant: match self.variant {
                Some(ref s) => Some(s@),
                None => None,
            },
        }
    }
}

} // verus!
