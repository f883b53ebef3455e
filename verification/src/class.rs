//! Class values: named records of properties, kept in insertion order.

use vstd::prelude::*;
use crate::value::{MiValue, MiType, ValueView};
use crate::function::{Function, FunctionView};
use crate::maps::assoc_view;

verus! {

/// A class value: a name and an ordered mapping from property name to value.
#[derive(Debug)]
pub struct Class {
    pub name: String,
    pub properties: Vec<(String, MiValue)>,
}

/// The mathematical shape of a class value.
#[verifier::ext_equal]
pub ghost struct ClassView {
    pub name: Seq<char>,
    pub properties: Seq<(Seq<char>, ValueView)>,
}

impl View for Class {
    type V = ClassView;

    open spec fn view(&self) -> ClassView {
        ClassView { name: self.name@, properties: assoc_view(self.properties@) }
    }
}

/// A class blueprint: a name with its methods and declared variables.
#[derive(Debug)]
pub struct ClassBlueprint {
    pub name: String,
    pub functions: Vec<(String, Function)>,
    pub variables: Vec<(String, MiType)>,
}

/// The mathematical shape of a class blueprint.
#[verifier::ext_equal]
pub ghost struct ClassBlueprintView {
    pub name: Seq<char>,
    pub functions: Seq<(Seq<char>, FunctionView)>,
    pub variables: Seq<(Seq<char>, MiType)>,
}

impl View for ClassBlueprint {
    type V = ClassBlueprintView;

    open spec fn view(&self) -> ClassBlueprintView {
        ClassBlueprintView {
            name: self.name@,
            functions: assoc_view(self.functions@),
            variables: assoc_view(self.variables@),
        }
    }
}

} // verus!
