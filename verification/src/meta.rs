//! The image metadata record and the build manifest.

use vstd::prelude::*;
use crate::instructions::{Instruction, InstructionView};

verus! {

/// The record a built image serializes: manifest-derived fields plus the
/// instruction sequence. The timestamp is kept as whole seconds since the
/// Unix epoch.
#[derive(Debug)]
pub struct Metadata {
    pub package: String,
    pub version: Option<String>,
    pub timestamp: u64,
    pub author: Option<String>,
    pub debug: bool,
    pub instructions: Vec<Instruction>,
    pub source_code: Option<String>,
    pub description: String,
    pub license: Option<String>,
    pub total_instructions: usize,
    pub compiled_version: String,
}

/// The mathematical shape of an image's metadata.
#[verifier::ext_equal]
pub ghost struct MetadataView {
    pub package: Seq<char>,
    pub version: Option<Seq<char>>,
    pub timestamp: u64,
    pub author: Option<Seq<char>>,
    pub debug: bool,
    pub instructions: Seq<InstructionView>,
    pub source_code: Option<Seq<char>>,
    pub description: Seq<char>,
    pub license: Option<Seq<char>>,
    pub total_instructions: usize,
    pub compiled_version: Seq<char>,
}

pub open spec fn opt_string_view(o: &Option<String>) -> Option<Seq<char>> {
    match o {
        Some(s) => Some(s@),
        None => None,
    }
}

impl View for Metadata {
    type V = MetadataView;

    open spec fn view(&self) -> MetadataView {
        MetadataView {
            package: self.package@,
            version: opt_string_view(&self.version),
            timestamp: self.timestamp,
            author: opt_string_view(&self.author),
            debug: self.debug,
            instructions: self.instructions.deep_view(),
            source_code: opt_string_view(&self.source_code),
            description: self.description@,
            license: opt_string_view(&self.license),
            total_instructions: self.total_instructions,
            compiled_version: self.compiled_version@,
        }
    }
}

/// The build manifest read beside the sources.
#[derive(Debug)]
pub struct Manifest {
    pub package: String,
    pub version: Option<String>,
    pub author: Option<String>,
    pub main_file: String,
    pub description: Option<String>,
    pub license: String,
}

/// The mathematical shape of a manifest.
#[verifier::ext_equal]
pub ghost struct ManifestView {
    pub package: Seq<char>,
    pub version: Option<Seq<char>>,
    pub author: Option<Seq<char>>,
    pub main_file: Seq<char>,
    pub description: Option<Seq<char>>,
    pub license: Seq<char>,
}

impl View for Manifest {
    type V = ManifestView;

    open spec fn view(&self) -> ManifestView {
        ManifestView {
            package: self.package@,
            version: opt_string_view(&self.version),
            author: opt_string_view(&self.author),
            main_file: self.main_file@,
            description: opt_string_view(&self.description),
            license: self.license@,
        }
    }
}

} // verus!
