//! The formats from which a project can be read.

use vstd::prelude::*;
use crate::parser::{failure_of, parse, parses, ParseFailure};

verus! {

/// A format from which a project can be read.
#[derive(Debug, Clone, Copy)]
pub enum FromFormat {
    Fluent,
    Xlsx,
}

impl FromFormat {
    /// The extension of the files of the format.
    pub fn file_ext(&self) -> (ext: &'static str)
        ensures
            ext@ == match self {
                FromFormat::Fluent => "ftl"@,
                FromFormat::Xlsx => "xlsx"@,
            },
    {
        match self {
            FromFormat::Fluent => "ftl",
            FromFormat::Xlsx => "xlsx",
        }
    }

    /// Checks the text of a translation list: it is valid if and only if it
    /// gives a tree, and else the failure is handed back, with all the
    /// parser's diagnostics. A spreadsheet is no text and cannot be checked
    /// here.
    pub fn validate(&self, source: &str) -> (r: Result<(), ParseFailure>)
        requires
            *self is Fluent,
        ensures
            r is Ok <==> parses(source@),
            r matches Err(f) ==> f@ == failure_of(source@),
            r matches Err(ParseFailure::Diagnostics(list)) ==> list@.len() > 0,
    {
        match parse(source) {
            Ok(_) => Ok(()),
            Err(f) => Err(f),
        }
    }
}

} // verus!
