//! The ways in which the library's operations fail.

use vstd::prelude::*;

verus! {

/// One diagnostic of the grammar parser: where in the source it stands, in
/// bytes, and what the parser says of it.
#[derive(Clone, Debug, PartialEq, Eq)]
pub struct ParseDiagnostic {
    pub start: usize,
    pub end: usize,
    pub message: String,
}

/// A diagnostic as a mathematical value.
pub struct DiagnosticView {
    pub start: nat,
    pub end: nat,
    pub message: Seq<char>,
}

impl View for ParseDiagnostic {
    type V = DiagnosticView;

    open spec fn view(&self) -> DiagnosticView {
        DiagnosticView { start: self.start as nat, end: self.end as nat, message: self.message@ }
    }
}

/// The diagnostics of a list as mathematical values.
pub open spec fn diagnostics_view(list: Seq<ParseDiagnostic>) -> Seq<DiagnosticView> {
    Seq::new(list.len(), |i: int| list[i]@)
}

/// Why an operation of the library failed.
#[derive(Clone, Debug, PartialEq, Eq)]
pub enum Error {
    /// An identifier was built from an empty string.
    InvalidIdentifier,
    /// Text that the bridge wrote did not parse; the parser's diagnostics,
    /// first one first.
    SynthesisParseError(Vec<ParseDiagnostic>),
    /// Text that the bridge wrote holds an escape that is cut short by a
    /// character outside ASCII; the parser is not handed such text.
    UnfinishedEscape,
    /// A message of a tree has no value, and so gives no unit.
    MissingValue,
    /// A category has no unit map for the locale it declares as default.
    MissingDefaultLocale,
    /// A locale other than the default one defines a unit or an attribute
    /// that the default locale lacks.
    MissingBaseUnit,
}

} // verus!
