//! Locale tags.
//!
//! A tag is held in the canonical form that the `icu` crate gives a language
//! identifier: subtags separated by `-`, in their customary casing. Tags are
//! equal when their canonical forms are, and they are ordered as these are.

use vstd::prelude::*;
use crate::ordered::TextKey;

verus! {

/// The canonical form of the language identifier that `input` spells, or
/// `None` where `input` spells none.
pub uninterp spec fn canonical_locale(input: Seq<char>) -> Option<Seq<char>>;

/// Parses `input` as a language identifier and writes it out again.
///
/// Wraps `icu::locid::LanguageIdentifier::canonicalize`, which parses its
/// input and, where that succeeds, returns the identifier written as a
/// string. The result depends on the input alone; the contract gives it a
/// name and claims no more.
#[verifier::external_body]
fn canonicalize(input: &str) -> (r: Option<String>)
    ensures
        match r {
            Some(s) => canonical_locale(input@) == Some(s@),
            None => canonical_locale(input@) is None,
        },
{
    icu::locid::LanguageIdentifier::canonicalize(input).ok()
}

/// A locale tag in canonical form.
#[derive(Debug, PartialEq, Eq, PartialOrd, Ord, Hash)]
pub struct LocaleTag(String);

impl View for LocaleTag {
    type V = Seq<char>;

    closed spec fn view(&self) -> Seq<char> {
        self.0@
    }
}

impl LocaleTag {
    /// The tag that `input` spells, in canonical form; `None` where `input`
    /// is no language identifier.
    pub fn parse(input: &str) -> (r: Option<LocaleTag>)
        ensures
            match r {
                Some(tag) => canonical_locale(input@) == Some(tag@),
                None => canonical_locale(input@) is None,
            },
    {
        match canonicalize(input) {
            Some(text) => Some(LocaleTag(text)),
            None => None,
        }
    }

    /// The canonical form of the tag.
    pub fn as_str(&self) -> (s: &str)
        ensures
            s@ == self@,
    {
        self.0.as_str()
    }
}

impl Clone for LocaleTag {
    fn clone(&self) -> (r: LocaleTag)
        ensures
            r@ == self@,
    {
        LocaleTag(self.0.clone())
    }
}

impl TextKey for LocaleTag {
    open spec fn text(&self) -> Seq<char> {
        self@
    }

    fn as_text(&self) -> (s: &str) {
        self.as_str()
    }
}

} // verus!
