//! Identifiers of categories and translation units.
//!
//! An identifier is a non-empty text. Identifiers are equal when their texts
//! are, and they are ordered as their texts are.

use vstd::prelude::*;
use crate::error::Error;
use crate::ordered::TextKey;
use crate::text::{
    chars_of, find_chars, first_match, lemma_first_match_at, occurs, push_char, push_text,
    slice_chars, starts_with, starts_with_char,
};

verus! {

/// The identifier of a translation unit or of one of its attributes: a
/// non-empty text. A term's identifier begins with `-`.
#[derive(Debug, PartialEq, Eq, PartialOrd, Ord, Hash)]
pub struct TUIdentifier(String);

impl View for TUIdentifier {
    type V = Seq<char>;

    closed spec fn view(&self) -> Seq<char> {
        self.0@
    }
}

impl TUIdentifier {
    #[verifier::type_invariant]
    spec fn nonempty(&self) -> bool {
        self.0@.len() > 0
    }

    /// The identifier with the text `value`, unless `value` is empty.
    pub fn new(value: &str) -> (r: Result<TUIdentifier, Error>)
        ensures
            identifies(r, value@),
    {
        if value.is_empty() {
            Err(Error::InvalidIdentifier)
        } else {
            Ok(TUIdentifier(value.to_owned()))
        }
    }

    /// The text of the identifier, which is never empty.
    pub fn as_str(&self) -> (s: &str)
        ensures
            s@ == self@,
            s@.len() > 0,
    {
        proof {
            use_type_invariant(self);
        }
        self.0.as_str()
    }

    /// Whether this is the identifier of a term.
    pub fn is_term(&self) -> (b: bool)
        ensures
            b == (self@[0] == '-'),
    {
        proof {
            use_type_invariant(self);
        }
        starts_with_char(self.0.as_str(), '-')
    }

    /// The identifier of the term named `name`: the name behind a `-`.
    pub fn of_term_name(name: &str) -> (id: TUIdentifier)
        ensures
            id@ == seq!['-'] + name@,
    {
        let mut text = String::new();
        push_char(&mut text, '-');
        push_text(&mut text, name);
        TUIdentifier(text)
    }

    /// The path of the attribute `attribute` of this unit: the two
    /// identifiers with `__` between them.
    pub fn attribute_path(&self, attribute: &TUIdentifier) -> (path: String)
        ensures
            path@ == attribute_path_text(self@, attribute@),
    {
        let mut path = self.0.clone();
        push_char(&mut path, '_');
        push_char(&mut path, '_');
        push_text(&mut path, attribute.as_str());
        assert(path@ =~= attribute_path_text(self@, attribute@));
        path
    }
}

/// The owner's text in a path: what stands before the first `__`.
pub open spec fn path_owner(path: Seq<char>) -> Seq<char> {
    path.subrange(0, first_match(path, seq!['_', '_'], 0))
}

/// The attribute's text in a path: what stands between the first `__` and
/// the next one, or the end; `None` where the path holds no `__`.
pub open spec fn path_attribute(path: Seq<char>) -> Option<Seq<char>> {
    let a = first_match(path, seq!['_', '_'], 0);
    if a >= path.len() {
        None
    } else {
        Some(path.subrange(a + 2, first_match(path, seq!['_', '_'], a + 2)))
    }
}

/// What splitting `path` gives: the owner and, where the path names one,
/// the attribute; `InvalidIdentifier` where one of the two is empty.
pub open spec fn splits(r: Result<(TUIdentifier, Option<TUIdentifier>), Error>, path: Seq<char>) -> bool {
    let owner = path_owner(path);
    let attribute = path_attribute(path);
    if owner.len() == 0 || attribute == Some(Seq::<char>::empty()) {
        r == Err::<(TUIdentifier, Option<TUIdentifier>), Error>(Error::InvalidIdentifier)
    } else {
        &&& r is Ok
        &&& r->Ok_0.0@ == owner
        &&& match attribute {
            Some(a) => r->Ok_0.1 is Some && r->Ok_0.1->Some_0@ == a,
            None => r->Ok_0.1 is None,
        }
    }
}

/// The path law: a path splits into the two identifiers it was made of,
/// provided that neither holds `__` and the owner does not end in `_`.
pub proof fn lemma_path_splits_back(owner: Seq<char>, attribute: Seq<char>)
    requires
        !occurs(owner, seq!['_', '_']),
        !occurs(attribute, seq!['_', '_']),
        owner.len() == 0 || owner.last() != '_',
    ensures
        path_owner(attribute_path_text(owner, attribute)) == owner,
        path_attribute(attribute_path_text(owner, attribute)) == Some(attribute),
{
    let sep = seq!['_', '_'];
    let path = attribute_path_text(owner, attribute);
    let o = owner.len() as int;
    assert forall|i: int| 0 <= i < o implies !starts_with(#[trigger] path.skip(i), sep) by {
        if starts_with(path.skip(i), sep) {
            assert(path.skip(i).subrange(0, 2)[0] == '_');
            assert(path.skip(i).subrange(0, 2)[1] == '_');
            if i + 1 < o {
                assert(owner.skip(i).subrange(0, 2) =~= sep);
                assert(starts_with(owner.skip(i), sep));
            } else {
                assert(path[i] == owner.last());
            }
        }
    }
    assert(path.skip(o).subrange(0, 2) =~= sep);
    lemma_first_match_at(path, sep, 0, o);
    assert forall|i: int| o + 2 <= i < path.len() implies !starts_with(#[trigger] path.skip(i), sep) by {
        if starts_with(path.skip(i), sep) {
            assert(path.skip(i) =~= attribute.skip(i - o - 2));
            assert(starts_with(attribute.skip(i - o - 2), sep));
        }
    }
    lemma_first_match_at(path, sep, o + 2, path.len() as int);
    assert(path.subrange(0, o) =~= owner);
    assert(path.subrange(o + 2, path.len() as int) =~= attribute);
}

/// Splits an attribute path into the unit's identifier and the
/// attribute's. A path without `__` names the unit alone.
pub fn split_path(path: &str) -> (r: Result<(TUIdentifier, Option<TUIdentifier>), Error>)
    ensures
        splits(r, path@),
{
    let text = chars_of(path);
    let mut sep: Vec<char> = Vec::new();
    sep.push('_');
    sep.push('_');
    assert(sep@ =~= seq!['_', '_']);
    let a = find_chars(&text, &sep, 0);
    let owner = slice_chars(&text, 0, a);
    if a >= text.len() {
        return match TUIdentifier::try_from(owner) {
            Ok(id) => Ok((id, None)),
            Err(_) => Err(Error::InvalidIdentifier),
        };
    }
    let b = find_chars(&text, &sep, a + 2);
    let attribute = slice_chars(&text, a + 2, b);
    assert(path_attribute(path@) == Some(attribute@));
    assert(attribute@.len() == 0 ==> attribute@ =~= Seq::<char>::empty());
    match TUIdentifier::try_from(owner) {
        Ok(id) => match TUIdentifier::try_from(attribute) {
            Ok(attr) => Ok((id, Some(attr))),
            Err(_) => Err(Error::InvalidIdentifier),
        },
        Err(_) => Err(Error::InvalidIdentifier),
    }
}

/// The text of an attribute path.
pub open spec fn attribute_path_text(owner: Seq<char>, attribute: Seq<char>) -> Seq<char> {
    owner + seq!['_', '_'] + attribute
}

/// What building an identifier from `value` gives: the identifier with that
/// text, or `InvalidIdentifier` for the empty text.
pub open spec fn identifies<I: View<V = Seq<char>>>(r: Result<I, Error>, value: Seq<char>) -> bool {
    if value.len() > 0 {
        r is Ok && r->Ok_0@ == value
    } else {
        r == Err::<I, Error>(Error::InvalidIdentifier)
    }
}

impl Clone for TUIdentifier {
    fn clone(&self) -> (r: TUIdentifier)
        ensures
            r@ == self@,
    {
        proof {
            use_type_invariant(self);
        }
        TUIdentifier(self.0.clone())
    }
}

impl TextKey for TUIdentifier {
    open spec fn text(&self) -> Seq<char> {
        self@
    }

    fn as_text(&self) -> (s: &str) {
        self.as_str()
    }
}

/// The contract of `try_from` is its own `ensures`; no value of the type can
/// be written down in a specification, so the std-level statement is left
/// open.
impl vstd::std_specs::convert::TryFromSpecImpl<&str> for TUIdentifier {
    open spec fn obeys_try_from_spec() -> bool {
        false
    }

    open spec fn try_from_spec(v: &str) -> Result<TUIdentifier, Error> {
        Err(Error::InvalidIdentifier)
    }
}

impl TryFrom<&str> for TUIdentifier {
    type Error = Error;

    fn try_from(value: &str) -> (r: Result<TUIdentifier, Error>)
        ensures
            identifies(r, value@),
    {
        TUIdentifier::new(value)
    }
}

impl vstd::std_specs::convert::TryFromSpecImpl<String> for TUIdentifier {
    open spec fn obeys_try_from_spec() -> bool {
        false
    }

    open spec fn try_from_spec(v: String) -> Result<TUIdentifier, Error> {
        Err(Error::InvalidIdentifier)
    }
}

impl TryFrom<String> for TUIdentifier {
    type Error = Error;

    fn try_from(value: String) -> (r: Result<TUIdentifier, Error>)
        ensures
            identifies(r, value@),
    {
        if value.as_str().is_empty() {
            Err(Error::InvalidIdentifier)
        } else {
            Ok(TUIdentifier(value))
        }
    }
}

/// The identifier of a category: a non-empty text.
#[derive(Debug, PartialEq, Eq, PartialOrd, Ord, Hash)]
pub struct CIdentifier(String);

impl View for CIdentifier {
    type V = Seq<char>;

    closed spec fn view(&self) -> Seq<char> {
        self.0@
    }
}

impl CIdentifier {
    #[verifier::type_invariant]
    spec fn nonempty(&self) -> bool {
        self.0@.len() > 0
    }

    /// The identifier with the text `value`, unless `value` is empty.
    pub fn new(value: &str) -> (r: Result<CIdentifier, Error>)
        ensures
            identifies(r, value@),
    {
        if value.is_empty() {
            Err(Error::InvalidIdentifier)
        } else {
            Ok(CIdentifier(value.to_owned()))
        }
    }

    /// The text of the identifier, which is never empty.
    pub fn as_str(&self) -> (s: &str)
        ensures
            s@ == self@,
            s@.len() > 0,
    {
        proof {
            use_type_invariant(self);
        }
        self.0.as_str()
    }
}

impl Clone for CIdentifier {
    fn clone(&self) -> (r: CIdentifier)
        ensures
            r@ == self@,
    {
        proof {
            use_type_invariant(self);
        }
        CIdentifier(self.0.clone())
    }
}

impl TextKey for CIdentifier {
    open spec fn text(&self) -> Seq<char> {
        self@
    }

    fn as_text(&self) -> (s: &str) {
        self.as_str()
    }
}

/// The contract of `try_from` is its own `ensures`; no value of the type can
/// be written down in a specification, so the std-level statement is left
/// open.
impl vstd::std_specs::convert::TryFromSpecImpl<&str> for CIdentifier {
    open spec fn obeys_try_from_spec() -> bool {
        false
    }

    open spec fn try_from_spec(v: &str) -> Result<CIdentifier, Error> {
        Err(Error::InvalidIdentifier)
    }
}

impl TryFrom<&str> for CIdentifier {
    type Error = Error;

    fn try_from(value: &str) -> (r: Result<CIdentifier, Error>)
        ensures
            identifies(r, value@),
    {
        CIdentifier::new(value)
    }
}

impl vstd::std_specs::convert::TryFromSpecImpl<String> for CIdentifier {
    open spec fn obeys_try_from_spec() -> bool {
        false
    }

    open spec fn try_from_spec(v: String) -> Result<CIdentifier, Error> {
        Err(Error::InvalidIdentifier)
    }
}

impl TryFrom<String> for CIdentifier {
    type Error = Error;

    fn try_from(value: String) -> (r: Result<CIdentifier, Error>)
        ensures
            identifies(r, value@),
    {
        if value.as_str().is_empty() {
            Err(Error::InvalidIdentifier)
        } else {
            Ok(CIdentifier(value))
        }
    }
}

} // verus!
