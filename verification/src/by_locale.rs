//! Equality and order of unit maps: by locale alone. Two unit maps with the
//! same locale tag count as equal, whatever units they hold.

use vstd::prelude::*;
use std::cmp::Ordering;
use crate::ir::TranslationUnitMap;
use crate::order::{lemma_text_lt_trichotomy, rank_text, text_lt, Rank};

verus! {

impl PartialEq for TranslationUnitMap {
    fn eq(&self, other: &Self) -> (r: bool) {
        match rank_text(self.locale.as_str(), other.locale.as_str()) {
            Rank::Equal => true,
            _ => false,
        }
    }
}

impl vstd::std_specs::cmp::PartialEqSpecImpl for TranslationUnitMap {
    open spec fn obeys_eq_spec() -> bool {
        true
    }

    open spec fn eq_spec(&self, other: &Self) -> bool {
        self.locale@ == other.locale@
    }
}

impl Eq for TranslationUnitMap {

}

impl PartialOrd for TranslationUnitMap {
    fn partial_cmp(&self, other: &Self) -> (r: Option<Ordering>) {
        proof {
            lemma_text_lt_trichotomy(self.locale@, other.locale@);
        }
        match rank_text(self.locale.as_str(), other.locale.as_str()) {
            Rank::Less => Some(Ordering::Less),
            Rank::Equal => Some(Ordering::Equal),
            Rank::Greater => Some(Ordering::Greater),
        }
    }
}

impl vstd::std_specs::cmp::PartialOrdSpecImpl for TranslationUnitMap {
    open spec fn obeys_partial_cmp_spec() -> bool {
        true
    }

    open spec fn partial_cmp_spec(&self, other: &Self) -> Option<Ordering> {
        if text_lt(self.locale@, other.locale@) {
            Some(Ordering::Less)
        } else if self.locale@ == other.locale@ {
            Some(Ordering::Equal)
        } else {
            Some(Ordering::Greater)
        }
    }
}

} // verus!
