//! Hits compare by score alone.

use vstd::prelude::*;
use core::cmp::Ordering;
use crate::search::ScoredHit;

verus! {

impl PartialEq for ScoredHit {
    fn eq(&self, other: &Self) -> (r: bool) {
        self.score_key == other.score_key
    }
}

impl vstd::std_specs::cmp::PartialEqSpecImpl for ScoredHit {
    open spec fn obeys_eq_spec() -> bool {
        true
    }

    open spec fn eq_spec(&self, other: &Self) -> bool {
        self.score_key == other.score_key
    }
}

impl PartialOrd for ScoredHit {
    fn partial_cmp(&self, other: &Self) -> (r: Option<Ordering>) {
        if self.score_key < other.score_key {
            Some(Ordering::Less)
        } else if self.score_key == other.score_key {
            Some(Ordering::Equal)
        } else {
            Some(Ordering::Greater)
        }
    }
}

impl vstd::std_specs::cmp::PartialOrdSpecImpl for ScoredHit {
    open spec fn obeys_partial_cmp_spec() -> bool {
        true
    }

    open spec fn partial_cmp_spec(&self, other: &Self) -> Option<Ordering> {
        if self.score_key < other.score_key {
            Some(Ordering::Less)
        } else if self.score_key == other.score_key {
            Some(Ordering::Equal)
        } else {
            Some(Ordering::Greater)
        }
    }
}

} // verus!
