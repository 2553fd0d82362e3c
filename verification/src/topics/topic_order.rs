//! The order of topics: by their numbers, whatever else they hold.
use std::cmp::Ordering;
use vstd::prelude::*;

use crate::topics::topic::Topic;

verus! {

impl vstd::std_specs::cmp::PartialEqSpecImpl for Topic {
    open spec fn obeys_eq_spec() -> bool {
        true
    }

    open spec fn eq_spec(&self, other: &Topic) -> bool {
        self@.internal_id == other@.internal_id
    }
}

impl PartialEq for Topic {
    fn eq(&self, other: &Topic) -> (b: bool) {
        self.internal_id() == other.internal_id()
    }
}

impl Eq for Topic {

}

impl vstd::std_specs::cmp::PartialOrdSpecImpl for Topic {
    open spec fn obeys_partial_cmp_spec() -> bool {
        true
    }

    open spec fn partial_cmp_spec(&self, other: &Topic) -> Option<Ordering> {
        if self@.internal_id < other@.internal_id {
            Some(Ordering::Less)
        } else if self@.internal_id == other@.internal_id {
            Some(Ordering::Equal)
        } else {
            Some(Ordering::Greater)
        }
    }
}

impl PartialOrd for Topic {
    fn partial_cmp(&self, other: &Topic) -> (order: Option<Ordering>) {
        if self.internal_id() < other.internal_id() {
            Some(Ordering::Less)
        } else if self.internal_id() == other.internal_id() {
            Some(Ordering::Equal)
        } else {
            Some(Ordering::Greater)
        }
    }
}

} // verus!
