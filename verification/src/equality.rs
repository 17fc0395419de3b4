//! Equality of the values that tasks and requirements report.
//!
//! Names are compared as texts: two tokens with the same name are equal, even
//! where they belong to different tasks.

use vstd::prelude::*;
use vstd::utf8::{encode_utf8, encode_utf8_decode_utf8};
use crate::error::PreemptionError;
use crate::requirement::{Claim, RequirementInfo};
use crate::thief::ThiefInfo;

verus! {

/// Tells whether two names are the same text.
pub fn same_text(a: &str, b: &str) -> (same: bool)
    ensures
        same == (a@ == b@),
{
    let x = a.as_bytes();
    let y = b.as_bytes();
    proof {
        encode_utf8_decode_utf8(a@);
        encode_utf8_decode_utf8(b@);
    }
    if x.len() != y.len() {
        return false;
    }
    let mut i: usize = 0;
    while i < x.len()
        invariant
            i <= x@.len(),
            x@.len() == y@.len(),
            x@ == encode_utf8(a@),
            y@ == encode_utf8(b@),
            forall|j: int| 0 <= j < i ==> x@[j] == y@[j],
        decreases x@.len() - i,
    {
        if x[i] != y[i] {
            return false;
        }
        i = i + 1;
    }
    assert(x@ =~= y@);
    true
}

/// Whether two optional tokens are both absent or carry the same name.
pub open spec fn same_incoming(a: Option<ThiefInfo>, b: Option<ThiefInfo>) -> bool {
    match (a, b) {
        (Some(a), Some(b)) => a.name@ == b.name@,
        (None, None) => true,
        _ => false,
    }
}

impl PartialEq for ThiefInfo {
    fn eq(&self, other: &Self) -> (equal: bool) {
        same_text(self.name, other.name)
    }
}

impl vstd::std_specs::cmp::PartialEqSpecImpl for ThiefInfo {
    open spec fn obeys_eq_spec() -> bool {
        true
    }

    open spec fn eq_spec(&self, other: &Self) -> bool {
        self.name@ == other.name@
    }
}

impl Eq for ThiefInfo {}

impl PartialEq for RequirementInfo {
    fn eq(&self, other: &Self) -> (equal: bool) {
        same_text(self.name, other.name)
    }
}

impl vstd::std_specs::cmp::PartialEqSpecImpl for RequirementInfo {
    open spec fn obeys_eq_spec() -> bool {
        true
    }

    open spec fn eq_spec(&self, other: &Self) -> bool {
        self.name@ == other.name@
    }
}

impl Eq for RequirementInfo {}

impl PartialEq for Claim {
    fn eq(&self, other: &Self) -> (equal: bool) {
        self.serial == other.serial && same_text(self.thief.name, other.thief.name)
    }
}

impl vstd::std_specs::cmp::PartialEqSpecImpl for Claim {
    open spec fn obeys_eq_spec() -> bool {
        true
    }

    open spec fn eq_spec(&self, other: &Self) -> bool {
        self.serial == other.serial && self.thief.name@ == other.thief.name@
    }
}

impl Eq for Claim {}

impl PartialEq for PreemptionError {
    fn eq(&self, other: &Self) -> (equal: bool) {
        let incoming = match (self.incoming, other.incoming) {
            (Some(a), Some(b)) => same_text(a.name, b.name),
            (None, None) => true,
            _ => false,
        };
        incoming && same_text(self.outgoing.name, other.outgoing.name) && same_text(
            self.requirement.name,
            other.requirement.name,
        )
    }
}

impl vstd::std_specs::cmp::PartialEqSpecImpl for PreemptionError {
    open spec fn obeys_eq_spec() -> bool {
        true
    }

    open spec fn eq_spec(&self, other: &Self) -> bool {
        &&& same_incoming(self.incoming, other.incoming)
        &&& self.outgoing.name@ == other.outgoing.name@
        &&& self.requirement.name@ == other.requirement.name@
    }
}

impl Eq for PreemptionError {}

} // verus!
