//! `PrincipalId`: the caller identity that owns guardrails, controls
//! neurons and casts votes.
//!
//! The engine never inspects an identity beyond comparing it for equality,
//! so it is held as its plain byte representation.

use vstd::prelude::*;

verus! {

/// An opaque caller identity, compared by its bytes.
pub struct PrincipalId {
    bytes: Vec<u8>,
}

impl View for PrincipalId {
    type V = Seq<u8>;

    closed spec fn view(&self) -> Seq<u8> {
        self.bytes@
    }
}

impl PrincipalId {
    /// Builds an identity from its byte representation.
    pub fn new(bytes: Vec<u8>) -> (r: PrincipalId)
        ensures
            r@ == bytes@,
    {
        PrincipalId { bytes }
    }

    /// The identity's byte representation.
    pub fn as_bytes(&self) -> (r: &Vec<u8>)
        ensures
            r@ == self@,
    {
        &self.bytes
    }
}

impl Clone for PrincipalId {
    fn clone(&self) -> (r: Self)
        ensures
            r@ == self@,
    {
        PrincipalId { bytes: self.bytes.clone() }
    }
}

impl PartialEq for PrincipalId {
    fn eq(&self, other: &PrincipalId) -> (r: bool) {
        let r = self.bytes == other.bytes;
        proof {
            if self.bytes@.len() == other.bytes@.len()
                && (forall|i: int| #![auto] 0 <= i < self.bytes@.len()
                    ==> self.bytes@[i] == other.bytes@[i]) {
                assert(self.bytes@ =~= other.bytes@);
            }
        }
        r
    }
}

impl vstd::std_specs::cmp::PartialEqSpecImpl for PrincipalId {
    open spec fn obeys_eq_spec() -> bool {
        true
    }

    open spec fn eq_spec(&self, other: &PrincipalId) -> bool {
        self@ == other@
    }
}

} // verus!
