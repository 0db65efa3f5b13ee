//! `BoundedString`: a validated, size-capped string used for guardrail and
//! rule identifiers and text fields.
//!
//! The cap is a byte bound, enforced at construction: a string over the
//! bound fails to construct, so every live `BoundedString` is within bounds
//! and is never silently truncated.

use vstd::prelude::*;
use vstd::utf8::encode_utf8;
use crate::errors::{GovernanceError, ValidationError};

verus! {

/// Maximum byte length of a `BoundedString`.
pub const MAX_STRING_SIZE: u32 = 512;

/// A string whose UTF-8 encoding is at most `MAX_STRING_SIZE` bytes long.
pub struct BoundedString {
    s: String,
}

impl View for BoundedString {
    type V = Seq<char>;

    closed spec fn view(&self) -> Seq<char> {
        self.s@
    }
}

impl BoundedString {
    /// The size invariant: every live value is within the byte cap.
    #[verifier::type_invariant]
    pub closed spec fn wf(self) -> bool {
        encode_utf8(self.s@).len() <= MAX_STRING_SIZE
    }

    /// Builds a `BoundedString`, rejecting text over the byte cap.
    pub fn new(text: String) -> (r: Result<BoundedString, GovernanceError>)
        ensures
            match r {
                Ok(b) => b@ == text@ && encode_utf8(text@).len() <= MAX_STRING_SIZE,
                Err(e) => {
                    &&& e == GovernanceError::Validation(ValidationError::FieldTooLong)
                    &&& encode_utf8(text@).len() > MAX_STRING_SIZE
                },
            },
    {
        if text.as_str().as_bytes().len() <= MAX_STRING_SIZE as usize {
            Ok(BoundedString { s: text })
        } else {
            Err(GovernanceError::Validation(ValidationError::FieldTooLong))
        }
    }

    /// The text itself; its byte length is within the cap.
    pub fn as_str(&self) -> (r: &str)
        ensures
            r@ == self@,
            encode_utf8(self@).len() <= MAX_STRING_SIZE,
    {
        proof {
            use_type_invariant(self);
        }
        self.s.as_str()
    }
}

impl Clone for BoundedString {
    fn clone(&self) -> (r: Self)
        ensures
            r == *self,
    {
        proof {
            use_type_invariant(self);
        }
        BoundedString { s: self.s.clone() }
    }
}

impl PartialEq for BoundedString {
    fn eq(&self, other: &BoundedString) -> (r: bool) {
        self.s == other.s
    }
}

impl vstd::std_specs::cmp::PartialEqSpecImpl for BoundedString {
    open spec fn obeys_eq_spec() -> bool {
        true
    }

    open spec fn eq_spec(&self, other: &BoundedString) -> bool {
        self@ == other@
    }
}

} // verus!
