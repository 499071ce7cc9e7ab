//! A task's urgency: an integer that is always within the inclusive range
//! 1 to 5. The constructors here are the only way to obtain a value, so an
//! out-of-range priority can never exist.

use vstd::prelude::*;
use crate::num::spec_parse_usize;

verus! {

/// A validated priority. The wrapped number is private; every constructor
/// rejects values outside 1 to 5.
#[derive(Clone, Copy, Debug)]
pub struct Priority(usize);

impl View for Priority {
    type V = int;

    closed spec fn view(&self) -> int {
        self.0 as int
    }
}

impl Priority {
    #[verifier::type_invariant]
    spec fn type_inv(self) -> bool {
        1 <= self.0 <= 5
    }

    /// Builds a priority from an already parsed number, rejecting values
    /// outside 1 to 5.
    pub fn new(value: usize) -> (r: Option<Priority>)
        ensures
            1 <= value <= 5 ==> (r matches Some(p) && p@ == value),
            !(1 <= value <= 5) ==> r is None,
    {
        if 1 <= value && value <= 5 {
            Some(Priority(value))
        } else {
            None
        }
    }

    /// Reads a priority from untrusted text, the sole gate from raw input:
    /// the text must parse as an unsigned number between 1 and 5, and the
    /// offending text comes back on failure.
    pub fn from_form_value<'v>(form_value: &'v str) -> (r: Result<Priority, &'v str>)
        ensures
            match spec_parse_usize(form_value@) {
                Some(v) => if 1 <= v <= 5 {
                    r matches Ok(p) && p@ == v
                } else {
                    r matches Err(e) && e@ == form_value@
                },
                None => r matches Err(e) && e@ == form_value@,
            },
    {
        match crate::num::parse_usize(form_value) {
            Some(v) => if 1 <= v && v <= 5 {
                Ok(Priority(v))
            } else {
                Err(form_value)
            },
            None => Err(form_value),
        }
    }

    /// The numeric value, always between 1 and 5.
    pub fn get(&self) -> (r: usize)
        ensures
            r as int == self@,
            1 <= r <= 5,
    {
        proof {
            use_type_invariant(self);
        }
        self.0
    }
}

} // verus!
