//! Fresh identifiers for jobs and sessions.

use vstd::prelude::*;

verus! {

/// Relies on uuid::Uuid::new_v4 and its `Display` form: a version-4 UUID
/// rendered hyphenated and lowercase. The value is random, so nothing relates
/// two calls; every outcome is 36 characters, each a lowercase hex digit or a
/// hyphen — in particular never a path separator.
#[verifier::external_body]
pub fn fresh_id() -> (r: String)
    ensures
        r@.len() == 36,
        forall|i: int|
            0 <= i < 36 ==> ((#[trigger] r@[i]) == '-' || ('0' <= r@[i] && r@[i] <= '9') || ('a'
                <= r@[i] && r@[i] <= 'f')),
{
    uuid::Uuid::new_v4().to_string()
}

} // verus!
