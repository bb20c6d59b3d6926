//! Correlation identifiers that join the primary and compare traces.

use vstd::prelude::*;

verus! {

pub open spec fn is_lower_hex(c: char) -> bool {
    ('0' <= c && c <= '9') || ('a' <= c && c <= 'f')
}

/// Relies on uuid's `Uuid::new_v4` and its hyphenated `Display` form: a
/// fresh random version-4 identifier written as 36 characters, lower-case
/// hex digits in groups of 8, 4, 4, 4 and 12 joined by hyphens, with the
/// version digit `4` first in the third group.
#[verifier::external_body]
pub fn generate_id() -> (r: String)
    ensures
        r@.len() == 36,
        forall|i: int|
            0 <= i < 36 ==> if i == 8 || i == 13 || i == 18 || i == 23 {
                r@[i] == '-'
            } else {
                is_lower_hex(#[trigger] r@[i])
            },
        r@[14] == '4',
{
    uuid::Uuid::new_v4().to_string()
}

} // verus!
