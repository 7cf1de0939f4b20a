//! Byte-level ASCII case folding and classes.
use vstd::prelude::*;

verus! {

/// The byte with ASCII uppercase letters made lowercase.
pub open spec fn ascii_lower(b: u8) -> u8 {
    if 65 <= b && b <= 90 {
        (b + 32) as u8
    } else {
        b
    }
}

/// The byte with ASCII lowercase letters made uppercase.
pub open spec fn ascii_upper(b: u8) -> u8 {
    if 97 <= b && b <= 122 {
        (b - 32) as u8
    } else {
        b
    }
}

/// An ASCII lowercase letter or decimal digit.
pub open spec fn is_lower_alnum_byte(b: u8) -> bool {
    (97 <= b && b <= 122) || (48 <= b && b <= 57)
}

} // verus!
