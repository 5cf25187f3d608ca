//! Utilities for casting primitive integer types.

use vstd::prelude::*;

verus! {

/// Narrowing to `u8` that keeps the low bits.
pub trait Truncate: Sized {
    /// The value kept by the narrowing.
    spec fn spec_truncate_as_u8(self) -> u8;

    /// Returns the low 8 bits of `self`.
    fn truncate_as_u8(self) -> (r: u8)
        ensures
            r == self.spec_truncate_as_u8(),
    ;
}

impl Truncate for u16 {
    open spec fn spec_truncate_as_u8(self) -> u8 {
        (self % 256) as u8
    }

    fn truncate_as_u8(self) -> (r: u8) {
        assert(self as u8 == (self % 256) as u8) by (bit_vector);
        self as u8
    }
}

} // verus!
