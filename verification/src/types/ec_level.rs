//! Implementation of [`EcLevel`].

use vstd::prelude::*;

verus! {

/// The error correction level. It allows the original information be recovered
/// even if parts of the code is damaged.
#[derive(Clone, Copy, Debug, PartialEq, Eq, PartialOrd, Ord, Hash, Structural)]
pub enum EcLevel {
    /// Low error correction. Allows up to 7% of wrong blocks.
    L,
    /// Medium error correction. Allows up to 15% of wrong blocks.
    M,
    /// Quartile error correction. Allows up to 25% of wrong blocks.
    Q,
    /// High error correction. Allows up to 30% of wrong blocks.
    H,
}

impl EcLevel {
    /// The column of this level in the per-level tables: L, M, Q, H.
    pub open spec fn spec_index(self) -> nat {
        self as nat
    }

    /// Returns the column of this level in the per-level tables (L = 0, M = 1,
    /// Q = 2, H = 3).
    pub fn index(self) -> (r: usize)
        ensures
            r == self.spec_index(),
            r < 4,
    {
        self as usize
    }
}

impl Default for EcLevel {
    /// The default level is `M`.
    fn default() -> (r: EcLevel)
        ensures
            r == EcLevel::M,
    {
        EcLevel::M
    }
}

} // verus!
