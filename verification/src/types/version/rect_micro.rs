//! Implementation of [`RectMicroVersion`].

use vstd::prelude::*;

use crate::error::Error;

verus! {

/// `RectMicroVersion` is a type that represents a rMQR code version.
#[derive(Clone, Copy, Debug, PartialEq, Eq, PartialOrd, Ord, Hash, Structural)]
pub enum RectMicroVersion {
    /// A 7×43 rMQR code symbol.
    R7x43,
    /// A 7×59 rMQR code symbol.
    R7x59,
    /// A 7×77 rMQR code symbol.
    R7x77,
    /// A 7×99 rMQR code symbol.
    R7x99,
    /// A 7×139 rMQR code symbol.
    R7x139,
    /// A 9×43 rMQR code symbol.
    R9x43,
    /// A 9×59 rMQR code symbol.
    R9x59,
    /// A 9×77 rMQR code symbol.
    R9x77,
    /// A 9×99 rMQR code symbol.
    R9x99,
    /// A 9×139 rMQR code symbol.
    R9x139,
    /// An 11×27 rMQR code symbol.
    R11x27,
    /// An 11×43 rMQR code symbol.
    R11x43,
    /// An 11×59 rMQR code symbol.
    R11x59,
    /// An 11×77 rMQR code symbol.
    R11x77,
    /// An 11×99 rMQR code symbol.
    R11x99,
    /// An 11×139 rMQR code symbol.
    R11x139,
    /// A 13×27 rMQR code symbol.
    R13x27,
    /// A 13×43 rMQR code symbol.
    R13x43,
    /// A 13×59 rMQR code symbol.
    R13x59,
    /// A 13×77 rMQR code symbol.
    R13x77,
    /// A 13×99 rMQR code symbol.
    R13x99,
    /// A 13×139 rMQR code symbol.
    R13x139,
    /// A 15×43 rMQR code symbol.
    R15x43,
    /// A 15×59 rMQR code symbol.
    R15x59,
    /// A 15×77 rMQR code symbol.
    R15x77,
    /// A 15×99 rMQR code symbol.
    R15x99,
    /// A 15×139 rMQR code symbol.
    R15x139,
    /// A 17×43 rMQR code symbol.
    R17x43,
    /// A 17×59 rMQR code symbol.
    R17x59,
    /// A 17×77 rMQR code symbol.
    R17x77,
    /// A 17×99 rMQR code symbol.
    R17x99,
    /// A 17×139 rMQR code symbol.
    R17x139,
}

impl RectMicroVersion {
    /// All versions of rMQR code, sorted by height, then by width.
    pub const ALL: [RectMicroVersion; 32] = [
        RectMicroVersion::R7x43,
        RectMicroVersion::R7x59,
        RectMicroVersion::R7x77,
        RectMicroVersion::R7x99,
        RectMicroVersion::R7x139,
        RectMicroVersion::R9x43,
        RectMicroVersion::R9x59,
        RectMicroVersion::R9x77,
        RectMicroVersion::R9x99,
        RectMicroVersion::R9x139,
        RectMicroVersion::R11x27,
        RectMicroVersion::R11x43,
        RectMicroVersion::R11x59,
        RectMicroVersion::R11x77,
        RectMicroVersion::R11x99,
        RectMicroVersion::R11x139,
        RectMicroVersion::R13x27,
        RectMicroVersion::R13x43,
        RectMicroVersion::R13x59,
        RectMicroVersion::R13x77,
        RectMicroVersion::R13x99,
        RectMicroVersion::R13x139,
        RectMicroVersion::R15x43,
        RectMicroVersion::R15x59,
        RectMicroVersion::R15x77,
        RectMicroVersion::R15x99,
        RectMicroVersion::R15x139,
        RectMicroVersion::R17x43,
        RectMicroVersion::R17x59,
        RectMicroVersion::R17x77,
        RectMicroVersion::R17x99,
        RectMicroVersion::R17x139,
    ];

    /// The size `[height, width]` of each version, in the order of [`Self::ALL`].
    pub const SIZES: [[u8; 2]; 32] = [
        [7, 43],
        [7, 59],
        [7, 77],
        [7, 99],
        [7, 139],
        [9, 43],
        [9, 59],
        [9, 77],
        [9, 99],
        [9, 139],
        [11, 27],
        [11, 43],
        [11, 59],
        [11, 77],
        [11, 99],
        [11, 139],
        [13, 27],
        [13, 43],
        [13, 59],
        [13, 77],
        [13, 99],
        [13, 139],
        [15, 43],
        [15, 59],
        [15, 77],
        [15, 99],
        [15, 139],
        [17, 43],
        [17, 59],
        [17, 77],
        [17, 99],
        [17, 139],
    ];

    /// The position of this version in [`Self::ALL`].
    pub open spec fn spec_index(self) -> nat {
        self as nat
    }

    /// Returns the position of this version in [`Self::ALL`].
    pub fn index(self) -> (r: usize)
        ensures
            r == self.spec_index(),
            r < 32,
    {
        self as usize
    }

    /// The number of rows of modules.
    pub open spec fn spec_height(self) -> u8 {
        Self::SIZES[self.spec_index() as int][0]
    }

    /// The number of columns of modules.
    pub open spec fn spec_width(self) -> u8 {
        Self::SIZES[self.spec_index() as int][1]
    }

    /// Returns the number of rows of modules.
    pub fn height(self) -> (r: u8)
        ensures
            r == self.spec_height(),
    {
        Self::SIZES[self.index()][0]
    }

    /// Returns the number of columns of modules.
    pub fn width(self) -> (r: u8)
        ensures
            r == self.spec_width(),
    {
        Self::SIZES[self.index()][1]
    }
}

impl From<RectMicroVersion> for (u8, u8) {
    /// Converts a `RectMicroVersion` into its size `(height, width)`.
    fn from(version: RectMicroVersion) -> (r: (u8, u8)) {
        (version.height(), version.width())
    }
}

impl vstd::std_specs::convert::FromSpecImpl<RectMicroVersion> for (u8, u8) {
    open spec fn obeys_from_spec() -> bool {
        true
    }

    open spec fn from_spec(v: RectMicroVersion) -> (u8, u8) {
        (v.spec_height(), v.spec_width())
    }
}

impl TryFrom<(u8, u8)> for RectMicroVersion {
    type Error = Error;

    /// Converts a size `(height, width)` into the `RectMicroVersion` of that
    /// size.
    fn try_from(version: (u8, u8)) -> (r: Result<RectMicroVersion, Error>) {
        let mut i: usize = 0;
        while i < 32
            invariant
                i <= 32,
                size_position(version, i as nat) == size_position(version, 0),
            decreases 32 - i,
        {
            if Self::SIZES[i][0] == version.0 && Self::SIZES[i][1] == version.1 {
                return Ok(Self::ALL[i]);
            }
            i = i + 1;
        }
        Err(Error::InvalidVersion)
    }
}

/// The first position at or after `from` in [`RectMicroVersion::SIZES`] that
/// holds `size`, if any.
pub open spec fn size_position(size: (u8, u8), from: nat) -> Option<nat>
    decreases 32 - from,
{
    if from >= 32 {
        None
    } else if RectMicroVersion::SIZES[from as int][0] == size.0 && RectMicroVersion::SIZES[from as int][1] == size.1 {
        Some(from)
    } else {
        size_position(size, from + 1)
    }
}

impl vstd::std_specs::convert::TryFromSpecImpl<(u8, u8)> for RectMicroVersion {
    open spec fn obeys_try_from_spec() -> bool {
        true
    }

    open spec fn try_from_spec(v: (u8, u8)) -> Result<RectMicroVersion, Error> {
        match size_position(v, 0) {
            Some(i) => Ok(Self::ALL[i as int]),
            None => Err(Error::InvalidVersion),
        }
    }
}

/// The first position at or after `from` holding `size` is `k` when `k` holds
/// it and no position between does.
proof fn lemma_size_position_at(size: (u8, u8), from: nat, k: nat)
    requires
        from <= k < 32,
        RectMicroVersion::SIZES[k as int][0] == size.0,
        RectMicroVersion::SIZES[k as int][1] == size.1,
        forall|i: int|
            from <= i < k ==> !(#[trigger] RectMicroVersion::SIZES[i][0] == size.0
                && RectMicroVersion::SIZES[i][1] == size.1),
    ensures
        size_position(size, from) == Some(k),
    decreases k - from,
{
    if from < k {
        lemma_size_position_at(size, from + 1, k);
    }
}

/// Converting a version to its size and back gives the version again: the
/// size is found at the version's own position, and no other position holds
/// it.
pub proof fn lemma_size_round_trip(v: RectMicroVersion)
    ensures
        size_position((v.spec_height(), v.spec_width()), 0) == Some(v.spec_index()),
        RectMicroVersion::ALL[v.spec_index() as int] == v,
{
    let k = v.spec_index();
    assert(forall|i: int, j: int|
        0 <= i < j < 32 ==> !(#[trigger] RectMicroVersion::SIZES[i][0]
            == #[trigger] RectMicroVersion::SIZES[j][0] && RectMicroVersion::SIZES[i][1]
            == RectMicroVersion::SIZES[j][1]));
    assert(k < 32);
    assert forall|i: int|
        0 <= i < k implies !(#[trigger] RectMicroVersion::SIZES[i][0] == v.spec_height()
        && RectMicroVersion::SIZES[i][1] == v.spec_width()) by {
        assert(RectMicroVersion::SIZES[k as int][0] == v.spec_height());
    }
    lemma_size_position_at((v.spec_height(), v.spec_width()), 0, k);
    assert(forall|i: int| 0 <= i < 32 ==> (#[trigger] RectMicroVersion::ALL[i]).spec_index() == i);
}

} // verus!
