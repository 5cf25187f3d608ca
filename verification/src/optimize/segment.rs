//! Implementation of [`Segment`].

use vstd::prelude::*;

use crate::types::{Mode, Version};

verus! {

/// A segment of data committed to an encoding mode.
#[derive(Clone, Copy, Debug, PartialEq, Eq, Structural)]
pub struct Segment {
    /// The encoding mode of the segment of data.
    pub mode: Mode,
    /// The start index of the segment.
    pub begin: usize,
    /// The end index (exclusive) of the segment.
    pub end: usize,
}

impl Segment {
    /// The number of characters of the segment: its bytes, or its byte pairs
    /// in Kanji mode.
    pub open spec fn spec_chars_count(self) -> nat {
        let byte_size = (self.end - self.begin) as nat;
        if self.mode == Mode::Kanji {
            byte_size / 2
        } else {
            byte_size
        }
    }

    /// The number of bits of the segment when encoded: mode indicator,
    /// character count and data.
    pub open spec fn spec_encoded_len(self, version: Version) -> nat {
        version.spec_mode_bits_count() + self.mode.spec_length_bits_count(version)
            + self.mode.spec_data_bits_count(self.spec_chars_count())
    }

    /// Whether the bit count of the segment can be computed without overflow:
    /// the segment does not end before it begins, and its size is below a
    /// sixteenth of the address space.
    pub open spec fn spec_size_ok(self) -> bool {
        &&& self.begin <= self.end
        &&& (self.end - self.begin) * 16 + 64 <= usize::MAX
    }

    /// Computes the number of bits (including the size of the mode indicator
    /// and length bits) when this segment is encoded.
    pub fn encoded_len(&self, version: Version) -> (r: usize)
        requires
            self.spec_size_ok(),
        ensures
            r == self.spec_encoded_len(version),
            r <= (self.end - self.begin) * 8 + 21,
    {
        let byte_size = self.end - self.begin;
        let chars_count = if self.mode == Mode::Kanji {
            byte_size / 2
        } else {
            byte_size
        };
        let mode_bits_count = version.mode_bits_count();
        let length_bits_count = self.mode.length_bits_count(version);
        let data_bits_count = self.mode.data_bits_count(chars_count);
        mode_bits_count + length_bits_count + data_bits_count
    }
}

} // verus!
