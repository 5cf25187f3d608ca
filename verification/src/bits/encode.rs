//! Encode the data into [`Bits`].

use vstd::prelude::*;

use super::{
    Bits, ExtendedMode, alphanumeric_group, alphanumeric_payload, alphanumeric_payload_upto,
    all_digits, all_kanji, bytes_bits, data_pushed, kanji_payload, kanji_payload_upto,
    kanji_pushed, mode_indicator_bits, numeric_group, numeric_payload, numeric_payload_upto,
    segment_room,
};
use crate::error::QrResult;
use crate::optimize::{self, Segment, covers, opt_segments, parse, segment_fits, total_len};
use crate::types::{Mode, Version};

verus! {

/// The bytes of `data` that `segment` refers to.
pub open spec fn segment_bytes(data: Seq<u8>, segment: Segment) -> Seq<u8> {
    data.subrange(segment.begin as int, segment.end as int)
}

/// The outcome of pushing one segment of `data` after `bits`: the bytes it
/// refers to, encoded in its mode.
pub open spec fn segment_pushed(bits: Seq<bool>, version: Version, data: Seq<u8>, segment: Segment) -> (
    QrResult<()>,
    Seq<bool>,
) {
    let bytes = segment_bytes(data, segment);
    match segment.mode {
        Mode::Numeric => data_pushed(bits, version, Mode::Numeric, bytes.len(), numeric_payload(bytes)),
        Mode::Alphanumeric => data_pushed(
            bits,
            version,
            Mode::Alphanumeric,
            bytes.len(),
            alphanumeric_payload(bytes),
        ),
        Mode::Byte => data_pushed(bits, version, Mode::Byte, bytes.len(), bytes_bits(bytes)),
        Mode::Kanji => kanji_pushed(bits, version, bytes),
    }
}

/// The outcome of pushing the segments of `data` one after another after
/// `bits`, stopping at the first error.
pub open spec fn segments_pushed(
    bits: Seq<bool>,
    version: Version,
    data: Seq<u8>,
    segments: Seq<Segment>,
) -> (QrResult<()>, Seq<bool>)
    decreases segments.len(),
{
    if segments.len() == 0 {
        (Ok(()), bits)
    } else {
        let prev = segments_pushed(bits, version, data, segments.drop_last());
        if prev.0 is Ok {
            segment_pushed(prev.1, version, data, segments.last())
        } else {
            prev
        }
    }
}

/// Whether `segment` can be pushed: it lies within `data`, and its bytes are
/// digits in Numeric mode and whole Shift JIS double-byte characters in Kanji
/// mode.
pub open spec fn segment_pushable(data: Seq<u8>, segment: Segment) -> bool {
    let bytes = segment_bytes(data, segment);
    &&& segment.begin <= segment.end <= data.len()
    &&& segment.mode == Mode::Numeric ==> all_digits(bytes)
    &&& segment.mode == Mode::Kanji ==> all_kanji(bytes)
}

impl Bits {
    /// Pushes a segmented data to the bits, one segment after another.
    ///
    /// # Errors
    ///
    /// Returns [`Err`] on overflow, or if the segment refers to incorrectly
    /// encoded byte sequence.
    pub fn push_segments(&mut self, data: &[u8], segments: &[Segment]) -> (r: QrResult<()>)
        requires
            old(self).wf(),
            old(self).has_room(segment_room() + total_len(segments@, old(self).spec_version())),
            data@.len() * 13 + 28 <= usize::MAX,
            forall|i: int|
                0 <= i < segments@.len() ==> segment_pushable(data@, #[trigger] segments@[i]),
        ensures
            final(self).wf(),
            final(self).spec_version() == old(self).spec_version(),
            (r, final(self)@) == segments_pushed(
                old(self)@,
                old(self).spec_version(),
                data@,
                segments@,
            ),
    {
        let mut i: usize = 0;
        while i < segments.len()
            invariant
                self.wf(),
                self.spec_version() == old(self).spec_version(),
                i <= segments@.len(),
                old(self).has_room(segment_room() + total_len(segments@, old(self).spec_version())),
                data@.len() * 13 + 28 <= usize::MAX,
                forall|j: int|
                    0 <= j < segments@.len() ==> segment_pushable(data@, #[trigger] segments@[j]),
                (Ok::<(), crate::error::Error>(()), self@) == segments_pushed(
                    old(self)@,
                    old(self).spec_version(),
                    data@,
                    segments@.take(i as int),
                ),
            decreases segments@.len() - i,
        {
            let segment = segments[i];
            assert(segment_pushable(data@, segments@[i as int]));
            proof {
                let prefix = segments@.take(i as int);
                assert forall|j: int| 0 <= j < prefix.len() implies (#[trigger] prefix[j]).begin
                    <= prefix[j].end <= data@.len() by {
                    assert(segment_pushable(data@, segments@[j]));
                }
                lemma_segments_pushed_len(old(self)@, old(self).spec_version(), data@, prefix);
                optimize::lemma_total_len_prefix(segments@, old(self).spec_version(), i as nat);
            }
            let slice = vstd::slice::slice_subrange(data, segment.begin, segment.end);
            let ghost before = self@;
            let r = match segment.mode {
                Mode::Numeric => self.push_numeric_data(slice),
                Mode::Alphanumeric => self.push_alphanumeric_data(slice),
                Mode::Byte => self.push_byte_data(slice),
                Mode::Kanji => self.push_kanji_data(slice),
            };
            proof {
                assert(segments@.take(i + 1int).drop_last() =~= segments@.take(i as int));
                assert(segments@.take(i + 1int).last() == segment);
            }
            match r {
                Ok(()) => {},
                Err(e) => {
                    proof {
                        lemma_segments_pushed_stops(
                            old(self)@,
                            old(self).spec_version(),
                            data@,
                            segments@,
                            (i + 1) as nat,
                        );
                    }
                    return Err(e);
                },
            }
            i = i + 1;
        }
        proof {
            assert(segments@.take(segments@.len() as int) =~= segments@);
        }
        Ok(())
    }

    /// Pushes the data the bits, using the optimal encoding.
    ///
    /// # Errors
    ///
    /// Returns [`Err`] on overflow.
    pub fn push_optimal_data(&mut self, data: &[u8]) -> (r: QrResult<()>)
        requires
            old(self).wf(),
            old(self).has_room(segment_room() + 29 * data@.len()),
            data@.len() * 48 + 64 <= usize::MAX,
        ensures
            final(self).wf(),
            final(self).spec_version() == old(self).spec_version(),
            (r, final(self)@) == segments_pushed(
                old(self)@,
                old(self).spec_version(),
                data@,
                opt_segments(
                    parse(data@),
                    old(self).spec_version(),
                    parse(data@).len(),
                ),
            ),
    {
        let segments = optimize::optimize(data, self.version());
        proof {
            lemma_fitting_segments_pushable(data@, segments@);
            optimize::lemma_optimized_len_bound(data@, self.spec_version());
        }
        self.push_segments(data, segments.as_slice())
    }
}

/// Once a push fails, pushing more segments changes nothing.
proof fn lemma_segments_pushed_stops(
    bits: Seq<bool>,
    version: Version,
    data: Seq<u8>,
    segments: Seq<Segment>,
    k: nat,
)
    requires
        k <= segments.len(),
        segments_pushed(bits, version, data, segments.take(k as int)).0 is Err,
    ensures
        segments_pushed(bits, version, data, segments) == segments_pushed(
            bits,
            version,
            data,
            segments.take(k as int),
        ),
    decreases segments.len() - k,
{
    if k < segments.len() {
        assert(segments.take(k + 1int).drop_last() =~= segments.take(k as int));
        lemma_segments_pushed_stops(bits, version, data, segments, k + 1);
    } else {
        assert(segments.take(k as int) =~= segments);
    }
}

/// Segments that fit the data and cover it can be pushed, and there are no
/// more of them than bytes.
proof fn lemma_fitting_segments_pushable(data: Seq<u8>, segments: Seq<Segment>)
    requires
        covers(segments, 0, data.len()),
        forall|i: int| 0 <= i < segments.len() ==> segment_fits(data, #[trigger] segments[i]),
    ensures
        forall|i: int| 0 <= i < segments.len() ==> segment_pushable(data, #[trigger] segments[i]),
        segments.len() <= data.len(),
{
    if segments.len() > 0 {
        optimize::lemma_covers_count(segments, 0, data.len(), segments.len());
    }
}

// ---------------------------------------------------------------------------
// The encoded length of a segment is the number of bits pushed for it.

/// The first `c` whole groups of three digits take 10 bits each.
proof fn lemma_numeric_upto_len(data: Seq<u8>, c: nat)
    requires
        3 * c <= data.len(),
    ensures
        numeric_payload_upto(data, c).len() == 10 * c,
    decreases c,
{
    if c > 0 {
        lemma_numeric_upto_len(data, (c - 1) as nat);
        assert(numeric_group(data, (c - 1) as nat).len() == 3);
    }
}

/// `n` digits take ⌈10n/3⌉ bits.
proof fn lemma_numeric_payload_len(data: Seq<u8>)
    ensures
        numeric_payload(data).len() == Mode::Numeric.spec_data_bits_count(data.len()),
{
    let n = data.len();
    let q = n / 3;
    lemma_numeric_upto_len(data, q);
    if n % 3 != 0 {
        assert((n + 2) / 3 == q + 1);
        assert(numeric_group(data, q).len() == n % 3);
    } else {
        assert((n + 2) / 3 == q);
    }
}

/// The first `c` whole pairs of alphanumeric characters take 11 bits each.
proof fn lemma_alphanumeric_upto_len(data: Seq<u8>, c: nat)
    requires
        2 * c <= data.len(),
    ensures
        alphanumeric_payload_upto(data, c).len() == 11 * c,
    decreases c,
{
    if c > 0 {
        lemma_alphanumeric_upto_len(data, (c - 1) as nat);
        assert(alphanumeric_group(data, (c - 1) as nat).len() == 2);
    }
}

/// `n` alphanumeric characters take ⌈11n/2⌉ bits.
proof fn lemma_alphanumeric_payload_len(data: Seq<u8>)
    ensures
        alphanumeric_payload(data).len() == Mode::Alphanumeric.spec_data_bits_count(data.len()),
{
    let n = data.len();
    let q = n / 2;
    lemma_alphanumeric_upto_len(data, q);
    if n % 2 != 0 {
        assert((n + 1) / 2 == q + 1);
        assert(alphanumeric_group(data, q).len() == 1);
    } else {
        assert((n + 1) / 2 == q);
    }
}

/// The first `c` double-byte characters take 13 bits each.
proof fn lemma_kanji_upto_len(data: Seq<u8>, c: nat)
    ensures
        kanji_payload_upto(data, c).len() == 13 * c,
    decreases c,
{
    if c > 0 {
        lemma_kanji_upto_len(data, (c - 1) as nat);
    }
}

/// Pushing a segment adds at most its encoded length, and exactly that when
/// the push succeeds.
pub proof fn lemma_segment_pushed_len(bits: Seq<bool>, version: Version, data: Seq<u8>, segment: Segment)
    requires
        segment.begin <= segment.end <= data.len(),
    ensures
        segment_pushed(bits, version, data, segment).1.len() <= bits.len()
            + segment.spec_encoded_len(version),
        segment_pushed(bits, version, data, segment).0 is Ok ==> segment_pushed(
            bits,
            version,
            data,
            segment,
        ).1.len() == bits.len() + segment.spec_encoded_len(version),
{
    let bytes = segment_bytes(data, segment);
    let mode = segment.mode;
    match mode_indicator_bits(version, ExtendedMode::Data(mode)) {
        Some(indicator) => {
            assert(indicator.len() == version.spec_mode_bits_count());
        },
        None => {},
    }
    match mode {
        Mode::Numeric => lemma_numeric_payload_len(bytes),
        Mode::Alphanumeric => lemma_alphanumeric_payload_len(bytes),
        Mode::Byte => {},
        Mode::Kanji => lemma_kanji_upto_len(bytes, bytes.len() / 2),
    }
}

/// Pushing segments adds at most their total encoded length, and exactly
/// that when every push succeeds.
pub proof fn lemma_segments_pushed_len(
    bits: Seq<bool>,
    version: Version,
    data: Seq<u8>,
    segments: Seq<Segment>,
)
    requires
        forall|i: int|
            0 <= i < segments.len() ==> (#[trigger] segments[i]).begin <= segments[i].end
                <= data.len(),
    ensures
        segments_pushed(bits, version, data, segments).1.len() <= bits.len() + total_len(
            segments,
            version,
        ),
        segments_pushed(bits, version, data, segments).0 is Ok ==> segments_pushed(
            bits,
            version,
            data,
            segments,
        ).1.len() == bits.len() + total_len(segments, version),
    decreases segments.len(),
{
    if segments.len() > 0 {
        let prefix = segments.drop_last();
        lemma_segments_pushed_len(bits, version, data, prefix);
        let prev = segments_pushed(bits, version, data, prefix);
        lemma_segment_pushed_len(prev.1, version, data, segments.last());
    }
}

} // verus!
