//! Encode the data into [`Bits`] with auto version minimization.

use vstd::prelude::*;

use super::{Bits, DATA_LENGTHS, segment_pushable, segment_room, segments_pushed, terminator_pushed};
use crate::error::{Error, QrResult};
use crate::optimize::{
    self, Parser, Segment, covers, lemma_opt_cost_le, lemma_opt_segments, lemma_opt_segments_same,
    lengths_le, opt_segments, parse, segment_fits, total_len,
};
use crate::types::{EcLevel, MicroVersion, NormalVersion, RectMicroVersion, Version};

verus! {

/// The bits of `data` encoded in `version` as `segments`, then terminated and
/// padded for `ec_level`; or the first error on the way.
pub open spec fn encoded_bits(
    data: Seq<u8>,
    version: Version,
    ec_level: EcLevel,
    segments: Seq<Segment>,
) -> QrResult<Seq<bool>> {
    let pushed = segments_pushed(Seq::empty(), version, data, segments);
    match pushed.0 {
        Err(e) => Err(e),
        Ok(_) => {
            let terminated = terminator_pushed(pushed.1, version, ec_level);
            match terminated.0 {
                Err(e) => Err(e),
                Ok(_) => Ok(terminated.1),
            }
        },
    }
}

/// The optimal segmentation of `data` in `version`.
pub open spec fn best_segments(data: Seq<u8>, version: Version) -> Seq<Segment> {
    opt_segments(parse(data), version, parse(data).len())
}

/// `data` encoded in `version` with its optimal segmentation in that
/// version, together with the version.
pub open spec fn encoded_in(data: Seq<u8>, version: Version, ec_level: EcLevel) -> QrResult<
    (Version, Seq<bool>),
> {
    match encoded_bits(data, version, ec_level, best_segments(data, version)) {
        Ok(bits) => Ok((version, bits)),
        Err(e) => Err(e),
    }
}

/// The data capacity in bits of `version` at `ec_level`, as the table holds
/// it.
pub open spec fn capacity(version: Version, ec_level: EcLevel) -> nat {
    DATA_LENGTHS[version.spec_table_row() as int][ec_level.spec_index() as int] as nat
}

/// The capacity of QR code version `index + 1`.
pub open spec fn normal_capacity(index: nat, ec_level: EcLevel) -> nat {
    DATA_LENGTHS[index as int][ec_level.spec_index() as int] as nat
}

/// The index of the first QR code version from `from` on whose capacity holds
/// `length` bits, among versions 1 to 39; version 40 (index 39) when none
/// does.
pub open spec fn min_normal_index(length: nat, ec_level: EcLevel, from: nat) -> nat
    decreases 39 - from,
{
    if from >= 39 {
        39
    } else if normal_capacity(from, ec_level) >= length {
        from
    } else {
        min_normal_index(length, ec_level, from + 1)
    }
}

/// The capacity of QR code grows strictly with the version.
proof fn lemma_capacity_step(ec_level: EcLevel)
    ensures
        forall|i: nat| i < 39 ==> #[trigger] normal_capacity(i, ec_level) < normal_capacity(
            i + 1,
            ec_level,
        ),
{
    assert(forall|i: int, e: int|
        0 <= i < 39 && 0 <= e < 4 ==> #[trigger] DATA_LENGTHS[i][e] < DATA_LENGTHS[i + 1][e]);
}

/// A larger QR code version has a larger capacity.
proof fn lemma_capacity_increasing(ec_level: EcLevel, i: nat, j: nat)
    requires
        i < j < 40,
    ensures
        normal_capacity(i, ec_level) < normal_capacity(j, ec_level),
    decreases j - i,
{
    lemma_capacity_step(ec_level);
    if i + 1 < j {
        lemma_capacity_increasing(ec_level, i + 1, j);
    }
    assert(normal_capacity(i, ec_level) < normal_capacity(i + 1, ec_level));
}

/// The first fitting version is `k` when the versions before it are too
/// small and `k` fits (or is the last).
proof fn lemma_min_normal_index(length: nat, ec_level: EcLevel, k: nat, from: nat)
    requires
        from <= k <= 39,
        forall|j: nat| from <= j < k ==> #[trigger] normal_capacity(j, ec_level) < length,
        k == 39 || normal_capacity(k, ec_level) >= length,
    ensures
        min_normal_index(length, ec_level, from) == k,
    decreases k - from,
{
    if from < k {
        assert(normal_capacity(from, ec_level) < length);
        lemma_min_normal_index(length, ec_level, k, from + 1);
    }
}

/// Finds the smallest version (QR code only) that can store N bits of data in
/// the given error correction level.
pub fn find_min_version(length: usize, ec_level: EcLevel) -> (r: Version)
    ensures
        r == Version::Normal(NormalVersion::ALL[min_normal_index(length as nat, ec_level, 0) as int]),
{
    let e = ec_level.index();
    let mut base: usize = 0;
    let mut size: usize = 39;
    while size > 1
        invariant
            e == ec_level.spec_index(),
            1 <= size,
            base + size <= 39,
            base == 0 || normal_capacity(base as nat, ec_level) <= length,
            base + size == 39 || normal_capacity((base + size) as nat, ec_level) > length,
        decreases size,
    {
        let half = size / 2;
        let mid = base + half;
        proof {
            if DATA_LENGTHS[mid as int][e as int] > length && base + size - half < 39 && mid
                < base + size - half {
                lemma_capacity_increasing(ec_level, mid as nat, (base + size - half) as nat);
            }
        }
        base = if DATA_LENGTHS[mid][e] > length {
            base
        } else {
            mid
        };
        size = size - half;
    }
    proof {
        if base > 0 {
            lemma_capacity_increasing(ec_level, (base - 1) as nat, base as nat);
        }
    }
    let index = if DATA_LENGTHS[base][e] >= length {
        base
    } else {
        base + 1
    };
    proof {
        assert forall|j: nat| 0 <= j < index implies #[trigger] normal_capacity(j, ec_level)
            < length by {
            if j < index - 1 {
                lemma_capacity_increasing(ec_level, j, (index - 1) as nat);
            }
        }
        lemma_min_normal_index(length as nat, ec_level, index as nat, 0);
    }
    let number = index as u8 + 1;
    let version = NormalVersion::try_from(number).unwrap();
    Version::Normal(version)
}

/// The three QR code versions after which the width of the character count
/// grows: 9, 26 and 40.
pub open spec fn normal_group_end(k: nat) -> NormalVersion {
    if k == 0 {
        NormalVersion::V9
    } else if k == 1 {
        NormalVersion::V26
    } else {
        NormalVersion::V40
    }
}

/// What automatic QR code encoding gives, trying the groups of versions from
/// `k` on: in the first group whose largest version holds the optimal
/// segmentation, the data in the smallest version that holds it.
pub open spec fn auto_normal(data: Seq<u8>, ec_level: EcLevel, k: nat) -> QrResult<
    (Version, Seq<bool>),
>
    decreases 3 - k,
{
    if k >= 3 {
        Err(Error::DataTooLong)
    } else {
        let version = Version::Normal(normal_group_end(k));
        let segments = best_segments(data, version);
        let total = total_len(segments, version);
        if total <= capacity(version, ec_level) {
            let min_version = Version::Normal(
                NormalVersion::ALL[min_normal_index(total, ec_level, 0) as int],
            );
            match encoded_bits(data, min_version, ec_level, segments) {
                Ok(bits) => Ok((min_version, bits)),
                Err(e) => Err(e),
            }
        } else {
            auto_normal(data, ec_level, k + 1)
        }
    }
}

/// Whether QR code version `index + 1` holds `data` with its optimal
/// segmentation in that version at `ec_level`.
pub open spec fn normal_fits(data: Seq<u8>, index: nat, ec_level: EcLevel) -> bool {
    let v = Version::Normal(NormalVersion::ALL[index as int]);
    total_len(best_segments(data, v), v) <= capacity(v, ec_level)
}

/// The group of QR code version `index + 1`: versions 1 to 9, 10 to 26 and
/// 27 to 40 share their character count indicator lengths.
pub open spec fn normal_group(index: nat) -> nat {
    if index <= 8 {
        0
    } else if index <= 25 {
        1
    } else {
        2
    }
}

/// The index of the last version of group `g`.
pub open spec fn normal_group_end_index(g: nat) -> nat {
    if g == 0 {
        8
    } else if g == 1 {
        25
    } else {
        39
    }
}

/// The versions of a group have the same indicator lengths as its last one,
/// and the later groups have indicators no shorter.
proof fn lemma_normal_groups(index: nat, g: nat)
    requires
        index < 40,
        g < 3,
    ensures
        NormalVersion::ALL[index as int].spec_number() == index + 1,
        normal_group_end(g).spec_number() == normal_group_end_index(g) + 1,
        normal_group(index) == g ==> lengths_le(
            Version::Normal(NormalVersion::ALL[index as int]),
            Version::Normal(normal_group_end(g)),
        ) && lengths_le(
            Version::Normal(normal_group_end(g)),
            Version::Normal(NormalVersion::ALL[index as int]),
        ),
        normal_group(index) <= g ==> lengths_le(
            Version::Normal(NormalVersion::ALL[index as int]),
            Version::Normal(normal_group_end(g)),
        ),
{
    assert(forall|i: int| 0 <= i < 40 ==> (#[trigger] NormalVersion::ALL[i]).spec_number() == i + 1);
}

/// The first version from `from` on whose capacity holds `length` bits: no
/// version before it does, and it does when any version does.
proof fn lemma_min_normal_index_props(length: nat, ec_level: EcLevel, from: nat, j: nat)
    requires
        from <= 39,
    ensures
        from <= min_normal_index(length, ec_level, from) <= 39,
        forall|i: nat|
            from <= i < min_normal_index(length, ec_level, from) ==> #[trigger] normal_capacity(
                i,
                ec_level,
            ) < length,
        from <= j <= 39 && normal_capacity(j, ec_level) >= length ==> normal_capacity(
            min_normal_index(length, ec_level, from),
            ec_level,
        ) >= length && min_normal_index(length, ec_level, from) <= j,
    decreases 39 - from,
{
    if from < 39 && normal_capacity(from, ec_level) < length {
        lemma_min_normal_index_props(length, ec_level, from + 1, j);
    }
}

/// Of version `index + 1`, the optimal segmentation is that of the last
/// version of its group, with the same length.
proof fn lemma_normal_best_segments(data: Seq<u8>, index: nat)
    requires
        index < 40,
    ensures
        ({
            let v = Version::Normal(NormalVersion::ALL[index as int]);
            let e = Version::Normal(normal_group_end(normal_group(index)));
            &&& best_segments(data, v) == best_segments(data, e)
            &&& total_len(best_segments(data, v), v) == total_len(best_segments(data, e), e)
        }),
{
    let v = Version::Normal(NormalVersion::ALL[index as int]);
    let e = Version::Normal(normal_group_end(normal_group(index)));
    lemma_normal_groups(index, normal_group(index));
    lemma_opt_segments_same(parse(data), v, e, parse(data).len());
}

/// The capacity of version `index + 1` is the table's entry for it.
proof fn lemma_normal_capacity(index: nat, ec_level: EcLevel)
    requires
        index < 40,
    ensures
        capacity(Version::Normal(NormalVersion::ALL[index as int]), ec_level) == normal_capacity(
            index,
            ec_level,
        ),
{
    lemma_normal_groups(index, 0);
}

/// The length of the optimal segmentation of `data` in the last version of
/// group `g`.
pub open spec fn group_total(data: Seq<u8>, g: nat) -> nat {
    let e = Version::Normal(normal_group_end(g));
    total_len(best_segments(data, e), e)
}

/// Version `index + 1` fits exactly when its capacity holds its group's
/// length.
proof fn lemma_normal_fits(data: Seq<u8>, index: nat, ec_level: EcLevel)
    requires
        index < 40,
    ensures
        normal_fits(data, index, ec_level) == (group_total(data, normal_group(index))
            <= normal_capacity(index, ec_level)),
{
    lemma_normal_best_segments(data, index);
    lemma_normal_capacity(index, ec_level);
}

/// Later groups need no fewer bits.
proof fn lemma_group_total_le(data: Seq<u8>, g1: nat, g2: nat)
    requires
        g1 <= g2 < 3,
    ensures
        group_total(data, g1) <= group_total(data, g2),
{
    let runs = parse(data);
    let e1 = Version::Normal(normal_group_end(g1));
    let e2 = Version::Normal(normal_group_end(g2));
    lemma_normal_groups(normal_group_end_index(g1), g2);
    lemma_normal_groups(normal_group_end_index(g1), g1);
    assert(NormalVersion::ALL[normal_group_end_index(g1) as int] == normal_group_end(g1)) by {
        assert(forall|i: int| 0 <= i < 40 ==> (#[trigger] NormalVersion::ALL[i]) as int == i);
    }
    lemma_opt_cost_le(runs, e1, e2, runs.len());
    lemma_opt_segments(runs, e1, runs.len());
    lemma_opt_segments(runs, e2, runs.len());
}

/// Capacities grow with the version.
proof fn lemma_capacity_le(ec_level: EcLevel, i: nat, j: nat)
    requires
        i <= j < 40,
    ensures
        normal_capacity(i, ec_level) <= normal_capacity(j, ec_level),
{
    if i < j {
        lemma_capacity_increasing(ec_level, i, j);
    }
}

/// The versions before the first of group `g` do not fit when the groups
/// before `g` do not.
proof fn lemma_earlier_groups_unfit(data: Seq<u8>, ec_level: EcLevel, g: nat, j: nat)
    requires
        g <= 3,
        j < 40,
        normal_group(j) < g,
        forall|h: nat|
            h < g ==> #[trigger] group_total(data, h) > normal_capacity(
                normal_group_end_index(h),
                ec_level,
            ),
    ensures
        !normal_fits(data, j, ec_level),
{
    let h = normal_group(j);
    lemma_normal_fits(data, j, ec_level);
    lemma_capacity_le(ec_level, j, normal_group_end_index(h));
    assert(group_total(data, h) > normal_capacity(normal_group_end_index(h), ec_level));
}

/// When group `g` is the first whose last version fits, the smallest fitting
/// version is the first of those whose capacity holds the group's length.
proof fn lemma_auto_group(data: Seq<u8>, ec_level: EcLevel, g: nat)
    requires
        g < 3,
        forall|h: nat|
            h < g ==> #[trigger] group_total(data, h) > normal_capacity(
                normal_group_end_index(h),
                ec_level,
            ),
        group_total(data, g) <= normal_capacity(normal_group_end_index(g), ec_level),
    ensures
        ({
            let m = min_normal_index(group_total(data, g), ec_level, 0);
            &&& m < 40
            &&& normal_fits(data, m, ec_level)
            &&& forall|j: nat| j < m ==> !#[trigger] normal_fits(data, j, ec_level)
            &&& auto_normal(data, ec_level, g) == encoded_in(
                data,
                Version::Normal(NormalVersion::ALL[m as int]),
                ec_level,
            )
        }),
{
    let t = group_total(data, g);
    let m = min_normal_index(t, ec_level, 0);
    let end = normal_group_end_index(g);
    lemma_min_normal_index_props(t, ec_level, 0, end);
    lemma_normal_groups(end, g);
    lemma_normal_capacity(end, ec_level);
    if g > 0 {
        let prev = normal_group_end_index((g - 1) as nat);
        assert(group_total(data, (g - 1) as nat) > normal_capacity(prev, ec_level));
        lemma_group_total_le(data, (g - 1) as nat, g);
        if m <= prev {
            lemma_capacity_le(ec_level, m, prev);
        }
        assert(m > prev);
    }
    assert(normal_group(m) == g);
    lemma_normal_fits(data, m, ec_level);
    assert forall|j: nat| j < m implies !#[trigger] normal_fits(data, j, ec_level) by {
        if normal_group(j) < g {
            lemma_earlier_groups_unfit(data, ec_level, g, j);
        } else {
            lemma_normal_fits(data, j, ec_level);
        }
    }
    lemma_normal_best_segments(data, m);
}

/// Automatic QR code encoding takes the smallest version that holds the data
/// with its optimal segmentation in that version, and encodes the data there
/// with that segmentation; when no version holds it, the data is too long.
pub proof fn lemma_auto_normal_smallest(data: Seq<u8>, ec_level: EcLevel)
    ensures
        (forall|i: nat| i < 40 ==> !#[trigger] normal_fits(data, i, ec_level)) ==> auto_normal(
            data,
            ec_level,
            0,
        ) == Err::<(Version, Seq<bool>), Error>(Error::DataTooLong),
        auto_normal(data, ec_level, 0) is Ok ==> exists|m: nat|
            {
                &&& m < 40
                &&& #[trigger] normal_fits(data, m, ec_level)
                &&& forall|j: nat| j < m ==> !#[trigger] normal_fits(data, j, ec_level)
                &&& auto_normal(data, ec_level, 0) == encoded_in(
                    data,
                    Version::Normal(NormalVersion::ALL[m as int]),
                    ec_level,
                )
            },
{
    assert(NormalVersion::ALL[8] == NormalVersion::V9);
    assert(NormalVersion::ALL[25] == NormalVersion::V26);
    assert(NormalVersion::ALL[39] == NormalVersion::V40);
    lemma_normal_capacity(8, ec_level);
    lemma_normal_capacity(25, ec_level);
    lemma_normal_capacity(39, ec_level);
    let c0 = normal_capacity(8, ec_level);
    let c1 = normal_capacity(25, ec_level);
    let c2 = normal_capacity(39, ec_level);
    if group_total(data, 0) <= c0 {
        lemma_auto_group(data, ec_level, 0);
        let m = min_normal_index(group_total(data, 0), ec_level, 0);
        assert(normal_fits(data, m, ec_level));
    } else if group_total(data, 1) <= c1 {
        assert forall|h: nat| h < 1 implies #[trigger] group_total(data, h) > normal_capacity(
            normal_group_end_index(h),
            ec_level,
        ) by {}
        lemma_auto_group(data, ec_level, 1);
        assert(auto_normal(data, ec_level, 0) == auto_normal(data, ec_level, 1));
        let m = min_normal_index(group_total(data, 1), ec_level, 0);
        assert(normal_fits(data, m, ec_level));
    } else if group_total(data, 2) <= c2 {
        assert forall|h: nat| h < 2 implies #[trigger] group_total(data, h) > normal_capacity(
            normal_group_end_index(h),
            ec_level,
        ) by {}
        lemma_auto_group(data, ec_level, 2);
        assert(auto_normal(data, ec_level, 1) == auto_normal(data, ec_level, 2));
        assert(auto_normal(data, ec_level, 0) == auto_normal(data, ec_level, 1));
        let m = min_normal_index(group_total(data, 2), ec_level, 0);
        assert(normal_fits(data, m, ec_level));
    } else {
        assert forall|h: nat| h < 3 implies #[trigger] group_total(data, h) > normal_capacity(
            normal_group_end_index(h),
            ec_level,
        ) by {}
        assert forall|j: nat| j < 40 implies !#[trigger] normal_fits(data, j, ec_level) by {
            lemma_earlier_groups_unfit(data, ec_level, 3, j);
        }
        assert(auto_normal(data, ec_level, 2) == auto_normal(data, ec_level, 3));
        assert(auto_normal(data, ec_level, 1) == auto_normal(data, ec_level, 2));
        assert(auto_normal(data, ec_level, 0) == auto_normal(data, ec_level, 1));
    }
}

/// The result of an automatic encoding, as a pair of the version and the
/// bits.
pub open spec fn bits_result(r: QrResult<Bits>) -> QrResult<(Version, Seq<bool>)> {
    match r {
        Ok(bits) => Ok((bits.spec_version(), bits@)),
        Err(e) => Err(e),
    }
}

/// Pushes the segments of `data` to new bits of `version`, then terminates
/// them.
fn encode_segments(
    data: &[u8],
    version: Version,
    ec_level: EcLevel,
    segments: &[Segment],
    reserved: usize,
) -> (r: QrResult<Bits>)
    requires
        data@.len() * 48 + 64 <= usize::MAX,
        reserved + 8 <= usize::MAX,
        covers(segments@, 0, data@.len()),
        forall|i: int| 0 <= i < segments@.len() ==> segment_fits(data@, #[trigger] segments@[i]),
    ensures
        r is Ok ==> r->Ok_0.wf() && r->Ok_0.spec_version() == version,
        bits_result(r) == match encoded_bits(data@, version, ec_level, segments@) {
            Ok(bits) => Ok((version, bits)),
            Err(e) => Err(e),
        },
{
    let mut bits = Bits::new(version);
    bits.reserve(reserved);
    proof {
        optimize::lemma_fitting_total_bound(data@, segments@, version, data@.len());
        assert forall|i: int| 0 <= i < segments@.len() implies segment_pushable(
            data@,
            #[trigger] segments@[i],
        ) by {
            assert(segment_fits(data@, segments@[i]));
        }
    }
    match bits.push_segments(data, segments) {
        Ok(()) => {},
        Err(e) => return Err(e),
    }
    match bits.push_terminator(ec_level) {
        Ok(()) => {},
        Err(e) => return Err(e),
    }
    Ok(bits)
}

/// The optimal segmentation of the parsed runs in `version`, with its total
/// encoded length.
fn best_segmentation(data: &[u8], segments: &[Segment], version: Version) -> (r: (
    Vec<Segment>,
    usize,
))
    requires
        data@.len() * 48 + 64 <= usize::MAX,
        segments@ == parse(data@),
    ensures
        r.0@ == best_segments(data@, version),
        r.1 == total_len(r.0@, version),
        r.1 <= 29 * data@.len(),
        covers(r.0@, 0, data@.len()),
        forall|i: int| 0 <= i < r.0@.len() ==> segment_fits(data@, #[trigger] r.0@[i]),
{
    proof {
        optimize::lemma_parse_runs(data@);
        if segments@.len() > 0 {
            optimize::lemma_opt_segments_fit(data@, segments@, version, segments@.len());
        } else {
            assert(opt_segments(segments@, version, 0) =~= Seq::<Segment>::empty());
        }
    }
    let opt_segments = optimize::optimize_segments(segments, version);
    proof {
        optimize::lemma_fitting_total_bound(data@, opt_segments@, version, data@.len());
        assert forall|i: int| 0 <= i < opt_segments@.len() implies (
        #[trigger] opt_segments@[i]).spec_size_ok() by {
            assert(segment_fits(data@, opt_segments@[i]));
        }
    }
    let total = optimize::total_encoded_len(&opt_segments, version);
    (opt_segments, total)
}

/// Automatically determines the minimum QR code version to store the data, and
/// encode the result.
///
/// This method will not consider any Micro QR code or rMQR code versions.
///
/// # Errors
///
/// Returns [`Err`] if the data is too long to fit even the highest QR code
/// version.
pub fn encode_auto(data: &[u8], ec_level: EcLevel) -> (r: QrResult<Bits>)
    requires
        data@.len() * 48 + 64 <= usize::MAX,
    ensures
        r is Ok ==> r->Ok_0.wf(),
        bits_result(r) == auto_normal(data@, ec_level, 0),
{
    let segments = Parser::new(data).collect_segments();
    let versions = [NormalVersion::V9, NormalVersion::V26, NormalVersion::V40];
    let mut k: usize = 0;
    while k < 3
        invariant
            k <= 3,
            data@.len() * 48 + 64 <= usize::MAX,
            segments@ == parse(data@),
            versions@ == seq![NormalVersion::V9, NormalVersion::V26, NormalVersion::V40],
            auto_normal(data@, ec_level, 0) == auto_normal(data@, ec_level, k as nat),
        decreases 3 - k,
    {
        let version = Version::Normal(versions[k]);
        assert(versions@[k as int] == normal_group_end(k as nat));
        let (opt_segments, total_len) = best_segmentation(data, &segments, version);
        let data_capacity = version.fetch(ec_level, &DATA_LENGTHS).unwrap();
        if total_len <= data_capacity {
            let min_version = find_min_version(total_len, ec_level);
            return encode_segments(data, min_version, ec_level, &opt_segments, total_len);
        }
        k = k + 1;
    }
    Err(Error::DataTooLong)
}

/// The index of the first of `keys` that none before or after it is below.
pub open spec fn first_min_index(keys: Seq<nat>) -> nat
    decreases keys.len(),
{
    if keys.len() <= 1 {
        0
    } else {
        let i = first_min_index(keys.drop_last());
        if keys.last() < keys[i as int] {
            (keys.len() - 1) as nat
        } else {
            i
        }
    }
}

/// The widths of `versions`.
pub open spec fn widths(versions: Seq<Version>) -> Seq<nat> {
    Seq::new(versions.len(), |i: int| versions[i].spec_width())
}

/// The areas (height times width) of `versions`.
pub open spec fn areas(versions: Seq<Version>) -> Seq<nat> {
    Seq::new(versions.len(), |i: int| versions[i].spec_height() * versions[i].spec_width())
}

/// The first of the versions with the least key, where the keys of the
/// versions come one by one from `key_of`.
fn first_min(versions: &Vec<Version>, keys: &Vec<u32>) -> (r: Option<Version>)
    requires
        keys@.len() == versions@.len(),
    ensures
        versions@.len() == 0 ==> r is None,
        versions@.len() > 0 ==> r == Some(
            versions@[first_min_index(Seq::new(keys@.len(), |i: int| keys@[i] as nat)) as int],
        ),
{
    if versions.len() == 0 {
        return None;
    }
    let ghost ks = Seq::new(keys@.len(), |i: int| keys@[i] as nat);
    let mut best: usize = 0;
    let mut i: usize = 1;
    while i < versions.len()
        invariant
            keys@.len() == versions@.len(),
            ks == Seq::new(keys@.len(), |i: int| keys@[i] as nat),
            1 <= i <= versions@.len(),
            best < i,
            best == first_min_index(ks.take(i as int)),
        decreases versions@.len() - i,
    {
        proof {
            assert(ks.take(i + 1int).drop_last() =~= ks.take(i as int));
        }
        if keys[i] < keys[best] {
            best = i;
        }
        i = i + 1;
    }
    proof {
        assert(ks.take(i as int) =~= ks);
    }
    Some(versions[best])
}

/// The widths of `versions`, in order.
fn widths_of(versions: &Vec<Version>) -> (r: Vec<u32>)
    ensures
        r@.len() == versions@.len(),
        Seq::new(r@.len(), |i: int| r@[i] as nat) == widths(versions@),
{
    let mut r: Vec<u32> = Vec::new();
    let mut i: usize = 0;
    while i < versions.len()
        invariant
            i <= versions@.len(),
            r@.len() == i,
            forall|j: int| 0 <= j < i ==> r@[j] as nat == versions@[j].spec_width(),
        decreases versions@.len() - i,
    {
        r.push(versions[i].width() as u32);
        i = i + 1;
    }
    assert(Seq::new(r@.len(), |i: int| r@[i] as nat) =~= widths(versions@));
    r
}

/// The areas of `versions`, in order.
fn areas_of(versions: &Vec<Version>) -> (r: Vec<u32>)
    ensures
        r@.len() == versions@.len(),
        Seq::new(r@.len(), |i: int| r@[i] as nat) == areas(versions@),
{
    let mut r: Vec<u32> = Vec::new();
    let mut i: usize = 0;
    while i < versions.len()
        invariant
            i <= versions@.len(),
            r@.len() == i,
            forall|j: int|
                0 <= j < i ==> r@[j] as nat == versions@[j].spec_height()
                    * versions@[j].spec_width(),
        decreases versions@.len() - i,
    {
        let height = versions[i].height() as u32;
        let width = versions[i].width() as u32;
        assert(height * width <= 255 * 255) by (nonlinear_arith)
            requires
                height <= 255,
                width <= 255,
        ;
        r.push(height * width);
        i = i + 1;
    }
    assert(Seq::new(r@.len(), |i: int| r@[i] as nat) =~= areas(versions@));
    r
}

/// The first Micro QR code version from the `k`-th on (M1 to M4) in which
/// `data`, with its optimal segmentation, is encoded without error.
pub open spec fn auto_micro_version(data: Seq<u8>, ec_level: EcLevel, k: nat) -> Option<Version>
    decreases 4 - k,
{
    if k >= 4 {
        None
    } else {
        let version = Version::Micro(MicroVersion::ALL[k as int]);
        if encoded_in(data, version, ec_level) is Ok {
            Some(version)
        } else {
            auto_micro_version(data, ec_level, k + 1)
        }
    }
}

/// What automatic Micro QR code encoding gives: the data in the smallest
/// version that holds it.
pub open spec fn auto_micro(data: Seq<u8>, ec_level: EcLevel) -> QrResult<(Version, Seq<bool>)> {
    match auto_micro_version(data, ec_level, 0) {
        None => Err(Error::DataTooLong),
        Some(version) => encoded_in(data, version, ec_level),
    }
}

/// Micro QR code version `M(k + 1)`.
pub open spec fn micro_version(k: nat) -> Version {
    Version::Micro(MicroVersion::ALL[k as int])
}

/// Whether Micro QR code version `M(k + 1)` supports `ec_level` and its data
/// capacity at that level holds `data` with its optimal segmentation in that
/// version.
pub open spec fn micro_fits(data: Seq<u8>, k: nat, ec_level: EcLevel) -> bool {
    let v = micro_version(k);
    &&& capacity(v, ec_level) > 0
    &&& total_len(best_segments(data, v), v) <= capacity(v, ec_level)
}

/// Data that encodes in a version at `ec_level` does so in a version that
/// supports the level, whose capacity at the level holds the encoded
/// segments; the bits are of that version and fill that capacity (to less than
/// a byte beyond it).
pub proof fn lemma_encoded_in_fits(data: Seq<u8>, version: Version, ec_level: EcLevel)
    requires
        data.len() * 48 + 64 <= usize::MAX,
    ensures
        encoded_in(data, version, ec_level) is Ok ==> {
            let (v, bits) = encoded_in(data, version, ec_level)->Ok_0;
            &&& v == version
            &&& capacity(version, ec_level) > 0
            &&& total_len(best_segments(data, version), version) <= capacity(version, ec_level)
            &&& capacity(version, ec_level) <= bits.len() < capacity(version, ec_level) + 8
        },
        encoded_in(data, version, ec_level) is Err ==> {
            ||| capacity(version, ec_level) == 0
            ||| total_len(best_segments(data, version), version) > capacity(version, ec_level)
            ||| segments_pushed(Seq::empty(), version, data, best_segments(data, version)).0 is Err
        },
{
    let segments = best_segments(data, version);
    let runs = parse(data);
    optimize::lemma_parse_runs(data);
    if runs.len() > 0 {
        optimize::lemma_opt_segments_fit(data, runs, version, runs.len());
    } else {
        assert(opt_segments(runs, version, 0) =~= Seq::<Segment>::empty());
    }
    assert forall|i: int| 0 <= i < segments.len() implies (#[trigger] segments[i]).begin
        <= segments[i].end <= data.len() by {
        assert(segment_fits(data, segments[i]));
    }
    super::lemma_segments_pushed_len(Seq::empty(), version, data, segments);
    let pushed = segments_pushed(Seq::empty(), version, data, segments);
    if encoded_in(data, version, ec_level) is Ok {
        assert(pushed.0 is Ok);
        assert(pushed.1.len() == total_len(segments, version));
        let entry = DATA_LENGTHS@[version.spec_table_row() as int][ec_level.spec_index() as int];
        assert(entry as nat == capacity(version, ec_level));
        super::lemma_terminated_fills_capacity(pushed.1, version, entry as nat);
    } else if pushed.0 is Ok {
        let entry = DATA_LENGTHS@[version.spec_table_row() as int][ec_level.spec_index() as int];
        assert(entry as nat == capacity(version, ec_level));
    }
}

/// Automatic Micro QR code encoding takes the smallest Micro QR code version
/// in which the data encodes at the requested error correction level: that
/// version supports the level, its capacity at the level holds the data with
/// its optimal segmentation there, and the data comes out encoded for that
/// level; every smaller version fails at the level, for it does not support the
/// level, its capacity does not hold the data, or it cannot hold the modes or
/// the character counts of the segments. When the data encodes in none of M1 to
/// M4 at the level, it is too long; when it encodes in one, the automatic
/// encoding succeeds.
pub proof fn lemma_auto_micro_smallest(data: Seq<u8>, ec_level: EcLevel)
    requires
        data.len() * 48 + 64 <= usize::MAX,
    ensures
        (forall|k: nat| k < 4 ==> !(#[trigger] encoded_in(data, micro_version(k), ec_level) is Ok))
            ==> auto_micro(data, ec_level) == Err::<(Version, Seq<bool>), Error>(
            Error::DataTooLong,
        ),
        forall|k: nat|
            k < 4 && (#[trigger] encoded_in(data, micro_version(k), ec_level) is Ok) ==> auto_micro(
                data,
                ec_level,
            ) is Ok,
        auto_micro(data, ec_level) is Ok ==> exists|m: nat|
            {
                &&& m < 4
                &&& #[trigger] micro_fits(data, m, ec_level)
                &&& auto_micro(data, ec_level) == encoded_in(data, micro_version(m), ec_level)
                &&& auto_micro(data, ec_level)->Ok_0.0 == micro_version(m)
                &&& forall|j: nat|
                    j < m ==> !(#[trigger] encoded_in(data, micro_version(j), ec_level) is Ok)
                &&& forall|j: nat|
                    j < m ==> !#[trigger] micro_fits(data, j, ec_level) || segments_pushed(
                        Seq::empty(),
                        micro_version(j),
                        data,
                        best_segments(data, micro_version(j)),
                    ).0 is Err
            },
{
    lemma_encoded_in_fits(data, micro_version(0), ec_level);
    lemma_encoded_in_fits(data, micro_version(1), ec_level);
    lemma_encoded_in_fits(data, micro_version(2), ec_level);
    lemma_encoded_in_fits(data, micro_version(3), ec_level);
    let e0 = encoded_in(data, micro_version(0), ec_level);
    let e1 = encoded_in(data, micro_version(1), ec_level);
    let e2 = encoded_in(data, micro_version(2), ec_level);
    let e3 = encoded_in(data, micro_version(3), ec_level);
    assert(auto_micro_version(data, ec_level, 4) is None);
    if e0 is Ok {
        assert(auto_micro_version(data, ec_level, 0) == Some(micro_version(0)));
        assert(micro_fits(data, 0, ec_level));
    } else if e1 is Ok {
        assert(auto_micro_version(data, ec_level, 1) == Some(micro_version(1)));
        assert(auto_micro_version(data, ec_level, 0) == Some(micro_version(1)));
        assert(micro_fits(data, 1, ec_level));
        assert forall|j: nat| j < 1 implies !(#[trigger] encoded_in(
            data,
            micro_version(j),
            ec_level,
        ) is Ok) by {
            assert(j == 0);
        }
    } else if e2 is Ok {
        assert(auto_micro_version(data, ec_level, 2) == Some(micro_version(2)));
        assert(auto_micro_version(data, ec_level, 1) == Some(micro_version(2)));
        assert(auto_micro_version(data, ec_level, 0) == Some(micro_version(2)));
        assert(micro_fits(data, 2, ec_level));
        assert forall|j: nat| j < 2 implies !(#[trigger] encoded_in(
            data,
            micro_version(j),
            ec_level,
        ) is Ok) by {
            assert(j == 0 || j == 1);
        }
    } else if e3 is Ok {
        assert(auto_micro_version(data, ec_level, 3) == Some(micro_version(3)));
        assert(auto_micro_version(data, ec_level, 2) == Some(micro_version(3)));
        assert(auto_micro_version(data, ec_level, 1) == Some(micro_version(3)));
        assert(auto_micro_version(data, ec_level, 0) == Some(micro_version(3)));
        assert(micro_fits(data, 3, ec_level));
        assert forall|j: nat| j < 3 implies !(#[trigger] encoded_in(
            data,
            micro_version(j),
            ec_level,
        ) is Ok) by {
            assert(j == 0 || j == 1 || j == 2);
        }
    } else {
        assert(auto_micro_version(data, ec_level, 3) is None);
        assert(auto_micro_version(data, ec_level, 2) is None);
        assert(auto_micro_version(data, ec_level, 1) is None);
        assert(auto_micro_version(data, ec_level, 0) is None);
        assert forall|k: nat| k < 4 implies !(#[trigger] encoded_in(
            data,
            micro_version(k),
            ec_level,
        ) is Ok) by {
            assert(k == 0 || k == 1 || k == 2 || k == 3);
        }
    }
}

/// Automatically determines the minimum Micro QR code version to store the
/// data, and encode the result.
///
/// This method will not consider any QR code or rMQR code versions.
///
/// # Errors
///
/// Returns [`Err`] if the data is too long to fit even the highest Micro QR
/// code version.
pub fn encode_auto_micro(data: &[u8], ec_level: EcLevel) -> (r: QrResult<Bits>)
    requires
        data@.len() * 48 + 64 <= usize::MAX,
    ensures
        r is Ok ==> r->Ok_0.wf(),
        bits_result(r) == auto_micro(data@, ec_level),
{
    let segments = Parser::new(data).collect_segments();
    let mut k: usize = 0;
    while k < 4
        invariant
            k <= 4,
            data@.len() * 48 + 64 <= usize::MAX,
            segments@ == parse(data@),
            auto_micro_version(data@, ec_level, 0) == auto_micro_version(data@, ec_level, k as nat),
        decreases 4 - k,
    {
        let version = Version::Micro(MicroVersion::ALL[k]);
        let (opt_segments, total_len) = best_segmentation(data, &segments, version);
        match encode_segments(data, version, ec_level, &opt_segments, total_len) {
            Ok(bits) => {
                return Ok(bits);
            },
            Err(_) => {},
        }
        k = k + 1;
    }
    Err(Error::DataTooLong)
}

/// Auto rMQR code's version minimization strategy.
#[derive(Clone, Copy, Debug, PartialEq, Eq, Structural)]
pub enum RectMicroStrategy {
    /// Minimize the width.
    Width,
    /// Minimize the height.
    Height,
    /// Minimize the area.
    Area,
}

/// The rMQR code versions from the `k`-th on that hold the optimal
/// segmentation of `data`, the narrowest of each height, appended to `found`;
/// `skip` is the height whose narrowest fitting version is already found. An
/// error when `ec_level` is not supported.
pub open spec fn rect_candidates(
    data: Seq<u8>,
    ec_level: EcLevel,
    k: nat,
    skip: Option<nat>,
    found: Seq<Version>,
) -> QrResult<Seq<Version>>
    decreases 32 - k,
{
    if k >= 32 {
        Ok(found)
    } else {
        let version = Version::RectMicro(RectMicroVersion::ALL[k as int]);
        let height = version.spec_height();
        if skip == Some(height) {
            rect_candidates(data, ec_level, k + 1, skip, found)
        } else {
            match version.spec_fetch(ec_level, DATA_LENGTHS@) {
                Err(e) => Err(e),
                Ok(cap) => if total_len(best_segments(data, version), version) <= cap {
                    rect_candidates(data, ec_level, k + 1, Some(height), found.push(version))
                } else {
                    rect_candidates(data, ec_level, k + 1, None, found)
                },
            }
        }
    }
}

/// The version that `strategy` picks among the candidates: the first of the
/// least width, the first (the lowest), or the first of the least area.
pub open spec fn pick_rect(candidates: Seq<Version>, strategy: RectMicroStrategy) -> Option<Version> {
    if candidates.len() == 0 {
        None
    } else {
        match strategy {
            RectMicroStrategy::Width => Some(candidates[first_min_index(widths(candidates)) as int]),
            RectMicroStrategy::Height => Some(candidates[0]),
            RectMicroStrategy::Area => Some(candidates[first_min_index(areas(candidates)) as int]),
        }
    }
}

/// rMQR code version `k`, in the order of [`RectMicroVersion::ALL`].
pub open spec fn rect_version(k: nat) -> Version {
    Version::RectMicro(RectMicroVersion::ALL[k as int])
}

/// Whether rMQR code version `k` supports `ec_level` and holds `data` with
/// its optimal segmentation in that version.
pub open spec fn rect_fits(data: Seq<u8>, ec_level: EcLevel, k: nat) -> bool {
    let v = rect_version(k);
    match v.spec_fetch(ec_level, DATA_LENGTHS@) {
        Ok(cap) => total_len(best_segments(data, v), v) <= cap,
        Err(_) => false,
    }
}

/// Whether every rMQR code version supports `ec_level`.
pub open spec fn rect_supported(ec_level: EcLevel) -> bool {
    forall|k: nat| k < 32 ==> (#[trigger] rect_version(k)).spec_fetch(ec_level, DATA_LENGTHS@) is Ok
}

/// Whether version `k` fits and no narrower version of its height does.
pub open spec fn rect_first_of_height(data: Seq<u8>, ec_level: EcLevel, k: nat) -> bool {
    &&& rect_fits(data, ec_level, k)
    &&& forall|j: nat|
        j < k && (#[trigger] rect_version(j)).spec_height() == rect_version(k).spec_height()
            ==> !rect_fits(data, ec_level, j)
}

/// The versions from `k` on that fit with no narrower fitting version of
/// their height, in order.
pub open spec fn rect_firsts(data: Seq<u8>, ec_level: EcLevel, k: nat) -> Seq<nat>
    decreases 32 - k,
{
    if k >= 32 {
        Seq::empty()
    } else if rect_first_of_height(data, ec_level, k) {
        seq![k] + rect_firsts(data, ec_level, k + 1)
    } else {
        rect_firsts(data, ec_level, k + 1)
    }
}

/// The versions at the positions `ks`.
pub open spec fn rect_versions(ks: Seq<nat>) -> Seq<Version> {
    Seq::new(ks.len(), |i: int| rect_version(ks[i]))
}

/// The rMQR code sizes: heights never decrease along the list, and within a
/// height the widths grow.
proof fn lemma_rect_sizes()
    ensures
        forall|i: nat, j: nat|
            i < j < 32 ==> (#[trigger] rect_version(i)).spec_height() <= (
            #[trigger] rect_version(j)).spec_height() && (rect_version(i).spec_height()
                == rect_version(j).spec_height() ==> rect_version(i).spec_width()
                < rect_version(j).spec_width()),
        forall|k: nat| k < 32 ==> (#[trigger] RectMicroVersion::ALL[k as int]).spec_index() == k,
{
    assert(forall|i: int| 0 <= i < 32 ==> (#[trigger] RectMicroVersion::ALL[i]).spec_index() == i);
    assert(forall|i: int, j: int|
        0 <= i < j < 32 ==> #[trigger] RectMicroVersion::SIZES[i][0]
            <= #[trigger] RectMicroVersion::SIZES[j][0] && (RectMicroVersion::SIZES[i][0]
            == RectMicroVersion::SIZES[j][0] ==> RectMicroVersion::SIZES[i][1]
            < RectMicroVersion::SIZES[j][1]));
}

/// What the candidate search finds from `k` on: with `skip` naming the
/// height of the previous version exactly when a version of that height
/// already fits, the versions that fit with no narrower fitting version of
/// their height.
proof fn lemma_rect_candidates(
    data: Seq<u8>,
    ec_level: EcLevel,
    k: nat,
    skip: Option<nat>,
    found: Seq<Version>,
)
    requires
        rect_supported(ec_level),
        k <= 32,
        k == 0 ==> skip is None,
        k > 0 ==> (skip == Some(rect_version((k - 1) as nat).spec_height()) <==> exists|j: nat|
            j < k && (#[trigger] rect_version(j)).spec_height() == rect_version(
                (k - 1) as nat,
            ).spec_height() && rect_fits(data, ec_level, j)),
        k > 0 && skip is Some ==> skip == Some(rect_version((k - 1) as nat).spec_height()),
    ensures
        rect_candidates(data, ec_level, k, skip, found) == Ok::<Seq<Version>, Error>(
            found + rect_versions(rect_firsts(data, ec_level, k)),
        ),
    decreases 32 - k,
{
    lemma_rect_sizes();
    if k >= 32 {
        assert(found + rect_versions(Seq::<nat>::empty()) =~= found);
    } else {
        let v = rect_version(k);
        assert(v.spec_fetch(ec_level, DATA_LENGTHS@) is Ok);
        let h = v.spec_height();
        if skip == Some(h) {
            // An earlier version of this height fits.
            let j = choose|j: nat|
                j < k && (#[trigger] rect_version(j)).spec_height() == rect_version(
                    (k - 1) as nat,
                ).spec_height() && rect_fits(data, ec_level, j);
            assert(!rect_first_of_height(data, ec_level, k));
            assert(exists|j2: nat|
                j2 < k + 1 && (#[trigger] rect_version(j2)).spec_height() == rect_version(
                    k,
                ).spec_height() && rect_fits(data, ec_level, j2));
            lemma_rect_candidates(data, ec_level, k + 1, skip, found);
        } else {
            // No earlier version of this height fits.
            assert forall|j: nat|
                j < k && (#[trigger] rect_version(j)).spec_height() == h implies !rect_fits(
                data,
                ec_level,
                j,
            ) by {
                if rect_fits(data, ec_level, j) {
                    assert(k > 0);
                    assert(rect_version(j).spec_height() <= rect_version(
                        (k - 1) as nat,
                    ).spec_height());
                    assert(rect_version((k - 1) as nat).spec_height() <= h);
                }
            }
            if rect_fits(data, ec_level, k) {
                assert(rect_first_of_height(data, ec_level, k));
                lemma_rect_candidates(data, ec_level, k + 1, Some(h), found.push(v));
                assert(found.push(v) + rect_versions(rect_firsts(data, ec_level, k + 1)) =~= found
                    + rect_versions(rect_firsts(data, ec_level, k)));
            } else {
                assert(!rect_first_of_height(data, ec_level, k));
                assert forall|j: nat|
                    j < k + 1 && (#[trigger] rect_version(j)).spec_height() == h implies !rect_fits(
                    data,
                    ec_level,
                    j,
                ) by {}
                lemma_rect_candidates(data, ec_level, k + 1, None, found);
            }
        }
    }
}

/// What automatic rMQR code encoding gives: the data in the version that the
/// strategy picks among the narrowest fitting version of each height.
pub open spec fn auto_rect_micro(
    data: Seq<u8>,
    ec_level: EcLevel,
    strategy: RectMicroStrategy,
) -> QrResult<(Version, Seq<bool>)> {
    match rect_candidates(data, ec_level, 0, None, Seq::empty()) {
        Err(e) => Err(e),
        Ok(candidates) => match pick_rect(candidates, strategy) {
            None => Err(Error::DataTooLong),
            Some(version) => encoded_in(data, version, ec_level),
        },
    }
}

/// Every rMQR code version supports the levels M and H.
pub proof fn lemma_rect_supported_m_h()
    ensures
        rect_supported(EcLevel::M),
        rect_supported(EcLevel::H),
{
    lemma_rect_sizes();
    assert(forall|i: int| 44 <= i < 76 ==> #[trigger] DATA_LENGTHS[i][1] > 0 && DATA_LENGTHS[i][3] > 0);
}

/// The versions found from `k` on lie from `k` on, each fits with no narrower
/// fitting version of its height, they come in order, and every such version
/// is among them.
proof fn lemma_rect_firsts(data: Seq<u8>, ec_level: EcLevel, k: nat)
    requires
        k <= 32,
    ensures
        forall|i: int|
            0 <= i < rect_firsts(data, ec_level, k).len() ==> k <= #[trigger] rect_firsts(
                data,
                ec_level,
                k,
            )[i] < 32 && rect_first_of_height(data, ec_level, rect_firsts(data, ec_level, k)[i]),
        forall|i: int, i2: int|
            0 <= i < i2 < rect_firsts(data, ec_level, k).len() ==> #[trigger] rect_firsts(
                data,
                ec_level,
                k,
            )[i] < #[trigger] rect_firsts(data, ec_level, k)[i2],
        forall|j: nat|
            k <= j < 32 && #[trigger] rect_first_of_height(data, ec_level, j) ==> exists|i: int|
                0 <= i < rect_firsts(data, ec_level, k).len() && #[trigger] rect_firsts(
                    data,
                    ec_level,
                    k,
                )[i] == j,
    decreases 32 - k,
{
    if k < 32 {
        lemma_rect_firsts(data, ec_level, k + 1);
        let rest = rect_firsts(data, ec_level, k + 1);
        let f = rect_firsts(data, ec_level, k);
        if rect_first_of_height(data, ec_level, k) {
            assert(f == seq![k] + rest);
            assert forall|j: nat|
                k <= j < 32 && #[trigger] rect_first_of_height(data, ec_level, j) implies exists|
                i: int,
            | 0 <= i < f.len() && #[trigger] f[i] == j by {
                if j == k {
                    assert(f[0] == k);
                } else {
                    let i = choose|i: int| 0 <= i < rest.len() && #[trigger] rest[i] == j;
                    assert(f[i + 1] == j);
                }
            }
        }
    }
}

/// A fitting version has a version of its height, no wider, that fits with
/// no narrower fitting version of that height.
proof fn lemma_rect_first_below(data: Seq<u8>, ec_level: EcLevel, k: nat)
    requires
        k < 32,
        rect_fits(data, ec_level, k),
    ensures
        exists|j: nat|
            j <= k && #[trigger] rect_first_of_height(data, ec_level, j)
                && rect_version(j).spec_height() == rect_version(k).spec_height(),
    decreases k,
{
    if !rect_first_of_height(data, ec_level, k) {
        let j = choose|j: nat|
            j < k && (#[trigger] rect_version(j)).spec_height() == rect_version(k).spec_height()
                && rect_fits(data, ec_level, j);
        lemma_rect_first_below(data, ec_level, j);
    }
}

/// The first of the least keys: no key is below it, and every key before it
/// is above it.
proof fn lemma_first_min_index(keys: Seq<nat>)
    requires
        keys.len() > 0,
    ensures
        first_min_index(keys) < keys.len(),
        forall|j: int| 0 <= j < keys.len() ==> keys[first_min_index(keys) as int] <= #[trigger] keys[j],
        forall|j: int| 0 <= j < first_min_index(keys) ==> keys[first_min_index(keys) as int] < #[trigger] keys[j],
    decreases keys.len(),
{
    if keys.len() > 1 {
        let p = keys.drop_last();
        lemma_first_min_index(p);
        assert forall|j: int| 0 <= j < p.len() implies p[j] == #[trigger] keys[j] by {}
    }
}

/// The key that `strategy` minimizes: the width, the height, or the area.
pub open spec fn rect_key(v: Version, strategy: RectMicroStrategy) -> nat {
    match strategy {
        RectMicroStrategy::Width => v.spec_width(),
        RectMicroStrategy::Height => v.spec_height(),
        RectMicroStrategy::Area => v.spec_height() * v.spec_width(),
    }
}

/// Whether version `m` wins over version `k` for `strategy`: its key is
/// lower, or the same with a lower height, or the same height and a width no
/// larger.
pub open spec fn rect_before(m: nat, k: nat, strategy: RectMicroStrategy) -> bool {
    let vm = rect_version(m);
    let vk = rect_version(k);
    rect_key(vm, strategy) < rect_key(vk, strategy) || (rect_key(vm, strategy) == rect_key(
        vk,
        strategy,
    ) && (vm.spec_height() < vk.spec_height() || (vm.spec_height() == vk.spec_height()
        && vm.spec_width() <= vk.spec_width())))
}

/// Automatic rMQR code encoding, at a level that every rMQR code version
/// supports, takes the fitting version of the least key (ties to the lower
/// height, then the lower width) and encodes the data there with its
/// optimal segmentation in that version; when no version fits, the data is
/// too long.
pub proof fn lemma_auto_rect_smallest(data: Seq<u8>, ec_level: EcLevel, strategy: RectMicroStrategy)
    requires
        rect_supported(ec_level),
    ensures
        (forall|k: nat| k < 32 ==> !#[trigger] rect_fits(data, ec_level, k)) ==> auto_rect_micro(
            data,
            ec_level,
            strategy,
        ) == Err::<(Version, Seq<bool>), Error>(Error::DataTooLong),
        (exists|k: nat| k < 32 && #[trigger] rect_fits(data, ec_level, k)) ==> exists|m: nat|
            {
                &&& m < 32
                &&& #[trigger] rect_fits(data, ec_level, m)
                &&& forall|k: nat|
                    k < 32 && #[trigger] rect_fits(data, ec_level, k) ==> rect_before(m, k, strategy)
                &&& auto_rect_micro(data, ec_level, strategy) == encoded_in(
                    data,
                    rect_version(m),
                    ec_level,
                )
            },
{
    lemma_rect_sizes();
    lemma_rect_candidates(data, ec_level, 0, None, Seq::empty());
    lemma_rect_firsts(data, ec_level, 0);
    let f = rect_firsts(data, ec_level, 0);
    let c = rect_versions(f);
    assert(Seq::<Version>::empty() + c =~= c);
    if f.len() == 0 {
        assert forall|k: nat| k < 32 implies !#[trigger] rect_fits(data, ec_level, k) by {
            if rect_fits(data, ec_level, k) {
                lemma_rect_first_below(data, ec_level, k);
                let j = choose|j: nat|
                    j <= k && #[trigger] rect_first_of_height(data, ec_level, j)
                        && rect_version(j).spec_height() == rect_version(k).spec_height();
                assert(exists|i: int| 0 <= i < f.len() && #[trigger] f[i] == j);
            }
        }
    } else {
        let idx: int = match strategy {
            RectMicroStrategy::Width => first_min_index(widths(c)) as int,
            RectMicroStrategy::Height => 0,
            RectMicroStrategy::Area => first_min_index(areas(c)) as int,
        };
        let keys: Seq<nat> = Seq::new(c.len(), |i: int| rect_key(c[i], strategy));
        match strategy {
            RectMicroStrategy::Width => {
                assert(keys =~= widths(c));
                lemma_first_min_index(keys);
            },
            RectMicroStrategy::Height => {},
            RectMicroStrategy::Area => {
                assert(keys =~= areas(c));
                lemma_first_min_index(keys);
            },
        }
        assert(0 <= idx < f.len());
        let m = f[idx];
        assert(pick_rect(c, strategy) == Some(rect_version(m)));
        assert forall|k: nat| k < 32 && #[trigger] rect_fits(data, ec_level, k) implies rect_before(
            m,
            k,
            strategy,
        ) by {
            lemma_rect_first_below(data, ec_level, k);
            let j = choose|j: nat|
                j <= k && #[trigger] rect_first_of_height(data, ec_level, j)
                    && rect_version(j).spec_height() == rect_version(k).spec_height();
            let i = choose|i: int| 0 <= i < f.len() && #[trigger] f[i] == j;
            let hk = rect_version(k).spec_height();
            let wj = rect_version(j).spec_width();
            let wk = rect_version(k).spec_width();
            assert(wj <= wk);
            assert(hk * wj <= hk * wk) by (nonlinear_arith)
                requires
                    wj <= wk,
            ;
            assert(keys[i] == rect_key(rect_version(j), strategy));
            assert(keys[idx] == rect_key(rect_version(m), strategy));
            assert(rect_key(rect_version(j), strategy) <= rect_key(rect_version(k), strategy));
            // Two versions that fit first in their height are the same when
            // their heights are.
            if rect_version(m).spec_height() == hk && m != j {
                if m < j {
                    assert(!rect_fits(data, ec_level, m));
                } else {
                    assert(!rect_fits(data, ec_level, j));
                }
            }
            if strategy == RectMicroStrategy::Height {
                if i > 0 {
                    assert(f[0] < f[i]);
                }
            } else {
                assert(keys[idx] <= keys[i]);
                if keys[idx] == rect_key(rect_version(k), strategy) {
                    assert(keys[idx] == keys[i]);
                    assert(idx <= i);
                    if idx < i {
                        assert(m < j);
                    }
                }
            }
        }
    }
}

/// Automatically determines the minimum rMQR code version to store the data,
/// and encode the result.
///
/// This method will not consider any QR code or Micro QR code versions.
///
/// # Errors
///
/// Returns [`Err`] if the data is too long to fit even the highest rMQR code
/// version.
pub fn encode_auto_rect_micro(data: &[u8], ec_level: EcLevel, strategy: RectMicroStrategy) -> (r:
    QrResult<Bits>)
    requires
        data@.len() * 48 + 64 <= usize::MAX,
    ensures
        r is Ok ==> r->Ok_0.wf(),
        bits_result(r) == auto_rect_micro(data@, ec_level, strategy),
{
    let segments = Parser::new(data).collect_segments();
    let mut possible_versions: Vec<Version> = Vec::new();
    let mut skip_height: Option<u8> = None;
    let mut k: usize = 0;
    while k < 32
        invariant
            k <= 32,
            data@.len() * 48 + 64 <= usize::MAX,
            segments@ == parse(data@),
            rect_candidates(data@, ec_level, 0, None, Seq::empty()) == rect_candidates(
                data@,
                ec_level,
                k as nat,
                match skip_height {
                    Some(h) => Some(h as nat),
                    None => None,
                },
                possible_versions@,
            ),
        decreases 32 - k,
    {
        let version = Version::RectMicro(RectMicroVersion::ALL[k]);
        let current_height = version.height();
        if let Some(sh) = skip_height {
            if current_height == sh {
                k = k + 1;
                continue;
            }
            skip_height = None;
        }
        let (opt_segments, total_len) = best_segmentation(data, &segments, version);
        let data_capacity = match version.fetch(ec_level, &DATA_LENGTHS) {
            Ok(capacity) => capacity,
            Err(e) => return Err(e),
        };
        if total_len <= data_capacity {
            possible_versions.push(version);
            skip_height = Some(current_height);
        }
        k = k + 1;
    }
    let min_version = match strategy {
        RectMicroStrategy::Width => {
            let widths = widths_of(&possible_versions);
            first_min(&possible_versions, &widths)
        },
        RectMicroStrategy::Height => if possible_versions.len() > 0 {
            Some(possible_versions[0])
        } else {
            None
        },
        RectMicroStrategy::Area => {
            let areas = areas_of(&possible_versions);
            first_min(&possible_versions, &areas)
        },
    };
    match min_version {
        Some(version) => {
            let (opt_segments, total_len) = best_segmentation(data, &segments, version);
            encode_segments(data, version, ec_level, &opt_segments, total_len)
        },
        None => Err(Error::DataTooLong),
    }
}

} // verus!
