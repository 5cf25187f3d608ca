//! Find the optimal data mode sequence to encode a piece of data.

mod internal;
mod parser;
mod segment;

use vstd::prelude::*;

pub use self::internal::{Action, ExclCharSet, STATE_TRANSITION, State, transition};
pub use self::parser::{Parser, ecs_at, emitted, lemma_parse_fits, parse, parse_from, read_ok, span};
pub use self::segment::Segment;
use crate::bits::{all_alphanumeric, all_digits, all_kanji};
use crate::types::{Mode, Version};

verus! {

/// The total number of bits of `segments` when encoded.
pub open spec fn total_len(segments: Seq<Segment>, version: Version) -> nat
    decreases segments.len(),
{
    if segments.len() == 0 {
        0
    } else {
        total_len(segments.drop_last(), version) + segments.last().spec_encoded_len(version)
    }
}

/// Computes the total encoded length of all segments.
pub fn total_encoded_len(segments: &[Segment], version: Version) -> (r: usize)
    requires
        forall|i: int| 0 <= i < segments@.len() ==> (#[trigger] segments@[i]).spec_size_ok(),
        total_len(segments@, version) <= usize::MAX,
    ensures
        r == total_len(segments@, version),
{
    let mut sum: usize = 0;
    let mut i: usize = 0;
    while i < segments.len()
        invariant
            i <= segments@.len(),
            forall|j: int| 0 <= j < segments@.len() ==> (#[trigger] segments@[j]).spec_size_ok(),
            total_len(segments@, version) <= usize::MAX,
            sum == total_len(segments@.take(i as int), version),
        decreases segments@.len() - i,
    {
        proof {
            assert(segments@.take(i as int + 1).drop_last() =~= segments@.take(i as int));
            lemma_total_len_prefix(segments@, version, i as nat + 1);
        }
        sum = sum + segments[i].encoded_len(version);
        i = i + 1;
    }
    proof {
        assert(segments@.take(segments@.len() as int) =~= segments@);
    }
    sum
}

/// The total length of a prefix is at most the total length.
pub proof fn lemma_total_len_prefix(segments: Seq<Segment>, version: Version, k: nat)
    requires
        k <= segments.len(),
    ensures
        total_len(segments.take(k as int), version) <= total_len(segments, version),
    decreases segments.len(),
{
    if k < segments.len() {
        assert(segments.drop_last().take(k as int) =~= segments.take(k as int));
        lemma_total_len_prefix(segments.drop_last(), version, k);
    } else {
        assert(segments.take(k as int) =~= segments);
    }
}

// ---------------------------------------------------------------------------
// Optimal segmentation.
//
// The runs are the segments that the parser gives. A segmentation joins runs
// `a .. b` into one segment in the lowest common mode of the runs; its cost is
// that segment's encoded length.

/// Whether `runs` are consecutive segments that can be joined: each ends where
/// the next begins, none ends before it begins, and the data they cover is
/// small enough that no bit count overflows.
pub open spec fn runs_ok(runs: Seq<Segment>) -> bool {
    &&& forall|i: int| 0 <= i < runs.len() ==> (#[trigger] runs[i]).begin <= runs[i].end
    &&& forall|i: int| 0 <= i < runs.len() - 1 ==> #[trigger] runs_meet(runs, i)
    &&& runs.len() > 0 ==> (runs.last().end - runs[0].begin) * 16 + 32 * runs.len() + 64
        <= usize::MAX
}

/// The run at `i` ends where the run after it begins.
pub open spec fn runs_meet(runs: Seq<Segment>, i: int) -> bool {
    runs[i].end == runs[i + 1].begin
}

/// Whether `segments` follow one another from `from` to `to`: the first
/// begins at `from`, each ends where the next begins, and the last ends at
/// `to`; with no segments, `from` is `to`.
pub open spec fn covers(segments: Seq<Segment>, from: nat, to: nat) -> bool {
    &&& segments.len() == 0 ==> from == to
    &&& segments.len() > 0 ==> segments[0].begin == from && segments.last().end == to
    &&& forall|i: int| 0 <= i < segments.len() - 1 ==> #[trigger] runs_meet(segments, i)
}

/// Whether `segment` is a non-empty part of `data` whose bytes its mode can
/// encode: digits in Numeric mode, characters of the alphanumeric set in
/// Alphanumeric mode, whole Shift JIS double-byte characters in Kanji mode.
pub open spec fn segment_fits(data: Seq<u8>, segment: Segment) -> bool {
    let bytes = data.subrange(segment.begin as int, segment.end as int);
    &&& segment.begin < segment.end <= data.len()
    &&& match segment.mode {
        Mode::Numeric => all_digits(bytes),
        Mode::Alphanumeric => all_alphanumeric(bytes),
        Mode::Byte => true,
        Mode::Kanji => bytes.len() % 2 == 0 && all_kanji(bytes),
    }
}

/// Two runs of segments that follow one another make one.
pub proof fn lemma_covers_concat(a: Seq<Segment>, b: Seq<Segment>, x: nat, y: nat, z: nat)
    requires
        covers(a, x, y),
        covers(b, y, z),
    ensures
        covers(a + b, x, z),
{
    let c = a + b;
    assert forall|i: int| 0 <= i < c.len() - 1 implies #[trigger] runs_meet(c, i) by {
        if i < a.len() - 1 {
            assert(runs_meet(a, i));
        } else if i == a.len() - 1 {
        } else {
            assert(runs_meet(b, i - a.len()));
        }
    }
}

/// The lowest common mode of the runs `a .. b`, folded from the last run down.
pub open spec fn span_mode(runs: Seq<Segment>, a: nat, b: nat) -> Mode
    decreases b - a,
{
    if a + 1 >= b {
        runs[a as int].mode
    } else {
        span_mode(runs, a + 1, b).spec_max(runs[a as int].mode)
    }
}

/// The segment that joins the runs `a .. b`.
pub open spec fn span_segment(runs: Seq<Segment>, a: nat, b: nat) -> Segment {
    Segment { mode: span_mode(runs, a, b), begin: runs[a as int].begin, end: runs[b - 1].end }
}

/// The encoded length of the segment that joins the runs `a .. b`.
pub open spec fn span_cost(runs: Seq<Segment>, version: Version, a: nat, b: nat) -> nat {
    span_segment(runs, a, b).spec_encoded_len(version)
}

/// The cheapest way to end a segmentation of the first `b` runs with a last
/// segment that starts at a run in `k .. b`: the start and the total cost.
/// Starts are tried from `b - 1` down to `k`, and a later one is taken only
/// when it is strictly cheaper.
pub open spec fn scan(runs: Seq<Segment>, version: Version, b: nat, k: nat) -> Option<(nat, nat)>
    decreases b, 0nat, b - k,
{
    if k >= b {
        None
    } else {
        let c = opt_cost(runs, version, k) + span_cost(runs, version, k, b);
        match scan(runs, version, b, k + 1) {
            None => Some((k, c)),
            Some((p, pc)) => if c < pc {
                Some((k, c))
            } else {
                Some((p, pc))
            },
        }
    }
}

/// The least total cost of a segmentation of the first `b` runs.
pub open spec fn opt_cost(runs: Seq<Segment>, version: Version, b: nat) -> nat
    decreases b, 1nat, 0nat,
{
    if b == 0 {
        0
    } else {
        match scan(runs, version, b, 0) {
            Some((_, c)) => c,
            None => 0,
        }
    }
}

/// The start of the last segment of the chosen segmentation of the first `b`
/// runs.
pub open spec fn best_split(runs: Seq<Segment>, version: Version, b: nat) -> nat {
    match scan(runs, version, b, 0) {
        Some((a, _)) => a,
        None => 0,
    }
}

/// The chosen segmentation of the first `b` runs.
pub open spec fn opt_segments(runs: Seq<Segment>, version: Version, b: nat) -> Seq<Segment>
    decreases b,
{
    if b == 0 {
        Seq::empty()
    } else {
        let a = best_split(runs, version, b);
        if a < b {
            opt_segments(runs, version, a).push(span_segment(runs, a, b))
        } else {
            Seq::empty()
        }
    }
}

/// A segmentation of `n` runs, given by its boundaries: the first is 0, the
/// last is `n`, and they increase strictly.
pub open spec fn is_partition(bounds: Seq<nat>, n: nat) -> bool {
    &&& bounds.len() >= 1
    &&& bounds[0] == 0
    &&& bounds.last() == n
    &&& forall|i: int| 0 <= i < bounds.len() - 1 ==> #[trigger] bounds[i] < bounds[i + 1]
}

/// The total cost of the segmentation with the given boundaries.
pub open spec fn partition_cost(runs: Seq<Segment>, version: Version, bounds: Seq<nat>) -> nat
    decreases bounds.len(),
{
    if bounds.len() <= 1 {
        0
    } else {
        partition_cost(runs, version, bounds.drop_last()) + span_cost(
            runs,
            version,
            bounds[bounds.len() - 2],
            bounds.last(),
        )
    }
}

/// What `scan` finds: a start in `k .. b` whose cost is no more than that of
/// any other start in `k .. b`.
proof fn lemma_scan(runs: Seq<Segment>, version: Version, b: nat, k: nat)
    requires
        k < b,
    ensures
        scan(runs, version, b, k) is Some,
        ({
            let (a, c) = scan(runs, version, b, k).unwrap();
            &&& k <= a < b
            &&& c == opt_cost(runs, version, a) + span_cost(runs, version, a, b)
            &&& forall|j: nat|
                k <= j < b ==> c <= opt_cost(runs, version, j) + span_cost(runs, version, j, b)
        }),
    decreases b - k,
{
    let ck = opt_cost(runs, version, k) + span_cost(runs, version, k, b);
    if k + 1 < b {
        lemma_scan(runs, version, b, k + 1);
        let (p, pc) = scan(runs, version, b, k + 1).unwrap();
        let (a, c) = scan(runs, version, b, k).unwrap();
        assert(c <= ck && c <= pc);
        assert forall|j: nat| k <= j < b implies c <= opt_cost(runs, version, j) + span_cost(
            runs,
            version,
            j,
            b,
        ) by {
            if j > k {
                assert(k + 1 <= j);
            }
        }
    } else {
        assert(scan(runs, version, b, k + 1) is None);
    }
}

/// The least cost is reached through the chosen last segment, and no last
/// segment does better.
proof fn lemma_opt_cost(runs: Seq<Segment>, version: Version, b: nat)
    requires
        b > 0,
    ensures
        best_split(runs, version, b) < b,
        opt_cost(runs, version, b) == opt_cost(runs, version, best_split(runs, version, b))
            + span_cost(runs, version, best_split(runs, version, b), b),
        forall|a: nat|
            a < b ==> opt_cost(runs, version, b) <= opt_cost(runs, version, a) + span_cost(
                runs,
                version,
                a,
                b,
            ),
{
    lemma_scan(runs, version, b, 0);
}

/// No segmentation of the runs costs less than the least cost.
pub proof fn lemma_opt_cost_is_minimal(runs: Seq<Segment>, version: Version, bounds: Seq<nat>, n: nat)
    requires
        is_partition(bounds, n),
    ensures
        opt_cost(runs, version, n) <= partition_cost(runs, version, bounds),
    decreases bounds.len(),
{
    if bounds.len() > 1 {
        let prefix = bounds.drop_last();
        let a = bounds[bounds.len() - 2];
        assert(is_partition(prefix, a));
        lemma_opt_cost_is_minimal(runs, version, prefix, a);
        lemma_opt_cost(runs, version, n);
    }
}

/// Whether every mode has a mode indicator and character count indicator no
/// longer in `v1` than in `v2`.
pub open spec fn lengths_le(v1: Version, v2: Version) -> bool {
    &&& v1.spec_mode_bits_count() <= v2.spec_mode_bits_count()
    &&& Mode::Numeric.spec_length_bits_count(v1) <= Mode::Numeric.spec_length_bits_count(v2)
    &&& Mode::Alphanumeric.spec_length_bits_count(v1) <= Mode::Alphanumeric.spec_length_bits_count(
        v2,
    )
    &&& Mode::Byte.spec_length_bits_count(v1) <= Mode::Byte.spec_length_bits_count(v2)
    &&& Mode::Kanji.spec_length_bits_count(v1) <= Mode::Kanji.spec_length_bits_count(v2)
}

/// A segment is no longer in `v1` than in `v2` when the indicators are not.
proof fn lemma_encoded_len_le(segment: Segment, v1: Version, v2: Version)
    requires
        lengths_le(v1, v2),
    ensures
        segment.spec_encoded_len(v1) <= segment.spec_encoded_len(v2),
{
    match segment.mode {
        Mode::Numeric => {},
        Mode::Alphanumeric => {},
        Mode::Byte => {},
        Mode::Kanji => {},
    }
}

/// The least cost in `v1` is no more than that in `v2` when the indicators
/// of `v1` are no longer.
pub proof fn lemma_opt_cost_le(runs: Seq<Segment>, v1: Version, v2: Version, b: nat)
    requires
        lengths_le(v1, v2),
    ensures
        opt_cost(runs, v1, b) <= opt_cost(runs, v2, b),
    decreases b,
{
    if b > 0 {
        lemma_opt_cost(runs, v1, b);
        lemma_opt_cost(runs, v2, b);
        let a = best_split(runs, v2, b);
        lemma_opt_cost_le(runs, v1, v2, a);
        lemma_encoded_len_le(span_segment(runs, a, b), v1, v2);
    }
}

/// The scans of two versions with the same indicator lengths agree.
proof fn lemma_scan_same(runs: Seq<Segment>, v1: Version, v2: Version, b: nat, k: nat)
    requires
        lengths_le(v1, v2),
        lengths_le(v2, v1),
    ensures
        scan(runs, v1, b, k) == scan(runs, v2, b, k),
    decreases b - k,
{
    if k < b {
        lemma_scan_same(runs, v1, v2, b, k + 1);
        lemma_opt_cost_le(runs, v1, v2, k);
        lemma_opt_cost_le(runs, v2, v1, k);
        lemma_encoded_len_le(span_segment(runs, k, b), v1, v2);
        lemma_encoded_len_le(span_segment(runs, k, b), v2, v1);
    }
}

/// Two versions with the same indicator lengths choose the same segmentation,
/// which has the same length in both.
pub proof fn lemma_opt_segments_same(runs: Seq<Segment>, v1: Version, v2: Version, b: nat)
    requires
        lengths_le(v1, v2),
        lengths_le(v2, v1),
    ensures
        opt_segments(runs, v1, b) == opt_segments(runs, v2, b),
        total_len(opt_segments(runs, v1, b), v1) == total_len(opt_segments(runs, v2, b), v2),
    decreases b,
{
    if b > 0 {
        lemma_scan_same(runs, v1, v2, b, 0);
        let a = best_split(runs, v1, b);
        if a < b {
            lemma_opt_segments_same(runs, v1, v2, a);
        }
    }
    lemma_opt_segments(runs, v1, b);
    lemma_opt_segments(runs, v2, b);
    lemma_opt_cost_le(runs, v1, v2, b);
    lemma_opt_cost_le(runs, v2, v1, b);
}

/// The chosen segmentation is a segmentation of the runs, and it costs the
/// least cost.
pub proof fn lemma_opt_segments(runs: Seq<Segment>, version: Version, b: nat)
    ensures
        total_len(opt_segments(runs, version, b), version) == opt_cost(runs, version, b),
    decreases b,
{
    if b > 0 {
        lemma_opt_cost(runs, version, b);
        let a = best_split(runs, version, b);
        lemma_opt_segments(runs, version, a);
        let s = opt_segments(runs, version, a).push(span_segment(runs, a, b));
        assert(s.drop_last() =~= opt_segments(runs, version, a));
    }
}

/// The encoded length of a segment is at most 8 bits per byte plus 21.
proof fn lemma_encoded_len_bound(segment: Segment, version: Version)
    requires
        segment.begin <= segment.end,
    ensures
        segment.spec_encoded_len(version) <= (segment.end - segment.begin) * 8 + 21,
{
    let n = (segment.end - segment.begin) as nat;
    assert(segment.mode.spec_length_bits_count(version) <= 16) by {
        assert(forall|i: int, j: int|
            0 <= i < 32 && 0 <= j < 4 ==> #[trigger] crate::types::RMQR_LENGTH_BITS_COUNT[i][j]
                <= 9);
    }
    assert(segment.mode.spec_data_bits_count(segment.spec_chars_count()) <= n * 8);
}

/// Consecutive runs: a run begins no earlier than any run before it, and the
/// runs `a .. b` cover no more than all runs do.
proof fn lemma_runs_span(runs: Seq<Segment>, a: nat, b: nat)
    requires
        runs_ok(runs),
        a < b <= runs.len(),
    ensures
        runs[a as int].begin <= runs[b - 1].end,
        runs[0].begin <= runs[a as int].begin,
        runs[b - 1].end <= runs.last().end,
        span_segment(runs, a, b).spec_size_ok(),
    decreases b - a,
{
    lemma_runs_begin(runs, 0, a);
    lemma_runs_begin(runs, a, (b - 1) as nat);
    lemma_runs_begin(runs, (b - 1) as nat, (runs.len() - 1) as nat);
}

/// A run begins no earlier than the runs before it end.
proof fn lemma_runs_begin(runs: Seq<Segment>, a: nat, j: nat)
    requires
        runs_ok(runs),
        a <= j < runs.len(),
    ensures
        runs[a as int].begin <= runs[j as int].begin,
        runs[a as int].end <= runs[j as int].end,
    decreases j - a,
{
    if a < j {
        lemma_runs_begin(runs, a, (j - 1) as nat);
        assert(runs_meet(runs, j - 1));
    }
}

/// The least cost of the first `b` runs is at most 21 bits per run plus 8
/// bits per byte.
proof fn lemma_opt_cost_bound(runs: Seq<Segment>, version: Version, b: nat)
    requires
        runs_ok(runs),
        0 < b <= runs.len(),
    ensures
        opt_cost(runs, version, b) <= 21 * b + 8 * (runs[b - 1].end - runs[0].begin),
    decreases b,
{
    lemma_opt_cost(runs, version, b);
    let last = span_segment(runs, (b - 1) as nat, b);
    lemma_runs_span(runs, (b - 1) as nat, b);
    lemma_encoded_len_bound(last, version);
    if b > 1 {
        lemma_opt_cost_bound(runs, version, (b - 1) as nat);
        assert(runs_meet(runs, b - 2));
    }
}

/// The segments of `runs` joined so that the total encoded length is the
/// least possible: among all ways of joining consecutive runs into segments,
/// each in the lowest common mode of its runs, one with the least total.
pub(crate) fn optimize_segments(segments: &[Segment], version: Version) -> (r: Vec<Segment>)
    requires
        runs_ok(segments@),
    ensures
        r@ == opt_segments(segments@, version, segments@.len()),
{
    let runs = segments.len();
    if runs == 0 {
        return Vec::new();
    }
    let ghost rs = segments@;
    let mut dp: Vec<usize> = Vec::new();
    let mut back: Vec<(usize, Mode)> = Vec::new();
    assert(runs < usize::MAX);
    let mut i: usize = 0;
    while i <= runs
        invariant
            runs == rs.len(),
            runs < usize::MAX,
            i <= runs + 1,
            dp@.len() == i,
            back@.len() == i,
            forall|j: int| 0 <= j < i ==> dp@[j] == usize::MAX,
        decreases runs + 1 - i,
    {
        dp.push(usize::MAX);
        back.push((0, Mode::Numeric));
        i = i + 1;
    }
    dp.set(0, 0);
    let mut b: usize = 1;
    while b <= runs
        invariant
            runs == rs.len(),
            rs == segments@,
            runs_ok(rs),
            runs > 0,
            1 <= b <= runs + 1,
            dp@.len() == runs + 1,
            back@.len() == runs + 1,
            forall|j: int| 0 <= j < b ==> dp@[j] == opt_cost(rs, version, j as nat),
            forall|j: int| b <= j <= runs ==> dp@[j] == usize::MAX,
            forall|j: int|
                1 <= j < b ==> back@[j].0 == best_split(rs, version, j as nat) && back@[j].1
                    == span_mode(rs, best_split(rs, version, j as nat), j as nat),
        decreases runs + 1 - b,
    {
        let mut mode = segments[b - 1].mode;
        let mut a = b;
        while a > 0
            invariant
                runs == rs.len(),
                rs == segments@,
                runs_ok(rs),
                1 <= b <= runs,
                0 <= a <= b,
                dp@.len() == runs + 1,
                back@.len() == runs + 1,
                forall|j: int| 0 <= j < b ==> dp@[j] == opt_cost(rs, version, j as nat),
                forall|j: int| b < j <= runs ==> dp@[j] == usize::MAX,
                forall|j: int|
                    1 <= j < b ==> back@[j].0 == best_split(rs, version, j as nat) && back@[j].1
                        == span_mode(rs, best_split(rs, version, j as nat), j as nat),
                a < b ==> mode == span_mode(rs, a as nat, b as nat),
                a == b ==> mode == rs[b - 1].mode,
                match scan(rs, version, b as nat, a as nat) {
                    None => dp@[b as int] == usize::MAX,
                    Some((p, c)) => dp@[b as int] == c && back@[b as int].0 == p && back@[b as int].1
                        == span_mode(rs, p, b as nat),
                },
            decreases a,
        {
            a = a - 1;
            mode = mode.max(segments[a].mode);
            proof {
                lemma_runs_span(rs, a as nat, b as nat);
                if a > 0 {
                    lemma_opt_cost_bound(rs, version, a as nat);
                    lemma_runs_begin(rs, (a - 1) as nat, (runs - 1) as nat);
                }
                lemma_encoded_len_bound(span_segment(rs, a as nat, b as nat), version);
                lemma_runs_begin(rs, 0, (b - 1) as nat);
                if a + 1 < b {
                    lemma_scan(rs, version, b as nat, (a + 1) as nat);
                }
            }
            if dp[a] == usize::MAX {
                continue;
            }
            let segment = Segment { mode, begin: segments[a].begin, end: segments[b - 1].end };
            let cost = dp[a] + segment.encoded_len(version);
            if cost < dp[b] {
                dp.set(b, cost);
                back.set(b, (a, mode));
            }
        }
        b = b + 1;
    }

    // Reconstruct the segments from the backpointers.
    let mut reversed: Vec<Segment> = Vec::new();
    let ghost mut tail: Seq<Segment> = Seq::empty();
    let mut b: usize = runs;
    while b > 0
        invariant
            runs == rs.len(),
            rs == segments@,
            runs_ok(rs),
            b <= runs,
            dp@.len() == runs + 1,
            back@.len() == runs + 1,
            forall|j: int|
                1 <= j <= runs ==> back@[j].0 == best_split(rs, version, j as nat) && back@[j].1
                    == span_mode(rs, best_split(rs, version, j as nat), j as nat),
            opt_segments(rs, version, b as nat) + tail == opt_segments(rs, version, runs as nat),
            reversed@.len() == tail.len(),
            forall|j: int| 0 <= j < tail.len() ==> reversed@[j] == tail[tail.len() - 1 - j],
        decreases b,
    {
        proof {
            lemma_opt_cost(rs, version, b as nat);
        }
        let (a, mode) = back[b];
        let segment = Segment { mode, begin: segments[a].begin, end: segments[b - 1].end };
        proof {
            let prefix = opt_segments(rs, version, a as nat);
            assert(opt_segments(rs, version, b as nat) == prefix.push(segment));
            assert(prefix.push(segment) + tail =~= prefix + (seq![segment] + tail));
            tail = seq![segment] + tail;
        }
        reversed.push(segment);
        b = a;
    }
    assert(tail =~= opt_segments(rs, version, runs as nat));
    let mut result: Vec<Segment> = Vec::new();
    let mut k: usize = reversed.len();
    while k > 0
        invariant
            k <= reversed@.len(),
            reversed@.len() == tail.len(),
            forall|j: int| 0 <= j < tail.len() ==> reversed@[j] == tail[tail.len() - 1 - j],
            result@.len() == reversed@.len() - k,
            forall|j: int| 0 <= j < result@.len() ==> result@[j] == tail[j],
        decreases k,
    {
        k = k - 1;
        result.push(reversed[k]);
    }
    assert(result@ =~= tail);
    result
}

// ---------------------------------------------------------------------------
// Joined segments still fit the data.

/// The segment that joins `a` with the segment `b` that follows it, in the
/// lowest common mode of both.
pub open spec fn join(a: Segment, b: Segment) -> Segment {
    Segment { mode: a.mode.spec_max(b.mode), begin: a.begin, end: b.end }
}

/// Joining two consecutive segments that fit the data gives one that fits:
/// the lowest common mode of two modes can encode what either can.
pub proof fn lemma_join_fits(data: Seq<u8>, a: Segment, b: Segment)
    requires
        segment_fits(data, a),
        segment_fits(data, b),
        a.end == b.begin,
    ensures
        segment_fits(data, join(a, b)),
{
    let j = join(a, b);
    let x = data.subrange(a.begin as int, a.end as int);
    let y = data.subrange(b.begin as int, b.end as int);
    let z = data.subrange(a.begin as int, b.end as int);
    assert(z =~= x + y);
    crate::types::lemma_max_laws(a.mode, b.mode, b.mode);
    match j.mode {
        Mode::Numeric => {
            assert forall|i: int| 0 <= i < z.len() implies 48 <= #[trigger] z[i] <= 57 by {
                if i < x.len() {
                    assert(z[i] == x[i]);
                } else {
                    assert(z[i] == y[i - x.len()]);
                }
            }
        },
        Mode::Alphanumeric => {
            assert forall|i: int| 0 <= i < z.len() implies crate::bits::is_alphanumeric_char(
                #[trigger] z[i],
            ) by {
                if i < x.len() {
                    assert(z[i] == x[i]);
                } else {
                    assert(z[i] == y[i - x.len()]);
                }
            }
        },
        Mode::Kanji => {
            assert forall|c: int| 0 <= c < z.len() / 2 implies #[trigger] crate::bits::kanji_pair_ok(
                z[2 * c],
                z[2 * c + 1],
            ) by {
                if c < x.len() / 2 {
                    assert(crate::bits::kanji_pair_ok(x[2 * c], x[2 * c + 1]));
                } else {
                    let d = c - x.len() / 2;
                    assert(crate::bits::kanji_pair_ok(y[2 * d], y[2 * d + 1]));
                    assert(z[2 * c] == y[2 * d] && z[2 * c + 1] == y[2 * d + 1]);
                }
            }
        },
        Mode::Byte => {},
    }
}

/// The joined segment of the runs `a .. b` fits the data when each run does.
proof fn lemma_span_fits(data: Seq<u8>, runs: Seq<Segment>, a: nat, b: nat)
    requires
        runs_ok(runs),
        a < b <= runs.len(),
        forall|i: int| 0 <= i < runs.len() ==> segment_fits(data, #[trigger] runs[i]),
    ensures
        segment_fits(data, span_segment(runs, a, b)),
    decreases b - a,
{
    if a + 1 < b {
        lemma_span_fits(data, runs, a + 1, b);
        assert(runs_meet(runs, a as int));
        let rest = span_segment(runs, a + 1, b);
        lemma_join_fits(data, runs[a as int], rest);
        crate::types::lemma_max_laws(runs[a as int].mode, rest.mode, rest.mode);
        assert(join(runs[a as int], rest) == span_segment(runs, a, b));
    } else {
        assert(runs[a as int] == span_segment(runs, a, b));
    }
}

/// The chosen segmentation of the first `b` runs covers them, and each of its
/// segments fits the data.
pub proof fn lemma_opt_segments_fit(data: Seq<u8>, runs: Seq<Segment>, version: Version, b: nat)
    requires
        runs_ok(runs),
        0 < b <= runs.len(),
        forall|i: int| 0 <= i < runs.len() ==> segment_fits(data, #[trigger] runs[i]),
    ensures
        covers(opt_segments(runs, version, b), runs[0].begin as nat, runs[b - 1].end as nat),
        forall|i: int|
            0 <= i < opt_segments(runs, version, b).len() ==> segment_fits(
                data,
                #[trigger] opt_segments(runs, version, b)[i],
            ),
    decreases b,
{
    lemma_opt_cost(runs, version, b);
    let a = best_split(runs, version, b);
    let last = span_segment(runs, a, b);
    lemma_span_fits(data, runs, a, b);
    let out = opt_segments(runs, version, b);
    assert(out == opt_segments(runs, version, a).push(last));
    if a > 0 {
        lemma_opt_segments_fit(data, runs, version, a);
        assert(runs_meet(runs, a - 1));
        let prev = opt_segments(runs, version, a);
        assert(covers(seq![last], runs[a as int].begin as nat, runs[b - 1].end as nat));
        lemma_covers_concat(prev, seq![last], runs[0].begin as nat, runs[a as int].begin as nat, runs[b - 1].end as nat);
        assert(prev + seq![last] =~= out);
        assert forall|i: int| 0 <= i < out.len() implies segment_fits(data, #[trigger] out[i]) by {
            if i < prev.len() {
                assert(out[i] == prev[i]);
            }
        }
    } else {
        assert(opt_segments(runs, version, 0) =~= Seq::<Segment>::empty());
        assert(out =~= seq![last]);
    }
}

/// Consecutive non-empty segments from `from` to `to` are no more than
/// `to - from`, and each lies within that range.
pub proof fn lemma_covers_count(segments: Seq<Segment>, from: nat, to: nat, k: nat)
    requires
        covers(segments, from, to),
        forall|i: int| 0 <= i < segments.len() ==> (#[trigger] segments[i]).begin < segments[i].end,
        0 < k <= segments.len(),
    ensures
        from + k <= segments[k - 1].end,
        segments[k - 1].end <= to,
    decreases k,
{
    if k > 1 {
        lemma_covers_count(segments, from, to, (k - 1) as nat);
        assert(runs_meet(segments, k - 2));
    }
    lemma_covers_tail(segments, from, to, k);
}

/// A segment ends no later than the last one.
pub proof fn lemma_covers_tail(segments: Seq<Segment>, from: nat, to: nat, k: nat)
    requires
        covers(segments, from, to),
        forall|i: int| 0 <= i < segments.len() ==> (#[trigger] segments[i]).begin < segments[i].end,
        0 < k <= segments.len(),
    ensures
        segments[k - 1].end <= to,
    decreases segments.len() - k,
{
    if k < segments.len() {
        lemma_covers_tail(segments, from, to, k + 1);
        assert(runs_meet(segments, k - 1));
    }
}

/// The parsed runs of data are consecutive segments that can be joined.
pub proof fn lemma_parse_runs(data: Seq<u8>)
    requires
        data.len() * 48 + 64 <= usize::MAX,
    ensures
        runs_ok(parse(data)),
        forall|i: int| 0 <= i < parse(data).len() ==> segment_fits(data, #[trigger] parse(data)[i]),
        covers(parse(data), 0, data.len()),
{
    let runs = parse(data);
    lemma_parse_fits(data);
    if runs.len() > 0 {
        lemma_covers_count(runs, 0, data.len(), runs.len());
    }
}

/// Returns the optimal segmentation of `data` for the given `version`.
///
/// Unlike the greedy [`Optimizer`], this computes a globally optimal mode
/// segmentation: among all ways of joining the parsed runs into consecutive
/// segments, each in the lowest common mode of its runs, one whose total
/// encoded length is the least.
pub fn optimize(data: &[u8], version: Version) -> (r: Vec<Segment>)
    requires
        data@.len() * 48 + 64 <= usize::MAX,
    ensures
        r@ == opt_segments(parse(data@), version, parse(data@).len()),
        covers(r@, 0, data@.len()),
        forall|i: int| 0 <= i < r@.len() ==> segment_fits(data@, #[trigger] r@[i]),
{
    let segments = Parser::new(data).collect_segments();
    proof {
        lemma_parse_runs(data@);
        if segments@.len() > 0 {
            lemma_opt_segments_fit(data@, segments@, version, segments@.len());
        } else {
            assert(opt_segments(segments@, version, 0) =~= Seq::<Segment>::empty());
        }
    }
    optimize_segments(&segments, version)
}

// ---------------------------------------------------------------------------
// The greedy optimizer.

/// Whether `segments` can be given to the greedy optimizer: none ends before
/// it begins, each begins no earlier than the ones before it, and their ends
/// are small enough that no bit count overflows.
pub open spec fn in_order(segments: Seq<Segment>) -> bool {
    &&& forall|i: int|
        0 <= i < segments.len() ==> (#[trigger] segments[i]).begin <= segments[i].end
            && segments[i].end * 16 + 64 <= usize::MAX
    &&& forall|i: int, j: int|
        0 <= i <= j < segments.len() ==> (#[trigger] segments[i]).begin <= (
        #[trigger] segments[j]).begin
}

/// What the greedy optimizer gives from the segment at `i` on, with `last`
/// the segment it holds: it joins the next segment into `last` when the
/// joined one is no longer than the two apart, and else gives `last` and
/// holds the next one.
pub open spec fn greedy_from(segments: Seq<Segment>, version: Version, i: nat, last: Segment) -> Seq<
    Segment,
>
    decreases segments.len() - i,
{
    if i >= segments.len() {
        seq![last]
    } else {
        let segment = segments[i as int];
        let joined = join(last, segment);
        if last.spec_encoded_len(version) + segment.spec_encoded_len(version)
            >= joined.spec_encoded_len(version) {
            greedy_from(segments, version, i + 1, joined)
        } else {
            seq![last] + greedy_from(segments, version, i + 1, segment)
        }
    }
}

/// What the greedy optimizer gives for `segments`.
pub open spec fn greedy(segments: Seq<Segment>, version: Version) -> Seq<Segment> {
    if segments.len() == 0 {
        Seq::empty()
    } else {
        greedy_from(segments, version, 1, segments[0])
    }
}

/// QR code data optimizer.
#[derive(Debug)]
pub struct Optimizer {
    parser: Vec<Segment>,
    index: usize,
    last_segment: Segment,
    last_segment_size: usize,
    version: Version,
    ended: bool,
}

impl Optimizer {
    /// The segments given to the optimizer.
    pub closed spec fn segments(&self) -> Seq<Segment> {
        self.parser@
    }

    /// The optimizer is consistent: the segment it holds begins no later than
    /// the next one, and its size is its encoded length.
    pub closed spec fn wf(&self) -> bool {
        &&& self.index <= self.parser@.len()
        &&& in_order(self.parser@)
        &&& !self.ended ==> {
            &&& self.last_segment.begin <= self.last_segment.end
            &&& self.last_segment.end * 16 + 64 <= usize::MAX
            &&& self.last_segment_size == self.last_segment.spec_encoded_len(self.version)
            &&& self.index < self.parser@.len() ==> self.last_segment.begin
                <= self.parser@[self.index as int].begin
        }
    }

    /// The segments that the optimizer has yet to give.
    pub closed spec fn remaining(&self) -> Seq<Segment> {
        if self.ended {
            Seq::empty()
        } else {
            greedy_from(self.parser@, self.version, self.index as nat, self.last_segment)
        }
    }

    /// Optimizes the segments by combining adjacent segments when possible.
    ///
    /// Currently this method uses a greedy algorithm by combining segments from
    /// left to right until the new segment is longer than before. This method
    /// does _not_ use Annex J from the ISO standard.
    pub fn new(segments: Vec<Segment>, version: Version) -> (r: Self)
        requires
            in_order(segments@),
        ensures
            r.wf(),
            r.segments() == segments@,
            r.remaining() == greedy(segments@, version),
    {
        if segments.len() == 0 {
            Optimizer {
                parser: segments,
                index: 0,
                last_segment: Segment { mode: Mode::Numeric, begin: 0, end: 0 },
                last_segment_size: 0,
                version,
                ended: true,
            }
        } else {
            let segment = segments[0];
            let size = segment.encoded_len(version);
            Optimizer {
                parser: segments,
                index: 1,
                last_segment: segment,
                last_segment_size: size,
                version,
                ended: false,
            }
        }
    }

    /// Gives the next segment, or `None` once all are given.
    pub fn next(&mut self) -> (r: Option<Segment>)
        requires
            old(self).wf(),
        ensures
            final(self).wf(),
            final(self).segments() == old(self).segments(),
            match r {
                None => old(self).remaining().len() == 0 && final(self).remaining().len() == 0,
                Some(s) => old(self).remaining() == seq![s] + final(self).remaining(),
            },
    {
        if self.ended {
            return None;
        }
        loop
            invariant
                self.wf(),
                !self.ended,
                self.segments() == old(self).segments(),
                self.remaining() == old(self).remaining(),
            decreases self.parser@.len() - self.index,
        {
            if self.index >= self.parser.len() {
                self.ended = true;
                return Some(self.last_segment);
            }
            let segment = self.parser[self.index];
            self.index = self.index + 1;
            let seg_size = segment.encoded_len(self.version);
            let new_segment = Segment {
                mode: self.last_segment.mode.max(segment.mode),
                begin: self.last_segment.begin,
                end: segment.end,
            };
            let new_size = new_segment.encoded_len(self.version);
            if self.last_segment_size + seg_size >= new_size {
                self.last_segment = new_segment;
                self.last_segment_size = new_size;
            } else {
                let old_segment = self.last_segment;
                self.last_segment = segment;
                self.last_segment_size = seg_size;
                return Some(old_segment);
            }
        }
    }

    /// Gives all the segments that are left, in order.
    pub fn collect_segments(self) -> (r: Vec<Segment>)
        requires
            self.wf(),
        ensures
            r@ == self.remaining(),
    {
        let ghost all = self.remaining();
        let mut optimizer = self;
        let mut out: Vec<Segment> = Vec::new();
        loop
            invariant
                optimizer.wf(),
                all == self.remaining(),
                out@ + optimizer.remaining() == all,
            decreases optimizer.remaining().len(),
        {
            let ghost before = optimizer.remaining();
            match optimizer.next() {
                None => {
                    assert(out@ + before =~= out@);
                    return out;
                },
                Some(s) => {
                    assert(out@.push(s) + optimizer.remaining() =~= out@ + before);
                    out.push(s);
                },
            }
        }
    }
}

/// The total length of two runs of segments is the sum of theirs.
pub proof fn lemma_total_len_concat(a: Seq<Segment>, b: Seq<Segment>, version: Version)
    ensures
        total_len(a + b, version) == total_len(a, version) + total_len(b, version),
    decreases b.len(),
{
    if b.len() > 0 {
        lemma_total_len_concat(a, b.drop_last(), version);
        assert((a + b).drop_last() =~= a + b.drop_last());
    } else {
        assert(a + b =~= a);
    }
}

/// What the greedy optimizer gives from the segment at `i` on is no longer
/// than the segment it holds and the segments left.
proof fn lemma_greedy_from_no_longer(segments: Seq<Segment>, version: Version, i: nat, last: Segment)
    requires
        i <= segments.len(),
    ensures
        total_len(greedy_from(segments, version, i, last), version) <= last.spec_encoded_len(
            version,
        ) + total_len(segments.skip(i as int), version),
    decreases segments.len() - i,
{
    if i >= segments.len() {
        assert(seq![last].drop_last() =~= Seq::<Segment>::empty());
        assert(segments.skip(i as int) =~= Seq::<Segment>::empty());
    } else {
        let segment = segments[i as int];
        let joined = join(last, segment);
        assert(segments.skip(i as int) =~= seq![segment] + segments.skip(i + 1int));
        lemma_total_len_concat(seq![segment], segments.skip(i + 1int), version);
        assert(seq![segment].drop_last() =~= Seq::<Segment>::empty());
        if last.spec_encoded_len(version) + segment.spec_encoded_len(version)
            >= joined.spec_encoded_len(version) {
            lemma_greedy_from_no_longer(segments, version, i + 1, joined);
        } else {
            lemma_greedy_from_no_longer(segments, version, i + 1, segment);
            lemma_total_len_concat(seq![last], greedy_from(segments, version, i + 1, segment), version);
            assert(seq![last].drop_last() =~= Seq::<Segment>::empty());
        }
    }
}

/// The greedy optimizer never makes the encoding longer: its segments are
/// together no longer than the segments it was given.
pub proof fn lemma_greedy_no_longer(segments: Seq<Segment>, version: Version)
    ensures
        total_len(greedy(segments, version), version) <= total_len(segments, version),
{
    if segments.len() > 0 {
        lemma_greedy_from_no_longer(segments, version, 1, segments[0]);
        assert(segments =~= seq![segments[0]] + segments.skip(1));
        lemma_total_len_concat(seq![segments[0]], segments.skip(1), version);
        assert(seq![segments[0]].drop_last() =~= Seq::<Segment>::empty());
    }
}

impl<'a> Parser<'a> {
    /// Creates a new `Optimizer` based on this parser.
    pub fn optimize(self, version: Version) -> (r: Optimizer)
        requires
            self.wf(),
            in_order(self.remaining()),
        ensures
            r.wf(),
            r.segments() == self.remaining(),
            r.remaining() == greedy(self.remaining(), version),
    {
        Optimizer::new(self.collect_segments(), version)
    }
}

/// The optimal segmentation of data takes at most 29 bits per byte.
pub proof fn lemma_optimized_len_bound(data: Seq<u8>, version: Version)
    requires
        data.len() * 48 + 64 <= usize::MAX,
    ensures
        total_len(opt_segments(parse(data), version, parse(data).len()), version) <= 29 * data.len(),
{
    let runs = parse(data);
    lemma_parse_runs(data);
    lemma_opt_segments(runs, version, runs.len());
    if runs.len() > 0 {
        lemma_opt_cost_bound(runs, version, runs.len());
        lemma_covers_count(runs, 0, data.len(), runs.len());
    }
}

/// Dropping the last of consecutive segments leaves segments that end where
/// it begins.
pub proof fn lemma_covers_drop_last(segments: Seq<Segment>, from: nat, to: nat)
    requires
        covers(segments, from, to),
        segments.len() > 0,
    ensures
        covers(segments.drop_last(), from, segments.last().begin as nat),
{
    let d = segments.drop_last();
    if segments.len() > 1 {
        assert(runs_meet(segments, segments.len() - 2));
        assert forall|i: int| 0 <= i < d.len() - 1 implies #[trigger] runs_meet(d, i) by {
            assert(runs_meet(segments, i));
        }
    }
}

/// Segments that cover data and fit it take at most 21 bits each plus 8 bits
/// per byte in any version.
pub proof fn lemma_fitting_total_bound(data: Seq<u8>, segments: Seq<Segment>, version: Version, to: nat)
    requires
        covers(segments, 0, to),
        forall|i: int| 0 <= i < segments.len() ==> segment_fits(data, #[trigger] segments[i]),
    ensures
        total_len(segments, version) <= 21 * segments.len() + 8 * to,
        segments.len() <= to,
    decreases segments.len(),
{
    if segments.len() > 0 {
        let last = segments.last();
        assert(segment_fits(data, segments[segments.len() - 1]));
        lemma_covers_drop_last(segments, 0, to);
        let d = segments.drop_last();
        assert forall|i: int| 0 <= i < d.len() implies segment_fits(data, #[trigger] d[i]) by {
            assert(segment_fits(data, segments[i]));
        }
        lemma_fitting_total_bound(data, d, version, last.begin as nat);
        lemma_encoded_len_bound(last, version);
    }
}

} // verus!
