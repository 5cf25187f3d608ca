//! Select mask with the lowest penalty score.

use vstd::prelude::*;

use super::grid::{Canvas, format_drawable, mask_applied};
use super::mask::MaskPattern;
use super::penalty::{penalty_in_range, total_penalty};
use crate::types::Version;

verus! {

/// The mask patterns of QR code.
pub const ALL_PATTERNS_QR: [MaskPattern; 8] = [
    MaskPattern::Checkerboard,
    MaskPattern::HorizontalLines,
    MaskPattern::VerticalLines,
    MaskPattern::DiagonalLines,
    MaskPattern::LargeCheckerboard,
    MaskPattern::Fields,
    MaskPattern::Diamonds,
    MaskPattern::Meadow,
];

/// The mask patterns of Micro QR code.
pub const ALL_PATTERNS_MICRO_QR: [MaskPattern; 4] = [
    MaskPattern::HorizontalLines,
    MaskPattern::LargeCheckerboard,
    MaskPattern::Diamonds,
    MaskPattern::Meadow,
];

/// The mask patterns of rMQR code.
pub const ALL_PATTERNS_RMQR: [MaskPattern; 1] = [MaskPattern::LargeCheckerboard];

/// The mask patterns tried on a symbol of `version`, in order.
pub open spec fn mask_candidates(version: Version) -> Seq<MaskPattern> {
    match version {
        Version::Normal(_) => ALL_PATTERNS_QR@,
        Version::Micro(_) => ALL_PATTERNS_MICRO_QR@,
        Version::RectMicro(_) => ALL_PATTERNS_RMQR@,
    }
}

/// The total penalty score of the canvas after the mask of `pattern`.
pub open spec fn mask_penalty(canvas: Canvas, pattern: MaskPattern) -> int {
    total_penalty(mask_applied(canvas, pattern), canvas.spec_width(), canvas.spec_version())
}

/// The position, among the first `n` candidates, of the first one with the
/// lowest penalty score.
pub open spec fn best_index(canvas: Canvas, n: nat) -> nat
    decreases n,
{
    if n <= 1 {
        0
    } else {
        let best = best_index(canvas, (n - 1) as nat);
        let candidates = mask_candidates(canvas.spec_version());
        if mask_penalty(canvas, candidates[n - 1]) < mask_penalty(canvas, candidates[best as int]) {
            (n - 1) as nat
        } else {
            best
        }
    }
}

/// The mask pattern with the lowest penalty score, the first one on a tie.
pub open spec fn best_mask(canvas: Canvas) -> MaskPattern {
    let candidates = mask_candidates(canvas.spec_version());
    candidates[best_index(canvas, candidates.len()) as int]
}

/// Every candidate mask can be applied, and its penalty score computed.
pub open spec fn masks_ok(canvas: Canvas) -> bool {
    forall|k: int|
        0 <= k < mask_candidates(canvas.spec_version()).len() ==> {
            let p = #[trigger] mask_candidates(canvas.spec_version())[k];
            &&& format_drawable(canvas.spec_version(), canvas.spec_ec_level(), p)
            &&& penalty_in_range(mask_applied(canvas, p), canvas.spec_width(), canvas.spec_version())
        }
}

/// The best mask is one of the candidates: its penalty score is the lowest,
/// and every candidate before it has a higher one.
pub proof fn lemma_best_index(canvas: Canvas, n: nat)
    requires
        1 <= n <= mask_candidates(canvas.spec_version()).len(),
    ensures
        best_index(canvas, n) < n,
        forall|k: int|
            0 <= k < n ==> mask_penalty(
                canvas,
                mask_candidates(canvas.spec_version())[best_index(canvas, n) as int],
            ) <= mask_penalty(canvas, #[trigger] mask_candidates(canvas.spec_version())[k]),
        forall|k: int|
            0 <= k < best_index(canvas, n) ==> mask_penalty(
                canvas,
                mask_candidates(canvas.spec_version())[best_index(canvas, n) as int],
            ) < mask_penalty(canvas, #[trigger] mask_candidates(canvas.spec_version())[k]),
    decreases n,
{
    if n > 1 {
        lemma_best_index(canvas, (n - 1) as nat);
    }
}

impl Canvas {
    /// Constructs a new canvas and apply the best masking that gives the lowest
    /// penalty score.
    pub fn apply_best_mask(&self) -> (r: Self)
        requires
            self.wf(),
            masks_ok(*self),
        ensures
            r.wf(),
            self.same_shape(&r),
            r.spec_modules() == mask_applied(*self, best_mask(*self)),
    {
        let patterns: &[MaskPattern] = match self.version() {
            Version::Normal(_) => ALL_PATTERNS_QR.as_slice(),
            Version::Micro(_) => ALL_PATTERNS_MICRO_QR.as_slice(),
            Version::RectMicro(_) => ALL_PATTERNS_RMQR.as_slice(),
        };
        let ghost candidates = mask_candidates(self.spec_version());
        assert(patterns@ == candidates);
        let mut best = self.duplicate();
        best.apply_mask(patterns[0]);
        let mut best_score = best.compute_total_penalty_scores();
        let mut k: usize = 1;
        while k < patterns.len()
            invariant
                self.wf(),
                masks_ok(*self),
                patterns@ == candidates,
                candidates == mask_candidates(self.spec_version()),
                1 <= k <= patterns@.len(),
                best.wf(),
                self.same_shape(&best),
                best.spec_modules() == mask_applied(*self, candidates[best_index(*self, k as nat) as int]),
                best_score == mask_penalty(*self, candidates[best_index(*self, k as nat) as int]),
            decreases patterns@.len() - k,
        {
            let mut c = self.duplicate();
            assert(mask_candidates(self.spec_version())[k as int] == patterns@[k as int]);
            c.apply_mask(patterns[k]);
            let score = c.compute_total_penalty_scores();
            if score < best_score {
                best = c;
                best_score = score;
            }
            k = k + 1;
        }
        best
    }
}

} // verus!
