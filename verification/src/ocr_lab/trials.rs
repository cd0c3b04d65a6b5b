//! Trying several ways of reading a picture, and ranking what they found.

use crate::imaging;
use crate::imaging::{resize_gray, MAX_SIDE};
use crate::ocr_lab::components::{Component, ComponentView};
use crate::ocr_lab::engine::Psm;
use crate::ocr_lab::raster;
use crate::ocr_lab::raster::Gray;
use crate::ocr_lab::templates;
use crate::ocr_lab::templates::{score, Score, Template};
use crate::sorting;
use crate::sorting::{sort_stably, Ranked};
use crate::state::progress;
use crate::text;
use crate::text::{chars_of, same_text};
use vstd::prelude::*;

verus! {

/// How many ways of reading a strip of digits are tried.
pub const PASSES: u32 = 60;

/// One way of reading a strip of digits.
#[derive(Debug, Clone, Copy, PartialEq, Eq, Structural)]
pub struct DigitPass {
    /// How bright a pixel has to be for it to count as text.
    pub lum: u8,
    /// How many times the strip is enlarged.
    pub scale: u32,
    pub psm: Psm,
}

/// The segmentation of the `k`th pass at one size.
pub open spec fn psm_at(k: int) -> Psm {
    if k == 0 {
        Psm::Line
    } else if k == 1 {
        Psm::Word
    } else {
        Psm::Sparse
    }
}

/// The `i`th pass: five brightnesses, at each four sizes, at each three
/// segmentations.
pub open spec fn pass_at(i: int) -> DigitPass {
    DigitPass {
        lum: (120 + 20 * (i / 12)) as u8,
        scale: (2 + 2 * (i / 3 % 4)) as u32,
        psm: psm_at(i % 3),
    }
}

/// The ways of reading a strip of digits, in the order in which they are
/// tried.
pub fn digit_passes() -> (r: Vec<DigitPass>)
    ensures
        r@ == Seq::new(PASSES as nat, |i: int| pass_at(i)),
{
    let ghost all = Seq::new(PASSES as nat, |i: int| pass_at(i));
    let mut r: Vec<DigitPass> = Vec::new();
    let mut i: u32 = 0;
    while i < PASSES
        invariant
            i <= PASSES,
            all == Seq::new(PASSES as nat, |i: int| pass_at(i)),
            r@ == all.take(i as int),
        decreases PASSES - i,
    {
        let lum: u8 = (120 + 20 * (i / 12)) as u8;
        let scale: u32 = 2 + 2 * (i / 3 % 4);
        let psm: Psm = match i % 3 {
            0 => Psm::Line,
            1 => Psm::Word,
            _ => Psm::Sparse,
        };
        r.push(DigitPass { lum, scale, psm });
        assert(all.take(i + 1) =~= all.take(i as int).push(pass_at(i as int)));
        i += 1;
    }
    assert(all.take(PASSES as int) =~= all);
    r
}

/// The white border around a strip of digits that is tried.
pub const STRIP_BORDER: u32 = 30;

/// A strip of digits as a pass reads it: `scale` times as large, with a white
/// border.
pub fn digit_strip(small: &Gray, scale: u32) -> (r: Gray)
    requires
        small.wf(),
        small.w > 0,
        small.h > 0,
        scale > 0,
        scale * small.w <= MAX_SIDE,
        scale * small.h <= MAX_SIDE,
        (scale * small.w + 2 * STRIP_BORDER) * (scale * small.h + 2 * STRIP_BORDER) <= u32::MAX,
    ensures
        exists|big: Gray|
            big.wf() && big.w == scale * small.w && big.h == scale * small.h
                && imaging::resize_may_give(
                imaging::gray_view(*small),
                (big.w, big.h),
                imaging::gray_view(big),
            ) && #[trigger] raster::is_framed(big, STRIP_BORDER, r),
{
    let w: u32 = scale * small.w;
    let h: u32 = scale * small.h;
    assert(w * small.h == h * small.w) by (nonlinear_arith)
        requires
            w == scale * small.w,
            h == scale * small.h,
    ;
    assert(0 < small.w <= w && 0 < small.h <= h) by (nonlinear_arith)
        requires
            w == scale * small.w,
            h == scale * small.h,
            scale > 0,
            small.w > 0,
            small.h > 0,
    ;
    assert(w * h <= (w + 60) * (h + 60)) by (nonlinear_arith);
    let big: Gray = resize_gray(small, w, h);
    big.framed(STRIP_BORDER)
}

/// Whether a pass read what was expected, where anything was.
pub fn reads_as_expected(read: &str, expected: &str) -> (r: bool)
    ensures
        r == (expected@.len() > 0 && read@ == expected@),
{
    let chars: Vec<char> = chars_of(expected);
    chars.len() > 0 && same_text(read, expected)
}

/// The characters that the clusters of a strip are to be stored as, one each,
/// where there are as many clusters as characters.
pub fn labels_for(clusters: usize, expected: &str) -> (r: Option<Vec<char>>)
    ensures
        match r {
            Some(labels) => clusters == expected@.len() && labels@ == expected@,
            None => clusters != expected@.len(),
        },
{
    let chars: Vec<char> = chars_of(expected);
    if chars.len() == clusters {
        Some(chars)
    } else {
        None
    }
}

/// How much one of several variants found.
#[derive(Debug, Clone, Copy, PartialEq, Eq, Structural)]
pub struct Tried {
    pub at: usize,
    pub found: usize,
}

impl View for Tried {
    type V = Tried;

    open spec fn view(&self) -> Tried {
        *self
    }
}

impl Ranked for Tried {
    open spec fn precedes(a: Tried, b: Tried) -> bool {
        a.found > b.found
    }

    proof fn precedes_irreflexive(a: Tried) {
    }

    proof fn precedes_asymmetric(a: Tried, b: Tried) {
    }

    proof fn precedes_negatively_transitive(a: Tried, b: Tried, c: Tried) {
    }

    fn is_before(&self, other: &Self) -> (r: bool) {
        self.found > other.found
    }
}

/// The variants with how much each found.
pub open spec fn tries(found: Seq<usize>) -> Seq<Tried> {
    Seq::new(found.len(), |i: int| Tried { at: i as usize, found: found[i] })
}

/// The variants, those that found most first; of those that found as much,
/// the earlier first.
pub fn rank_variants(found: &Vec<usize>) -> (r: Vec<Tried>)
    ensures
        r@ == sorting::in_order::<Tried>(tries(found@)),
{
    let ghost all = tries(found@);
    let mut v: Vec<Tried> = Vec::new();
    let mut i: usize = 0;
    while i < found.len()
        invariant
            i <= found@.len(),
            all == tries(found@),
            v@ == all.take(i as int),
        decreases found@.len() - i,
    {
        v.push(Tried { at: i, found: found[i] });
        assert(all.take(i + 1) =~= all.take(i as int).push(all[i as int]));
        i += 1;
    }
    assert(all.take(all.len() as int) =~= all);
    assert(sorting::views(v@) =~= all);
    let r: Vec<Tried> = sort_stably(v);
    assert(sorting::views(r@) =~= r@);
    r
}

/// How well a glyph matches a cluster.
#[derive(Debug, Clone, Copy, PartialEq, Eq, Structural)]
pub struct Match {
    pub label: char,
    pub score: Score,
}

impl View for Match {
    type V = Match;

    open spec fn view(&self) -> Match {
        *self
    }
}

/// A score that compares: one of nothing counts as no agreement.
pub open spec fn comparable(s: Score) -> Score {
    if s.total == 0 {
        Score { agree: 0, total: 1 }
    } else {
        s
    }
}

proof fn lemma_beats_negatively_transitive(a: Score, b: Score, c: Score)
    requires
        b.total > 0,
        !b.beats(a),
        !c.beats(b),
    ensures
        !c.beats(a),
{
    let (ag, at, bg, bt, cg, ct) = (
        a.agree as int,
        a.total as int,
        b.agree as int,
        b.total as int,
        c.agree as int,
        c.total as int,
    );
    assert(cg * at <= ag * ct) by (nonlinear_arith)
        requires
            0 <= ag,
            0 <= at,
            0 <= bg,
            0 < bt,
            0 <= cg,
            0 <= ct,
            bg * at <= ag * bt,
            cg * bt <= bg * ct,
    {
        assert((cg * at) * bt == (cg * bt) * at);
        assert((cg * bt) * at <= (bg * ct) * at);
        assert((bg * ct) * at == (bg * at) * ct);
        assert((bg * at) * ct <= (ag * bt) * ct);
        assert((ag * bt) * ct == (ag * ct) * bt);
    }
}

impl Ranked for Match {
    open spec fn precedes(a: Match, b: Match) -> bool {
        comparable(a.score).beats(comparable(b.score))
    }

    proof fn precedes_irreflexive(a: Match) {
    }

    proof fn precedes_asymmetric(a: Match, b: Match) {
    }

    proof fn precedes_negatively_transitive(a: Match, b: Match, c: Match) {
        lemma_beats_negatively_transitive(
            comparable(a.score),
            comparable(b.score),
            comparable(c.score),
        );
    }

    fn is_before(&self, other: &Self) -> (r: bool) {
        let (ag, at): (u32, u32) = if self.score.total == 0 {
            (0, 1)
        } else {
            (self.score.agree, self.score.total)
        };
        let (bg, bt): (u32, u32) = if other.score.total == 0 {
            (0, 1)
        } else {
            (other.score.agree, other.score.total)
        };
        proof {
            progress::lemma_product_fits(ag, bt);
            progress::lemma_product_fits(bg, at);
        }
        ag as u64 * bt as u64 > bg as u64 * at as u64
    }
}

/// How well each of the glyphs matches a cluster.
pub open spec fn matches_of(c: ComponentView, ts: Seq<Template>) -> Seq<Match> {
    Seq::new(ts.len(), |i: int| Match { label: ts[i].label, score: templates::score_of(c, ts[i]) })
}

/// How well the glyphs match a cluster, the best first; of those that match
/// as well, the earlier first.
pub fn rank_matches(comp: &Component, ts: &Vec<Template>) -> (r: Vec<Match>)
    requires
        comp@.wf(),
        templates::glyphs_wf(ts@),
    ensures
        r@ == sorting::in_order::<Match>(matches_of(comp@, ts@)),
{
    let ghost all = matches_of(comp@, ts@);
    let mut v: Vec<Match> = Vec::new();
    let mut i: usize = 0;
    while i < ts.len()
        invariant
            i <= ts@.len(),
            comp@.wf(),
            templates::glyphs_wf(ts@),
            all == matches_of(comp@, ts@),
            v@ == all.take(i as int),
        decreases ts@.len() - i,
    {
        v.push(Match { label: ts[i].label, score: score(comp, &ts[i]) });
        assert(all.take(i + 1) =~= all.take(i as int).push(all[i as int]));
        i += 1;
    }
    assert(all.take(all.len() as int) =~= all);
    assert(sorting::views(v@) =~= all);
    let r: Vec<Match> = sort_stably(v);
    assert(sorting::views(r@) =~= r@);
    r
}

} // verus!
