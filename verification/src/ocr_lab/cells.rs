//! Where in a panel the cells of the items lie.

use crate::ocr_lab::geometry;
use crate::ocr_lab::panel_rect;
use crate::ocr_lab::engine::{BBox, Word, WordView};
use crate::ocr_lab::geometry::{boxes_where, clamp_bbox, median_of, sort_numbers, SPAN};
use crate::sorting;
use crate::sorting::{sort_stably, Ranked};
use crate::text;
use crate::text::{same_text, to_ascii_upper};
use vstd::prelude::*;

verus! {

/// Whether a word reads "FROM", or as that is misread.
pub open spec fn like_from(t: Seq<char>) -> bool {
    let up = text::ascii_uppered(t);
    up == "FROM"@ || up == "FROM."@ || up == "FRDM"@ || up == "FROW"@
}

/// Whether a word reads "RAID", or as that is misread.
pub open spec fn like_raid(t: Seq<char>) -> bool {
    let up = text::ascii_uppered(t);
    up == "RAID"@ || up == "RAID."@ || up == "RAIO"@ || up == "RAID:"@
}

/// Whether a word reads "FROM", or as that is misread.
pub fn looks_like_from(t: &str) -> (r: bool)
    ensures
        r == like_from(t@),
{
    let up: String = to_ascii_upper(t);
    same_text(&up, "FROM") || same_text(&up, "FROM.") || same_text(&up, "FRDM") || same_text(
        &up,
        "FROW",
    )
}

/// Whether a word reads "RAID", or as that is misread.
pub fn looks_like_raid(t: &str) -> (r: bool)
    ensures
        r == like_raid(t@),
{
    let up: String = to_ascii_upper(t);
    same_text(&up, "RAID") || same_text(&up, "RAID.") || same_text(&up, "RAIO") || same_text(
        &up,
        "RAID:",
    )
}

fn is_from(w: &Word) -> (r: bool)
    ensures
        r == like_from(w@.text),
{
    looks_like_from(&w.text)
}

fn is_raid(w: &Word) -> (r: bool)
    ensures
        r == like_raid(w@.text),
{
    looks_like_raid(&w.text)
}

/// A word "FROM" with its "RAID".
#[derive(Debug, Clone, Copy, PartialEq, Eq, Structural)]
pub struct Pair {
    pub from: BBox,
    pub raid: BBox,
}

impl View for Pair {
    type V = Pair;

    open spec fn view(&self) -> Pair {
        *self
    }
}

/// Pairs come from left to right.
impl Ranked for Pair {
    open spec fn precedes(a: Pair, b: Pair) -> bool {
        a.from.x < b.from.x
    }

    proof fn precedes_irreflexive(a: Pair) {
    }

    proof fn precedes_asymmetric(a: Pair, b: Pair) {
    }

    proof fn precedes_negatively_transitive(a: Pair, b: Pair, c: Pair) {
    }

    fn is_before(&self, other: &Self) -> (r: bool) {
        self.from.x < other.from.x
    }
}

/// Whether `r` stands on the line of `f`, close behind it.
pub open spec fn follows(f: BBox, r: BBox) -> bool {
    let dx = r.x - f.right();
    &&& geometry::distance(r.y + r.h as int / 2, f.y + f.h as int / 2) < f.h
    &&& -(f.w as int / 2) < dx < f.w * 3
}

/// How far `r` starts from the end of `f`.
pub open spec fn apart(f: BBox, r: BBox) -> int {
    geometry::distance(r.x as int, f.right())
}

/// The word of `raids` that belongs to `f`: the nearest one, the first of
/// several.
pub open spec fn nearest(f: BBox, raids: Seq<BBox>) -> Option<BBox>
    decreases raids.len(),
{
    if raids.len() == 0 {
        None
    } else {
        let before = nearest(f, raids.drop_last());
        let r = raids.last();
        if follows(f, r) && match before {
            None => true,
            Some(b) => apart(f, r) < apart(f, b),
        } {
            Some(r)
        } else {
            before
        }
    }
}

fn nearest_raid(f: &BBox, raids: &Vec<BBox>) -> (r: Option<BBox>)
    requires
        f.fits(),
        geometry::boxes_fit(raids@),
    ensures
        r == nearest(*f, raids@),
        r matches Some(b) ==> b.fits(),
{
    let ghost all = raids@;
    let mut best: Option<BBox> = None;
    let mut best_apart: i64 = 0;
    let mid: i64 = f.y as i64 + f.h as i64 / 2;
    let end: i64 = f.x as i64 + f.w as i64;
    let half: i64 = f.w as i64 / 2;
    let mut i: usize = 0;
    while i < raids.len()
        invariant
            i <= raids@.len(),
            all == raids@,
            f.fits(),
            geometry::boxes_fit(all),
            mid == f.y + f.h as int / 2,
            end == f.right(),
            half == f.w as int / 2,
            best == nearest(*f, all.take(i as int)),
            best matches Some(b) ==> b.fits() && best_apart == apart(*f, b),
        decreases raids@.len() - i,
    {
        let r: BBox = raids[i];
        assert(all[i as int].fits());
        assert(all.take(i + 1).drop_last() =~= all.take(i as int));
        let r_mid: i64 = r.y as i64 + r.h as i64 / 2;
        let dy: i64 = if r_mid < mid {
            mid - r_mid
        } else {
            r_mid - mid
        };
        let dx: i64 = r.x as i64 - end;
        let d: i64 = if dx < 0 {
            -dx
        } else {
            dx
        };
        if dy < f.h as i64 && dx > -half && dx < f.w as i64 * 3 && (best.is_none() || d
            < best_apart) {
            best = Some(r);
            best_apart = d;
        }
        i += 1;
    }
    assert(all.take(i as int) =~= all);
    best
}

/// Each "FROM" that has a "RAID", with it.
pub open spec fn paired(froms: Seq<BBox>, raids: Seq<BBox>) -> Seq<Pair>
    decreases froms.len(),
{
    if froms.len() == 0 {
        Seq::empty()
    } else {
        let before = paired(froms.drop_last(), raids);
        match nearest(froms.last(), raids) {
            Some(raid) => before.push(Pair { from: froms.last(), raid }),
            None => before,
        }
    }
}

/// The pairs without those that start where the one before them does.
pub open spec fn thinned(ps: Seq<Pair>) -> Seq<Pair>
    decreases ps.len(),
{
    if ps.len() == 0 {
        Seq::empty()
    } else {
        let before = thinned(ps.drop_last());
        if before.len() > 0 && before.last().from.x == ps.last().from.x {
            before
        } else {
            before.push(ps.last())
        }
    }
}

/// Whether every pair lies within reach.
pub open spec fn pairs_fit(ps: Seq<Pair>) -> bool {
    forall|i: int| 0 <= i < ps.len() ==> (#[trigger] ps[i]).from.fits() && ps[i].raid.fits()
}

/// The labels "FROM RAID" that were read, from left to right.
pub open spec fn labels(ws: Seq<WordView>) -> Seq<Pair> {
    let froms = geometry::boxes(geometry::kept(ws, |w: WordView| like_from(w.text)));
    let raids = geometry::boxes(geometry::kept(ws, |w: WordView| like_raid(w.text)));
    thinned(sorting::in_order::<Pair>(paired(froms, raids)))
}

fn pair_up(froms: &Vec<BBox>, raids: &Vec<BBox>) -> (r: Vec<Pair>)
    requires
        geometry::boxes_fit(froms@),
        geometry::boxes_fit(raids@),
    ensures
        r@ == paired(froms@, raids@),
        pairs_fit(r@),
{
    let ghost all = froms@;
    let mut r: Vec<Pair> = Vec::new();
    let mut i: usize = 0;
    while i < froms.len()
        invariant
            i <= froms@.len(),
            all == froms@,
            geometry::boxes_fit(all),
            geometry::boxes_fit(raids@),
            r@ == paired(all.take(i as int), raids@),
            pairs_fit(r@),
        decreases froms@.len() - i,
    {
        assert(all[i as int].fits());
        assert(all.take(i + 1).drop_last() =~= all.take(i as int));
        if let Some(raid) = nearest_raid(&froms[i], raids) {
            r.push(Pair { from: froms[i], raid });
        }
        i += 1;
    }
    assert(all.take(i as int) =~= all);
    r
}

fn thin(ps: &Vec<Pair>) -> (r: Vec<Pair>)
    requires
        pairs_fit(ps@),
    ensures
        r@ == thinned(ps@),
        pairs_fit(r@),
        ps@.len() > 0 ==> r@.len() > 0,
{
    let ghost all = ps@;
    let mut r: Vec<Pair> = Vec::new();
    let mut i: usize = 0;
    while i < ps.len()
        invariant
            i <= ps@.len(),
            all == ps@,
            pairs_fit(all),
            r@ == thinned(all.take(i as int)),
            pairs_fit(r@),
            i > 0 ==> r@.len() > 0,
        decreases ps@.len() - i,
    {
        let p: Pair = ps[i];
        assert(all[i as int].from.fits());
        assert(all.take(i + 1).drop_last() =~= all.take(i as int));
        let n: usize = r.len();
        if n == 0 || r[n - 1].from.x != p.from.x {
            r.push(p);
        }
        i += 1;
    }
    assert(all.take(i as int) =~= all);
    r
}

fn find_labels(words: &Vec<Word>) -> (r: Vec<Pair>)
    requires
        geometry::words_fit(sorting::views(words@)),
    ensures
        r@ == labels(sorting::views(words@)),
        pairs_fit(r@),
{
    broadcast use vstd::seq_lib::group_to_multiset_ensures;

    let ghost pf = |w: WordView| like_from(w.text);
    let ghost pr = |w: WordView| like_raid(w.text);
    let froms: Vec<BBox> = boxes_where(words, is_from, Ghost(pf));
    let raids: Vec<BBox> = boxes_where(words, is_raid, Ghost(pr));
    let pairs: Vec<Pair> = pair_up(&froms, &raids);
    let ghost before = pairs@;
    assert(sorting::views(before) =~= before);
    let sorted: Vec<Pair> = sort_stably(pairs);
    assert(sorting::views(sorted@) =~= sorted@);
    proof {
        sorting::lemma_in_order::<Pair>(before);
        assert forall|i: int| 0 <= i < sorted@.len() implies (#[trigger] sorted@[i]).from.fits()
            && sorted@[i].raid.fits() by {
            assert(sorted@.to_multiset().count(sorted@[i]) > 0);
            assert(before.to_multiset().count(sorted@[i]) > 0);
            assert(before.contains(sorted@[i]));
            let j = choose|j: int| 0 <= j < before.len() && before[j] == sorted@[i];
            assert(before[j].from.fits());
        }
    }
    thin(&sorted)
}

/// How far each label reaches down from its upper edge.
pub open spec fn label_heights(ps: Seq<Pair>) -> Seq<int> {
    Seq::new(
        ps.len(),
        |i: int|
            panel_rect::larger(ps[i].from.bottom(), ps[i].raid.bottom()) - ps[i].from.y,
    )
}

/// The upper edges of the labels.
pub open spec fn label_tops(ps: Seq<Pair>) -> Seq<int> {
    Seq::new(ps.len(), |i: int| ps[i].from.y as int)
}

/// The middle of a label.
pub open spec fn label_middle(p: Pair) -> u32 {
    ((p.from.x + p.raid.right()) / 2) as u32
}

/// The middles of the labels.
pub open spec fn label_middles(ps: Seq<Pair>) -> Seq<u32> {
    Seq::new(ps.len(), |i: int| label_middle(ps[i]))
}

/// The differences of neighbouring numbers.
pub open spec fn steps(s: Seq<u32>) -> Seq<u32> {
    Seq::new((s.len() - 1) as nat, |i: int| (s[i + 1] - s[i]) as u32)
}

/// The distance from one cell to the next.
pub open spec fn pitch_of(centers: Seq<u32>, cell_h: int) -> int {
    if centers.len() >= 2 {
        geometry::median(steps(centers)) as int
    } else {
        panel_rect::larger(cell_h * 7, 40)
    }
}

/// The middles of the cells, with a missing one at the right or at the left
/// where it would fit: a panel has three or four.
pub open spec fn completed(centers: Seq<u32>, pitch: int, pw: u32) -> Seq<u32> {
    if centers.len() < 4 && pitch > 0 {
        let right = centers.last() + pitch;
        let more = if right + pitch / 2 < pw {
            centers.push(right as u32)
        } else {
            centers
        };
        let all = if centers[0] > pitch && more.len() < 4 {
            seq![(centers[0] - pitch) as u32] + more
        } else {
            more
        };
        geometry::ascending(all)
    } else {
        centers
    }
}

/// The cell around the middle number `i`: it reaches half-way to its
/// neighbours.
pub open spec fn cell_at(
    centers: Seq<u32>,
    i: int,
    pitch: int,
    top: int,
    bottom: int,
    pw: u32,
    ph: u32,
) -> BBox {
    let c = centers[i] as int;
    let left = if i == 0 {
        geometry::clip(c - pitch / 2, c)
    } else {
        (centers[i - 1] + c) / 2
    };
    let right = if i + 1 < centers.len() {
        (c + centers[i + 1]) / 2
    } else {
        c + pitch / 2
    };
    geometry::clamped(pw, ph, left, top, right, bottom)
}

/// Four columns of the lower half of the panel.
pub open spec fn even_cells(pw: u32, ph: u32) -> Seq<BBox> {
    Seq::new(
        4,
        |i: int|
            geometry::clamped(
                pw,
                ph,
                pw * i / 4,
                ph as int / 2,
                pw * (i + 1) / 4,
                ph * 9 / 10,
            ),
    )
}

/// The cells of a panel: over each label "FROM RAID", five times as high as
/// the label, and where no label was read, four even columns.
pub open spec fn cells_of(ws: Seq<WordView>, pw: u32, ph: u32) -> Seq<BBox> {
    let ps = labels(ws);
    if ps.len() == 0 {
        even_cells(pw, ph)
    } else {
        let label_top = geometry::lowest(label_tops(ps));
        let cell_h = geometry::highest(label_heights(ps));
        let top = geometry::clip(label_top - cell_h * 5, label_top);
        let bottom = label_top + cell_h;
        let found = geometry::ascending(label_middles(ps));
        let pitch = pitch_of(found, cell_h);
        let centers = completed(found, pitch, pw);
        Seq::new(
            centers.len(),
            |i: int| cell_at(centers, i, pitch, top, bottom, pw, ph),
        )
    }
}

/// Four columns of the lower half of the panel.
pub fn fallback_cells(pw: u32, ph: u32) -> (r: Vec<BBox>)
    requires
        pw <= SPAN,
        ph <= SPAN,
    ensures
        r@ == even_cells(pw, ph),
        geometry::boxes_fit(r@),
{
    let top: u32 = ph / 2;
    let bottom: u32 = ph * 9 / 10;
    let mut r: Vec<BBox> = Vec::new();
    let mut i: u32 = 0;
    while i < 4
        invariant
            i <= 4,
            pw <= SPAN,
            ph <= SPAN,
            top == ph / 2,
            bottom == ph * 9 / 10,
            r@ == even_cells(pw, ph).take(i as int),
            geometry::boxes_fit(r@),
        decreases 4 - i,
    {
        assert(0 <= pw * i <= pw * (i + 1) <= 4 * SPAN) by (nonlinear_arith)
            requires
                0 <= pw <= SPAN,
                0 <= i < 4,
        ;
        let l: u32 = pw * i / 4;
        let e: u32 = pw * (i + 1) / 4;
        r.push(clamp_bbox(pw, ph, l as i32, top as i32, e as i32, bottom as i32));
        assert(r@ =~= even_cells(pw, ph).take(i + 1));
        i += 1;
    }
    assert(even_cells(pw, ph).take(4) =~= even_cells(pw, ph));
    r
}

struct LabelRow {
    top: u32,
    height: u32,
    middles: Vec<u32>,
}

fn label_row(ps: &Vec<Pair>) -> (r: LabelRow)
    requires
        ps@.len() > 0,
        pairs_fit(ps@),
    ensures
        r.top == geometry::lowest(label_tops(ps@)),
        r.height == geometry::highest(label_heights(ps@)),
        r.middles@ == label_middles(ps@),
        r.top <= SPAN,
        r.height <= SPAN,
        forall|i: int| 0 <= i < r.middles@.len() ==> #[trigger] r.middles@[i] <= SPAN,
{
    let ghost all = ps@;
    let mut middles: Vec<u32> = Vec::new();
    let mut top: u32 = 0;
    let mut height: u32 = 0;
    let mut i: usize = 0;
    while i < ps.len()
        invariant
            i <= ps@.len(),
            all == ps@,
            pairs_fit(all),
            middles@ == label_middles(all.take(i as int)),
            top <= SPAN,
            height <= SPAN,
            forall|j: int| 0 <= j < middles@.len() ==> #[trigger] middles@[j] <= SPAN,
            i > 0 ==> top == geometry::lowest(label_tops(all.take(i as int))),
            i > 0 ==> height == geometry::highest(label_heights(all.take(i as int))),
        decreases ps@.len() - i,
    {
        let p: Pair = ps[i];
        assert(all[i as int].from.fits() && all[i as int].raid.fits());
        let ghost old = all.take(i as int);
        let ghost new = all.take(i + 1);
        proof {
            assert(label_tops(new).drop_last() =~= label_tops(old));
            assert(label_heights(new).drop_last() =~= label_heights(old));
        }
        let fb: u32 = p.from.y + p.from.h;
        let rb: u32 = p.raid.y + p.raid.h;
        let h: u32 = if fb < rb {
            rb - p.from.y
        } else {
            fb - p.from.y
        };
        if i == 0 || p.from.y < top {
            top = p.from.y;
        }
        if i == 0 || h > height {
            height = h;
        }
        middles.push((p.from.x + (p.raid.x + p.raid.w)) / 2);
        assert(middles@ =~= label_middles(new));
        i += 1;
    }
    assert(all.take(i as int) =~= all);
    LabelRow { top, height, middles }
}

/// The differences of neighbouring numbers.
pub fn steps_between(centers: &Vec<u32>) -> (gaps: Vec<u32>)
    requires
        centers@.len() > 0,
        forall|i: int| 0 <= i < centers@.len() ==> #[trigger] centers@[i] <= 4 * SPAN,
        forall|i: int, j: int|
            0 <= i <= j < centers@.len() ==> #[trigger] centers@[i] <= #[trigger] centers@[j],
    ensures
        gaps@ == steps(centers@),
        forall|i: int| 0 <= i < gaps@.len() ==> #[trigger] gaps@[i] <= 4 * SPAN,
{
    let n: usize = centers.len();
    let mut gaps: Vec<u32> = Vec::new();
    let mut i: usize = 0;
    while i + 1 < n
        invariant
            n == centers@.len(),
            i < n,
            gaps@ == steps(centers@).take(i as int),
            forall|k: int| 0 <= k < centers@.len() ==> #[trigger] centers@[k] <= 4 * SPAN,
            forall|k: int| 0 <= k < gaps@.len() ==> #[trigger] gaps@[k] <= 4 * SPAN,
            forall|k: int, j: int|
                0 <= k <= j < centers@.len() ==> #[trigger] centers@[k] <= #[trigger] centers@[j],
        decreases n - i,
    {
        assert(centers@[i as int] <= centers@[i + 1]);
        gaps.push(centers[i + 1] - centers[i]);
        assert(gaps@ =~= steps(centers@).take(i + 1));
        i += 1;
    }
    assert(steps(centers@).take(i as int) =~= steps(centers@));
    gaps
}

fn pitch_between(centers: &Vec<u32>, cell_h: u32) -> (r: u32)
    requires
        centers@.len() > 0,
        cell_h <= SPAN,
        forall|i: int| 0 <= i < centers@.len() ==> #[trigger] centers@[i] <= SPAN,
        forall|i: int, j: int|
            0 <= i <= j < centers@.len() ==> #[trigger] centers@[i] <= #[trigger] centers@[j],
    ensures
        r == pitch_of(centers@, cell_h as int),
        r <= 8 * SPAN,
{
    if centers.len() >= 2 {
        let gaps: Vec<u32> = steps_between(centers);
        let ghost all = gaps@;
        let r: u32 = median_of(gaps);
        proof {
            let j = choose|j: int| 0 <= j < all.len() && all[j] == r;
            assert(all[j] <= 4 * SPAN);
        }
        r
    } else if cell_h * 7 < 40 {
        40
    } else {
        cell_h * 7
    }
}

fn complete(centers: Vec<u32>, pitch: u32, pw: u32) -> (r: Vec<u32>)
    requires
        centers@.len() > 0,
        pw <= SPAN,
        pitch <= 8 * SPAN,
        forall|i: int| 0 <= i < centers@.len() ==> #[trigger] centers@[i] <= SPAN,
    ensures
        r@ == completed(centers@, pitch as int, pw),
        forall|i: int| 0 <= i < r@.len() ==> #[trigger] r@[i] <= SPAN,
{
    let n: usize = centers.len();
    if !(n < 4 && pitch > 0) {
        return centers;
    }
    let ghost c0 = centers@;
    let first: u32 = centers[0];
    let last: u32 = centers[n - 1];
    assert(c0[0] <= SPAN && c0[n - 1] <= SPAN);
    let mut all: Vec<u32> = centers;
    let right: u32 = last + pitch;
    if right + pitch / 2 < pw {
        all.push(right);
    }
    let ghost more = all@;
    if first > pitch && all.len() < 4 {
        all.insert(0, first - pitch);
        assert(all@ =~= seq![(first - pitch) as u32] + more);
    }
    let ghost before = all@;
    assert forall|i: int| 0 <= i < before.len() implies #[trigger] before[i] <= SPAN by {}
    let r: Vec<u32> = sort_numbers(all);
    proof {
        geometry::lemma_ascending(before);
        assert forall|i: int| 0 <= i < r@.len() implies #[trigger] r@[i] <= SPAN by {
            let j = choose|j: int| 0 <= j < before.len() && before[j] == r@[i];
            assert(before[j] <= SPAN);
        }
    }
    r
}

/// The cells of a panel of width `pw` and height `ph` in which `words` were
/// read.
pub fn locate_cells_via_from_raid(words: &Vec<Word>, pw: u32, ph: u32) -> (cells: Vec<BBox>)
    requires
        geometry::words_fit(sorting::views(words@)),
        pw <= SPAN,
        ph <= SPAN,
    ensures
        cells@ == cells_of(sorting::views(words@), pw, ph),
        geometry::boxes_fit(cells@),
{
    let ghost ws = sorting::views(words@);
    let ps: Vec<Pair> = find_labels(words);
    if ps.len() == 0 {
        return fallback_cells(pw, ph);
    }
    let row: LabelRow = label_row(&ps);
    let top: u32 = if row.top > row.height * 5 {
        row.top - row.height * 5
    } else {
        0
    };
    let bottom: u32 = row.top + row.height;
    let cell_h: u32 = row.height;
    let ghost middles = row.middles@;
    let found: Vec<u32> = sort_numbers(row.middles);
    proof {
        geometry::lemma_ascending(middles);
        assert forall|i: int| 0 <= i < found@.len() implies #[trigger] found@[i] <= SPAN by {
            let j = choose|j: int| 0 <= j < middles.len() && middles[j] == found@[i];
            assert(middles[j] <= SPAN);
        }
    }
    let pitch: u32 = pitch_between(&found, cell_h);
    let centers: Vec<u32> = complete(found, pitch, pw);
    let mut cells: Vec<BBox> = Vec::new();
    let ghost want = cells_of(ws, pw, ph);
    let mut i: usize = 0;
    while i < centers.len()
        invariant
            i <= centers@.len(),
            want.len() == centers@.len(),
            forall|j: int|
                0 <= j < want.len() ==> #[trigger] want[j] == cell_at(
                    centers@,
                    j,
                    pitch as int,
                    top as int,
                    bottom as int,
                    pw,
                    ph,
                ),
            forall|j: int| 0 <= j < centers@.len() ==> #[trigger] centers@[j] <= SPAN,
            pitch <= 8 * SPAN,
            top <= SPAN,
            bottom <= 2 * SPAN,
            cells@ == want.take(i as int),
            pw <= SPAN,
            ph <= SPAN,
            geometry::boxes_fit(cells@),
        decreases centers@.len() - i,
    {
        let c: u32 = centers[i];
        assert(centers@[i as int] <= SPAN);
        let left: u32 = if i == 0 {
            if c > pitch / 2 {
                c - pitch / 2
            } else {
                0
            }
        } else {
            assert(centers@[i - 1] <= SPAN);
            (centers[i - 1] + c) / 2
        };
        let right: u32 = if i + 1 < centers.len() {
            assert(centers@[i + 1] <= SPAN);
            (c + centers[i + 1]) / 2
        } else {
            c + pitch / 2
        };
        let cell: BBox = clamp_bbox(
            pw,
            ph,
            left as i32,
            top as i32,
            right as i32,
            bottom as i32,
        );
        assert(cell == want[i as int]);
        cells.push(cell);
        assert(cells@ =~= want.take(i + 1));
        i += 1;
    }
    assert(want.take(i as int) =~= want);
    cells
}

} // verus!
