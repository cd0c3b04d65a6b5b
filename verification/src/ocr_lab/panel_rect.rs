//! Where in a screenshot the panel lies.

use crate::ocr_lab::geometry;
use crate::ocr_lab::engine::{BBox, Word, WordView, PERCENT};
use crate::ocr_lab::geometry::{
    boxes_where, clamp_bbox, hull_of, keep_row, median_height, median_top, Hull, SPAN,
};
use crate::sorting;
use crate::sorting::{sort_stably, Ranked};
use crate::text;
use crate::text::{same_text, to_ascii_lower};
use vstd::prelude::*;

verus! {

/// Whether a word belongs to the line "Need to submit items".
pub open spec fn in_phrase(t: Seq<char>) -> bool {
    let low = text::ascii_lowered(t);
    low == "need"@ || low == "to"@ || low == "submit"@ || low == "items"@
}

/// Whether a word belongs to the line "Need to submit items".
pub fn is_phrase_word(t: &str) -> (r: bool)
    ensures
        r == in_phrase(t@),
{
    let low: String = to_ascii_lower(t);
    same_text(&low, "need") || same_text(&low, "to") || same_text(&low, "submit") || same_text(
        &low,
        "items",
    )
}

fn is_of_phrase(w: &Word) -> (r: bool)
    ensures
        r == in_phrase(w@.text),
{
    is_phrase_word(&w.text)
}

/// The larger of two numbers.
pub open spec fn larger(a: int, b: int) -> int {
    if a < b {
        b
    } else {
        a
    }
}

/// The line of words around which the panel is found: those on the row of the
/// middle one.
pub open spec fn phrase_row(ws: Seq<WordView>) -> Seq<BBox> {
    let all = geometry::boxes(geometry::kept(ws, |w: WordView| in_phrase(w.text)));
    geometry::on_row(all, geometry::median(geometry::top_edges(all)), phrase_height(ws))
}

/// How high the words of the line are: at least ten pixels.
pub open spec fn phrase_height(ws: Seq<WordView>) -> u32 {
    let all = geometry::boxes(geometry::kept(ws, |w: WordView| in_phrase(w.text)));
    larger(geometry::median(geometry::heights(all)) as int, 10) as u32
}

/// The panel around the line "Need to submit items". The panel reaches further
/// up than down, and twice as far as to the line's ends to the sides.
pub open spec fn rect_by_phrase(img_w: u32, img_h: u32, ws: Seq<WordView>) -> Option<BBox> {
    let row = phrase_row(ws);
    if row.len() < 2 {
        None
    } else {
        let left = geometry::lowest(geometry::lefts(row));
        let right = geometry::highest(geometry::rights(row));
        let top = geometry::lowest(geometry::tops(row));
        let bottom = geometry::highest(geometry::bottoms(row));
        let row_h = larger(bottom - top, phrase_height(ws) as int);
        Some(
            geometry::clamped(
                img_w,
                img_h,
                left - row_h * 18,
                top - row_h * 20,
                right + row_h * 18,
                bottom + row_h * 14,
            ),
        )
    }
}

/// The panel around the line "Need to submit items", where at least two of its
/// words were read on one row.
pub fn anchor_by_submit_phrase(img_w: u32, img_h: u32, words: &Vec<Word>) -> (r: Option<BBox>)
    requires
        geometry::words_fit(sorting::views(words@)),
    ensures
        r == rect_by_phrase(img_w, img_h, sorting::views(words@)),
{
    let ghost ws = sorting::views(words@);
    let ghost p = |w: WordView| in_phrase(w.text);
    let row: Vec<BBox> = boxes_where(words, is_of_phrase, Ghost(p));
    let y: u32 = median_top(&row);
    let mut h: u32 = median_height(&row);
    if h < 10 {
        h = 10;
    }
    let on_row: Vec<BBox> = keep_row(&row, y, h);
    proof {
        geometry::lemma_kept(row@, |b: BBox| geometry::distance(b.y as int, y as int) < h);
    }
    if row.len() < 2 || on_row.len() < 2 {
        return None;
    }
    let e: Hull = hull_of(&on_row);
    let row_h: i32 = if e.bottom - e.top < h {
        h as i32
    } else {
        (e.bottom - e.top) as i32
    };
    Some(
        clamp_bbox(
            img_w,
            img_h,
            e.left as i32 - row_h * 18,
            e.top as i32 - row_h * 20,
            e.right as i32 + row_h * 18,
            e.bottom as i32 + row_h * 14,
        ),
    )
}

/// A rectangle that is ranked by its upper edge.
pub struct ByTop(pub BBox);

impl View for ByTop {
    type V = BBox;

    open spec fn view(&self) -> BBox {
        self.0
    }
}

impl Ranked for ByTop {
    open spec fn precedes(a: BBox, b: BBox) -> bool {
        a.y < b.y
    }

    proof fn precedes_irreflexive(a: BBox) {
    }

    proof fn precedes_asymmetric(a: BBox, b: BBox) {
    }

    proof fn precedes_negatively_transitive(a: BBox, b: BBox, c: BBox) {
    }

    fn is_before(&self, other: &Self) -> (r: bool) {
        self.0.y < other.0.y
    }
}

/// A rectangle that is ranked by its left edge.
pub struct ByLeft(pub BBox);

impl View for ByLeft {
    type V = BBox;

    open spec fn view(&self) -> BBox {
        self.0
    }
}

impl Ranked for ByLeft {
    open spec fn precedes(a: BBox, b: BBox) -> bool {
        a.x < b.x
    }

    proof fn precedes_irreflexive(a: BBox) {
    }

    proof fn precedes_asymmetric(a: BBox, b: BBox) {
    }

    proof fn precedes_negatively_transitive(a: BBox, b: BBox, c: BBox) {
    }

    fn is_before(&self, other: &Self) -> (r: bool) {
        self.0.x < other.0.x
    }
}

/// Sorting rectangles keeps them within reach.
proof fn lemma_order_fits<T: Ranked<V = BBox>>(bs: Seq<BBox>)
    requires
        geometry::boxes_fit(bs),
    ensures
        geometry::boxes_fit(sorting::in_order::<T>(bs)),
        sorting::in_order::<T>(bs).len() == bs.len(),
{
    broadcast use vstd::seq_lib::group_to_multiset_ensures;

    sorting::lemma_in_order::<T>(bs);
    let r = sorting::in_order::<T>(bs);
    assert forall|i: int| 0 <= i < r.len() implies (#[trigger] r[i]).fits() by {
        assert(r.to_multiset().count(r[i]) > 0);
        assert(bs.to_multiset().count(r[i]) > 0);
        assert(bs.contains(r[i]));
        let j = choose|j: int| 0 <= j < bs.len() && bs[j] == r[i];
        assert(bs[j].fits());
    }
}

/// Sorts rectangles by their upper edges.
pub fn sort_by_top(bs: &Vec<BBox>) -> (r: Vec<BBox>)
    requires
        geometry::boxes_fit(bs@),
    ensures
        r@ == sorting::in_order::<ByTop>(bs@),
        geometry::boxes_fit(r@),
        r@.len() == bs@.len(),
{
    let mut v: Vec<ByTop> = Vec::new();
    let mut i: usize = 0;
    while i < bs.len()
        invariant
            i <= bs@.len(),
            sorting::views(v@) == bs@.take(i as int),
        decreases bs@.len() - i,
    {
        let ghost before = v@;
        v.push(ByTop(bs[i]));
        assert(sorting::views(v@) =~= sorting::views(before).push(bs@[i as int]));
        assert(bs@.take(i + 1) =~= bs@.take(i as int).push(bs@[i as int]));
        i += 1;
    }
    assert(bs@.take(i as int) =~= bs@);
    let sorted: Vec<ByTop> = sort_stably(v);
    let mut r: Vec<BBox> = Vec::new();
    let ghost all = sorting::views(sorted@);
    let mut i: usize = 0;
    while i < sorted.len()
        invariant
            i <= sorted@.len(),
            all == sorting::views(sorted@),
            r@ == all.take(i as int),
        decreases sorted@.len() - i,
    {
        r.push(sorted[i].0);
        assert(r@ =~= all.take(i + 1));
        i += 1;
    }
    assert(all.take(i as int) =~= all);
    proof {
        lemma_order_fits::<ByTop>(bs@);
    }
    r
}

/// Sorts rectangles by their left edges.
pub fn sort_by_left(bs: &Vec<BBox>) -> (r: Vec<BBox>)
    requires
        geometry::boxes_fit(bs@),
    ensures
        r@ == sorting::in_order::<ByLeft>(bs@),
        geometry::boxes_fit(r@),
        r@.len() == bs@.len(),
{
    let mut v: Vec<ByLeft> = Vec::new();
    let mut i: usize = 0;
    while i < bs.len()
        invariant
            i <= bs@.len(),
            sorting::views(v@) == bs@.take(i as int),
        decreases bs@.len() - i,
    {
        let ghost before = v@;
        v.push(ByLeft(bs[i]));
        assert(sorting::views(v@) =~= sorting::views(before).push(bs@[i as int]));
        assert(bs@.take(i + 1) =~= bs@.take(i as int).push(bs@[i as int]));
        i += 1;
    }
    assert(bs@.take(i as int) =~= bs@);
    let sorted: Vec<ByLeft> = sort_stably(v);
    let mut r: Vec<BBox> = Vec::new();
    let ghost all = sorting::views(sorted@);
    let mut i: usize = 0;
    while i < sorted.len()
        invariant
            i <= sorted@.len(),
            all == sorting::views(sorted@),
            r@ == all.take(i as int),
        decreases sorted@.len() - i,
    {
        r.push(sorted[i].0);
        assert(r@ =~= all.take(i + 1));
        i += 1;
    }
    assert(all.take(i as int) =~= all);
    proof {
        lemma_order_fits::<ByLeft>(bs@);
    }
    r
}

/// Along which axis rectangles are grouped.
#[derive(Debug, Clone, Copy, PartialEq, Eq, Structural)]
pub enum Axis {
    Across,
    Down,
}

impl Axis {
    /// Where a rectangle starts.
    pub open spec fn start(self, b: BBox) -> int {
        match self {
            Axis::Across => b.x as int,
            Axis::Down => b.y as int,
        }
    }

    /// Where the last one of some rectangles ends.
    pub open spec fn end(self, bs: Seq<BBox>) -> int {
        match self {
            Axis::Across => geometry::highest(geometry::rights(bs)),
            Axis::Down => geometry::highest(geometry::bottoms(bs)),
        }
    }
}

/// The rectangles in groups: one that starts more than `gap` behind everything
/// of the group before it opens a new one.
pub open spec fn groups(bs: Seq<BBox>, axis: Axis, gap: int) -> Seq<Seq<BBox>>
    decreases bs.len(),
{
    if bs.len() == 0 {
        Seq::empty()
    } else {
        let before = groups(bs.drop_last(), axis, gap);
        let b = bs.last();
        if before.len() == 0 || axis.start(b) - axis.end(before.last()) > gap {
            before.push(seq![b])
        } else {
            before.drop_last().push(before.last().push(b))
        }
    }
}

/// Whether no group is empty, and all lie within reach.
pub open spec fn groups_fit(gs: Seq<Seq<BBox>>) -> bool {
    forall|i: int|
        0 <= i < gs.len() ==> (#[trigger] gs[i]).len() > 0 && geometry::boxes_fit(gs[i])
}

/// The rectangles of all groups, one group after the other.
pub open spec fn ungrouped(gs: Seq<Seq<BBox>>) -> Seq<BBox>
    decreases gs.len(),
{
    if gs.len() == 0 {
        Seq::empty()
    } else {
        ungrouped(gs.drop_last()) + gs.last()
    }
}

/// Grouping keeps every rectangle, in order, and leaves no group empty.
pub proof fn law_grouping_keeps_everything(bs: Seq<BBox>, axis: Axis, gap: int)
    ensures
        ungrouped(groups(bs, axis, gap)) == bs,
        forall|i: int|
            0 <= i < groups(bs, axis, gap).len() ==> (#[trigger] groups(bs, axis, gap)[i]).len() > 0,
    decreases bs.len(),
{
    if bs.len() > 0 {
        let init = bs.drop_last();
        law_grouping_keeps_everything(init, axis, gap);
        let before = groups(init, axis, gap);
        let after = groups(bs, axis, gap);
        let b = bs.last();
        if before.len() == 0 || axis.start(b) - axis.end(before.last()) > gap {
            assert(after.drop_last() =~= before);
            assert(ungrouped(after) =~= init + seq![b]);
        } else {
            assert(after.drop_last() =~= before.drop_last());
            assert(ungrouped(after) =~= ungrouped(before.drop_last()) + before.last().push(b));
            assert(ungrouped(after) =~= ungrouped(before).push(b));
            assert forall|i: int| 0 <= i < after.len() implies (#[trigger] after[i]).len() > 0 by {
                if i < before.len() - 1 {
                    assert(after[i] == before[i]);
                }
            }
        }
        assert(init.push(b) =~= bs);
    }
}

/// Puts rectangles into groups.
pub fn group(bs: &Vec<BBox>, axis: Axis, gap: u32) -> (r: Vec<Vec<BBox>>)
    requires
        geometry::boxes_fit(bs@),
        gap <= 8 * SPAN,
    ensures
        sorting::views(r@) == groups(bs@, axis, gap as int),
        groups_fit(sorting::views(r@)),
        bs@.len() > 0 ==> r@.len() > 0,
{
    let ghost all = bs@;
    let mut r: Vec<Vec<BBox>> = Vec::new();
    assert(sorting::views(r@) =~= groups(all.take(0), axis, gap as int));
    let mut i: usize = 0;
    while i < bs.len()
        invariant
            i <= bs@.len(),
            all == bs@,
            geometry::boxes_fit(all),
            gap <= 8 * SPAN,
            sorting::views(r@) == groups(all.take(i as int), axis, gap as int),
            groups_fit(sorting::views(r@)),
            i > 0 ==> r@.len() > 0,
        decreases bs@.len() - i,
    {
        let b: BBox = bs[i];
        let ghost before = sorting::views(r@);
        assert(all[i as int].fits());
        assert(all.take(i + 1).drop_last() =~= all.take(i as int));
        assert(all.take(i + 1).last() == b);
        let n: usize = r.len();
        let mut fresh: bool = true;
        if n > 0 {
            assert(before[n - 1] == r@[n - 1]@);
            let e: Hull = hull_of(&r[n - 1]);
            fresh = match axis {
                Axis::Across => b.x as i64 - e.right as i64 > gap as i64,
                Axis::Down => b.y as i64 - e.bottom as i64 > gap as i64,
            };
        }
        if fresh {
            let mut g: Vec<BBox> = Vec::new();
            g.push(b);
            r.push(g);
            proof {
                let after = sorting::views(r@);
                assert(after =~= before.push(seq![b]));
                assert forall|k: int| 0 <= k < after.len() implies (#[trigger] after[k]).len() > 0
                    && geometry::boxes_fit(after[k]) by {
                    if k < before.len() {
                        assert(before[k].len() > 0);
                    }
                }
            }
        } else {
            let ghost rest = r@.drop_last();
            let mut g: Vec<BBox> = r.pop().unwrap();
            g.push(b);
            r.push(g);
            proof {
                let after = sorting::views(r@);
                assert(after =~= before.drop_last().push(before.last().push(b)));
                assert forall|k: int| 0 <= k < after.len() implies (#[trigger] after[k]).len() > 0
                    && geometry::boxes_fit(after[k]) by {
                    if k < before.len() - 1 {
                        assert(after[k] == before[k]);
                    } else {
                        let old = before.last();
                        assert(geometry::boxes_fit(old));
                        assert forall|m: int| 0 <= m < after[k].len() implies (
                        #[trigger] after[k][m]).fits() by {
                            if m < old.len() {
                                assert(old[m].fits());
                            }
                        }
                    }
                }
            }
        }
        i += 1;
    }
    assert(all.take(i as int) =~= all);
    r
}

/// The longest of some groups, the last one of several.
pub open spec fn longest(gs: Seq<Seq<BBox>>) -> Seq<BBox>
    decreases gs.len(),
{
    if gs.len() <= 1 {
        gs[0]
    } else if gs.last().len() >= longest(gs.drop_last()).len() {
        gs.last()
    } else {
        longest(gs.drop_last())
    }
}

/// Whether a word is read surely enough, and large enough, to belong to the
/// panel.
pub open spec fn is_solid(w: WordView) -> bool {
    w.confidence > 70 * PERCENT && w.bbox.w >= 20 && w.bbox.h >= 10
}

fn is_sure(w: &Word) -> (r: bool)
    ensures
        r == is_solid(w@),
{
    w.confidence > 70 * PERCENT && w.bbox.w >= 20 && w.bbox.h >= 10
}

/// The panel around the largest group of words that are read surely.
pub open spec fn rect_by_cluster(img_w: u32, img_h: u32, ws: Seq<WordView>) -> Option<BBox> {
    let found = geometry::boxes(geometry::kept(ws, |w: WordView| is_solid(w)));
    if found.len() == 0 {
        None
    } else {
        let rows = sorting::in_order::<ByTop>(found);
        let h = larger(geometry::median(geometry::heights(rows)) as int, 10);
        let panel = longest(groups(rows, Axis::Down, h * 5));
        Some(
            geometry::clamped(
                img_w,
                img_h,
                geometry::lowest(geometry::lefts(panel)) - h * 8,
                geometry::lowest(geometry::tops(panel)) - h * 6,
                geometry::highest(geometry::rights(panel)) + h * 8,
                geometry::highest(geometry::bottoms(panel)) + h * 6,
            ),
        )
    }
}

/// The panel around the largest group of words that are read surely, where
/// there are any.
pub fn anchor_by_text_cluster(img_w: u32, img_h: u32, words: &Vec<Word>) -> (r: Option<BBox>)
    requires
        geometry::words_fit(sorting::views(words@)),
    ensures
        r == rect_by_cluster(img_w, img_h, sorting::views(words@)),
{
    let ghost p = |w: WordView| is_solid(w);
    let found: Vec<BBox> = boxes_where(words, is_sure, Ghost(p));
    if found.len() == 0 {
        return None;
    }
    let rows: Vec<BBox> = sort_by_top(&found);
    let mut h: u32 = median_height(&rows);
    if h < 10 {
        h = 10;
    }
    let gs: Vec<Vec<BBox>> = group(&rows, Axis::Down, h * 5);
    let ghost all = sorting::views(gs@);
    assert(all.take(1) =~= seq![all[0]]);
    let mut best: usize = 0;
    let mut i: usize = 1;
    while i < gs.len()
        invariant
            1 <= i <= gs@.len(),
            best < i,
            all == sorting::views(gs@),
            all[best as int] == longest(all.take(i as int)),
        decreases gs@.len() - i,
    {
        assert(all.take(i + 1).drop_last() =~= all.take(i as int));
        assert(all[i as int] == gs@[i as int]@ && all[best as int] == gs@[best as int]@);
        if gs[i].len() >= gs[best].len() {
            best = i;
        }
        i += 1;
    }
    assert(all.take(i as int) =~= all);
    assert(all[best as int].len() > 0);
    let e: Hull = hull_of(&gs[best]);
    let pad: i32 = h as i32;
    Some(
        clamp_bbox(
            img_w,
            img_h,
            e.left as i32 - pad * 8,
            e.top as i32 - pad * 6,
            e.right as i32 + pad * 8,
            e.bottom as i32 + pad * 6,
        ),
    )
}

/// Where the panel lies: around the line "Need to submit items" where that was
/// read, and else around the largest group of words.
pub fn approximate_panel_rect(img_w: u32, img_h: u32, words: &Vec<Word>) -> (r: Option<BBox>)
    requires
        geometry::words_fit(sorting::views(words@)),
    ensures
        r == match rect_by_phrase(img_w, img_h, sorting::views(words@)) {
            Some(b) => Some(b),
            None => rect_by_cluster(img_w, img_h, sorting::views(words@)),
        },
{
    let b: Option<BBox> = anchor_by_submit_phrase(img_w, img_h, words);
    if b.is_some() {
        b
    } else {
        anchor_by_text_cluster(img_w, img_h, words)
    }
}

} // verus!
