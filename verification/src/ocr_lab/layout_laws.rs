//! Where the parts of a panel lie.

use crate::ocr_lab::cells;
use crate::ocr_lab::cells::Pair;
use crate::ocr_lab::engine::{BBox, WordView};
use crate::ocr_lab::geometry;
use crate::ocr_lab::grid;
use crate::ocr_lab::grid::{Anchor, CellRow, Frame};
use crate::ocr_lab::panel_rect;
use crate::ocr_lab::panel_rect::Axis;
use crate::ocr_lab::word_laws;
use crate::sorting;
use crate::text;
use vstd::prelude::*;
use vstd::seq_lib::*;

verus! {

/// The lowest of some numbers is one of them, and none is lower; the highest
/// is one of them, and none is higher.
pub proof fn law_lowest_and_highest(s: Seq<int>)
    requires
        s.len() > 0,
    ensures
        s.contains(geometry::lowest(s)),
        s.contains(geometry::highest(s)),
        forall|i: int|
            0 <= i < s.len() ==> geometry::lowest(s) <= #[trigger] s[i] <= geometry::highest(s),
    decreases s.len(),
{
    if s.len() == 1 {
        assert(s.contains(s[0]));
    } else {
        let init = s.drop_last();
        law_lowest_and_highest(init);
        let a = choose|a: int| 0 <= a < init.len() && init[a] == geometry::lowest(init);
        let b = choose|b: int| 0 <= b < init.len() && init[b] == geometry::highest(init);
        assert(s[a] == init[a]);
        assert(s[b] == init[b]);
        assert(s[s.len() - 1] == s.last());
        assert forall|i: int| 0 <= i < s.len() implies geometry::lowest(s) <= #[trigger] s[i]
            <= geometry::highest(s) by {
            if i < init.len() {
                assert(init[i] == s[i]);
            }
        }
    }
}

/// The middle one of some numbers is the one in the middle once they stand in
/// order: as many or one more stand before it as behind it.
pub proof fn law_median(s: Seq<u32>)
    requires
        s.len() > 0,
    ensures
        exists|order: Seq<u32>|
            {
                &&& #[trigger] order.to_multiset() == s.to_multiset()
                &&& order.len() == s.len()
                &&& forall|i: int, j: int|
                    0 <= i <= j < order.len() ==> #[trigger] order[i] <= #[trigger] order[j]
                &&& geometry::median(s) == order[s.len() as int / 2]
            },
        s.contains(geometry::median(s)),
{
    let order = geometry::ascending(s);
    geometry::lemma_ascending(s);
    sorting::lemma_in_order::<u32>(s);
    assert(order.to_multiset() == s.to_multiset());
    assert(s.contains(order[s.len() as int / 2]));
}

/// A rectangle within the picture stays as it is; what lies outside of the
/// picture is cut off.
pub proof fn law_clamped(w: u32, h: u32, x0: int, y0: int, x1: int, y1: int)
    requires
        w <= i32::MAX,
        h <= i32::MAX,
    ensures
        ({
            let r = geometry::clamped(w, h, x0, y0, x1, y1);
            &&& 0 <= x0 <= x1 <= w ==> r.x == x0 && r.w == x1 - x0
            &&& 0 <= y0 <= y1 <= h ==> r.y == y0 && r.h == y1 - y0
            &&& x0 < 0 <= x1 <= w ==> r.x == 0 && r.w == x1
            &&& y0 < 0 <= y1 <= h ==> r.y == 0 && r.h == y1
            &&& 0 <= x0 <= w < x1 ==> r.x == x0 && r.w == w - x0
            &&& 0 <= y0 <= h < y1 ==> r.y == y0 && r.h == h - y0
            &&& r.w > 0 ==> r.x + r.w <= w
            &&& r.h > 0 ==> r.y + r.h <= h
        }),
{
}

/// What is on a row are the rectangles whose upper edge is less than the reach
/// above or below it, in their order.
pub proof fn law_on_row(bs: Seq<BBox>, y: u32, reach: u32)
    ensures
        geometry::on_row(bs, y, reach) == bs.filter(
            |b: BBox| b.y < y + reach && y < b.y + reach,
        ),
{
    let p = |b: BBox| geometry::distance(b.y as int, y as int) < reach;
    let q = |b: BBox| b.y < y + reach && y < b.y + reach;
    word_laws::law_kept_is_what_holds(bs, p);
    lemma_same_test(bs, p, q);
}

proof fn lemma_same_test<A>(s: Seq<A>, f: spec_fn(A) -> bool, g: spec_fn(A) -> bool)
    requires
        forall|x: A| #[trigger] f(x) == g(x),
    ensures
        s.filter(f) == s.filter(g),
    decreases s.len(),
{
    reveal(Seq::filter);
    if s.len() > 0 {
        lemma_same_test(s.drop_last(), f, g);
        assert(f(s.last()) == g(s.last()));
    }
}

/// What belongs to the first word of a label is a second word on its line,
/// close behind it; the nearest one. There is none just where no second word
/// stands there.
pub proof fn law_nearest_word(f: BBox, raids: Seq<BBox>)
    ensures
        match cells::nearest(f, raids) {
            Some(r) => {
                &&& raids.contains(r)
                &&& cells::follows(f, r)
                &&& forall|i: int|
                    0 <= i < raids.len() && cells::follows(f, #[trigger] raids[i]) ==> cells::apart(
                        f,
                        r,
                    ) <= cells::apart(f, raids[i])
            },
            None => forall|i: int| 0 <= i < raids.len() ==> !cells::follows(f, #[trigger] raids[i]),
        },
    decreases raids.len(),
{
    if raids.len() > 0 {
        let init = raids.drop_last();
        law_nearest_word(f, init);
        assert(raids[raids.len() - 1] == raids.last());
        let before = cells::nearest(f, init);
        if before is Some {
            let k = choose|k: int| 0 <= k < init.len() && init[k] == before.unwrap();
            assert(raids[k] == init[k]);
        }
        match cells::nearest(f, raids) {
            Some(r) => {
                assert forall|i: int|
                    0 <= i < raids.len() && cells::follows(
                        f,
                        #[trigger] raids[i],
                    ) implies cells::apart(f, r) <= cells::apart(f, raids[i]) by {
                    if i < init.len() {
                        assert(init[i] == raids[i]);
                    }
                }
            },
            None => {
                assert forall|i: int| 0 <= i < raids.len() implies !cells::follows(
                    f,
                    #[trigger] raids[i],
                ) by {
                    if i < init.len() {
                        assert(init[i] == raids[i]);
                    }
                }
            },
        }
    }
}

/// Two words are on one line where their middles are less than the height of
/// the first apart, and close where the second starts from half the width of
/// the first before its end to three times that behind it.
pub proof fn law_what_follows(f: BBox, r: BBox)
    requires
        r.y + r.h as int / 2 >= f.y + f.h as int / 2,
    ensures
        cells::follows(f, r) <==> {
            &&& (r.y + r.h as int / 2) - (f.y + f.h as int / 2) < f.h
            &&& r.x + f.w as int / 2 > f.x + f.w
            &&& r.x < f.x + f.w + 3 * f.w
        },
{
}

proof fn lemma_thinned(ps: Seq<Pair>)
    requires
        forall|i: int, j: int|
            0 <= i <= j < ps.len() ==> (#[trigger] ps[i]).from.x <= (#[trigger] ps[j]).from.x,
    ensures
        forall|i: int, j: int|
            0 <= i < j < cells::thinned(ps).len() ==> (#[trigger] cells::thinned(ps)[i]).from.x < (
            #[trigger] cells::thinned(ps)[j]).from.x,
        forall|i: int| 0 <= i < cells::thinned(ps).len() ==> ps.contains(#[trigger] cells::thinned(ps)[i]),
        ps.len() > 0 ==> cells::thinned(ps).len() > 0 && cells::thinned(ps).last().from.x
            == ps.last().from.x,
    decreases ps.len(),
{
    if ps.len() > 0 {
        let init = ps.drop_last();
        assert forall|i: int, j: int| 0 <= i <= j < init.len() implies (#[trigger] init[i]).from.x
            <= (#[trigger] init[j]).from.x by {
            assert(ps[i].from.x <= ps[j].from.x);
        }
        lemma_thinned(init);
        let before = cells::thinned(init);
        let out = cells::thinned(ps);
        assert(ps =~= init.push(ps.last()));
        assert(ps.contains(ps[ps.len() - 1]));
        assert forall|i: int| 0 <= i < out.len() implies ps.contains(#[trigger] out[i]) by {
            if i < before.len() {
                assert(out[i] == before[i]);
                crate::ids::lemma_contains_push(init, ps.last(), before[i]);
            }
        }
        if init.len() > 0 {
            assert(ps[init.len() - 1].from.x <= ps[ps.len() - 1].from.x);
        }
        assert forall|i: int, j: int| 0 <= i < j < out.len() implies (#[trigger] out[i]).from.x < (
        #[trigger] out[j]).from.x by {
            if j < before.len() {
                assert(before[i].from.x < before[j].from.x);
            } else {
                assert(before[before.len() - 1] == before.last());
                if i < before.len() - 1 {
                    assert(before[i].from.x < before[before.len() - 1].from.x);
                }
            }
        }
    }
}

proof fn lemma_thinned_keeps(ps: Seq<Pair>, k: int) -> (i: int)
    requires
        0 <= k < ps.len(),
    ensures
        0 <= i < cells::thinned(ps).len(),
        cells::thinned(ps)[i].from.x == ps[k].from.x,
    decreases ps.len(),
{
    let init = ps.drop_last();
    let before = cells::thinned(init);
    if k < ps.len() - 1 {
        let i = lemma_thinned_keeps(init, k);
        assert(cells::thinned(ps)[i] == before[i]);
        assert(init[k] == ps[k]);
        i
    } else if before.len() > 0 && before.last().from.x == ps.last().from.x {
        before.len() - 1
    } else {
        before.len() as int
    }
}

/// The labels of the cells come from left to right, and no two of them start
/// at one place. Each is made of a first word and a second one that follows it.
pub proof fn law_labels(ws: Seq<WordView>, i: int, j: int)
    requires
        0 <= i < j < cells::labels(ws).len(),
    ensures
        cells::labels(ws)[i].from.x < cells::labels(ws)[j].from.x,
        cells::follows(cells::labels(ws)[i].from, cells::labels(ws)[i].raid),
        exists|k: int|
            0 <= k < ws.len() && (#[trigger] ws[k]).bbox == cells::labels(ws)[i].from
                && cells::like_from(ws[k].text),
        exists|k: int|
            0 <= k < ws.len() && (#[trigger] ws[k]).bbox == cells::labels(ws)[i].raid
                && cells::like_raid(ws[k].text),
{
    let p = |w: WordView| cells::like_from(w.text);
    let q = |w: WordView| cells::like_raid(w.text);
    let fw = geometry::kept(ws, p);
    let rw = geometry::kept(ws, q);
    let froms = geometry::boxes(fw);
    let raids = geometry::boxes(rw);
    let ps = cells::paired(froms, raids);
    let order = sorting::in_order::<Pair>(ps);
    sorting::lemma_in_order::<Pair>(ps);
    assert forall|a: int, b: int| 0 <= a <= b < order.len() implies (#[trigger] order[a]).from.x
        <= (#[trigger] order[b]).from.x by {
        if a < b {
            assert(!<Pair as sorting::Ranked>::precedes(order[b], order[a]));
        }
    }
    lemma_thinned(order);
    let out = cells::labels(ws);
    assert(order.contains(out[i]));
    let c = choose|c: int| 0 <= c < order.len() && order[c] == out[i];
    let d = sorting::lemma_same_elements(order, ps, c);
    let k = lemma_paired(froms, raids, d);
    law_nearest_word(froms[k], raids);
    let r = choose|r: int| 0 <= r < raids.len() && raids[r] == out[i].raid;
    assert(fw.contains(fw[k]));
    assert(rw.contains(rw[r]));
    word_laws::lemma_kept_member(ws, p, fw[k]);
    word_laws::lemma_kept_member(ws, q, rw[r]);
    let x = choose|x: int| 0 <= x < ws.len() && ws[x] == fw[k];
    let y = choose|y: int| 0 <= y < ws.len() && ws[y] == rw[r];
    assert(ws[x].bbox == out[i].from);
    assert(ws[y].bbox == out[i].raid);
}

/// Every first word that a second one follows starts a label, or stands right
/// above or below one.
pub proof fn law_first_words_make_labels(ws: Seq<WordView>, f: int, r: int)
    requires
        0 <= f < ws.len(),
        0 <= r < ws.len(),
        cells::like_from(ws[f].text),
        cells::like_raid(ws[r].text),
        cells::follows(ws[f].bbox, ws[r].bbox),
    ensures
        exists|i: int|
            0 <= i < cells::labels(ws).len() && (#[trigger] cells::labels(ws)[i]).from.x
                == ws[f].bbox.x,
{
    let p = |w: WordView| cells::like_from(w.text);
    let q = |w: WordView| cells::like_raid(w.text);
    let fw = geometry::kept(ws, p);
    let rw = geometry::kept(ws, q);
    let froms = geometry::boxes(fw);
    let raids = geometry::boxes(rw);
    assert(ws.contains(ws[f]));
    assert(ws.contains(ws[r]));
    word_laws::lemma_kept_member(ws, p, ws[f]);
    word_laws::lemma_kept_member(ws, q, ws[r]);
    let a = choose|a: int| 0 <= a < fw.len() && fw[a] == ws[f];
    let b = choose|b: int| 0 <= b < rw.len() && rw[b] == ws[r];
    assert(froms[a] == ws[f].bbox);
    assert(raids[b] == ws[r].bbox);
    law_nearest_word(froms[a], raids);
    assert(cells::nearest(froms[a], raids) is Some);
    let ps = cells::paired(froms, raids);
    let c = lemma_has_pair(froms, raids, a);
    let order = sorting::in_order::<Pair>(ps);
    sorting::lemma_in_order::<Pair>(ps);
    let d = sorting::lemma_same_elements(ps, order, c);
    let i = lemma_thinned_keeps(order, d);
    assert(cells::labels(ws)[i].from.x == ws[f].bbox.x);
}

proof fn lemma_has_pair(froms: Seq<BBox>, raids: Seq<BBox>, k: int) -> (i: int)
    requires
        0 <= k < froms.len(),
        cells::nearest(froms[k], raids) is Some,
    ensures
        0 <= i < cells::paired(froms, raids).len(),
        cells::paired(froms, raids)[i].from == froms[k],
    decreases froms.len(),
{
    let init = froms.drop_last();
    if k == froms.len() - 1 {
        cells::paired(init, raids).len() as int
    } else {
        assert(init[k] == froms[k]);
        lemma_has_pair(init, raids, k)
    }
}

proof fn lemma_paired(froms: Seq<BBox>, raids: Seq<BBox>, i: int) -> (k: int)
    requires
        0 <= i < cells::paired(froms, raids).len(),
    ensures
        0 <= k < froms.len(),
        cells::paired(froms, raids)[i].from == froms[k],
        cells::nearest(froms[k], raids) == Some(cells::paired(froms, raids)[i].raid),
    decreases froms.len(),
{
    let init = froms.drop_last();
    if i < cells::paired(init, raids).len() {
        let k = lemma_paired(init, raids, i);
        assert(init[k] == froms[k]);
        k
    } else {
        froms.len() - 1
    }
}

/// Without labels the lower half of the panel down to nine tenths of it is cut
/// in four cells of one width.
pub proof fn law_even_cells(pw: u32, ph: u32, i: int)
    requires
        0 <= i < 4,
        pw <= i32::MAX,
        ph <= i32::MAX,
    ensures
        cells::even_cells(pw, ph).len() == 4,
        cells::even_cells(pw, ph)[i].y == ph / 2,
        cells::even_cells(pw, ph)[i].y + cells::even_cells(pw, ph)[i].h == ph * 9 / 10,
        cells::even_cells(pw, ph)[i].x == pw * i / 4,
        i < 3 ==> cells::even_cells(pw, ph)[i].x + cells::even_cells(pw, ph)[i].w
            == cells::even_cells(pw, ph)[i + 1].x,
        i == 3 ==> cells::even_cells(pw, ph)[i].x + cells::even_cells(pw, ph)[i].w == pw,
{
    lemma_quarter(pw, i);
    lemma_quarter(pw, i + 1);
    if i < 3 {
        lemma_quarter(pw, i + 2);
    }
}

proof fn lemma_quarter(pw: u32, i: int)
    requires
        0 <= i <= 4,
    ensures
        i == 0 ==> pw * i == 0,
        i == 1 ==> pw * i == pw,
        i == 2 ==> pw * i == pw + pw,
        i == 3 ==> pw * i == pw + pw + pw,
        i == 4 ==> pw * i == pw + pw + pw + pw,
{
    assert(i == 0 ==> pw * i == 0) by (nonlinear_arith);
    assert(i == 1 ==> pw * i == pw) by (nonlinear_arith);
    assert(i == 2 ==> pw * i == pw + pw) by (nonlinear_arith);
    assert(i == 3 ==> pw * i == pw + pw + pw) by (nonlinear_arith);
    assert(i == 4 ==> pw * i == pw + pw + pw + pw) by (nonlinear_arith);
}

/// Cells of one row lie side by side: each ends where the next one begins, and
/// holds its own middle. All start and end at one height.
pub proof fn law_cells_lie_side_by_side(
    centers: Seq<u32>,
    i: int,
    pitch: int,
    top: int,
    bottom: int,
    pw: u32,
    ph: u32,
)
    requires
        pw <= i32::MAX,
        ph <= i32::MAX,
        pitch >= 2,
        0 <= top <= bottom <= ph,
        0 <= i < centers.len(),
        forall|a: int, b: int|
            0 <= a <= b < centers.len() ==> #[trigger] centers[a] <= #[trigger] centers[b],
        centers.last() + pitch / 2 <= pw,
    ensures
        ({
            let c = cells::cell_at(centers, i, pitch, top, bottom, pw, ph);
            &&& c.y == top
            &&& c.y + c.h == bottom
            &&& c.x <= centers[i] <= c.x + c.w
            &&& i + 1 < centers.len() ==> c.x + c.w == cells::cell_at(
                centers,
                i + 1,
                pitch,
                top,
                bottom,
                pw,
                ph,
            ).x
            &&& i + 1 == centers.len() ==> c.x + c.w == centers[i] + pitch / 2
            &&& i == 0 && centers[0] >= pitch / 2 ==> c.x == centers[0] - pitch / 2
        }),
{
    assert(centers[i] <= centers[centers.len() - 1]);
    if i > 0 {
        assert(centers[i - 1] <= centers[i]);
    }
    if i + 1 < centers.len() {
        assert(centers[i] <= centers[i + 1]);
        assert(centers[i + 1] <= centers[centers.len() - 1]);
    }
}

/// A row of fewer than four middles gets one more at the distance of the
/// others on the right where there is room for it, and then one on the left
/// where there is and where it is still short of four. Nothing that was found
/// goes.
pub proof fn law_rows_are_completed(centers: Seq<u32>, pitch: int, pw: u32)
    requires
        centers.len() > 0,
        centers.last() + pitch <= u32::MAX,
        pitch > 0,
    ensures
        ({
            let all = cells::completed(centers, pitch, pw);
            let right = centers.len() < 4 && centers.last() + pitch + pitch / 2 < pw;
            let left = centers.len() < 4 && centers[0] > pitch && (centers.len() + if right {
                1int
            } else {
                0
            }) < 4;
            &&& all.len() == centers.len() + (if right {
                1int
            } else {
                0
            }) + if left {
                1int
            } else {
                0
            }
            &&& right ==> all.contains((centers.last() + pitch) as u32)
            &&& left ==> all.contains((centers[0] - pitch) as u32)
            &&& forall|i: int| 0 <= i < centers.len() ==> all.contains(#[trigger] centers[i])
            &&& centers.len() >= 4 ==> all == centers
        }),
{
    let all = cells::completed(centers, pitch, pw);
    if centers.len() < 4 {
        let r = (centers.last() + pitch) as u32;
        let l = (centers[0] - pitch) as u32;
        let more = if centers.last() + pitch + pitch / 2 < pw {
            centers.push(r)
        } else {
            centers
        };
        let raw = if centers[0] > pitch && more.len() < 4 {
            seq![l] + more
        } else {
            more
        };
        sorting::lemma_in_order::<u32>(raw);
        geometry::lemma_ascending(raw);
        let off: int = if centers[0] > pitch && more.len() < 4 {
            1
        } else {
            0
        };
        assert forall|i: int| 0 <= i < centers.len() implies all.contains(
            #[trigger] centers[i],
        ) by {
            assert(raw[i + off] == centers[i]);
            let k = sorting::lemma_same_elements(raw, all, i + off);
            assert(all[k] == centers[i]);
        }
        if centers.last() + pitch + pitch / 2 < pw {
            assert(raw[centers.len() + off] == r);
            let k = sorting::lemma_same_elements(raw, all, centers.len() + off);
            assert(all[k] == r);
        }
        if off == 1 {
            assert(raw[0] == l);
            let k = sorting::lemma_same_elements(raw, all, 0);
            assert(all[k] == l);
        }
    } else {
        assert forall|i: int| 0 <= i < centers.len() implies all.contains(
            #[trigger] centers[i],
        ) by {}
    }
}

/// Rectangles of one group lie no further apart than the gap, and the next
/// group starts further behind the one before it.
pub proof fn law_groups_are_apart(bs: Seq<BBox>, axis: Axis, gap: int, g: int)
    requires
        0 <= g < panel_rect::groups(bs, axis, gap).len(),
    ensures
        g > 0 ==> axis.start(panel_rect::groups(bs, axis, gap)[g][0]) - axis.end(
            panel_rect::groups(bs, axis, gap)[g - 1],
        ) > gap,
        panel_rect::groups(bs, axis, gap)[g].len() > 0,
        forall|k: int|
            0 < k < panel_rect::groups(bs, axis, gap)[g].len() ==> axis.start(
                #[trigger] panel_rect::groups(bs, axis, gap)[g][k],
            ) - axis.end(panel_rect::groups(bs, axis, gap)[g].take(k)) <= gap,
    decreases bs.len(),
{
    let init = bs.drop_last();
    let before = panel_rect::groups(init, axis, gap);
    let all = panel_rect::groups(bs, axis, gap);
    let b = bs.last();
    if before.len() == 0 || axis.start(b) - axis.end(before.last()) > gap {
        if g < before.len() {
            law_groups_are_apart(init, axis, gap, g);
        }
    } else {
        if g < before.len() - 1 {
            law_groups_are_apart(init, axis, gap, g);
        } else {
            law_groups_are_apart(init, axis, gap, g);
            assert(all[g] == before.last().push(b));
            assert(all[g][0] == before[g][0]);
            assert forall|k: int| 0 < k < all[g].len() implies axis.start(#[trigger] all[g][k])
                - axis.end(all[g].take(k)) <= gap by {
                if k < before[g].len() {
                    assert(all[g].take(k) =~= before[g].take(k));
                    assert(all[g][k] == before[g][k]);
                } else {
                    assert(all[g].take(k) =~= before[g]);
                }
            }
        }
    }
}

/// The longest group has at least as many rectangles as any other, and is the
/// last of those.
pub proof fn law_longest_group(gs: Seq<Seq<BBox>>) -> (k: int)
    requires
        gs.len() > 0,
    ensures
        0 <= k < gs.len(),
        panel_rect::longest(gs) == gs[k],
        forall|i: int| 0 <= i < gs.len() ==> (#[trigger] gs[i]).len() <= gs[k].len(),
        forall|i: int| k < i < gs.len() ==> (#[trigger] gs[i]).len() < gs[k].len(),
    decreases gs.len(),
{
    if gs.len() == 1 {
        0
    } else {
        let init = gs.drop_last();
        let k = law_longest_group(init);
        assert(gs[gs.len() - 1] == gs.last());
        assert(gs[k] == init[k]);
        let best = if gs.last().len() >= init[k].len() {
            gs.len() - 1
        } else {
            k
        };
        assert forall|i: int| 0 <= i < gs.len() implies (#[trigger] gs[i]).len()
            <= gs[best].len() by {
            if i < init.len() {
                assert(init[i] == gs[i]);
            }
        }
        assert forall|i: int| best < i < gs.len() implies (#[trigger] gs[i]).len()
            < gs[best].len() by {
            if i < init.len() {
                assert(init[i] == gs[i]);
            }
        }
        best
    }
}

/// The panel around the phrase holds every word of its row, with eighteen
/// heights of the row on both sides, twenty above and fourteen below, as far as
/// the picture reaches.
pub proof fn law_panel_around_the_phrase(img_w: u32, img_h: u32, ws: Seq<WordView>, i: int)
    requires
        img_w <= i32::MAX,
        img_h <= i32::MAX,
        0 <= i < panel_rect::phrase_row(ws).len(),
        forall|k: int|
            0 <= k < panel_rect::phrase_row(ws).len() ==> (#[trigger] panel_rect::phrase_row(
                ws,
            )[k]).right() <= img_w && panel_rect::phrase_row(ws)[k].bottom() <= img_h,
    ensures
        panel_rect::phrase_row(ws).len() < 2 <==> panel_rect::rect_by_phrase(img_w, img_h, ws) is None,
        panel_rect::rect_by_phrase(img_w, img_h, ws) matches Some(r) ==> {
            let b = panel_rect::phrase_row(ws)[i];
            &&& r.x <= b.x
            &&& b.right() <= r.right()
            &&& r.y <= b.y
            &&& b.bottom() <= r.bottom()
            &&& r.x + 18 * b.h <= b.x || r.x == 0
            &&& b.right() + 18 * b.h <= r.right() || r.right() == img_w
            &&& r.y + 20 * b.h <= b.y || r.y == 0
            &&& b.bottom() + 14 * b.h <= r.bottom() || r.bottom() == img_h
        },
{
    let row = panel_rect::phrase_row(ws);
    if row.len() >= 2 {
        law_lowest_and_highest(geometry::lefts(row));
        law_lowest_and_highest(geometry::rights(row));
        law_lowest_and_highest(geometry::tops(row));
        law_lowest_and_highest(geometry::bottoms(row));
        assert(geometry::lefts(row)[i] == row[i].x);
        assert(geometry::rights(row)[i] == row[i].right());
        assert(geometry::tops(row)[i] == row[i].y);
        assert(geometry::bottoms(row)[i] == row[i].bottom());
        let a = choose|a: int|
            0 <= a < row.len() && geometry::rights(row)[a] == geometry::highest(
                geometry::rights(row),
            );
        assert(row[a].right() <= img_w);
        let b = choose|b: int|
            0 <= b < row.len() && geometry::bottoms(row)[b] == geometry::highest(
                geometry::bottoms(row),
            );
        assert(row[b].bottom() <= img_h);
    }
}

/// A rectangle of the enlarged picture is half as large, and half as far from
/// the corner, in the picture itself.
pub proof fn law_reduced(b: BBox)
    ensures
        2 * grid::reduced(b).x <= b.x <= 2 * grid::reduced(b).x + 1,
        2 * grid::reduced(b).y <= b.y <= 2 * grid::reduced(b).y + 1,
        2 * grid::reduced(b).w <= b.w <= 2 * grid::reduced(b).w + 1,
        2 * grid::reduced(b).h <= b.h <= 2 * grid::reduced(b).h + 1,
{
}

/// The button to level up is taken to lie beside the other one, as large as
/// it, one and three quarters of its width to the right, unless it is seen.
pub proof fn law_unseen_button(back: BBox, seen: BBox)
    requires
        back.x + back.w * 7 / 4 <= u32::MAX,
    ensures
        grid::level_up_button(back, None).x == back.x + back.w * 7 / 4,
        grid::level_up_button(back, None).y == back.y,
        grid::level_up_button(back, None).w == back.w,
        grid::level_up_button(back, None).h == back.h,
        grid::level_up_button(back, Some(seen)).x == seen.x,
        grid::level_up_button(back, Some(seen)).y == seen.y,
        grid::level_up_button(back, Some(seen)).w >= seen.w,
        grid::level_up_button(back, Some(seen)).w >= back.w,
        grid::level_up_button(back, Some(seen)).h >= seen.h,
        grid::level_up_button(back, Some(seen)).h >= back.h,
{
}

/// The frame reaches from half a row before the one button to half a row
/// behind the other, and its row is as high as both together, twenty at least.
pub proof fn law_frame_holds_the_buttons(back: BBox, level_up: BBox)
    requires
        back.x <= level_up.right(),
    ensures
        ({
            let f = grid::frame_of(back, level_up);
            &&& f.row_h >= 20
            &&& f.row_h >= back.h
            &&& f.row_h >= level_up.h
            &&& f.left <= back.x
            &&& f.left + f.width == level_up.right() + f.row_h / 2
            &&& back.x >= f.row_h / 2 ==> f.left == back.x - f.row_h / 2
            &&& back.x < f.row_h / 2 ==> f.left == 0
        }),
{
}

proof fn lemma_cell_regions_len(row: CellRow, row_h: int, pitch: int, n: int)
    requires
        0 <= n,
    ensures
        grid::all_cell_regions(row, row_h, pitch, n).len() == 2 * n,
        forall|k: int|
            0 <= k < n ==> #[trigger] grid::all_cell_regions(row, row_h, pitch, n)[2 * k]
                == grid::cell_regions(k, row.centers[k], row_h, row.mid_y, pitch)[0],
        forall|k: int|
            0 <= k < n ==> #[trigger] grid::all_cell_regions(row, row_h, pitch, n)[2 * k + 1]
                == grid::cell_regions(k, row.centers[k], row_h, row.mid_y, pitch)[1],
    decreases n,
{
    if n > 0 {
        lemma_cell_regions_len(row, row_h, pitch, n - 1);
        let before = grid::all_cell_regions(row, row_h, pitch, n - 1);
        let all = grid::all_cell_regions(row, row_h, pitch, n);
        assert forall|k: int| 0 <= k < n implies #[trigger] all[2 * k] == grid::cell_regions(
            k,
            row.centers[k],
            row_h,
            row.mid_y,
            pitch,
        )[0] by {
            if k < n - 1 {
                assert(all[2 * k] == before[2 * k]);
            }
        }
        assert forall|k: int| 0 <= k < n implies #[trigger] all[2 * k + 1] == grid::cell_regions(
            k,
            row.centers[k],
            row_h,
            row.mid_y,
            pitch,
        )[1] by {
            if k < n - 1 {
                assert(all[2 * k + 1] == before[2 * k + 1]);
            }
        }
    }
}

/// The layout names the title, the level, the phrase and the cost, then each
/// cell with its progress, and last the two buttons where they are.
pub proof fn law_regions_are_named(ws: Seq<WordView>, back: BBox, level_up: BBox)
    ensures
        ({
            let rs = grid::regions_of(ws, back, level_up);
            &&& rs.len() >= 6
            &&& rs.len() % 2 == 0
            &&& rs[0].name == "title"@
            &&& rs[1].name == "level"@
            &&& rs[2].name == "need_anchor"@
            &&& rs[3].name == "cost"@
            &&& rs[rs.len() - 2].name == "BACK"@ && rs[rs.len() - 2].rect == back
            &&& rs[rs.len() - 1].name == "LEVEL UP"@ && rs[rs.len() - 1].rect == level_up
            &&& forall|k: int|
                0 <= k && 2 * k + 6 < rs.len() ==> (#[trigger] rs[2 * k + 4]).name == "cell"@
                    + text::decimal(k as nat)
            &&& forall|k: int|
                0 <= k && 2 * k + 6 < rs.len() ==> (#[trigger] rs[2 * k + 5]).name == "cell"@
                    + text::decimal(k as nat) + "_progress"@
        }),
{
    let frame = grid::frame_of(back, level_up);
    let anchor = grid::anchor_of(
        geometry::boxes(geometry::kept(ws, |w: WordView| grid::like_anchor(w))),
        back,
        frame.row_h,
    );
    let row = grid::cell_row(
        grid::label_boxes(geometry::boxes(geometry::kept(ws, |w: WordView| grid::like_label(w)))),
        frame,
        anchor,
        back,
    );
    let pitch = grid::cell_pitch(row.centers, frame.width);
    let n = row.centers.len() as int;
    let rs = grid::regions_of(ws, back, level_up);
    let head = grid::head_regions(frame, anchor, row.mid_y, pitch);
    let mid = grid::all_cell_regions(row, frame.row_h, pitch, n);
    lemma_cell_regions_len(row, frame.row_h, pitch, n);
    assert(head.len() == 4);
    assert(rs.len() == 4 + 2 * n + 2);
    assert forall|k: int| 0 <= k && 2 * k + 6 < rs.len() implies (#[trigger] rs[2 * k + 4]).name
        == "cell"@ + text::decimal(k as nat) by {
        assert(rs[2 * k + 4] == mid[2 * k]);
    }
    assert forall|k: int| 0 <= k && 2 * k + 6 < rs.len() implies (#[trigger] rs[2 * k + 5]).name
        == "cell"@ + text::decimal(k as nat) + "_progress"@ by {
        assert(rs[2 * k + 5] == mid[2 * k + 1]);
    }
}

/// A cell reaches from a quarter of a row below its labels to four rows above
/// that, nine tenths as wide as the cells are apart, around its middle; its
/// progress lies in the middle three quarters of it.
pub proof fn law_cell_regions(i: int, center: u32, row_h: int, mid_y: int, pitch: int)
    requires
        0 <= i,
        4 <= row_h <= 1_000_000,
        4 * row_h <= mid_y <= 1_000_000,
        0 <= pitch <= 1_000_000,
        pitch <= center <= 1_000_000,
    ensures
        ({
            let rs = grid::cell_regions(i, center, row_h, mid_y, pitch);
            let cell = rs[0].rect;
            let progress = rs[1].rect;
            &&& rs.len() == 2
            &&& cell.y + cell.h == mid_y + row_h / 4
            &&& cell.h == 4 * row_h
            &&& cell.w == pitch * 9 / 10
            &&& cell.x <= center <= cell.x + cell.w
            &&& cell.x <= progress.x && progress.x + progress.w <= cell.x + cell.w
            &&& cell.y <= progress.y && progress.y + progress.h <= cell.y + cell.h
            &&& progress.h == row_h * 3 / 4
            &&& progress.w == cell.w * 3 / 4
        }),
{
}

/// Where the cells lie evenly, the distance from one to the next is theirs. One
/// alone has the whole width.
pub proof fn law_even_pitch(centers: Seq<u32>, step: u32, width: int, cell_h: int)
    requires
        centers.len() >= 1,
        forall|i: int| 0 <= i < centers.len() - 1 ==> centers[i] + step == #[trigger] centers[i + 1],
    ensures
        centers.len() >= 2 ==> grid::cell_pitch(centers, width) == step,
        centers.len() >= 2 ==> cells::pitch_of(centers, cell_h) == step,
        centers.len() == 1 ==> grid::cell_pitch(centers, width) == width,
        centers.len() == 1 && 7 * cell_h >= 40 ==> cells::pitch_of(centers, cell_h) == 7 * cell_h,
        centers.len() == 1 && 7 * cell_h < 40 ==> cells::pitch_of(centers, cell_h) == 40,
{
    if centers.len() >= 2 {
        let d = cells::steps(centers);
        law_median(d);
        let k = choose|k: int| 0 <= k < d.len() && d[k] == geometry::median(d);
        assert(centers[k] + step == centers[k + 1]);
    }
}

/// The labels of a panel come from left to right.
pub proof fn law_labels_from_left_to_right(found: Seq<BBox>, i: int, j: int)
    requires
        0 <= i < j < grid::label_boxes(found).len(),
    ensures
        grid::label_boxes(found)[i].x <= grid::label_boxes(found)[j].x,
{
    let h = panel_rect::larger(geometry::median(geometry::heights(found)) as int, 20) as u32;
    let row = geometry::on_row(found, geometry::median(geometry::top_edges(found)), h);
    let gs = panel_rect::groups(
        sorting::in_order::<panel_rect::ByLeft>(row),
        Axis::Across,
        h * 3,
    );
    let all = grid::merged_labels(gs);
    let out = sorting::in_order::<panel_rect::ByLeft>(all);
    sorting::lemma_in_order::<panel_rect::ByLeft>(all);
    assert(!<panel_rect::ByLeft as sorting::Ranked>::precedes(out[j], out[i]));
}

/// Above the cells lie the title, twice as high as the level, which hangs below
/// it; the phrase, over half of the width and in its middle; and the cost, over
/// the middle third and below the phrase.
pub proof fn law_regions_above_the_cells(frame: Frame, anchor: Anchor, mid_y: int, pitch: int)
    requires
        frame.left >= 0,
        frame.width >= 0,
        frame.row_h >= 0,
        anchor.y >= 0,
        anchor.height >= 0,
        mid_y >= 0,
        pitch >= 0,
        frame.left + 2 * frame.width + pitch + anchor.y + 3 * anchor.height + 8 * frame.row_h
            + mid_y <= i32::MAX,
    ensures
        ({
            let r = grid::head_regions(frame, anchor, mid_y, pitch);
            let title = r[0].rect;
            let level = r[1].rect;
            let phrase = r[2].rect;
            let cost = r[3].rect;
            &&& title.x == level.x
            &&& title.bottom() == level.y
            &&& title.h == 2 * level.h
            &&& level.h == frame.row_h
            &&& frame.left <= title.x
            &&& 18 * (title.x - frame.left) <= pitch < 18 * (title.x - frame.left) + 18
            &&& 12 * title.w <= 5 * frame.width < 12 * title.w + 12
            &&& 6 * level.w <= frame.width < 6 * level.w + 6
            &&& anchor.y >= 9 * frame.row_h ==> title.y + 9 * frame.row_h == anchor.y
            &&& anchor.y <= frame.row_h ==> title.y == 0
            &&& phrase.h == anchor.height
            &&& anchor.y >= anchor.height ==> phrase.y + anchor.height / 2 == anchor.y
            &&& 4 * (phrase.x - frame.left) <= frame.width < 4 * (phrase.x - frame.left) + 4
            &&& 2 * phrase.w <= frame.width < 2 * phrase.w + 2
            &&& 3 * (cost.x - frame.left) <= frame.width < 3 * (cost.x - frame.left) + 3
            &&& cost.w == cost.x - frame.left
            &&& cost.y >= anchor.y + anchor.height
            &&& cost.h >= 20
            &&& cost.h > 20 ==> cost.bottom() <= mid_y + frame.row_h / 4
        }),
{
}

} // verus!
