//! What a click hits and does, and when the overlay is shown.

use crate::canvas::{Canvas, Rgba};
use crate::vr::capture;
use crate::vr::glyphs;
use crate::vr::guide;
use crate::vr::input;
use crate::vr::input::{ClickView, Debouncer, Spot};
use crate::vr::pose;
use crate::vr::pose::{Visibility, VisibilityFsm};
use crate::vr::render::CellHitView;
use vstd::prelude::*;

verus! {

/// A spot hits the first cell that it lies in, edges included, and nothing
/// where it lies in none.
pub proof fn law_hits(hits: Seq<CellHitView>, spot: Spot, from: int)
    requires
        0 <= from,
    ensures
        match input::first_hit(hits, spot, from) {
            Some(i) => {
                &&& from <= i < hits.len()
                &&& hits[i].hit_rect.x <= spot.left
                &&& spot.right <= hits[i].hit_rect.x + hits[i].hit_rect.w
                &&& hits[i].hit_rect.y <= spot.top
                &&& spot.bottom <= hits[i].hit_rect.y + hits[i].hit_rect.h
                &&& forall|j: int| from <= j < i ==> !spot.in_area((#[trigger] hits[j]).hit_rect)
            },
            None => forall|j: int|
                from <= j < hits.len() ==> spot.left < (#[trigger] hits[j]).hit_rect.x || spot.right
                    > hits[j].hit_rect.x + hits[j].hit_rect.w || spot.top < hits[j].hit_rect.y
                    || spot.bottom > hits[j].hit_rect.y + hits[j].hit_rect.h,
        },
    decreases hits.len() - from,
{
    if from < hits.len() && !spot.in_area(hits[from].hit_rect) {
        law_hits(hits, spot, from + 1);
    }
}

/// What is pointed at is what the first hand points at that points at
/// anything.
pub proof fn law_first_hand_hovers(hits: Seq<CellHitView>, spots: Seq<Option<Spot>>)
    ensures
        match input::first_hover(hits, spots) {
            Some(id) => exists|k: int|
                0 <= k < spots.len() && (#[trigger] spots[k]) is Some && input::first_hit(
                    hits,
                    spots[k].unwrap(),
                    0,
                ) is Some && id == hits[input::first_hit(hits, spots[k].unwrap(), 0).unwrap()].item_id
                    && forall|j: int|
                    0 <= j < k && (#[trigger] spots[j]) is Some ==> input::first_hit(
                        hits,
                        spots[j].unwrap(),
                        0,
                    ) is None,
            None => forall|j: int|
                0 <= j < spots.len() && (#[trigger] spots[j]) is Some ==> input::first_hit(
                    hits,
                    spots[j].unwrap(),
                    0,
                ) is None,
        },
    decreases spots.len(),
{
    if spots.len() > 0 {
        let rest = spots.skip(1);
        law_first_hand_hovers(hits, rest);
        if spots[0] is Some && input::first_hit(hits, spots[0].unwrap(), 0) is Some {
        } else if input::first_hover(hits, rest) is Some {
            let id = input::first_hover(hits, rest).unwrap();
            let k = choose|k: int|
                0 <= k < rest.len() && (#[trigger] rest[k]) is Some && input::first_hit(
                    hits,
                    rest[k].unwrap(),
                    0,
                ) is Some && id == hits[input::first_hit(hits, rest[k].unwrap(), 0).unwrap()].item_id
                    && forall|j: int|
                    0 <= j < k && (#[trigger] rest[j]) is Some ==> input::first_hit(
                        hits,
                        rest[j].unwrap(),
                        0,
                    ) is None;
            assert(spots[k + 1] == rest[k]);
            assert forall|j: int| 0 <= j < k + 1 && (#[trigger] spots[j]) is Some implies input::first_hit(
                hits,
                spots[j].unwrap(),
                0,
            ) is None by {
                if j > 0 {
                    assert(rest[j - 1] == spots[j]);
                }
            }
        } else {
            assert forall|j: int|
                0 <= j < spots.len() && (#[trigger] spots[j]) is Some implies input::first_hit(
                hits,
                spots[j].unwrap(),
                0,
            ) is None by {
                if j > 0 {
                    assert(rest[j - 1] == spots[j]);
                }
            }
        }
    }
}

/// A click counts one more, until as many are there as are needed; then it
/// starts over. Where none is needed it never does.
pub proof fn law_clicks_count_up(collected: Map<Seq<char>, u32>, hit: CellHitView, n: u32)
    requires
        n > 0 ==> collected.contains_key(hit.item_id) && collected[hit.item_id] == n,
        n == 0 ==> !collected.contains_key(hit.item_id),
    ensures
        n < hit.needed ==> input::click_outcome(collected, hit) == (ClickView::Incremented {
            item_id: hit.item_id,
            new_value: (n + 1) as u32,
        }),
        hit.needed > 0 && n >= hit.needed ==> input::click_outcome(collected, hit) == (
        ClickView::Reset { item_id: hit.item_id }),
        hit.needed == 0 && n < u32::MAX ==> input::click_outcome(collected, hit) == (
        ClickView::Incremented { item_id: hit.item_id, new_value: (n + 1) as u32 }),
{
}

/// A second click on an item counts from a tenth of a second after the first
/// that counted.
pub proof fn law_debounce(clicks: Map<Seq<char>, u64>, item: Seq<char>, then: u64, now: u64)
    ensures
        !clicks.contains_key(item) ==> !input::too_soon(clicks, item, now),
        then <= now ==> input::too_soon(clicks.insert(item, then), item, now) == (now - then
            < 100_000_000),
        now < then ==> input::too_soon(clicks.insert(item, then), item, now),
{
}

/// Who looks up and goes on looking up sees the overlay once the dwell is
/// over, and not before.
pub proof fn law_shown_once_the_dwell_is_over(
    up: i32,
    still: i32,
    then: u64,
    now: u64,
    show: i32,
    hide: i32,
    dwell: u64,
)
    requires
        hide <= show,
        up >= show,
        still >= show,
        then <= now,
    ensures
        ({
            let first = VisibilityFsm::start().after(up, then, show, hide, dwell);
            let second = first.after(still, now, show, hide, dwell);
            &&& first.state == Visibility::PendingShow
            &&& now - then >= dwell ==> second.state == Visibility::Visible
            &&& now - then < dwell ==> second == first
        }),
{
}

/// The head is up from sixty degrees on and down below forty-five, and the
/// dwell is 350 thousandths of a second.
pub proof fn law_looking_up(fsm: VisibilityFsm, pitch: i32, now: u64)
    requires
        fsm.wf(),
    ensures
        ({
            let next = fsm.after(
                pitch,
                now,
                pose::SHOW_PITCH_DEG,
                pose::HIDE_PITCH_DEG,
                (pose::DWELL_MS * pose::MS) as u64,
            );
            &&& pitch < 45 ==> next.state == Visibility::Hidden
            &&& 45 <= pitch < 60 ==> next == fsm
            &&& pitch >= 60 && fsm.state == Visibility::Hidden ==> next.state
                == Visibility::PendingShow && next.pending_since == Some(now)
            &&& pitch >= 60 && fsm.state == Visibility::PendingShow && now
                >= fsm.pending_since.unwrap() ==> (next.state == Visibility::Visible <==> now
                - fsm.pending_since.unwrap() >= 350_000_000)
            &&& pitch >= 45 && fsm.state == Visibility::Visible ==> next.state
                == Visibility::Visible
        }),
{
}

/// Once shown the overlay stays until the head is lowered.
pub proof fn law_shown_until_lowered(
    fsm: VisibilityFsm,
    pitch: i32,
    now: u64,
    show: i32,
    hide: i32,
    dwell: u64,
)
    requires
        fsm.state == Visibility::Visible,
    ensures
        pitch >= hide ==> fsm.after(pitch, now, show, hide, dwell).state == Visibility::Visible,
        pitch < hide ==> fsm.after(pitch, now, show, hide, dwell).state == Visibility::Hidden,
{
}

/// To exchange red and blue takes the first byte of a pixel for the third and
/// the third for the first, and leaves the other two.
pub proof fn law_red_and_blue_change_places(p: int)
    requires
        0 <= p,
    ensures
        capture::exchanged(4 * p) == 4 * p + 2,
        capture::exchanged(4 * p + 1) == 4 * p + 1,
        capture::exchanged(4 * p + 2) == 4 * p,
        capture::exchanged(4 * p + 3) == 4 * p + 3,
{
}

/// What is covered in full by an opaque colour has that colour; no channel
/// becomes brighter than the brighter one of the two.
pub proof fn law_covering(px: Rgba, color: Rgba, cover: u8)
    ensures
        color.a == 255 && cover == 255 ==> glyphs::laid_over(px, color, cover) == color,
        glyphs::laid_over(px, color, cover).r <= px.r || glyphs::laid_over(px, color, cover).r
            <= color.r,
        glyphs::laid_over(px, color, cover).g <= px.g || glyphs::laid_over(px, color, cover).g
            <= color.g,
        glyphs::laid_over(px, color, cover).b <= px.b || glyphs::laid_over(px, color, cover).b
            <= color.b,
        px.a == 255 ==> glyphs::laid_over(px, color, cover).a >= 254,
{
    let sa = cover * color.a / 255;
    assert(0 <= cover * color.a / 255 <= 255) by (nonlinear_arith)
        requires
            0 <= cover <= 255,
            0 <= color.a <= 255,
    ;
    if cover == 255 && color.a == 255 {
        assert(sa == 255);
    }
    lemma_mix(color.r as int, sa, px.r as int);
    lemma_mix(color.g as int, sa, px.g as int);
    lemma_mix(color.b as int, sa, px.b as int);
    lemma_mix(255, sa, px.a as int);
}

proof fn lemma_mix(v: int, sa: int, d: int)
    requires
        0 <= v <= 255,
        0 <= sa <= 255,
        0 <= d <= 255,
    ensures
        v * sa / 255 + d * (255 - sa) / 255 <= v || v * sa / 255 + d * (255 - sa) / 255 <= d,
        sa == 255 ==> v * sa / 255 + d * (255 - sa) / 255 == v,
        v == 255 && d == 255 ==> v * sa / 255 + d * (255 - sa) / 255 >= 254,
{
    let m = if v < d {
        d
    } else {
        v
    };
    let a = v * sa;
    let b = d * (255 - sa);
    assert(a + b <= m * 255) by (nonlinear_arith)
        requires
            a == v * sa,
            b == d * (255 - sa),
            v <= m,
            d <= m,
            0 <= sa <= 255,
    ;
    assert(0 <= a && 0 <= b) by (nonlinear_arith)
        requires
            a == v * sa,
            b == d * (255 - sa),
            0 <= v,
            0 <= d,
            0 <= sa <= 255,
    ;
    assert(a / 255 + b / 255 <= m) by {
        assert(a / 255 * 255 <= a);
        assert(b / 255 * 255 <= b);
    }
    if sa == 255 {
        assert(b == 0) by (nonlinear_arith)
            requires
                b == d * (255 - sa),
                sa == 255,
        ;
    }
    if v == 255 && d == 255 {
        assert(a + b == 255 * 255) by (nonlinear_arith)
            requires
                a == v * sa,
                b == d * (255 - sa),
                v == 255,
                d == 255,
        ;
    }
}

/// The bytes of a texture keep their places within their rows, and the rows
/// follow one another without a gap.
pub proof fn law_rows_are_packed(
    src: Seq<u8>,
    pitch: int,
    w: int,
    h: int,
    out: Seq<u8>,
    x: int,
    y: int,
    c: int,
)
    requires
        capture::is_packed(src, pitch, w, h, out),
        0 <= x < w,
        0 <= y < h,
        0 <= c < 4,
    ensures
        out.len() == 4 * w * h,
        out[4 * (y * w + x) + c] == src[y * pitch + 4 * x + c],
{
    assert(capture::row_byte(out, w * 4, y, 4 * x + c) == out[y * (w * 4) + (4 * x + c)]);
    assert(y * (w * 4) + (4 * x + c) == 4 * (y * w + x) + c) by (nonlinear_arith);
    assert(w * h * 4 == 4 * w * h) by (nonlinear_arith);
}

/// A click that counts starts the wait anew: one on the same item within a tenth
/// of a second is dropped and does not prolong the wait, a later one counts, and
/// other items do not wait.
pub proof fn law_clicks_in_a_row(
    first: &mut Debouncer,
    then: &mut Debouncer,
    item: &String,
    t: u64,
    u: u64,
    r: bool,
    s: bool,
)
    requires
        call_ensures(Debouncer::should_drop, (first, item, t), r),
        old(then).last_click@ == final(first).last_click@,
        call_ensures(Debouncer::should_drop, (then, item, u), s),
        t <= u,
    ensures
        !r ==> (s <==> u - t < 100_000_000),
        s ==> final(then).last_click@ == old(then).last_click@,
        r ==> final(first).last_click@ == old(first).last_click@,
        forall|other: Seq<char>| #![trigger final(first).last_click@.contains_key(other)]
            other != item@ ==> final(first).last_click@.contains_key(other)
                == old(first).last_click@.contains_key(other),
{
}

/// The picture of one eye lies where that of the other eye does not: what the
/// left half shows for the left eye, the right half shows for the right one.
pub proof fn law_eyes_lie_side_by_side(
    content: &Canvas,
    left: Canvas,
    right: Canvas,
    x: int,
    y: int,
)
    requires
        call_ensures(guide::side_by_side, (content, true), left),
        call_ensures(guide::side_by_side, (content, false), right),
        content.inside(x, y),
    ensures
        left.w == right.w == 2 * content.w,
        left.h == right.h == content.h,
        left.spec_get(x, y) == content.spec_get(x, y),
        right.spec_get(x + content.w, y) == content.spec_get(x, y),
        left.spec_get(x + content.w, y).a == 0,
        right.spec_get(x, y).a == 0,
{
    assert(left.inside(x, y) && left.inside(x + content.w, y));
    assert(right.inside(x, y) && right.inside(x + content.w, y));
}

} // verus!
