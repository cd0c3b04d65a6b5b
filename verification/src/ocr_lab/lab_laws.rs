//! What the lab makes of its arguments, its words and its passes.

use crate::ocr_lab::cells;
use crate::ocr_lab::cells::Pair;
use crate::ocr_lab::components;
use crate::ocr_lab::components::ComponentView;
use crate::ocr_lab::engine;
use crate::ocr_lab::engine::{BBox, Psm, WordView};
use crate::ocr_lab::geometry;
use crate::ocr_lab::grid;
use crate::ocr_lab::grid::{Anchor, Frame};
use crate::ocr_lab::lab;
use crate::ocr_lab::lab::Shade;
use crate::ocr_lab::layout_laws;
use crate::ocr_lab::panel_rect;
use crate::ocr_lab::panel_rect::{Axis, ByTop};
use crate::ocr_lab::pipeline;
use crate::ocr_lab::pipeline::ItemView;
use crate::ocr_lab::raster;
use crate::ocr_lab::raster::Gray;
use crate::ocr_lab::score;
use crate::ocr_lab::score::PanelView;
use crate::ocr_lab::templates;
use crate::ocr_lab::templates::Template;
use crate::ocr_lab::trials;
use crate::ocr_lab::words;
use crate::sorting;
use crate::text;
use crate::text_laws;
use vstd::prelude::*;
use vstd::seq_lib::*;
use vstd::string::*;

verus! {

/// A name of an image that ends as one stays; any other gets the usual ending.
pub proof fn law_image_names(s: Seq<char>)
    ensures
        lab::image_name(s + ".jpg"@) == s + ".jpg"@,
        lab::image_name(s + ".png"@) == s + ".png"@,
        !text::ends_with(s, ".jpg"@) && !text::ends_with(s, ".png"@) ==> lab::image_name(s) == s
            + ".jpg"@,
        lab::image_name(lab::image_name(s)) == lab::image_name(s),
{
    let a = s + ".jpg"@;
    let b = s + ".png"@;
    assert(a.skip(a.len() - ".jpg"@.len()) =~= ".jpg"@);
    assert(b.skip(b.len() - ".png"@.len()) =~= ".png"@);
}

proof fn lemma_digits_are_trimmed(n: nat)
    ensures
        text::trimmed(text::decimal(n)) == text::decimal(n),
{
    let d = text::decimal(n);
    text::lemma_decimal_digits(n);
    assert(text::is_digit(d[0]));
    assert(text::is_digit(d[d.len() - 1]));
}

/// Four numbers with commas between them are a rectangle; any other number of
/// them is none.
pub proof fn law_rectangles(a: u32, b: u32, c: u32, d: u32)
    ensures
        lab::rect_of(
            text::joined(
                seq![
                    text::decimal(a as nat),
                    text::decimal(b as nat),
                    text::decimal(c as nat),
                    text::decimal(d as nat),
                ],
                seq![','],
            ),
        ) == Some((a, b, c, d)),
        lab::rect_of(
            text::joined(
                seq![text::decimal(a as nat), text::decimal(b as nat), text::decimal(c as nat)],
                seq![','],
            ),
        ) is None,
{
    let four = seq![
        text::decimal(a as nat),
        text::decimal(b as nat),
        text::decimal(c as nat),
        text::decimal(d as nat),
    ];
    let three = seq![text::decimal(a as nat), text::decimal(b as nat), text::decimal(c as nat)];
    lemma_number_piece(a);
    lemma_number_piece(b);
    lemma_number_piece(c);
    lemma_number_piece(d);
    assert forall|i: int| 0 <= i < four.len() implies !(#[trigger] four[i]).contains(',') by {}
    assert forall|i: int| 0 <= i < three.len() implies !(#[trigger] three[i]).contains(',') by {}
    text_laws::law_split_pieces(four, ',');
    text_laws::law_split_pieces(three, ',');
    let two = seq![text::decimal(a as nat), text::decimal(b as nat)];
    let one = seq![text::decimal(a as nat)];
    assert(four.drop_last() =~= three);
    assert(three.drop_last() =~= two);
    assert(two.drop_last() =~= one);
    assert(one.drop_last() =~= Seq::<Seq<char>>::empty());
    assert(lab::numbers_of(one.drop_last()) == Some(Seq::<u32>::empty()));
    assert(lab::numbers_of(one) == Some(seq![a])) by {
        assert(Seq::<u32>::empty().push(a) =~= seq![a]);
    }
    assert(lab::numbers_of(two) == Some(seq![a, b])) by {
        assert(seq![a].push(b) =~= seq![a, b]);
    }
    assert(lab::numbers_of(three) == Some(seq![a, b, c])) by {
        assert(seq![a, b].push(c) =~= seq![a, b, c]);
    }
    assert(lab::numbers_of(four) == Some(seq![a, b, c, d])) by {
        assert(seq![a, b, c].push(d) =~= seq![a, b, c, d]);
    }
}

proof fn lemma_number_piece(n: u32)
    ensures
        !text::decimal(n as nat).contains(','),
        text::parsed_uint(text::trimmed(text::decimal(n as nat)), u32::MAX as nat) == Some(n as nat),
{
    lemma_digits_are_trimmed(n as nat);
    text::lemma_decimal_digits(n as nat);
    text::lemma_decimal_reads_back(n as nat, u32::MAX as nat);
    let d = text::decimal(n as nat);
    if d.contains(',') {
        let k = choose|k: int| 0 <= k < d.len() && d[k] == ',';
        assert(text::is_digit(d[k]));
    }
}

proof fn lemma_item_tokens(items: Seq<ItemView>)
    ensures
        lab::item_tokens(items).len() == 2 * items.len(),
        forall|k: int|
            0 <= k < items.len() ==> #[trigger] lab::item_tokens(items)[2 * k] == items[k].name,
        forall|k: int|
            0 <= k < items.len() ==> #[trigger] lab::item_tokens(items)[2 * k + 1] == text::decimal(
                items[k].collected as nat,
            ) + "/"@ + text::decimal(items[k].needed as nat),
    decreases items.len(),
{
    if items.len() > 0 {
        let init = items.drop_last();
        lemma_item_tokens(init);
        let before = lab::item_tokens(init);
        let all = lab::item_tokens(items);
        assert forall|k: int| 0 <= k < items.len() implies #[trigger] all[2 * k]
            == items[k].name by {
            if k < init.len() {
                assert(all[2 * k] == before[2 * k]);
                assert(init[k] == items[k]);
            }
        }
        assert forall|k: int| 0 <= k < items.len() implies #[trigger] all[2 * k + 1]
            == text::decimal(items[k].collected as nat) + "/"@ + text::decimal(
            items[k].needed as nat,
        ) by {
            if k < init.len() {
                assert(all[2 * k + 1] == before[2 * k + 1]);
                assert(init[k] == items[k]);
            }
        }
    }
}

/// A panel is expected to show its title, its level, its cost where that is
/// known, and the name and the progress of each item.
pub proof fn law_expected_tokens(p: PanelView, k: int)
    requires
        0 <= k < p.items.len(),
    ensures
        lab::tokens_of(p)[0] == p.title,
        lab::tokens_of(p)[1] == p.level,
        p.cost matches Some(c) ==> lab::tokens_of(p)[2] == text::decimal(c as nat)
            && lab::tokens_of(p).len() == 3 + 2 * p.items.len() && lab::tokens_of(p)[3 + 2 * k]
            == p.items[k].name && lab::tokens_of(p)[4 + 2 * k] == text::decimal(
            p.items[k].collected as nat,
        ) + "/"@ + text::decimal(p.items[k].needed as nat),
        p.cost is None ==> lab::tokens_of(p).len() == 2 + 2 * p.items.len() && lab::tokens_of(p)[2
            + 2 * k] == p.items[k].name && lab::tokens_of(p)[3 + 2 * k] == text::decimal(
            p.items[k].collected as nat,
        ) + "/"@ + text::decimal(p.items[k].needed as nat),
{
    lemma_item_tokens(p.items);
    let tail = lab::item_tokens(p.items);
    assert(tail[2 * k] == p.items[k].name);
    assert(tail[2 * k + 1] == tail[2 * k + 1]);
}

/// A level is compared with the letters that stand for a digit read as that
/// digit.
pub proof fn law_levels_are_read(t: Seq<char>, i: int)
    requires
        0 <= i < t.len(),
    ensures
        lab::level_read(t).len() == t.len(),
        t[i] == 'o' ==> lab::level_read(t)[i] == '0',
        t[i] == 'i' ==> lab::level_read(t)[i] == '1',
        t[i] != 'o' && t[i] != 'i' ==> lab::level_read(t)[i] == t[i],
{
}

/// A panel whose cost is not known is taken to have it found; else it is found
/// just where one of the words, in small letters and without the blanks around
/// it, is that number. As many names and progresses are looked for as there are
/// items.
pub proof fn law_variant_scores(ds: Seq<Seq<char>>, p: PanelView)
    requires
        p.items.len() <= usize::MAX,
    ensures
        p.cost is None ==> lab::variant_score(ds, p).cost,
        p.cost matches Some(c) ==> (lab::variant_score(ds, p).cost <==> exists|i: int|
            0 <= i < ds.len() && text::ascii_lowered(text::trimmed(#[trigger] ds[i]))
                == text::decimal(c as nat)),
        lab::variant_score(ds, p).name_total == p.items.len(),
        lab::variant_score(ds, p).prog_total == p.items.len(),
        lab::variant_score(ds, p).title <==> forall|k: int|
            0 <= k < text::space_separated(p.title).len() ==> text::holds(
                text::ascii_lowered(text::joined(ds, " "@)),
                text::ascii_lowered(#[trigger] text::space_separated(p.title)[k]),
            ),
{
    if p.cost is Some {
        let want = text::decimal(p.cost.unwrap() as nat);
        let plain = lab::plain_words(ds);
        if plain.contains(want) {
            let i = choose|i: int| 0 <= i < plain.len() && plain[i] == want;
            assert(text::ascii_lowered(text::trimmed(ds[i])) == want);
        }
        if exists|i: int|
            0 <= i < ds.len() && text::ascii_lowered(text::trimmed(#[trigger] ds[i])) == want {
            let i = choose|i: int|
                0 <= i < ds.len() && text::ascii_lowered(text::trimmed(#[trigger] ds[i])) == want;
            assert(plain[i] == want);
        }
    }
}

/// Of no items no share can be told.
pub proof fn law_rates(n: u32, d: u32, percent: Seq<char>)
    ensures
        d == 0 ==> score::rate(n, d, percent) == "n/a"@,
        d > 0 ==> score::rate(n, d, percent) == text::decimal(n as nat) + "/"@ + text::decimal(
            d as nat,
        ) + " ("@ + percent + "%)"@,
{
}

/// Every threshold from 120 to 200 in steps of twenty is tried with every scale
/// from two to eight in steps of two and with each of the three ways to read,
/// once.
pub proof fn law_passes(a: int, b: int, c: int, i: int)
    requires
        0 <= a < 5,
        0 <= b < 4,
        0 <= c < 3,
        0 <= i < 60,
    ensures
        trials::pass_at(12 * a + 3 * b + c).lum == 120 + 20 * a,
        trials::pass_at(12 * a + 3 * b + c).scale == 2 + 2 * b,
        c == 0 ==> trials::pass_at(12 * a + 3 * b + c).psm == Psm::Line,
        c == 1 ==> trials::pass_at(12 * a + 3 * b + c).psm == Psm::Word,
        c == 2 ==> trials::pass_at(12 * a + 3 * b + c).psm == Psm::Sparse,
        trials::pass_at(i) == trials::pass_at(12 * a + 3 * b + c) ==> i == 12 * a + 3 * b + c,
{
}

/// The first word that a test holds of gives the rectangle, and there is none
/// where it holds of no word.
pub proof fn law_first_box(ws: Seq<WordView>, p: spec_fn(WordView) -> bool)
    ensures
        match grid::first_box(ws, p) {
            Some(b) => exists|k: int|
                0 <= k < ws.len() && p(#[trigger] ws[k]) && ws[k].bbox == b && forall|j: int|
                    0 <= j < k ==> !p(#[trigger] ws[j]),
            None => forall|k: int| 0 <= k < ws.len() ==> !p(#[trigger] ws[k]),
        },
    decreases ws.len(),
{
    if ws.len() > 0 {
        let init = ws.drop_last();
        law_first_box(init, p);
        assert(ws[ws.len() - 1] == ws.last());
        let before = geometry::kept(init, p);
        if before.len() > 0 {
            let b = grid::first_box(init, p).unwrap();
            let k = choose|k: int|
                0 <= k < init.len() && p(#[trigger] init[k]) && init[k].bbox == b && forall|j: int|
                    0 <= j < k ==> !p(#[trigger] init[j]);
            assert(ws[k] == init[k]);
            assert forall|j: int| 0 <= j < k implies !p(#[trigger] ws[j]) by {
                assert(init[j] == ws[j]);
            }
            assert(geometry::kept(ws, p)[0] == before[0]);
            assert(grid::first_box(ws, p) == Some(b));
        } else {
            assert forall|j: int| 0 <= j < init.len() implies !p(#[trigger] ws[j]) by {
                assert(init[j] == ws[j]);
            }
        }
    }
}

/// The layout is found just where the button to go back is.
pub proof fn law_layout_needs_the_button(ws: Seq<WordView>)
    ensures
        grid::buttons(ws) is Some <==> exists|k: int|
            0 <= k < ws.len() && grid::like_back(#[trigger] ws[k]),
{
    let p = |w: WordView| grid::like_back(w);
    law_first_box(ws, p);
    if exists|k: int| 0 <= k < ws.len() && grid::like_back(#[trigger] ws[k]) {
        let k = choose|k: int| 0 <= k < ws.len() && grid::like_back(#[trigger] ws[k]);
        assert(p(ws[k]));
    }
}

/// Two words of the button make one rectangle, from the left one to the end of
/// the second; one alone stands for both.
pub proof fn law_button_of_two_words(l: BBox, u: BBox)
    requires
        l.x <= u.x,
        u.right() <= u32::MAX,
    ensures
        ({
            let r = grid::level_up_text(Some(l), Some(u)).unwrap();
            &&& r.x == l.x / 2
            &&& r.w == (u.right() - l.x) / 2
            &&& l.y <= u.y ==> r.y == l.y / 2
            &&& u.y <= l.y ==> r.y == u.y / 2
            &&& l.h <= u.h ==> r.h == u.h / 2
            &&& u.h <= l.h ==> r.h == l.h / 2
        }),
        grid::level_up_text(Some(l), None) == Some(grid::reduced(l)),
        grid::level_up_text(None, Some(u)) == Some(grid::reduced(u)),
        grid::level_up_text(None, None) is None,
{
}

proof fn lemma_total_between(s: Seq<int>, lo: int, hi: int)
    requires
        forall|i: int| 0 <= i < s.len() ==> lo <= #[trigger] s[i] <= hi,
    ensures
        s.len() * lo <= grid::total(s) <= s.len() * hi,
    decreases s.len(),
{
    if s.len() > 0 {
        let init = s.drop_last();
        assert forall|i: int| 0 <= i < init.len() implies lo <= #[trigger] init[i] <= hi by {
            assert(init[i] == s[i]);
        }
        lemma_total_between(init, lo, hi);
        assert(lo <= s[s.len() - 1] <= hi);
        assert(s.len() * lo == (s.len() - 1) * lo + lo) by (nonlinear_arith);
        assert(s.len() * hi == (s.len() - 1) * hi + hi) by (nonlinear_arith);
    }
}

/// The phrase lies at the mean of the middles of its words: between the highest
/// and the lowest. Where fewer than two are seen it is taken to lie five rows
/// above the buttons.
pub proof fn law_where_the_phrase_lies(tokens: Seq<BBox>, back: BBox, row_h: int, lo: int, hi: int)
    requires
        0 <= row_h,
        forall|i: int|
            0 <= i < tokens.len() ==> lo <= (#[trigger] tokens[i]).y + tokens[i].h as int / 2 <= hi,
    ensures
        tokens.len() >= 2 ==> lo / 2 <= grid::anchor_of(tokens, back, row_h).y <= hi / 2,
        tokens.len() < 2 && back.y >= 5 * row_h ==> grid::anchor_of(tokens, back, row_h).y + 5
            * row_h == back.y,
        tokens.len() < 2 ==> grid::anchor_of(tokens, back, row_h).height == row_h / 2,
{
    if tokens.len() >= 2 {
        let ms = grid::middle_rows(tokens);
        assert forall|i: int| 0 <= i < ms.len() implies lo <= #[trigger] ms[i] <= hi by {
            assert(tokens[i].y + tokens[i].h as int / 2 == ms[i]);
        }
        lemma_total_between(ms, lo, hi);
        let n = tokens.len() as int;
        let t = grid::total(ms);
        assert(lo <= t / n <= hi) by (nonlinear_arith)
            requires
                n > 0,
                n * lo <= t <= n * hi,
        ;
    }
}

/// A label lies in the middle of its words, half as far from the corner as in
/// the enlarged picture, and is as wide and high as they reach.
pub proof fn law_label_of_words(bs: Seq<BBox>, i: int)
    requires
        0 <= i < bs.len(),
        forall|k: int|
            0 <= k < bs.len() ==> (#[trigger] bs[k]).right() <= u32::MAX && bs[k].bottom()
                <= u32::MAX,
    ensures
        ({
            let l = grid::label_of(bs);
            &&& 4 * l.x <= geometry::lowest(geometry::lefts(bs)) + geometry::highest(
                geometry::rights(bs),
            )
            &&& 2 * l.w <= geometry::highest(geometry::rights(bs)) - geometry::lowest(
                geometry::lefts(bs),
            ) <= 2 * l.w + 1
            &&& 2 * l.h <= geometry::highest(geometry::bottoms(bs)) - geometry::lowest(
                geometry::tops(bs),
            ) <= 2 * l.h + 1
            &&& 2 * l.w + 1 >= bs[i].w
            &&& 2 * l.h + 1 >= bs[i].h
        }),
{
    layout_laws::law_lowest_and_highest(geometry::lefts(bs));
    layout_laws::law_lowest_and_highest(geometry::rights(bs));
    layout_laws::law_lowest_and_highest(geometry::tops(bs));
    layout_laws::law_lowest_and_highest(geometry::bottoms(bs));
    assert(geometry::lefts(bs)[i] == bs[i].x);
    assert(geometry::rights(bs)[i] == bs[i].right());
    assert(geometry::tops(bs)[i] == bs[i].y);
    assert(geometry::bottoms(bs)[i] == bs[i].bottom());
    let a = choose|a: int|
        0 <= a < bs.len() && geometry::rights(bs)[a] == geometry::highest(geometry::rights(bs));
    assert(bs[a].right() <= u32::MAX);
    let b = choose|b: int|
        0 <= b < bs.len() && geometry::bottoms(bs)[b] == geometry::highest(geometry::bottoms(bs));
    assert(bs[b].bottom() <= u32::MAX);
    let c = choose|c: int|
        0 <= c < bs.len() && geometry::lefts(bs)[c] == geometry::lowest(geometry::lefts(bs));
    let d = choose|d: int|
        0 <= d < bs.len() && geometry::tops(bs)[d] == geometry::lowest(geometry::tops(bs));
}

/// The cells stand where the labels do, from left to right; without labels four
/// of them share the width of the frame, half way between the phrase and the
/// buttons.
pub proof fn law_cells_of_the_layout(
    labels: Seq<BBox>,
    frame: Frame,
    anchor: Anchor,
    back: BBox,
    i: int,
)
    requires
        frame.left >= 0,
        frame.width >= 0,
        frame.left + 2 * frame.width <= u32::MAX,
    ensures
        labels.len() > 0 && 0 <= i < labels.len() ==> grid::cell_row(
            labels,
            frame,
            anchor,
            back,
        ).centers[i] == labels[i].x,
        labels.len() > 0 ==> grid::cell_row(labels, frame, anchor, back).centers.len()
            == labels.len(),
        labels.len() == 0 ==> grid::cell_row(labels, frame, anchor, back).centers.len() == 4
            && grid::cell_row(labels, frame, anchor, back).mid_y == (anchor.y + back.y) / 2,
        labels.len() == 0 && 0 <= i < 3 ==> grid::cell_row(labels, frame, anchor, back).centers[i
            + 1] == grid::cell_row(labels, frame, anchor, back).centers[i] + frame.width / 4,
        labels.len() == 0 ==> grid::cell_row(labels, frame, anchor, back).centers[0] == frame.left
            + frame.width / 4 / 2,
{
    let p = frame.width / 4;
    assert(p * 0 == 0 && p * 1 == p && p * 2 == p + p && p * 3 == p + p + p) by (nonlinear_arith);
    if labels.len() == 0 && 0 <= i < 3 {
        assert(p * (i + 1) == p * i + p) by (nonlinear_arith);
        assert(0 <= p * i <= 3 * p) by (nonlinear_arith)
            requires
                0 <= i < 3,
                0 <= p,
        ;
    }
}

/// The panel around the words that are sure holds every one of the largest
/// group, with eight heights on both sides and six above and below, as far as
/// the picture reaches. There is none just where no word is sure.
pub proof fn law_panel_around_the_words(img_w: u32, img_h: u32, ws: Seq<WordView>, i: int)
    requires
        img_w <= i32::MAX,
        img_h <= i32::MAX,
        ({
            let found = geometry::boxes(geometry::kept(ws, |w: WordView| panel_rect::is_solid(w)));
            let rows = sorting::in_order::<ByTop>(found);
            let h = panel_rect::larger(geometry::median(geometry::heights(rows)) as int, 10);
            let panel = panel_rect::longest(panel_rect::groups(rows, Axis::Down, h * 5));
            &&& found.len() > 0
            &&& 0 <= i < panel.len()
            &&& forall|k: int|
                0 <= k < panel.len() ==> (#[trigger] panel[k]).right() <= img_w
                    && panel[k].bottom() <= img_h
        }),
    ensures
        ({
            let found = geometry::boxes(geometry::kept(ws, |w: WordView| panel_rect::is_solid(w)));
            let rows = sorting::in_order::<ByTop>(found);
            let h = panel_rect::larger(geometry::median(geometry::heights(rows)) as int, 10);
            let panel = panel_rect::longest(panel_rect::groups(rows, Axis::Down, h * 5));
            let r = panel_rect::rect_by_cluster(img_w, img_h, ws).unwrap();
            &&& panel_rect::rect_by_cluster(img_w, img_h, ws) is Some
            &&& r.x <= panel[i].x && panel[i].right() <= r.right()
            &&& r.y <= panel[i].y && panel[i].bottom() <= r.bottom()
            &&& r.x + 8 * h <= panel[i].x || r.x == 0
            &&& panel[i].right() + 8 * h <= r.right() || r.right() == img_w
            &&& r.y + 6 * h <= panel[i].y || r.y == 0
            &&& panel[i].bottom() + 6 * h <= r.bottom() || r.bottom() == img_h
        }),
{
    let found = geometry::boxes(geometry::kept(ws, |w: WordView| panel_rect::is_solid(w)));
    let rows = sorting::in_order::<ByTop>(found);
    let h = panel_rect::larger(geometry::median(geometry::heights(rows)) as int, 10);
    let row = panel_rect::longest(panel_rect::groups(rows, Axis::Down, h * 5));
    layout_laws::law_lowest_and_highest(geometry::lefts(row));
    layout_laws::law_lowest_and_highest(geometry::rights(row));
    layout_laws::law_lowest_and_highest(geometry::tops(row));
    layout_laws::law_lowest_and_highest(geometry::bottoms(row));
    assert(geometry::lefts(row)[i] == row[i].x);
    assert(geometry::rights(row)[i] == row[i].right());
    assert(geometry::tops(row)[i] == row[i].y);
    assert(geometry::bottoms(row)[i] == row[i].bottom());
    let a = choose|a: int|
        0 <= a < row.len() && geometry::rights(row)[a] == geometry::highest(geometry::rights(row));
    assert(row[a].right() <= img_w);
    let b = choose|b: int|
        0 <= b < row.len() && geometry::bottoms(row)[b] == geometry::highest(
            geometry::bottoms(row),
        );
    assert(row[b].bottom() <= img_h);
}

/// The cells reach down to where the tallest label ends and up to five times its
/// height over the topmost one, or to the upper edge where that is nearer.
pub proof fn law_cells_hang_above_their_labels(ws: Seq<WordView>, pw: u32, ph: u32, i: int, k: int)
    requires
        pw <= i32::MAX,
        ph <= i32::MAX,
        0 <= k < cells::labels(ws).len(),
        0 <= i < cells::cells_of(ws, pw, ph).len(),
        geometry::lowest(cells::label_tops(cells::labels(ws))) + geometry::highest(
            cells::label_heights(cells::labels(ws)),
        ) <= ph,
    ensures
        ({
            let cell = cells::cells_of(ws, pw, ph)[i];
            let p = cells::labels(ws)[k];
            let t = geometry::lowest(cells::label_tops(cells::labels(ws)));
            let h = geometry::highest(cells::label_heights(cells::labels(ws)));
            &&& 0 <= t <= p.from.y
            &&& p.from.h <= h
            &&& p.raid.bottom() - p.from.y <= h
            &&& cell.y + cell.h == t + h
            &&& t >= 5 * h ==> cell.y == t - 5 * h
            &&& t < 5 * h ==> cell.y == 0
        }),
{
    let ps = cells::labels(ws);
    layout_laws::law_lowest_and_highest(cells::label_tops(ps));
    layout_laws::law_lowest_and_highest(cells::label_heights(ps));
    assert(cells::label_tops(ps)[k] == ps[k].from.y);
    assert(cells::label_heights(ps)[k] >= ps[k].from.h);
    let a = choose|a: int|
        0 <= a < ps.len() && cells::label_tops(ps)[a] == geometry::lowest(cells::label_tops(ps));
    assert(ps[a].from.y >= 0);
}

/// Two pixels hang together over steps to the side, up or down: of two that do,
/// the first has such a neighbour of text, unless they are one.
pub proof fn law_clusters_grow_by_neighbours(g: Gray, a: (int, int), b: (int, int))
    requires
        g.connected(a, b),
        a != b,
    ensures
        exists|n: (int, int)|
            #[trigger] g.is_text(n.0, n.1) && g.connected(n, b) && {
                ||| n.0 == a.0 && (n.1 == a.1 + 1 || n.1 == a.1 - 1)
                ||| n.1 == a.1 && (n.0 == a.0 + 1 || n.0 == a.0 - 1)
            },
{
    reveal(Gray::is_path);
    let path = choose|path: Seq<(int, int)>| g.is_path(path, a, b);
    let n = path[1];
    assert(components::touching(path[0], path[1]));
    assert(g.is_text(path[1].0, path[1].1));
    let rest = path.skip(1);
    assert forall|i: int| 0 <= i < rest.len() implies g.is_text(
        (#[trigger] rest[i]).0,
        rest[i].1,
    ) by {
        assert(g.is_text(path[i + 1].0, path[i + 1].1));
    }
    assert forall|i: int| 0 <= i < rest.len() - 1 implies components::touching(
        #[trigger] rest[i],
        rest[i + 1],
    ) by {
        assert(components::touching(path[i + 1], path[i + 2]));
    }
    assert(g.is_path(rest, n, b));
    assert(g.is_text(n.0, n.1));
}

/// Pixels of text that lie side by side or one above the other hang together.
pub proof fn law_neighbours_hang_together(g: Gray, x: int, y: int)
    requires
        g.is_text(x, y),
    ensures
        g.is_text(x + 1, y) ==> g.connected((x, y), (x + 1, y)),
        g.is_text(x, y + 1) ==> g.connected((x, y), (x, y + 1)),
        g.connected((x, y), (x, y)),
        g.spec_get(x, y) < 128,
{
    reveal(Gray::is_path);
    assert(g.is_path(seq![(x, y)], (x, y), (x, y)));
    if g.is_text(x + 1, y) {
        assert(g.is_path(seq![(x, y), (x + 1, y)], (x, y), (x + 1, y)));
    }
    if g.is_text(x, y + 1) {
        assert(g.is_path(seq![(x, y), (x, y + 1)], (x, y), (x, y + 1)));
    }
}

/// The cost is read again from the middle half of the panel, in a strip a sixth
/// as high as what lies above the cells, which ends half its height above them.
pub proof fn law_strip_of_the_cost(pw: u32, cells_top: u32)
    ensures
        ({
            let r = pipeline::cost_strip(pw, cells_top);
            &&& 4 * r.x <= pw < 4 * r.x + 4
            &&& 2 * r.w <= pw < 2 * r.w + 2
            &&& 6 * r.h <= cells_top < 6 * r.h + 6
            &&& r.y + r.h + r.h as int / 2 == cells_top
        }),
{
}

/// A pass reads the picture in English, in the mode that is asked for or else
/// as one block, and only the characters that are allowed where some are.
pub proof fn law_arguments_of_a_pass(
    in_path: Seq<char>,
    out_stem: Seq<char>,
    psm: Option<Psm>,
    chars: Seq<char>,
)
    ensures
        ({
            let a = engine::pass_args(in_path, out_stem, psm, None);
            let b = engine::pass_args(in_path, out_stem, psm, Some(chars));
            &&& a[0] == in_path
            &&& a[1] == out_stem
            &&& a[2] == "-l"@ && a[3] == "eng"@
            &&& a[4] == "--psm"@
            &&& psm == Some(Psm::Line) ==> a[5] == text::decimal(7)
            &&& psm == Some(Psm::Word) ==> a[5] == text::decimal(8)
            &&& psm == Some(Psm::Sparse) ==> a[5] == text::decimal(11)
            &&& psm is None || psm == Some(Psm::Block) ==> a[5] == text::decimal(6)
            &&& a.last() == "tsv"@
            &&& b.len() == a.len() + 2
            &&& b.take(a.len() as int) == a
            &&& b[a.len() as int] == "-c"@
            &&& b.last() == "tessedit_char_whitelist="@ + chars
        }),
{
    let a = engine::pass_args(in_path, out_stem, psm, None);
    let b = engine::pass_args(in_path, out_stem, psm, Some(chars));
    assert(b.take(a.len() as int) =~= a);
}

/// Where the cells begin, one of them begins, and none begins above it; without
/// cells it is the lower edge of the panel.
pub proof fn law_where_the_cells_begin(cs: Seq<BBox>, ph: u32, i: int)
    ensures
        cs.len() == 0 ==> pipeline::top_of_cells(cs, ph) == ph,
        0 <= i < cs.len() ==> pipeline::top_of_cells(cs, ph) <= cs[i].y,
        cs.len() > 0 ==> exists|k: int|
            0 <= k < cs.len() && (#[trigger] cs[k]).y == pipeline::top_of_cells(cs, ph),
{
    if cs.len() > 0 {
        let ts = geometry::tops(cs);
        layout_laws::law_lowest_and_highest(ts);
        let k = choose|k: int| 0 <= k < ts.len() && ts[k] == geometry::lowest(ts);
        assert(cs[k].y == ts[k]);
        if 0 <= i < cs.len() {
            assert(ts[i] == cs[i].y);
        }
    }
}

/// A word is read surely just where it is read with more than seventy percent,
/// at least twenty pixels wide and ten high.
pub proof fn law_sure_words(w: WordView)
    ensures
        panel_rect::is_solid(w) <==> w.confidence > 70 * engine::PERCENT && w.bbox.w > 19
            && w.bbox.h > 9,
{
}

/// The middle of a label is as far from its left edge as from its right one.
pub proof fn law_middle_of_a_label(p: Pair)
    requires
        p.from.x + p.raid.right() <= u32::MAX,
    ensures
        0 <= (p.raid.right() - cells::label_middle(p)) - (cells::label_middle(p) - p.from.x) <= 1,
{
}

/// The height that makes a word a large one is that of a word: of ten words in
/// the order of their heights it is that of the seventh.
pub proof fn law_height_of_a_title(top: Seq<WordView>)
    requires
        top.len() > 0,
    ensures
        exists|order: Seq<u32>|
            {
                &&& #[trigger] order.to_multiset() == top.map_values(
                    |w: WordView| w.bbox.h,
                ).to_multiset()
                &&& order.len() == top.len()
                &&& forall|i: int, j: int|
                    0 <= i <= j < order.len() ==> #[trigger] order[i] <= #[trigger] order[j]
                &&& words::title_height(top) == order[top.len() as int * 3 / 5]
            },
{
    let hs = geometry::heights(geometry::boxes(top));
    let order = geometry::ascending(hs);
    geometry::lemma_ascending(hs);
    sorting::lemma_in_order::<u32>(hs);
    assert(hs =~= top.map_values(|w: WordView| w.bbox.h));
    assert(top.len() as int * 6 / 10 == top.len() as int * 3 / 5);
    assert(order.to_multiset() == hs.to_multiset());
}

/// Two digits without a stroke between them are a count and what is needed.
pub proof fn law_two_digits_are_both_counts(a: char, b: char)
    requires
        text::is_digit(a),
        text::is_digit(b),
    ensures
        words::progress_of(seq![a, b]) == Some(
            (((a as u32) - ('0' as u32)) as u32, ((b as u32) - ('0' as u32)) as u32),
        ),
{
    let s = seq![a, b];
    let p = |c: char| words::is_progress_char(c);
    assert(s.drop_last() =~= seq![a]);
    assert(seq![a].drop_last() =~= Seq::<char>::empty());
    assert(geometry::kept(seq![a].drop_last(), p) =~= Seq::<char>::empty());
    assert(geometry::kept(seq![a], p) =~= seq![a]);
    assert(geometry::kept(s, p) =~= s);
    text_laws::law_first_place(s, seq!['/'], 0);
    if text::first_at(s, seq!['/'], 0) is Some {
        let k = text::first_at(s, seq!['/'], 0).unwrap();
        assert(s.subrange(k, k + 1)[0] == '/');
    }
    assert(s.take(1) =~= seq![a]);
    assert(s.skip(1) =~= seq![b]);
    assert(seq![b].drop_last() =~= Seq::<char>::empty());
    assert(text::digits_value(Seq::<char>::empty()) == 0);
    assert(text::digits_value(seq![a]) == (a as u32) - ('0' as u32));
    assert(text::digits_value(seq![b]) == (b as u32) - ('0' as u32));
}

proof fn lemma_all_places_agree(c: ComponentView, t: Template, n: int)
    requires
        0 <= n,
        forall|i: int| 0 <= i < n ==> #[trigger] templates::agrees_on(c, t, i),
    ensures
        templates::agreement(c, t, n) == n,
    decreases n,
{
    if n > 0 {
        lemma_all_places_agree(c, t, n - 1);
        assert(templates::agrees_on(c, t, n - 1));
    }
}

/// A glyph agrees in every place with a cluster that shows it, however many
/// times enlarged.
pub proof fn law_enlarged_glyphs_agree(c: ComponentView, t: Template, k: int)
    requires
        t.wf(),
        t.w > 0,
        t.h > 0,
        k > 0,
        c.w == k * t.w,
        c.h == k * t.h,
        forall|x: int, y: int|
            0 <= x < t.w && 0 <= y < t.h ==> #[trigger] raster::flag(t.mask@, t.w as int, x, y)
                == raster::flag(c.mask, c.w as int, k * x, k * y),
    ensures
        templates::score_of(c, t).agree == templates::score_of(c, t).total,
{
    let w = t.w as int;
    let h = t.h as int;
    assert forall|i: int| 0 <= i < w * h implies #[trigger] templates::agrees_on(c, t, i) by {
        let x = i % w;
        let y = i / w;
        assert(0 <= x < w && 0 <= y < h && i == y * w + x) by (nonlinear_arith)
            requires
                0 <= i < w * h,
                w > 0,
                h > 0,
                x == i % w,
                y == i / w,
        ;
        assert(x * (k * w) / w == k * x) by (nonlinear_arith)
            requires
                w > 0,
        ;
        assert(y * (k * h) / h == k * y) by (nonlinear_arith)
            requires
                h > 0,
        ;
        assert(raster::flag(t.mask@, w, x, y) == t.mask@[i]);
    }
    assert(w * h >= 0) by (nonlinear_arith)
        requires
            w > 0,
            h > 0,
    ;
    lemma_all_places_agree(c, t, w * h);
}

/// A glyph is found again in the file that it was kept in.
pub proof fn law_glyph_files_read_back(label: char, name: String, stem: &str, r: Option<char>)
    requires
        call_ensures(templates::template_file_name, (label,), name),
        name@ == stem@ + ".png"@,
        call_ensures(templates::template_label, (stem,), r),
    ensures
        r == Some(label),
{
    reveal_strlit(".png");
    reveal_strlit("slash");
    reveal_strlit("slash.png");
    assert("slash.png"@ =~= "slash"@ + ".png"@);
    let n = stem@.len() as int;
    assert(name@.take(n) =~= stem@);
    if label == '/' {
        assert(name@.take(n) =~= "slash"@);
    } else {
        assert(name@ == seq![label] + ".png"@);
        assert((seq![label] + ".png"@).len() == 1 + ".png"@.len());
        assert(name@.take(n) =~= seq![label]);
    }
}

/// The images of a directory are its files that end as one, whatever the case,
/// in the order of their names.
pub proof fn law_images_of_a_directory(names: Seq<Seq<char>>, out: Seq<Seq<char>>, i: int, j: int)
    requires
        out == sorting::in_order::<lab::ByName>(lab::images_among(names)),
        0 <= i < j < out.len(),
    ensures
        !text::text_lt(out[j], out[i]),
        names.contains(out[i]),
        text::ends_with(text::ascii_lowered(out[i]), ".jpg"@),
        forall|k: int|
            0 <= k < names.len() && text::ends_with(
                text::ascii_lowered(#[trigger] names[k]),
                ".jpg"@,
            ) ==> out.contains(names[k]),
{
    let p = |n: Seq<char>| text::ends_with(text::ascii_lowered(n), ".jpg"@);
    let kept = lab::images_among(names);
    sorting::lemma_in_order::<lab::ByName>(kept);
    assert(!<lab::ByName as sorting::Ranked>::precedes(out[j], out[i]));
    let k = sorting::lemma_same_elements(out, kept, i);
    let n = sorting::lemma_kept_from(names, p, k);
    assert(names[n] == out[i]);
    assert forall|k: int|
        0 <= k < names.len() && text::ends_with(
            text::ascii_lowered(#[trigger] names[k]),
            ".jpg"@,
        ) implies out.contains(names[k]) by {
        names.lemma_filter_contains(p, k);
        let a = choose|a: int| 0 <= a < kept.len() && kept[a] == names[k];
        let b = sorting::lemma_same_elements(kept, out, a);
    }
}

/// The strip with the progress of a cell is as wide as the cell, begins below
/// six tenths of its height and ends within it; there is none just where the
/// cell is too low for one.
pub proof fn law_strip_of_a_progress(cell: &BBox, r: Option<BBox>)
    requires
        call_ensures(pipeline::progress_strip, (cell,), r),
        cell.fits(),
    ensures
        r matches Some(b) ==> {
            &&& b.x == cell.x && b.w == cell.w
            &&& 100 * (b.y - cell.y) <= 60 * cell.h < 100 * (b.y - cell.y) + 100
            &&& 100 * (b.bottom() - cell.y) <= 88 * cell.h < 100 * (b.bottom() - cell.y) + 100
            &&& b.h > 0
        },
        r is None ==> cell.h < 4,
        cell.h >= 4 ==> r is Some,
{
}

/// A word that is read more surely is shaded no weaker.
pub proof fn law_surer_words_stand_out(a: i64, b: i64, sa: Shade, sb: Shade)
    requires
        a <= b,
        call_ensures(lab::shade_of, (a,), sa),
        call_ensures(lab::shade_of, (b,), sb),
    ensures
        sb == Shade::Hidden ==> sa == Shade::Hidden,
        sa == Shade::High ==> sb == Shade::High,
        sa == Shade::Middle ==> sb == Shade::Middle || sb == Shade::High,
        sa == Shade::Low ==> sb != Shade::Hidden,
        a < 25 * engine::PERCENT <==> sa == Shade::Hidden,
        a >= 75 * engine::PERCENT <==> sa == Shade::High,
        sa == Shade::Middle <==> 50 * engine::PERCENT <= a < 75 * engine::PERCENT,
{
}

} // verus!
