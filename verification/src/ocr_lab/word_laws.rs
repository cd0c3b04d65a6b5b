//! What words are taken for, and which of them make up the parts of a panel.

use crate::ocr_lab::components::ComponentView;
use crate::ocr_lab::engine::{BBox, WordView};
use crate::ocr_lab::geometry;
use crate::ocr_lab::pipeline;
use crate::ocr_lab::pipeline::CostStep;
use crate::ocr_lab::templates;
use crate::ocr_lab::templates::Template;
use crate::ocr_lab::words;
use crate::ocr_lab::words::{ByColumn, ByRow};
use crate::sorting;
use crate::text;
use vstd::prelude::*;
use vstd::seq_lib::*;

verus! {

/// What is kept of a list is what the test holds of, in its order.
pub proof fn law_kept_is_what_holds<A>(s: Seq<A>, p: spec_fn(A) -> bool)
    ensures
        geometry::kept(s, p) == s.filter(p),
    decreases s.len(),
{
    reveal(Seq::filter);
    if s.len() > 0 {
        law_kept_is_what_holds(s.drop_last(), p);
    }
}

pub(crate) proof fn lemma_kept_member<A>(s: Seq<A>, p: spec_fn(A) -> bool, x: A)
    ensures
        geometry::kept(s, p).contains(x) <==> s.contains(x) && p(x),
    decreases s.len(),
{
    if s.len() > 0 {
        let init = s.drop_last();
        lemma_kept_member(init, p, x);
        assert(s =~= init.push(s.last()));
        crate::ids::lemma_contains_push(init, s.last(), x);
        crate::ids::lemma_contains_push(geometry::kept(init, p), s.last(), x);
    }
}

/// A level keeps its length; letters become capitals, and those that stand for
/// a digit become that digit.
pub proof fn law_levels_are_put_right(t: Seq<char>, i: int)
    requires
        0 <= i < t.len(),
    ensures
        words::level_text(t).len() == t.len(),
        t[i] == 'o' || t[i] == 'O' ==> words::level_text(t)[i] == '0',
        t[i] == 'i' || t[i] == 'I' ==> words::level_text(t)[i] == '1',
        text::is_digit(t[i]) ==> words::level_text(t)[i] == t[i],
        t[i] == 'l' || t[i] == 'L' ==> words::level_text(t)[i] == 'L',
        t[i] == 'v' || t[i] == 'V' ==> words::level_text(t)[i] == 'V',
        words::level_text(words::level_text(t)) == words::level_text(t),
{
    assert(words::level_text(words::level_text(t)) =~= words::level_text(t));
}

/// The letters LV and a number are a level, in capitals or not, and it is
/// written in capitals. A level has at least one digit behind its letters.
pub proof fn law_levels_are_known(n: nat, t: Seq<char>)
    ensures
        words::is_level(seq!['L', 'V'] + text::decimal(n)),
        words::is_level(seq!['l', 'v'] + text::decimal(n)),
        words::level_text(seq!['L', 'V'] + text::decimal(n)) == seq!['L', 'V'] + text::decimal(n),
        words::level_text(seq!['l', 'v'] + text::decimal(n)) == seq!['L', 'V'] + text::decimal(n),
        words::is_level(t) ==> t.len() >= 3 && words::is_level(words::level_text(t)),
{
    text::lemma_decimal_digits(n);
    let d = text::decimal(n);
    let a = seq!['L', 'V'] + d;
    let b = seq!['l', 'v'] + d;
    assert forall|i: int| 2 <= i < a.len() implies text::is_digit(
        #[trigger] words::level_text(a)[i],
    ) && words::level_text(a)[i] == a[i] && words::level_text(b)[i] == a[i] by {
        assert(a[i] == d[i - 2]);
        assert(b[i] == d[i - 2]);
    }
    assert forall|i: int| 2 <= i < b.len() implies text::is_digit(
        #[trigger] words::level_text(b)[i],
    ) by {
        assert(words::level_text(a)[i] == words::level_text(b)[i]);
    }
    assert(words::level_text(a) =~= a);
    assert(words::level_text(b) =~= a);
    if words::is_level(t) {
        law_levels_are_put_right(t, 0);
    }
}

/// What stands for digits in two texts stands for them in both together.
/// Digits stand for themselves, and a letter that is a misread digit for that
/// digit.
pub proof fn law_misread_digits(a: Seq<char>, b: Seq<char>, c: char)
    ensures
        words::digits_for(a + b) == words::digits_for(a) + words::digits_for(b),
        text::is_digit(c) ==> words::digits_for(seq![c]) == seq![c],
        c == 'o' || c == 'O' || c == 'D' ==> words::digits_for(seq![c]) == seq!['0'],
        c == 'l' || c == 'I' || c == 'i' || c == '|' ==> words::digits_for(seq![c]) == seq!['1'],
        c == 'z' || c == 'Z' ==> words::digits_for(seq![c]) == seq!['2'],
        c == 'A' ==> words::digits_for(seq![c]) == seq!['4'],
        c == 'b' ==> words::digits_for(seq![c]) == seq!['6'],
        c == 's' || c == 'S' || c == 'B' || c == 'e' || c == 'E' ==> words::digits_for(seq![c])
            == seq!['8'],
        c == 'g' || c == 'q' || c == 'Q' ==> words::digits_for(seq![c]) == seq!['9'],
        c == ' ' || c == ',' || c == '.' || c == '/' || c == '-' ==> words::digits_for(
            seq![c],
        ).len() == 0,
    decreases b.len(),
{
    let one = seq![c];
    assert(one.drop_last() =~= Seq::<char>::empty());
    assert(words::digits_for(one.drop_last()) =~= Seq::<char>::empty());
    assert(one.last() == c);
    if words::digit_for(c) is Some {
        assert(words::digits_for(one) =~= seq![words::digit_for(c).unwrap()]);
    }
    if b.len() == 0 {
        assert(a + b =~= a);
        assert(words::digits_for(a) + words::digits_for(b) =~= words::digits_for(a));
    } else {
        law_misread_digits(a, b.drop_last(), c);
        assert((a + b).drop_last() =~= a + b.drop_last());
        assert(words::digits_for(a + b) =~= words::digits_for(a) + words::digits_for(b));
    }
}

/// A number reads as itself.
pub proof fn law_numbers_read_as_themselves(n: nat)
    ensures
        words::digits_for(text::decimal(n)) == text::decimal(n),
        text::digits_value(words::digits_for(text::decimal(n))) == n,
{
    text::lemma_decimal_digits(n);
    lemma_digits_stay(text::decimal(n));
    text::lemma_decimal_reads_back(n, n);
}

proof fn lemma_digits_stay(t: Seq<char>)
    requires
        forall|i: int| 0 <= i < t.len() ==> text::is_digit(#[trigger] t[i]),
    ensures
        words::digits_for(t) == t,
    decreases t.len(),
{
    if t.len() > 0 {
        let init = t.drop_last();
        assert forall|i: int| 0 <= i < init.len() implies text::is_digit(#[trigger] init[i]) by {
            assert(init[i] == t[i]);
        }
        lemma_digits_stay(init);
        assert(text::is_digit(t[t.len() - 1]));
        assert(init.push(t.last()) =~= t);
    } else {
        assert(words::digits_for(t) =~= t);
    }
}

proof fn lemma_cost_word(ws: Seq<WordView>, cells_top: u32)
    ensures
        match pipeline::cost_word(ws, cells_top) {
            Some(w) => ws.contains(w) && pipeline::can_be_cost(w, cells_top) && forall|i: int|
                0 <= i < ws.len() && pipeline::can_be_cost(#[trigger] ws[i], cells_top)
                    ==> ws[i].bbox.y <= w.bbox.y,
            None => forall|i: int|
                0 <= i < ws.len() ==> !pipeline::can_be_cost(#[trigger] ws[i], cells_top),
        },
    decreases ws.len(),
{
    if ws.len() > 0 {
        let init = ws.drop_last();
        lemma_cost_word(init, cells_top);
        assert(ws =~= init.push(ws.last()));
        assert(ws[ws.len() - 1] == ws.last());
        match pipeline::cost_word(init, cells_top) {
            Some(b) => {
                let k = choose|k: int| 0 <= k < init.len() && init[k] == b;
                assert(ws[k] == b);
                assert forall|i: int|
                    0 <= i < ws.len() && pipeline::can_be_cost(
                        #[trigger] ws[i],
                        cells_top,
                    ) implies ws[i].bbox.y <= pipeline::cost_word(ws, cells_top).unwrap().bbox.y by {
                    if i < init.len() {
                        assert(init[i] == ws[i]);
                    }
                }
            },
            None => {
                assert forall|i: int| 0 <= i < init.len() implies !pipeline::can_be_cost(
                    #[trigger] ws[i],
                    cells_top,
                ) by {
                    assert(init[i] == ws[i]);
                }
            },
        }
    }
}

/// The cost is the number of four to seven digits that stands lowest above the
/// cells. Where there is none, a strip above the cells is read again, which
/// spans the middle half of the panel.
pub proof fn law_cost_is_lowest_above_the_cells(ws: Seq<WordView>, cells_top: u32, pw: u32)
    ensures
        match pipeline::cost_step(ws, cells_top, pw) {
            CostStep::Known(n) => exists|k: int|
                0 <= k < ws.len() && 0 < (#[trigger] ws[k]).bbox.y < cells_top && 4
                    <= words::digits_for(ws[k].text).len() <= 7 && n == text::digits_value(
                    words::digits_for(ws[k].text),
                ) && forall|i: int|
                    0 <= i < ws.len() && 0 < (#[trigger] ws[i]).bbox.y < cells_top && 4
                        <= words::digits_for(ws[i].text).len() <= 7 ==> ws[i].bbox.y
                        <= ws[k].bbox.y,
            CostStep::Reread(strip) => {
                &&& forall|i: int|
                    0 <= i < ws.len() && 0 < (#[trigger] ws[i]).bbox.y < cells_top ==> !(4
                        <= words::digits_for(ws[i].text).len() <= 7)
                &&& strip.x == pw / 4
                &&& strip.w == pw / 2
                &&& strip.h == cells_top / 6
                &&& strip.y + strip.h + strip.h / 2 == cells_top
            },
        },
{
    lemma_cost_word(ws, cells_top);
    match pipeline::cost_word(ws, cells_top) {
        Some(w) => {
            let k = choose|k: int| 0 <= k < ws.len() && ws[k] == w;
            assert(0 < ws[k].bbox.y < cells_top);
            lemma_cost_fits(w.text);
            assert forall|i: int|
                0 <= i < ws.len() && 0 < (#[trigger] ws[i]).bbox.y < cells_top && 4
                    <= words::digits_for(ws[i].text).len() <= 7 implies ws[i].bbox.y
                <= ws[k].bbox.y by {
                assert(pipeline::can_be_cost(ws[i], cells_top));
            }
        },
        None => {
            assert forall|i: int|
                0 <= i < ws.len() && 0 < (#[trigger] ws[i]).bbox.y < cells_top implies !(4
                <= words::digits_for(ws[i].text).len() <= 7) by {
                assert(!pipeline::can_be_cost(ws[i], cells_top));
            }
        },
    }
}

proof fn lemma_few_digits(s: Seq<char>, most: nat)
    requires
        text::all_digits(s),
    ensures
        s.len() == 0 ==> text::digits_value(s) == 0,
        s.len() > 0 && text::digits_value(s.drop_last()) <= most ==> text::digits_value(s) <= most
            * 10 + 9,
        s.len() > 0 ==> text::all_digits(s.drop_last()),
{
    if s.len() > 0 {
        assert(text::is_digit(s[s.len() - 1]));
        assert forall|i: int| 0 <= i < s.drop_last().len() implies text::is_digit(
            #[trigger] s.drop_last()[i],
        ) by {
            assert(text::is_digit(s[i]));
        }
    }
}

proof fn lemma_value_of_few(s: Seq<char>)
    requires
        text::all_digits(s),
        s.len() <= 7,
    ensures
        text::digits_value(s) <= 9_999_999,
        s.len() <= 6 ==> text::digits_value(s) <= 999_999,
        s.len() <= 5 ==> text::digits_value(s) <= 99_999,
        s.len() <= 4 ==> text::digits_value(s) <= 9_999,
        s.len() <= 3 ==> text::digits_value(s) <= 999,
        s.len() <= 2 ==> text::digits_value(s) <= 99,
        s.len() <= 1 ==> text::digits_value(s) <= 9,
    decreases s.len(),
{
    lemma_few_digits(s, 0);
    if s.len() > 0 {
        lemma_value_of_few(s.drop_last());
        lemma_few_digits(s, 9);
        lemma_few_digits(s, 99);
        lemma_few_digits(s, 999);
        lemma_few_digits(s, 9_999);
        lemma_few_digits(s, 99_999);
        lemma_few_digits(s, 999_999);
    }
}

proof fn lemma_cost_fits(t: Seq<char>)
    requires
        words::digits_for(t).len() <= 7,
    ensures
        text::digits_value(words::digits_for(t)) <= u64::MAX,
{
    words::lemma_digits_for(t);
    let d = words::digits_for(t);
    lemma_value_of_few(d);
}

/// The number from one thousand to under a million that a word is.
pub open spec fn can_be_reread(w: WordView, m: nat) -> bool {
    text::parsed_uint(w.text, u64::MAX as nat) == Some(m) && 1_000 <= m < 1_000_000
}

/// A strip that is read again gives the largest number from one thousand to
/// under a million, and nothing where there is none.
pub proof fn law_reread_cost_is_the_largest(ws: Seq<WordView>)
    ensures
        match pipeline::reread_cost(ws) {
            Some(n) => {
                &&& exists|k: int| 0 <= k < ws.len() && can_be_reread(#[trigger] ws[k], n as nat)
                &&& forall|i: int, m: nat|
                    0 <= i < ws.len() && #[trigger] can_be_reread(ws[i], m) ==> m <= n
            },
            None => forall|i: int, m: nat| 0 <= i < ws.len() ==> !#[trigger] can_be_reread(ws[i], m),
        },
    decreases ws.len(),
{
    if ws.len() > 0 {
        let init = ws.drop_last();
        law_reread_cost_is_the_largest(init);
        assert(ws[ws.len() - 1] == ws.last());
        let before = pipeline::reread_cost(init);
        let after = pipeline::reread_cost(ws);
        if before is Some {
            let b = before.unwrap();
            let k = choose|k: int| 0 <= k < init.len() && can_be_reread(#[trigger] init[k], b as nat);
            assert(can_be_reread(ws[k], b as nat));
        }
        if after is Some {
            let n = after.unwrap();
            if before != after {
                assert(can_be_reread(ws[ws.len() - 1], n as nat));
            }
            assert forall|i: int, m: nat|
                0 <= i < ws.len() && #[trigger] can_be_reread(ws[i], m) implies m <= n by {
                if i < init.len() {
                    assert(can_be_reread(init[i], m));
                }
            }
        } else {
            assert forall|i: int, m: nat| 0 <= i < ws.len() implies !#[trigger] can_be_reread(
                ws[i],
                m,
            ) by {
                if i < init.len() {
                    assert(!can_be_reread(init[i], m));
                }
            }
        }
    }
}

/// The level is the first word of the upper half that is one, and nothing
/// where none is.
pub proof fn law_level_is_the_first(ws: Seq<WordView>, ph: u32)
    ensures
        (exists|k: int|
            0 <= k < ws.len() && (#[trigger] ws[k]).bbox.y < ph / 2 && words::is_level(ws[k].text)
                && pipeline::level_of(ws, ph) == words::level_text(ws[k].text) && forall|i: int|
                0 <= i < k ==> !((#[trigger] ws[i]).bbox.y < ph / 2 && words::is_level(ws[i].text)))
            || pipeline::level_of(ws, ph).len() == 0 && forall|i: int|
            0 <= i < ws.len() ==> !((#[trigger] ws[i]).bbox.y < ph / 2 && words::is_level(
                ws[i].text,
            )),
    decreases ws.len(),
{
    if ws.len() > 0 {
        let rest = ws.skip(1);
        law_level_is_the_first(rest, ph);
        if ws[0].bbox.y < ph / 2 && words::is_level(ws[0].text) {
        } else if exists|k: int|
            0 <= k < rest.len() && (#[trigger] rest[k]).bbox.y < ph / 2 && words::is_level(
                rest[k].text,
            ) && pipeline::level_of(rest, ph) == words::level_text(rest[k].text) && forall|i: int|
                0 <= i < k ==> !((#[trigger] rest[i]).bbox.y < ph / 2 && words::is_level(
                    rest[i].text,
                )) {
            let k = choose|k: int|
                0 <= k < rest.len() && (#[trigger] rest[k]).bbox.y < ph / 2 && words::is_level(
                    rest[k].text,
                ) && pipeline::level_of(rest, ph) == words::level_text(rest[k].text) && forall|
                    i: int,
                |
                    0 <= i < k ==> !((#[trigger] rest[i]).bbox.y < ph / 2 && words::is_level(
                        rest[i].text,
                    ));
            assert(ws[k + 1] == rest[k]);
            assert forall|i: int| 0 <= i < k + 1 implies !((#[trigger] ws[i]).bbox.y < ph / 2
                && words::is_level(ws[i].text)) by {
                if i > 0 {
                    assert(rest[i - 1] == ws[i]);
                }
            }
        } else {
            assert forall|i: int| 0 <= i < ws.len() implies !((#[trigger] ws[i]).bbox.y < ph / 2
                && words::is_level(ws[i].text)) by {
                if i > 0 {
                    assert(rest[i - 1] == ws[i]);
                }
            }
        }
    }
}

/// The name of an item is made of the words whose middle lies in its cell and
/// that start in the upper two thirds, have two letters or more and are no part
/// of the frame: row by row, from left to right, with blanks between them.
pub proof fn law_name_is_made_of_the_words_in_the_cell(ws: Seq<WordView>, cell: BBox)
    ensures
        exists|row: Seq<WordView>|
            {
                &&& pipeline::name_of(ws, cell) == #[trigger] words::sentence(row)
                &&& forall|i: int, j: int|
                    0 <= i < j < row.len() ==> (#[trigger] row[i]).bbox.y < (
                    #[trigger] row[j]).bbox.y || row[i].bbox.y == row[j].bbox.y && row[i].bbox.x
                        <= row[j].bbox.x
                &&& forall|w: WordView| #[trigger]
                    row.contains(w) <==> {
                        &&& ws.contains(w)
                        &&& cell.x <= w.bbox.x + w.bbox.w / 2 < cell.x + cell.w
                        &&& cell.y <= w.bbox.y + w.bbox.h / 2 < cell.y + cell.h
                        &&& w.bbox.y < cell.y + cell.h * 2 / 3
                        &&& words::letters(w.text) >= 2
                        &&& !words::chrome(w.text)
                    }
            },
{
    let p = |w: WordView| pipeline::in_name(w, cell);
    let kept = geometry::kept(ws, p);
    let row = sorting::in_order::<ByRow>(kept);
    sorting::lemma_in_order::<ByRow>(kept);
    assert(pipeline::name_of(ws, cell) == words::sentence(row));
    assert forall|i: int, j: int| 0 <= i < j < row.len() implies (#[trigger] row[i]).bbox.y < (
    #[trigger] row[j]).bbox.y || row[i].bbox.y == row[j].bbox.y && row[i].bbox.x
        <= row[j].bbox.x by {
        assert(!<ByRow as sorting::Ranked>::precedes(row[j], row[i]));
    }
    assert forall|w: WordView| #[trigger] row.contains(w) <==> ws.contains(w) && p(w) by {
        lemma_kept_member(ws, p, w);
        lemma_sorted_holds_same(row, kept, w);
    }
}

pub(crate) proof fn lemma_sorted_holds_same<A>(s: Seq<A>, t: Seq<A>, x: A)
    requires
        s.to_multiset() == t.to_multiset(),
    ensures
        s.contains(x) == t.contains(x),
{
    if s.contains(x) {
        let i = choose|i: int| 0 <= i < s.len() && s[i] == x;
        let k = sorting::lemma_same_elements(s, t, i);
        assert(t[k] == x);
    }
    if t.contains(x) {
        let i = choose|i: int| 0 <= i < t.len() && t[i] == x;
        let k = sorting::lemma_same_elements(t, s, i);
        assert(s[k] == x);
    }
}

/// The title is made of words of the upper quarter with two letters or numbers
/// or more that are no level: of all those on the row of one of them, from left
/// to right, with blanks between them. No word of the upper quarter that is as
/// tall as that one stands above it.
pub proof fn law_title_is_one_row(ws: Seq<WordView>, ph: u32, some: WordView)
    requires
        ws.contains(some),
        some.bbox.y < ph / 4,
        !words::is_level(some.text),
        words::alphanumerics(some.text) >= 2,
    ensures
        exists|row: Seq<WordView>, seed: WordView|
            {
                &&& words::title_of(ws, ph) == #[trigger] words::sentence(row)
                &&& ws.contains(seed)
                &&& #[trigger] words::in_title(seed, ph)
                &&& forall|i: int, j: int|
                    0 <= i < j < row.len() ==> (#[trigger] row[i]).bbox.x <= (
                    #[trigger] row[j]).bbox.x
                &&& forall|w: WordView| #[trigger]
                    row.contains(w) <==> {
                        &&& ws.contains(w)
                        &&& w.bbox.y < ph / 4
                        &&& !words::is_level(w.text)
                        &&& words::alphanumerics(w.text) >= 2
                        &&& w.bbox.y < seed.bbox.y + seed.bbox.h
                        &&& seed.bbox.y < w.bbox.y + seed.bbox.h
                    }
                &&& forall|w: WordView| #[trigger]
                    ws.contains(w) && w.bbox.y < ph / 4 && !words::is_level(w.text)
                        && words::alphanumerics(w.text) >= 2 && w.bbox.h >= seed.bbox.h
                        ==> seed.bbox.y <= w.bbox.y
            },
{
    let p = |w: WordView| words::in_title(w, ph);
    let top = geometry::kept(ws, p);
    lemma_kept_member(ws, p, some);
    let hs = geometry::heights(geometry::boxes(top));
    let cut = words::title_height(top);
    let q = |w: WordView| w.bbox.h >= cut;
    let tall = geometry::kept(top, q);
    geometry::lemma_ascending(hs);
    let at = top.len() as int * 6 / 10;
    assert(hs.contains(geometry::ascending(hs)[at]));
    let k = choose|k: int| 0 <= k < hs.len() && hs[k] == cut;
    assert(top.contains(top[k]));
    lemma_kept_member(top, q, top[k]);
    let order = sorting::in_order::<ByRow>(tall);
    sorting::lemma_in_order::<ByRow>(tall);
    assert(tall.len() > 0);
    let seed = order[0];
    assert(order.contains(seed));
    lemma_sorted_holds_same(order, tall, seed);
    lemma_kept_member(top, q, seed);
    lemma_kept_member(ws, p, seed);
    let near = |w: WordView|
        geometry::distance(w.bbox.y as int, seed.bbox.y as int) < seed.bbox.h;
    let band = geometry::kept(top, near);
    let row = sorting::in_order::<ByColumn>(band);
    sorting::lemma_in_order::<ByColumn>(band);
    assert(words::title_of(ws, ph) == words::sentence(row));
    assert forall|i: int, j: int| 0 <= i < j < row.len() implies (#[trigger] row[i]).bbox.x <= (
    #[trigger] row[j]).bbox.x by {
        assert(!<ByColumn as sorting::Ranked>::precedes(row[j], row[i]));
    }
    assert forall|w: WordView| #[trigger] row.contains(w) <==> ws.contains(w) && p(w) && near(w) by {
        lemma_kept_member(ws, p, w);
        lemma_kept_member(top, near, w);
        lemma_sorted_holds_same(row, band, w);
    }
    assert forall|w: WordView| #[trigger] ws.contains(w) && p(w) && w.bbox.h
        >= seed.bbox.h implies seed.bbox.y <= w.bbox.y by {
        lemma_kept_member(ws, p, w);
        lemma_kept_member(top, q, w);
        lemma_sorted_holds_same(order, tall, w);
        let i = choose|i: int| 0 <= i < order.len() && order[i] == w;
        if i > 0 {
            assert(!<ByRow as sorting::Ranked>::precedes(order[i], order[0]));
        }
    }
    assert(words::in_title(seed, ph));
}

/// A panel whose upper quarter has no such word has no title.
pub proof fn law_no_title(ws: Seq<WordView>, ph: u32)
    requires
        forall|i: int|
            0 <= i < ws.len() ==> (#[trigger] ws[i]).bbox.y >= ph / 4 || words::is_level(ws[i].text)
                || words::alphanumerics(ws[i].text) < 2,
    ensures
        words::title_of(ws, ph).len() == 0,
{
    let p = |w: WordView| words::in_title(w, ph);
    let top = geometry::kept(ws, p);
    if top.len() > 0 {
        assert(top.contains(top[0]));
        lemma_kept_member(ws, p, top[0]);
        let i = choose|i: int| 0 <= i < ws.len() && ws[i] == top[0];
        assert(!words::in_title(ws[i], ph));
    }
}

/// As many pixels agree as there are pixels of the glyph at which the cluster,
/// stretched to its size, has the same flag.
pub proof fn law_agreement_counts(c: ComponentView, t: Template, n: nat)
    ensures
        templates::agreement(c, t, n as int) == Seq::new(n, |i: int| i).filter(
            |i: int| templates::agrees_on(c, t, i),
        ).len(),
    decreases n,
{
    reveal(Seq::filter);
    let f = |i: int| templates::agrees_on(c, t, i);
    let s = Seq::new(n, |i: int| i);
    if n > 0 {
        law_agreement_counts(c, t, (n - 1) as nat);
        assert(s.drop_last() =~= Seq::new((n - 1) as nat, |i: int| i));
    }
}

/// No glyph matches a cluster better than the one it is read as, and no later
/// one as well.
pub proof fn law_best_glyph_wins(c: ComponentView, ts: Seq<Template>, n: int, j: int)
    requires
        0 < n <= ts.len(),
        0 <= j < n,
        forall|i: int| 0 <= i < ts.len() ==> (#[trigger] ts[i]).wf() && ts[i].w * ts[i].h > 0,
    ensures
        0 <= templates::best_of(c, ts, n) < n,
        ({
            let b = templates::best_of(c, ts, n);
            let best = templates::score_of(c, ts[b]);
            let other = templates::score_of(c, ts[j]);
            &&& other.agree * best.total <= best.agree * other.total
            &&& j > b ==> other.agree * best.total < best.agree * other.total
        }),
    decreases n,
{
    if n > 1 {
        let b = templates::best_of(c, ts, n - 1);
        law_best_glyph_wins(c, ts, n - 1, if j < n - 1 {
            j
        } else {
            0
        });
        let new = templates::score_of(c, ts[n - 1]);
        let best = templates::score_of(c, ts[b]);
        let other = templates::score_of(c, ts[j]);
        assert(ts[b].w * ts[b].h > 0);
        assert(ts[n - 1].w * ts[n - 1].h > 0);
        assert(ts[j].w * ts[j].h > 0);
        if !best.beats(new) && j < n - 1 {
            assert(other.agree * new.total <= new.agree * other.total) by (nonlinear_arith)
                requires
                    other.agree * best.total <= best.agree * other.total,
                    best.agree * new.total <= new.agree * best.total,
                    best.total > 0,
                    new.total > 0,
                    other.total > 0,
                    other.agree >= 0,
                    new.agree >= 0,
                    best.agree >= 0,
            {
                assert(other.agree * best.total * new.total <= best.agree * other.total * new.total);
                assert(best.agree * new.total * other.total <= new.agree * best.total * other.total);
                assert((other.agree * new.total) * best.total <= (new.agree * other.total)
                    * best.total);
            }
        }
    }
}

} // verus!
