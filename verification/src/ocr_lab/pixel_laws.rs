//! What becomes of the pixels of a picture, and how they are read.

use crate::canvas;
use crate::canvas::Rgba;
use crate::ocr_lab::components::{Component, ComponentView};
use crate::ocr_lab::engine;
use crate::ocr_lab::engine::TsvWordView;
use crate::ocr_lab::pipeline;
use crate::ocr_lab::raster;
use crate::ocr_lab::raster::Gray;
use crate::ocr_lab::templates;
use crate::ocr_lab::templates::Template;
use crate::sorting;
use crate::text;
use crate::text_laws;
use crate::vr::capture;
use vstd::prelude::*;
use vstd::seq_lib::*;

verus! {

/// A pixel brighter than the cutoff becomes black, any other white, and what
/// is added around the picture is white.
pub proof fn law_inverted(g: Gray, cutoff: u8, pad: u32, r: Gray, x: int, y: int)
    requires
        raster::is_inverted(g, cutoff, pad, r),
    ensures
        g.inside(x, y) && g.spec_get(x, y) > cutoff ==> r.spec_get(x + pad, y + pad) == 0,
        g.inside(x, y) && g.spec_get(x, y) <= cutoff ==> r.spec_get(x + pad, y + pad) == 255,
        r.inside(x, y) && (x < pad || y < pad || x >= g.w + pad || y >= g.h + pad) ==> r.spec_get(
            x,
            y,
        ) == 255,
        r.w == g.w + 2 * pad,
        r.h == g.h + 2 * pad,
{
    if g.inside(x, y) {
        assert(r.inside(x + pad, y + pad));
        assert(r.spec_get(x + pad, y + pad) == r.spec_get(x + pad, y + pad));
    }
}

/// A framed picture keeps its pixels, with white around them.
pub proof fn law_framed(g: Gray, pad: u32, r: Gray, x: int, y: int)
    requires
        raster::is_framed(g, pad, r),
    ensures
        g.inside(x, y) ==> r.spec_get(x + pad, y + pad) == g.spec_get(x, y),
        r.inside(x, y) && (x < pad || y < pad || x >= g.w + pad || y >= g.h + pad) ==> r.spec_get(
            x,
            y,
        ) == 255,
{
    if g.inside(x, y) {
        assert(r.inside(x + pad, y + pad));
        assert(r.spec_get(x + pad, y + pad) == r.spec_get(x + pad, y + pad));
    }
}

/// A part of a picture has its pixels, starting at its corner, and ends where
/// the picture does.
pub proof fn law_part(g: Gray, x: u32, y: u32, w: u32, h: u32, r: Gray, a: int, b: int)
    requires
        raster::is_part(g, x, y, w, h, r),
        x <= g.w,
        y <= g.h,
    ensures
        x + w <= g.w ==> r.w == w,
        x + w > g.w ==> r.w == g.w - x,
        y + h <= g.h ==> r.h == h,
        y + h > g.h ==> r.h == g.h - y,
        r.inside(a, b) ==> r.spec_get(a, b) == g.spec_get(x + a, y + b),
{
}

/// As many pixels lie below a value as are darker than it.
pub proof fn law_counted_below(px: Seq<u8>, v: int)
    ensures
        raster::count_below(px, v) == px.filter(|p: u8| p < v).len(),
    decreases px.len(),
{
    reveal(Seq::filter);
    if px.len() > 0 {
        law_counted_below(px.drop_last(), v);
    }
}

/// The value at a rank is that of a pixel: no more pixels than the rank are
/// darker, and more than it are not brighter.
pub proof fn law_ranks(px: Seq<u8>, k: int, v: u8)
    requires
        raster::ranks_at(px, k, v),
    ensures
        px.filter(|p: u8| p < v).len() <= k,
        px.filter(|p: u8| p < v + 1).len() > k,
        px.contains(v),
{
    law_counted_below(px, v as int);
    law_counted_below(px, v + 1);
    lemma_value_is_there(px, v);
}

proof fn lemma_value_is_there(px: Seq<u8>, v: u8)
    ensures
        raster::count_below(px, v as int) <= raster::count_below(px, v + 1),
        raster::count_below(px, v as int) < raster::count_below(px, v + 1) ==> px.contains(v),
    decreases px.len(),
{
    if px.len() > 0 {
        let init = px.drop_last();
        lemma_value_is_there(init, v);
        assert(px[px.len() - 1] == px.last());
        if init.contains(v) {
            let i = choose|i: int| 0 <= i < init.len() && init[i] == v;
            assert(px[i] == v);
        }
    }
}

proof fn lemma_glyphs(cs: Seq<ComponentView>, h: u32)
    ensures
        templates::glyphs(cs, h) == cs.filter(|c: ComponentView| c.is_glyph(h)),
    decreases cs.len(),
{
    reveal(Seq::filter);
    if cs.len() > 0 {
        lemma_glyphs(cs.drop_last(), h);
    }
}

/// A strip is read from left to right, one character for each cluster of four
/// pixels or more that touches neither its top nor its bottom: the one of the
/// glyph that matches it best.
pub proof fn law_reading(cs: Seq<ComponentView>, h: u32, ts: Seq<Template>)
    ensures
        exists|row: Seq<ComponentView>|
            {
                &&& #[trigger] row.to_multiset() == cs.filter(
                    |c: ComponentView| c.w * c.h >= 4 && 0 < c.y && c.y + c.h < h,
                ).to_multiset()
                &&& forall|i: int, j: int|
                    0 <= i < j < row.len() ==> (#[trigger] row[i]).x <= (#[trigger] row[j]).x
                &&& templates::reading(cs, h, ts).len() == row.len()
                &&& forall|i: int|
                    0 <= i < row.len() ==> #[trigger] templates::reading(cs, h, ts)[i]
                        == ts[templates::best_of(row[i], ts, ts.len() as int)].label
            },
{
    let kept = templates::glyphs(cs, h);
    let row = sorting::in_order::<Component>(kept);
    lemma_glyphs(cs, h);
    lemma_same_choice(
        cs,
        |c: ComponentView| c.is_glyph(h),
        |c: ComponentView| c.w * c.h >= 4 && 0 < c.y && c.y + c.h < h,
    );
    sorting::lemma_in_order::<Component>(kept);
    assert forall|i: int, j: int| 0 <= i < j < row.len() implies (#[trigger] row[i]).x <= (
    #[trigger] row[j]).x by {
        assert(!<Component as sorting::Ranked>::precedes(row[j], row[i]));
    }
    assert(row.to_multiset() == kept.to_multiset());
}

proof fn lemma_same_choice<A>(s: Seq<A>, f: spec_fn(A) -> bool, g: spec_fn(A) -> bool)
    requires
        forall|x: A| #[trigger] f(x) == g(x),
    ensures
        s.filter(f) == s.filter(g),
    decreases s.len(),
{
    reveal(Seq::filter);
    if s.len() > 0 {
        lemma_same_choice(s.drop_last(), f, g);
        assert(f(s.last()) == g(s.last()));
    }
}

/// A line of a table whose twelve cells hold a word gives that word: its text
/// is the last cell without the blanks around it, its place the cells seven to
/// ten, and its confidence the one before the text.
pub proof fn law_table_lines(cols: Seq<Seq<char>>, x: nat, y: nat, w: nat, h: nat)
    requires
        cols.len() == 12,
        forall|i: int| 0 <= i < 12 ==> !(#[trigger] cols[i]).contains('\t'),
        cols[0] == "5"@,
        cols[6] == text::decimal(x),
        cols[7] == text::decimal(y),
        cols[8] == text::decimal(w),
        cols[9] == text::decimal(h),
        x <= i32::MAX,
        y <= i32::MAX,
        0 < w <= i32::MAX,
        0 < h <= i32::MAX,
        text::trimmed(cols[11]).len() > 0,
    ensures
        engine::word_of_line(text::joined(cols, seq!['\t'])) matches Some(word) && word.text
            == text::trimmed(cols[11]) && word.bbox.x == x && word.bbox.y == y && word.bbox.w == w
            && word.bbox.h == h && word.conf == cols[10],
{
    text_laws::law_split_pieces(cols, '\t');
    lemma_number_reads(x);
    lemma_number_reads(y);
    lemma_number_reads(w);
    lemma_number_reads(h);
}

proof fn lemma_number_reads(n: nat)
    requires
        n <= i32::MAX,
    ensures
        text::parsed_int(text::decimal(n), i32::MIN as int, i32::MAX as int) == Some(n as int),
{
    text::lemma_decimal_digits(n);
    text::lemma_decimal_reads_back(n, n);
    assert(text::is_digit(text::decimal(n)[0]));
}

/// A line that is of another kind than a word, that has fewer cells, or whose
/// word is blank, is left aside.
pub proof fn law_other_lines(line: Seq<char>)
    requires
        ({
            let cols = text::split_at_char(line, '\t');
            cols.len() < 12 || cols[0] != "5"@ || text::trimmed(cols[11]).len() == 0
        }),
    ensures
        engine::word_of_line(line) is None,
{
}

/// The words of a table are those of its lines, in their order, but for the
/// first line, which names the columns.
pub proof fn law_table(a: Seq<Seq<char>>, b: Seq<Seq<char>>, line: Seq<char>, tsv: Seq<char>)
    ensures
        engine::words_of(a + b) == engine::words_of(a) + engine::words_of(b),
        engine::word_of_line(line) is None ==> engine::words_of(seq![line]).len() == 0,
        engine::word_of_line(line) is Some ==> engine::words_of(seq![line])
            == seq![engine::word_of_line(line).unwrap()],
        text::lines_of(tsv).len() > 0 ==> engine::table_words(tsv) == engine::words_of(
            text::lines_of(tsv).skip(1),
        ),
    decreases b.len(),
{
    let one = seq![line];
    assert(one.drop_last() =~= Seq::<Seq<char>>::empty());
    assert(engine::words_of(one.drop_last()) =~= Seq::<TsvWordView>::empty());
    assert(one.last() == line);
    if engine::word_of_line(line) is Some {
        assert(engine::words_of(one) =~= seq![engine::word_of_line(line).unwrap()]);
    }
    assert(text::lines_of(tsv).skip(1) =~= text::lines_of(tsv).drop_first());
    if b.len() == 0 {
        assert(a + b =~= a);
        assert(engine::words_of(a) + engine::words_of(b) =~= engine::words_of(a));
    } else {
        law_table(a, b.drop_last(), line, tsv);
        assert((a + b).drop_last() =~= a + b.drop_last());
        assert(engine::words_of(a + b) =~= engine::words_of(a) + engine::words_of(b));
    }
}

/// The bytes of a picture are the red, green, blue and cover of its pixels, one
/// after the other.
pub proof fn law_colour_bytes(px: Seq<Rgba>, i: int)
    requires
        0 <= i < px.len(),
    ensures
        canvas::colour_bytes(px).len() == 4 * px.len(),
        canvas::colour_bytes(px)[4 * i] == px[i].r,
        canvas::colour_bytes(px)[4 * i + 1] == px[i].g,
        canvas::colour_bytes(px)[4 * i + 2] == px[i].b,
        canvas::colour_bytes(px)[4 * i + 3] == px[i].a,
{
}

/// Of an image that is made ready for its digits at most every third pixel
/// becomes black: those brighter than sixty-five of a hundred, and those are
/// brighter than all that become white.
pub proof fn law_brightest_pixels_are_text(g: Gray, r: Gray) -> (cutoff: u8)
    requires
        g.wf(),
        pipeline::is_binarized(g, r),
    ensures
        g.px@.filter(|p: u8| p < cutoff).len() <= g.px@.len() as int * 65 / 100,
        g.px@.filter(|p: u8| p < cutoff + 1).len() > g.px@.len() as int * 65 / 100,
        forall|x: int, y: int|
            g.inside(x, y) ==> (#[trigger] r.spec_get(
                x + pipeline::DIGIT_BORDER,
                y + pipeline::DIGIT_BORDER,
            ) == 0 <==> g.spec_get(x, y) > cutoff),
{
    let cutoff = choose|cutoff: u8| #[trigger]
        raster::ranks_at(g.px@, g.px@.len() as int * 65 / 100, cutoff) && raster::is_inverted(
            g,
            cutoff,
            pipeline::DIGIT_BORDER,
            r,
        );
    law_ranks(g.px@, g.px@.len() as int * 65 / 100, cutoff);
    assert forall|x: int, y: int| g.inside(x, y) implies (#[trigger] r.spec_get(
        x + pipeline::DIGIT_BORDER,
        y + pipeline::DIGIT_BORDER,
    ) == 0 <==> g.spec_get(x, y) > cutoff) by {
        law_inverted(g, cutoff, pipeline::DIGIT_BORDER, r, x, y);
    }
    cutoff
}

/// The four bytes of a pixel are its red, green, blue and cover.
pub proof fn law_pixels_of_bytes(px: Seq<Rgba>, i: int)
    requires
        0 <= i < px.len(),
    ensures
        capture::four_at(canvas::colour_bytes(px), 4 * i) == (px[i].r, px[i].g, px[i].b, px[i].a),
{
    law_colour_bytes(px, i);
}

} // verus!
