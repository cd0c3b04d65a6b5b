//! From the words and the pixels of a panel to what it says.

use crate::imaging;
use crate::imaging::{resize_gray, MAX_SIDE};
use crate::ocr_lab::cells;
use crate::ocr_lab::cells::locate_cells_via_from_raid;
use crate::ocr_lab::engine::{BBox, Word, WordView};
use crate::ocr_lab::geometry;
use crate::ocr_lab::geometry::SPAN;
use crate::ocr_lab::raster;
use crate::ocr_lab::raster::{byte_at_rank, Gray};
use crate::ocr_lab::templates;
use crate::ocr_lab::templates::{recognize, Template};
use crate::ocr_lab::words;
use crate::ocr_lab::words::{
    copy_word, digitize, has_letters, is_chrome, is_level_token, normalize_level, pick_title,
    split_progress, ByRow,
};
use crate::sorting;
use crate::sorting::sort_stably;
use crate::text;
use crate::text::{chars_of, join, parse_uint};
use vstd::prelude::*;

verus! {

/// How much the panel is enlarged before its words are read.
pub const PANEL_UPSCALE: u32 = 2;

/// The border around a strip of digits.
pub const DIGIT_BORDER: u32 = 12;

/// An item of a panel.
#[derive(Debug)]
pub struct Item {
    pub name: String,
    pub collected: u32,
    pub needed: u32,
}

/// What an [`Item`] says.
#[verifier::ext_equal]
pub struct ItemView {
    pub name: Seq<char>,
    pub collected: u32,
    pub needed: u32,
}

impl View for Item {
    type V = ItemView;

    open spec fn view(&self) -> ItemView {
        ItemView { name: self.name@, collected: self.collected, needed: self.needed }
    }
}

/// What a panel says.
#[derive(Debug)]
pub struct Panel {
    pub title: String,
    pub level: String,
    pub description: Option<String>,
    pub description_next: Option<String>,
    pub cost: Option<u64>,
    pub items: Vec<Item>,
}

/// The part of a screenshot that holds the panel, enlarged.
pub fn crop_and_upscale(img: &Gray, rect: &BBox) -> (r: Gray)
    requires
        img.wf(),
        rect.w > 0,
        rect.h > 0,
        rect.right() <= img.w,
        rect.bottom() <= img.h,
        rect.w * PANEL_UPSCALE <= MAX_SIDE,
        rect.h * PANEL_UPSCALE <= MAX_SIDE,
        (rect.w * PANEL_UPSCALE) * (rect.h * PANEL_UPSCALE) <= u32::MAX,
    ensures
        r.wf(),
        r.w == rect.w * PANEL_UPSCALE,
        r.h == rect.h * PANEL_UPSCALE,
        exists|part: Gray| #[trigger]
            raster::is_part(*img, rect.x, rect.y, rect.w, rect.h, part) && imaging::resize_may_give(
                imaging::gray_view(part),
                (r.w, r.h),
                imaging::gray_view(r),
            ),
{
    let part: Gray = img.part(rect.x, rect.y, rect.w, rect.h);
    assert((rect.w * 2) * rect.h == (rect.h * 2) * rect.w) by (nonlinear_arith);
    resize_gray(&part, rect.w * PANEL_UPSCALE, rect.h * PANEL_UPSCALE)
}

/// Whether `r` is `g` made ready for the digits in it to be read: what is
/// brighter than 65 percent of it is black on white.
pub open spec fn is_binarized(g: Gray, r: Gray) -> bool {
    exists|cutoff: u8| #[trigger]
        raster::ranks_at(g.px@, g.px@.len() as int * 65 / 100, cutoff) && raster::is_inverted(
            g,
            cutoff,
            DIGIT_BORDER,
            r,
        )
}

/// An image made ready for the digits in it to be read.
pub fn binarize(g: &Gray) -> (r: Gray)
    requires
        g.wf(),
        g.px@.len() > 0,
        g.w + 2 * DIGIT_BORDER <= u32::MAX,
        g.h + 2 * DIGIT_BORDER <= u32::MAX,
        (g.w + 2 * DIGIT_BORDER) * (g.h + 2 * DIGIT_BORDER) <= u32::MAX,
    ensures
        is_binarized(*g, r),
{
    let n: usize = g.px.len();
    let k: usize = (n as u128 * 65 / 100) as usize;
    let cutoff: u8 = byte_at_rank(&g.px, k);
    g.inverted(cutoff, DIGIT_BORDER)
}

/// A strip of small digits, enlarged and made ready for them to be read.
pub fn binarize_for_digits(strip: &Gray) -> (r: Gray)
    requires
        strip.wf(),
        strip.w > 0,
        strip.h > 0,
        3 * strip.w <= MAX_SIDE,
        3 * strip.h <= MAX_SIDE,
        (3 * strip.w + 2 * DIGIT_BORDER) * (3 * strip.h + 2 * DIGIT_BORDER) <= u32::MAX,
    ensures
        exists|big: Gray|
            big.wf() && big.w == 3 * strip.w && big.h == 3 * strip.h && imaging::resize_may_give(
                imaging::gray_view(*strip),
                (big.w, big.h),
                imaging::gray_view(big),
            ) && #[trigger] is_binarized(big, r),
{
    let w: u32 = 3 * strip.w;
    let h: u32 = 3 * strip.h;
    assert(w * strip.h == h * strip.w) by (nonlinear_arith)
        requires
            w == 3 * strip.w,
            h == 3 * strip.h,
    ;
    assert(0 < w * h <= (w + 24) * (h + 24)) by (nonlinear_arith)
        requires
            0 < w,
            0 < h,
    ;
    let big: Gray = resize_gray(strip, w, h);
    binarize(&big)
}

/// Whether a word can be the cost: between the top and the cells, with four to
/// seven digits.
pub open spec fn can_be_cost(w: WordView, cells_top: u32) -> bool {
    0 < w.bbox.y < cells_top && 4 <= words::digits_for(w.text).len() <= 7
}

/// The lowest word that can be the cost, the last of several.
pub open spec fn cost_word(ws: Seq<WordView>, cells_top: u32) -> Option<WordView>
    decreases ws.len(),
{
    if ws.len() == 0 {
        None
    } else {
        let before = cost_word(ws.drop_last(), cells_top);
        let w = ws.last();
        if can_be_cost(w, cells_top) && match before {
            None => true,
            Some(b) => w.bbox.y >= b.bbox.y,
        } {
            Some(w)
        } else {
            before
        }
    }
}

/// The part of a panel of width `pw` that is read once more for the cost: the
/// middle of the strip above the cells.
pub open spec fn cost_strip(pw: u32, cells_top: u32) -> BBox {
    let h = cells_top / 6;
    let top = cells_top - h;
    BBox { x: pw / 4, y: geometry::clip(top - h / 2, top) as u32, w: pw / 2, h }
}

/// How the cost of a panel is found.
#[derive(Debug, Clone, Copy, PartialEq, Eq, Structural)]
pub enum CostStep {
    /// It was read.
    Known(u64),
    /// The digits in this part of the panel are to be read once more.
    Reread(BBox),
}

/// How the cost is found among the words of a panel.
pub open spec fn cost_step(ws: Seq<WordView>, cells_top: u32, pw: u32) -> CostStep {
    match cost_word(ws, cells_top) {
        Some(w) => CostStep::Known(text::digits_value(words::digits_for(w.text)) as u64),
        None => CostStep::Reread(cost_strip(pw, cells_top)),
    }
}

proof fn lemma_value_bound(s: Seq<char>)
    requires
        text::all_digits(s),
        s.len() <= 7,
    ensures
        s.len() == 0 ==> text::digits_value(s) == 0,
        s.len() == 1 ==> text::digits_value(s) < 10,
        s.len() == 2 ==> text::digits_value(s) < 100,
        s.len() == 3 ==> text::digits_value(s) < 1_000,
        s.len() == 4 ==> text::digits_value(s) < 10_000,
        s.len() == 5 ==> text::digits_value(s) < 100_000,
        s.len() == 6 ==> text::digits_value(s) < 1_000_000,
        s.len() == 7 ==> text::digits_value(s) < 10_000_000,
    decreases s.len(),
{
    if s.len() > 0 {
        assert(text::all_digits(s.drop_last())) by {
            assert forall|i: int| 0 <= i < s.drop_last().len() implies text::is_digit(
                #[trigger] s.drop_last()[i],
            ) by {
                assert(text::is_digit(s[i]));
            }
        }
        assert(text::is_digit(s[s.len() - 1]));
        lemma_value_bound(s.drop_last());
    }
}

fn cost_value(w: &Word) -> (r: Option<u64>)
    ensures
        (r is Some) == (4 <= words::digits_for(w@.text).len() <= 7),
        r matches Some(n) ==> n == text::digits_value(words::digits_for(w@.text)),
{
    match digitize(&w.text) {
        None => None,
        Some(d) => {
            let chars: Vec<char> = chars_of(&d);
            let n: usize = chars.len();
            if 4 <= n && n <= 7 {
                proof {
                    lemma_value_bound(d@);
                    assert(text::is_digit(d@[0]));
                }
                parse_uint(chars.as_slice(), u64::MAX)
            } else {
                None
            }
        },
    }
}

/// How the cost is found: a number of four to seven digits above the cells, or
/// else by reading the digits of a strip once more.
pub fn pick_cost(words: &Vec<Word>, cells_top: u32, pw: u32) -> (r: CostStep)
    ensures
        r == cost_step(sorting::views(words@), cells_top, pw),
{
    let ghost ws = sorting::views(words@);
    let mut best: Option<u64> = None;
    let mut best_y: u32 = 0;
    let mut i: usize = 0;
    while i < words.len()
        invariant
            i <= words@.len(),
            ws == sorting::views(words@),
            match cost_word(ws.take(i as int), cells_top) {
                None => best is None,
                Some(w) => best == Some(
                    text::digits_value(words::digits_for(w.text)) as u64,
                ) && best_y == w.bbox.y,
            },
        decreases words@.len() - i,
    {
        let w: &Word = &words[i];
        assert(ws.take(i + 1).drop_last() =~= ws.take(i as int));
        assert(ws.take(i + 1).last() == w@);
        if 0 < w.bbox.y && w.bbox.y < cells_top {
            if let Some(n) = cost_value(w) {
                if best.is_none() || w.bbox.y >= best_y {
                    best = Some(n);
                    best_y = w.bbox.y;
                }
            }
        }
        i += 1;
    }
    assert(ws.take(i as int) =~= ws);
    match best {
        Some(n) => CostStep::Known(n),
        None => {
            let h: u32 = cells_top / 6;
            let top: u32 = cells_top - h;
            CostStep::Reread(BBox { x: pw / 4, y: top - h / 2, w: pw / 2, h })
        },
    }
}

/// The largest of the numbers that are read, from one thousand to 999999.
pub open spec fn reread_cost(ws: Seq<WordView>) -> Option<u64>
    decreases ws.len(),
{
    if ws.len() == 0 {
        None
    } else {
        let before = reread_cost(ws.drop_last());
        match text::parsed_uint(ws.last().text, u64::MAX as nat) {
            Some(n) => if 1_000 <= n <= 999_999 && match before {
                None => true,
                Some(b) => n >= b,
            } {
                Some(n as u64)
            } else {
                before
            },
            None => before,
        }
    }
}

/// The cost, out of the words of the strip that was read once more.
pub fn cost_from_strip(words: &Vec<Word>) -> (r: Option<u64>)
    ensures
        r == reread_cost(sorting::views(words@)),
{
    let ghost ws = sorting::views(words@);
    let mut best: Option<u64> = None;
    let mut i: usize = 0;
    while i < words.len()
        invariant
            i <= words@.len(),
            ws == sorting::views(words@),
            best == reread_cost(ws.take(i as int)),
        decreases words@.len() - i,
    {
        assert(ws.take(i + 1).drop_last() =~= ws.take(i as int));
        assert(ws.take(i + 1).last() == words@[i as int]@);
        let chars: Vec<char> = chars_of(&words[i].text);
        if let Some(n) = parse_uint(chars.as_slice(), u64::MAX) {
            if 1_000 <= n && n <= 999_999 && match best {
                None => true,
                Some(b) => n >= b,
            } {
                best = Some(n);
            }
        }
        i += 1;
    }
    assert(ws.take(i as int) =~= ws);
    best
}

/// Whether the middle of a word lies in a cell.
pub open spec fn in_cell(w: WordView, cell: BBox) -> bool {
    let cx = w.bbox.x + w.bbox.w as int / 2;
    let cy = w.bbox.y + w.bbox.h as int / 2;
    cell.x <= cx < cell.right() && cell.y <= cy < cell.bottom()
}

/// Whether a word belongs to the name of the item of a cell: it lies in the
/// upper two thirds, has letters, and is no part of the frame.
pub open spec fn in_name(w: WordView, cell: BBox) -> bool {
    &&& in_cell(w, cell)
    &&& !words::chrome(w.text)
    &&& w.bbox.y < cell.y + cell.h * 2 / 3
    &&& words::letters(w.text) >= 2
}

/// The name of the item of a cell.
pub open spec fn name_of(ws: Seq<WordView>, cell: BBox) -> Seq<char> {
    words::sentence(
        sorting::in_order::<ByRow>(geometry::kept(ws, |w: WordView| in_name(w, cell))),
    )
}

/// The rows of a cell that hold its progress.
pub open spec fn progress_rows(cell: BBox) -> (int, int) {
    (cell.y + cell.h * 55 / 100, cell.y + cell.h * 88 / 100)
}

/// Whether `p` is what the digits of a cell say.
pub open spec fn is_progress(
    panel: Gray,
    cell: BBox,
    ts: Seq<Template>,
    p: Option<(u32, u32)>,
) -> bool {
    let (top, bottom) = progress_rows(cell);
    if ts.len() == 0 || bottom <= top {
        p is None
    } else {
        exists|strip: Gray, t: Seq<char>|
            raster::is_part(panel, cell.x, top as u32, cell.w, (bottom - top) as u32, strip)
                && #[trigger] templates::read_as(strip, ts, t) && p == words::progress_of(t)
    }
}

/// Reads the progress of a cell by comparing its digits with stored ones.
pub fn read_progress_via_templates(panel: &Gray, cell: &BBox, tmpls: &Vec<Template>) -> (r: Option<
    (u32, u32),
>)
    requires
        panel.wf(),
        cell.fits(),
        templates::glyphs_wf(tmpls@),
    ensures
        is_progress(*panel, *cell, tmpls@, r),
{
    if tmpls.len() == 0 {
        return None;
    }
    let top: u32 = cell.y + (cell.h as u64 * 55 / 100) as u32;
    let bottom: u32 = cell.y + (cell.h as u64 * 88 / 100) as u32;
    if bottom <= top {
        return None;
    }
    let strip: Gray = panel.part(cell.x, top, cell.w, bottom - top);
    let t: String = recognize(&strip, tmpls);
    split_progress(&t)
}

/// Where a cell's digits are read by the recognizer.
pub fn progress_strip(cell: &BBox) -> (r: Option<BBox>)
    requires
        cell.fits(),
    ensures
        r == {
            let top = cell.y + cell.h * 60 / 100;
            let bottom = cell.y + cell.h * 88 / 100;
            if bottom <= top {
                None
            } else {
                Some(
                    BBox { x: cell.x, y: top as u32, w: cell.w, h: (bottom - top) as u32 },
                )
            }
        },
{
    let top: u32 = cell.y + (cell.h as u64 * 60 / 100) as u32;
    let bottom: u32 = cell.y + (cell.h as u64 * 88 / 100) as u32;
    if bottom <= top {
        None
    } else {
        Some(BBox { x: cell.x, y: top, w: cell.w, h: bottom - top })
    }
}

/// What the recognizer read of a cell's digits says.
pub fn read_progress(words: &Vec<Word>) -> (r: Option<(u32, u32)>)
    ensures
        words@.len() == 0 ==> r is None,
        words@.len() > 0 ==> r == words::progress_of(
            text::joined(words::word_texts(sorting::views(words@)), Seq::empty()),
        ),
{
    if words.len() == 0 {
        return None;
    }
    let all: String = run_together(words);
    split_progress(&all)
}

/// The texts of some words, with nothing between them.
pub fn run_together(words: &Vec<Word>) -> (r: String)
    ensures
        r@ == text::joined(words::word_texts(sorting::views(words@)), Seq::empty()),
{
    let ghost ws = sorting::views(words@);
    let mut parts: Vec<String> = Vec::new();
    assert(crate::ids::texts(parts@) =~= words::word_texts(ws.take(0)));
    let mut i: usize = 0;
    while i < words.len()
        invariant
            i <= words@.len(),
            ws == sorting::views(words@),
            crate::ids::texts(parts@) == words::word_texts(ws.take(i as int)),
        decreases words@.len() - i,
    {
        let ghost before = parts@;
        parts.push(words[i].text.clone());
        assert(crate::ids::texts(parts@) =~= crate::ids::texts(before).push(ws[i as int].text));
        assert(words::word_texts(ws.take(i + 1)) =~= words::word_texts(ws.take(i as int)).push(
            ws[i as int].text,
        ));
        i += 1;
    }
    assert(ws.take(i as int) =~= ws);
    proof {
        reveal_strlit("");
        assert(""@ =~= Seq::<char>::empty());
    }
    join(&parts, "")
}

/// Whether `item` is what a cell says.
pub open spec fn is_item(
    panel: Gray,
    ws: Seq<WordView>,
    cell: BBox,
    ts: Seq<Template>,
    item: ItemView,
) -> bool {
    &&& item.name == name_of(ws, cell)
    &&& exists|p: Option<(u32, u32)>| #[trigger]
        is_progress(panel, cell, ts, p) && (item.collected, item.needed) == match p {
            Some(q) => q,
            None => (0, 0),
        }
}

fn is_name_word(w: &Word, cell: &BBox) -> (r: bool)
    requires
        w@.bbox.fits(),
        cell.fits(),
    ensures
        r == in_name(w@, *cell),
{
    let cx: u32 = w.bbox.x + w.bbox.w / 2;
    let cy: u32 = w.bbox.y + w.bbox.h / 2;
    cell.x <= cx && cx < cell.x + cell.w && cell.y <= cy && cy < cell.y + cell.h && !is_chrome(
        &w.text,
    ) && w.bbox.y < cell.y + cell.h * 2 / 3 && has_letters(&w.text)
}

/// Reads the item of a cell.
pub fn cell_to_item(panel: &Gray, words: &Vec<Word>, cell: &BBox, tmpls: &Vec<Template>) -> (r: Item)
    requires
        panel.wf(),
        geometry::words_fit(sorting::views(words@)),
        cell.fits(),
        templates::glyphs_wf(tmpls@),
    ensures
        is_item(*panel, sorting::views(words@), *cell, tmpls@, r@),
{
    let p: Option<(u32, u32)> = read_progress_via_templates(panel, cell, tmpls);
    let (collected, needed): (u32, u32) = match p {
        Some(q) => q,
        None => (0, 0),
    };
    let ghost ws = sorting::views(words@);
    let ghost f = |w: WordView| in_name(w, *cell);
    let mut named: Vec<ByRow> = Vec::new();
    assert(sorting::views(named@) =~= geometry::kept(ws.take(0), f));
    let mut i: usize = 0;
    while i < words.len()
        invariant
            i <= words@.len(),
            ws == sorting::views(words@),
            geometry::words_fit(ws),
            cell.fits(),
            f == |w: WordView| in_name(w, *cell),
            sorting::views(named@) == geometry::kept(ws.take(i as int), f),
        decreases words@.len() - i,
    {
        let w: &Word = &words[i];
        assert(ws.take(i + 1).drop_last() =~= ws.take(i as int));
        assert(ws.take(i + 1).last() == w@);
        assert(ws[i as int].bbox.fits());
        if is_name_word(w, cell) {
            let ghost before = named@;
            named.push(ByRow(copy_word(w)));
            assert(sorting::views(named@) =~= sorting::views(before).push(w@));
        }
        i += 1;
    }
    assert(ws.take(i as int) =~= ws);
    let row: Vec<ByRow> = sort_stably(named);
    let ghost rs = sorting::views(row@);
    let mut parts: Vec<String> = Vec::new();
    assert(crate::ids::texts(parts@) =~= words::word_texts(rs.take(0)));
    let mut i: usize = 0;
    while i < row.len()
        invariant
            i <= row@.len(),
            rs == sorting::views(row@),
            crate::ids::texts(parts@) == words::word_texts(rs.take(i as int)),
        decreases row@.len() - i,
    {
        let ghost before = parts@;
        parts.push(row[i].0.text.clone());
        assert(crate::ids::texts(parts@) =~= crate::ids::texts(before).push(rs[i as int].text));
        assert(words::word_texts(rs.take(i + 1)) =~= words::word_texts(rs.take(i as int)).push(
            rs[i as int].text,
        ));
        i += 1;
    }
    assert(rs.take(i as int) =~= rs);
    let name: String = join(&parts, " ");
    assert(is_progress(*panel, *cell, tmpls@, p));
    Item { name, collected, needed }
}

/// The level of a panel of height `ph`: the first one in its upper half.
pub open spec fn level_of(ws: Seq<WordView>, ph: u32) -> Seq<char>
    decreases ws.len(),
{
    if ws.len() == 0 {
        Seq::empty()
    } else if ws[0].bbox.y < ph / 2 && words::is_level(ws[0].text) {
        words::level_text(ws[0].text)
    } else {
        level_of(ws.skip(1), ph)
    }
}

/// The level of a panel of height `ph`.
pub fn find_level(words: &Vec<Word>, ph: u32) -> (r: String)
    ensures
        r@ == level_of(sorting::views(words@), ph),
{
    let ghost ws = sorting::views(words@);
    let mut i: usize = 0;
    assert(ws.skip(0) =~= ws);
    while i < words.len()
        invariant
            i <= words@.len(),
            ws == sorting::views(words@),
            level_of(ws, ph) == level_of(ws.skip(i as int), ph),
        decreases words@.len() - i,
    {
        let w: &Word = &words[i];
        assert(ws.skip(i as int)[0] == w@);
        assert(ws.skip(i as int).skip(1) =~= ws.skip(i + 1));
        if w.bbox.y < ph / 2 && is_level_token(&w.text) {
            return normalize_level(&w.text);
        }
        i += 1;
    }
    String::new()
}

/// A panel as far as it is read; the cost may still be missing.
#[derive(Debug)]
pub struct PanelDraft {
    pub title: String,
    pub level: String,
    pub items: Vec<Item>,
    pub cost: CostStep,
}

/// The upper edge of the cells, or `ph` where there are none.
pub open spec fn top_of_cells(cs: Seq<BBox>, ph: u32) -> u32 {
    if cs.len() == 0 {
        ph
    } else {
        geometry::lowest(geometry::tops(cs)) as u32
    }
}

/// Reads a panel out of its pixels and words.
pub fn parse_panel(panel: &Gray, words: &Vec<Word>, tmpls: &Vec<Template>) -> (r: PanelDraft)
    requires
        panel.wf(),
        panel.w <= SPAN,
        panel.h <= SPAN,
        geometry::words_fit(sorting::views(words@)),
        templates::glyphs_wf(tmpls@),
    ensures
        r.title@ == words::title_of(sorting::views(words@), panel.h),
        r.level@ == level_of(sorting::views(words@), panel.h),
        ({
            let ws = sorting::views(words@);
            let cs = cells::cells_of(ws, panel.w, panel.h);
            &&& r.cost == cost_step(ws, top_of_cells(cs, panel.h), panel.w)
            &&& r.items@.len() == cs.len()
            &&& forall|i: int|
                0 <= i < cs.len() ==> is_item(
                    *panel,
                    ws,
                    cs[i],
                    tmpls@,
                    #[trigger] r.items@[i]@,
                )
        }),
{
    let ghost ws = sorting::views(words@);
    let cs: Vec<BBox> = locate_cells_via_from_raid(words, panel.w, panel.h);
    let level: String = find_level(words, panel.h);
    let title: String = pick_title(words, panel.h);
    let mut top: u32 = panel.h;
    if cs.len() > 0 {
        top = geometry::hull_of(&cs).top;
    }
    let cost: CostStep = pick_cost(words, top, panel.w);
    let mut items: Vec<Item> = Vec::new();
    let mut i: usize = 0;
    while i < cs.len()
        invariant
            i <= cs@.len(),
            ws == sorting::views(words@),
            panel.wf(),
            geometry::words_fit(ws),
            geometry::boxes_fit(cs@),
            templates::glyphs_wf(tmpls@),
            items@.len() == i,
            forall|j: int|
                0 <= j < i ==> is_item(*panel, ws, cs@[j], tmpls@, #[trigger] items@[j]@),
        decreases cs@.len() - i,
    {
        assert(cs@[i as int].fits());
        let item: Item = cell_to_item(panel, words, &cs[i], tmpls);
        items.push(item);
        i += 1;
    }
    PanelDraft { title, level, items, cost }
}

impl PanelDraft {
    /// The panel, with the words of the strip that was read once more where the
    /// cost was missing. Where the recognizer failed on it there is no cost.
    pub fn finish(self, strip: Option<Vec<Word>>) -> (r: Panel)
        ensures
            r.title@ == self.title@,
            r.level@ == self.level@,
            r.description is None,
            r.description_next is None,
            r.items@ == self.items@,
            r.cost == match self.cost {
                CostStep::Known(n) => Some(n),
                CostStep::Reread(_) => match strip {
                    Some(words) => reread_cost(sorting::views(words@)),
                    None => None,
                },
            },
    {
        let cost: Option<u64> = match self.cost {
            CostStep::Known(n) => Some(n),
            CostStep::Reread(_) => match strip {
                Some(words) => cost_from_strip(&words),
                None => None,
            },
        };
        Panel {
            title: self.title,
            level: self.level,
            description: None,
            description_next: None,
            cost,
            items: self.items,
        }
    }
}

} // verus!
