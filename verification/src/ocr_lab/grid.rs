//! The layout of a panel, built around its two buttons.

use crate::imaging;
use crate::imaging::{resize_gray, MAX_SIDE};
use crate::ocr_lab::cells::steps_between;
use crate::ocr_lab::engine::{BBox, Word, WordView, PERCENT};
use crate::ocr_lab::geometry;
use crate::ocr_lab::geometry::{
    boxes_where, hull_of, keep_row, median_height, median_of, median_top, Hull, SPAN,
};
use crate::ocr_lab::panel_rect;
use crate::ocr_lab::panel_rect::{group, is_phrase_word, sort_by_left, Axis};
use crate::ocr_lab::raster::Gray;
use crate::sorting;
use crate::text;
use crate::text::{decimal_string, same_text, to_ascii_upper};
use vstd::prelude::*;

verus! {

/// How much the picture is enlarged before its words are read.
pub const SCALE: u32 = 2;

/// A picture at the size at which its words are read.
pub fn enlarged(small: &Gray) -> (r: Gray)
    requires
        small.wf(),
        small.w > 0,
        small.h > 0,
        SCALE * small.w <= MAX_SIDE,
        SCALE * small.h <= MAX_SIDE,
        (SCALE * small.w) * (SCALE * small.h) <= u32::MAX,
    ensures
        r.wf(),
        r.w == SCALE * small.w,
        r.h == SCALE * small.h,
        imaging::resize_may_give(
            imaging::gray_view(*small),
            (r.w, r.h),
            imaging::gray_view(r),
        ),
{
    assert((SCALE * small.w) * small.h == (SCALE * small.h) * small.w) by (nonlinear_arith);
    resize_gray(small, SCALE * small.w, SCALE * small.h)
}

/// The colours in which regions are drawn.
#[derive(Debug, Clone, Copy, PartialEq, Eq, Structural)]
pub enum Color {
    Red,
    Green,
    Blue,
    Yellow,
    Magenta,
    Cyan,
    Orange,
}

impl Color {
    /// Red, green, blue and opacity.
    pub open spec fn channels(self) -> (u8, u8, u8, u8) {
        match self {
            Color::Red => (220, 50, 50, 255),
            Color::Green => (50, 200, 80, 255),
            Color::Blue => (50, 100, 220, 255),
            Color::Yellow => (240, 200, 30, 255),
            Color::Magenta => (220, 50, 200, 255),
            Color::Cyan => (30, 200, 220, 255),
            Color::Orange => (240, 130, 30, 255),
        }
    }

    /// Red, green, blue and opacity.
    pub fn rgba(self) -> (r: (u8, u8, u8, u8))
        ensures
            r == self.channels(),
    {
        match self {
            Color::Red => (220, 50, 50, 255),
            Color::Green => (50, 200, 80, 255),
            Color::Blue => (50, 100, 220, 255),
            Color::Yellow => (240, 200, 30, 255),
            Color::Magenta => (220, 50, 200, 255),
            Color::Cyan => (30, 200, 220, 255),
            Color::Orange => (240, 130, 30, 255),
        }
    }
}

/// A part of a panel.
#[derive(Debug)]
pub struct Region {
    pub name: String,
    pub rect: BBox,
    pub color: Color,
}

/// What a [`Region`] says.
#[verifier::ext_equal]
pub struct RegionView {
    pub name: Seq<char>,
    pub rect: BBox,
    pub color: Color,
}

impl View for Region {
    type V = RegionView;

    open spec fn view(&self) -> RegionView {
        RegionView { name: self.name@, rect: self.rect, color: self.color }
    }
}

/// The layout of a panel.
#[derive(Debug)]
pub struct GridLayout {
    pub button_back: BBox,
    pub button_level_up: BBox,
    pub regions: Vec<Region>,
    /// Twice the way from the middle of one button to that of the other, to
    /// the right and down: the direction of the panel's lower edge.
    pub slope: (i64, i64),
    /// The point around which the panel is tilted.
    pub pivot: (i32, i32),
}

/// A box of the enlarged picture in the coordinates of the picture itself.
pub open spec fn reduced(b: BBox) -> BBox {
    BBox { x: b.x / SCALE, y: b.y / SCALE, w: b.w / SCALE, h: b.h / SCALE }
}

fn reduce(b: &BBox) -> (r: BBox)
    ensures
        r == reduced(*b),
{
    BBox { x: b.x / SCALE, y: b.y / SCALE, w: b.w / SCALE, h: b.h / SCALE }
}

/// Whether a word is the button BACK, or as that is misread.
pub open spec fn like_back(w: WordView) -> bool {
    let up = text::ascii_uppered(w.text);
    (up == "BACK"@ || up == "BACK."@ || up == "PACK"@ || up == "BAGK"@) && w.confidence > 25
        * PERCENT
}

/// Whether a word is the first one of the button LEVEL UP.
pub open spec fn like_level(w: WordView) -> bool {
    let up = text::ascii_uppered(w.text);
    (up == "LEVEL"@ || up == "LEUEL"@ || up == "1EVEL"@) && w.confidence > 25 * PERCENT
}

/// Whether a word is the second one of the button LEVEL UP.
pub open spec fn like_up(w: WordView) -> bool {
    let up = text::ascii_uppered(w.text);
    (up == "UP"@ || up == "UP."@ || up == "LP"@) && w.confidence > 25 * PERCENT
}

/// Whether a word belongs to the line "Need to submit items" and is read
/// surely.
pub open spec fn like_anchor(w: WordView) -> bool {
    panel_rect::in_phrase(w.text) && w.confidence > 40 * PERCENT
}

/// Whether a word belongs to a label "FROM RAID".
pub open spec fn like_label(w: WordView) -> bool {
    let up = text::ascii_uppered(w.text);
    (up == "FROM"@ || up == "FROM."@ || up == "FROW"@ || up == "FRDM"@ || up == "RAID"@ || up
        == "RAID."@ || up == "RAIO"@) && w.confidence > 25 * PERCENT
}

fn is_back(w: &Word) -> (r: bool)
    ensures
        r == like_back(w@),
{
    let up: String = to_ascii_upper(&w.text);
    (same_text(&up, "BACK") || same_text(&up, "BACK.") || same_text(&up, "PACK") || same_text(
        &up,
        "BAGK",
    )) && w.confidence > 25 * PERCENT
}

fn is_level_word(w: &Word) -> (r: bool)
    ensures
        r == like_level(w@),
{
    let up: String = to_ascii_upper(&w.text);
    (same_text(&up, "LEVEL") || same_text(&up, "LEUEL") || same_text(&up, "1EVEL"))
        && w.confidence > 25 * PERCENT
}

fn is_up_word(w: &Word) -> (r: bool)
    ensures
        r == like_up(w@),
{
    let up: String = to_ascii_upper(&w.text);
    (same_text(&up, "UP") || same_text(&up, "UP.") || same_text(&up, "LP")) && w.confidence > 25
        * PERCENT
}

fn is_anchor(w: &Word) -> (r: bool)
    ensures
        r == like_anchor(w@),
{
    is_phrase_word(&w.text) && w.confidence > 40 * PERCENT
}

fn is_label_word(w: &Word) -> (r: bool)
    ensures
        r == like_label(w@),
{
    let up: String = to_ascii_upper(&w.text);
    (same_text(&up, "FROM") || same_text(&up, "FROM.") || same_text(&up, "FROW") || same_text(
        &up,
        "FRDM",
    ) || same_text(&up, "RAID") || same_text(&up, "RAID.") || same_text(&up, "RAIO"))
        && w.confidence > 25 * PERCENT
}

/// The first word that `p` holds of.
pub open spec fn first_box(ws: Seq<WordView>, p: spec_fn(WordView) -> bool) -> Option<BBox> {
    let found = geometry::boxes(geometry::kept(ws, p));
    if found.len() == 0 {
        None
    } else {
        Some(found[0])
    }
}

/// The smaller of two numbers.
pub open spec fn lesser(a: int, b: int) -> int {
    if a < b {
        a
    } else {
        b
    }
}

/// The text of the button LEVEL UP, as far as it was read.
pub open spec fn level_up_text(level: Option<BBox>, up: Option<BBox>) -> Option<BBox> {
    match (level, up) {
        (Some(l), Some(u)) => {
            let left = lesser(l.x as int, u.x as int);
            Some(
                reduced(
                    BBox {
                        x: left as u32,
                        y: lesser(l.y as int, u.y as int) as u32,
                        w: geometry::clip(u.right() - left, u.right()) as u32,
                        h: panel_rect::larger(l.h as int, u.h as int) as u32,
                    },
                ),
            )
        },
        (Some(l), None) => Some(reduced(l)),
        (None, Some(u)) => Some(reduced(u)),
        (None, None) => None,
    }
}

/// The button LEVEL UP: where its text was read, at least as large as the
/// button BACK, and else to the right of that.
pub open spec fn level_up_button(back: BBox, seen: Option<BBox>) -> BBox {
    match seen {
        Some(lu) => BBox {
            x: lu.x,
            y: lu.y,
            w: panel_rect::larger(lu.w as int, back.w as int) as u32,
            h: panel_rect::larger(lu.h as int, back.h as int) as u32,
        },
        None => BBox { x: (back.x + back.w * 7 / 4) as u32, y: back.y, w: back.w, h: back.h },
    }
}

/// The row of the buttons and the sides of the panel.
pub struct Frame {
    pub row_h: int,
    pub left: int,
    pub width: int,
}

/// The row of the buttons and the sides of the panel.
pub open spec fn frame_of(back: BBox, level_up: BBox) -> Frame {
    let top = lesser(back.y as int, level_up.y as int);
    let bottom = panel_rect::larger(back.bottom(), level_up.bottom());
    let row_h = panel_rect::larger(bottom - top, 20);
    let left = geometry::clip(back.x - row_h / 2, back.x as int);
    let right = level_up.right() + row_h / 2;
    Frame { row_h, left, width: geometry::clip(right - left, right) }
}

/// The sum of some numbers.
pub open spec fn total(s: Seq<int>) -> int
    decreases s.len(),
{
    if s.len() == 0 {
        0
    } else {
        total(s.drop_last()) + s.last()
    }
}

/// The middle rows.
pub open spec fn middle_rows(bs: Seq<BBox>) -> Seq<int> {
    Seq::new(bs.len(), |i: int| bs[i].y + bs[i].h as int / 2)
}

/// The heights.
pub open spec fn all_heights(bs: Seq<BBox>) -> Seq<int> {
    Seq::new(bs.len(), |i: int| bs[i].h as int)
}

/// The line "Need to submit items": its row and its height.
pub struct Anchor {
    pub y: int,
    pub height: int,
}

/// The line "Need to submit items", where two of its words were read, and else
/// five rows above the buttons.
pub open spec fn anchor_of(tokens: Seq<BBox>, back: BBox, row_h: int) -> Anchor {
    if tokens.len() >= 2 {
        Anchor {
            y: total(middle_rows(tokens)) / (tokens.len() as int) / (SCALE as int),
            height: geometry::highest(all_heights(tokens)) / (SCALE as int),
        }
    } else {
        Anchor { y: geometry::clip(back.y - row_h * 5, back.y as int), height: row_h / 2 }
    }
}

/// The middle and the size of a label that is read in pieces.
pub open spec fn label_of(bs: Seq<BBox>) -> BBox {
    let left = geometry::lowest(geometry::lefts(bs));
    let right = geometry::highest(geometry::rights(bs));
    let top = geometry::lowest(geometry::tops(bs));
    let bottom = geometry::highest(geometry::bottoms(bs));
    BBox {
        x: ((left + right) / 2 / (SCALE as int)) as u32,
        y: ((top + bottom) / 2 / (SCALE as int)) as u32,
        w: ((right - left) / (SCALE as int)) as u32,
        h: ((bottom - top) / (SCALE as int)) as u32,
    }
}

/// The labels that some groups of words make up.
pub open spec fn merged_labels(gs: Seq<Seq<BBox>>) -> Seq<BBox> {
    Seq::new(gs.len(), |i: int| label_of(gs[i]))
}

/// The labels "FROM RAID", from left to right: the words on the row of the
/// middle one, in groups.
pub open spec fn label_boxes(words: Seq<BBox>) -> Seq<BBox> {
    if words.len() == 0 {
        Seq::empty()
    } else {
        let h = panel_rect::larger(geometry::median(geometry::heights(words)) as int, 20) as u32;
        let row = geometry::on_row(words, geometry::median(geometry::top_edges(words)), h);
        let gs = panel_rect::groups(
            sorting::in_order::<panel_rect::ByLeft>(row),
            Axis::Across,
            h * 3,
        );
        sorting::in_order::<panel_rect::ByLeft>(merged_labels(gs))
    }
}

/// The row and the middles of the cells.
pub struct CellRow {
    pub mid_y: int,
    pub centers: Seq<u32>,
}

/// The left edges, as they are stored.
pub open spec fn left_edges(bs: Seq<BBox>) -> Seq<u32> {
    Seq::new(bs.len(), |i: int| bs[i].x)
}

/// The row and the middles of the cells: those of the labels, and where there
/// are none, four cells side by side.
pub open spec fn cell_row(labels: Seq<BBox>, frame: Frame, anchor: Anchor, back: BBox) -> CellRow {
    if labels.len() > 0 {
        CellRow {
            mid_y: total(geometry::tops(labels)) / (labels.len() as int),
            centers: left_edges(labels),
        }
    } else {
        let pitch = frame.width / 4;
        CellRow {
            mid_y: (anchor.y + back.y) / 2,
            centers: Seq::new(4, |i: int| (frame.left + pitch * i + pitch / 2) as u32),
        }
    }
}

/// The distance from one cell to the next.
pub open spec fn cell_pitch(centers: Seq<u32>, width: int) -> int {
    if centers.len() >= 2 {
        geometry::median(crate::ocr_lab::cells::steps(centers)) as int
    } else {
        width / panel_rect::larger(centers.len() as int, 1)
    }
}

/// A box, out of its edges.
pub open spec fn a_box(x: int, y: int, w: int, h: int) -> BBox {
    BBox { x: x as u32, y: y as u32, w: w as u32, h: h as u32 }
}

/// The cell number `i` and its progress.
pub open spec fn cell_regions(i: int, center: u32, row_h: int, mid_y: int, pitch: int) -> Seq<
    RegionView,
> {
    let w = pitch * 9 / 10;
    let bottom = mid_y + row_h / 4;
    let top = geometry::clip(bottom - row_h * 4, bottom);
    let x = geometry::clip(center - w / 2, center as int);
    let prog_h = row_h * 3 / 4;
    let name = "cell"@ + text::decimal(i as nat);
    seq![
        RegionView { name, rect: a_box(x, top, w, bottom - top), color: Color::Green },
        RegionView {
            name: name + "_progress"@,
            rect: a_box(
                x + w / 8,
                geometry::clip(mid_y - (prog_h + row_h / 6), mid_y),
                w * 3 / 4,
                prog_h,
            ),
            color: Color::Yellow,
        },
    ]
}

/// The cells and their progresses, one after the other.
pub open spec fn all_cell_regions(row: CellRow, row_h: int, pitch: int, n: int) -> Seq<RegionView>
    decreases n,
{
    if n <= 0 {
        Seq::empty()
    } else {
        all_cell_regions(row, row_h, pitch, n - 1) + cell_regions(
            n - 1,
            row.centers[n - 1],
            row_h,
            row.mid_y,
            pitch,
        )
    }
}

/// The regions above the cells.
pub open spec fn head_regions(frame: Frame, anchor: Anchor, mid_y: int, pitch: int) -> Seq<
    RegionView,
> {
    let row_h = frame.row_h;
    let cell_bottom = mid_y + row_h / 4;
    let cell_top = geometry::clip(cell_bottom - row_h * 4, cell_bottom);
    let cost_h = (anchor.height * 3 + row_h) / 4;
    let cost_top = anchor.y + anchor.height + cost_h / 4;
    let cost_bottom = geometry::clip(cell_top - cost_h / 4, cell_top);
    let title_bottom = geometry::clip(anchor.y - row_h, anchor.y);
    let title_top = geometry::clip(title_bottom - row_h * 8, title_bottom);
    let margin = pitch / 18;
    seq![
        RegionView {
            name: "title"@,
            rect: a_box(frame.left + margin, title_top, frame.width * 5 / 12, row_h * 2),
            color: Color::Red,
        },
        RegionView {
            name: "level"@,
            rect: a_box(frame.left + margin, title_top + row_h * 2, frame.width / 6, row_h),
            color: Color::Orange,
        },
        RegionView {
            name: "need_anchor"@,
            rect: a_box(
                frame.left + frame.width / 4,
                geometry::clip(anchor.y - anchor.height / 2, anchor.y),
                frame.width / 2,
                anchor.height,
            ),
            color: Color::Cyan,
        },
        RegionView {
            name: "cost"@,
            rect: a_box(
                frame.left + frame.width / 3,
                cost_top,
                frame.width / 3,
                panel_rect::larger(geometry::clip(cost_bottom - cost_top, cost_bottom), 20),
            ),
            color: Color::Blue,
        },
    ]
}

/// The regions of a panel whose buttons are known.
pub open spec fn regions_of(ws: Seq<WordView>, back: BBox, level_up: BBox) -> Seq<RegionView> {
    let frame = frame_of(back, level_up);
    let anchor = anchor_of(
        geometry::boxes(geometry::kept(ws, |w: WordView| like_anchor(w))),
        back,
        frame.row_h,
    );
    let row = cell_row(
        label_boxes(geometry::boxes(geometry::kept(ws, |w: WordView| like_label(w)))),
        frame,
        anchor,
        back,
    );
    let pitch = cell_pitch(row.centers, frame.width);
    let buttons = seq![
        RegionView { name: "BACK"@, rect: back, color: Color::Magenta },
        RegionView { name: "LEVEL UP"@, rect: level_up, color: Color::Magenta },
    ];
    head_regions(frame, anchor, row.mid_y, pitch) + all_cell_regions(
        row,
        frame.row_h,
        pitch,
        row.centers.len() as int,
    ) + buttons
}

fn first_found(found: &Vec<BBox>) -> (r: Option<BBox>)
    requires
        geometry::boxes_fit(found@),
    ensures
        r == if found@.len() == 0 {
            None
        } else {
            Some(found@[0])
        },
        r matches Some(b) ==> b.fits(),
{
    if found.len() == 0 {
        None
    } else {
        assert(found@[0].fits());
        Some(found[0])
    }
}

fn min_of(a: u32, b: u32) -> (r: u32)
    ensures
        r == lesser(a as int, b as int),
{
    if a < b {
        a
    } else {
        b
    }
}

fn max_of(a: u32, b: u32) -> (r: u32)
    ensures
        r == panel_rect::larger(a as int, b as int),
{
    if a < b {
        b
    } else {
        a
    }
}

fn minus(a: u32, b: u32) -> (r: u32)
    ensures
        r == geometry::clip(a - b, a as int),
{
    if a > b {
        a - b
    } else {
        0
    }
}

fn seen_level_up(level: &Option<BBox>, up: &Option<BBox>) -> (r: Option<BBox>)
    requires
        *level matches Some(b) ==> b.fits(),
        *up matches Some(b) ==> b.fits(),
    ensures
        r == level_up_text(*level, *up),
        r matches Some(b) ==> b.right() <= SPAN / 2 && b.y <= SPAN / 2 && b.h <= SPAN / 2,
{
    match (level, up) {
        (Some(l), Some(u)) => {
            let left: u32 = min_of(l.x, u.x);
            Some(
                reduce(
                    &BBox {
                        x: left,
                        y: min_of(l.y, u.y),
                        w: minus(u.x + u.w, left),
                        h: max_of(l.h, u.h),
                    },
                ),
            )
        },
        (Some(l), None) => Some(reduce(l)),
        (None, Some(u)) => Some(reduce(u)),
        (None, None) => None,
    }
}

fn place_level_up(back: &BBox, seen: &Option<BBox>) -> (r: BBox)
    requires
        back.right() <= SPAN / 2,
        back.bottom() <= SPAN / 2,
        *seen matches Some(b) ==> b.right() <= SPAN / 2 && b.y <= SPAN / 2 && b.h <= SPAN / 2,
    ensures
        r == level_up_button(*back, *seen),
        r.right() <= 3 * (SPAN / 2),
        r.bottom() <= SPAN,
{
    match seen {
        Some(lu) => BBox { x: lu.x, y: lu.y, w: max_of(lu.w, back.w), h: max_of(lu.h, back.h) },
        None => BBox { x: back.x + back.w * 7 / 4, y: back.y, w: back.w, h: back.h },
    }
}

struct FrameSize {
    row_h: u32,
    left: u32,
    width: u32,
}

impl FrameSize {
    spec fn is(self, f: Frame) -> bool {
        self.row_h == f.row_h && self.left == f.left && self.width == f.width
    }
}

fn measure_frame(back: &BBox, level_up: &BBox) -> (r: FrameSize)
    requires
        back.right() <= SPAN / 2,
        back.bottom() <= SPAN / 2,
        level_up.right() <= 3 * (SPAN / 2),
        level_up.bottom() <= SPAN,
    ensures
        r.is(frame_of(*back, *level_up)),
        20 <= r.row_h <= SPAN,
        r.left + r.width <= 2 * SPAN,
{
    let top: u32 = min_of(back.y, level_up.y);
    let bottom: u32 = max_of(back.y + back.h, level_up.y + level_up.h);
    let row_h: u32 = max_of(bottom - top, 20);
    let left: u32 = minus(back.x, row_h / 2);
    let right: u32 = level_up.x + level_up.w + row_h / 2;
    FrameSize { row_h, left, width: minus(right, left) }
}

proof fn lemma_mean_bound(sum: int, n: int, bound: int)
    requires
        0 < n,
        0 <= sum <= n * bound,
    ensures
        0 <= sum / n <= bound,
{
    assert(0 <= sum / n <= bound) by (nonlinear_arith)
        requires
            0 < n,
            0 <= sum <= n * bound,
    ;
}

fn mean_middle_row(bs: &Vec<BBox>) -> (r: u32)
    requires
        bs@.len() > 0,
        geometry::boxes_fit(bs@),
    ensures
        r == total(middle_rows(bs@)) / (bs@.len() as int),
        r <= SPAN,
{
    let ghost all = bs@;
    let mut sum: u128 = 0;
    let mut i: usize = 0;
    assert(middle_rows(all.take(0)) =~= Seq::<int>::empty());
    while i < bs.len()
        invariant
            i <= bs@.len(),
            all == bs@,
            geometry::boxes_fit(all),
            sum == total(middle_rows(all.take(i as int))),
            sum <= i * SPAN,
        decreases bs@.len() - i,
    {
        assert(all[i as int].fits());
        assert(middle_rows(all.take(i + 1)).drop_last() =~= middle_rows(all.take(i as int)));
        assert(i * SPAN <= u64::MAX * SPAN) by (nonlinear_arith)
            requires
                0 <= i <= u64::MAX,
        ;
        sum = sum + (bs[i].y + bs[i].h / 2) as u128;
        assert((i + 1) * SPAN == i * SPAN + SPAN) by (nonlinear_arith);
        i += 1;
    }
    assert(all.take(i as int) =~= all);
    let n: usize = bs.len();
    proof {
        lemma_mean_bound(sum as int, n as int, SPAN as int);
    }
    (sum / n as u128) as u32
}

fn mean_top(bs: &Vec<BBox>) -> (r: u32)
    requires
        bs@.len() > 0,
        forall|i: int| 0 <= i < bs@.len() ==> (#[trigger] bs@[i]).y <= SPAN,
    ensures
        r == total(geometry::tops(bs@)) / (bs@.len() as int),
        r <= SPAN,
{
    let ghost all = bs@;
    let mut sum: u128 = 0;
    let mut i: usize = 0;
    assert(geometry::tops(all.take(0)) =~= Seq::<int>::empty());
    while i < bs.len()
        invariant
            i <= bs@.len(),
            all == bs@,
            forall|j: int| 0 <= j < all.len() ==> (#[trigger] all[j]).y <= SPAN,
            sum == total(geometry::tops(all.take(i as int))),
            sum <= i * SPAN,
        decreases bs@.len() - i,
    {
        assert(all[i as int].y <= SPAN);
        assert(geometry::tops(all.take(i + 1)).drop_last() =~= geometry::tops(all.take(i as int)));
        assert(i * SPAN <= u64::MAX * SPAN) by (nonlinear_arith)
            requires
                0 <= i <= u64::MAX,
        ;
        sum = sum + bs[i].y as u128;
        assert((i + 1) * SPAN == i * SPAN + SPAN) by (nonlinear_arith);
        i += 1;
    }
    assert(all.take(i as int) =~= all);
    let n: usize = bs.len();
    proof {
        lemma_mean_bound(sum as int, n as int, SPAN as int);
    }
    (sum / n as u128) as u32
}

fn greatest_height(bs: &Vec<BBox>) -> (r: u32)
    requires
        bs@.len() > 0,
        geometry::boxes_fit(bs@),
    ensures
        r == geometry::highest(all_heights(bs@)),
        r <= SPAN,
{
    let ghost all = bs@;
    assert(all[0].fits());
    let mut r: u32 = bs[0].h;
    assert(all_heights(all.take(1)) =~= seq![all[0].h as int]);
    let mut i: usize = 1;
    while i < bs.len()
        invariant
            1 <= i <= bs@.len(),
            all == bs@,
            geometry::boxes_fit(all),
            r == geometry::highest(all_heights(all.take(i as int))),
            r <= SPAN,
        decreases bs@.len() - i,
    {
        assert(all[i as int].fits());
        assert(all_heights(all.take(i + 1)).drop_last() =~= all_heights(all.take(i as int)));
        if bs[i].h > r {
            r = bs[i].h;
        }
        i += 1;
    }
    assert(all.take(i as int) =~= all);
    r
}

struct AnchorSize {
    y: u32,
    height: u32,
}

fn find_anchor(tokens: &Vec<BBox>, back: &BBox, row_h: u32) -> (r: AnchorSize)
    requires
        geometry::boxes_fit(tokens@),
        back.bottom() <= SPAN / 2,
        row_h <= SPAN,
    ensures
        r.y == anchor_of(tokens@, *back, row_h as int).y,
        r.height == anchor_of(tokens@, *back, row_h as int).height,
        r.y <= SPAN,
        r.height <= SPAN,
{
    if tokens.len() >= 2 {
        AnchorSize { y: mean_middle_row(tokens) / SCALE, height: greatest_height(tokens) / SCALE }
    } else {
        AnchorSize { y: minus(back.y, row_h * 5), height: row_h / 2 }
    }
}

fn merge_labels(gs: &Vec<Vec<BBox>>) -> (r: Vec<BBox>)
    requires
        panel_rect::groups_fit(sorting::views(gs@)),
    ensures
        r@ == merged_labels(sorting::views(gs@)),
        geometry::boxes_fit(r@),
{
    let ghost all = sorting::views(gs@);
    let mut r: Vec<BBox> = Vec::new();
    let mut i: usize = 0;
    while i < gs.len()
        invariant
            i <= gs@.len(),
            all == sorting::views(gs@),
            panel_rect::groups_fit(all),
            r@ == merged_labels(all).take(i as int),
            geometry::boxes_fit(r@),
        decreases gs@.len() - i,
    {
        assert(all[i as int] == gs@[i as int]@);
        assert(all[i as int].len() > 0);
        let e: Hull = hull_of(&gs[i]);
        let b = BBox {
            x: (e.left + e.right) / 2 / SCALE,
            y: (e.top + e.bottom) / 2 / SCALE,
            w: (e.right - e.left) / SCALE,
            h: (e.bottom - e.top) / SCALE,
        };
        assert(b == label_of(all[i as int]));
        r.push(b);
        assert(r@ =~= merged_labels(all).take(i + 1));
        i += 1;
    }
    assert(merged_labels(all).take(i as int) =~= merged_labels(all));
    r
}

/// The labels "FROM RAID" that some words make up, from left to right.
pub fn cluster_from_raids(words: &Vec<BBox>) -> (r: Vec<BBox>)
    requires
        geometry::boxes_fit(words@),
    ensures
        r@ == label_boxes(words@),
        geometry::boxes_fit(r@),
{
    if words.len() == 0 {
        return Vec::new();
    }
    let y: u32 = median_top(words);
    let h: u32 = max_of(median_height(words), 20);
    let row: Vec<BBox> = keep_row(words, y, h);
    let sorted: Vec<BBox> = sort_by_left(&row);
    let gs: Vec<Vec<BBox>> = group(&sorted, Axis::Across, h * 3);
    let labels: Vec<BBox> = merge_labels(&gs);
    sort_by_left(&labels)
}

struct Row {
    mid_y: u32,
    centers: Vec<u32>,
}

/// The left edges of boxes that are sorted by them ascend.
proof fn lemma_lefts_ascend(bs: Seq<BBox>)
    ensures
        forall|i: int, j: int|
            0 <= i <= j < bs.len() ==> #[trigger] sorting::in_order::<panel_rect::ByLeft>(bs)[i].x
                <= #[trigger] sorting::in_order::<panel_rect::ByLeft>(bs)[j].x,
{
    sorting::lemma_in_order::<panel_rect::ByLeft>(bs);
    let r = sorting::in_order::<panel_rect::ByLeft>(bs);
    assert forall|i: int, j: int| 0 <= i <= j < bs.len() implies #[trigger] r[i].x
        <= #[trigger] r[j].x by {
        if i < j {
            assert(!<panel_rect::ByLeft as sorting::Ranked>::precedes(r[j], r[i]));
        }
    }
}

fn place_cells(labels: &Vec<BBox>, frame: &FrameSize, anchor: &AnchorSize, back: &BBox) -> (r: Row)
    requires
        geometry::boxes_fit(labels@),
        forall|i: int, j: int|
            0 <= i <= j < labels@.len() ==> #[trigger] labels@[i].x <= #[trigger] labels@[j].x,
        frame.left + frame.width <= 2 * SPAN,
        anchor.y <= SPAN,
        back.bottom() <= SPAN / 2,
    ensures
        forall|f: Frame, a: Anchor|
            frame.is(f) && a.y == anchor.y ==> (#[trigger] cell_row(labels@, f, a, *back)).mid_y
                == r.mid_y && cell_row(labels@, f, a, *back).centers == r.centers@,
        r.mid_y <= SPAN,
        r.centers@.len() > 0,
        forall|i: int| 0 <= i < r.centers@.len() ==> #[trigger] r.centers@[i] <= 2 * SPAN,
        forall|i: int, j: int|
            0 <= i <= j < r.centers@.len() ==> #[trigger] r.centers@[i] <= #[trigger] r.centers@[j],
{
    let mut centers: Vec<u32> = Vec::new();
    if labels.len() > 0 {
        proof {
            assert forall|i: int| 0 <= i < labels@.len() implies (#[trigger] labels@[i]).y
                <= SPAN by {
                assert(labels@[i].fits());
            }
        }
        let mid_y: u32 = mean_top(labels);
        let mut i: usize = 0;
        while i < labels.len()
            invariant
                i <= labels@.len(),
                geometry::boxes_fit(labels@),
                centers@ == left_edges(labels@).take(i as int),
            decreases labels@.len() - i,
        {
            centers.push(labels[i].x);
            assert(centers@ =~= left_edges(labels@).take(i + 1));
            i += 1;
        }
        assert(left_edges(labels@).take(i as int) =~= left_edges(labels@));
        proof {
            assert forall|k: int| 0 <= k < centers@.len() implies #[trigger] centers@[k] <= 2
                * SPAN by {
                assert(labels@[k].fits());
            }
            assert forall|k: int, j: int| 0 <= k <= j < centers@.len() implies
                #[trigger] centers@[k] <= #[trigger] centers@[j] by {
                assert(labels@[k].x <= labels@[j].x);
            }
        }
        Row { mid_y, centers }
    } else {
        let pitch: u32 = frame.width / 4;
        let half: u32 = pitch / 2;
        centers.push(frame.left + half);
        centers.push(frame.left + pitch + half);
        centers.push(frame.left + pitch * 2 + half);
        centers.push(frame.left + pitch * 3 + half);
        let mid_y: u32 = (anchor.y + back.y) / 2;
        proof {
            assert forall|f: Frame, a: Anchor| frame.is(f) && a.y == anchor.y implies (
            #[trigger] cell_row(labels@, f, a, *back)).mid_y == mid_y && cell_row(
                labels@,
                f,
                a,
                *back,
            ).centers == centers@ by {
                let want = cell_row(labels@, f, a, *back).centers;
                let p = f.width / 4;
                assert(p * 0 == 0 && p * 1 == p && p * 2 == 2 * p && p * 3 == 3 * p);
                assert(want[0] == centers@[0]);
                assert(want[1] == centers@[1]);
                assert(want[2] == centers@[2]);
                assert(want[3] == centers@[3]);
                assert(want =~= centers@);
            }
        }
        Row { mid_y, centers }
    }
}

fn measure_pitch(centers: &Vec<u32>, width: u32) -> (r: u32)
    requires
        centers@.len() > 0,
        width <= 2 * SPAN,
        forall|i: int| 0 <= i < centers@.len() ==> #[trigger] centers@[i] <= 2 * SPAN,
        forall|i: int, j: int|
            0 <= i <= j < centers@.len() ==> #[trigger] centers@[i] <= #[trigger] centers@[j],
    ensures
        r == cell_pitch(centers@, width as int),
        r <= 4 * SPAN,
{
    if centers.len() >= 2 {
        let gaps: Vec<u32> = steps_between(centers);
        let ghost all = gaps@;
        let r: u32 = median_of(gaps);
        proof {
            let j = choose|j: int| 0 <= j < all.len() && all[j] == r;
            assert(all[j] <= 4 * SPAN);
        }
        r
    } else {
        assert(width as int / 1 == width);
        width
    }
}

fn region(name: String, rect: BBox, color: Color) -> (r: Region)
    ensures
        r@ == (RegionView { name: name@, rect, color }),
{
    Region { name, rect, color }
}

fn add_head(regions: &mut Vec<Region>, frame: &FrameSize, anchor: &AnchorSize, mid_y: u32, pitch: u32)
    requires
        frame.row_h <= SPAN,
        frame.left + frame.width <= 2 * SPAN,
        anchor.y <= SPAN,
        anchor.height <= SPAN,
        mid_y <= SPAN,
        pitch <= 4 * SPAN,
    ensures
        forall|f: Frame, a: Anchor|
            frame.is(f) && a.y == anchor.y && a.height == anchor.height ==> sorting::views(
                final(regions)@,
            ) == sorting::views(old(regions)@) + #[trigger] head_regions(
                f,
                a,
                mid_y as int,
                pitch as int,
            ),
{
    let ghost before = sorting::views(regions@);
    let row_h: u32 = frame.row_h;
    let cell_bottom: u32 = mid_y + row_h / 4;
    let cell_top: u32 = minus(cell_bottom, row_h * 4);
    let cost_h: u32 = (anchor.height * 3 + row_h) / 4;
    let cost_top: u32 = anchor.y + anchor.height + cost_h / 4;
    let cost_bottom: u32 = minus(cell_top, cost_h / 4);
    let title_bottom: u32 = minus(anchor.y, row_h);
    let title_top: u32 = minus(title_bottom, row_h * 8);
    let margin: u32 = pitch / 18;
    regions.push(
        region(
            "title".to_owned(),
            BBox {
                x: frame.left + margin,
                y: title_top,
                w: (frame.width * 5) / 12,
                h: row_h * 2,
            },
            Color::Red,
        ),
    );
    regions.push(
        region(
            "level".to_owned(),
            BBox {
                x: frame.left + margin,
                y: title_top + row_h * 2,
                w: frame.width / 6,
                h: row_h,
            },
            Color::Orange,
        ),
    );
    regions.push(
        region(
            "need_anchor".to_owned(),
            BBox {
                x: frame.left + frame.width / 4,
                y: minus(anchor.y, anchor.height / 2),
                w: frame.width / 2,
                h: anchor.height,
            },
            Color::Cyan,
        ),
    );
    regions.push(
        region(
            "cost".to_owned(),
            BBox {
                x: frame.left + frame.width / 3,
                y: cost_top,
                w: frame.width / 3,
                h: max_of(minus(cost_bottom, cost_top), 20),
            },
            Color::Blue,
        ),
    );
    proof {
        assert forall|f: Frame, a: Anchor|
            frame.is(f) && a.y == anchor.y && a.height == anchor.height implies sorting::views(
            regions@,
        ) == before + #[trigger] head_regions(f, a, mid_y as int, pitch as int) by {
            let head = head_regions(f, a, mid_y as int, pitch as int);
            let n = before.len() as int;
            let after = sorting::views(regions@);
            assert(after[n] == head[0]);
            assert(after[n + 1] == head[1]);
            assert(after[n + 2] == head[2]);
            assert(after[n + 3] == head[3]);
            assert(after =~= before + head);
        }
    }
}

fn add_cell(regions: &mut Vec<Region>, i: u64, center: u32, row_h: u32, mid_y: u32, pitch: u32)
    requires
        row_h <= SPAN,
        center <= 2 * SPAN,
        mid_y <= SPAN,
        pitch <= 4 * SPAN,
    ensures
        sorting::views(final(regions)@) == sorting::views(old(regions)@) + cell_regions(
            i as int,
            center,
            row_h as int,
            mid_y as int,
            pitch as int,
        ),
{
    let ghost before = sorting::views(regions@);
    let w: u32 = pitch * 9 / 10;
    let bottom: u32 = mid_y + row_h / 4;
    let top: u32 = minus(bottom, row_h * 4);
    let x: u32 = minus(center, w / 2);
    let prog_h: u32 = row_h * 3 / 4;
    let mut name: String = "cell".to_owned();
    let number: String = decimal_string(i);
    name.append(number.as_str());
    let mut progress: String = name.clone();
    progress.append("_progress");
    regions.push(region(name, BBox { x, y: top, w, h: bottom - top }, Color::Green));
    regions.push(
        region(
            progress,
            BBox {
                x: x + w / 8,
                y: minus(mid_y, prog_h + row_h / 6),
                w: (w * 3) / 4,
                h: prog_h,
            },
            Color::Yellow,
        ),
    );
    proof {
        let cells = cell_regions(
            i as int,
            center,
            row_h as int,
            mid_y as int,
            pitch as int,
        );
        let n = before.len() as int;
        let after = sorting::views(regions@);
        assert(after[n] == cells[0]);
        assert(after[n + 1] == cells[1]);
        assert(after =~= before + cells);
    }
}

/// The buttons that a layout is built around, where BACK was read.
pub open spec fn buttons(ws: Seq<WordView>) -> Option<(BBox, BBox)> {
    match first_box(ws, |w: WordView| like_back(w)) {
        None => None,
        Some(b) => {
            let back = reduced(b);
            let seen = level_up_text(
                first_box(ws, |w: WordView| like_level(w)),
                first_box(ws, |w: WordView| like_up(w)),
            );
            Some((back, level_up_button(back, seen)))
        },
    }
}

/// Builds the layout of a panel out of the words of the enlarged picture.
/// There is none where the button BACK was not read.
pub fn build(words: &Vec<Word>) -> (r: Option<GridLayout>)
    requires
        geometry::words_fit(sorting::views(words@)),
    ensures
        (r is Some) == (buttons(sorting::views(words@)) is Some),
        r matches Some(g) ==> {
            let (back, level_up) = buttons(sorting::views(words@))->0;
            &&& g.button_back == back
            &&& g.button_level_up == level_up
            &&& sorting::views(g.regions@) == regions_of(sorting::views(words@), back, level_up)
            &&& g.slope.0 == (2 * level_up.x + level_up.w) - (2 * back.x + back.w)
            &&& g.slope.1 == (2 * level_up.y + level_up.h) - (2 * back.y + back.h)
            &&& g.pivot.0 == (back.right() + level_up.x) / 2
            &&& g.pivot.1 == (back.y + back.h as int / 2 + level_up.y + level_up.h as int / 2) / 2
        },
{
    let ghost ws = sorting::views(words@);
    let ghost p_back = |w: WordView| like_back(w);
    let ghost p_level = |w: WordView| like_level(w);
    let ghost p_up = |w: WordView| like_up(w);
    let ghost p_anchor = |w: WordView| like_anchor(w);
    let ghost p_label = |w: WordView| like_label(w);
    let back_boxes: Vec<BBox> = boxes_where(words, is_back, Ghost(p_back));
    let back: BBox = match first_found(&back_boxes) {
        None => {
            return None;
        },
        Some(b) => reduce(&b),
    };
    let level_boxes: Vec<BBox> = boxes_where(words, is_level_word, Ghost(p_level));
    let up_boxes: Vec<BBox> = boxes_where(words, is_up_word, Ghost(p_up));
    let seen: Option<BBox> = seen_level_up(&first_found(&level_boxes), &first_found(&up_boxes));
    let level_up: BBox = place_level_up(&back, &seen);
    let frame: FrameSize = measure_frame(&back, &level_up);
    let tokens: Vec<BBox> = boxes_where(words, is_anchor, Ghost(p_anchor));
    let anchor: AnchorSize = find_anchor(&tokens, &back, frame.row_h);
    let label_words: Vec<BBox> = boxes_where(words, is_label_word, Ghost(p_label));
    let labels: Vec<BBox> = cluster_from_raids(&label_words);
    proof {
        lemma_labels_ascend(label_words@);
    }
    let row: Row = place_cells(&labels, &frame, &anchor, &back);
    let pitch: u32 = measure_pitch(&row.centers, frame.width);
    let mut regions: Vec<Region> = Vec::new();
    assert(sorting::views(regions@) =~= Seq::<RegionView>::empty());
    add_head(&mut regions, &frame, &anchor, row.mid_y, pitch);
    let ghost f = frame_of(back, level_up);
    let ghost a = anchor_of(tokens@, back, f.row_h);
    let ghost c = cell_row(labels@, f, a, back);
    let ghost head = head_regions(f, a, c.mid_y, pitch as int);
    assert(sorting::views(regions@) =~= head);
    let mut i: usize = 0;
    assert(head =~= head + all_cell_regions(c, f.row_h, pitch as int, 0));
    while i < row.centers.len()
        invariant
            i <= row.centers@.len(),
            c.centers == row.centers@,
            c.mid_y == row.mid_y,
            f.row_h == frame.row_h,
            frame.row_h <= SPAN,
            row.mid_y <= SPAN,
            pitch <= 4 * SPAN,
            forall|k: int| 0 <= k < row.centers@.len() ==> #[trigger] row.centers@[k] <= 2 * SPAN,
            sorting::views(regions@) == head + all_cell_regions(
                c,
                f.row_h,
                pitch as int,
                i as int,
            ),
        decreases row.centers@.len() - i,
    {
        assert(row.centers@[i as int] <= 2 * SPAN);
        add_cell(&mut regions, i as u64, row.centers[i], frame.row_h, row.mid_y, pitch);
        assert(sorting::views(regions@) =~= head + all_cell_regions(
            c,
            f.row_h,
            pitch as int,
            i + 1,
        ));
        i += 1;
    }
    let ghost cells = sorting::views(regions@);
    regions.push(region("BACK".to_owned(), back, Color::Magenta));
    regions.push(region("LEVEL UP".to_owned(), level_up, Color::Magenta));
    proof {
        let buttons = seq![
            RegionView { name: "BACK"@, rect: back, color: Color::Magenta },
            RegionView { name: "LEVEL UP"@, rect: level_up, color: Color::Magenta },
        ];
        assert(sorting::views(regions@) =~= cells + buttons);
    }
    let dx: i64 = (2 * level_up.x as i64 + level_up.w as i64) - (2 * back.x as i64
        + back.w as i64);
    let dy: i64 = (2 * level_up.y as i64 + level_up.h as i64) - (2 * back.y as i64
        + back.h as i64);
    let px: u32 = (back.x + back.w + level_up.x) / 2;
    let py: u32 = (back.y + back.h / 2 + level_up.y + level_up.h / 2) / 2;
    Some(
        GridLayout {
            button_back: back,
            button_level_up: level_up,
            regions,
            slope: (dx, dy),
            pivot: (px as i32, py as i32),
        },
    )
}

proof fn lemma_labels_ascend(words: Seq<BBox>)
    ensures
        forall|i: int, j: int|
            0 <= i <= j < label_boxes(words).len() ==> #[trigger] label_boxes(words)[i].x
                <= #[trigger] label_boxes(words)[j].x,
{
    if words.len() > 0 {
        let h = panel_rect::larger(geometry::median(geometry::heights(words)) as int, 20) as u32;
        let row = geometry::on_row(words, geometry::median(geometry::top_edges(words)), h);
        let gs = panel_rect::groups(
            sorting::in_order::<panel_rect::ByLeft>(row),
            Axis::Across,
            h * 3,
        );
        sorting::lemma_in_order::<panel_rect::ByLeft>(merged_labels(gs));
        lemma_lefts_ascend(merged_labels(gs));
    }
}

} // verus!
