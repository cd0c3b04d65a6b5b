//! The box that shows where to aim: a transparent hole, which is what is
//! captured, with everything that is drawn around it.

use crate::canvas::{Canvas, Rgba};
use crate::text;
use crate::vr::capture_session::CaptureMode;
use crate::vr::render::Area;
use vstd::prelude::*;
use vstd::string::*;

verus! {

/// The width of the frame around the hole.
pub const FRAME_STROKE: u32 = 3;

/// The smallest size of the text.
pub const MIN_TEXT_PX: u32 = 14;

/// Where the hole lies in the picture of the box.
#[derive(Debug, Clone, Copy, PartialEq, Eq, Structural)]
pub struct GuideTexLayout {
    pub tex_w: u32,
    pub tex_h: u32,
    pub hole_x: u32,
    pub hole_y: u32,
    pub hole_w: u32,
    pub hole_h: u32,
}

impl GuideTexLayout {
    /// Whether the margins are the same on opposite sides, and wider than the
    /// frame.
    pub open spec fn centred(self) -> bool {
        &&& self.tex_w == self.hole_w + 2 * self.hole_x
        &&& self.tex_h == self.hole_h + 2 * self.hole_y
        &&& self.hole_x >= FRAME_STROKE + 2
        &&& self.hole_y >= FRAME_STROKE + 2
        &&& self.hole_w > 0
        &&& self.hole_h > 0
    }

    /// The hole.
    pub open spec fn hole(self) -> Area {
        Area { x: self.hole_x, y: self.hole_y, w: self.hole_w, h: self.hole_h }
    }
}

/// A side of the hole: at least one pixel.
pub open spec fn side(n: u32) -> int {
    if n == 0 {
        1
    } else {
        n as int
    }
}

/// `a / b`, rounded up.
pub open spec fn round_up(a: int, b: int) -> int {
    (a + b - 1) / b
}

/// The larger of two numbers.
pub open spec fn at_least(a: int, b: int) -> int {
    if a < b {
        b
    } else {
        a
    }
}

/// The margin above and below a hole of the height `h`: 3.4 times the size of
/// the text, which is a twentieth of the height and at least fourteen pixels.
pub open spec fn margin_y(h: int) -> int {
    at_least(round_up(at_least(h, 20 * MIN_TEXT_PX as int) * 34, 200), FRAME_STROKE + 2)
}

/// The margin to both sides of a hole of the width `w`: a fiftieth of it.
pub open spec fn margin_x(w: int) -> int {
    at_least(round_up(w * 2, 100), FRAME_STROKE + 2)
}

/// Whether the picture around a hole has sides that can be told.
pub open spec fn fits(hole_w: u32, hole_h: u32) -> bool {
    &&& side(hole_w) + 2 * margin_x(side(hole_w)) <= u32::MAX
    &&& side(hole_h) + 2 * margin_y(side(hole_h)) <= u32::MAX
}

/// The picture around a hole.
pub open spec fn layout_of(hole_w: u32, hole_h: u32) -> GuideTexLayout {
    let w = side(hole_w);
    let h = side(hole_h);
    GuideTexLayout {
        tex_w: (w + 2 * margin_x(w)) as u32,
        tex_h: (h + 2 * margin_y(h)) as u32,
        hole_x: margin_x(w) as u32,
        hole_y: margin_y(h) as u32,
        hole_w: w as u32,
        hole_h: h as u32,
    }
}

/// Puts margins around a hole, wide enough for the texts and the frame and the
/// same on opposite sides, so that the hole stays in the middle.
pub fn layout_for_hole(hole_w: u32, hole_h: u32) -> (r: GuideTexLayout)
    requires
        fits(hole_w, hole_h),
    ensures
        r == layout_of(hole_w, hole_h),
        r.centred(),
{
    let w: u32 = if hole_w == 0 {
        1
    } else {
        hole_w
    };
    let h: u32 = if hole_h == 0 {
        1
    } else {
        hole_h
    };
    let text20: u64 = if h < 20 * MIN_TEXT_PX {
        20 * MIN_TEXT_PX as u64
    } else {
        h as u64
    };
    let y: u32 = ((text20 * 34 + 199) / 200) as u32;
    let up: u32 = ((w as u64 * 2 + 99) / 100) as u32;
    let x: u32 = if up < FRAME_STROKE + 2 {
        FRAME_STROKE + 2
    } else {
        up
    };
    GuideTexLayout {
        tex_w: w + 2 * x,
        tex_h: h + 2 * y,
        hole_x: x,
        hole_y: y,
        hole_w: w,
        hole_h: h,
    }
}

/// The unit in which the frame is measured: a twentieth of a pixel.
pub const UNIT: i64 = 20;

/// A bar of the frame, in twentieths of a pixel.
#[derive(Debug, Clone, Copy, PartialEq, Eq, Structural)]
pub struct Bar {
    pub x: i64,
    pub y: i64,
    pub w: i64,
    pub h: i64,
}

impl Bar {
    /// Whether the bar covers no point within the hole.
    pub open spec fn spares(self, hole: Area) -> bool {
        ||| self.x + self.w <= hole.x * UNIT
        ||| (hole.x + hole.w) * UNIT <= self.x
        ||| self.y + self.h <= hole.y * UNIT
        ||| (hole.y + hole.h) * UNIT <= self.y
    }

    /// Whether the bar lies on the picture.
    pub open spec fn on(self, w: u32, h: u32) -> bool {
        &&& 0 <= self.x
        &&& 0 <= self.y
        &&& self.x + self.w <= w * UNIT
        &&& self.y + self.h <= h * UNIT
    }
}

/// How long the bars at the corners are: a twentieth of the shorter side of
/// the hole, and at least three times the width of the frame.
pub open spec fn tick_length(l: GuideTexLayout) -> int {
    let short = if l.hole_w < l.hole_h {
        l.hole_w
    } else {
        l.hole_h
    };
    at_least(short as int, 3 * FRAME_STROKE * UNIT)
}

/// The bars at the corners of the hole, two at each.
pub open spec fn corner_bars(l: GuideTexLayout) -> Seq<Bar> {
    let s = FRAME_STROKE * UNIT;
    let t = tick_length(l);
    let x0 = l.hole_x * UNIT - s;
    let y0 = l.hole_y * UNIT - s;
    let x1 = (l.hole_x + l.hole_w) * UNIT + s;
    let y1 = (l.hole_y + l.hole_h) * UNIT + s;
    seq![
        Bar { x: x0 as i64, y: y0 as i64, w: t as i64, h: s as i64 },
        Bar { x: x0 as i64, y: y0 as i64, w: s as i64, h: t as i64 },
        Bar { x: (x1 - t) as i64, y: y0 as i64, w: t as i64, h: s as i64 },
        Bar { x: (x1 - s) as i64, y: y0 as i64, w: s as i64, h: t as i64 },
        Bar { x: x0 as i64, y: (y1 - s) as i64, w: t as i64, h: s as i64 },
        Bar { x: x0 as i64, y: (y1 - t) as i64, w: s as i64, h: t as i64 },
        Bar { x: (x1 - t) as i64, y: (y1 - s) as i64, w: t as i64, h: s as i64 },
        Bar { x: (x1 - s) as i64, y: (y1 - t) as i64, w: s as i64, h: t as i64 },
    ]
}

/// The four sides of the frame: they touch the hole from outside.
pub open spec fn border_bars(l: GuideTexLayout) -> Seq<Bar> {
    let s = FRAME_STROKE * UNIT;
    let x0 = l.hole_x * UNIT;
    let y0 = l.hole_y * UNIT;
    let w = l.hole_w * UNIT;
    let h = l.hole_h * UNIT;
    seq![
        Bar { x: (x0 - s) as i64, y: (y0 - s) as i64, w: (w + 2 * s) as i64, h: s as i64 },
        Bar { x: (x0 - s) as i64, y: (y0 + h) as i64, w: (w + 2 * s) as i64, h: s as i64 },
        Bar { x: (x0 - s) as i64, y: y0 as i64, w: s as i64, h: h as i64 },
        Bar { x: (x0 + w) as i64, y: y0 as i64, w: s as i64, h: h as i64 },
    ]
}

/// Nothing of the frame is drawn into the hole: what is captured holds the
/// game alone.
pub proof fn law_frame_spares_the_hole(l: GuideTexLayout)
    requires
        l.centred(),
    ensures
        forall|i: int|
            0 <= i < corner_bars(l).len() ==> (#[trigger] corner_bars(l)[i]).spares(l.hole()),
        forall|i: int|
            0 <= i < border_bars(l).len() ==> (#[trigger] border_bars(l)[i]).spares(l.hole())
                && border_bars(l)[i].on(l.tex_w, l.tex_h),
{
}

/// The bars at the corners of the hole.
pub fn frame_ticks(l: &GuideTexLayout) -> (r: Vec<Bar>)
    requires
        l.centred(),
    ensures
        r@ == corner_bars(*l),
{
    let s: i64 = FRAME_STROKE as i64 * UNIT;
    let short: i64 = if l.hole_w < l.hole_h {
        l.hole_w as i64
    } else {
        l.hole_h as i64
    };
    let t: i64 = if short < 3 * s {
        3 * s
    } else {
        short
    };
    let x0: i64 = l.hole_x as i64 * UNIT - s;
    let y0: i64 = l.hole_y as i64 * UNIT - s;
    let x1: i64 = (l.hole_x as i64 + l.hole_w as i64) * UNIT + s;
    let y1: i64 = (l.hole_y as i64 + l.hole_h as i64) * UNIT + s;
    let mut r: Vec<Bar> = Vec::new();
    r.push(Bar { x: x0, y: y0, w: t, h: s });
    r.push(Bar { x: x0, y: y0, w: s, h: t });
    r.push(Bar { x: x1 - t, y: y0, w: t, h: s });
    r.push(Bar { x: x1 - s, y: y0, w: s, h: t });
    r.push(Bar { x: x0, y: y1 - s, w: t, h: s });
    r.push(Bar { x: x0, y: y1 - t, w: s, h: t });
    r.push(Bar { x: x1 - t, y: y1 - s, w: t, h: s });
    r.push(Bar { x: x1 - s, y: y1 - t, w: s, h: t });
    assert(r@ =~= corner_bars(*l));
    r
}

/// The four sides of the frame.
pub fn frame_sides(l: &GuideTexLayout) -> (r: Vec<Bar>)
    requires
        l.centred(),
    ensures
        r@ == border_bars(*l),
{
    let s: i64 = FRAME_STROKE as i64 * UNIT;
    let x0: i64 = l.hole_x as i64 * UNIT;
    let y0: i64 = l.hole_y as i64 * UNIT;
    let w: i64 = l.hole_w as i64 * UNIT;
    let h: i64 = l.hole_h as i64 * UNIT;
    let mut r: Vec<Bar> = Vec::new();
    r.push(Bar { x: x0 - s, y: y0 - s, w: w + 2 * s, h: s });
    r.push(Bar { x: x0 - s, y: y0 + h, w: w + 2 * s, h: s });
    r.push(Bar { x: x0 - s, y: y0, w: s, h });
    r.push(Bar { x: x0 + w, y: y0, w: s, h });
    assert(r@ =~= border_bars(*l));
    r
}

/// The unit in which the texts are placed: a five-thousandth of a pixel.
pub const FINE: i64 = 5_000;

/// Where a line of text stands, in five-thousandths of a pixel.
#[derive(Debug, Clone, Copy, PartialEq, Eq, Structural)]
pub struct TextRow {
    pub baseline: i64,
    /// The size of the font.
    pub size: i64,
}

impl TextRow {
    /// The upper edge of the row: letters rise by the size of the font at most.
    pub open spec fn top(self) -> int {
        self.baseline - self.size
    }

    /// The lower edge of the row: letters reach two fifths of the size of the
    /// font below the baseline at most.
    pub open spec fn bottom(self) -> int {
        self.baseline + self.size * 2 / 5
    }
}

/// Where the chip lies, in five-thousandths of a pixel. It is as wide as its
/// text with `pad` to both sides, and stands in the middle.
#[derive(Debug, Clone, Copy, PartialEq, Eq, Structural)]
pub struct ChipBox {
    pub top: i64,
    pub height: i64,
    pub pad: i64,
    pub text: TextRow,
}

/// The size of the text: a twentieth of the height of the hole, at least
/// fourteen pixels.
pub open spec fn text_size(l: GuideTexLayout) -> int {
    at_least(l.hole_h as int, 20 * MIN_TEXT_PX as int) * 250
}

/// The size of the hint: 0.82 times that of the text, at least twelve pixels.
pub open spec fn hint_size(l: GuideTexLayout) -> int {
    at_least(text_size(l) * 41 / 50, 12 * FINE as int)
}

/// Where the hint stands: above the hole by 0.4 times the size of the text.
pub open spec fn hint_row(l: GuideTexLayout) -> TextRow {
    TextRow {
        baseline: (l.hole_y * FINE - text_size(l) * 2 / 5) as i64,
        size: hint_size(l) as i64,
    }
}

/// Where the caption stands: in the place of the hint where there is none,
/// otherwise above it by 1.2 times the size of the hint.
pub open spec fn caption_row(l: GuideTexLayout, hinted: bool) -> TextRow {
    TextRow {
        baseline: (hint_row(l).baseline - if hinted {
            hint_size(l) * 6 / 5
        } else {
            0
        }) as i64,
        size: text_size(l) as i64,
    }
}

/// Where the chip lies: below the hole by 0.4 times the size of the text, and
/// 1.6 times as high as the text, which stands in its middle.
pub open spec fn chip_box(l: GuideTexLayout) -> ChipBox {
    let t = text_size(l);
    let top = (l.hole_y + l.hole_h) * FINE + t * 2 / 5;
    ChipBox {
        top: top as i64,
        height: (t * 8 / 5) as i64,
        pad: (t / 2) as i64,
        text: TextRow { baseline: (top + t * 28 / 25) as i64, size: t as i64 },
    }
}

/// No text and no chip reaches into the hole, and all of them lie on the
/// picture: caption and hint above the hole, the chip below it, its text
/// within it.
pub proof fn law_texts_spare_the_hole(hole_w: u32, hole_h: u32, hinted: bool)
    requires
        fits(hole_w, hole_h),
    ensures
        ({
            let l = layout_of(hole_w, hole_h);
            let caption = caption_row(l, hinted);
            let hint = hint_row(l);
            let chip = chip_box(l);
            &&& 0 <= caption.top() && caption.bottom() <= l.hole().y * FINE
            &&& 0 <= hint.top() && hint.bottom() <= l.hole().y * FINE
            &&& (l.hole().y + l.hole().h) * FINE <= chip.top
            &&& chip.top <= chip.text.top() && chip.text.bottom() <= chip.top + chip.height
            &&& chip.top + chip.height <= l.tex_h * FINE
        }),
{
}

fn place_texts(l: &GuideTexLayout, hinted: bool) -> (r: (TextRow, TextRow, ChipBox))
    requires
        l.centred(),
    ensures
        r.0 == caption_row(*l, hinted),
        r.1 == hint_row(*l),
        r.2 == chip_box(*l),
{
    let lines: i64 = if l.hole_h < 20 * MIN_TEXT_PX {
        20 * MIN_TEXT_PX as i64
    } else {
        l.hole_h as i64
    };
    let size: i64 = lines * 250;
    let small: i64 = size * 41 / 50;
    let hint_size: i64 = if small < 12 * FINE {
        12 * FINE
    } else {
        small
    };
    let hint: TextRow = TextRow {
        baseline: l.hole_y as i64 * FINE - size * 2 / 5,
        size: hint_size,
    };
    let rise: i64 = if hinted {
        hint_size * 6 / 5
    } else {
        0
    };
    let caption: TextRow = TextRow { baseline: hint.baseline - rise, size };
    let top: i64 = (l.hole_y as i64 + l.hole_h as i64) * FINE + size * 2 / 5;
    let chip: ChipBox = ChipBox {
        top,
        height: size * 8 / 5,
        pad: size / 2,
        text: TextRow { baseline: top + size * 28 / 25, size },
    };
    (caption, hint, chip)
}

/// What is drawn around the hole.
#[derive(Debug)]
pub struct GuidePlan {
    pub width: u32,
    pub height: u32,
    /// What to aim at; nothing where that is empty.
    pub caption: String,
    /// Which trigger captures; nothing where that is empty.
    pub hint: String,
    /// How far the capture is, and in which colour.
    pub chip: String,
    pub chip_rgb: (u8, u8, u8),
    pub caption_row: TextRow,
    pub hint_row: TextRow,
    pub chip_box: ChipBox,
    pub sides: Vec<Bar>,
    pub ticks: Vec<Bar>,
}

/// Which trigger captures.
pub open spec fn hint_of(trigger: Seq<char>) -> Seq<char> {
    if trigger.len() == 0 {
        Seq::empty()
    } else {
        "Pull "@ + trigger + " trigger to capture"@
    }
}

/// What is drawn around the hole for a mode.
pub fn render(
    mode: &CaptureMode,
    chip_label: &str,
    chip_rgb: (u8, u8, u8),
    trigger_label: &str,
    layout: &GuideTexLayout,
) -> (r: GuidePlan)
    requires
        layout.centred(),
    ensures
        r.width == layout.tex_w,
        r.height == layout.tex_h,
        r.caption@ == mode@.caption(),
        r.hint@ == hint_of(trigger_label@),
        r.chip@ == chip_label@,
        r.chip_rgb == chip_rgb,
        r.caption_row == caption_row(*layout, trigger_label@.len() > 0),
        r.hint_row == hint_row(*layout),
        r.chip_box == chip_box(*layout),
        r.sides@ == border_bars(*layout),
        r.ticks@ == corner_bars(*layout),
{
    let mut hint: String = String::new();
    let hinted: bool = text::chars_of(trigger_label).len() > 0;
    if hinted {
        hint = "Pull ".to_owned();
        hint.append(trigger_label);
        hint.append(" trigger to capture");
    }
    let (caption_row, hint_row, chip_box): (TextRow, TextRow, ChipBox) = place_texts(
        layout,
        hinted,
    );
    GuidePlan {
        width: layout.tex_w,
        height: layout.tex_h,
        caption: mode.guide_caption().to_owned(),
        hint,
        chip: chip_label.to_owned(),
        chip_rgb,
        caption_row,
        hint_row,
        chip_box,
        sides: frame_sides(layout),
        ticks: frame_ticks(layout),
    }
}

/// What stands over an item that was read.
#[derive(Debug, Clone, Copy, PartialEq, Eq, Structural)]
pub enum MarkKind {
    /// How many were read, or that none could be.
    Count(Option<u32>),
    /// Whether the item was recognized.
    Check(bool),
}

/// The text of a count.
pub fn count_text(count: Option<u32>) -> (r: String)
    ensures
        r@ == match count {
            Some(n) => text::decimal(n as nat),
            None => "?"@,
        },
{
    match count {
        Some(n) => text::decimal_string(n as u64),
        None => "?".to_owned(),
    }
}

/// Nothing.
pub open spec fn clear() -> Rgba {
    Rgba { r: 0, g: 0, b: 0, a: 0 }
}

/// Puts a picture into the half of one eye and leaves that of the other eye
/// transparent.
pub fn side_by_side(content: &Canvas, eye_is_left: bool) -> (r: Canvas)
    requires
        content.wf(),
        content.h > 0,
        2 * content.w <= u32::MAX,
        2 * content.w * content.h <= u32::MAX,
    ensures
        r.wf(),
        r.w == 2 * content.w,
        r.h == content.h,
        forall|x: int, y: int|
            r.inside(x, y) ==> #[trigger] r.spec_get(x, y) == if eye_is_left {
                if x < content.w {
                    content.spec_get(x, y)
                } else {
                    clear()
                }
            } else {
                if x < content.w {
                    clear()
                } else {
                    content.spec_get(x - content.w, y)
                }
            },
{
    let shift: u32 = if eye_is_left {
        0
    } else {
        content.w
    };
    let mut r: Canvas = Canvas::filled(content.w * 2, content.h, Rgba { r: 0, g: 0, b: 0, a: 0 });
    let mut y: u32 = 0;
    while y < content.h
        invariant
            content.wf(),
            r.wf(),
            r.w == 2 * content.w,
            r.h == content.h,
            2 * content.w <= u32::MAX,
            y <= content.h,
            shift == if eye_is_left {
                0u32
            } else {
                content.w
            },
            forall|u: int, v: int|
                r.inside(u, v) ==> #[trigger] r.spec_get(u, v) == if v < y && 0 <= u - shift
                    < content.w {
                    content.spec_get(u - shift, v)
                } else {
                    clear()
                },
        decreases content.h - y,
    {
        let mut x: u32 = 0;
        while x < content.w
            invariant
                content.wf(),
                r.wf(),
                r.w == 2 * content.w,
                r.h == content.h,
                2 * content.w <= u32::MAX,
                y < content.h,
                x <= content.w,
                shift == if eye_is_left {
                    0u32
                } else {
                    content.w
                },
                forall|u: int, v: int|
                    r.inside(u, v) ==> #[trigger] r.spec_get(u, v) == if (v < y || v == y && u
                        - shift < x) && 0 <= u - shift < content.w {
                        content.spec_get(u - shift, v)
                    } else {
                        clear()
                    },
            decreases content.w - x,
        {
            let px: Rgba = content.get(x, y);
            r.put(x + shift, y, px);
            x += 1;
        }
        y += 1;
    }
    r
}

} // verus!
