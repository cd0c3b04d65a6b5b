//! The layout of the wishlist: a grid of cells, each with a name, an icon and
//! a progress.

use crate::canvas;
use crate::canvas::Canvas;
use crate::imaging;
use crate::imaging::{
    decode_picture, picture_sides, rgba_samples, sample_rgba, PictureView, MAX_SIDE,
};
use crate::ocr_lab::score;
use crate::ocr_lab::score::progress_string;
use crate::sorting;
use crate::state::needs::{ActiveItem, ActiveView};
use crate::text;
use crate::text::{chars_of, string_from};
use vstd::prelude::*;
use vstd::string::*;

verus! {

/// The sides of a cell.
pub const CELL_PX: u32 = 160;

/// The space around the cells.
pub const CELL_PADDING: u32 = 8;

/// The space for the name at the top of a cell.
pub const NAME_BAND_H: u32 = 22;

/// The space below the icon of a cell.
pub const FOOT_H: u32 = 38;

/// The largest number of rows.
pub const MAX_ROWS: u32 = 8;

/// The largest number of columns whose picture has sides that can be counted.
pub const MAX_COLS: u32 = 25_565_281;

/// The width of the picture of an empty wishlist.
pub const PLACEHOLDER_WIDTH: u32 = 600;

/// The height of the picture of an empty wishlist.
pub const PLACEHOLDER_HEIGHT: u32 = 120;

/// A rectangle of pixels.
#[derive(Debug, Clone, Copy, PartialEq, Eq, Structural)]
pub struct Area {
    pub x: u32,
    pub y: u32,
    pub w: u32,
    pub h: u32,
}

impl Area {
    /// Whether the two have a point in common.
    pub open spec fn meets(self, other: Area) -> bool {
        &&& self.x <= other.x + other.w
        &&& other.x <= self.x + self.w
        &&& self.y <= other.y + other.h
        &&& other.y <= self.y + self.h
    }

    /// Whether this lies within the other one.
    pub open spec fn within(self, other: Area) -> bool {
        &&& other.x <= self.x
        &&& self.x + self.w <= other.x + other.w
        &&& other.y <= self.y
        &&& self.y + self.h <= other.y + other.h
    }
}

/// Where an item of the wishlist is drawn, and where it is hit.
#[derive(Debug)]
pub struct CellHit {
    pub item_id: String,
    /// The icon: where the border is drawn that shows what is pointed at.
    pub rect: Area,
    /// The whole cell: where the item is hit.
    pub hit_rect: Area,
    /// How many were needed when it was drawn.
    pub needed: u32,
}

/// What a [`CellHit`] says.
#[verifier::ext_equal]
pub struct CellHitView {
    pub item_id: Seq<char>,
    pub rect: Area,
    pub hit_rect: Area,
    pub needed: u32,
}

impl View for CellHit {
    type V = CellHitView;

    open spec fn view(&self) -> CellHitView {
        CellHitView {
            item_id: self.item_id@,
            rect: self.rect,
            hit_rect: self.hit_rect,
            needed: self.needed,
        }
    }
}

/// What is drawn in a cell.
#[derive(Debug)]
pub struct CellPlan {
    pub rect: Area,
    pub name: String,
    pub icon_path: String,
    /// Whether as many are there as are needed.
    pub done: bool,
    /// How many are shown to be there: no more than are needed.
    pub collected: u32,
    pub needed: u32,
    /// The progress.
    pub label: String,
}

/// What a [`CellPlan`] says.
#[verifier::ext_equal]
pub struct CellPlanView {
    pub rect: Area,
    pub name: Seq<char>,
    pub icon_path: Seq<char>,
    pub done: bool,
    pub collected: u32,
    pub needed: u32,
    pub label: Seq<char>,
}

impl View for CellPlan {
    type V = CellPlanView;

    open spec fn view(&self) -> CellPlanView {
        CellPlanView {
            rect: self.rect,
            name: self.name@,
            icon_path: self.icon_path@,
            done: self.done,
            collected: self.collected,
            needed: self.needed,
            label: self.label@,
        }
    }
}

/// The layout of a wishlist.
#[derive(Debug)]
pub struct GridPlan {
    pub width: u32,
    pub height: u32,
    pub cells: Vec<CellPlan>,
    pub hits: Vec<CellHit>,
    /// How many items there was no room for.
    pub more: usize,
}

/// The number of columns: at least one.
pub open spec fn columns(cols: u32) -> u32 {
    if cols == 0 {
        1
    } else {
        cols
    }
}

/// How many of `n` items are shown.
pub open spec fn visible_count(n: int, cols: u32) -> int {
    let room = columns(cols) * MAX_ROWS;
    if n < room {
        n
    } else {
        room
    }
}

/// How many rows `n` items take.
pub open spec fn rows_for(n: int, cols: u32) -> int {
    (n + columns(cols) - 1) / (columns(cols) as int)
}

/// The length of `n` cells with the space around them.
pub open spec fn span_of(n: int) -> int {
    CELL_PADDING + n * (CELL_PX + CELL_PADDING)
}

/// The cell number `i`.
pub open spec fn cell_area(i: int, cols: u32) -> Area {
    let c = columns(cols) as int;
    Area { x: span_of(i % c) as u32, y: span_of(i / c) as u32, w: CELL_PX, h: CELL_PX }
}

/// The icon of a cell.
pub open spec fn icon_area(cell: Area) -> Area {
    Area {
        x: cell.x,
        y: (cell.y + NAME_BAND_H) as u32,
        w: CELL_PX,
        h: (CELL_PX - NAME_BAND_H - FOOT_H) as u32,
    }
}

/// How many are shown to be there: no more than are needed, but for one where
/// none is.
pub open spec fn shown_count(collected: u32, needed: u32) -> u32 {
    let most = if needed == 0 {
        1u32
    } else {
        needed
    };
    if collected < most {
        collected
    } else {
        most
    }
}

/// The progress of a cell.
pub open spec fn chip_label(collected: u32, needed: u32) -> Seq<char> {
    if needed == 0 {
        "—"@
    } else {
        score::share(shown_count(collected, needed), needed)
    }
}

/// What is drawn in the cell number `i`.
pub open spec fn cell_plan(item: ActiveView, i: int, cols: u32) -> CellPlanView {
    CellPlanView {
        rect: cell_area(i, cols),
        name: item.name,
        icon_path: item.icon_path,
        done: item.needed > 0 && item.collected >= item.needed,
        collected: shown_count(item.collected, item.needed),
        needed: item.needed,
        label: chip_label(item.collected, item.needed),
    }
}

/// Where the cell number `i` is hit.
pub open spec fn cell_hit(item: ActiveView, i: int, cols: u32) -> CellHitView {
    let cell = cell_area(i, cols);
    CellHitView {
        item_id: item.item_id,
        rect: icon_area(cell),
        hit_rect: cell,
        needed: item.needed,
    }
}

impl GridPlan {
    /// Whether this is the layout of `items` in `cols` columns.
    pub open spec fn lays_out(self, items: Seq<ActiveView>, cols: u32) -> bool {
        let n = visible_count(items.len() as int, cols);
        &&& sorting::views(self.cells@) == Seq::new(
            n as nat,
            |i: int| cell_plan(items[i], i, cols),
        )
        &&& sorting::views(self.hits@) == Seq::new(n as nat, |i: int| cell_hit(items[i], i, cols))
        &&& self.more == items.len() - n
        &&& self.width == if n == 0 {
            PLACEHOLDER_WIDTH as int
        } else {
            span_of(columns(cols) as int)
        }
        &&& self.height == if n == 0 {
            PLACEHOLDER_HEIGHT as int
        } else {
            span_of(rows_for(n, cols))
        }
    }
}

/// Where a cell stands, the picture reaches.
pub proof fn lemma_cell_place(i: int, n: int, cols: u32)
    requires
        0 <= i < n <= columns(cols) * MAX_ROWS,
        cols <= MAX_COLS,
    ensures
        0 <= i % (columns(cols) as int) < columns(cols),
        0 <= i / (columns(cols) as int) < rows_for(n, cols) <= MAX_ROWS,
        span_of(i % (columns(cols) as int)) + CELL_PX + CELL_PADDING <= span_of(
            columns(cols) as int,
        ) <= u32::MAX,
        span_of(i / (columns(cols) as int)) + CELL_PX + CELL_PADDING <= span_of(
            rows_for(n, cols),
        ) <= u32::MAX,
{
    let c = columns(cols) as int;
    let col = i % c;
    let row = i / c;
    let rows = rows_for(n, cols);
    assert(0 <= col < c && i == row * c + col) by (nonlinear_arith)
        requires
            c > 0,
            col == i % c,
            row == i / c,
    ;
    assert(0 <= row) by (nonlinear_arith)
        requires
            0 <= i,
            c > 0,
            row == i / c,
    ;
    assert(row < rows) by (nonlinear_arith)
        requires
            i == row * c + col,
            0 <= col < c,
            i < n,
            c > 0,
            rows == (n + c - 1) / c,
    ;
    assert(rows <= 8) by (nonlinear_arith)
        requires
            n <= c * 8,
            c > 0,
            rows == (n + c - 1) / c,
    ;
}

/// The cells lie on the picture, with the space around them.
pub proof fn law_cells_lie_on_the_picture(i: int, n: int, cols: u32)
    requires
        0 <= i < n,
        n <= columns(cols) * MAX_ROWS,
        cols <= MAX_COLS,
    ensures
        CELL_PADDING <= cell_area(i, cols).x,
        CELL_PADDING <= cell_area(i, cols).y,
        cell_area(i, cols).x + CELL_PX + CELL_PADDING <= span_of(columns(cols) as int),
        cell_area(i, cols).y + CELL_PX + CELL_PADDING <= span_of(rows_for(n, cols)),
        icon_area(cell_area(i, cols)).within(cell_area(i, cols)),
{
    lemma_cell_place(i, n, cols);
}

/// No two cells meet: a point hits one item at most.
pub proof fn law_cells_are_apart(i: int, j: int, n: int, cols: u32)
    requires
        0 <= i < j < n,
        n <= columns(cols) * MAX_ROWS,
        cols <= MAX_COLS,
    ensures
        !cell_area(i, cols).meets(cell_area(j, cols)),
{
    lemma_cell_place(i, n, cols);
    lemma_cell_place(j, n, cols);
    let c = columns(cols) as int;
    assert(i % c != j % c || i / c != j / c) by (nonlinear_arith)
        requires
            0 <= i < j,
            c > 0,
    ;
}

fn chip_text(collected: u32, needed: u32) -> (r: String)
    ensures
        r@ == chip_label(collected, needed),
{
    if needed == 0 {
        "—".to_owned()
    } else {
        progress_string(count_shown(collected, needed), needed)
    }
}

fn count_shown(collected: u32, needed: u32) -> (r: u32)
    ensures
        r == shown_count(collected, needed),
{
    let most: u32 = if needed == 0 {
        1
    } else {
        needed
    };
    if collected < most {
        collected
    } else {
        most
    }
}

/// Lays out the wishlist in `cols` columns. At most eight rows are shown.
pub fn render(items: &Vec<ActiveItem>, cols: u32) -> (r: GridPlan)
    requires
        cols <= MAX_COLS,
    ensures
        r.lays_out(sorting::views(items@), cols),
{
    let ghost all = sorting::views(items@);
    let c: u32 = if cols == 0 {
        1
    } else {
        cols
    };
    let room: u32 = c * MAX_ROWS;
    let n: usize = if items.len() as u64 >= room as u64 {
        room as usize
    } else {
        items.len()
    };
    let ghost plans = Seq::new(n as nat, |i: int| cell_plan(all[i], i, cols));
    let ghost places = Seq::new(n as nat, |i: int| cell_hit(all[i], i, cols));
    if n == 0 {
        let r = GridPlan {
            width: PLACEHOLDER_WIDTH,
            height: PLACEHOLDER_HEIGHT,
            cells: Vec::new(),
            hits: Vec::new(),
            more: items.len() - n,
        };
        assert(sorting::views(r.cells@) =~= plans);
        assert(sorting::views(r.hits@) =~= places);
        return r;
    }
    let mut cells: Vec<CellPlan> = Vec::new();
    let mut hits: Vec<CellHit> = Vec::new();
    assert(sorting::views(cells@) =~= plans.take(0));
    assert(sorting::views(hits@) =~= places.take(0));
    let mut i: usize = 0;
    while i < n
        invariant
            i <= n <= items@.len(),
            all == sorting::views(items@),
            c == columns(cols),
            cols <= MAX_COLS,
            n <= c * MAX_ROWS,
            plans == Seq::new(n as nat, |k: int| cell_plan(all[k], k, cols)),
            places == Seq::new(n as nat, |k: int| cell_hit(all[k], k, cols)),
            sorting::views(cells@) == plans.take(i as int),
            sorting::views(hits@) == places.take(i as int),
        decreases n - i,
    {
        let item: &ActiveItem = &items[i];
        assert(all[i as int] == item@);
        proof {
            lemma_cell_place(i as int, n as int, cols);
        }
        let col: u32 = i as u32 % c;
        let row: u32 = i as u32 / c;
        let x: u32 = CELL_PADDING + col * (CELL_PX + CELL_PADDING);
        let y: u32 = CELL_PADDING + row * (CELL_PX + CELL_PADDING);
        let cell = Area { x, y, w: CELL_PX, h: CELL_PX };
        let icon = Area {
            x,
            y: y + NAME_BAND_H,
            w: CELL_PX,
            h: CELL_PX - NAME_BAND_H - FOOT_H,
        };
        assert(cell == cell_area(i as int, cols));
        let ghost cells0 = sorting::views(cells@);
        let ghost hits0 = sorting::views(hits@);
        cells.push(
            CellPlan {
                rect: cell,
                name: item.name.clone(),
                icon_path: item.icon_path.clone(),
                done: item.needed > 0 && item.collected >= item.needed,
                collected: count_shown(item.collected, item.needed),
                needed: item.needed,
                label: chip_text(item.collected, item.needed),
            },
        );
        hits.push(
            CellHit {
                item_id: item.item_id.clone(),
                rect: icon,
                hit_rect: cell,
                needed: item.needed,
            },
        );
        assert(sorting::views(cells@) =~= cells0.push(plans[i as int]));
        assert(plans.take(i + 1) =~= cells0.push(plans[i as int]));
        assert(sorting::views(hits@) =~= hits0.push(places[i as int]));
        assert(places.take(i + 1) =~= hits0.push(places[i as int]));
        i += 1;
    }
    assert(plans.take(n as int) =~= plans);
    assert(places.take(n as int) =~= places);
    proof {
        lemma_cell_place(n - 1, n as int, cols);
    }
    let rows: u32 = ((n as u64 + c as u64 - 1) / c as u64) as u32;
    GridPlan {
        width: CELL_PADDING + c * (CELL_PX + CELL_PADDING),
        height: CELL_PADDING + rows * (CELL_PX + CELL_PADDING),
        cells,
        hits,
        more: items.len() - n,
    }
}

/// The first `max` items; all of them where `max` is nought.
pub fn cap_wishlist(items: &mut Vec<ActiveItem>, max: u32)
    ensures
        final(items)@ == if max == 0 || old(items)@.len() <= max {
            old(items)@
        } else {
            old(items)@.take(max as int)
        },
{
    if max != 0 && items.len() as u64 > max as u64 {
        items.truncate(max as usize);
    }
}

/// The length of the longest beginning of a text, shorter than the whole, that
/// fits with an ellipsis behind it. `fits[k]` says that of the one with `k`
/// characters.
pub open spec fn longest_fit(fits: Seq<bool>, k: int) -> Option<int>
    decreases k,
{
    if k <= 0 {
        None
    } else if fits[k - 1] {
        Some(k - 1)
    } else {
        longest_fit(fits, k - 1)
    }
}

/// A text as far as it fits, with an ellipsis where it is cut; nothing where
/// not even the ellipsis fits.
pub fn truncate_to_width(t: &str, whole_fits: bool, ellipsis_fits: bool, fits: &Vec<bool>) -> (r:
    String)
    requires
        fits@.len() == t@.len(),
    ensures
        r@ == if whole_fits {
            t@
        } else if !ellipsis_fits {
            Seq::empty()
        } else {
            match longest_fit(fits@, t@.len() as int) {
                Some(k) => t@.take(k) + "…"@,
                None => "…"@,
            }
        },
{
    if whole_fits {
        return t.to_owned();
    }
    if !ellipsis_fits {
        return String::new();
    }
    let chars: Vec<char> = chars_of(t);
    let mut k: usize = chars.len();
    while k > 0
        invariant
            k <= chars@.len(),
            chars@ == t@,
            fits@.len() == t@.len(),
            !whole_fits,
            ellipsis_fits,
            longest_fit(fits@, t@.len() as int) == longest_fit(fits@, k as int),
        decreases k,
    {
        k -= 1;
        if fits[k] {
            let mut r: String = string_from(chars.as_slice(), 0, k);
            assert(r@ =~= t@.take(k as int));
            r.append("…");
            return r;
        }
    }
    "…".to_owned()
}

/// The largest number of pixels of an icon. The decoder gives no larger
/// pictures.
pub const MAX_ICON_PIXELS: u64 = 536_870_912;

/// Whether a picture of such sides can be drawn.
pub open spec fn drawable(sides: (u32, u32)) -> bool {
    0 < sides.0 * sides.1 <= MAX_ICON_PIXELS
}

/// The icon that a file holds. There is none where the file cannot be decoded,
/// or the picture has no pixels or too many.
pub fn decode_icon(bytes: &[u8]) -> (r: Option<Canvas>)
    ensures
        match r {
            Some(icon) => {
                &&& icon.wf()
                &&& drawable((icon.w, icon.h))
                &&& exists|from: PictureView| #[trigger]
                    imaging::decode_may_give(bytes@, Some(from)) && from.0 == (icon.w, icon.h)
                        && imaging::rgba_may_give(from, canvas::colour_bytes(icon.px@))
            },
            None => imaging::decode_may_give(bytes@, None) || exists|from: PictureView| #[trigger]
                imaging::decode_may_give(bytes@, Some(from)) && !drawable(from.0),
        },
{
    let picture: image::DynamicImage = match decode_picture(bytes) {
        Some(p) => p,
        None => {
            return None;
        },
    };
    let ghost from = (imaging::sides_of(picture), imaging::samples_of(picture));
    let (w, h): (u32, u32) = picture_sides(&picture);
    assert(0 <= w * h <= u64::MAX) by (nonlinear_arith)
        requires
            0 <= w <= 0xffff_ffff,
            0 <= h <= 0xffff_ffff,
    ;
    let pixels: u64 = w as u64 * h as u64;
    assert(imaging::decode_may_give(bytes@, Some(from)));
    if pixels == 0 || pixels > MAX_ICON_PIXELS {
        return None;
    }
    let rgba: Vec<u8> = rgba_samples(&picture);
    Some(Canvas::from_bytes(w, h, &rgba))
}

/// An icon at another size, of at least one pixel each way.
pub fn scale_icon(icon: &Canvas, w: u32, h: u32) -> (r: Canvas)
    requires
        icon.wf(),
        0 < icon.w <= MAX_SIDE,
        0 < icon.h <= MAX_SIDE,
        w <= MAX_SIDE,
        h <= MAX_SIDE,
        4 * (icon.w * icon.h) <= u32::MAX,
        4 * (w * h) <= u32::MAX,
    ensures
        r.wf(),
        r.w == if w == 0 {
            1
        } else {
            w
        },
        r.h == if h == 0 {
            1
        } else {
            h
        },
        imaging::sampling_may_give(
            ((icon.w, icon.h), canvas::colour_bytes(icon.px@)),
            ((r.w, r.h), canvas::colour_bytes(r.px@)),
        ),
{
    let to_w: u32 = if w == 0 {
        1
    } else {
        w
    };
    let to_h: u32 = if h == 0 {
        1
    } else {
        h
    };
    assert(4 * (to_w * to_h) <= u32::MAX) by (nonlinear_arith)
        requires
            4 * (w * h) <= 0xffff_ffff,
            w <= 8_388_608,
            h <= 8_388_608,
            to_w == w || w == 0 && to_w == 1,
            to_h == h || h == 0 && to_h == 1,
    ;
    let bytes: Vec<u8> = icon.to_bytes();
    let out: Vec<u8> = sample_rgba(icon.w, icon.h, &bytes, to_w, to_h);
    Canvas::from_bytes(to_w, to_h, &out)
}

} // verus!
