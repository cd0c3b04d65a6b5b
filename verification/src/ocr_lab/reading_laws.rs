//! What the panel says and what is read of it.

use crate::ocr_lab::cluster_laws;
use crate::ocr_lab::engine::{BBox, WordView};
use crate::ocr_lab::pipeline;
use crate::ocr_lab::pipeline::ItemView;
use crate::ocr_lab::raster;
use crate::ocr_lab::raster::Gray;
use crate::ocr_lab::templates;
use crate::ocr_lab::templates::Template;
use crate::ocr_lab::words;
use crate::text;
use vstd::prelude::*;

verus! {

/// The number before the slash is how many are there, the one behind it how
/// many are needed: so it is read of the strip between 55 and 88 hundredths of
/// the height of the cell.
pub proof fn law_item_has_the_written_counts(
    panel: Gray,
    ws: Seq<WordView>,
    cell: BBox,
    ts: Seq<Template>,
    item: ItemView,
    strip: Gray,
    a: u32,
    b: u32,
)
    requires
        pipeline::is_item(panel, ws, cell, ts, item),
        cell.fits(),
        ts.len() > 0,
        cell.h * 55 / 100 < cell.h * 88 / 100,
        raster::is_part(
            panel,
            cell.x,
            (cell.y + cell.h * 55 / 100) as u32,
            cell.w,
            (cell.h * 88 / 100 - cell.h * 55 / 100) as u32,
            strip,
        ),
        templates::read_as(
            strip,
            ts,
            text::decimal(a as nat) + seq!['/'] + text::decimal(b as nat),
        ),
    ensures
        item.collected == a,
        item.needed == b,
{
    let t = text::decimal(a as nat) + seq!['/'] + text::decimal(b as nat);
    lemma_item_reads_the_strip(panel, ws, cell, ts, item, strip, t);
    words::law_written_progress_reads_back(t, a, b);
}

/// Without stored digits no counts are read, nor of a strip that reads as no
/// two numbers.
pub proof fn law_item_without_counts(
    panel: Gray,
    ws: Seq<WordView>,
    cell: BBox,
    ts: Seq<Template>,
    item: ItemView,
    strip: Gray,
    t: Seq<char>,
)
    requires
        pipeline::is_item(panel, ws, cell, ts, item),
        cell.fits(),
        ts.len() == 0 || cell.h * 55 / 100 >= cell.h * 88 / 100 || raster::is_part(
            panel,
            cell.x,
            (cell.y + cell.h * 55 / 100) as u32,
            cell.w,
            (cell.h * 88 / 100 - cell.h * 55 / 100) as u32,
            strip,
        ) && templates::read_as(strip, ts, t) && words::progress_of(t) is None,
    ensures
        item.collected == 0,
        item.needed == 0,
{
    if ts.len() > 0 && cell.h * 55 / 100 < cell.h * 88 / 100 {
        lemma_item_reads_the_strip(panel, ws, cell, ts, item, strip, t);
    }
}

proof fn lemma_item_reads_the_strip(
    panel: Gray,
    ws: Seq<WordView>,
    cell: BBox,
    ts: Seq<Template>,
    item: ItemView,
    strip: Gray,
    t: Seq<char>,
)
    requires
        pipeline::is_item(panel, ws, cell, ts, item),
        cell.fits(),
        ts.len() > 0,
        cell.h * 55 / 100 < cell.h * 88 / 100,
        raster::is_part(
            panel,
            cell.x,
            (cell.y + cell.h * 55 / 100) as u32,
            cell.w,
            (cell.h * 88 / 100 - cell.h * 55 / 100) as u32,
            strip,
        ),
        templates::read_as(strip, ts, t),
    ensures
        words::progress_of(t) matches Some(p) ==> item.collected == p.0 && item.needed == p.1,
        words::progress_of(t) is None ==> item.collected == 0 && item.needed == 0,
{
    let p = choose|p: Option<(u32, u32)>| #[trigger]
        pipeline::is_progress(panel, cell, ts, p) && (item.collected, item.needed) == match p {
            Some(q) => q,
            None => (0u32, 0u32),
        };
    let (top, bottom) = pipeline::progress_rows(cell);
    let (own, u) = choose|own: Gray, u: Seq<char>|
        raster::is_part(panel, cell.x, top as u32, cell.w, (bottom - top) as u32, own)
            && #[trigger] templates::read_as(own, ts, u) && p == words::progress_of(u);
    assert forall|x: int, y: int| own.inside(x, y) implies own.spec_get(x, y)
        == #[trigger] strip.spec_get(x, y) by {
        assert(strip.inside(x, y));
        assert(own.spec_get(x, y) == own.spec_get(x, y));
    }
    cluster_laws::law_alike_strips_read_alike(own, strip, ts, u);
    cluster_laws::law_reading_is_determined(strip, ts, t, u);
}

} // verus!
