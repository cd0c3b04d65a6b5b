//! The wishlist file: what was captured of upgrade panels, keyed by the
//! upgrade's title and level.

use crate::ids::IdMap;
use vstd::prelude::*;

verus! {

pub const SCHEMA_VERSION: u32 = 1;

/// One item of a captured panel.
#[derive(Debug)]
pub struct CapturedItem {
    pub name: String,
    pub collected: Option<u32>,
    pub needed: Option<u32>,
}

/// A captured panel.
#[derive(Debug)]
pub struct CapturedUpgrade {
    pub key: String,
    pub title: String,
    pub level: String,
    pub cost: Option<u64>,
    pub items: Vec<CapturedItem>,
}

/// The latest capture of one upgrade.
#[derive(Debug)]
pub struct WishlistEntry {
    /// When it was captured.
    pub captured_at: String,
    /// Path of the screenshot.
    pub source_screenshot: String,
    pub upgrade: CapturedUpgrade,
    /// The text as it was read, so that it can be taken apart again.
    pub raw_ocr_text: String,
}

/// The captures, by the key of what was captured. They are told apart by their
/// keys alone; the order in which they came does not matter.
#[derive(Debug)]
pub struct Wishlist {
    pub schema_version: u32,
    pub entries: IdMap<WishlistEntry>,
}

impl Default for Wishlist {
    fn default() -> (r: Self)
        ensures
            r.schema_version == 0,
            r.entries@ == Map::<Seq<char>, WishlistEntry>::empty(),
    {
        Wishlist { schema_version: 0, entries: IdMap::new() }
    }
}

/// Adds a capture, in place of an earlier one of the same upgrade. The
/// earlier one is handed back.
pub fn upsert(
    wishlist: &mut Wishlist,
    upgrade: CapturedUpgrade,
    raw_ocr_text: String,
    source_screenshot: String,
    captured_at: String,
) -> (prev: Option<WishlistEntry>)
    ensures
        final(wishlist).schema_version == SCHEMA_VERSION,
        final(wishlist).entries@ == old(wishlist).entries@.insert(
            upgrade.key@,
            (WishlistEntry { captured_at, source_screenshot, upgrade, raw_ocr_text }),
        ),
        prev == if old(wishlist).entries@.contains_key(upgrade.key@) {
            Some(old(wishlist).entries@[upgrade.key@])
        } else {
            None
        },
{
    wishlist.schema_version = SCHEMA_VERSION;
    let key: String = upgrade.key.clone();
    wishlist.entries.insert(
        key,
        WishlistEntry { captured_at, source_screenshot, upgrade, raw_ocr_text },
    )
}

} // verus!
