//! Clicks on the wishlist.

use crate::ids::IdMap;
use crate::sorting;
use crate::state::inventory;
use crate::state::AppState;
use crate::text;
use crate::vr::pose;
use crate::vr::pose::MS;
use crate::vr::render::{Area, CellHit, CellHitView};
use vstd::prelude::*;

verus! {

/// A click on a cell so soon after the last one on it is dropped.
pub const DEBOUNCE_MS: u64 = 100;

/// How long the controller buzzes for a click.
pub const HAPTIC_INCREMENT_US: u16 = 1_500;

/// How long the controller buzzes for a click that starts a count over.
pub const HAPTIC_RESET_US: u16 = 3_500;

/// What a click did.
#[derive(Debug)]
pub enum ClickOutcome {
    /// The count of the item went up.
    Incremented { item_id: String, new_value: u32 },
    /// The count of the item was full and started over.
    Reset { item_id: String },
    /// The click hit nothing, or came too soon.
    Ignored,
}

/// What a [`ClickOutcome`] says.
#[verifier::ext_equal]
pub enum ClickView {
    Incremented { item_id: Seq<char>, new_value: u32 },
    Reset { item_id: Seq<char> },
    Ignored,
}

impl View for ClickOutcome {
    type V = ClickView;

    open spec fn view(&self) -> ClickView {
        match *self {
            ClickOutcome::Incremented { item_id, new_value } => ClickView::Incremented {
                item_id: item_id@,
                new_value,
            },
            ClickOutcome::Reset { item_id } => ClickView::Reset { item_id: item_id@ },
            ClickOutcome::Ignored => ClickView::Ignored,
        }
    }
}

impl ClickOutcome {
    /// How long the controller buzzes, where it does.
    pub fn haptic(&self) -> (r: Option<u16>)
        ensures
            r == match self@ {
                ClickView::Incremented { item_id, new_value } => Some(HAPTIC_INCREMENT_US),
                ClickView::Reset { item_id } => Some(HAPTIC_RESET_US),
                ClickView::Ignored => None,
            },
    {
        match self {
            ClickOutcome::Incremented { .. } => Some(HAPTIC_INCREMENT_US),
            ClickOutcome::Reset { .. } => Some(HAPTIC_RESET_US),
            ClickOutcome::Ignored => None,
        }
    }
}

/// The time of the last click on each item. Times are in nanoseconds since
/// some fixed moment.
#[derive(Debug)]
pub struct Debouncer {
    pub last_click: IdMap<u64>,
}

/// Whether a click at `now` comes too soon after the last one.
pub open spec fn too_soon(clicks: Map<Seq<char>, u64>, item: Seq<char>, now: u64) -> bool {
    clicks.contains_key(item) && pose::elapsed(clicks[item], now) < DEBOUNCE_MS * MS
}

impl Debouncer {
    /// No click yet.
    pub fn new() -> (r: Self)
        ensures
            r.last_click@ == Map::<Seq<char>, u64>::empty(),
    {
        Debouncer { last_click: IdMap::new() }
    }

    /// Whether a click on an item comes too soon after the last one. A click
    /// that does not is remembered.
    pub fn should_drop(&mut self, item_id: &String, now: u64) -> (r: bool)
        ensures
            r == too_soon(old(self).last_click@, item_id@, now),
            final(self).last_click@ == if r {
                old(self).last_click@
            } else {
                old(self).last_click@.insert(item_id@, now)
            },
    {
        if let Some(prev) = self.last_click.get(item_id.as_str()) {
            let then: u64 = *prev;
            let since: u64 = if now < then {
                0
            } else {
                now - then
            };
            if since < DEBOUNCE_MS * MS {
                return true;
            }
        }
        let _ = self.last_click.insert(item_id.clone(), now);
        false
    }
}

/// A point of the picture: the whole pixels just before and behind it, which
/// are the same where it lies on one.
#[derive(Debug, Clone, Copy, PartialEq, Eq, Structural)]
pub struct Spot {
    pub left: i64,
    pub top: i64,
    pub right: i64,
    pub bottom: i64,
}

impl Spot {
    /// The point at a whole pixel.
    pub fn at(x: i64, y: i64) -> (r: Self)
        ensures
            r == (Spot { left: x, top: y, right: x, bottom: y }),
    {
        Spot { left: x, top: y, right: x, bottom: y }
    }

    /// Whether the point lies in an area, its border included.
    pub open spec fn in_area(self, a: Area) -> bool {
        &&& a.x <= self.left
        &&& self.right <= a.x + a.w
        &&& a.y <= self.top
        &&& self.bottom <= a.y + a.h
    }
}

/// The first item that a point hits, from place `from` on.
pub open spec fn first_hit(hits: Seq<CellHitView>, spot: Spot, from: int) -> Option<int>
    decreases hits.len() - from,
{
    if from < 0 || from >= hits.len() {
        None
    } else if spot.in_area(hits[from].hit_rect) {
        Some(from)
    } else {
        first_hit(hits, spot, from + 1)
    }
}

/// The item that a point hits: the first one whose cell it lies in.
pub fn hit_test<'a>(hits: &'a Vec<CellHit>, spot: &Spot) -> (r: Option<&'a CellHit>)
    ensures
        match (r, first_hit(sorting::views(hits@), *spot, 0)) {
            (Some(h), Some(i)) => 0 <= i < hits@.len() && *h == hits@[i],
            (None, None) => true,
            _ => false,
        },
{
    let ghost all = sorting::views(hits@);
    let mut i: usize = 0;
    while i < hits.len()
        invariant
            i <= hits@.len(),
            all == sorting::views(hits@),
            first_hit(all, *spot, 0) == first_hit(all, *spot, i as int),
        decreases hits@.len() - i,
    {
        let a: Area = hits[i].hit_rect;
        assert(all[i as int] == hits@[i as int]@);
        if a.x as i64 <= spot.left && spot.right <= a.x as i64 + a.w as i64 && a.y as i64
            <= spot.top && spot.bottom <= a.y as i64 + a.h as i64 {
            return Some(&hits[i]);
        }
        i += 1;
    }
    None
}

/// The item that one of some points hits: that of the first point that hits
/// any.
pub open spec fn first_hover(hits: Seq<CellHitView>, spots: Seq<Option<Spot>>) -> Option<Seq<char>>
    decreases spots.len(),
{
    if spots.len() == 0 {
        None
    } else {
        let hit = match spots[0] {
            Some(s) => first_hit(hits, s, 0),
            None => None,
        };
        match hit {
            Some(i) => Some(hits[i].item_id),
            None => first_hover(hits, spots.skip(1)),
        }
    }
}

/// The item that is pointed at, by where the rays of the controllers meet the
/// picture.
pub fn hover_of(hits: &Vec<CellHit>, spots: &Vec<Option<Spot>>) -> (r: Option<String>)
    ensures
        text::opt_text(r) == first_hover(sorting::views(hits@), spots@),
{
    let ghost all = sorting::views(hits@);
    let mut i: usize = 0;
    assert(spots@.skip(0) =~= spots@);
    while i < spots.len()
        invariant
            i <= spots@.len(),
            all == sorting::views(hits@),
            first_hover(all, spots@) == first_hover(all, spots@.skip(i as int)),
        decreases spots@.len() - i,
    {
        assert(spots@.skip(i as int).skip(1) =~= spots@.skip(i + 1));
        assert(spots@.skip(i as int)[0] == spots@[i as int]);
        if let Some(s) = spots[i] {
            if let Some(h) = hit_test(hits, &s) {
                return Some(h.item_id.clone());
            }
        }
        i += 1;
    }
    None
}

/// What a click on the cell `hit` does to the counts.
pub open spec fn click_outcome(collected: Map<Seq<char>, u32>, hit: CellHitView) -> ClickView {
    let cur = inventory::held(collected, hit.item_id);
    if hit.needed != 0 && cur >= hit.needed {
        ClickView::Reset { item_id: hit.item_id }
    } else {
        ClickView::Incremented { item_id: hit.item_id, new_value: (cur + 1) as u32 }
    }
}

/// Takes in a click on the wishlist. A click on an item counts one more, and
/// starts over where as many are there as are needed.
pub fn handle_click(
    state: &mut AppState,
    hits: &Vec<CellHit>,
    spot: &Spot,
    debounce: &mut Debouncer,
    now: u64,
) -> (r: ClickOutcome)
    requires
        first_hit(sorting::views(hits@), *spot, 0) matches Some(i) ==> hits@[i].needed == 0
            ==> too_soon(old(debounce).last_click@, hits@[i].item_id@, now) || inventory::held(
            old(state)@.collected,
            hits@[i].item_id@,
        ) < u32::MAX,
    ensures
        ({
            let all = sorting::views(hits@);
            match first_hit(all, *spot, 0) {
                None => r@ == ClickView::Ignored && final(state)@ == old(state)@
                    && final(debounce).last_click@ == old(debounce).last_click@,
                Some(i) => if too_soon(old(debounce).last_click@, all[i].item_id, now) {
                    r@ == ClickView::Ignored && final(state)@ == old(state)@
                        && final(debounce).last_click@ == old(debounce).last_click@
                } else {
                    &&& r@ == click_outcome(old(state)@.collected, all[i])
                    &&& final(debounce).last_click@ == old(debounce).last_click@.insert(
                        all[i].item_id,
                        now,
                    )
                    &&& final(state)@ == old(state)@.with_collected(
                        all[i].item_id,
                        match click_outcome(old(state)@.collected, all[i]) {
                            ClickView::Incremented { item_id, new_value } => new_value,
                            _ => 0,
                        },
                    )
                },
            }
        }),
{
    let ghost all = sorting::views(hits@);
    let hit: &CellHit = match hit_test(hits, spot) {
        Some(h) => h,
        None => {
            return ClickOutcome::Ignored;
        },
    };
    let ghost i = first_hit(all, *spot, 0)->0;
    assert(all[i] == hit@);
    if debounce.should_drop(&hit.item_id, now) {
        return ClickOutcome::Ignored;
    }
    assert(hits@[i].needed == 0 ==> inventory::held(state@.collected, hits@[i].item_id@)
        < u32::MAX);
    let (new_value, was_reset): (u32, bool) = state.cycle_collected(&hit.item_id, hit.needed);
    if was_reset {
        ClickOutcome::Reset { item_id: hit.item_id.clone() }
    } else {
        ClickOutcome::Incremented { item_id: hit.item_id.clone(), new_value }
    }
}

/// Of two clicks on one item the second counts only where it comes late
/// enough; clicks on other items do not matter.
pub proof fn law_debounce_is_per_item(
    clicks: Map<Seq<char>, u64>,
    a: Seq<char>,
    b: Seq<char>,
    t0: u64,
    t1: u64,
)
    ensures
        too_soon(clicks.insert(a, t0), a, t1) == (pose::elapsed(t0, t1) < DEBOUNCE_MS * MS),
        a != b ==> too_soon(clicks.insert(a, t0), b, t1) == too_soon(clicks, b, t1),
{
}

} // verus!
