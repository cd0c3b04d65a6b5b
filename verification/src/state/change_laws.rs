//! What the operations of the state change, and what they leave.

use crate::data;
use crate::data::Kilograms;
use crate::state::inventory;
use crate::state::laws;
use crate::state::stock_laws;
use crate::state::{AppState, ContainerKind, ResearchNodeState};
use vstd::prelude::*;

verus! {

/// A count goes up by one until it reaches what is needed, and then starts from
/// none again; other counts and the containers stay.
pub proof fn law_cycling(
    a: &mut AppState,
    item: &String,
    target: u32,
    r: (u32, bool),
    other: Seq<char>,
)
    requires
        call_ensures(AppState::cycle_collected, (a, item, target), r),
        inventory::held(old(a)@.collected, item@) < u32::MAX,
        other != item@,
    ensures
        inventory::held(final(a)@.collected, item@) == r.0,
        r.1 <==> target > 0 && inventory::held(old(a)@.collected, item@) >= target,
        r.1 ==> r.0 == 0,
        !r.1 ==> r.0 == inventory::held(old(a)@.collected, item@) + 1,
        inventory::held(final(a)@.collected, other) == inventory::held(old(a)@.collected, other),
        final(a)@.containers == old(a)@.containers,
{
}

/// A container that is renamed has the new name and keeps what it holds.
pub proof fn law_renaming(a: &mut AppState, id: &String, name: String, r: (), i: int)
    requires
        call_ensures(AppState::rename_container, (a, id, name), r),
        stock_laws::ids_distinct(old(a)@.containers),
        0 <= i < old(a)@.containers.len(),
    ensures
        final(a)@.containers.len() == old(a)@.containers.len(),
        final(a)@.containers[i].id == old(a)@.containers[i].id,
        final(a)@.containers[i].contents == old(a)@.containers[i].contents,
        final(a)@.containers[i].name == if old(a)@.containers[i].id == id@ {
            name@
        } else {
            old(a)@.containers[i].name
        },
{
    if old(a)@.containers[i].id == id@ {
        stock_laws::lemma_find_own(old(a)@.containers, i);
    }
    inventory::lemma_container_from(old(a)@.containers, id@, 0);
}

/// A module is disabled or enabled alone, and what changes nothing leaves the
/// version too.
pub proof fn law_disabling(a: &mut AppState, id: &String, on: bool, r: (), other: Seq<char>)
    requires
        call_ensures(AppState::set_module_disabled, (a, id, on), r),
        other != id@,
    ensures
        final(a)@.disabled_modules.contains(id@) == on,
        final(a)@.disabled_modules.contains(other) == old(a)@.disabled_modules.contains(other),
        final(a)@.tracking == old(a)@.tracking,
        final(a)@.completed == old(a)@.completed,
        final(a)@.version == old(a)@.version <==> old(a)@.disabled_modules.contains(id@) == on,
{
}

/// A research node is put on the wishlist or taken off it alone; what is
/// recorded of it stays.
pub proof fn law_tracking_research(a: &mut AppState, id: &String, on: bool, r: (), other: Seq<char>)
    requires
        call_ensures(AppState::set_tracked_research, (a, id, on), r),
        other != id@,
    ensures
        final(a)@.tracked_research.contains(id@) == on,
        final(a)@.tracked_research.contains(other) == old(a)@.tracked_research.contains(other),
        final(a)@.pinned_research == old(a)@.pinned_research,
        final(a)@.research_states == old(a)@.research_states,
        final(a)@.version != old(a)@.version,
{
}

/// A research node is pinned alone, and a pin that changes nothing leaves the
/// version too.
pub proof fn law_pinning_research(a: &mut AppState, id: &String, on: bool, r: (), other: Seq<char>)
    requires
        call_ensures(AppState::set_pinned_research, (a, id, on), r),
        other != id@,
    ensures
        final(a)@.pinned_research.contains(id@) == on,
        final(a)@.pinned_research.contains(other) == old(a)@.pinned_research.contains(other),
        final(a)@.tracked_research == old(a)@.tracked_research,
        final(a)@.version == old(a)@.version <==> old(a)@.pinned_research.contains(id@) == on,
{
}

/// Without its correction an upgrade costs what the bundled recipe says; other
/// corrections stay.
pub proof fn law_clearing_a_correction(a: &mut AppState, id: &String, r: (), other: Seq<char>)
    requires
        call_ensures(AppState::clear_recipe_override, (a, id), r),
        other != id@,
        old(a)@.data.knows_upgrade(id@),
    ensures
        !final(a)@.overrides.contains_key(id@),
        final(a)@.slots(id@) == data::base_slots_of(
            old(a)@.data.upgrade(id@).requirements,
        ),
        final(a)@.slots(other) == old(a)@.slots(other),
        final(a)@.version == old(a)@.version <==> !old(a)@.overrides.contains_key(id@),
{
}

/// An upgrade is completed whether it is paid for or not. Paying takes what its
/// recipe costs, and without paying nothing is taken.
pub proof fn law_completing_an_upgrade(a: &mut AppState, id: &String, pay: bool, r: (), n: int)
    requires
        call_ensures(AppState::complete_upgrade, (a, id, pay), r),
        stock_laws::ids_distinct(old(a)@.containers),
        old(a)@.stocked(old(a)@.requirements(id@)),
        forall|i: int, j: int|
            0 <= i < j < old(a)@.requirements(id@).len() ==> (#[trigger] old(a)@.requirements(
                id@,
            )[i]).item != (#[trigger] old(a)@.requirements(id@)[j]).item,
        0 <= n < old(a)@.requirements(id@).len(),
    ensures
        final(a)@.completed.contains(id@),
        !final(a)@.tracking.contains(id@),
        ({
            let need = old(a)@.requirements(id@)[n];
            &&& pay ==> final(a)@.owned(need.item) + need.quantity == old(a)@.owned(need.item)
            &&& !pay ==> final(a)@.owned(need.item) == old(a)@.owned(need.item)
        }),
{
    let s = old(a)@;
    let reqs = s.requirements(id@);
    stock_laws::law_paying_takes_the_cost(s, reqs, n);
    laws::law_track_and_done_exclude_each_other(s, id@);
    laws::law_track_and_done_exclude_each_other(s.spending_all(reqs), id@);
    let paid = s.spending_all(reqs);
    assert(paid.with_completed(id@, true).owned(reqs[n].item) == paid.owned(reqs[n].item));
    assert(s.with_completed(id@, true).owned(reqs[n].item) == s.owned(reqs[n].item));
}

/// A research node is developed whether its samples are handed in or not.
/// Handing them in takes as many as are asked for, and without that nothing is
/// taken.
pub proof fn law_completing_research(a: &mut AppState, id: &String, pay: bool, r: (), n: int)
    requires
        call_ensures(AppState::complete_research, (a, id, pay), r),
        stock_laws::ids_distinct(old(a)@.containers),
        old(a)@.stocked(old(a)@.samples(id@)),
        forall|i: int, j: int|
            0 <= i < j < old(a)@.samples(id@).len() ==> (#[trigger] old(a)@.samples(id@)[i]).item
                != (#[trigger] old(a)@.samples(id@)[j]).item,
        0 <= n < old(a)@.samples(id@).len(),
    ensures
        final(a)@.developed(id@),
        !final(a)@.tracked_research.contains(id@),
        ({
            let need = old(a)@.samples(id@)[n];
            &&& pay ==> final(a)@.owned(need.item) + need.quantity == old(a)@.owned(need.item)
            &&& !pay ==> final(a)@.owned(need.item) == old(a)@.owned(need.item)
        }),
{
    let s = old(a)@;
    let reqs = s.samples(id@);
    stock_laws::law_paying_takes_the_cost(s, reqs, n);
    let done = Some(ResearchNodeState::Developed);
    let paid = s.spending_all(reqs);
    assert(paid.with_research_state(id@, done).owned(reqs[n].item) == paid.owned(reqs[n].item));
    assert(s.with_research_state(id@, done).owned(reqs[n].item) == s.owned(reqs[n].item));
}

/// A container that is deleted is gone with what it held; the others stay, and
/// where there is none of that id nothing changes.
pub proof fn law_deleting(a: &mut AppState, id: &String, r: (), i: int)
    requires
        call_ensures(AppState::delete_container, (a, id), r),
        old(a)@.ids_in_order(),
        0 <= i < old(a)@.containers.len(),
    ensures
        inventory::container_from(final(a)@.containers, id@, 0) is None,
        old(a)@.containers[i].id != id@ ==> final(a)@.containers.contains(old(a)@.containers[i]),
        final(a)@.collected == old(a)@.collected,
        inventory::container_from(old(a)@.containers, id@, 0) is None ==> final(a)@ == old(a)@,
{
    stock_laws::law_deleting_keeps_the_rest(old(a)@, id@);
    assert(old(a)@.containers.contains(old(a)@.containers[i]));
}

/// What is added to a count can be taken off again.
pub proof fn law_adjusting(
    a: &mut AppState,
    b: &mut AppState,
    item: &String,
    delta: i64,
    back: i64,
    r: (),
)
    requires
        call_ensures(AppState::adjust_collected, (a, item, delta), r),
        old(b)@ == final(a)@,
        call_ensures(AppState::adjust_collected, (b, item, back), r),
        back == -delta,
        0 <= inventory::held(old(a)@.collected, item@) + delta <= u32::MAX,
    ensures
        inventory::held(final(a)@.collected, item@) == inventory::held(
            old(a)@.collected,
            item@,
        ) + delta,
        inventory::held(final(b)@.collected, item@) == inventory::held(old(a)@.collected, item@),
{
}

/// A new container is an empty bag under an id that no other has; the others
/// stay.
pub proof fn law_creating(a: &mut AppState, name: String, id: String, i: int)
    requires
        call_ensures(AppState::create_container, (a, name), id),
        old(a)@.ids_in_order(),
        old(a)@.next_container_seq < u64::MAX,
        0 <= i < old(a)@.containers.len(),
    ensures
        final(a)@.containers.len() == old(a)@.containers.len() + 1,
        final(a)@.containers.last().id == id@,
        final(a)@.containers.last().name == name@,
        final(a)@.containers.last().kind == ContainerKind::Bag,
        final(a)@.containers.last().contents == Map::<Seq<char>, u32>::empty(),
        final(a)@.containers[i] == old(a)@.containers[i],
        old(a)@.containers[i].id != id@,
        final(a)@.ids_in_order(),
{
    let c = final(a)@.containers.last();
    stock_laws::law_minted_ids_are_fresh(old(a)@, c);
}

/// The kind, the icon and the cap of a container are set alone.
pub proof fn law_setting_up_a_container(
    a: &mut AppState,
    b: &mut AppState,
    c: &mut AppState,
    id: &String,
    kind: ContainerKind,
    icon: Option<String>,
    cap: Option<Kilograms>,
    r: (),
    i: int,
)
    requires
        call_ensures(AppState::set_container_kind, (a, id, kind), r),
        call_ensures(AppState::set_container_icon, (b, id, icon), r),
        call_ensures(AppState::set_container_capacity, (c, id, cap), r),
        old(b)@ == old(a)@,
        old(c)@ == old(a)@,
        stock_laws::ids_distinct(old(a)@.containers),
        0 <= i < old(a)@.containers.len(),
        old(a)@.containers[i].id == id@,
    ensures
        final(a)@.containers[i].kind == kind,
        final(a)@.containers[i].contents == old(a)@.containers[i].contents,
        final(a)@.containers[i].icon == old(a)@.containers[i].icon,
        icon matches Some(t) ==> final(b)@.containers[i].icon == Some(t@),
        icon is None ==> final(b)@.containers[i].icon is None,
        final(b)@.containers[i].kind == old(a)@.containers[i].kind,
        data::same_weight(old(a)@.containers[i].capacity_kg, cap) ==> final(c)@ == old(a)@,
        !data::same_weight(old(a)@.containers[i].capacity_kg, cap)
            ==> final(c)@.containers[i].capacity_kg == cap && final(c)@.version != old(a)@.version,
{
    stock_laws::lemma_find_own(old(a)@.containers, i);
}

/// The storage of the gunsmith is put up once: the second time nothing changes.
pub proof fn law_seeding_once(a: &mut AppState, b: &mut AppState, first: bool, second: bool)
    requires
        call_ensures(AppState::seed_gunsmith_storage, (a,), first),
        old(b)@ == final(a)@,
        call_ensures(AppState::seed_gunsmith_storage, (b,), second),
    ensures
        !second,
        final(b)@ == final(a)@,
        first ==> final(a)@.containers.len() == old(a)@.containers.len() + 1
            && final(a)@.containers.last().kind == ContainerKind::Case,
        !first ==> final(a)@ == old(a)@,
{
}

} // verus!
