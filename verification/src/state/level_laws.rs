//! Tracking, pinning and completing upgrades, and the levels of a module.

use crate::data;
use crate::data::{DataView, UpgradeView};
use crate::state::upgrades;
use crate::state::StateView;
use vstd::prelude::*;
use vstd::seq_lib::*;

verus! {

/// Tracking an upgrade puts it on the wishlist and takes it off the completed
/// ones; to stop tracking it takes it off the wishlist alone. Nothing else
/// changes but the version.
pub proof fn law_tracking(s: StateView, id: Seq<char>, on: bool, other: Seq<char>)
    requires
        other != id,
    ensures
        s.with_tracked(id, on).tracking.contains(id) == on,
        s.with_tracked(id, on).completed.contains(id) == (s.completed.contains(id) && !on),
        s.with_tracked(id, on).tracking.contains(other) == s.tracking.contains(other),
        s.with_tracked(id, on).completed.contains(other) == s.completed.contains(other),
        s.with_tracked(id, on).pinned == s.pinned,
        s.with_tracked(id, on).collected == s.collected,
        s.with_tracked(id, on).overrides == s.overrides,
        s.with_tracked(id, on).version != s.version,
{
}

/// Pinning an upgrade pins it alone, and a pin that changes nothing leaves the
/// version too.
pub proof fn law_pinning(s: StateView, id: Seq<char>, on: bool, other: Seq<char>)
    requires
        other != id,
    ensures
        s.with_pinned(id, on).pinned.contains(id) == on,
        s.with_pinned(id, on).pinned.contains(other) == s.pinned.contains(other),
        s.with_pinned(id, on).tracking == s.tracking,
        s.with_pinned(id, on).completed == s.completed,
        s.pinned.contains(id) == on ==> s.with_pinned(id, on) == s,
        s.pinned.contains(id) != on ==> s.with_pinned(id, on).version != s.version,
{
}

/// Completing an upgrade completes it alone, and to take that back changes the
/// wishlist not at all.
pub proof fn law_completing(s: StateView, id: Seq<char>, on: bool, other: Seq<char>)
    requires
        other != id,
    ensures
        s.with_completed(id, on).completed.contains(id) == on,
        s.with_completed(id, on).completed.contains(other) == s.completed.contains(other),
        !on ==> s.with_completed(id, on).tracking == s.tracking,
        on ==> !s.with_completed(id, on).tracking.contains(id),
        s.tracking.contains(other) ==> s.with_completed(id, on).tracking.contains(other),
        s.with_completed(id, on).pinned == s.pinned,
        s.with_completed(id, on).collected == s.collected,
        s.with_completed(id, on).containers == s.containers,
{
}

proof fn lemma_siblings(d: DataView, id: Seq<char>) -> (p: (int, int, int))
    requires
        d.knows_upgrade(id),
    ensures
        0 <= p.0 < d.modules.len(),
        0 <= p.1 < d.modules[p.0].upgrades.len(),
        d.modules[p.0].upgrades[p.1].id == id,
        d.upgrade(id) == d.modules[p.0].upgrades[p.1],
        d.module_of(id) == d.modules[p.0],
        0 <= p.2 < d.modules.len(),
        d.modules[p.2].id == d.modules[p.0].id,
        d.siblings(id) == d.modules[p.2].upgrades,
{
    data::lemma_upgrade_from(d.modules, id, 0);
    let p = d.upgrade_pos(id).unwrap();
    data::lemma_module_from(d.modules, d.modules[p.0].id, 0);
    let m = d.module_pos(d.modules[p.0].id).unwrap();
    (p.0, p.1, m)
}

/// The next level of an upgrade is an upgrade of the same module, one level
/// higher. There is none just where the module has none of that level.
pub proof fn law_next_level(d: DataView, id: Seq<char>)
    requires
        d.knows_upgrade(id),
    ensures
        match d.next_level(id) {
            Some(next) => exists|m: int, u: int|
                #![trigger d.modules[m].upgrades[u]]
                0 <= m < d.modules.len() && 0 <= u < d.modules[m].upgrades.len()
                    && d.modules[m].id == d.module_of(id).id && d.modules[m].upgrades[u].id == next
                    && d.modules[m].upgrades[u].level == d.upgrade(id).level + 1,
            None => exists|m: int|
                0 <= m < d.modules.len() && (#[trigger] d.modules[m]).id == d.module_of(id).id
                    && forall|u: int|
                    0 <= u < d.modules[m].upgrades.len() ==> (
                    #[trigger] d.modules[m].upgrades[u]).level != d.upgrade(id).level + 1,
        },
{
    let p = lemma_siblings(d, id);
    let ups = d.siblings(id);
    let level = d.upgrade(id).level + 1;
    upgrades::lemma_level_from(ups, level, 0);
    assert(d.modules[p.2].id == d.module_of(id).id);
    if upgrades::level_from(ups, level, 0) is Some {
        let u = upgrades::level_from(ups, level, 0).unwrap();
        assert(d.modules[p.2].upgrades[u].id == d.next_level(id).unwrap());
    }
}

/// What the data does not know has neither a next level nor lower ones.
pub proof fn law_unknown_has_no_levels(d: DataView, id: Seq<char>)
    requires
        forall|m: int, u: int|
            0 <= m < d.modules.len() && 0 <= u < d.modules[m].upgrades.len() ==> (
            #[trigger] d.modules[m].upgrades[u]).id != id,
    ensures
        d.next_level(id) is None,
        d.lower_levels(id).len() == 0,
{
    data::lemma_upgrade_from(d.modules, id, 0);
    if d.knows_upgrade(id) {
        let p = lemma_siblings(d, id);
        assert(d.modules[p.0].upgrades[p.1].id != id);
    }
}

/// The lower levels of an upgrade are those upgrades of its module that have a
/// lower level, in their order.
pub proof fn law_lower_levels(d: DataView, id: Seq<char>)
    requires
        d.knows_upgrade(id),
    ensures
        exists|m: int|
            0 <= m < d.modules.len() && (#[trigger] d.modules[m]).id == d.module_of(id).id
                && d.lower_levels(id) == d.modules[m].upgrades.filter(
                |u: UpgradeView| u.level < d.upgrade(id).level,
            ).map_values(|u: UpgradeView| u.id),
{
    let p = lemma_siblings(d, id);
    lemma_ids_below(d.siblings(id), d.upgrade(id).level);
    assert(d.modules[p.2].id == d.module_of(id).id);
}

proof fn lemma_ids_below(ups: Seq<UpgradeView>, level: u32)
    ensures
        upgrades::ids_below(ups, level as int) == ups.filter(
            |u: UpgradeView| u.level < level,
        ).map_values(|u: UpgradeView| u.id),
    decreases ups.len(),
{
    reveal(Seq::filter);
    let f = |u: UpgradeView| u.level < level;
    let g = |u: UpgradeView| u.id;
    if ups.len() > 0 {
        lemma_ids_below(ups.drop_last(), level);
    }
    assert(ups.filter(f).map_values(g) =~= upgrades::ids_below(ups, level as int));
}

} // verus!
