//! What holds of the state whatever is done with it.

use crate::data;
use crate::ids;
use crate::state::progress;
use crate::data::{DataView, ModuleView, OverrideView, UpgradeView};
use crate::state::{ResearchNodeState, ResearchStatus, StateView};
use vstd::prelude::*;

verus! {

impl StateView {
    /// Whether nothing is both on the wishlist and completed.
    pub open spec fn lists_disjoint(self) -> bool {
        forall|id: Seq<char>| !(#[trigger] self.tracking.contains(id) && self.completed.contains(id))
    }
}

/// An upgrade put on the wishlist is on it and not completed; a completed one
/// is completed and not on it.
pub proof fn law_track_and_done_exclude_each_other(s: StateView, id: Seq<char>)
    ensures
        s.with_tracked(id, true).tracking.contains(id),
        !s.with_tracked(id, true).completed.contains(id),
        s.with_completed(id, true).completed.contains(id),
        !s.with_completed(id, true).tracking.contains(id),
{
}

/// No operation on upgrades puts an upgrade both on the wishlist and among
/// the completed ones.
pub proof fn law_lists_stay_disjoint(s: StateView, id: Seq<char>, on: bool)
    requires
        s.lists_disjoint(),
    ensures
        s.with_tracked(id, on).lists_disjoint(),
        s.with_completed(id, on).lists_disjoint(),
        s.seeing_panel(id, on).0.lists_disjoint(),
{
    let ids = s.data.lower_levels(id);
    lemma_completing_all_disjoint(s, ids);
}

proof fn lemma_completing_all_disjoint(s: StateView, ids: Seq<Seq<char>>)
    requires
        s.lists_disjoint(),
    ensures
        s.completing_all(ids).0.lists_disjoint(),
    decreases ids.len(),
{
    if ids.len() > 0 {
        lemma_completing_all_disjoint(s, ids.drop_last());
    }
}

/// Completing a level puts the next level of its module on the wishlist,
/// unless that is completed already, and puts nothing else there.
pub proof fn law_completing_pulls_the_next_level(s: StateView, id: Seq<char>)
    ensures
        match s.data.next_level(id) {
            Some(next) => next != id && !s.completed.contains(next) ==> s.with_completed(
                id,
                true,
            ).tracking.contains(next),
            None => true,
        },
        forall|other: Seq<char>|
            s.with_completed(id, true).tracking.contains(other) && !s.tracking.contains(other)
                ==> Some(other) == s.data.next_level(id),
{
}

proof fn lemma_completing_all(s: StateView, ids: Seq<Seq<char>>)
    ensures
        forall|id: Seq<char>| #[trigger]
            s.completing_all(ids).0.completed.contains(id) <==> s.completed.contains(id)
                || ids.contains(id),
        s.completing_all(ids).0.data == s.data,
        forall|i: int|
            0 <= i < s.completing_all(ids).1.len() ==> !s.completed.contains(
                #[trigger] s.completing_all(ids).1[i],
            ) && ids.contains(s.completing_all(ids).1[i]),
    decreases ids.len(),
{
    if ids.len() > 0 {
        let init = ids.drop_last();
        lemma_completing_all(s, init);
        let (s1, done1) = s.completing_all(init);
        let (s2, done2) = s.completing_all(ids);
        assert(ids =~= init.push(ids.last()));
        assert forall|id: Seq<char>| #[trigger]
            s2.completed.contains(id) <==> s.completed.contains(id) || ids.contains(id) by {
            ids::lemma_contains_push(init, ids.last(), id);
            assert(s1.completed.contains(id) <==> s.completed.contains(id) || init.contains(id));
        }
        assert forall|i: int| 0 <= i < done2.len() implies !s.completed.contains(
            #[trigger] done2[i],
        ) && ids.contains(done2[i]) by {
            ids::lemma_contains_push(init, ids.last(), done2[i]);
            if i < done1.len() {
                assert(done2[i] == done1[i]);
            } else {
                assert(!s1.completed.contains(done2[i]));
            }
        }
    }
}

proof fn lemma_completing_nothing(s: StateView, ids: Seq<Seq<char>>)
    requires
        forall|id: Seq<char>| ids.contains(id) ==> s.completed.contains(id),
    ensures
        s.completing_all(ids) == (s, Seq::<Seq<char>>::empty()),
    decreases ids.len(),
{
    if ids.len() > 0 {
        let init = ids.drop_last();
        assert(ids =~= init.push(ids.last()));
        ids::lemma_contains_push_any(init, ids.last());
        lemma_completing_nothing(s, init);
    }
}

/// Seeing the panel of a level proves every lower level of its module done:
/// all of them are completed after it, and nothing else is.
pub proof fn law_seeing_panel_completes_lower_levels(s: StateView, id: Seq<char>, auto_track: bool)
    requires
        s.data.knows_upgrade(id),
    ensures
        forall|other: Seq<char>|
            s.data.lower_levels(id).contains(other) && other != id ==> s.seeing_panel(
                id,
                auto_track,
            ).0.completed.contains(other),
        forall|other: Seq<char>|
            s.seeing_panel(id, auto_track).0.completed.contains(other) && !s.completed.contains(
                other,
            ) ==> s.data.lower_levels(id).contains(other),
{
    lemma_completing_all(s, s.data.lower_levels(id));
}

/// Seeing the same panel again changes nothing and reports nothing.
pub proof fn law_seeing_panel_twice(s: StateView, id: Seq<char>, auto_track: bool)
    ensures
        ({
            let s1 = s.seeing_panel(id, auto_track).0;
            let (s2, again) = s1.seeing_panel(id, auto_track);
            &&& s2 == s1
            &&& again.completed_priors.len() == 0
            &&& !again.tracked_self
        }),
{
    if s.data.knows_upgrade(id) {
        let ids = s.data.lower_levels(id);
        lemma_completing_all(s, ids);
        let s1 = s.seeing_panel(id, auto_track).0;
        assert(s1.data == s.data);
        assert forall|other: Seq<char>| ids.contains(other) implies s1.completed.contains(other) by {
            assert(s.completing_all(ids).0.completed.contains(other));
        }
        lemma_completing_nothing(s1, ids);
    }
}

/// With automatic tracking off, seeing a panel never puts its upgrade on the
/// wishlist, and never takes off what was there, unless it is completed.
pub proof fn law_seeing_panel_without_tracking(s: StateView, id: Seq<char>)
    requires
        !s.data.lower_levels(id).contains(id),
    ensures
        s.seeing_panel(id, false).0.tracking.contains(id) == s.tracking.contains(id),
        !s.seeing_panel(id, false).1.tracked_self,
{
    if s.data.knows_upgrade(id) {
        if s.tracking.contains(id) {
            lemma_completing_all_keeps(s, s.data.lower_levels(id), id);
        }
    }
}

proof fn lemma_completing_all_keeps(s: StateView, ids: Seq<Seq<char>>, id: Seq<char>)
    requires
        !ids.contains(id),
        s.tracking.contains(id),
    ensures
        s.completing_all(ids).0.tracking.contains(id),
    decreases ids.len(),
{
    if ids.len() > 0 {
        let init = ids.drop_last();
        assert(ids =~= init.push(ids.last()));
        ids::lemma_contains_push_any(init, ids.last());
        lemma_completing_all_keeps(s, init, id);
    }
}

/// A correction that says what the bundled recipe says leaves no correction;
/// any other is what the recipe then says.
pub proof fn law_correction_is_what_counts(s: StateView, id: Seq<char>, o: OverrideView)
    ensures
        s.with_override(id, o).slots(id) == o.slots,
        s.data.knows_upgrade(id) && o.slots == data::base_slots_of(s.data.upgrade(id).requirements)
            ==> !s.with_override(id, o).overrides.contains_key(id),
        forall|other: Seq<char>| other != id ==> s.with_override(id, o).slots(other) == s.slots(other),
{
}

/// A correction survives a restart under the same bundled recipe, and is
/// discarded once the bundled recipe has another stamp.
pub proof fn law_correction_outlives_its_base_only(
    s: StateView,
    id: Seq<char>,
    o: OverrideView,
    later: DataView,
)
    requires
        s.data.knows_upgrade(id),
        o.slots != data::base_slots_of(s.data.upgrade(id).requirements),
        later.knows_upgrade(id),
    ensures
        ({
            let stored = s.with_override(id, o).overrides;
            let kept = later.kept_overrides(stored);
            let same = data::recipe_stamp(later.upgrade(id).requirements) == data::recipe_stamp(
                s.data.upgrade(id).requirements,
            );
            &&& kept.contains_key(id) <==> same
            &&& same ==> kept[id] == stored[id]
        }),
{
}

/// A ready upgrade can be paid for.
pub proof fn law_ready_can_be_consumed(s: StateView, id: Seq<char>)
    requires
        s.ready(id),
    ensures
        s.can_consume(id),
        s.items_missing(s.requirements(id)) == 0,
        s.units_missing(s.requirements(id)) == 0,
{
    lemma_nothing_missing(s, s.requirements(id));
}

proof fn lemma_nothing_missing(s: StateView, reqs: Seq<crate::data::ReqView>)
    requires
        s.stocked(reqs),
    ensures
        s.items_missing(reqs) == 0,
        s.units_missing(reqs) == 0,
    decreases reqs.len(),
{
    if reqs.len() > 0 {
        assert(s.owned_total(reqs[reqs.len() - 1].item) >= reqs[reqs.len() - 1].quantity);
        assert forall|i: int| 0 <= i < reqs.drop_last().len() implies s.owned_total(
            (#[trigger] reqs.drop_last()[i]).item,
        ) >= reqs.drop_last()[i].quantity by {
            assert(s.owned_total(reqs[i].item) >= reqs[i].quantity);
        }
        lemma_nothing_missing(s, reqs.drop_last());
    }
}

/// Writing the state to disk and merging it into a fresh state of the same
/// data gives back everything that the data knows, and all counts.
pub proof fn law_persistence_round_trip(s: StateView, fresh: StateView)
    requires
        fresh.data == s.data,
    ensures
        ({
            let back = fresh.merged(s.persisted());
            &&& back.collected == s.collected
            &&& back.containers == s.containers
            &&& back.next_container_seq == s.next_container_seq
            &&& back.default_shelf_seeded == s.default_shelf_seeded
            &&& back.gunsmith_storage_seeded == s.gunsmith_storage_seeded
            &&& forall|id: Seq<char>|
                s.data.knows_upgrade(id) ==> {
                    &&& #[trigger] back.tracking.contains(id) == s.tracking.contains(id)
                    &&& back.completed.contains(id) == s.completed.contains(id)
                    &&& back.pinned.contains(id) == s.pinned.contains(id)
                }
            &&& forall|id: Seq<char>|
                !s.data.knows_upgrade(id) ==> !(#[trigger] back.tracking.contains(id))
            &&& forall|id: Seq<char>|
                s.data.node(id) is Some ==> {
                    &&& #[trigger] back.tracked_research.contains(id)
                        == s.tracked_research.contains(id)
                    &&& back.pinned_research.contains(id) == s.pinned_research.contains(id)
                }
            &&& forall|id: Seq<char>| #[trigger]
                s.parents_known(id) ==> back.status(id) == s.status(id)
        }),
{
    let back = fresh.merged(s.persisted());
    assert forall|id: Seq<char>| #[trigger] s.parents_known(id) implies back.status(id)
        == s.status(id) by {
        let n = s.data.node(id).unwrap();
        assert forall|i: int| 0 <= i < n.parents.len() implies back.developed(
            #[trigger] n.parents[i],
        ) == s.developed(n.parents[i]) by {}
    }
}

impl StateView {
    /// Whether the data knows the node `id` and every parent of it.
    pub open spec fn parents_known(self, id: Seq<char>) -> bool {
        self.data.node(id) matches Some(n) && forall|i: int|
            0 <= i < n.parents.len() ==> self.data.node(#[trigger] n.parents[i]) is Some
    }
}

/// Developing a node takes that node off the wishlist, and puts or takes
/// nothing else.
pub proof fn law_developing_untracks_only_itself(s: StateView, id: Seq<char>)
    ensures
        ({
            let s1 = s.with_research_state(id, Some(ResearchNodeState::Developed));
            &&& s1.status(id) == ResearchStatus::Developed
            &&& forall|other: Seq<char>|
                s1.tracked_research.contains(other) <==> other != id && s.tracked_research.contains(
                    other,
                )
            &&& s1.pinned_research == s.pinned_research
        }),
{
}

/// Focusing tracks and pins the target; a focus on a developed node changes
/// nothing; nothing developed is ever put on the wishlist by it.
pub proof fn law_focus(s: StateView, target: Seq<char>)
    ensures
        s.on_route(target) ==> s.focused(target).tracked_research.contains(target)
            && s.focused(target).pinned_research.contains(target),
        s.developed(target) ==> s.focused(target) == s,
        forall|id: Seq<char>|
            s.developed(id) && !s.tracked_research.contains(id) ==> !s.focused(
                target,
            ).tracked_research.contains(id),
{
    if s.on_route(target) {
        assert(s.is_chain(seq![target], target, target));
        assert(s.stands_before(target, target));
    }
    assert forall|id: Seq<char>|
        s.developed(id) && !s.tracked_research.contains(id) implies !s.focused(
        target,
    ).tracked_research.contains(id) by {
        if s.stands_before(id, target) {
            let chain = choose|chain: Seq<Seq<char>>| s.is_chain(chain, id, target);
            assert(s.on_route(chain[chain.len() - 1]));
        }
    }
}

/// A focus goes on to the parents of what it reaches, unless they are
/// developed or unknown.
pub proof fn law_focus_reaches_prerequisites(
    s: StateView,
    id: Seq<char>,
    parent: Seq<char>,
    target: Seq<char>,
)
    requires
        s.stands_before(id, target),
        s.is_parent(parent, id),
        s.on_route(parent),
    ensures
        s.focused(target).tracked_research.contains(parent),
        s.focused(target).pinned_research.contains(parent),
{
    let chain = choose|chain: Seq<Seq<char>>| s.is_chain(chain, id, target);
    let longer = chain.push(parent);
    assert(s.on_route(chain[0]));
    assert forall|i: int| 0 <= i < longer.len() implies s.on_route(#[trigger] longer[i]) by {
        if i < chain.len() {
            assert(s.on_route(chain[i]));
        }
    }
    assert forall|i: int| 0 <= i < longer.len() - 1 implies s.is_parent(
        longer[i + 1],
        #[trigger] longer[i],
    ) by {
        if i < chain.len() - 1 {
            assert(s.is_parent(chain[i + 1], chain[i]));
        }
    }
    assert(s.is_chain(longer, parent, target));
    assert(s.stands_before(parent, target));
}

/// What is tracked only in disabled modules, or completed, asks for nothing.
pub proof fn law_shelved_upgrades_need_nothing(s: StateView, ids: Seq<Seq<char>>)
    requires
        forall|i: int|
            0 <= i < ids.len() ==> s.completed.contains(#[trigger] ids[i]) || s.module_disabled(
                s.data.module_of(ids[i]).id,
            ),
    ensures
        s.upgrade_needs(ids).len() == 0,
        s.counting(ids).len() == 0,
    decreases ids.len(),
{
    if ids.len() > 0 {
        assert(!s.upgrade_counts(ids[ids.len() - 1]));
        assert forall|i: int| 0 <= i < ids.drop_last().len() implies s.completed.contains(
            #[trigger] ids.drop_last()[i],
        ) || s.module_disabled(s.data.module_of(ids.drop_last()[i]).id) by {
            assert(s.completed.contains(ids[i]) || s.module_disabled(
                s.data.module_of(ids[i]).id,
            ));
        }
        law_shelved_upgrades_need_nothing(s, ids.drop_last());
    }
}

/// Disabling a parent area disables every module in it, and enabling it again
/// leaves each module with its own setting.
pub proof fn law_disabling_a_parent_cascades(s: StateView, parent: Seq<char>, child: Seq<char>)
    requires
        s.module_parents.contains_key(child),
        s.module_parents[child] == parent,
    ensures
        ({
            let off = StateView { disabled_modules: s.disabled_modules.insert(parent), ..s };
            let on = StateView { disabled_modules: s.disabled_modules.remove(parent), ..s };
            &&& off.module_disabled(child)
            &&& child != parent ==> on.module_disabled(child) == s.disabled_modules.contains(child)
        }),
{
}

/// The list of what to build next and the natural horizon never disagree:
/// both name the same upgrades, module by module.
pub proof fn law_rows_are_the_natural_horizon(s: StateView, mods: Seq<ModuleView>)
    ensures
        s.rows(mods).len() == s.natural_ids(mods).len(),
        forall|i: int|
            0 <= i < s.rows(mods).len() ==> (#[trigger] s.rows(mods)[i]).upgrade_id
                == s.natural_ids(mods)[i],
    decreases mods.len(),
{
    if mods.len() > 0 {
        law_rows_are_the_natural_horizon(s, mods.drop_last());
    }
}

/// Looking further ahead never needs less: what the natural horizon names,
/// the whole future names too.
pub proof fn law_future_holds_the_natural_horizon(s: StateView, mods: Seq<ModuleView>)
    ensures
        forall|id: Seq<char>| #[trigger]
            s.natural_ids(mods).contains(id) ==> s.future_ids(mods).contains(id),
    decreases mods.len(),
{
    if mods.len() > 0 {
        let init = mods.drop_last();
        let m = mods.last();
        law_future_holds_the_natural_horizon(s, init);
        progress::lemma_natural_next(s, m.upgrades, m.upgrades.len() as int);
        assert forall|id: Seq<char>| #[trigger] s.natural_ids(mods).contains(id) implies s.future_ids(
            mods,
        ).contains(id) by {
            let before = s.natural_ids(init);
            if before.contains(id) {
                let k = choose|k: int| 0 <= k < s.future_ids(init).len() && s.future_ids(init)[k] == id;
                assert(s.future_ids(mods)[k] == id);
            } else {
                let u = s.natural_next(m.upgrades, m.upgrades.len() as int).unwrap();
                ids::lemma_contains_push(before, m.upgrades[u].id, id);
                lemma_open_ids(s, m.upgrades, u);
                let open = s.open_ids(m.upgrades);
                let k = choose|k: int| 0 <= k < open.len() && open[k] == id;
                assert(s.future_ids(mods)[s.future_ids(init).len() + k] == id);
            }
        }
    }
}

pub(crate) proof fn lemma_open_ids(s: StateView, ups: Seq<UpgradeView>, u: int)
    requires
        0 <= u < ups.len(),
        !s.completed.contains(ups[u].id),
    ensures
        s.open_ids(ups).contains(ups[u].id),
    decreases ups.len(),
{
    let init = ups.drop_last();
    let before = s.open_ids(init);
    ids::lemma_contains_push(before, ups.last().id, ups[u].id);
    if u < ups.len() - 1 {
        lemma_open_ids(s, init, u);
    }
}

/// Resetting forgets all progress and every count, and container ids go on
/// counting from where they were.
pub proof fn law_reset(s: StateView, item: Seq<char>)
    ensures
        s.reset().owned(item) == 0,
        s.reset().lists_disjoint(),
        s.reset().pinned == Set::<Seq<char>>::empty(),
        s.reset().pinned_research == Set::<Seq<char>>::empty(),
        s.reset().next_container_seq == s.next_container_seq,
        s.reset().overrides == s.overrides,
{
}

} // verus!
