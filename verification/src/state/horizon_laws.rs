//! How much is needed up to one horizon and up to another.

use crate::data;
use crate::data::{ModuleView, ReqView, UpgradeView};
use crate::sorting;
use crate::state::inventory;
use crate::state::laws;
use crate::state::needs;
use crate::state::progress;
use crate::state::wishlist_laws;
use crate::state::{AppState, NeedHorizon, StateView};
use vstd::prelude::*;
use vstd::seq_lib::*;

verus! {

impl StateView {
    /// How many of `item` the upgrades `ids` cost together.
    pub open spec fn cost_of(self, ids: Seq<Seq<char>>, item: Seq<char>) -> nat {
        needs::quantity_of(self.recipes(ids), item)
    }

    /// How many of `item` the upgrades `ids` need by what is told of them; an
    /// item that is not told of is not needed.
    pub open spec fn told_of(self, ids: Seq<Seq<char>>, item: Seq<char>) -> u32 {
        inventory::held(needs::quantities(self.recipes(ids)), item)
    }
}

proof fn lemma_quantity_adds(a: Seq<ReqView>, b: Seq<ReqView>, item: Seq<char>)
    ensures
        needs::quantity_of(a + b, item) == needs::quantity_of(a, item) + needs::quantity_of(
            b,
            item,
        ),
    decreases b.len(),
{
    if b.len() == 0 {
        assert(a + b =~= a);
    } else {
        assert((a + b).drop_last() =~= a + b.drop_last());
        lemma_quantity_adds(a, b.drop_last(), item);
    }
}

proof fn lemma_cost_adds(s: StateView, a: Seq<Seq<char>>, b: Seq<Seq<char>>, item: Seq<char>)
    ensures
        s.cost_of(a + b, item) == s.cost_of(a, item) + s.cost_of(b, item),
    decreases b.len(),
{
    if b.len() == 0 {
        assert(a + b =~= a);
    } else {
        let c = b.drop_last();
        assert((a + b).drop_last() =~= a + c);
        lemma_cost_adds(s, a, c, item);
        lemma_quantity_adds(s.recipes(a + c), s.requirements(b.last()), item);
        lemma_quantity_adds(s.recipes(c), s.requirements(b.last()), item);
    }
}

/// Taking one upgrade out takes its cost out.
proof fn lemma_cost_without(s: StateView, ids: Seq<Seq<char>>, k: int, item: Seq<char>)
    requires
        0 <= k < ids.len(),
    ensures
        s.cost_of(ids, item) == s.cost_of(ids.remove(k), item) + s.cost_of(seq![ids[k]], item),
{
    let (left, right) = (ids.take(k), ids.skip(k + 1));
    assert(ids =~= left + seq![ids[k]] + right);
    assert(ids.remove(k) =~= left + right);
    lemma_cost_adds(s, left + seq![ids[k]], right, item);
    lemma_cost_adds(s, left, seq![ids[k]], item);
    lemma_cost_adds(s, left, right, item);
}

/// Upgrades that occur once each cost no more than any others among which all
/// of them are.
proof fn lemma_cost_of_some(
    s: StateView,
    ids: Seq<Seq<char>>,
    among: Seq<Seq<char>>,
    item: Seq<char>,
)
    requires
        ids.no_duplicates(),
        forall|i: int| 0 <= i < ids.len() ==> among.contains(#[trigger] ids[i]),
    ensures
        s.cost_of(ids, item) <= s.cost_of(among, item),
    decreases ids.len(),
{
    if ids.len() > 0 {
        let last = ids.last();
        let rest = ids.drop_last();
        assert(among.contains(ids[ids.len() - 1]));
        let k = choose|k: int| 0 <= k < among.len() && among[k] == last;
        assert forall|i: int| 0 <= i < rest.len() implies among.remove(k).contains(
            #[trigger] rest[i],
        ) by {
            assert(among.contains(ids[i]));
            let j = choose|j: int| 0 <= j < among.len() && among[j] == ids[i];
            assert(j != k);
            if j < k {
                assert(among.remove(k)[j] == rest[i]);
            } else {
                assert(among.remove(k)[j - 1] == rest[i]);
            }
        }
        lemma_cost_of_some(s, rest, among.remove(k), item);
        lemma_cost_without(s, among, k, item);
        assert(ids.remove(ids.len() - 1) =~= rest);
        lemma_cost_without(s, ids, ids.len() - 1, item);
    }
}

proof fn lemma_told_is_cost(s: StateView, ids: Seq<Seq<char>>, item: Seq<char>)
    requires
        s.cost_of(ids, item) <= u32::MAX,
    ensures
        s.told_of(ids, item) == s.cost_of(ids, item),
{
    if !needs::asks_for(s.recipes(ids), item) {
        needs::lemma_not_asked(s.recipes(ids), item);
    }
}

proof fn lemma_natural_costs_less(s: StateView, mods: Seq<ModuleView>, item: Seq<char>)
    ensures
        s.cost_of(s.natural_ids(mods), item) <= s.cost_of(s.future_ids(mods), item),
    decreases mods.len(),
{
    if mods.len() > 0 {
        let m = mods.last();
        let init = mods.drop_last();
        let near = s.natural_ids(init);
        let far = s.future_ids(init);
        let open = s.open_ids(m.upgrades);
        lemma_natural_costs_less(s, init, item);
        lemma_cost_adds(s, far, open, item);
        progress::lemma_natural_next(s, m.upgrades, m.upgrades.len() as int);
        if let Some(u) = s.natural_next(m.upgrades, m.upgrades.len() as int) {
            let one = seq![m.upgrades[u].id];
            laws::lemma_open_ids(s, m.upgrades, u);
            lemma_cost_of_some(s, one, open, item);
            lemma_cost_adds(s, near, one, item);
            assert(near.push(m.upgrades[u].id) =~= near + one);
        }
    }
}

proof fn lemma_future_holds(s: StateView, mods: Seq<ModuleView>, m: int, u: int)
    requires
        0 <= m < mods.len(),
        0 <= u < mods[m].upgrades.len(),
        !s.module_disabled(mods[m].id),
        !s.completed.contains(mods[m].upgrades[u].id),
    ensures
        s.future_ids(mods).contains(mods[m].upgrades[u].id),
    decreases mods.len(),
{
    let init = mods.drop_last();
    let id = mods[m].upgrades[u].id;
    let far = s.future_ids(init);
    let open = s.open_ids(mods.last().upgrades);
    if m < mods.len() - 1 {
        lemma_future_holds(s, init, m, u);
        let k = choose|k: int| 0 <= k < far.len() && far[k] == id;
        assert(s.future_ids(mods)[k] == id);
    } else {
        laws::lemma_open_ids(s, mods.last().upgrades, u);
        let k = choose|k: int| 0 <= k < open.len() && open[k] == id;
        assert(s.future_ids(mods)[far.len() + k] == id);
    }
}

proof fn lemma_counting(s: StateView, ids: Seq<Seq<char>>)
    requires
        ids.no_duplicates(),
    ensures
        s.counting(ids).no_duplicates(),
        forall|i: int|
            0 <= i < s.counting(ids).len() ==> s.upgrade_counts(#[trigger] s.counting(ids)[i])
                && ids.contains(s.counting(ids)[i]),
    decreases ids.len(),
{
    if ids.len() > 0 {
        let rest = ids.drop_last();
        let before = s.counting(rest);
        lemma_counting(s, rest);
        assert forall|i: int| 0 <= i < before.len() implies ids.contains(#[trigger] before[i])
            && before[i] != ids.last() by {
            assert(rest.contains(before[i]));
            let j = choose|j: int| 0 <= j < rest.len() && rest[j] == before[i];
            assert(ids[j] == before[i]);
        }
        assert(ids.contains(ids.last())) by {
            assert(ids[ids.len() - 1] == ids.last());
        }
        assert forall|i: int| 0 <= i < s.counting(ids).len() implies s.upgrade_counts(
            #[trigger] s.counting(ids)[i],
        ) && ids.contains(s.counting(ids)[i]) by {
            if i < before.len() {
                assert(s.counting(ids)[i] == before[i]);
            }
        }
    }
}

/// Looking further ahead never needs less of any item: neither the natural
/// horizon nor what is tracked needs more than the whole future. The order in
/// which upgrades were tracked names each of them once.
pub proof fn law_future_needs_most(s: StateView, wishlist: Seq<Seq<char>>, item: Seq<char>)
    requires
        wishlist.no_duplicates(),
        s.cost_of(s.future_ids(s.data.modules), item) <= u32::MAX,
    ensures
        s.told_of(s.natural_ids(s.data.modules), item) <= s.told_of(
            s.future_ids(s.data.modules),
            item,
        ),
        s.told_of(s.counting(wishlist), item) <= s.told_of(s.future_ids(s.data.modules), item),
{
    let mods = s.data.modules;
    let far = s.future_ids(mods);
    let ids = s.counting(wishlist);
    lemma_natural_costs_less(s, mods, item);
    lemma_counting(s, wishlist);
    assert forall|i: int| 0 <= i < ids.len() implies far.contains(#[trigger] ids[i]) by {
        assert(s.upgrade_counts(ids[i]));
        data::lemma_upgrade_from(mods, ids[i], 0);
        let p = s.data.upgrade_pos(ids[i]).unwrap();
        lemma_future_holds(s, mods, p.0, p.1);
    }
    lemma_cost_of_some(s, ids, far, item);
    lemma_told_is_cost(s, far, item);
    lemma_told_is_cost(s, ids, item);
    lemma_told_is_cost(s, s.natural_ids(mods), item);
}

proof fn lemma_none_open(s: StateView, ups: Seq<UpgradeView>)
    requires
        forall|u: int| 0 <= u < ups.len() ==> s.completed.contains((#[trigger] ups[u]).id),
    ensures
        s.open_ids(ups).len() == 0,
    decreases ups.len(),
{
    if ups.len() > 0 {
        assert(s.completed.contains(ups[ups.len() - 1].id));
        assert forall|u: int| 0 <= u < ups.drop_last().len() implies s.completed.contains(
            (#[trigger] ups.drop_last()[u]).id,
        ) by {
            assert(s.completed.contains(ups[u].id));
        }
        lemma_none_open(s, ups.drop_last());
    }
}

proof fn lemma_nothing_ahead(s: StateView, mods: Seq<ModuleView>)
    requires
        forall|m: int|
            0 <= m < mods.len() ==> s.module_disabled((#[trigger] mods[m]).id) || forall|u: int|
                0 <= u < mods[m].upgrades.len() ==> s.completed.contains(
                    (#[trigger] mods[m].upgrades[u]).id,
                ),
    ensures
        s.natural_ids(mods).len() == 0,
        s.future_ids(mods).len() == 0,
    decreases mods.len(),
{
    if mods.len() > 0 {
        let init = mods.drop_last();
        let last = mods[mods.len() - 1];
        assert forall|m: int| 0 <= m < init.len() implies s.module_disabled(
            (#[trigger] init[m]).id,
        ) || forall|u: int|
            0 <= u < init[m].upgrades.len() ==> s.completed.contains(
                (#[trigger] init[m].upgrades[u]).id,
            ) by {
            assert(init[m] == mods[m]);
        }
        lemma_nothing_ahead(s, init);
        if !s.module_disabled(last.id) {
            lemma_none_open(s, last.upgrades);
            progress::lemma_natural_next(s, last.upgrades, last.upgrades.len() as int);
        }
    }
}

/// Where every module is disabled or built to its top, nothing is needed up to
/// any horizon.
pub proof fn law_nothing_ahead_needs_nothing(s: StateView, wishlist: Seq<Seq<char>>)
    requires
        wishlist.no_duplicates(),
        forall|m: int|
            0 <= m < s.data.modules.len() ==> s.module_disabled((#[trigger] s.data.modules[m]).id)
                || forall|u: int|
                0 <= u < s.data.modules[m].upgrades.len() ==> s.completed.contains(
                    (#[trigger] s.data.modules[m].upgrades[u]).id,
                ),
    ensures
        needs::quantities(s.recipes(s.natural_ids(s.data.modules))) == Map::<Seq<char>, u32>::empty(),
        needs::quantities(s.recipes(s.future_ids(s.data.modules))) == Map::<Seq<char>, u32>::empty(),
        needs::quantities(s.recipes(s.counting(wishlist))) == Map::<Seq<char>, u32>::empty(),
{
    let mods = s.data.modules;
    lemma_nothing_ahead(s, mods);
    lemma_counting(s, wishlist);
    let ids = s.counting(wishlist);
    if ids.len() > 0 {
        assert(s.upgrade_counts(ids[0]));
        data::lemma_upgrade_from(mods, ids[0], 0);
        let p = s.data.upgrade_pos(ids[0]).unwrap();
        assert(mods[p.0].upgrades[p.1].id == ids[0]);
        assert(s.module_disabled(mods[p.0].id));
    }
    assert(needs::quantities(s.recipes(s.natural_ids(mods))) =~= Map::<Seq<char>, u32>::empty());
    assert(needs::quantities(s.recipes(s.future_ids(mods))) =~= Map::<Seq<char>, u32>::empty());
    assert(needs::quantities(s.recipes(ids)) =~= Map::<Seq<char>, u32>::empty());
}

proof fn lemma_one_for_each_module(s: StateView, mods: Seq<ModuleView>)
    ensures
        s.natural_ids(mods).len() <= mods.len(),
    decreases mods.len(),
{
    if mods.len() > 0 {
        lemma_one_for_each_module(s, mods.drop_last());
    }
}

/// The nearest horizon holds only what is tracked, the next one upgrade of a
/// module at most, and the last one everything that the next one does.
pub proof fn law_each_horizon(a: AppState, id: Seq<char>)
    ensures
        a.horizon_ids(NeedHorizon::TrackedOnly).contains(id)
            ==> a.tracked_upgrades.order().contains(id) && !a@.completed.contains(id),
        a.horizon_ids(NeedHorizon::AllNatural).len() <= a@.data.modules.len(),
        a.horizon_ids(NeedHorizon::AllNatural).contains(id) ==> a.horizon_ids(
            NeedHorizon::AllFuture,
        ).contains(id),
{
    let ids = a.tracked_upgrades.order();
    let p = |id: Seq<char>|
        !a@.completed.contains(id) && a@.data.knows_upgrade(id) && !a@.module_disabled(
            a@.data.module_of(id).id,
        );
    wishlist_laws::law_tracked_horizon(a@, ids);
    if a.horizon_ids(NeedHorizon::TrackedOnly).contains(id) {
        let k = choose|k: int| 0 <= k < ids.filter(p).len() && ids.filter(p)[k] == id;
        let i = sorting::lemma_kept_from(ids, p, k);
        assert(ids[i] == id);
    }
    lemma_one_for_each_module(a@, a@.data.modules);
    laws::law_future_holds_the_natural_horizon(a@, a@.data.modules);
}

} // verus!
