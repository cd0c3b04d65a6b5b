//! What the item wishlist says of what is tracked.

use crate::data::{ModuleView, ReqView, UpgradeView};
use crate::ids;
use crate::sorting;
use crate::state::needs;
use crate::state::needs::{ActiveItem, ActiveView, NeedView, TotalView};
use crate::state::upgrades;
use crate::state::{ResearchNodeState, StateView};
use crate::text;
use vstd::prelude::*;
use vstd::seq_lib::*;

verus! {

/// What two lists ask for together is what each asks for; one entry asks for
/// its quantity of its item, and for nothing else.
pub proof fn law_demand_adds_up(a: Seq<NeedView>, b: Seq<NeedView>, n: NeedView, item: Seq<char>)
    ensures
        needs::demand(a + b, item) == needs::demand(a, item) + needs::demand(b, item),
        needs::pinned_demand(a + b, item) == needs::pinned_demand(a, item) + needs::pinned_demand(
            b,
            item,
        ),
        needs::labels_of(a + b, item) == needs::labels_of(a, item) + needs::labels_of(b, item),
        n.req.item == item ==> needs::demand(seq![n], item) == n.req.quantity && needs::labels_of(
            seq![n],
            item,
        ) == seq![n.label],
        n.req.item != item ==> needs::demand(seq![n], item) == 0 && needs::labels_of(
            seq![n],
            item,
        ).len() == 0,
        n.req.item == item && n.pinned ==> needs::pinned_demand(seq![n], item) == n.req.quantity,
        n.req.item != item || !n.pinned ==> needs::pinned_demand(seq![n], item) == 0,
    decreases b.len(),
{
    let one = seq![n];
    assert(one.drop_last() =~= Seq::<NeedView>::empty());
    assert(needs::demand(one.drop_last(), item) == 0);
    assert(needs::pinned_demand(one.drop_last(), item) == 0);
    assert(needs::labels_of(one.drop_last(), item) =~= Seq::<Seq<char>>::empty());
    assert(one.last() == n);
    if n.req.item == item {
        assert(needs::labels_of(one, item) =~= seq![n.label]);
    }
    if b.len() == 0 {
        assert(a + b =~= a);
        assert(needs::labels_of(a, item) + needs::labels_of(b, item) =~= needs::labels_of(a, item));
    } else {
        law_demand_adds_up(a, b.drop_last(), n, item);
        assert((a + b).drop_last() =~= a + b.drop_last());
        assert(needs::labels_of(a + b, item) =~= needs::labels_of(a, item) + needs::labels_of(
            b,
            item,
        ));
    }
}

/// What two lists of requirements ask for together is what each asks for; one
/// requirement asks for its quantity of its item, and for nothing else.
pub proof fn law_quantities_add_up(a: Seq<ReqView>, b: Seq<ReqView>, r: ReqView, item: Seq<char>)
    ensures
        needs::quantity_of(a + b, item) == needs::quantity_of(a, item) + needs::quantity_of(b, item),
        r.item == item ==> needs::quantity_of(seq![r], item) == r.quantity,
        r.item != item ==> needs::quantity_of(seq![r], item) == 0,
        needs::quantities(a).contains_key(item) <==> exists|i: int|
            0 <= i < a.len() && (#[trigger] a[i]).item == item,
        needs::quantity_of(a, item) <= u32::MAX && needs::quantities(a).contains_key(item)
            ==> needs::quantities(a)[item] == needs::quantity_of(a, item),
    decreases b.len(),
{
    let one = seq![r];
    assert(one.drop_last() =~= Seq::<ReqView>::empty());
    assert(needs::quantity_of(one.drop_last(), item) == 0);
    assert(one.last() == r);
    if b.len() == 0 {
        assert(a + b =~= a);
    } else {
        law_quantities_add_up(a, b.drop_last(), r, item);
        assert((a + b).drop_last() =~= a + b.drop_last());
    }
}

/// What upgrades need one after the other is what each needs; one that is
/// completed, that the data does not know, or whose module is disabled needs
/// nothing, and any other what its recipe says, entry by entry, for its module
/// and level.
pub proof fn law_tracked_upgrades_need_their_recipes(
    s: StateView,
    a: Seq<Seq<char>>,
    b: Seq<Seq<char>>,
    id: Seq<char>,
    i: int,
)
    ensures
        s.upgrade_needs(a + b) == s.upgrade_needs(a) + s.upgrade_needs(b),
        s.completed.contains(id) || !s.data.knows_upgrade(id) || s.disabled_modules.contains(
            s.data.module_of(id).id,
        ) ==> s.upgrade_needs(seq![id]).len() == 0,
        !s.completed.contains(id) && s.data.knows_upgrade(id) && !s.module_disabled(
            s.data.module_of(id).id,
        ) ==> s.upgrade_needs(seq![id]).len() == s.requirements(id).len() && (0 <= i
            < s.requirements(id).len() ==> {
            let n = s.upgrade_needs(seq![id])[i];
            let m = s.data.module_of(id);
            let u = s.data.upgrade(id);
            &&& n.req == s.requirements(id)[i]
            &&& n.pinned <==> s.pinned.contains(id)
            &&& u.name == m.name ==> n.label == m.name + seq![' ', 'L'] + text::decimal(
                u.level as nat,
            )
            &&& u.name != m.name ==> n.label == m.name + seq![' ', 'L'] + text::decimal(
                u.level as nat,
            ) + seq![' ', '('] + u.name + seq![')']
        }),
    decreases b.len(),
{
    let one = seq![id];
    assert(one.drop_last() =~= Seq::<Seq<char>>::empty());
    assert(s.upgrade_needs(one.drop_last()) =~= Seq::<NeedView>::empty());
    assert(one.last() == id);
    reveal_strlit(" L");
    reveal_strlit(" (");
    reveal_strlit(")");
    assert(" L"@ =~= seq![' ', 'L']);
    assert(" ("@ =~= seq![' ', '(']);
    assert(")"@ =~= seq![')']);
    if s.upgrade_counts(id) {
        let label = needs::upgrade_label(s.data.module_of(id), s.data.upgrade(id));
        assert(s.upgrade_needs(one) =~= needs::needs_for(
            s.requirements(id),
            label,
            s.pinned.contains(id),
        ));
    }
    if b.len() == 0 {
        assert(a + b =~= a);
        assert(s.upgrade_needs(a) + s.upgrade_needs(b) =~= s.upgrade_needs(a));
    } else {
        law_tracked_upgrades_need_their_recipes(s, a, b.drop_last(), id, i);
        assert((a + b).drop_last() =~= a + b.drop_last());
        assert(s.upgrade_needs(a + b) =~= s.upgrade_needs(a) + s.upgrade_needs(b));
    }
}

/// What research nodes need one after the other is what each needs; one that
/// is developed or that the data does not know needs nothing, and any other
/// its samples, be it locked or not.
pub proof fn law_tracked_research_needs_its_samples(
    s: StateView,
    a: Seq<Seq<char>>,
    b: Seq<Seq<char>>,
    id: Seq<char>,
    i: int,
)
    ensures
        s.research_needs(a + b) == s.research_needs(a) + s.research_needs(b),
        s.data.node(id) is None || s.research_states.contains_key(id) && s.research_states[id]
            == ResearchNodeState::Developed ==> s.research_needs(seq![id]).len() == 0,
        s.data.node(id) is Some && (!s.research_states.contains_key(id) || s.research_states[id]
            == ResearchNodeState::InProgress) ==> s.research_needs(seq![id]).len()
            == s.data.node(id).unwrap().samples.len() && (0 <= i
            < s.data.node(id).unwrap().samples.len() ==> {
            let n = s.research_needs(seq![id])[i];
            &&& n.req == s.data.node(id).unwrap().samples[i]
            &&& n.pinned <==> s.pinned_research.contains(id)
            &&& n.label == seq!['R', 'e', 's', 'e', 'a', 'r', 'c', 'h', ':', ' ']
                + s.data.node(id).unwrap().name
        }),
    decreases b.len(),
{
    let one = seq![id];
    assert(one.drop_last() =~= Seq::<Seq<char>>::empty());
    assert(s.research_needs(one.drop_last()) =~= Seq::<NeedView>::empty());
    assert(one.last() == id);
    reveal_strlit("Research: ");
    assert("Research: "@ =~= seq!['R', 'e', 's', 'e', 'a', 'r', 'c', 'h', ':', ' ']);
    if s.on_route(id) {
        assert(s.research_needs(one) =~= needs::needs_for(
            s.samples(id),
            "Research: "@ + s.data.node(id).unwrap().name,
            s.pinned_research.contains(id),
        ));
    }
    if b.len() == 0 {
        assert(a + b =~= a);
        assert(s.research_needs(a) + s.research_needs(b) =~= s.research_needs(a));
    } else {
        law_tracked_research_needs_its_samples(s, a, b.drop_last(), id, i);
        assert((a + b).drop_last() =~= a + b.drop_last());
        assert(s.research_needs(a + b) =~= s.research_needs(a) + s.research_needs(b));
    }
}

proof fn lemma_wanted(ns: Seq<NeedView>, item: Seq<char>)
    ensures
        needs::wanted_items(ns).contains(item) <==> exists|k: int|
            0 <= k < ns.len() && (#[trigger] ns[k]).req.item == item,
        needs::wanted_items(ns).no_duplicates(),
    decreases ns.len(),
{
    if ns.len() > 0 {
        let init = ns.drop_last();
        let before = needs::wanted_items(init);
        lemma_wanted(init, item);
        lemma_wanted(init, ns.last().req.item);
        ids::lemma_contains_push(before, ns.last().req.item, item);
        assert(ns[ns.len() - 1] == ns.last());
        if exists|k: int| 0 <= k < init.len() && (#[trigger] init[k]).req.item == item {
            let k = choose|k: int| 0 <= k < init.len() && (#[trigger] init[k]).req.item == item;
            assert(ns[k] == init[k]);
        }
        if exists|k: int| 0 <= k < ns.len() && (#[trigger] ns[k]).req.item == item {
            let k = choose|k: int| 0 <= k < ns.len() && (#[trigger] ns[k]).req.item == item;
            if k < init.len() {
                assert(init[k] == ns[k]);
            }
        }
    }
}

proof fn lemma_cells(s: StateView, ts: Seq<TotalView>, i: int) -> (k: int)
    requires
        0 <= i < s.cells(ts).len(),
    ensures
        0 <= k < ts.len(),
        s.data.item(ts[k].item) is Some,
        s.cells(ts)[i] == s.cell(ts[k]),
        s.cells(ts).len() <= ts.len(),
    decreases ts.len(),
{
    let init = ts.drop_last();
    if s.cells(init).len() > 0 {
        lemma_cells(s, init, 0);
    }
    if i < s.cells(init).len() {
        let k = lemma_cells(s, init, i);
        assert(init[k] == ts[k]);
        k
    } else {
        ts.len() - 1
    }
}

proof fn lemma_has_cell(s: StateView, ts: Seq<TotalView>, k: int) -> (i: int)
    requires
        0 <= k < ts.len(),
        s.data.item(ts[k].item) is Some,
    ensures
        0 <= i < s.cells(ts).len(),
        s.cells(ts)[i] == s.cell(ts[k]),
    decreases ts.len(),
{
    if k == ts.len() - 1 {
        s.cells(ts).len() - 1
    } else {
        assert(ts.drop_last()[k] == ts[k]);
        lemma_has_cell(s, ts.drop_last(), k)
    }
}

/// A cell of the wishlist says how many of its item all entries together ask
/// for and how many are owned, and it is pinned just where the pinned entries
/// alone ask for more than that.
pub proof fn law_cells_say_what_is_needed(
    s: StateView,
    ns: Seq<NeedView>,
    out: Seq<ActiveView>,
    i: int,
)
    requires
        forall|item: Seq<char>| #[trigger] needs::demand(ns, item) <= u32::MAX,
        out == sorting::in_order::<ActiveItem>(s.cells(needs::totals(ns))),
        0 <= i < out.len(),
    ensures
        out[i].needed == needs::demand(ns, out[i].item_id),
        out[i].collected == s.owned_total(out[i].item_id),
        out[i].sources == needs::labels_of(ns, out[i].item_id),
        out[i].pinned <==> s.owned_total(out[i].item_id) < needs::pinned_demand(ns, out[i].item_id),
        s.data.item(out[i].item_id) is Some,
        out[i].name == s.data.item(out[i].item_id).unwrap().name,
        out[i].icon_path == s.data.item(out[i].item_id).unwrap().icon_path,
{
    let cells = s.cells(needs::totals(ns));
    sorting::lemma_in_order::<ActiveItem>(cells);
    let j = sorting::lemma_same_elements(out, cells, i);
    let k = lemma_cells(s, needs::totals(ns), j);
    let item = needs::wanted_items(ns)[k];
    assert(needs::demand(ns, item) <= u32::MAX);
    lemma_pinned_is_part(ns, item);
}

proof fn lemma_pinned_is_part(ns: Seq<NeedView>, item: Seq<char>)
    ensures
        needs::pinned_demand(ns, item) <= needs::demand(ns, item),
    decreases ns.len(),
{
    if ns.len() > 0 {
        lemma_pinned_is_part(ns.drop_last(), item);
    }
}

/// Every item that an entry asks for and that the data knows has a cell, and
/// no item has two.
pub proof fn law_every_needed_item_has_a_cell(
    s: StateView,
    ns: Seq<NeedView>,
    out: Seq<ActiveView>,
    k: int,
)
    requires
        out == sorting::in_order::<ActiveItem>(s.cells(needs::totals(ns))),
        0 <= k < ns.len(),
        s.data.item(ns[k].req.item) is Some,
    ensures
        exists|i: int| 0 <= i < out.len() && (#[trigger] out[i]).item_id == ns[k].req.item,
{
    let ts = needs::totals(ns);
    let cells = s.cells(ts);
    let item = ns[k].req.item;
    lemma_wanted(ns, item);
    let w = choose|w: int|
        0 <= w < needs::wanted_items(ns).len() && needs::wanted_items(ns)[w] == item;
    assert(ts[w].item == item);
    let j = lemma_has_cell(s, ts, w);
    sorting::lemma_in_order::<ActiveItem>(cells);
    let i = sorting::lemma_same_elements(cells, out, j);
    assert(out[i].item_id == item);
}

proof fn lemma_cells_distinct(s: StateView, ts: Seq<TotalView>, i: int, j: int)
    requires
        forall|a: int, b: int|
            0 <= a < b < ts.len() ==> (#[trigger] ts[a]).item != (#[trigger] ts[b]).item,
        0 <= i < j < s.cells(ts).len(),
    ensures
        s.cells(ts)[i].item_id != s.cells(ts)[j].item_id,
    decreases ts.len(),
{
    let init = ts.drop_last();
    assert forall|a: int, b: int| 0 <= a < b < init.len() implies (#[trigger] init[a]).item != (
    #[trigger] init[b]).item by {
        assert(ts[a].item != ts[b].item);
    }
    if j < s.cells(init).len() {
        lemma_cells_distinct(s, init, i, j);
    } else {
        let k = lemma_cells(s, init, i);
        assert(ts[k].item != ts[ts.len() - 1].item);
    }
}

/// No item has two cells, and each cell is of an item that some entry asks
/// for.
pub proof fn law_cells_are_of_different_items(
    s: StateView,
    ns: Seq<NeedView>,
    out: Seq<ActiveView>,
    i: int,
    j: int,
)
    requires
        out == sorting::in_order::<ActiveItem>(s.cells(needs::totals(ns))),
        0 <= i < j < out.len(),
    ensures
        out[i].item_id != out[j].item_id,
        exists|k: int| 0 <= k < ns.len() && (#[trigger] ns[k]).req.item == out[i].item_id,
{
    let ts = needs::totals(ns);
    let cells = s.cells(ts);
    lemma_wanted(ns, Seq::empty());
    assert forall|a: int, b: int| 0 <= a < b < ts.len() implies (#[trigger] ts[a]).item != (
    #[trigger] ts[b]).item by {
        assert(needs::wanted_items(ns)[a] != needs::wanted_items(ns)[b]);
    }
    sorting::lemma_in_order::<ActiveItem>(cells);
    if out[i].item_id == out[j].item_id {
        let a = sorting::lemma_same_elements(out, cells, i);
        let b = sorting::lemma_same_elements(out, cells, j);
        if a < b {
            lemma_cells_distinct(s, ts, a, b);
        } else if b < a {
            lemma_cells_distinct(s, ts, b, a);
        } else {
            lemma_cells_no_duplicates(s, ts);
            lemma_no_duplicates_stay(cells, out);
            assert(out[i] != out[j]);
        }
    }
    let a = sorting::lemma_same_elements(out, cells, i);
    let k = lemma_cells(s, ts, a);
    assert(needs::wanted_items(ns).contains(needs::wanted_items(ns)[k]));
    lemma_wanted(ns, needs::wanted_items(ns)[k]);
}

proof fn lemma_cells_no_duplicates(s: StateView, ts: Seq<TotalView>)
    requires
        forall|a: int, b: int|
            0 <= a < b < ts.len() ==> (#[trigger] ts[a]).item != (#[trigger] ts[b]).item,
    ensures
        s.cells(ts).no_duplicates(),
{
    assert forall|i: int, j: int| 0 <= i < s.cells(ts).len() && 0 <= j < s.cells(ts).len() && i
        != j implies s.cells(ts)[i] != s.cells(ts)[j] by {
        if i < j {
            lemma_cells_distinct(s, ts, i, j);
        } else {
            lemma_cells_distinct(s, ts, j, i);
        }
    }
}

proof fn lemma_no_duplicates_stay<A>(s: Seq<A>, t: Seq<A>)
    requires
        s.to_multiset() == t.to_multiset(),
        s.no_duplicates(),
    ensures
        t.no_duplicates(),
{
    s.lemma_multiset_has_no_duplicates();
    t.lemma_multiset_has_no_duplicates_conv();
}

/// What is done comes last. Of the rest what is pinned comes first; then what
/// most is needed of, then by name, and of one name by id.
pub proof fn law_wishlist_order(s: StateView, ns: Seq<NeedView>, out: Seq<ActiveView>, i: int, j: int)
    requires
        out == sorting::in_order::<ActiveItem>(s.cells(needs::totals(ns))),
        0 <= i < j < out.len(),
    ensures
        out[i].collected >= out[i].needed ==> out[j].collected >= out[j].needed,
        (out[i].collected >= out[i].needed) == (out[j].collected >= out[j].needed) ==> {
            &&& out[j].pinned ==> out[i].pinned
            &&& out[i].pinned == out[j].pinned ==> out[i].needed >= out[j].needed
            &&& out[i].pinned == out[j].pinned && out[i].needed == out[j].needed
                ==> !text::text_lt(out[j].name, out[i].name)
            &&& out[i].pinned == out[j].pinned && out[i].needed == out[j].needed && out[i].name
                == out[j].name ==> text::text_lt(out[i].item_id, out[j].item_id)
        },
{
    sorting::lemma_in_order::<ActiveItem>(s.cells(needs::totals(ns)));
    assert(!<ActiveItem as sorting::Ranked>::precedes(out[j], out[i]));
    law_cells_are_of_different_items(s, ns, out, i, j);
    text::lemma_text_lt_total(out[i].item_id, out[j].item_id);
    text::lemma_text_lt_irreflexive(out[i].name);
}

/// A recipe is what stands in its slots that are not empty, in order: those of
/// the correction where there is one, else the first four requirements of the
/// bundled recipe; an upgrade that the data does not know costs nothing.
pub proof fn law_recipes_are_their_slots(
    s: StateView,
    id: Seq<char>,
    a: Seq<Option<ReqView>>,
    b: Seq<Option<ReqView>>,
    r: ReqView,
)
    ensures
        upgrades::filled(a + b) == upgrades::filled(a) + upgrades::filled(b),
        upgrades::filled(seq![Some(r)]) == seq![r],
        upgrades::filled(seq![None]) == Seq::<ReqView>::empty(),
        s.overrides.contains_key(id) ==> s.requirements(id) == upgrades::filled(
            s.overrides[id].slots,
        ),
        !s.overrides.contains_key(id) && s.data.knows_upgrade(id) && s.data.upgrade(
            id,
        ).requirements.len() <= 4 ==> s.requirements(id) == s.data.upgrade(id).requirements,
        !s.overrides.contains_key(id) && !s.data.knows_upgrade(id) ==> s.requirements(id).len()
            == 0,
    decreases b.len(),
{
    let some = seq![Some(r)];
    let none = seq![None::<ReqView>];
    assert(some.drop_last() =~= Seq::<Option<ReqView>>::empty());
    assert(none.drop_last() =~= Seq::<Option<ReqView>>::empty());
    assert(upgrades::filled(some.drop_last()) =~= Seq::<ReqView>::empty());
    assert(upgrades::filled(none.drop_last()) =~= Seq::<ReqView>::empty());
    assert(some.last() == Some(r));
    assert(none.last() == None::<ReqView>);
    assert(upgrades::filled(some) =~= seq![r]);
    if b.len() == 0 {
        assert(a + b =~= a);
        assert(upgrades::filled(a) + upgrades::filled(b) =~= upgrades::filled(a));
    } else {
        law_recipes_are_their_slots(s, id, a, b.drop_last(), r);
        assert((a + b).drop_last() =~= a + b.drop_last());
        assert(upgrades::filled(a + b) =~= upgrades::filled(a) + upgrades::filled(b));
    }
    if !s.overrides.contains_key(id) {
        if s.data.knows_upgrade(id) {
            lemma_base_filled(s.data.upgrade(id).requirements, 4);
            let slots = crate::data::base_slots_of(s.data.upgrade(id).requirements);
            assert(slots.take(4) =~= slots);
            let reqs = s.data.upgrade(id).requirements;
            if reqs.len() <= 4 {
                assert(reqs.take(reqs.len() as int) =~= reqs);
            }
        } else {
            let slots = s.slots(id);
            assert(slots.len() == 4);
            reveal_with_fuel(upgrades::filled, 5);
        }
    }
}

proof fn lemma_base_filled(reqs: Seq<ReqView>, n: int)
    requires
        0 <= n <= 4,
    ensures
        upgrades::filled(crate::data::base_slots_of(reqs).take(n)) == reqs.take(
            if n < reqs.len() {
                n
            } else {
                reqs.len() as int
            },
        ),
    decreases n,
{
    let slots = crate::data::base_slots_of(reqs);
    if n == 0 {
        assert(slots.take(0) =~= Seq::<Option<ReqView>>::empty());
        assert(upgrades::filled(slots.take(0)) =~= reqs.take(0));
    } else {
        lemma_base_filled(reqs, n - 1);
        assert(slots.take(n).drop_last() =~= slots.take(n - 1));
        assert(slots.take(n).last() == slots[n - 1]);
        if n <= reqs.len() {
            assert(reqs.take(n) =~= reqs.take(n - 1).push(reqs[n - 1]));
        }
    }
}

/// Up to the horizon of the wishlist those tracked upgrades count that are not
/// completed, that the data knows and whose module is enabled, in their order.
pub proof fn law_tracked_horizon(s: StateView, ids: Seq<Seq<char>>)
    ensures
        s.counting(ids) == ids.filter(
            |id: Seq<char>|
                !s.completed.contains(id) && s.data.knows_upgrade(id) && !s.module_disabled(
                    s.data.module_of(id).id,
                ),
        ),
    decreases ids.len(),
{
    reveal(Seq::filter);
    if ids.len() > 0 {
        law_tracked_horizon(s, ids.drop_last());
    }
}

/// Up to the whole future every upgrade of an enabled module that is not
/// completed counts, module by module and in their order.
pub proof fn law_future_horizon(s: StateView, a: Seq<ModuleView>, b: Seq<ModuleView>, m: ModuleView)
    ensures
        s.future_ids(a + b) == s.future_ids(a) + s.future_ids(b),
        s.disabled_modules.contains(m.id) ==> s.future_ids(seq![m]).len() == 0,
        !s.module_disabled(m.id) ==> s.future_ids(seq![m]) == m.upgrades.filter(
            |u: UpgradeView| !s.completed.contains(u.id),
        ).map_values(|u: UpgradeView| u.id),
    decreases b.len(),
{
    let one = seq![m];
    assert(one.drop_last() =~= Seq::<ModuleView>::empty());
    assert(s.future_ids(one.drop_last()) =~= Seq::<Seq<char>>::empty());
    assert(one.last() == m);
    lemma_open_ids_are_left(s, m.upgrades);
    if !s.module_disabled(m.id) {
        assert(s.future_ids(one) =~= s.open_ids(m.upgrades));
    }
    if b.len() == 0 {
        assert(a + b =~= a);
        assert(s.future_ids(a) + s.future_ids(b) =~= s.future_ids(a));
    } else {
        law_future_horizon(s, a, b.drop_last(), m);
        assert((a + b).drop_last() =~= a + b.drop_last());
        assert(s.future_ids(a + b) =~= s.future_ids(a) + s.future_ids(b));
    }
}

proof fn lemma_open_ids_are_left(s: StateView, ups: Seq<UpgradeView>)
    ensures
        s.open_ids(ups) == ups.filter(|u: UpgradeView| !s.completed.contains(u.id)).map_values(
            |u: UpgradeView| u.id,
        ),
    decreases ups.len(),
{
    reveal(Seq::filter);
    let left = |u: UpgradeView| !s.completed.contains(u.id);
    let id = |u: UpgradeView| u.id;
    if ups.len() > 0 {
        lemma_open_ids_are_left(s, ups.drop_last());
        assert(ups.filter(left).map_values(id) =~= s.open_ids(ups));
    } else {
        assert(ups.filter(left).map_values(id) =~= s.open_ids(ups));
    }
}

/// What several upgrades cost is one recipe after the other.
pub proof fn law_costs_are_recipes(
    s: StateView,
    a: Seq<Seq<char>>,
    b: Seq<Seq<char>>,
    id: Seq<char>,
)
    ensures
        s.recipes(a + b) == s.recipes(a) + s.recipes(b),
        s.recipes(seq![id]) == s.requirements(id),
    decreases b.len(),
{
    let one = seq![id];
    assert(one.drop_last() =~= Seq::<Seq<char>>::empty());
    assert(s.recipes(one.drop_last()) =~= Seq::<ReqView>::empty());
    assert(one.last() == id);
    assert(s.recipes(one) =~= s.requirements(id));
    if b.len() == 0 {
        assert(a + b =~= a);
        assert(s.recipes(a) + s.recipes(b) =~= s.recipes(a));
    } else {
        law_costs_are_recipes(s, a, b.drop_last(), id);
        assert((a + b).drop_last() =~= a + b.drop_last());
        assert(s.recipes(a + b) =~= s.recipes(a) + s.recipes(b));
    }
}

} // verus!
