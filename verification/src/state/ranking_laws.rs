//! The order of the list of what to build next, and what its rows say.

use crate::data;
use crate::data::{ModuleView, OverrideView, ReqView};
use crate::sorting;
use crate::state::progress;
use crate::state::progress::{RecipeKnowledge, RowView, UpgradeProgressRow};
use crate::state::upgrades;
use crate::state::StateView;
use crate::text;
use vstd::prelude::*;
use vstd::seq_lib::*;

verus! {

/// Whether the units of every recipe that is next in a module can be counted.
pub open spec fn rows_fit(s: StateView) -> bool {
    forall|m: int|
        0 <= m < s.data.modules.len() ==> s.row_fits(#[trigger] s.data.modules[m])
}

/// The modules and their rows: a row is that of an upgrade of an enabled
/// module which is not completed, while nothing of a lower level is left.
proof fn lemma_row_of(s: StateView, mods: Seq<ModuleView>, i: int) -> (r: (int, int))
    requires
        0 <= i < s.rows(mods).len(),
    ensures
        0 <= r.0 < mods.len(),
        0 <= r.1 < mods[r.0].upgrades.len(),
        s.natural_next(mods[r.0].upgrades, mods[r.0].upgrades.len() as int) == Some(r.1),
        !s.module_disabled(mods[r.0].id),
        s.rows(mods)[i] == s.row(mods[r.0].name, mods[r.0].upgrades[r.1]),
    decreases mods.len(),
{
    let init = mods.drop_last();
    let m = mods.last();
    progress::lemma_natural_next(s, m.upgrades, m.upgrades.len() as int);
    if i < s.rows(init).len() {
        let p = lemma_row_of(s, init, i);
        assert(init[p.0] == mods[p.0]);
        p
    } else {
        (mods.len() - 1, s.natural_next(m.upgrades, m.upgrades.len() as int).unwrap())
    }
}

proof fn lemma_ranked_row_of(s: StateView, i: int) -> (r: (int, int))
    requires
        0 <= i < sorting::in_order::<UpgradeProgressRow>(s.rows(s.data.modules)).len(),
    ensures
        0 <= r.0 < s.data.modules.len(),
        0 <= r.1 < s.data.modules[r.0].upgrades.len(),
        s.natural_next(
            s.data.modules[r.0].upgrades,
            s.data.modules[r.0].upgrades.len() as int,
        ) == Some(r.1),
        !s.module_disabled(s.data.modules[r.0].id),
        sorting::in_order::<UpgradeProgressRow>(s.rows(s.data.modules))[i] == s.row(
            s.data.modules[r.0].name,
            s.data.modules[r.0].upgrades[r.1],
        ),
{
    let rows = s.rows(s.data.modules);
    let out = sorting::in_order::<UpgradeProgressRow>(rows);
    sorting::lemma_in_order::<UpgradeProgressRow>(rows);
    let k = sorting::lemma_same_elements(out, rows, i);
    lemma_row_of(s, s.data.modules, k)
}

/// What is gathered for two recipes together is what is gathered for each; for
/// one entry it is what is owned, up to what the entry asks for.
pub proof fn law_gathered_adds_up(s: StateView, a: Seq<ReqView>, b: Seq<ReqView>, r: ReqView)
    ensures
        s.gathered(a + b) == s.gathered(a) + s.gathered(b),
        progress::total_quantity(a + b) == progress::total_quantity(a) + progress::total_quantity(b),
        s.units_missing(a + b) == s.units_missing(a) + s.units_missing(b),
        s.items_missing(a + b) == s.items_missing(a) + s.items_missing(b),
        progress::total_quantity(seq![r]) == r.quantity,
        s.owned_total(r.item) >= r.quantity ==> s.gathered(seq![r]) == r.quantity
            && s.units_missing(seq![r]) == 0 && s.items_missing(seq![r]) == 0,
        s.owned_total(r.item) < r.quantity ==> s.gathered(seq![r]) == s.owned_total(r.item)
            && s.units_missing(seq![r]) == r.quantity - s.owned_total(r.item) && s.items_missing(
            seq![r],
        ) == 1,
    decreases b.len(),
{
    let one = seq![r];
    assert(one.drop_last() =~= Seq::<ReqView>::empty());
    assert(s.gathered(one.drop_last()) == 0);
    assert(progress::total_quantity(one.drop_last()) == 0);
    assert(s.units_missing(one.drop_last()) == 0);
    assert(s.items_missing(one.drop_last()) == 0);
    assert(one.last() == r);
    if b.len() == 0 {
        assert(a + b =~= a);
    } else {
        law_gathered_adds_up(s, a, b.drop_last(), r);
        assert((a + b).drop_last() =~= a + b.drop_last());
    }
}

/// What is gathered and what is missing make up what a recipe asks for. As
/// many entries are short as miss at least one unit, and a recipe is short of
/// nothing just where everything it asks for is owned.
pub proof fn law_gathered_and_missing_make_the_recipe(s: StateView, reqs: Seq<ReqView>)
    ensures
        s.gathered(reqs) + s.units_missing(reqs) == progress::total_quantity(reqs),
        s.items_missing(reqs) <= s.units_missing(reqs),
        s.items_missing(reqs) <= reqs.len(),
        s.items_missing(reqs) == 0 <==> forall|i: int|
            0 <= i < reqs.len() ==> s.owned_total((#[trigger] reqs[i]).item) >= reqs[i].quantity,
        s.units_missing(reqs) == 0 <==> s.items_missing(reqs) == 0,
    decreases reqs.len(),
{
    if reqs.len() > 0 {
        let init = reqs.drop_last();
        law_gathered_and_missing_make_the_recipe(s, init);
        if s.items_missing(reqs) == 0 {
            assert forall|i: int| 0 <= i < reqs.len() implies s.owned_total(
                (#[trigger] reqs[i]).item,
            ) >= reqs[i].quantity by {
                if i < init.len() {
                    assert(init[i] == reqs[i]);
                }
            }
        } else {
            assert(reqs[reqs.len() - 1] == reqs.last());
            if s.items_missing(init) != 0 {
                let i = choose|i: int|
                    0 <= i < init.len() && s.owned_total((#[trigger] init[i]).item)
                        < init[i].quantity;
                assert(reqs[i] == init[i]);
            }
        }
    }
}

/// A row says how much of its upgrade is gathered and missing: the two make up
/// what is needed, and the row is ready just where its cost is known and
/// nothing is missing.
pub proof fn law_rows_add_up(s: StateView, out: Seq<RowView>, i: int)
    requires
        rows_fit(s),
        out == sorting::in_order::<UpgradeProgressRow>(s.rows(s.data.modules)),
        0 <= i < out.len(),
    ensures
        out[i].progress.collected + out[i].shortfall.units_missing == out[i].progress.needed,
        out[i].progress.needed == progress::total_quantity(s.requirements(out[i].upgrade_id)),
        out[i].shortfall.items_missing <= out[i].shortfall.units_missing,
        out[i].knowledge == RecipeKnowledge::Unknown <==> s.requirements(out[i].upgrade_id).len()
            == 0,
        out[i].ready <==> out[i].knowledge != RecipeKnowledge::Unknown
            && out[i].shortfall.items_missing == 0,
        out[i].pinned <==> s.pinned.contains(out[i].upgrade_id),
        !s.completed.contains(out[i].upgrade_id),
{
    let p = lemma_ranked_row_of(s, i);
    let m = s.data.modules[p.0];
    let id = m.upgrades[p.1].id;
    progress::lemma_natural_next(s, m.upgrades, m.upgrades.len() as int);
    assert(s.row_fits(m));
    law_gathered_and_missing_make_the_recipe(s, s.requirements(id));
}

/// Pinned rows come before all others. Then come the ready ones, then those
/// that one or two items are missing of, then those of which something is
/// there, then those of which nothing is, and last those whose cost is not
/// known.
pub proof fn law_rows_come_in_bands(s: StateView, out: Seq<RowView>, i: int, j: int)
    requires
        rows_fit(s),
        out == sorting::in_order::<UpgradeProgressRow>(s.rows(s.data.modules)),
        0 <= i < j < out.len(),
    ensures
        out[j].pinned ==> out[i].pinned,
        out[i].pinned == out[j].pinned ==> {
            &&& out[j].ready ==> out[i].ready
            &&& out[j].knowledge != RecipeKnowledge::Unknown ==> out[i].knowledge
                != RecipeKnowledge::Unknown
            &&& out[j].knowledge != RecipeKnowledge::Unknown && out[j].shortfall.items_missing <= 2
                ==> out[i].shortfall.items_missing <= 2
            &&& out[j].knowledge != RecipeKnowledge::Unknown && out[j].progress.collected > 0
                ==> out[i].progress.collected > 0 || out[i].shortfall.items_missing <= 2
        },
{
    lemma_in_turn(s, out, i, j);
    law_rows_add_up(s, out, i);
    law_rows_add_up(s, out, j);
}

proof fn lemma_in_turn(s: StateView, out: Seq<RowView>, i: int, j: int)
    requires
        out == sorting::in_order::<UpgradeProgressRow>(s.rows(s.data.modules)),
        0 <= i < j < out.len(),
    ensures
        !out[j].comes_before(out[i]),
{
    sorting::lemma_in_order::<UpgradeProgressRow>(s.rows(s.data.modules));
    assert(!<UpgradeProgressRow as sorting::Ranked>::precedes(out[j], out[i]));
}

/// Among rows that one or two items are missing of, those come first that miss
/// fewer items, and of these those that miss fewer units.
pub proof fn law_least_short_rows_lead(s: StateView, out: Seq<RowView>, i: int, j: int)
    requires
        rows_fit(s),
        out == sorting::in_order::<UpgradeProgressRow>(s.rows(s.data.modules)),
        0 <= i < j < out.len(),
        out[i].pinned == out[j].pinned,
        out[i].knowledge != RecipeKnowledge::Unknown,
        out[j].knowledge != RecipeKnowledge::Unknown,
        1 <= out[i].shortfall.items_missing <= 2,
        1 <= out[j].shortfall.items_missing <= 2,
    ensures
        out[i].shortfall.items_missing <= out[j].shortfall.items_missing,
        out[i].shortfall.items_missing == out[j].shortfall.items_missing
            ==> out[i].shortfall.units_missing <= out[j].shortfall.units_missing,
{
    lemma_in_turn(s, out, i, j);
    law_rows_add_up(s, out, i);
    law_rows_add_up(s, out, j);
}

/// Among rows that three or more items are missing of, and something is there
/// for, the part that is done never grows down the list.
pub proof fn law_done_part_never_grows(s: StateView, out: Seq<RowView>, i: int, j: int)
    requires
        rows_fit(s),
        out == sorting::in_order::<UpgradeProgressRow>(s.rows(s.data.modules)),
        0 <= i < j < out.len(),
        out[i].pinned == out[j].pinned,
        out[i].knowledge != RecipeKnowledge::Unknown,
        out[j].knowledge != RecipeKnowledge::Unknown,
        out[i].shortfall.items_missing >= 3,
        out[j].shortfall.items_missing >= 3,
        out[i].progress.collected > 0,
        out[j].progress.collected > 0,
    ensures
        out[i].progress.collected * out[j].progress.needed >= out[j].progress.collected
            * out[i].progress.needed,
{
    lemma_in_turn(s, out, i, j);
    law_rows_add_up(s, out, i);
    law_rows_add_up(s, out, j);
}

/// Rows that nothing else tells apart come by the name of their module, and
/// those of one name by their level.
pub proof fn law_level_rows_come_by_name(s: StateView, out: Seq<RowView>, i: int, j: int)
    requires
        rows_fit(s),
        out == sorting::in_order::<UpgradeProgressRow>(s.rows(s.data.modules)),
        0 <= i < j < out.len(),
        out[i].pinned == out[j].pinned,
        out[i].knowledge == RecipeKnowledge::Unknown && out[j].knowledge
            == RecipeKnowledge::Unknown || out[i].ready && out[j].ready || out[i].knowledge
            != RecipeKnowledge::Unknown && out[j].knowledge != RecipeKnowledge::Unknown
            && out[i].progress == out[j].progress && out[i].shortfall == out[j].shortfall,
    ensures
        !text::text_lt(out[j].module_name, out[i].module_name),
        out[i].module_name == out[j].module_name ==> out[i].level <= out[j].level,
{
    lemma_in_turn(s, out, i, j);
    law_rows_add_up(s, out, i);
    law_rows_add_up(s, out, j);
    text::lemma_text_lt_irreflexive(out[i].module_name);
}

/// Every enabled module that has an upgrade left has a row for one of these,
/// of the lowest level that is left.
pub proof fn law_open_modules_have_a_row(s: StateView, out: Seq<RowView>, m: int, u: int)
    requires
        out == sorting::in_order::<UpgradeProgressRow>(s.rows(s.data.modules)),
        0 <= m < s.data.modules.len(),
        0 <= u < s.data.modules[m].upgrades.len(),
        !s.module_disabled(s.data.modules[m].id),
        !s.completed.contains(s.data.modules[m].upgrades[u].id),
    ensures
        exists|i: int, v: int|
            #![trigger out[i], s.data.modules[m].upgrades[v]]
            {
                &&& 0 <= i < out.len()
                &&& 0 <= v < s.data.modules[m].upgrades.len()
                &&& out[i].upgrade_id == s.data.modules[m].upgrades[v].id
                &&& out[i].level == s.data.modules[m].upgrades[v].level
                &&& out[i].module_name == s.data.modules[m].name
                &&& !s.completed.contains(out[i].upgrade_id)
                &&& out[i].level <= s.data.modules[m].upgrades[u].level
            },
{
    let rows = s.rows(s.data.modules);
    let module = s.data.modules[m];
    progress::lemma_natural_next(s, module.upgrades, module.upgrades.len() as int);
    assert(module.upgrades[u].id == module.upgrades[u].id);
    let v = s.natural_next(module.upgrades, module.upgrades.len() as int).unwrap();
    let k = lemma_module_has_row(s, s.data.modules, m);
    sorting::lemma_in_order::<UpgradeProgressRow>(rows);
    let i = sorting::lemma_same_elements(rows, out, k);
    assert(out[i].upgrade_id == s.data.modules[m].upgrades[v].id);
}

proof fn lemma_module_has_row(s: StateView, mods: Seq<ModuleView>, m: int) -> (k: int)
    requires
        0 <= m < mods.len(),
        !s.module_disabled(mods[m].id),
        s.natural_next(mods[m].upgrades, mods[m].upgrades.len() as int) is Some,
    ensures
        0 <= k < s.rows(mods).len(),
        s.rows(mods)[k] == s.row(
            mods[m].name,
            mods[m].upgrades[s.natural_next(
                mods[m].upgrades,
                mods[m].upgrades.len() as int,
            ).unwrap()],
        ),
    decreases mods.len(),
{
    if m == mods.len() - 1 {
        s.rows(mods).len() - 1
    } else {
        assert(mods.drop_last()[m] == mods[m]);
        lemma_module_has_row(s, mods.drop_last(), m)
    }
}

/// A row is that of an upgrade of an enabled module, and no upgrade of that
/// module which is left has a lower level.
pub proof fn law_rows_are_of_open_modules(s: StateView, out: Seq<RowView>, i: int)
    requires
        out == sorting::in_order::<UpgradeProgressRow>(s.rows(s.data.modules)),
        0 <= i < out.len(),
    ensures
        exists|m: int, u: int|
            #![trigger s.data.modules[m].upgrades[u]]
            {
                &&& 0 <= m < s.data.modules.len()
                &&& 0 <= u < s.data.modules[m].upgrades.len()
                &&& !s.disabled_modules.contains(s.data.modules[m].id)
                &&& !s.completed.contains(out[i].upgrade_id)
                &&& out[i].upgrade_id == s.data.modules[m].upgrades[u].id
                &&& out[i].level == s.data.modules[m].upgrades[u].level
                &&& out[i].module_name == s.data.modules[m].name
                &&& forall|v: int|
                    0 <= v < s.data.modules[m].upgrades.len() && !s.completed.contains(
                        (#[trigger] s.data.modules[m].upgrades[v]).id,
                    ) ==> out[i].level <= s.data.modules[m].upgrades[v].level
            },
        out.len() <= s.data.modules.len(),
{
    let p = lemma_ranked_row_of(s, i);
    let module = s.data.modules[p.0];
    progress::lemma_natural_next(s, module.upgrades, module.upgrades.len() as int);
    assert(out[i].upgrade_id == s.data.modules[p.0].upgrades[p.1].id);
    sorting::lemma_in_order::<UpgradeProgressRow>(s.rows(s.data.modules));
    lemma_rows_are_few(s, s.data.modules);
}

proof fn lemma_rows_are_few(s: StateView, mods: Seq<ModuleView>)
    ensures
        s.rows(mods).len() <= mods.len(),
    decreases mods.len(),
{
    if mods.len() > 0 {
        lemma_rows_are_few(s, mods.drop_last());
    }
}

/// A recipe is unknown just where it is empty. One that was corrected to say
/// something else than the bundled one counts as edited, and one that was
/// corrected back to it as bundled.
pub proof fn law_what_is_known_of_a_recipe(s: StateView, id: Seq<char>, o: OverrideView)
    requires
        s.data.knows_upgrade(id),
        upgrades::filled(o.slots).len() > 0,
    ensures
        s.knowledge(id) == RecipeKnowledge::Unknown <==> s.requirements(id).len() == 0,
        o.slots != data::base_slots_of(s.data.upgrade(id).requirements) ==> s.with_override(
            id,
            o,
        ).knowledge(id) == RecipeKnowledge::Edited,
        o.slots == data::base_slots_of(s.data.upgrade(id).requirements) ==> s.with_override(
            id,
            o,
        ).knowledge(id) == RecipeKnowledge::Bundled,
{
}

} // verus!
