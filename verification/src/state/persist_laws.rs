//! What of a saved state counts under the current data.

use crate::data;
use crate::data::{DataView, OverrideView};
use crate::state::persist;
use crate::state::persist::{IdKind, PersistedState, PersistedView};
use crate::state::StateView;
use crate::text;
use vstd::prelude::*;
use vstd::seq_lib::*;

verus! {

/// The data knows just the upgrades, modules and research nodes that it lists.
pub proof fn law_what_is_known(d: DataView, id: Seq<char>)
    ensures
        d.knows(IdKind::Upgrade, id) <==> exists|m: int, u: int|
            #![trigger d.modules[m].upgrades[u]]
            0 <= m < d.modules.len() && 0 <= u < d.modules[m].upgrades.len()
                && d.modules[m].upgrades[u].id == id,
        d.knows(IdKind::Module, id) <==> exists|m: int|
            0 <= m < d.modules.len() && (#[trigger] d.modules[m]).id == id,
        d.knows(IdKind::Research, id) <==> exists|c: int, j: int|
            #![trigger d.research[c][j]]
            0 <= c < d.research.len() && 0 <= j < d.research[c].len() && d.research[c][j].id == id,
{
    data::lemma_upgrade_from(d.modules, id, 0);
    data::lemma_module_from(d.modules, id, 0);
    data::lemma_node_from(d.research, id, 0);
    if d.knows(IdKind::Research, id) {
        let p = data::node_from(d.research, id, 0).unwrap();
        assert(d.research[p.0][p.1].id == id);
    }
    if d.knows(IdKind::Upgrade, id) {
        let p = d.upgrade_pos(id).unwrap();
        assert(d.modules[p.0].upgrades[p.1].id == id);
    }
    if d.knows(IdKind::Module, id) {
        let m = d.module_pos(id).unwrap();
        assert(d.modules[m].id == id);
    }
}

/// What was saved counts as far as the data knows it. The counts, the
/// containers and what was seeded carry over as they are; corrections are not
/// part of it.
pub proof fn law_merging_keeps_what_is_known(s: StateView, p: PersistedView, id: Seq<char>)
    ensures
        s.merged(p).tracking.contains(id) <==> p.tracking.contains(id) && s.data.knows_upgrade(id),
        s.merged(p).completed.contains(id) <==> p.completed.contains(id) && s.data.knows_upgrade(id),
        s.merged(p).pinned.contains(id) <==> p.pinned.contains(id) && s.data.knows_upgrade(id),
        s.merged(p).tracked_research.contains(id) <==> p.tracked_research.contains(id)
            && s.data.node(id) is Some,
        s.merged(p).pinned_research.contains(id) <==> p.pinned_research.contains(id)
            && s.data.node(id) is Some,
        s.merged(p).research_states.contains_key(id) <==> p.research_states.contains_key(id)
            && s.data.node(id) is Some,
        s.merged(p).research_states.contains_key(id) ==> s.merged(p).research_states[id]
            == p.research_states[id],
        s.merged(p).disabled_modules.contains(id) <==> p.disabled_modules.contains(id)
            && s.data.knows_module(id),
        s.merged(p).collected == p.collected,
        s.merged(p).containers == p.containers,
        s.merged(p).next_container_seq == p.next_container_seq,
        s.merged(p).default_shelf_seeded == p.default_shelf_seeded,
        s.merged(p).gunsmith_storage_seeded == p.gunsmith_storage_seeded,
        s.merged(p).overrides == s.overrides,
        s.merged(p).data == s.data,
        s.merged(p).version != s.version,
{
}

proof fn lemma_known_of_is_filter(d: DataView, kind: IdKind, ids: Seq<Seq<char>>)
    ensures
        d.known_of(kind, ids) == ids.filter(|id: Seq<char>| d.knows(kind, id)),
    decreases ids.len(),
{
    reveal(Seq::filter);
    if ids.len() > 0 {
        lemma_known_of_is_filter(d, kind, ids.drop_last());
    }
}

proof fn lemma_known_of_all(d: DataView, kind: IdKind, ids: Seq<Seq<char>>)
    ensures
        d.known_of(kind, ids).len() <= ids.len(),
        d.known_of(kind, ids).len() == ids.len() <==> forall|i: int|
            0 <= i < ids.len() ==> d.knows(kind, #[trigger] ids[i]),
    decreases ids.len(),
{
    if ids.len() > 0 {
        let init = ids.drop_last();
        lemma_known_of_all(d, kind, init);
        assert(ids[ids.len() - 1] == ids.last());
        if forall|i: int| 0 <= i < ids.len() ==> d.knows(kind, #[trigger] ids[i]) {
            assert forall|i: int| 0 <= i < init.len() implies d.knows(kind, #[trigger] init[i]) by {
                assert(ids[i] == init[i]);
            }
        } else {
            let i = choose|i: int| 0 <= i < ids.len() && !d.knows(kind, #[trigger] ids[i]);
            if i < init.len() {
                assert(init[i] == ids[i]);
            }
        }
    }
}

/// What is known of a list stays in its order.
pub proof fn law_known_ids_keep_their_order(d: DataView, kind: IdKind, ids: Seq<Seq<char>>)
    ensures
        d.known_of(kind, ids) == ids.filter(|id: Seq<char>| d.knows(kind, id)),
        d.known_of(kind, ids).len() == ids.len() <==> forall|i: int|
            0 <= i < ids.len() ==> d.knows(kind, #[trigger] ids[i]),
{
    lemma_known_of_is_filter(d, kind, ids);
    lemma_known_of_all(d, kind, ids);
}

/// A saved state is merged without a warning just where it was saved under the
/// same data version and everything tracked is still known.
pub proof fn law_merging_warns_of_losses(p: PersistedState, d: DataView)
    ensures
        persist::warning_text(p.warnings(d)) is None <==> {
            &&& p.data_version@ == d.data_version
            &&& forall|i: int|
                0 <= i < p.tracked_upgrades.order().len() ==> d.knows_upgrade(
                    #[trigger] p.tracked_upgrades.order()[i],
                )
            &&& forall|i: int|
                0 <= i < p.tracked_research.order().len() ==> d.node(
                    #[trigger] p.tracked_research.order()[i],
                ) is Some
        },
{
    let ups = p.tracked_upgrades.order();
    let nodes = p.tracked_research.order();
    lemma_known_of_all(d, IdKind::Upgrade, ups);
    lemma_known_of_all(d, IdKind::Research, nodes);
    if forall|i: int| 0 <= i < ups.len() ==> d.knows_upgrade(#[trigger] ups[i]) {
        assert forall|i: int| 0 <= i < ups.len() implies d.knows(
            IdKind::Upgrade,
            #[trigger] ups[i],
        ) by {}
    } else {
        let i = choose|i: int| 0 <= i < ups.len() && !d.knows_upgrade(#[trigger] ups[i]);
        assert(!d.knows(IdKind::Upgrade, ups[i]));
    }
    if forall|i: int| 0 <= i < nodes.len() ==> d.node(#[trigger] nodes[i]) is Some {
        assert forall|i: int| 0 <= i < nodes.len() implies d.knows(
            IdKind::Research,
            #[trigger] nodes[i],
        ) by {}
    } else {
        let i = choose|i: int| 0 <= i < nodes.len() && d.node(#[trigger] nodes[i]) is None;
        assert(!d.knows(IdKind::Research, nodes[i]));
    }
}

/// Where only upgrades were lost, the warning says how many.
pub proof fn law_lost_upgrades_are_counted(p: PersistedState, d: DataView, n: nat)
    requires
        p.data_version@ == d.data_version,
        n > 0,
        p.tracked_upgrades.order().filter(|id: Seq<char>| d.knows_upgrade(id)).len() + n
            == p.tracked_upgrades.order().len(),
        forall|i: int|
            0 <= i < p.tracked_research.order().len() ==> d.node(
                #[trigger] p.tracked_research.order()[i],
            ) is Some,
    ensures
        persist::warning_text(p.warnings(d)) == Some(
            "Dropped "@ + text::decimal(n) + " tracked upgrade(s) no longer present in data."@,
        ),
{
    let ups = p.tracked_upgrades.order();
    let nodes = p.tracked_research.order();
    lemma_known_of_is_filter(d, IdKind::Upgrade, ups);
    lemma_known_of_all(d, IdKind::Research, nodes);
    assert forall|i: int| 0 <= i < nodes.len() implies d.knows(
        IdKind::Research,
        #[trigger] nodes[i],
    ) by {}
    assert(ups.filter(|id: Seq<char>| d.knows(IdKind::Upgrade, id)) == ups.filter(
        |id: Seq<char>| d.knows_upgrade(id),
    )) by {
        lemma_filters_agree(
            ups,
            |id: Seq<char>| d.knows(IdKind::Upgrade, id),
            |id: Seq<char>| d.knows_upgrade(id),
        );
    }
    let w = "Dropped "@ + text::decimal(n) + " tracked upgrade(s) no longer present in data."@;
    assert(p.warnings(d) =~= seq![w]);
    reveal_with_fuel(text::joined, 2);
    assert(text::joined(seq![w], " "@) =~= w);
}

proof fn lemma_filters_agree<A>(s: Seq<A>, f: spec_fn(A) -> bool, g: spec_fn(A) -> bool)
    requires
        forall|x: A| #[trigger] f(x) == g(x),
    ensures
        s.filter(f) == s.filter(g),
    decreases s.len(),
{
    reveal(Seq::filter);
    if s.len() > 0 {
        lemma_filters_agree(s.drop_last(), f, g);
        assert(f(s.last()) == g(s.last()));
    }
}

/// A saved correction is kept just where the data knows its upgrade and the
/// bundled recipe is the one that it was made for; one that does not tell what
/// it was made for is kept.
pub proof fn law_corrections_are_kept(d: DataView, m: Map<Seq<char>, OverrideView>, id: Seq<char>)
    requires
        m.contains_key(id),
    ensures
        !d.knows_upgrade(id) ==> !d.kept_overrides(m).contains_key(id),
        d.knows_upgrade(id) && m[id].base_hash is None ==> d.kept_overrides(m).contains_key(id),
        d.knows_upgrade(id) && m[id].base_hash is Some ==> (d.kept_overrides(m).contains_key(id)
            <==> m[id].base_hash == Some(data::recipe_stamp(d.upgrade(id).requirements))),
        d.kept_overrides(m).contains_key(id) ==> d.kept_overrides(m)[id] == m[id],
        forall|other: Seq<char>| #[trigger]
            d.kept_overrides(m).contains_key(other) ==> m.contains_key(other),
{
}

/// Every saved correction is kept, dropped or discarded, and so counted once.
pub proof fn law_corrections_are_counted(
    d: DataView,
    ids: Seq<Seq<char>>,
    m: Map<Seq<char>, OverrideView>,
)
    requires
        forall|i: int| 0 <= i < ids.len() ==> m.contains_key(#[trigger] ids[i]),
    ensures
        d.count_unknown(ids) + d.count_superseded(ids, m) + ids.filter(
            |id: Seq<char>| d.kept_overrides(m).contains_key(id),
        ).len() == ids.len(),
        d.count_unknown(ids) == ids.filter(|id: Seq<char>| !d.knows_upgrade(id)).len(),
    decreases ids.len(),
{
    reveal(Seq::filter);
    if ids.len() > 0 {
        let init = ids.drop_last();
        assert forall|i: int| 0 <= i < init.len() implies m.contains_key(#[trigger] init[i]) by {
            assert(init[i] == ids[i]);
        }
        law_corrections_are_counted(d, init, m);
        assert(m.contains_key(ids[ids.len() - 1]));
    }
}

/// Resetting leaves nothing tracked, completed, disabled, recorded or held.
pub proof fn law_reset_forgets(s: StateView, id: Seq<char>)
    ensures
        !s.reset().tracking.contains(id),
        !s.reset().completed.contains(id),
        !s.reset().pinned.contains(id),
        !s.reset().disabled_modules.contains(id),
        !s.reset().research_states.contains_key(id),
        !s.reset().tracked_research.contains(id),
        !s.reset().pinned_research.contains(id),
        !s.reset().collected.contains_key(id),
        s.reset().containers.len() == 0,
        s.reset().data == s.data,
        s.reset().gunsmith_storage_seeded == s.gunsmith_storage_seeded,
        s.reset().default_shelf_seeded == s.default_shelf_seeded,
        s.reset().version != s.version,
{
}

} // verus!
