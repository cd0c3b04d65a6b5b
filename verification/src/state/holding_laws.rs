//! What the stash and the containers hold after they are changed.

use crate::data;
use crate::data::Kilograms;
use crate::state::inventory;
use crate::state::stock_laws;
use crate::state::{ContainerKind, ContainerView, StateView};
use vstd::prelude::*;
use vstd::seq_lib::*;

verus! {

/// What is owned is what the stash holds and what each container holds; a sum
/// that cannot be counted reads as the largest count.
pub proof fn law_owned_adds_up(
    s: StateView,
    a: Seq<ContainerView>,
    b: Seq<ContainerView>,
    c: ContainerView,
    item: Seq<char>,
)
    ensures
        inventory::held_in_all(a + b, item) == inventory::held_in_all(a, item)
            + inventory::held_in_all(b, item),
        c.contents.contains_key(item) ==> inventory::held_in_all(seq![c], item) == c.contents[item],
        !c.contents.contains_key(item) ==> inventory::held_in_all(seq![c], item) == 0,
        s.collected.contains_key(item) ==> s.owned(item) == s.collected[item]
            + inventory::held_in_all(s.containers, item),
        !s.collected.contains_key(item) ==> s.owned(item) == inventory::held_in_all(
            s.containers,
            item,
        ),
        s.owned(item) <= u32::MAX ==> s.owned_total(item) == s.owned(item),
        s.owned(item) > u32::MAX ==> s.owned_total(item) == u32::MAX,
    decreases b.len(),
{
    let one = seq![c];
    assert(one.drop_last() =~= Seq::<ContainerView>::empty());
    assert(inventory::held_in_all(one.drop_last(), item) == 0);
    assert(one.last() == c);
    if b.len() == 0 {
        assert(a + b =~= a);
    } else {
        law_owned_adds_up(s, a, b.drop_last(), c, item);
        assert((a + b).drop_last() =~= a + b.drop_last());
    }
}

/// The stash holds what was put into it, an entry of none is no entry, and
/// nothing else changes but the version.
pub proof fn law_stash_holds_what_is_set(s: StateView, item: Seq<char>, v: u32, other: Seq<char>)
    requires
        other != item,
    ensures
        s.with_collected(item, v).collected.contains_key(item) <==> v > 0,
        v > 0 ==> s.with_collected(item, v).collected[item] == v,
        s.with_collected(item, v).collected.contains_key(other) == s.collected.contains_key(other),
        s.collected.contains_key(other) ==> s.with_collected(item, v).collected[other]
            == s.collected[other],
        s.with_collected(item, v).containers == s.containers,
        s.with_collected(item, v).tracking == s.tracking,
        s.with_collected(item, v).completed == s.completed,
        s.with_collected(item, v).version != s.version,
        inventory::held(s.with_collected(item, v).collected, item) == v,
{
}

/// A count moves by as much as it is told to, stops at none, and moves back
/// again where it did not stop.
pub proof fn law_counts_move(cur: u32, delta: int)
    ensures
        0 <= cur + delta <= u32::MAX ==> inventory::moved(cur, delta) == cur + delta
            && inventory::moved(inventory::moved(cur, delta), -delta) == cur,
        cur + delta < 0 ==> inventory::moved(cur, delta) == 0,
        inventory::moved(cur, 0) == cur,
{
}

/// A container holds what was put into it; its other items, its name, icon,
/// kind and cap, the other containers and the stash stay.
pub proof fn law_container_holds_what_is_set(
    s: StateView,
    i: int,
    item: Seq<char>,
    v: u32,
    other: Seq<char>,
    j: int,
)
    requires
        stock_laws::ids_distinct(s.containers),
        0 <= i < s.containers.len(),
        0 <= j < s.containers.len(),
        other != item,
    ensures
        ({
            let t = s.with_container_item(s.containers[i].id, item, v);
            &&& t.containers.len() == s.containers.len()
            &&& t.containers[i].contents.contains_key(item) <==> v > 0
            &&& v > 0 ==> t.containers[i].contents[item] == v
            &&& t.containers[i].contents.contains_key(other)
                == s.containers[i].contents.contains_key(other)
            &&& s.containers[i].contents.contains_key(other) ==> t.containers[i].contents[other]
                == s.containers[i].contents[other]
            &&& t.containers[i].id == s.containers[i].id
            &&& t.containers[i].name == s.containers[i].name
            &&& t.containers[i].icon == s.containers[i].icon
            &&& t.containers[i].kind == s.containers[i].kind
            &&& t.containers[i].capacity_kg == s.containers[i].capacity_kg
            &&& j != i ==> t.containers[j] == s.containers[j]
            &&& t.collected == s.collected
            &&& t.version != s.version
            &&& t.container_holds(s.containers[i].id, item) == v
        }),
{
    let id = s.containers[i].id;
    let t = s.with_container_item(id, item, v);
    stock_laws::lemma_find_own(s.containers, i);
    assert forall|k: int| 0 <= k < t.containers.len() implies (#[trigger] t.containers[k]).id
        == s.containers[k].id by {}
    stock_laws::lemma_same_ids_find(t.containers, s.containers, id, 0);
}

/// Nothing can be put into a container that is not there.
pub proof fn law_no_container_no_change(s: StateView, id: Seq<char>, item: Seq<char>, v: u32)
    requires
        forall|i: int| 0 <= i < s.containers.len() ==> (#[trigger] s.containers[i]).id != id,
    ensures
        s.with_container_item(id, item, v) == s,
        s.container_holds(id, item) == 0,
{
    inventory::lemma_container_from(s.containers, id, 0);
}

/// What is left where a container is deleted are the others, in their order.
pub proof fn law_others_are_left(cs: Seq<ContainerView>, id: Seq<char>)
    ensures
        inventory::without(cs, id) == cs.filter(|c: ContainerView| c.id != id),
    decreases cs.len(),
{
    reveal(Seq::filter);
    if cs.len() > 0 {
        law_others_are_left(cs.drop_last(), id);
    }
}

/// The containers are drained in their order, but cases before shelves and
/// bags.
pub proof fn law_cases_come_first(cs: Seq<ContainerView>)
    ensures
        inventory::drain_order(cs) == cs.filter(
            |c: ContainerView| c.kind == ContainerKind::Case,
        ).map_values(|c: ContainerView| c.id) + cs.filter(
            |c: ContainerView| c.kind != ContainerKind::Case,
        ).map_values(|c: ContainerView| c.id),
{
    lemma_tier_is_filter(cs, true);
    lemma_tier_is_filter(cs, false);
    let a = |c: ContainerView| c.kind == ContainerKind::Case;
    let b = |c: ContainerView| c.kind != ContainerKind::Case;
    lemma_same_filter(cs, |c: ContainerView| (c.kind == ContainerKind::Case) == true, a);
    lemma_same_filter(cs, |c: ContainerView| (c.kind == ContainerKind::Case) == false, b);
}

proof fn lemma_same_filter<A>(s: Seq<A>, f: spec_fn(A) -> bool, g: spec_fn(A) -> bool)
    requires
        forall|x: A| #[trigger] f(x) == g(x),
    ensures
        s.filter(f) == s.filter(g),
    decreases s.len(),
{
    reveal(Seq::filter);
    if s.len() > 0 {
        lemma_same_filter(s.drop_last(), f, g);
        assert(f(s.last()) == g(s.last()));
    }
}

proof fn lemma_tier_is_filter(cs: Seq<ContainerView>, case: bool)
    ensures
        inventory::ids_by_case(cs, case) == cs.filter(
            |c: ContainerView| (c.kind == ContainerKind::Case) == case,
        ).map_values(|c: ContainerView| c.id),
    decreases cs.len(),
{
    reveal(Seq::filter);
    let f = |c: ContainerView| (c.kind == ContainerKind::Case) == case;
    let g = |c: ContainerView| c.id;
    if cs.len() > 0 {
        lemma_tier_is_filter(cs.drop_last(), case);
    }
    assert(cs.filter(f).map_values(g) =~= inventory::ids_by_case(cs, case));
}

/// A container is touched only where the ones that are drained before it have
/// given everything.
pub proof fn law_drained_one_after_the_other(
    s: StateView,
    ids: Seq<Seq<char>>,
    item: Seq<char>,
    want: int,
    k: int,
    l: int,
)
    requires
        stock_laws::ids_distinct(s.containers),
        ids.no_duplicates(),
        want >= 0,
        0 <= k < ids.len(),
        k < l < ids.len(),
    ensures
        s.draining(ids, item, want).0.container_holds(ids[l], item) < s.container_holds(
            ids[l],
            item,
        ) ==> s.draining(ids, item, want).0.container_holds(ids[k], item) == 0,
{
    lemma_drained(s, ids, item, want, k, l);
}

proof fn lemma_drain_keeps_ids(s: StateView, ids: Seq<Seq<char>>, item: Seq<char>, want: int)
    requires
        want >= 0,
    ensures
        s.draining(ids, item, want).0.containers.len() == s.containers.len(),
        forall|i: int|
            0 <= i < s.containers.len() ==> (#[trigger] s.draining(
                ids,
                item,
                want,
            ).0.containers[i]).id == s.containers[i].id,
        s.draining(ids, item, want).1 >= 0,
    decreases ids.len(),
{
    if ids.len() > 0 {
        lemma_drain_keeps_ids(s, ids.drop_last(), item, want);
        let (t, rest) = s.draining(ids.drop_last(), item, want);
        inventory::lemma_container_from(t.containers, ids.last(), 0);
    }
}

proof fn lemma_put_changes_one(s: StateView, id: Seq<char>, other: Seq<char>, item: Seq<char>, v: u32)
    requires
        stock_laws::ids_distinct(s.containers),
    ensures
        other != id ==> s.with_container_item(id, item, v).container_holds(other, item)
            == s.container_holds(other, item),
        inventory::container_from(s.containers, id, 0) is Some ==> s.with_container_item(
            id,
            item,
            v,
        ).container_holds(id, item) == v,
{
    let t = s.with_container_item(id, item, v);
    inventory::lemma_container_from(s.containers, id, 0);
    inventory::lemma_container_from(s.containers, other, 0);
    assert forall|k: int| 0 <= k < t.containers.len() implies (#[trigger] t.containers[k]).id
        == s.containers[k].id by {}
    stock_laws::lemma_same_ids_find(t.containers, s.containers, id, 0);
    stock_laws::lemma_same_ids_find(t.containers, s.containers, other, 0);
}

proof fn lemma_drained(
    s: StateView,
    ids: Seq<Seq<char>>,
    item: Seq<char>,
    want: int,
    k: int,
    l: int,
)
    requires
        stock_laws::ids_distinct(s.containers),
        ids.no_duplicates(),
        want >= 0,
    ensures
        0 <= k < ids.len() && s.draining(ids, item, want).1 > 0 ==> s.draining(
            ids,
            item,
            want,
        ).0.container_holds(ids[k], item) == 0,
        0 <= k < l < ids.len() && s.draining(ids, item, want).0.container_holds(ids[l], item)
            < s.container_holds(ids[l], item) ==> s.draining(ids, item, want).0.container_holds(
            ids[k],
            item,
        ) == 0,
    decreases ids.len(),
{
    if ids.len() > 0 {
        let init = ids.drop_last();
        let last = ids.last();
        lemma_drained(s, init, item, want, k, l);
        lemma_drain_keeps_ids(s, init, item, want);
        let (t, rest) = s.draining(init, item, want);
        assert(stock_laws::ids_distinct(t.containers)) by {
            assert forall|i: int, j: int| 0 <= i < j < t.containers.len() implies (
            #[trigger] t.containers[i]).id != (#[trigger] t.containers[j]).id by {
                assert(s.containers[i].id != s.containers[j].id);
            }
        }
        assert(!init.contains(last)) by {
            if init.contains(last) {
                let p = choose|p: int| 0 <= p < init.len() && init[p] == last;
                assert(ids[p] == ids[ids.len() - 1]);
            }
        }
        lemma_not_named_not_drained(s, init, item, want, last);
        inventory::lemma_container_from(t.containers, last, 0);
        let have = t.container_holds(last, item);
        let take = if have < rest {
            have as int
        } else {
            rest
        };
        if 0 <= k < ids.len() - 1 {
            assert(ids[k] == init[k]);
            assert(ids[k] != ids[ids.len() - 1]);
            lemma_put_changes_one(t, last, ids[k], item, (have - take) as u32);
        }
        if 0 <= l < ids.len() - 1 {
            assert(ids[l] == init[l]);
            assert(ids[l] != ids[ids.len() - 1]);
            lemma_put_changes_one(t, last, ids[l], item, (have - take) as u32);
        }
        lemma_put_changes_one(t, last, last, item, (have - take) as u32);
    }
}

proof fn lemma_not_named_not_drained(
    s: StateView,
    ids: Seq<Seq<char>>,
    item: Seq<char>,
    want: int,
    id: Seq<char>,
)
    requires
        stock_laws::ids_distinct(s.containers),
        want >= 0,
        !ids.contains(id),
    ensures
        s.draining(ids, item, want).0.container_holds(id, item) == s.container_holds(id, item),
    decreases ids.len(),
{
    if ids.len() > 0 {
        let init = ids.drop_last();
        assert(!init.contains(id)) by {
            if init.contains(id) {
                let p = choose|p: int| 0 <= p < init.len() && init[p] == id;
                assert(ids[p] == id);
            }
        }
        lemma_not_named_not_drained(s, init, item, want, id);
        lemma_drain_keeps_ids(s, init, item, want);
        let (t, rest) = s.draining(init, item, want);
        assert(stock_laws::ids_distinct(t.containers)) by {
            assert forall|i: int, j: int| 0 <= i < j < t.containers.len() implies (
            #[trigger] t.containers[i]).id != (#[trigger] t.containers[j]).id by {
                assert(s.containers[i].id != s.containers[j].id);
            }
        }
        assert(ids[ids.len() - 1] != id);
        let have = t.container_holds(ids.last(), item);
        let take = if have < rest {
            have as int
        } else {
            rest
        };
        lemma_put_changes_one(t, ids.last(), id, item, (have - take) as u32);
    }
}

/// Spending touches no shelf and no bag while a case still holds something,
/// and no container at all while the stash does.
pub proof fn law_cases_pay_before_shelves(s: StateView, item: Seq<char>, qty: u32, i: int, j: int)
    requires
        stock_laws::ids_distinct(s.containers),
        0 <= i < s.containers.len(),
        0 <= j < s.containers.len(),
        s.containers[i].kind == ContainerKind::Case,
        s.containers[j].kind != ContainerKind::Case,
        s.spending(item, qty).container_holds(s.containers[j].id, item) < s.container_holds(
            s.containers[j].id,
            item,
        ),
    ensures
        s.spending(item, qty).container_holds(s.containers[i].id, item) == 0,
        inventory::held(s.spending(item, qty).collected, item) == 0,
{
    let cs = s.containers;
    let have = inventory::held(s.collected, item);
    let s1 = if have > 0 {
        s.with_collected(item, 0)
    } else {
        s
    };
    stock_laws::lemma_drain_order(cs, item);
    let order = inventory::drain_order(cs);
    let a = inventory::ids_by_case(cs, true);
    let b = inventory::ids_by_case(cs, false);
    let k = lemma_in_tier(cs, i, true);
    let l = lemma_in_tier(cs, j, false);
    assert(order[k] == a[k]);
    assert(order[a.len() + l] == b[l]);
    if have < qty {
        assert(s1.container_holds(cs[j].id, item) == s.container_holds(cs[j].id, item));
        law_drained_one_after_the_other(s1, order, item, qty - have, k, a.len() + l);
        let other = item.push('x');
        assert(other.len() != item.len());
        stock_laws::lemma_draining(s1, order, item, qty - have, other);
    }
}

proof fn lemma_in_tier(cs: Seq<ContainerView>, i: int, case: bool) -> (k: int)
    requires
        0 <= i < cs.len(),
        (cs[i].kind == ContainerKind::Case) == case,
    ensures
        0 <= k < inventory::ids_by_case(cs, case).len(),
        inventory::ids_by_case(cs, case)[k] == cs[i].id,
    decreases cs.len(),
{
    if i == cs.len() - 1 {
        inventory::ids_by_case(cs, case).len() - 1
    } else {
        assert(cs.drop_last()[i] == cs[i]);
        lemma_in_tier(cs.drop_last(), i, case)
    }
}

/// A container that is changed is what it was changed to; the others, the stash
/// and the wishlist stay, and the version moves just where something changed.
pub proof fn law_changing_a_container(s: StateView, i: int, c: ContainerView, j: int)
    requires
        0 <= i < s.containers.len(),
        0 <= j < s.containers.len(),
        i != j,
    ensures
        s.with_container(i, c).containers.len() == s.containers.len(),
        s.with_container(i, c).containers[i] == c,
        s.with_container(i, c).containers[j] == s.containers[j],
        s.with_container(i, c).collected == s.collected,
        s.with_container(i, c).tracking == s.tracking,
        s.with_container(i, c).completed == s.completed,
        s.with_container(i, c).version == s.version <==> s.containers[i] == c,
        s.containers[i] == c ==> s.with_container(i, c) == s,
{
}

/// Weights are compared as floats are: each is the same as itself unless it is
/// no number, and two that differ in their bits are the same only where both
/// are nought.
pub proof fn law_weights(a: Kilograms, b: Kilograms)
    ensures
        a.weighs(a) <==> a.bits <= 0x7f80_0000 || 0x8000_0000 <= a.bits <= 0xff80_0000,
        a.weighs(b) == b.weighs(a),
        a.bits != b.bits ==> (a.weighs(b) <==> a.bits % 0x8000_0000 == 0 && b.bits % 0x8000_0000
            == 0),
        a.bits == b.bits ==> a.weighs(b) == a.weighs(a),
        data::same_weight(None, None),
        !data::same_weight(Some(a), None) && !data::same_weight(None, Some(a)),
        data::same_weight(Some(a), Some(b)) == a.weighs(b),
{
}

} // verus!
