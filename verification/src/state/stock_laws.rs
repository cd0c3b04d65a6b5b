//! What holds of the stash and the containers whatever is done with them.

use crate::ids;
use crate::state::inventory;
use crate::text;
use crate::state::{ContainerKind, ContainerView, StateView};
use vstd::prelude::*;

verus! {

/// Whether no two containers have the same id.
pub open spec fn ids_distinct(cs: Seq<ContainerView>) -> bool {
    forall|i: int, j: int| 0 <= i < j < cs.len() ==> (#[trigger] cs[i]).id != (#[trigger] cs[j]).id
}

/// How many of `item` the containers `ids` hold together.
pub open spec fn held_by(cs: Seq<ContainerView>, ids: Seq<Seq<char>>, item: Seq<char>) -> nat
    decreases ids.len(),
{
    if ids.len() == 0 {
        0
    } else {
        held_by(cs, ids.drop_last(), item) + match inventory::container_from(cs, ids.last(), 0) {
            Some(i) => inventory::held(cs[i].contents, item) as nat,
            None => 0,
        }
    }
}

pub(crate) proof fn lemma_find_own(cs: Seq<ContainerView>, i: int)
    requires
        ids_distinct(cs),
        0 <= i < cs.len(),
    ensures
        inventory::container_from(cs, cs[i].id, 0) == Some(i),
{
    inventory::lemma_container_from(cs, cs[i].id, 0);
    match inventory::container_from(cs, cs[i].id, 0) {
        Some(j) => {
            if j < i {
                assert(cs[j].id != cs[i].id);
            } else if i < j {
                assert(cs[i].id != cs[j].id);
            }
        },
        None => {
            assert(cs[i].id != cs[i].id);
        },
    }
}

proof fn lemma_update_sum(cs: Seq<ContainerView>, i: int, c: ContainerView, item: Seq<char>)
    requires
        0 <= i < cs.len(),
    ensures
        inventory::held_in_all(cs.update(i, c), item) == inventory::held_in_all(cs, item) - inventory::held(cs[i].contents, item)
            + inventory::held(c.contents, item),
        inventory::held_in_all(cs, item) >= inventory::held(cs[i].contents, item),
    decreases cs.len(),
{
    if i == cs.len() - 1 {
        assert(cs.update(i, c).drop_last() =~= cs.drop_last());
    } else {
        lemma_update_sum(cs.drop_last(), i, c, item);
        assert(cs.update(i, c).drop_last() =~= cs.drop_last().update(i, c));
    }
}

pub(crate) proof fn lemma_same_ids_find(a: Seq<ContainerView>, b: Seq<ContainerView>, id: Seq<char>, from: int)
    requires
        a.len() == b.len(),
        forall|i: int| 0 <= i < a.len() ==> (#[trigger] a[i]).id == b[i].id,
        0 <= from,
    ensures
        inventory::container_from(a, id, from) == inventory::container_from(b, id, from),
    decreases a.len() - from,
{
    if from < a.len() {
        assert(a[from].id == b[from].id);
        lemma_same_ids_find(a, b, id, from + 1);
    }
}

pub(crate) proof fn lemma_draining(s: StateView, ids: Seq<Seq<char>>, item: Seq<char>, want: int, other: Seq<char>)
    requires
        ids_distinct(s.containers),
        ids.no_duplicates(),
        want >= 0,
        other != item,
    ensures
        ({
            let (t, rest) = s.draining(ids, item, want);
            let have = held_by(s.containers, ids, item);
            &&& t.collected == s.collected
            &&& t.containers.len() == s.containers.len()
            &&& forall|i: int|
                0 <= i < s.containers.len() ==> {
                    &&& (#[trigger] t.containers[i]).id == s.containers[i].id
                    &&& t.containers[i].kind == s.containers[i].kind
                    &&& !ids.contains(s.containers[i].id) ==> t.containers[i] == s.containers[i]
                }
            &&& rest == if have >= want {
                0
            } else {
                want - have
            }
            &&& inventory::held_in_all(t.containers, item) == inventory::held_in_all(s.containers, item) - (want - rest)
            &&& inventory::held_in_all(t.containers, other) == inventory::held_in_all(s.containers, other)
        }),
    decreases ids.len(),
{
    if ids.len() > 0 {
        let init = ids.drop_last();
        let last = ids.last();
        assert(init.no_duplicates()) by {
            assert forall|i: int, j: int|
                0 <= i < init.len() && 0 <= j < init.len() && i != j implies init[i] != init[j] by {
                assert(ids[i] != ids[j]);
            }
        }
        assert(!init.contains(last)) by {
            if init.contains(last) {
                let j = choose|j: int| 0 <= j < init.len() && init[j] == last;
                assert(ids[j] == ids[ids.len() - 1]);
            }
        }
        assert(ids =~= init.push(last));
        ids::lemma_contains_push_any(init, last);
        lemma_draining(s, init, item, want, other);
        let (t1, rest1) = s.draining(init, item, want);
        let (t, rest) = s.draining(ids, item, want);
        lemma_same_ids_find(t1.containers, s.containers, last, 0);
        inventory::lemma_container_from(s.containers, last, 0);
        match inventory::container_from(s.containers, last, 0) {
            None => {},
            Some(i) => {
                assert(t1.containers[i] == s.containers[i]);
                let have = inventory::held(s.containers[i].contents, item);
                let take: int = if have < rest1 {
                    have as int
                } else {
                    rest1
                };
                if take > 0 {
                    let c = ContainerView {
                        contents: inventory::holding(t1.containers[i].contents, item, (have - take) as u32),
                        ..t1.containers[i]
                    };
                    assert(t.containers == t1.containers.update(i, c));
                    lemma_update_sum(t1.containers, i, c, item);
                    lemma_update_sum(t1.containers, i, c, other);
                }
            },
        }
    }
}

proof fn lemma_held_by_concat(cs: Seq<ContainerView>, a: Seq<Seq<char>>, b: Seq<Seq<char>>, item: Seq<char>)
    ensures
        held_by(cs, a + b, item) == held_by(cs, a, item) + held_by(cs, b, item),
    decreases b.len(),
{
    if b.len() == 0 {
        assert(a + b =~= a);
    } else {
        assert((a + b).drop_last() =~= a + b.drop_last());
        assert((a + b).last() == b.last());
        lemma_held_by_concat(cs, a, b.drop_last(), item);
    }
}

proof fn lemma_tier(cs: Seq<ContainerView>, n: int, case: bool)
    requires
        ids_distinct(cs),
        0 <= n <= cs.len(),
    ensures
        inventory::ids_by_case(cs.take(n), case).no_duplicates(),
        forall|id: Seq<char>| #[trigger]
            inventory::ids_by_case(cs.take(n), case).contains(id) ==> exists|k: int|
                0 <= k < n && (#[trigger] cs[k]).id == id && (cs[k].kind == ContainerKind::Case)
                    == case,
    decreases n,
{
    if n > 0 {
        let ids = inventory::ids_by_case(cs.take(n), case);
        let before = inventory::ids_by_case(cs.take(n - 1), case);
        assert(cs.take(n).drop_last() =~= cs.take(n - 1));
        assert(cs.take(n).last() == cs[n - 1]);
        lemma_tier(cs, n - 1, case);
        ids::lemma_contains_push_any(before, cs[n - 1].id);
        assert forall|id: Seq<char>| #[trigger] ids.contains(id) implies exists|k: int|
            0 <= k < n && (#[trigger] cs[k]).id == id && (cs[k].kind == ContainerKind::Case)
                == case by {
            if before.contains(id) {
                let k = choose|k: int|
                    0 <= k < n - 1 && (#[trigger] cs[k]).id == id && (cs[k].kind
                        == ContainerKind::Case) == case;
                assert(cs[k].id == id);
            } else {
                assert(cs[n - 1].id == id);
            }
        }
        if (cs[n - 1].kind == ContainerKind::Case) == case {
            assert forall|i: int, j: int|
                0 <= i < ids.len() && 0 <= j < ids.len() && i != j implies ids[i] != ids[j] by {
                let x = if i < j {
                    i
                } else {
                    j
                };
                let y = if i < j {
                    j
                } else {
                    i
                };
                if y == before.len() {
                    assert(before.contains(before[x]));
                    let k = choose|k: int|
                        0 <= k < n - 1 && (#[trigger] cs[k]).id == before[x] && (cs[k].kind
                            == ContainerKind::Case) == case;
                    assert(cs[k].id != cs[n - 1].id);
                } else {
                    assert(before[i] != before[j]);
                }
            }
        }
    }
}

proof fn lemma_tiers_hold_all(cs: Seq<ContainerView>, n: int, item: Seq<char>)
    requires
        ids_distinct(cs),
        0 <= n <= cs.len(),
    ensures
        held_by(cs, inventory::ids_by_case(cs.take(n), true), item) + held_by(
            cs,
            inventory::ids_by_case(cs.take(n), false),
            item,
        ) == inventory::held_in_all(cs.take(n), item),
    decreases n,
{
    if n > 0 {
        lemma_tiers_hold_all(cs, n - 1, item);
        assert(cs.take(n).drop_last() =~= cs.take(n - 1));
        assert(cs.take(n).last() == cs[n - 1]);
        lemma_find_own(cs, n - 1);
        let case = cs[n - 1].kind == ContainerKind::Case;
        let before = inventory::ids_by_case(cs.take(n - 1), case);
        assert(before.push(cs[n - 1].id).drop_last() =~= before);
    }
}

pub(crate) proof fn lemma_drain_order(cs: Seq<ContainerView>, item: Seq<char>)
    requires
        ids_distinct(cs),
    ensures
        inventory::drain_order(cs).no_duplicates(),
        held_by(cs, inventory::drain_order(cs), item) == inventory::held_in_all(cs, item),
{
    let n = cs.len() as int;
    let a = inventory::ids_by_case(cs, true);
    let b = inventory::ids_by_case(cs, false);
    let ab = inventory::drain_order(cs);
    assert(cs.take(n) =~= cs);
    lemma_tier(cs, n, true);
    lemma_tier(cs, n, false);
    lemma_tiers_hold_all(cs, n, item);
    lemma_held_by_concat(cs, a, b, item);
    assert forall|i: int, j: int| 0 <= i < ab.len() && 0 <= j < ab.len() && i != j implies ab[i]
        != ab[j] by {
        let x = if i < j {
            i
        } else {
            j
        };
        let y = if i < j {
            j
        } else {
            i
        };
        if x < a.len() && y >= a.len() {
            assert(a.contains(a[x]));
            assert(b.contains(b[y - a.len()]));
            let k = choose|k: int|
                0 <= k < n && (#[trigger] cs[k]).id == a[x] && (cs[k].kind == ContainerKind::Case)
                    == true;
            let l = choose|l: int|
                0 <= l < n && (#[trigger] cs[l]).id == b[y - a.len()] && (cs[l].kind
                    == ContainerKind::Case) == false;
            if k < l {
                assert(cs[k].id != cs[l].id);
            } else {
                assert(cs[l].id != cs[k].id);
            }
        } else if x >= a.len() {
            assert(b[x - a.len()] != b[y - a.len()]);
        } else {
            assert(a[x] != a[y]);
        }
    }
}

/// Spending takes exactly what is asked for, or all there is where that is
/// less: the stash pays first, no other item is touched, and the containers
/// keep their ids.
pub proof fn law_spending(s: StateView, item: Seq<char>, qty: u32, other: Seq<char>)
    requires
        ids_distinct(s.containers),
        other != item,
    ensures
        ({
            let t = s.spending(item, qty);
            let stash = inventory::held(s.collected, item);
            &&& t.owned(item) == if s.owned(item) >= qty {
                s.owned(item) - qty
            } else {
                0
            }
            &&& t.owned(other) == s.owned(other)
            &&& inventory::held(t.collected, item) == if stash >= qty {
                stash - qty
            } else {
                0
            }
            &&& stash >= qty ==> t.containers == s.containers
            &&& ids_distinct(t.containers)
        }),
{
    let have = inventory::held(s.collected, item);
    if have < qty {
        let s1 = if have > 0 {
            s.with_collected(item, 0)
        } else {
            s
        };
        assert(s1.containers == s.containers);
        lemma_drain_order(s.containers, item);
        lemma_draining(s1, inventory::drain_order(s1.containers), item, qty - have, other);
        let t = s.spending(item, qty);
        assert(ids_distinct(t.containers)) by {
            assert forall|i: int, j: int| 0 <= i < j < t.containers.len() implies (
            #[trigger] t.containers[i]).id != (#[trigger] t.containers[j]).id by {
                assert(s.containers[i].id != s.containers[j].id);
            }
        }
    }
}

/// Where a whole recipe of distinct items is owned, paying for it takes
/// exactly its cost of every item.
pub proof fn law_paying_takes_the_cost(s: StateView, reqs: Seq<crate::data::ReqView>, n: int)
    requires
        ids_distinct(s.containers),
        s.stocked(reqs),
        forall|i: int, j: int|
            0 <= i < j < reqs.len() ==> (#[trigger] reqs[i]).item != (#[trigger] reqs[j]).item,
        0 <= n < reqs.len(),
    ensures
        s.spending_all(reqs).owned(reqs[n].item) == s.owned(reqs[n].item) - reqs[n].quantity,
{
    lemma_paying(s, reqs, reqs.len() as int, n);
    assert(reqs.take(reqs.len() as int) =~= reqs);
}

proof fn lemma_paying(s: StateView, reqs: Seq<crate::data::ReqView>, k: int, n: int)
    requires
        ids_distinct(s.containers),
        s.stocked(reqs),
        forall|i: int, j: int|
            0 <= i < j < reqs.len() ==> (#[trigger] reqs[i]).item != (#[trigger] reqs[j]).item,
        0 <= n < reqs.len(),
        0 <= k <= reqs.len(),
    ensures
        ids_distinct(s.spending_all(reqs.take(k)).containers),
        s.spending_all(reqs.take(k)).owned(reqs[n].item) == if n < k {
            s.owned(reqs[n].item) - reqs[n].quantity
        } else {
            s.owned(reqs[n].item) as int
        },
    decreases k,
{
    if k > 0 {
        lemma_paying(s, reqs, k - 1, n);
        let t = s.spending_all(reqs.take(k - 1));
        assert(reqs.take(k).drop_last() =~= reqs.take(k - 1));
        assert(reqs.take(k).last() == reqs[k - 1]);
        let r = reqs[k - 1];
        assert(s.owned_total(reqs[n].item) >= reqs[n].quantity);
        if n == k - 1 {
            let other = r.item.push('x');
            assert(other.len() != r.item.len());
            law_spending(t, r.item, r.quantity, other);
        } else {
            if n < k - 1 {
                assert(reqs[n].item != reqs[k - 1].item);
            } else {
                assert(reqs[k - 1].item != reqs[n].item);
            }
            law_spending(t, r.item, r.quantity, reqs[n].item);
        }
    }
}

impl StateView {
    /// Whether every container carries an id that was minted for it alone:
    /// the counter's, or the fixed one once that was seeded.
    pub open spec fn ids_in_order(self) -> bool {
        &&& ids_distinct(self.containers)
        &&& forall|i: int|
            0 <= i < self.containers.len() ==> self.id_accounted((#[trigger] self.containers[i]).id)
    }

    /// Whether `id` is the fixed id of a seeded storage, or one that the
    /// counter has passed.
    pub open spec fn id_accounted(self, id: Seq<char>) -> bool {
        ||| id == "gunsmith-storage"@ && self.gunsmith_storage_seeded
        ||| exists|k: u64| 1 <= k <= self.next_container_seq && id == #[trigger] inventory::minted_id(k)
    }
}

proof fn lemma_minted_ids(a: u64, b: u64)
    ensures
        inventory::minted_id(a) == inventory::minted_id(b) ==> a == b,
        inventory::minted_id(a) != "gunsmith-storage"@,
{
    reveal_strlit("ctr-");
    reveal_strlit("gunsmith-storage");
    if inventory::minted_id(a) == inventory::minted_id(b) {
        assert(text::decimal(a as nat) =~= inventory::minted_id(a).skip(4));
        assert(text::decimal(b as nat) =~= inventory::minted_id(b).skip(4));
        text::lemma_decimal_reads_back(a as nat, u64::MAX as nat);
        text::lemma_decimal_reads_back(b as nat, u64::MAX as nat);
    }
    assert(inventory::minted_id(a)[0] == 'c');
    assert("gunsmith-storage"@[0] == 'g');
}

/// A freshly minted container id is carried by no container, nor is it the
/// fixed one; after it every id is still accounted for.
pub proof fn law_minted_ids_are_fresh(s: StateView, c: ContainerView)
    requires
        s.ids_in_order(),
        s.next_container_seq < u64::MAX,
        c.id == inventory::minted_id((s.next_container_seq + 1) as u64),
    ensures
        forall|i: int| 0 <= i < s.containers.len() ==> (#[trigger] s.containers[i]).id != c.id,
        c.id != "gunsmith-storage"@,
        (StateView {
            next_container_seq: (s.next_container_seq + 1) as u64,
            containers: s.containers.push(c),
            ..s
        }).ids_in_order(),
{
    let next = (s.next_container_seq + 1) as u64;
    lemma_minted_ids(next, next);
    assert forall|i: int| 0 <= i < s.containers.len() implies (#[trigger] s.containers[i]).id
        != c.id by {
        let id = s.containers[i].id;
        assert(s.id_accounted(id));
        if id != "gunsmith-storage"@ {
            let k = choose|k: u64| 1 <= k <= s.next_container_seq && id == #[trigger] inventory::minted_id(k);
            lemma_minted_ids(k, next);
        }
    }
    let t = StateView {
        next_container_seq: next,
        containers: s.containers.push(c),
        ..s
    };
    assert forall|i: int| 0 <= i < t.containers.len() implies t.id_accounted(
        (#[trigger] t.containers[i]).id,
    ) by {
        if i < s.containers.len() {
            let id = s.containers[i].id;
            assert(s.id_accounted(id));
            if !(id == "gunsmith-storage"@ && s.gunsmith_storage_seeded) {
                let k = choose|k: u64|
                    1 <= k <= s.next_container_seq && id == #[trigger] inventory::minted_id(k);
                assert(1 <= k <= t.next_container_seq && id == inventory::minted_id(k));
            }
        } else {
            assert(1 <= next <= t.next_container_seq && c.id == inventory::minted_id(next));
        }
    }
}

/// Deleting containers leaves every other one, and every id accounted for, so
/// that a deleted id is never handed out again.
pub proof fn law_deleting_keeps_the_rest(s: StateView, id: Seq<char>)
    requires
        s.ids_in_order(),
    ensures
        (StateView { containers: inventory::without(s.containers, id), ..s }).ids_in_order(),
        inventory::container_from(inventory::without(s.containers, id), id, 0) is None,
        forall|i: int|
            0 <= i < s.containers.len() && (#[trigger] s.containers[i]).id != id ==> inventory::without(
                s.containers,
                id,
            ).contains(s.containers[i]),
{
    lemma_without(s.containers, id);
    let kept = inventory::without(s.containers, id);
    let t = StateView { containers: kept, ..s };
    assert(ids_distinct(kept)) by {
        lemma_without_distinct(s.containers, id);
    }
    assert forall|i: int| 0 <= i < kept.len() implies t.id_accounted((#[trigger] kept[i]).id) by {
        assert(kept.contains(kept[i]));
        let j = choose|j: int| 0 <= j < s.containers.len() && s.containers[j] == kept[i];
        assert(s.id_accounted(s.containers[j].id));
        if !(kept[i].id == "gunsmith-storage"@ && s.gunsmith_storage_seeded) {
            let k = choose|k: u64|
                1 <= k <= s.next_container_seq && kept[i].id == #[trigger] inventory::minted_id(k);
            assert(1 <= k <= t.next_container_seq && kept[i].id == inventory::minted_id(k));
        }
    }
    inventory::lemma_container_from(kept, id, 0);
    if inventory::container_from(kept, id, 0) is Some {
        let i = inventory::container_from(kept, id, 0).unwrap();
        assert(kept.contains(kept[i]));
    }
}

proof fn lemma_without(cs: Seq<ContainerView>, id: Seq<char>)
    ensures
        forall|c: ContainerView| #[trigger]
            inventory::without(cs, id).contains(c) <==> cs.contains(c) && c.id != id,
        inventory::without(cs, id).len() <= cs.len(),
    decreases cs.len(),
{
    if cs.len() > 0 {
        let init = cs.drop_last();
        lemma_without(init, id);
        assert(cs =~= init.push(cs.last()));
        ids::lemma_contains_push_any(init, cs.last());
        ids::lemma_contains_push_any(inventory::without(init, id), cs.last());
    }
}

proof fn lemma_without_distinct(cs: Seq<ContainerView>, id: Seq<char>)
    requires
        ids_distinct(cs),
    ensures
        ids_distinct(inventory::without(cs, id)),
    decreases cs.len(),
{
    if cs.len() > 0 {
        let init = cs.drop_last();
        assert(ids_distinct(init)) by {
            assert forall|i: int, j: int| 0 <= i < j < init.len() implies (#[trigger] init[i]).id
                != (#[trigger] init[j]).id by {
                assert(cs[i].id != cs[j].id);
            }
        }
        lemma_without_distinct(init, id);
        lemma_without(init, id);
        let before = inventory::without(init, id);
        let all = inventory::without(cs, id);
        assert forall|i: int, j: int| 0 <= i < j < all.len() implies (#[trigger] all[i]).id != (
        #[trigger] all[j]).id by {
            if j < before.len() {
                assert(before[i].id != before[j].id);
            } else {
                assert(before.contains(before[i]));
                let k = choose|k: int| 0 <= k < init.len() && init[k] == before[i];
                assert(cs[k].id != cs[cs.len() - 1].id);
            }
        }
    }
}

/// The built-in storage is seeded at most once: after it the flag is set,
/// and deleting the container does not clear the flag.
pub proof fn law_seeded_storage_stays_deleted(s: StateView, id: Seq<char>)
    requires
        s.gunsmith_storage_seeded,
    ensures
        (StateView { containers: inventory::without(s.containers, id), ..s }).gunsmith_storage_seeded,
        forall|fresh: StateView| #[trigger]
            fresh.merged(s.persisted()).gunsmith_storage_seeded,
{
}

} // verus!
