//! The stash and the secondary containers.

use crate::data;
use crate::data::{ItemId, Kilograms};
use crate::ids;
use crate::ids::IdMap;
use crate::state;
use crate::state::{AppState, Container, ContainerId, ContainerKind, ContainerView, StateView};
use crate::text;
use crate::text::push_decimal;
use vstd::prelude::*;
use vstd::string::*;

verus! {

/// Fixed id of the built-in gunsmith storage. Minted ids start with `ctr-`,
/// so none can be this one.
pub const GUNSMITH_STORAGE_ID: &'static str = "gunsmith-storage";

/// The weight cap of the gunsmith storage: the bits of thirty kilograms.
pub const GUNSMITH_STORAGE_CAP: u32 = 0x41f0_0000;

/// How many of `item` the store `m` holds.
pub open spec fn held(m: Map<Seq<char>, u32>, item: Seq<char>) -> u32 {
    if m.contains_key(item) {
        m[item]
    } else {
        0
    }
}

/// The store `m` with `v` of `item`: none at all leaves no entry.
pub open spec fn holding(m: Map<Seq<char>, u32>, item: Seq<char>, v: u32) -> Map<Seq<char>, u32> {
    if v == 0 {
        m.remove(item)
    } else {
        m.insert(item, v)
    }
}

/// A count moved by `delta`: never below zero, and modulo 2^32.
pub open spec fn moved(cur: u32, delta: int) -> u32 {
    if cur + delta <= 0 {
        0
    } else {
        ((cur + delta) % 0x1_0000_0000) as u32
    }
}

/// How many of `item` the containers hold together.
pub open spec fn held_in_all(cs: Seq<ContainerView>, item: Seq<char>) -> nat
    decreases cs.len(),
{
    if cs.len() == 0 {
        0
    } else {
        held_in_all(cs.drop_last(), item) + held(cs.last().contents, item) as nat
    }
}

/// The first container with the id `id` from position `from` on.
pub open spec fn container_from(cs: Seq<ContainerView>, id: Seq<char>, from: int) -> Option<int>
    decreases cs.len() - from,
{
    if from < 0 || from >= cs.len() {
        None
    } else if cs[from].id == id {
        Some(from)
    } else {
        container_from(cs, id, from + 1)
    }
}

/// What is found under an id has that id.
pub proof fn lemma_container_from(cs: Seq<ContainerView>, id: Seq<char>, from: int)
    requires
        0 <= from,
    ensures
        match container_from(cs, id, from) {
            Some(i) => {
                &&& from <= i < cs.len()
                &&& cs[i].id == id
                &&& forall|j: int| from <= j < i ==> (#[trigger] cs[j]).id != id
            },
            None => forall|j: int| from <= j < cs.len() ==> (#[trigger] cs[j]).id != id,
        },
    decreases cs.len() - from,
{
    if from < cs.len() && cs[from].id != id {
        lemma_container_from(cs, id, from + 1);
    }
}

/// The containers whose id is not `id`, in order.
pub open spec fn without(cs: Seq<ContainerView>, id: Seq<char>) -> Seq<ContainerView>
    decreases cs.len(),
{
    if cs.len() == 0 {
        Seq::empty()
    } else if cs.last().id == id {
        without(cs.drop_last(), id)
    } else {
        without(cs.drop_last(), id).push(cs.last())
    }
}

/// The ids of the containers that are cases (or of those that are not), in
/// order.
pub open spec fn ids_by_case(cs: Seq<ContainerView>, case: bool) -> Seq<Seq<char>>
    decreases cs.len(),
{
    if cs.len() == 0 {
        Seq::empty()
    } else if (cs.last().kind == ContainerKind::Case) == case {
        ids_by_case(cs.drop_last(), case).push(cs.last().id)
    } else {
        ids_by_case(cs.drop_last(), case)
    }
}

/// The order in which containers are drained: cases before shelves and bags,
/// and within each of the two in the order of the list.
pub open spec fn drain_order(cs: Seq<ContainerView>) -> Seq<Seq<char>> {
    ids_by_case(cs, true) + ids_by_case(cs, false)
}

/// The id that the counter mints at `n`.
pub open spec fn minted_id(n: u64) -> Seq<char> {
    "ctr-"@ + text::decimal(n as nat)
}

impl StateView {
    /// How many of `item` the stash and all containers hold together.
    pub open spec fn owned(self, item: Seq<char>) -> nat {
        held(self.collected, item) as nat + held_in_all(self.containers, item)
    }

    /// The same, where more than fits in the count reads as the largest.
    pub open spec fn owned_total(self, item: Seq<char>) -> u32 {
        if self.owned(item) > u32::MAX {
            u32::MAX
        } else {
            self.owned(item) as u32
        }
    }

    /// The state with the stash holding `v` of `item`.
    pub open spec fn with_collected(self, item: Seq<char>, v: u32) -> StateView {
        StateView { collected: holding(self.collected, item, v), ..self }.bumped()
    }

    /// How many of `item` the container `id` holds.
    pub open spec fn container_holds(self, id: Seq<char>, item: Seq<char>) -> u32 {
        match container_from(self.containers, id, 0) {
            Some(i) => held(self.containers[i].contents, item),
            None => 0,
        }
    }

    /// The state with the first container `id` holding `v` of `item`.
    pub open spec fn with_container_item(self, id: Seq<char>, item: Seq<char>, v: u32) -> StateView {
        match container_from(self.containers, id, 0) {
            Some(i) => StateView {
                containers: self.containers.update(
                    i,
                    ContainerView {
                        contents: holding(self.containers[i].contents, item, v),
                        ..self.containers[i]
                    },
                ),
                ..self
            }.bumped(),
            None => self,
        }
    }

    /// Drains up to `want` of `item` from the containers `ids`, in order: the
    /// state after it, and how many are still wanted.
    pub open spec fn draining(self, ids: Seq<Seq<char>>, item: Seq<char>, want: int) -> (
        StateView,
        int,
    )
        decreases ids.len(),
    {
        if ids.len() == 0 {
            (self, want)
        } else {
            let (s, rest) = self.draining(ids.drop_last(), item, want);
            let have = s.container_holds(ids.last(), item);
            let take = if have < rest {
                have as int
            } else {
                rest
            };
            if take > 0 {
                (s.with_container_item(ids.last(), item, (have - take) as u32), rest - take)
            } else {
                (s, rest)
            }
        }
    }

    /// The state with up to `qty` of `item` spent: from the stash first, then
    /// from the containers in their drain order.
    pub open spec fn spending(self, item: Seq<char>, qty: u32) -> StateView {
        let have = held(self.collected, item);
        if have >= qty {
            if qty > 0 {
                self.with_collected(item, (have - qty) as u32)
            } else {
                self
            }
        } else {
            let s = if have > 0 {
                self.with_collected(item, 0)
            } else {
                self
            };
            s.draining(drain_order(s.containers), item, qty - have).0
        }
    }
}

impl AppState {
    /// Makes the stash hold `value` of `item`.
    pub fn set_collected(&mut self, item: &ItemId, value: u32)
        ensures
            final(self)@ == old(self)@.with_collected(item@, value),
    {
        if value == 0 {
            self.collected.remove(item.as_str());
        } else {
            self.collected.insert(item.clone(), value);
        }
        self.bump();
    }

    fn stash_count(&self, item: &ItemId) -> (n: u32)
        ensures
            n == held(self@.collected, item@),
    {
        match self.collected.get(item.as_str()) {
            Some(v) => *v,
            None => 0,
        }
    }

    /// Moves the count of `item` in the stash by `delta`, never below zero.
    pub fn adjust_collected(&mut self, item: &ItemId, delta: i64)
        requires
            held(old(self)@.collected, item@) + delta <= i64::MAX,
        ensures
            final(self)@ == old(self)@.with_collected(
                item@,
                moved(held(old(self)@.collected, item@), delta as int),
            ),
    {
        let cur: u32 = self.stash_count(item);
        let next: u32 = moved_count(cur, delta);
        self.set_collected(item, next);
    }

    /// A click on an item in the overlay: counts one up, or starts over at
    /// zero where the target is reached. The new count, and whether it
    /// started over.
    pub fn cycle_collected(&mut self, item: &ItemId, target: u32) -> (r: (u32, bool))
        requires
            target == 0 ==> held(old(self)@.collected, item@) < u32::MAX,
        ensures
            ({
                let cur = held(old(self)@.collected, item@);
                let reset = target != 0 && cur >= target;
                let next = if reset {
                    0u32
                } else {
                    (cur + 1) as u32
                };
                &&& r == (next, reset)
                &&& final(self)@ == old(self)@.with_collected(item@, next)
            }),
    {
        let cur: u32 = self.stash_count(item);
        if target == 0 {
            self.set_collected(item, cur + 1);
            return (cur + 1, false);
        }
        if cur >= target {
            self.set_collected(item, 0);
            (0, true)
        } else {
            self.set_collected(item, cur + 1);
            (cur + 1, false)
        }
    }

    /// How many of an item the user owns: stash and every container. A sum
    /// that does not fit reads as the largest count.
    pub fn owned_total(&self, item_id: &ItemId) -> (n: u32)
        ensures
            n == self@.owned_total(item_id@),
    {
        let mut total: u32 = self.stash_count(item_id);
        let ghost cs = self@.containers;
        let ghost stash: nat = held(self@.collected, item_id@) as nat;
        let mut i: usize = 0;
        assert(cs.take(0) =~= Seq::<ContainerView>::empty());
        while i < self.containers.len()
            invariant
                i <= self.containers@.len(),
                cs == state::containers_view(self.containers@),
                stash == held(self@.collected, item_id@),
                total == if stash + held_in_all(cs.take(i as int), item_id@) > u32::MAX {
                    u32::MAX as nat
                } else {
                    stash + held_in_all(cs.take(i as int), item_id@)
                },
            decreases self.containers@.len() - i,
        {
            assert(cs.take(i + 1).drop_last() =~= cs.take(i as int));
            assert(cs.take(i + 1).last() == self.containers@[i as int]@);
            let n: u32 = match self.containers[i].contents.get(item_id.as_str()) {
                Some(v) => *v,
                None => 0,
            };
            total = total.saturating_add(n);
            i += 1;
        }
        assert(cs.take(cs.len() as int) =~= cs);
        total
    }

    /// A fresh container id.
    fn mint_container_id(&mut self) -> (id: ContainerId)
        requires
            old(self)@.next_container_seq < u64::MAX,
        ensures
            id@ == minted_id((old(self)@.next_container_seq + 1) as u64),
            final(self)@ == (StateView {
                next_container_seq: (old(self)@.next_container_seq + 1) as u64,
                ..old(self)@
            }),
    {
        self.next_container_seq = self.next_container_seq + 1;
        let mut id: String = String::new();
        id.append("ctr-");
        push_decimal(&mut id, self.next_container_seq);
        assert(id@ =~= minted_id(self.next_container_seq));
        id
    }

    /// Adds an empty bag named `name`, and returns its fresh id.
    pub fn create_container(&mut self, name: String) -> (id: ContainerId)
        requires
            old(self)@.next_container_seq < u64::MAX,
        ensures
            id@ == minted_id((old(self)@.next_container_seq + 1) as u64),
            final(self)@ == (StateView {
                next_container_seq: (old(self)@.next_container_seq + 1) as u64,
                containers: old(self)@.containers.push(
                    ContainerView {
                        id: id@,
                        name: name@,
                        contents: Map::empty(),
                        icon: None,
                        kind: ContainerKind::Bag,
                        capacity_kg: None,
                    },
                ),
                ..old(self)@
            }).bumped(),
    {
        let id: ContainerId = self.mint_container_id();
        let ghost before = self@.containers;
        self.containers.push(
            Container {
                id: id.clone(),
                name,
                contents: IdMap::new(),
                icon: None,
                kind: ContainerKind::default(),
                capacity_kg: None,
            },
        );
        assert(self@.containers =~= before.push(self.containers@.last()@));
        self.bump();
        id
    }

    /// Adds the built-in gunsmith storage, once per profile. Whether it did.
    pub fn seed_gunsmith_storage(&mut self) -> (seeded: bool)
        ensures
            seeded == !old(self)@.gunsmith_storage_seeded,
            final(self)@ == if old(self)@.gunsmith_storage_seeded {
                old(self)@
            } else {
                (StateView {
                    containers: old(self)@.containers.push(
                        ContainerView {
                            id: GUNSMITH_STORAGE_ID@,
                            name: "Gunsmith storage"@,
                            contents: Map::empty(),
                            icon: Some("box_gunsmith"@),
                            kind: ContainerKind::Case,
                            capacity_kg: Some(Kilograms { bits: GUNSMITH_STORAGE_CAP }),
                        },
                    ),
                    gunsmith_storage_seeded: true,
                    ..old(self)@
                }).bumped()
            },
    {
        if self.gunsmith_storage_seeded {
            return false;
        }
        let ghost before = self@.containers;
        self.containers.push(
            Container {
                id: GUNSMITH_STORAGE_ID.to_owned(),
                name: "Gunsmith storage".to_owned(),
                contents: IdMap::new(),
                icon: Some("box_gunsmith".to_owned()),
                kind: ContainerKind::Case,
                capacity_kg: Some(Kilograms { bits: GUNSMITH_STORAGE_CAP }),
            },
        );
        assert(self@.containers =~= before.push(self.containers@.last()@));
        self.gunsmith_storage_seeded = true;
        self.bump();
        true
    }

    fn container_position(&self, id: &ContainerId) -> (r: Option<usize>)
        ensures
            match r {
                Some(i) => container_from(self@.containers, id@, 0) == Some(i as int) && i
                    < self.containers@.len(),
                None => container_from(self@.containers, id@, 0) is None,
            },
    {
        let mut i: usize = 0;
        while i < self.containers.len()
            invariant
                i <= self.containers@.len(),
                container_from(self@.containers, id@, 0) == container_from(
                    self@.containers,
                    id@,
                    i as int,
                ),
            decreases self.containers@.len() - i,
        {
            if self.containers[i].id == *id {
                return Some(i);
            }
            i += 1;
        }
        None
    }

    /// Makes the container `id` hold `value` of `item`. An unknown id changes
    /// nothing.
    pub fn set_container_item(&mut self, id: &ContainerId, item: &ItemId, value: u32)
        ensures
            final(self)@ == old(self)@.with_container_item(id@, item@, value),
    {
        let ghost was = self@;
        match self.container_position(id) {
            Some(i) => {
                if value == 0 {
                    self.containers[i].contents.remove(item.as_str());
                } else {
                    self.containers[i].contents.insert(item.clone(), value);
                }
                assert(self@.containers =~= was.containers.update(
                    i as int,
                    ContainerView {
                        contents: holding(was.containers[i as int].contents, item@, value),
                        ..was.containers[i as int]
                    },
                ));
                self.bump();
            },
            None => {},
        }
    }

    fn container_count(&self, id: &ContainerId, item: &ItemId) -> (n: u32)
        ensures
            n == self@.container_holds(id@, item@),
    {
        match self.container_position(id) {
            Some(i) => match self.containers[i].contents.get(item.as_str()) {
                Some(v) => *v,
                None => 0,
            },
            None => 0,
        }
    }

    /// Moves the count of `item` in the container `id` by `delta`, never
    /// below zero.
    pub fn adjust_container_item(&mut self, id: &ContainerId, item: &ItemId, delta: i64)
        requires
            old(self)@.container_holds(id@, item@) + delta <= i64::MAX,
        ensures
            final(self)@ == old(self)@.with_container_item(
                id@,
                item@,
                moved(old(self)@.container_holds(id@, item@), delta as int),
            ),
    {
        let cur: u32 = self.container_count(id, item);
        let next: u32 = moved_count(cur, delta);
        self.set_container_item(id, item, next);
    }
}

impl StateView {
    /// The state with the container at `i` replaced, where that changes it.
    pub open spec fn with_container(self, i: int, c: ContainerView) -> StateView {
        if self.containers[i] == c {
            self
        } else {
            StateView { containers: self.containers.update(i, c), ..self }.bumped()
        }
    }
}

impl AppState {
    /// Sets or clears the icon of a container. An unknown id or an unchanged
    /// icon changes nothing.
    pub fn set_container_icon(&mut self, id: &ContainerId, icon: Option<String>)
        ensures
            final(self)@ == match container_from(old(self)@.containers, id@, 0) {
                Some(i) => old(self)@.with_container(
                    i,
                    ContainerView { icon: text::opt_text(icon), ..old(self)@.containers[i] },
                ),
                None => old(self)@,
            },
    {
        let ghost was = self@;
        match self.container_position(id) {
            Some(i) => {
                let ghost new = ContainerView { icon: text::opt_text(icon), ..was.containers[i as int] };
                if !same_opt_text(&self.containers[i].icon, &icon) {
                    self.containers[i].icon = icon;
                    assert(self@.containers =~= was.containers.update(i as int, new));
                    self.bump();
                } else {
                    assert(was.containers[i as int] =~= new);
                }
            },
            None => {},
        }
    }

    /// Sets the kind of a container. An unknown id or an unchanged kind
    /// changes nothing.
    pub fn set_container_kind(&mut self, id: &ContainerId, kind: ContainerKind)
        ensures
            final(self)@ == match container_from(old(self)@.containers, id@, 0) {
                Some(i) => old(self)@.with_container(
                    i,
                    ContainerView { kind, ..old(self)@.containers[i] },
                ),
                None => old(self)@,
            },
    {
        let ghost was = self@;
        match self.container_position(id) {
            Some(i) => {
                let ghost new = ContainerView { kind, ..was.containers[i as int] };
                if self.containers[i].kind != kind {
                    self.containers[i].kind = kind;
                    assert(self@.containers =~= was.containers.update(i as int, new));
                    self.bump();
                } else {
                    assert(was.containers[i as int] =~= new);
                }
            },
            None => {},
        }
    }

    /// Sets or clears the weight cap of a container. An unknown id or an
    /// unchanged cap changes nothing.
    pub fn set_container_capacity(&mut self, id: &ContainerId, capacity_kg: Option<Kilograms>)
        ensures
            final(self)@ == match container_from(old(self)@.containers, id@, 0) {
                Some(i) => if data::same_weight(
                    old(self)@.containers[i].capacity_kg,
                    capacity_kg,
                ) {
                    old(self)@
                } else {
                    (StateView {
                        containers: old(self)@.containers.update(
                            i,
                            ContainerView { capacity_kg, ..old(self)@.containers[i] },
                        ),
                        ..old(self)@
                    }).bumped()
                },
                None => old(self)@,
            },
    {
        let ghost was = self@;
        match self.container_position(id) {
            Some(i) => {
                let ghost new = ContainerView { capacity_kg, ..was.containers[i as int] };
                let same: bool = match (self.containers[i].capacity_kg, capacity_kg) {
                    (Some(a), Some(b)) => a.same(b),
                    (None, None) => true,
                    _ => false,
                };
                assert(was.containers[i as int] == self.containers@[i as int]@);
                if !same {
                    self.containers[i].capacity_kg = capacity_kg;
                    assert(self@.containers =~= was.containers.update(i as int, new));
                    self.bump();
                }
            },
            None => {},
        }
    }

    /// Renames a container. An unknown id or an unchanged name changes
    /// nothing.
    pub fn rename_container(&mut self, id: &ContainerId, name: String)
        ensures
            final(self)@ == match container_from(old(self)@.containers, id@, 0) {
                Some(i) => old(self)@.with_container(
                    i,
                    ContainerView { name: name@, ..old(self)@.containers[i] },
                ),
                None => old(self)@,
            },
    {
        let ghost was = self@;
        match self.container_position(id) {
            Some(i) => {
                let ghost new = ContainerView { name: name@, ..was.containers[i as int] };
                if self.containers[i].name != name {
                    self.containers[i].name = name;
                    assert(self@.containers =~= was.containers.update(i as int, new));
                    self.bump();
                } else {
                    assert(was.containers[i as int] =~= new);
                }
            },
            None => {},
        }
    }

    /// Deletes the containers with the id `id` and what they held. An unknown
    /// id changes nothing.
    pub fn delete_container(&mut self, id: &ContainerId)
        ensures
            final(self)@ == if container_from(old(self)@.containers, id@, 0) is None {
                old(self)@
            } else {
                (StateView {
                    containers: without(old(self)@.containers, id@),
                    ..old(self)@
                }).bumped()
            },
    {
        let ghost was = self@;
        if self.container_position(id).is_none() {
            return;
        }
        let mut i: usize = 0;
        let ghost mut done: int = 0;
        assert(was.containers.skip(0) =~= was.containers);
        assert(without(was.containers.take(0), id@) + was.containers =~= was.containers);
        while i < self.containers.len()
            invariant
                i <= self.containers@.len(),
                0 <= done <= was.containers.len(),
                self.containers@.len() - i == was.containers.len() - done,
                i == without(was.containers.take(done), id@).len(),
                self@ == (StateView {
                    containers: without(was.containers.take(done), id@) + was.containers.skip(done),
                    ..was
                }),
            decreases self.containers@.len() - i,
        {
            let ghost before = self@.containers;
            let ghost kept = without(was.containers.take(done), id@);
            assert(before[i as int] == was.containers[done]);
            assert(was.containers.take(done + 1).drop_last() =~= was.containers.take(done));
            assert(was.containers.take(done + 1).last() == was.containers[done]);
            if self.containers[i].id == *id {
                let _gone = self.containers.remove(i);
                assert(self@.containers =~= before.remove(i as int));
                assert(self@.containers =~= kept + was.containers.skip(done + 1));
            } else {
                i += 1;
                assert(before =~= kept.push(was.containers[done]) + was.containers.skip(done + 1));
            }
            proof {
                done = done + 1;
            }
        }
        assert(was.containers.take(done) =~= was.containers);
        assert(self@.containers =~= without(was.containers, id@));
        self.bump();
    }

    fn ids_in_tier(&self, case: bool) -> (r: Vec<ContainerId>)
        ensures
            ids::texts(r@) == ids_by_case(self@.containers, case),
    {
        let ghost cs = self@.containers;
        let mut r: Vec<ContainerId> = Vec::new();
        let mut i: usize = 0;
        assert(ids::texts(r@) =~= ids_by_case(cs.take(0), case));
        while i < self.containers.len()
            invariant
                i <= self.containers@.len(),
                cs == state::containers_view(self.containers@),
                ids::texts(r@) == ids_by_case(cs.take(i as int), case),
            decreases self.containers@.len() - i,
        {
            assert(cs.take(i + 1).drop_last() =~= cs.take(i as int));
            assert(cs.take(i + 1).last() == cs[i as int]);
            let ghost before = r@;
            if (Self::container_drain_rank(self.containers[i].kind) == 0) == case {
                r.push(self.containers[i].id.clone());
                assert(ids::texts(r@) =~= ids::texts(before).push(cs[i as int].id));
            }
            i += 1;
        }
        assert(cs.take(cs.len() as int) =~= cs);
        r
    }

    /// How soon a container of this kind is drained: cases first, then
    /// shelves and bags alike.
    fn container_drain_rank(kind: ContainerKind) -> (rank: u8)
        ensures
            rank == if kind == ContainerKind::Case {
                0u8
            } else {
                1u8
            },
    {
        match kind {
            ContainerKind::Case => 0,
            ContainerKind::Shelf => 1,
            ContainerKind::Bag => 1,
        }
    }

    /// Spends up to `qty` of `item`: from the stash first, then from the
    /// containers, cases before shelves and bags. A short inventory is
    /// emptied.
    pub(crate) fn consume_from_inventory(&mut self, item: &ItemId, qty: u32)
        ensures
            final(self)@ == old(self)@.spending(item@, qty),
    {
        let ghost was = self@;
        let have_stash: u32 = self.stash_count(item);
        let mut remaining: i64 = qty as i64;
        let from_stash: i64 = if (have_stash as i64) < remaining {
            have_stash as i64
        } else {
            remaining
        };
        if from_stash > 0 {
            self.adjust_collected(item, -from_stash);
            remaining -= from_stash;
        }
        if remaining <= 0 {
            return;
        }
        let ghost s0 = self@;
        let mut order: Vec<ContainerId> = self.ids_in_tier(true);
        let mut rest: Vec<ContainerId> = self.ids_in_tier(false);
        let ghost first = order@;
        let ghost second = rest@;
        order.append(&mut rest);
        let ghost ids = drain_order(s0.containers);
        assert(ids::texts(order@) =~= ids::texts(first) + ids::texts(second));
        let ghost want = remaining as int;
        let mut i: usize = 0;
        assert(ids.take(0) =~= Seq::<Seq<char>>::empty());
        while i < order.len()
            invariant
                i <= order@.len(),
                ids == ids::texts(order@),
                0 <= remaining <= want,
                want <= u32::MAX,
                (self@, remaining as int) == s0.draining(ids.take(i as int), item@, want),
            decreases order@.len() - i,
        {
            assert(ids.take(i + 1).drop_last() =~= ids.take(i as int));
            assert(ids.take(i + 1).last() == order@[i as int]@);
            let have: u32 = self.container_count(&order[i], item);
            let take: i64 = if (have as i64) < remaining {
                have as i64
            } else {
                remaining
            };
            if take > 0 {
                self.adjust_container_item(&order[i], item, -take);
                remaining -= take;
            }
            i += 1;
        }
        assert(ids.take(ids.len() as int) =~= ids);
    }
}

fn same_opt_text(a: &Option<String>, b: &Option<String>) -> (r: bool)
    ensures
        r == (text::opt_text(*a) == text::opt_text(*b)),
{
    match (a, b) {
        (Some(x), Some(y)) => *x == *y,
        (None, None) => true,
        _ => false,
    }
}

fn moved_count(cur: u32, delta: i64) -> (next: u32)
    requires
        cur + delta <= i64::MAX,
    ensures
        next == moved(cur, delta as int),
{
    let sum: i64 = cur as i64 + delta;
    if sum <= 0 {
        0
    } else {
        let n: u64 = sum as u64;
        let next: u32 = #[verifier::truncate]
        (n as u32);
        assert(n as u32 == n % 0x1_0000_0000) by (bit_vector);
        next
    }
}

} // verus!
