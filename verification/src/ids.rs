//! Sets and maps keyed by textual ids, which remember the order in which
//! their keys came in.

use vstd::prelude::*;

verus! {

/// The texts of `ids`, in order.
pub open spec fn texts(ids: Seq<String>) -> Seq<Seq<char>> {
    Seq::new(ids.len(), |i: int| ids[i]@)
}

/// A set of ids. No id occurs twice, and what came first stays first.
#[derive(Debug)]
pub struct IdSet {
    items: Vec<String>,
}

impl View for IdSet {
    type V = Set<Seq<char>>;

    open spec fn view(&self) -> Set<Seq<char>> {
        Set::new(|id: Seq<char>| self.order().contains(id))
    }
}

impl IdSet {
    #[verifier::type_invariant]
    pub(crate) closed spec fn distinct(self) -> bool {
        texts(self.items@).no_duplicates()
    }

    /// The ids in the order in which they came in.
    pub closed spec fn order(&self) -> Seq<Seq<char>> {
        texts(self.items@)
    }

    /// No id occurs twice in the order.
    pub(crate) proof fn lemma_distinct(self)
        requires
            self.distinct(),
        ensures
            self.order().no_duplicates(),
    {
    }

    /// The empty set.
    pub fn new() -> (r: Self)
        ensures
            r@ == Set::<Seq<char>>::empty(),
            r.order() == Seq::<Seq<char>>::empty(),
    {
        let r = IdSet { items: Vec::new() };
        assert(r.order() =~= Seq::<Seq<char>>::empty());
        assert(r@ =~= Set::<Seq<char>>::empty());
        r
    }

    /// How many ids the set holds.
    pub fn len(&self) -> (n: usize)
        ensures
            n == self.order().len(),
    {
        self.items.len()
    }

    /// The id at position `i`.
    pub fn at(&self, i: usize) -> (id: &String)
        requires
            i < self.order().len(),
        ensures
            id@ == self.order()[i as int],
    {
        &self.items[i]
    }

    fn position(&self, id: &str) -> (r: Option<usize>)
        ensures
            match r {
                Some(i) => i < self.order().len() && self.order()[i as int] == id@,
                None => !self.order().contains(id@),
            },
    {
        let key: String = id.to_owned();
        let mut i: usize = 0;
        while i < self.items.len()
            invariant
                key@ == id@,
                i <= self.items@.len(),
                forall|j: int| 0 <= j < i ==> self.order()[j] != id@,
            decreases self.items@.len() - i,
        {
            if self.items[i] == key {
                return Some(i);
            }
            i += 1;
        }
        None
    }

    /// Whether the set holds `id`.
    pub fn contains(&self, id: &str) -> (r: bool)
        ensures
            r == self@.contains(id@),
    {
        self.position(id).is_some()
    }

    /// Adds `id`, and says whether it was new.
    pub fn insert(&mut self, id: String) -> (added: bool)
        ensures
            added == !old(self)@.contains(id@),
            final(self)@ == old(self)@.insert(id@),
            final(self).order() == if added {
                old(self).order().push(id@)
            } else {
                old(self).order()
            },
    {
        proof {
            use_type_invariant(&*self);
        }
        if self.position(id.as_str()).is_some() {
            assert(self@.insert(id@) =~= self@);
            return false;
        }
        let ghost before = self.order();
        let mut items: Vec<String> = Vec::new();
        std::mem::swap(&mut items, &mut self.items);
        let ghost was = items@;
        items.push(id);
        assert(texts(items@) =~= before.push(id@));
        proof {
            lemma_push_distinct(before, id@);
        }
        self.items = items;
        assert(self.order() =~= before.push(id@));
        assert forall|k: Seq<char>| self.order().contains(k) == (before.contains(k) || k == id@) by {
            lemma_contains_push(before, id@, k);
        }
        assert(self@ =~= old(self)@.insert(id@));
        true
    }

    /// Takes `id` out, and says whether it was there.
    pub fn remove(&mut self, id: &str) -> (removed: bool)
        ensures
            removed == old(self)@.contains(id@),
            final(self)@ == old(self)@.remove(id@),
            !removed ==> final(self).order() == old(self).order(),
            removed ==> exists|i: int|
                0 <= i < old(self).order().len() && old(self).order()[i] == id@
                    && final(self).order() == #[trigger] old(self).order().remove(i),
    {
        proof {
            use_type_invariant(&*self);
        }
        match self.position(id) {
            None => {
                assert(self@.remove(id@) =~= self@);
                false
            },
            Some(i) => {
                let ghost before = self.order();
                let mut items: Vec<String> = Vec::new();
                std::mem::swap(&mut items, &mut self.items);
                let gone: String = items.remove(i);
                assert(texts(items@) =~= before.remove(i as int));
                proof {
                    lemma_remove_distinct(before, i as int);
                }
                self.items = items;
                assert(self.order() == before.remove(i as int));
                assert(self@ =~= old(self)@.remove(id@));
                true
            },
        }
    }

    /// Takes every id out.
    pub fn clear(&mut self)
        ensures
            final(self)@ == Set::<Seq<char>>::empty(),
            final(self).order() == Seq::<Seq<char>>::empty(),
    {
        *self = IdSet::new();
    }
}

impl Clone for IdSet {
    fn clone(&self) -> (r: Self)
        ensures
            r@ == self@,
            r.order() == self.order(),
    {
        let mut r: IdSet = IdSet::new();
        proof {
            use_type_invariant(self);
        }
        let mut i: usize = 0;
        while i < self.items.len()
            invariant
                i <= self.items@.len(),
                self.order().no_duplicates(),
                self.order() == texts(self.items@),
                r.order() == self.order().take(i as int),
            decreases self.items@.len() - i,
        {
            let ghost done = self.order().take(i as int);
            assert(!done.contains(self.order()[i as int])) by {
                if done.contains(self.order()[i as int]) {
                    let j = choose|j: int| 0 <= j < done.len() && done[j] == self.order()[i as int];
                    assert(self.order()[j] == self.order()[i as int]);
                }
            }
            r.insert(self.items[i].clone());
            assert(self.order().take(i + 1) =~= done.push(self.order()[i as int]));
            i += 1;
        }
        assert(self.order().take(self.order().len() as int) =~= self.order());
        assert(r@ =~= self@);
        r
    }
}

/// A map from ids to values. No id occurs twice, and what came first stays
/// first.
#[derive(Debug)]
pub struct IdMap<V> {
    keys: Vec<String>,
    vals: Vec<V>,
}

impl<V> View for IdMap<V> {
    type V = Map<Seq<char>, V>;

    open spec fn view(&self) -> Map<Seq<char>, V> {
        Map::new(
            |id: Seq<char>| self.order().contains(id),
            |id: Seq<char>| self.values()[self.order().index_of(id)],
        )
    }
}

impl<V> IdMap<V> {
    #[verifier::type_invariant]
    pub(crate) closed spec fn distinct(self) -> bool {
        &&& self.keys@.len() == self.vals@.len()
        &&& texts(self.keys@).no_duplicates()
    }

    /// The ids in the order in which they came in.
    pub closed spec fn order(&self) -> Seq<Seq<char>> {
        texts(self.keys@)
    }

    /// The values in the order of their ids.
    pub closed spec fn values(&self) -> Seq<V> {
        self.vals@
    }

    /// No id occurs twice in the order, each has a value, and the value at a
    /// position is that of the id there.
    pub(crate) proof fn lemma_distinct(self)
        requires
            self.distinct(),
        ensures
            self.order().no_duplicates(),
            self.values().len() == self.order().len(),
            forall|i: int|
                0 <= i < self.order().len() ==> {
                    &&& self@.contains_key(#[trigger] self.order()[i])
                    &&& self@[self.order()[i]] == self.values()[i]
                },
    {
        assert forall|i: int| 0 <= i < self.order().len() implies {
            &&& self@.contains_key(#[trigger] self.order()[i])
            &&& self@[self.order()[i]] == self.values()[i]
        } by {
            lemma_index_of_distinct(self.order(), i);
        }
    }

    /// The empty map.
    pub fn new() -> (r: Self)
        ensures
            r@ == Map::<Seq<char>, V>::empty(),
            r.order() == Seq::<Seq<char>>::empty(),
            r.values() == Seq::<V>::empty(),
    {
        let r = IdMap { keys: Vec::new(), vals: Vec::new() };
        assert(r.order() =~= Seq::<Seq<char>>::empty());
        assert(r@ =~= Map::<Seq<char>, V>::empty());
        r
    }

    /// How many ids the map holds.
    pub fn len(&self) -> (n: usize)
        ensures
            n == self.order().len(),
            n == self.values().len(),
    {
        proof {
            use_type_invariant(self);
        }
        self.keys.len()
    }

    /// The id at position `i`.
    pub fn key_at(&self, i: usize) -> (id: &String)
        requires
            i < self.order().len(),
        ensures
            id@ == self.order()[i as int],
    {
        &self.keys[i]
    }

    /// The value at position `i`.
    pub fn value_at(&self, i: usize) -> (v: &V)
        requires
            i < self.order().len(),
        ensures
            *v == self.values()[i as int],
            *v == self@[self.order()[i as int]],
            self@.contains_key(self.order()[i as int]),
    {
        proof {
            use_type_invariant(self);
            self.lemma_distinct();
            assert(self@.contains_key(self.order()[i as int]));
        }
        &self.vals[i]
    }

    fn position(&self, id: &str) -> (r: Option<usize>)
        ensures
            match r {
                Some(i) => {
                    &&& i < self.order().len()
                    &&& self.order()[i as int] == id@
                    &&& self@.contains_key(id@)
                    &&& self@[id@] == self.values()[i as int]
                },
                None => !self@.contains_key(id@),
            },
    {
        let key: String = id.to_owned();
        let mut i: usize = 0;
        while i < self.keys.len()
            invariant
                key@ == id@,
                i <= self.keys@.len(),
                forall|j: int| 0 <= j < i ==> self.order()[j] != id@,
            decreases self.keys@.len() - i,
        {
            if self.keys[i] == key {
                proof {
                    use_type_invariant(self);
                    self.lemma_distinct();
                    assert(self@.contains_key(self.order()[i as int]));
                }
                return Some(i);
            }
            i += 1;
        }
        None
    }

    /// The value of `id`, if the map holds one.
    pub fn get(&self, id: &str) -> (r: Option<&V>)
        ensures
            match r {
                Some(v) => self@.contains_key(id@) && *v == self@[id@],
                None => !self@.contains_key(id@),
            },
    {
        proof {
            use_type_invariant(self);
        }
        match self.position(id) {
            Some(i) => Some(&self.vals[i]),
            None => None,
        }
    }

    /// Whether the map holds a value of `id`.
    pub fn contains_key(&self, id: &str) -> (r: bool)
        ensures
            r == self@.contains_key(id@),
    {
        self.position(id).is_some()
    }

    /// Gives `id` the value `v`, and returns the one it had.
    pub fn insert(&mut self, id: String, v: V) -> (prev: Option<V>)
        ensures
            prev == if old(self)@.contains_key(id@) {
                Some(old(self)@[id@])
            } else {
                None
            },
            final(self)@ == old(self)@.insert(id@, v),
            old(self)@.contains_key(id@) ==> final(self).order() == old(self).order(),
            !old(self)@.contains_key(id@) ==> final(self).order() == old(self).order().push(id@),
    {
        proof {
            use_type_invariant(&*self);
            self.lemma_distinct();
        }
        let ghost before = *self;
        match self.position(id.as_str()) {
            Some(i) => {
                let mut own: IdMap<V> = IdMap::new();
                std::mem::swap(&mut own, self);
                let mut keys: Vec<String> = own.keys;
                let mut vals: Vec<V> = own.vals;
                let had: V = vals.remove(i);
                vals.insert(i, v);
                assert(vals@ =~= before.values().update(i as int, v));
                *self = IdMap { keys, vals };
                assert(self.order() =~= before.order());
                proof {
                    self.lemma_distinct();
                    assert forall|k: Seq<char>| self.order().contains(k) implies self@[k]
                        == before@.insert(id@, v)[k] by {
                        let j = choose|j: int| 0 <= j < self.order().len() && self.order()[j] == k;
                        assert(self@[self.order()[j]] == self.values()[j]);
                        assert(before@[before.order()[j]] == before.values()[j]);
                    }
                    assert(self@.dom() =~= before@.insert(id@, v).dom());
                }
                assert(self@ =~= before@.insert(id@, v));
                Some(had)
            },
            None => {
                let mut own: IdMap<V> = IdMap::new();
                std::mem::swap(&mut own, self);
                let mut keys: Vec<String> = own.keys;
                let mut vals: Vec<V> = own.vals;
                keys.push(id);
                vals.push(v);
                assert(texts(keys@) =~= before.order().push(id@));
                proof {
                    lemma_push_distinct(before.order(), id@);
                }
                *self = IdMap { keys, vals };
                proof {
                    self.lemma_distinct();
                    assert(self.order() == before.order().push(id@));
                    assert forall|k: Seq<char>| self.order().contains(k) == (
                    before.order().contains(k) || k == id@) by {
                        lemma_contains_push(before.order(), id@, k);
                    }
                    assert forall|k: Seq<char>| self.order().contains(k) implies self@[k]
                        == before@.insert(id@, v)[k] by {
                        let j = choose|j: int| 0 <= j < self.order().len() && self.order()[j] == k;
                        assert(self@[self.order()[j]] == self.values()[j]);
                        if j < before.order().len() {
                            assert(before@[before.order()[j]] == before.values()[j]);
                        }
                    }
                    assert(self@.dom() =~= before@.insert(id@, v).dom());
                }
                assert(self@ =~= before@.insert(id@, v));
                None
            },
        }
    }

    /// Takes `id` and its value out, and says whether it was there.
    pub fn remove(&mut self, id: &str) -> (removed: bool)
        ensures
            removed == old(self)@.contains_key(id@),
            final(self)@ == old(self)@.remove(id@),
    {
        proof {
            use_type_invariant(&*self);
            self.lemma_distinct();
        }
        let ghost before = *self;
        match self.position(id) {
            None => {
                assert(self@.remove(id@) =~= self@);
                false
            },
            Some(i) => {
                let mut own: IdMap<V> = IdMap::new();
                std::mem::swap(&mut own, self);
                let mut keys: Vec<String> = own.keys;
                let mut vals: Vec<V> = own.vals;
                let _gone_key = keys.remove(i);
                let _gone_val = vals.remove(i);
                assert(texts(keys@) =~= before.order().remove(i as int));
                proof {
                    lemma_remove_distinct(before.order(), i as int);
                }
                *self = IdMap { keys, vals };
                proof {
                    self.lemma_distinct();
                    assert forall|k: Seq<char>| self.order().contains(k) implies self@[k]
                        == before@.remove(id@)[k] by {
                        let j = choose|j: int| 0 <= j < self.order().len() && self.order()[j] == k;
                        assert(self@[self.order()[j]] == self.values()[j]);
                        let j0 = if j < i {
                            j
                        } else {
                            j + 1
                        };
                        assert(before@[before.order()[j0]] == before.values()[j0]);
                    }
                    assert(self@.dom() =~= before@.remove(id@).dom());
                }
                assert(self@ =~= before@.remove(id@));
                true
            },
        }
    }

    /// Takes every id out.
    pub fn clear(&mut self)
        ensures
            final(self)@ == Map::<Seq<char>, V>::empty(),
            final(self).order() == Seq::<Seq<char>>::empty(),
    {
        *self = IdMap::new();
    }
}

impl<V: Copy> IdMap<V> {
    /// A copy of the map.
    pub fn copied(&self) -> (r: Self)
        ensures
            r@ == self@,
            r.order() == self.order(),
    {
        proof {
            use_type_invariant(self);
            self.lemma_distinct();
        }
        let mut r: IdMap<V> = IdMap::new();
        let mut i: usize = 0;
        while i < self.keys.len()
            invariant
                i <= self.keys@.len(),
                self.keys@.len() == self.vals@.len(),
                self.order().no_duplicates(),
                self.order() == texts(self.keys@),
                self.values() == self.vals@,
                forall|j: int|
                    0 <= j < self.order().len() ==> {
                        &&& self@.contains_key(#[trigger] self.order()[j])
                        &&& self@[self.order()[j]] == self.values()[j]
                    },
                r.order() == self.order().take(i as int),
                forall|j: int|
                    0 <= j < i ==> {
                        &&& r@.contains_key(#[trigger] self.order()[j])
                        &&& r@[self.order()[j]] == self.values()[j]
                    },
            decreases self.keys@.len() - i,
        {
            let ghost done = self.order().take(i as int);
            assert(!done.contains(self.order()[i as int])) by {
                if done.contains(self.order()[i as int]) {
                    let j = choose|j: int| 0 <= j < done.len() && done[j] == self.order()[i as int];
                    assert(self.order()[j] == self.order()[i as int]);
                }
            }
            r.insert(self.keys[i].clone(), self.vals[i]);
            assert(self.order().take(i + 1) =~= done.push(self.order()[i as int]));
            i += 1;
        }
        assert(self.order().take(self.order().len() as int) =~= self.order());
        assert forall|k: Seq<char>| self.order().contains(k) implies r@[k] == self@[k] by {
            let j = choose|j: int| 0 <= j < self.order().len() && self.order()[j] == k;
            assert(r@[self.order()[j]] == self.values()[j]);
        }
        assert(r@ =~= self@);
        r
    }
}

proof fn lemma_index_of_distinct<A>(s: Seq<A>, i: int)
    requires
        s.no_duplicates(),
        0 <= i < s.len(),
    ensures
        s.contains(s[i]),
        s.index_of(s[i]) == i,
{
    let j = s.index_of(s[i]);
    assert(0 <= j < s.len() && s[j] == s[i]);
}

/// What a sequence holds after one more element was put at its end.
pub proof fn lemma_contains_push<A>(s: Seq<A>, x: A, k: A)
    ensures
        s.push(x).contains(k) == (s.contains(k) || k == x),
{
    if s.contains(k) {
        let j = choose|j: int| 0 <= j < s.len() && s[j] == k;
        assert(s.push(x)[j] == k);
    }
    if k == x {
        assert(s.push(x)[s.len() as int] == k);
    }
    if s.push(x).contains(k) && k != x {
        let j = choose|j: int| 0 <= j < s.push(x).len() && s.push(x)[j] == k;
        assert(s[j] == k);
    }
}

/// What a sequence holds after one more element was put at its end.
pub proof fn lemma_contains_push_any<A>(s: Seq<A>, x: A)
    ensures
        forall|k: A|
            #![trigger s.push(x).contains(k)]
            #![trigger s.contains(k)]
            s.push(x).contains(k) == (s.contains(k) || k == x),
        s.push(x).contains(x),
{
    assert forall|k: A|
        #![trigger s.push(x).contains(k)]
        #![trigger s.contains(k)]
        s.push(x).contains(k) == (s.contains(k) || k == x) by {
        lemma_contains_push(s, x, k);
    }
    lemma_contains_push(s, x, x);
}

proof fn lemma_push_distinct<A>(s: Seq<A>, x: A)
    requires
        s.no_duplicates(),
        !s.contains(x),
    ensures
        s.push(x).no_duplicates(),
{
    let t = s.push(x);
    assert forall|i: int, j: int| 0 <= i < t.len() && 0 <= j < t.len() && i != j implies t[i]
        != t[j] by {
        if i < s.len() && j < s.len() {
            assert(s[i] != s[j]);
        } else if i < s.len() {
            assert(s[i] != x);
        } else {
            assert(s[j] != x);
        }
    }
}

proof fn lemma_remove_distinct<A>(s: Seq<A>, i: int)
    requires
        s.no_duplicates(),
        0 <= i < s.len(),
    ensures
        s.remove(i).no_duplicates(),
        forall|k: A| s.remove(i).contains(k) == (s.contains(k) && k != s[i]),
{
    let t = s.remove(i);
    assert forall|a: int, b: int| 0 <= a < t.len() && 0 <= b < t.len() && a != b implies t[a]
        != t[b] by {
        let a0 = if a < i {
            a
        } else {
            a + 1
        };
        let b0 = if b < i {
            b
        } else {
            b + 1
        };
        assert(t[a] == s[a0] && t[b] == s[b0]);
    }
    assert forall|k: A| t.contains(k) == (s.contains(k) && k != s[i]) by {
        if t.contains(k) {
            let a = choose|a: int| 0 <= a < t.len() && t[a] == k;
            let a0 = if a < i {
                a
            } else {
                a + 1
            };
            assert(s[a0] == k);
        }
        if s.contains(k) && k != s[i] {
            let a0 = choose|a0: int| 0 <= a0 < s.len() && s[a0] == k;
            let a = if a0 < i {
                a0
            } else {
                a0 - 1
            };
            assert(t[a] == k);
        }
    }
}

} // verus!
