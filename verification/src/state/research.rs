//! Research blueprints: what is unlocked, what is tracked and pinned, and
//! what their samples cost.

use crate::ids;
use crate::data;
use crate::state::progress;
use crate::data::{NodeView, ReqView, Requirement, ResearchNodeId};
use crate::ids::IdSet;
use crate::state::progress::UpgradeProgress;
use crate::state::{AppState, ResearchNodeState, ResearchStatus, StateView};
use vstd::prelude::*;
use vstd::seq_lib::*;

verus! {

impl StateView {
    /// Whether the node is recorded as developed.
    pub open spec fn developed(self, id: Seq<char>) -> bool {
        self.research_states.contains_key(id) && self.research_states[id]
            == ResearchNodeState::Developed
    }

    /// Whether every parent of the node is developed. A node that the data
    /// does not know is locked.
    pub open spec fn unlocked(self, id: Seq<char>) -> bool {
        match self.data.node(id) {
            Some(n) => forall|i: int|
                0 <= i < n.parents.len() ==> self.developed(#[trigger] n.parents[i]),
            None => false,
        }
    }

    /// The recorded state of a node, else whether it is unlocked.
    pub open spec fn status(self, id: Seq<char>) -> ResearchStatus {
        if self.research_states.contains_key(id) {
            match self.research_states[id] {
                ResearchNodeState::Developed => ResearchStatus::Developed,
                ResearchNodeState::InProgress => ResearchStatus::InProgress,
            }
        } else if self.unlocked(id) {
            ResearchStatus::Available
        } else {
            ResearchStatus::Locked
        }
    }

    /// The state with a node's progress recorded, or forgotten. A developed
    /// node leaves the wishlist; nothing else is put there.
    pub open spec fn with_research_state(
        self,
        id: Seq<char>,
        state: Option<ResearchNodeState>,
    ) -> StateView {
        StateView {
            research_states: match state {
                Some(v) => self.research_states.insert(id, v),
                None => self.research_states.remove(id),
            },
            tracked_research: if state == Some(ResearchNodeState::Developed) {
                self.tracked_research.remove(id)
            } else {
                self.tracked_research
            },
            ..self
        }.bumped()
    }

    /// The samples of a node.
    pub open spec fn samples(self, id: Seq<char>) -> Seq<ReqView> {
        match self.data.node(id) {
            Some(n) => n.samples,
            None => Seq::empty(),
        }
    }

    /// Whether a node stands on a route: the data knows it, and it is not
    /// developed.
    pub open spec fn on_route(self, id: Seq<char>) -> bool {
        self.data.node(id) is Some && !self.developed(id)
    }

    /// Whether `p` is a parent of the node `id`.
    pub open spec fn is_parent(self, p: Seq<char>, id: Seq<char>) -> bool {
        self.data.node(id) matches Some(n) && n.parents.contains(p)
    }

    /// Whether `chain` leads from `to` up its parents, over nodes that are not
    /// developed, to `from`.
    pub open spec fn is_chain(self, chain: Seq<Seq<char>>, from: Seq<char>, to: Seq<char>) -> bool {
        &&& chain.len() > 0
        &&& chain[0] == to
        &&& chain.last() == from
        &&& forall|i: int| 0 <= i < chain.len() ==> self.on_route(#[trigger] chain[i])
        &&& forall|i: int|
            0 <= i < chain.len() - 1 ==> self.is_parent(chain[i + 1], #[trigger] chain[i])
    }

    /// Whether the node `id` stands between the user and the node `target`:
    /// it is the target or a prerequisite of it, reached over nodes that are
    /// not developed.
    pub open spec fn stands_before(self, id: Seq<char>, target: Seq<char>) -> bool {
        exists|chain: Seq<Seq<char>>| self.is_chain(chain, id, target)
    }

    /// The nodes that stand between the user and `target`.
    pub open spec fn route(self, target: Seq<char>) -> Set<Seq<char>> {
        Set::new(|id: Seq<char>| self.stands_before(id, target))
    }

    /// The state with every node that stands before `target` tracked and
    /// pinned. Where there is none nothing changes.
    pub open spec fn focused(self, target: Seq<char>) -> StateView {
        if self.on_route(target) {
            StateView {
                tracked_research: self.tracked_research.union(self.route(target)),
                pinned_research: self.pinned_research.union(self.route(target)),
                ..self
            }.bumped()
        } else {
            self
        }
    }
}

impl StateView {
    /// Whether `id` is `target` or a parent of a node that stands before it.
    pub open spec fn leads_to(self, id: Seq<char>, target: Seq<char>) -> bool {
        id == target || exists|c: Seq<char>|
            self.stands_before(c, target) && #[trigger] self.is_parent(id, c)
    }
}

/// The ids of all research nodes.
pub open spec fn node_ids(cats: Seq<Seq<NodeView>>) -> Seq<Seq<char>>
    decreases cats.len(),
{
    if cats.len() == 0 {
        Seq::empty()
    } else {
        node_ids(cats.drop_last()) + Seq::new(cats.last().len(), |j: int| cats.last()[j].id)
    }
}

proof fn lemma_node_ids(cats: Seq<Seq<NodeView>>, c: int, j: int)
    requires
        0 <= c < cats.len(),
        0 <= j < cats[c].len(),
    ensures
        node_ids(cats).contains(cats[c][j].id),
    decreases cats.len(),
{
    let before = node_ids(cats.drop_last());
    if c == cats.len() - 1 {
        assert(node_ids(cats)[before.len() + j] == cats[c][j].id);
    } else {
        lemma_node_ids(cats.drop_last(), c, j);
        let k = choose|k: int| 0 <= k < before.len() && before[k] == cats[c][j].id;
        assert(node_ids(cats)[k] == cats[c][j].id);
    }
}

proof fn lemma_node_known(cats: Seq<Seq<NodeView>>, id: Seq<char>, from: int)
    requires
        0 <= from,
        data::node_from(cats, id, from) is Some,
    ensures
        node_ids(cats).contains(id),
{
    data::lemma_node_from(cats, id, from);
    let p = data::node_from(cats, id, from).unwrap();
    lemma_node_ids(cats, p.0, p.1);
}

proof fn lemma_shrinks(s: Set<Seq<char>>, x: Seq<char>)
    requires
        s.finite(),
    ensures
        s.remove(x).len() <= s.len(),
        s.contains(x) ==> s.remove(x).len() < s.len(),
{
    if !s.contains(x) {
        assert(s.remove(x) =~= s);
    }
}

proof fn lemma_leads_on_route(s: StateView, id: Seq<char>, target: Seq<char>)
    requires
        s.on_route(id),
        s.leads_to(id, target),
    ensures
        s.stands_before(id, target),
{
    if id == target {
        assert(s.is_chain(seq![id], id, target));
    } else {
        let c = choose|c: Seq<char>| s.stands_before(c, target) && #[trigger] s.is_parent(id, c);
        let chain = choose|chain: Seq<Seq<char>>| s.is_chain(chain, c, target);
        let longer = chain.push(id);
        assert forall|i: int| 0 <= i < longer.len() implies s.on_route(#[trigger] longer[i]) by {
            if i < chain.len() {
                assert(s.on_route(chain[i]));
            }
        }
        assert forall|i: int| 0 <= i < longer.len() - 1 implies s.is_parent(
            longer[i + 1],
            #[trigger] longer[i],
        ) by {
            if i < chain.len() - 1 {
                assert(s.is_parent(chain[i + 1], chain[i]));
            }
        }
        assert(s.is_chain(longer, id, target));
    }
}

proof fn lemma_closed_under_chains(
    s: StateView,
    seen: Set<Seq<char>>,
    chain: Seq<Seq<char>>,
    from: Seq<char>,
    to: Seq<char>,
    n: int,
)
    requires
        s.is_chain(chain, from, to),
        seen.contains(to),
        forall|id: Seq<char>, p: Seq<char>|
            seen.contains(id) && s.on_route(id) && #[trigger] s.is_parent(p, id) ==> seen.contains(p),
        0 <= n < chain.len(),
    ensures
        seen.contains(chain[n]),
    decreases n,
{
    if n > 0 {
        lemma_closed_under_chains(s, seen, chain, from, to, n - 1);
        assert(s.on_route(chain[n - 1]));
        assert(s.is_parent(chain[n - 1 + 1], chain[n - 1]));
    }
}

impl AppState {
    fn is_developed(&self, id: &ResearchNodeId) -> (r: bool)
        ensures
            r == self@.developed(id@),
    {
        match self.research_states.get(id.as_str()) {
            Some(s) => *s == ResearchNodeState::Developed,
            None => false,
        }
    }

    /// Whether every parent of the node is developed. Roots always are
    /// unlocked; unknown ids never.
    pub fn is_research_unlocked(&self, id: &ResearchNodeId) -> (r: bool)
        ensures
            r == self@.unlocked(id@),
    {
        match self.data.find_node(id) {
            None => false,
            Some(node) => {
                let ghost parents = node@.parents;
                let mut i: usize = 0;
                while i < node.parents.len()
                    invariant
                        i <= node.parents@.len(),
                        parents == node@.parents,
                        self@.data.node(id@) == Some(node@),
                        forall|j: int| 0 <= j < i ==> self@.developed(#[trigger] parents[j]),
                    decreases node.parents@.len() - i,
                {
                    if !self.is_developed(&node.parents[i]) {
                        assert(!self@.unlocked(id@)) by {
                            let n = self@.data.node(id@).unwrap();
                            assert(n.parents[i as int] == node.parents@[i as int]@);
                        }
                        return false;
                    }
                    i += 1;
                }
                true
            },
        }
    }

    /// The recorded state of a node where there is one, else locked or
    /// available by its parents.
    pub fn research_status(&self, id: &ResearchNodeId) -> (r: ResearchStatus)
        ensures
            r == self@.status(id@),
    {
        match self.research_states.get(id.as_str()) {
            Some(s) => match *s {
                ResearchNodeState::Developed => ResearchStatus::Developed,
                ResearchNodeState::InProgress => ResearchStatus::InProgress,
            },
            None => {
                if self.is_research_unlocked(id) {
                    ResearchStatus::Available
                } else {
                    ResearchStatus::Locked
                }
            },
        }
    }

    /// Puts a node on the wishlist or takes it off.
    pub fn set_tracked_research(&mut self, id: &ResearchNodeId, on: bool)
        ensures
            final(self)@ == (StateView {
                tracked_research: if on {
                    old(self)@.tracked_research.insert(id@)
                } else {
                    old(self)@.tracked_research.remove(id@)
                },
                ..old(self)@
            }).bumped(),
    {
        if on {
            self.tracked_research.insert(id.clone());
        } else {
            self.tracked_research.remove(id.as_str());
        }
        self.bump();
    }

    /// Pins or unpins a node. Only a real change moves the version on.
    pub fn set_pinned_research(&mut self, id: &ResearchNodeId, on: bool)
        ensures
            final(self)@ == if old(self)@.pinned_research.contains(id@) == on {
                old(self)@
            } else {
                (StateView {
                    pinned_research: if on {
                        old(self)@.pinned_research.insert(id@)
                    } else {
                        old(self)@.pinned_research.remove(id@)
                    },
                    ..old(self)@
                }).bumped()
            },
    {
        let ghost was = self@;
        let changed: bool = if on {
            self.pinned_research.insert(id.clone())
        } else {
            self.pinned_research.remove(id.as_str())
        };
        if changed {
            self.bump();
        } else {
            assert(self@.pinned_research =~= was.pinned_research);
            assert(self@ =~= was);
        }
    }

    /// Whether a node is pinned.
    pub fn is_research_pinned(&self, id: &ResearchNodeId) -> (r: bool)
        ensures
            r == self@.pinned_research.contains(id@),
    {
        self.pinned_research.contains(id.as_str())
    }

    /// Records a node's progress; `None` puts it back to not started. A
    /// developed node leaves the wishlist, and what it unlocks is not put
    /// there.
    pub fn set_research_state(&mut self, id: &ResearchNodeId, state: Option<ResearchNodeState>)
        ensures
            final(self)@ == old(self)@.with_research_state(id@, state),
    {
        match state {
            Some(s) => {
                self.research_states.insert(id.clone(), s);
                if s == ResearchNodeState::Developed {
                    self.tracked_research.remove(id.as_str());
                }
            },
            None => {
                self.research_states.remove(id.as_str());
            },
        }
        self.bump();
    }

    /// Whether the inventory covers every sample of a node. An unknown node
    /// or an empty list has nothing to spend.
    pub fn can_consume_research_samples(&self, id: &ResearchNodeId) -> (r: bool)
        ensures
            r == (self@.samples(id@).len() > 0 && self@.stocked(self@.samples(id@))),
    {
        match self.data.find_node(id) {
            None => false,
            Some(node) => {
                if node.samples.len() == 0 {
                    return false;
                }
                self.has_all(&node.samples)
            },
        }
    }

    /// Records a node as developed, spending its samples first where
    /// `consume` asks for it.
    pub fn complete_research(&mut self, id: &ResearchNodeId, consume: bool)
        ensures
            final(self)@ == if consume {
                old(self)@.spending_all(old(self)@.samples(id@)).with_research_state(
                    id@,
                    Some(ResearchNodeState::Developed),
                )
            } else {
                old(self)@.with_research_state(id@, Some(ResearchNodeState::Developed))
            },
    {
        if consume {
            let samples: Vec<Requirement> = self.samples_of(id);
            self.consume_all(&samples);
        }
        self.set_research_state(id, Some(ResearchNodeState::Developed));
    }

    /// The nodes that stand between the user and `target`.
    fn nodes_on_route(&self, target: &ResearchNodeId) -> (r: Vec<ResearchNodeId>)
        ensures
            forall|id: Seq<char>|
                ids::texts(r@).contains(id) <==> #[trigger] self@.stands_before(id, target@),
    {
        let ghost s = self@;
        let ghost t = target@;
        let ghost known = node_ids(s.data.research).to_set();
        proof {
            seq_to_set_is_finite(node_ids(s.data.research));
        }
        let mut found: Vec<ResearchNodeId> = Vec::new();
        let mut seen: IdSet = IdSet::new();
        let mut stack: Vec<ResearchNodeId> = Vec::new();
        stack.push(target.clone());
        assert(ids::texts(stack@)[0] == t);
        while stack.len() > 0
            invariant
                s == self@,
                t == target@,
                known.finite(),
                known == node_ids(s.data.research).to_set(),
                seen@.contains(t) || ids::texts(stack@).contains(t),
                forall|id: Seq<char>| #[trigger] ids::texts(stack@).contains(id) ==> s.leads_to(id, t),
                forall|id: Seq<char>| #[trigger] ids::texts(found@).contains(id) ==> s.stands_before(id, t),
                forall|id: Seq<char>|
                    #[trigger] seen@.contains(id) && s.on_route(id) ==> ids::texts(found@).contains(id),
                forall|id: Seq<char>, p: Seq<char>|
                    seen@.contains(id) && s.on_route(id) && #[trigger] s.is_parent(p, id)
                        ==> seen@.contains(p) || ids::texts(stack@).contains(p),
            decreases known.difference(seen@).len(), stack@.len(),
        {
            let ghost stack0 = ids::texts(stack@);
            let ghost seen0 = seen@;
            let ghost found0 = ids::texts(found@);
            let cur: ResearchNodeId = stack.pop().unwrap();
            let ghost c = cur@;
            let ghost rest = ids::texts(stack@);
            assert(stack0 =~= rest.push(c));
            proof {
                ids::lemma_contains_push_any(rest, c);
                assert(stack0.contains(c));
                assert(known.difference(seen0).finite());
            }
            if !seen.insert(cur.clone()) {
                assert(seen@ =~= seen0);
                continue ;
            }
            proof {
                assert(known.difference(seen@) =~= known.difference(seen0).remove(c));
                lemma_shrinks(known.difference(seen0), c);
            }
            if self.is_developed(&cur) {
                continue ;
            }
            match self.data.find_node(&cur) {
                None => {},
                Some(node) => {
                    proof {
                        lemma_node_known(s.data.research, c, 0);
                        assert(s.on_route(c));
                        lemma_leads_on_route(s, c, t);
                    }
                    let ghost parents = node@.parents;
                    let mut i: usize = 0;
                    while i < node.parents.len()
                        invariant
                            s == self@,
                            i <= node.parents@.len(),
                            s.data.node(c) == Some(node@),
                            parents == node@.parents,
                            s.stands_before(c, t),
                            forall|k: Seq<char>| #[trigger] rest.contains(k) ==> s.leads_to(k, t),
                            forall|k: Seq<char>| #[trigger]
                                ids::texts(stack@).contains(k) ==> s.leads_to(k, t),
                            forall|k: Seq<char>| #[trigger]
                                rest.contains(k) ==> ids::texts(stack@).contains(k),
                            forall|j: int|
                                0 <= j < i ==> ids::texts(stack@).contains(#[trigger] parents[j]),
                        decreases node.parents@.len() - i,
                    {
                        let ghost before = ids::texts(stack@);
                        let p: ResearchNodeId = node.parents[i].clone();
                        stack.push(p);
                        assert(ids::texts(stack@) =~= before.push(p@));
                        proof {
                            assert(parents[i as int] == p@);
                            assert(s.is_parent(p@, c));
                            assert(s.leads_to(p@, t));
                            ids::lemma_contains_push_any(before, p@);
                        }
                        i += 1;
                    }
                    found.push(cur);
                    assert(ids::texts(found@) =~= found0.push(c));
                    proof {
                        ids::lemma_contains_push_any(found0, c);
                        assert forall|id: Seq<char>, p: Seq<char>|
                            seen@.contains(id) && s.on_route(id) && #[trigger] s.is_parent(
                                p,
                                id,
                            ) implies seen@.contains(p) || ids::texts(stack@).contains(p) by {
                            if id == c {
                                let j = choose|j: int|
                                    0 <= j < parents.len() && parents[j] == p;
                                assert(ids::texts(stack@).contains(parents[j]));
                            } else {
                                assert(seen0.contains(id));
                                if !seen0.contains(p) && p != c {
                                    assert(rest.contains(p));
                                }
                            }
                        }
                    }
                },
            }
        }
        proof {
            assert(ids::texts(stack@).len() == 0);
            assert forall|id: Seq<char>| #[trigger] s.stands_before(id, t) implies ids::texts(
                found@,
            ).contains(id) by {
                let chain = choose|chain: Seq<Seq<char>>| s.is_chain(chain, id, t);
                lemma_closed_under_chains(s, seen@, chain, id, t, chain.len() - 1);
                assert(s.on_route(chain[chain.len() - 1]));
            }
        }
        found
    }

    /// Tracks and pins a blueprint and every prerequisite that still stands
    /// between the user and it. Branches that are developed are left alone.
    pub fn focus_research(&mut self, id: &ResearchNodeId)
        ensures
            final(self)@ == old(self)@.focused(id@),
    {
        let ghost was = self@;
        let to_focus: Vec<ResearchNodeId> = self.nodes_on_route(id);
        let ghost ids = ids::texts(to_focus@);
        let ghost route = was.route(id@);
        if to_focus.len() == 0 {
            proof {
                if was.on_route(id@) {
                    assert(was.is_chain(seq![id@], id@, id@));
                    assert(was.stands_before(id@, id@));
                    assert(ids.contains(id@));
                }
            }
            return ;
        }
        proof {
            assert(ids.contains(ids[0]));
            assert(was.stands_before(ids[0], id@));
            let chain = choose|chain: Seq<Seq<char>>| was.is_chain(chain, ids[0], id@);
            assert(was.on_route(chain[0]));
        }
        let mut i: usize = 0;
        while i < to_focus.len()
            invariant
                i <= to_focus@.len(),
                ids == ids::texts(to_focus@),
                self@ == (StateView {
                    tracked_research: was.tracked_research.union(ids.take(i as int).to_set()),
                    pinned_research: was.pinned_research.union(ids.take(i as int).to_set()),
                    ..was
                }),
            decreases to_focus@.len() - i,
        {
            let ghost x = ids[i as int];
            let ghost done = ids.take(i as int);
            self.tracked_research.insert(to_focus[i].clone());
            self.pinned_research.insert(to_focus[i].clone());
            proof {
                assert(ids.take(i + 1) =~= done.push(x));
                ids::lemma_contains_push_any(done, x);
                assert(ids.take(i + 1).to_set() =~= done.to_set().insert(x));
                assert(was.tracked_research.union(done.to_set()).insert(x)
                    =~= was.tracked_research.union(ids.take(i + 1).to_set()));
                assert(was.pinned_research.union(done.to_set()).insert(x)
                    =~= was.pinned_research.union(ids.take(i + 1).to_set()));
            }
            i += 1;
        }
        proof {
            assert(ids.take(ids.len() as int) =~= ids);
            assert(ids.to_set() =~= route) by {
                assert forall|k: Seq<char>| ids.to_set().contains(k) == route.contains(k) by {
                    assert(ids.contains(k) <==> was.stands_before(k, id@));
                }
            }
        }
        self.bump();
    }

    fn samples_of(&self, id: &ResearchNodeId) -> (r: Vec<Requirement>)
        ensures
            data::reqs_view(r@) == self@.samples(id@),
    {
        match self.data.find_node(id) {
            Some(node) => crate::data::clone_requirements(&node.samples),
            None => {
                let r: Vec<Requirement> = Vec::new();
                assert(data::reqs_view(r@) =~= Seq::<ReqView>::empty());
                r
            },
        }
    }

    /// How complete the samples of a node are.
    pub fn research_progress(&self, id: &ResearchNodeId) -> (r: UpgradeProgress)
        requires
            progress::total_quantity(self@.samples(id@)) <= u32::MAX,
        ensures
            r.collected == self@.gathered(self@.samples(id@)),
            r.needed == progress::total_quantity(self@.samples(id@)),
            r.collected <= r.needed,
    {
        let samples: Vec<Requirement> = self.samples_of(id);
        self.progress_over(&samples)
    }
}

} // verus!
