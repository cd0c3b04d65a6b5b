//! When a research node can be developed.

use crate::data;
use crate::data::NodeView;
use crate::state::{ResearchNodeState, ResearchStatus, StateView};
use vstd::prelude::*;

verus! {

/// A node can be developed just where nothing is recorded of it, the data
/// knows it, and every one of its parents is recorded as developed.
pub proof fn law_available_needs_every_parent(s: StateView, id: Seq<char>, n: NodeView)
    requires
        s.data.node(id) == Some(n),
        !s.research_states.contains_key(id),
    ensures
        s.status(id) == ResearchStatus::Available ==> forall|i: int|
            0 <= i < n.parents.len() ==> s.research_states.contains_key(#[trigger] n.parents[i])
                && s.research_states[n.parents[i]] == ResearchNodeState::Developed,
        (forall|i: int|
            0 <= i < n.parents.len() ==> s.research_states.contains_key(#[trigger] n.parents[i])
                && s.research_states[n.parents[i]] == ResearchNodeState::Developed)
            ==> s.status(id) == ResearchStatus::Available,
        s.status(id) == ResearchStatus::Available || s.status(id) == ResearchStatus::Locked,
        s.status(id) == ResearchStatus::Available <==> s.unlocked(id),
{
    assert(s.data.node(id).unwrap() == n);
    if s.unlocked(id) {
        assert forall|i: int| 0 <= i < n.parents.len() implies s.developed(
            #[trigger] n.parents[i],
        ) by {}
    }
}

/// One parent that is not developed locks a node of which nothing is recorded.
pub proof fn law_one_parent_locks(s: StateView, id: Seq<char>, n: NodeView, p: Seq<char>)
    requires
        s.data.node(id) == Some(n),
        !s.research_states.contains_key(id),
        n.parents.contains(p),
        !s.research_states.contains_key(p) || s.research_states[p] == ResearchNodeState::InProgress,
    ensures
        s.status(id) == ResearchStatus::Locked,
        !s.unlocked(id),
{
    assert(s.data.node(id).unwrap() == n);
    let k = choose|k: int| 0 <= k < n.parents.len() && n.parents[k] == p;
    assert(!s.developed(n.parents[k]));
}

/// What is recorded of a node is its status, whatever its parents are. A node
/// that the data does not know, and of which nothing is recorded, is locked.
pub proof fn law_recorded_status_wins(s: StateView, id: Seq<char>)
    ensures
        s.research_states.contains_key(id) && s.research_states[id] == ResearchNodeState::Developed
            <==> s.status(id) == ResearchStatus::Developed,
        s.research_states.contains_key(id) && s.research_states[id] == ResearchNodeState::InProgress
            <==> s.status(id) == ResearchStatus::InProgress,
        !s.research_states.contains_key(id) && s.data.node(id) is None ==> s.status(id)
            == ResearchStatus::Locked,
        s.data.node(id) is None ==> !s.unlocked(id),
        s.developed(id) <==> s.status(id) == ResearchStatus::Developed,
{
}

/// To record a node as developed can unlock others, and locks none; to forget
/// a node can lock others, and unlocks none.
pub proof fn law_developing_unlocks(s: StateView, id: Seq<char>, other: Seq<char>)
    requires
        s.unlocked(other),
    ensures
        s.with_research_state(id, Some(ResearchNodeState::Developed)).unlocked(other),
        s.data.node(other) matches Some(n) && !n.parents.contains(id) ==> s.with_research_state(
            id,
            None,
        ).unlocked(other),
        s.data.node(other) matches Some(n) && n.parents.contains(id) ==> !s.with_research_state(
            id,
            None,
        ).unlocked(other),
{
    let n = s.data.node(other).unwrap();
    let on = s.with_research_state(id, Some(ResearchNodeState::Developed));
    let off = s.with_research_state(id, None);
    assert forall|i: int| 0 <= i < n.parents.len() implies on.developed(#[trigger] n.parents[i]) by {
        assert(s.developed(n.parents[i]));
    }
    if n.parents.contains(id) {
        let k = choose|k: int| 0 <= k < n.parents.len() && n.parents[k] == id;
        assert(!off.developed(n.parents[k]));
    } else {
        assert forall|i: int| 0 <= i < n.parents.len() implies off.developed(
            #[trigger] n.parents[i],
        ) by {
            assert(s.developed(n.parents[i]));
            assert(n.parents.contains(n.parents[i]));
        }
    }
}

/// To record a state of a node changes the status of that node to it, keeps
/// what is recorded of every other one, and takes the node off the wishlist
/// just where it is developed.
pub proof fn law_recording_research(
    s: StateView,
    id: Seq<char>,
    state: Option<ResearchNodeState>,
    other: Seq<char>,
)
    requires
        other != id,
    ensures
        state == Some(ResearchNodeState::Developed) ==> s.with_research_state(id, state).status(id)
            == ResearchStatus::Developed,
        state == Some(ResearchNodeState::InProgress) ==> s.with_research_state(id, state).status(id)
            == ResearchStatus::InProgress,
        state is None ==> !s.with_research_state(id, state).research_states.contains_key(id),
        s.with_research_state(id, state).research_states.contains_key(other)
            == s.research_states.contains_key(other),
        s.research_states.contains_key(other) ==> s.with_research_state(id, state).research_states[other]
            == s.research_states[other],
        s.with_research_state(id, state).tracked_research.contains(other)
            == s.tracked_research.contains(other),
        s.with_research_state(id, state).tracked_research.contains(id) == (
        s.tracked_research.contains(id) && state != Some(ResearchNodeState::Developed)),
        s.with_research_state(id, state).pinned_research == s.pinned_research,
        s.with_research_state(id, state).collected == s.collected,
        s.with_research_state(id, state).completed == s.completed,
{
}

/// A node is found under its id, wherever in the categories it stands; the
/// first one where several have it.
pub proof fn law_node_is_found(s: StateView, c: int, j: int)
    requires
        0 <= c < s.data.research.len(),
        0 <= j < s.data.research[c].len(),
    ensures
        s.data.node(s.data.research[c][j].id) matches Some(n) && n.id == s.data.research[c][j].id,
{
    data::lemma_node_from(s.data.research, s.data.research[c][j].id, 0);
}

/// A focus goes from a node that it reaches to every one of its parents that
/// the data knows and that is not developed.
pub proof fn law_focus_reaches_every_parent(
    s: StateView,
    target: Seq<char>,
    id: Seq<char>,
    n: NodeView,
    k: int,
)
    requires
        s.stands_before(id, target),
        s.data.node(id) == Some(n),
        0 <= k < n.parents.len(),
        s.data.node(n.parents[k]) is Some,
        !s.research_states.contains_key(n.parents[k]) || s.research_states[n.parents[k]]
            == ResearchNodeState::InProgress,
    ensures
        s.stands_before(n.parents[k], target),
        s.focused(target).tracked_research.contains(n.parents[k]),
        s.focused(target).pinned_research.contains(n.parents[k]),
{
    let p = n.parents[k];
    assert(s.data.node(id).unwrap() == n);
    assert(n.parents.contains(p));
    let chain = choose|chain: Seq<Seq<char>>| s.is_chain(chain, id, target);
    let longer = chain.push(p);
    assert(s.on_route(chain[0]));
    assert forall|i: int| 0 <= i < longer.len() implies s.on_route(#[trigger] longer[i]) by {
        if i < chain.len() {
            assert(s.on_route(chain[i]));
        }
    }
    assert forall|i: int| 0 <= i < longer.len() - 1 implies s.is_parent(
        longer[i + 1],
        #[trigger] longer[i],
    ) by {
        if i < chain.len() - 1 {
            assert(s.is_parent(chain[i + 1], chain[i]));
        }
    }
    assert(s.is_chain(longer, p, target));
    assert(s.route(target).contains(p));
}

/// A focus reaches the target itself where the data knows it and it is not
/// developed, and changes nothing where it is not so.
pub proof fn law_focus_starts_at_the_target(s: StateView, target: Seq<char>)
    ensures
        s.data.node(target) is Some && (!s.research_states.contains_key(target)
            || s.research_states[target] == ResearchNodeState::InProgress) ==> s.stands_before(
            target,
            target,
        ) && s.focused(target).tracked_research.contains(target),
        s.data.node(target) is None || s.research_states.contains_key(target)
            && s.research_states[target] == ResearchNodeState::Developed ==> s.focused(target) == s,
{
    if s.on_route(target) {
        assert(s.is_chain(seq![target], target, target));
        assert(s.route(target).contains(target));
    }
}

/// A focus tracks and pins nothing but what stands before the target: known
/// nodes that are not developed, each the target or a parent of another one.
/// Nothing else changes.
pub proof fn law_focus_reaches_nothing_else(s: StateView, target: Seq<char>, id: Seq<char>)
    requires
        s.focused(target).tracked_research.contains(id),
        !s.tracked_research.contains(id),
    ensures
        s.data.node(id) is Some,
        !s.research_states.contains_key(id) || s.research_states[id]
            == ResearchNodeState::InProgress,
        id == target || exists|c: Seq<char>, n: NodeView|
            #[trigger] s.stands_before(c, target) && s.data.node(c) == Some(n)
                && #[trigger] n.parents.contains(id),
        s.focused(target).pinned_research.contains(id),
        s.focused(target).research_states == s.research_states,
        s.focused(target).collected == s.collected,
        s.focused(target).tracking == s.tracking,
{
    assert(s.route(target).contains(id));
    let chain = choose|chain: Seq<Seq<char>>| s.is_chain(chain, id, target);
    assert(s.on_route(chain[chain.len() - 1]));
    if chain.len() > 1 {
        let m = chain.len() - 2;
        let c = chain[m];
        assert(s.is_parent(chain[m + 1], chain[m]));
        let short = chain.drop_last();
        assert(s.is_chain(short, c, target)) by {
            assert forall|i: int| 0 <= i < short.len() implies s.on_route(#[trigger] short[i]) by {
                assert(s.on_route(chain[i]));
            }
            assert forall|i: int| 0 <= i < short.len() - 1 implies s.is_parent(
                short[i + 1],
                #[trigger] short[i],
            ) by {
                assert(s.is_parent(chain[i + 1], chain[i]));
            }
        }
        assert(s.stands_before(c, target));
        let n = s.data.node(c).unwrap();
        assert(n.parents.contains(id));
    }
}

} // verus!
