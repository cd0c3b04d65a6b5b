//! What is written to disk of the state, and how it is merged back into a
//! fresh state under data that may have changed since.

use crate::data;
use crate::ids;
use crate::state;
use crate::text;
use crate::data::{recipe_hash, DataView, GameData, OverrideView, RecipeOverride};
use crate::ids::{IdMap, IdSet};
use crate::state::{
    AppState, Container, ContainerView, ResearchNodeState, StateView, OVERRIDES_SCHEMA_VERSION,
    STATE_SCHEMA_VERSION,
};
use crate::text::{join, push_decimal};
use vstd::prelude::*;
use vstd::string::*;

verus! {

/// What an id names.
#[derive(Debug, Clone, Copy, PartialEq, Eq, Structural)]
pub enum IdKind {
    Upgrade,
    Research,
    Module,
}

impl DataView {
    /// Whether the data knows what `id` names.
    pub open spec fn knows(self, kind: IdKind, id: Seq<char>) -> bool {
        match kind {
            IdKind::Upgrade => self.knows_upgrade(id),
            IdKind::Research => self.node(id) is Some,
            IdKind::Module => self.knows_module(id),
        }
    }

    /// The ids of `ids` that the data knows, in order.
    pub open spec fn known_of(self, kind: IdKind, ids: Seq<Seq<char>>) -> Seq<Seq<char>>
        decreases ids.len(),
    {
        if ids.len() == 0 {
            Seq::empty()
        } else if self.knows(kind, ids.last()) {
            self.known_of(kind, ids.drop_last()).push(ids.last())
        } else {
            self.known_of(kind, ids.drop_last())
        }
    }

    /// The ids of a set that the data knows.
    pub open spec fn known_in(self, kind: IdKind, ids: Set<Seq<char>>) -> Set<Seq<char>> {
        ids.filter(|id: Seq<char>| self.knows(kind, id))
    }
}

proof fn lemma_known_of(d: DataView, kind: IdKind, ids: Seq<Seq<char>>)
    ensures
        forall|id: Seq<char>|
            #[trigger] d.known_of(kind, ids).contains(id) == (ids.contains(id) && d.knows(kind, id)),
        d.known_of(kind, ids).len() <= ids.len(),
    decreases ids.len(),
{
    if ids.len() > 0 {
        let init = ids.drop_last();
        lemma_known_of(d, kind, init);
        ids::lemma_contains_push_any(init, ids.last());
        ids::lemma_contains_push_any(d.known_of(kind, init), ids.last());
        assert(ids =~= init.push(ids.last()));
    }
}

fn knows(data: &GameData, kind: IdKind, id: &String) -> (r: bool)
    ensures
        r == data@.knows(kind, id@),
{
    match kind {
        IdKind::Upgrade => data.find_upgrade(id).is_some(),
        IdKind::Research => data.find_node(id).is_some(),
        IdKind::Module => data.find_module(id).is_some(),
    }
}

/// The ids of `set` that the data knows, and how many it does not know.
pub fn filter_known(set: &IdSet, data: &GameData, kind: IdKind) -> (r: (IdSet, usize))
    ensures
        r.0.order() == data@.known_of(kind, set.order()),
        r.0@ == data@.known_in(kind, set@),
        r.1 == set.order().len() - r.0.order().len(),
{
    let ghost d = data@;
    let ghost ids = set.order();
    proof {
        use_type_invariant(set);
        set.lemma_distinct();
    }
    let mut kept: IdSet = IdSet::new();
    let mut i: usize = 0;
    assert(kept.order() =~= d.known_of(kind, ids.take(0)));
    while i < set.len()
        invariant
            i <= ids.len(),
            d == data@,
            ids == set.order(),
            ids.no_duplicates(),
            kept.order() == d.known_of(kind, ids.take(i as int)),
        decreases ids.len() - i,
    {
        let id: &String = set.at(i);
        proof {
            assert(ids.take(i + 1).drop_last() =~= ids.take(i as int));
            assert(ids.take(i + 1).last() == id@);
            lemma_known_of(d, kind, ids.take(i as int));
            if kept.order().contains(id@) {
                let j = choose|j: int| 0 <= j < i && ids.take(i as int)[j] == id@;
                assert(ids[j] == ids[i as int]);
            }
        }
        if knows(data, kind, id) {
            kept.insert(id.clone());
        }
        i += 1;
    }
    proof {
        assert(ids.take(ids.len() as int) =~= ids);
        lemma_known_of(d, kind, ids);
        assert(kept@ =~= d.known_in(kind, set@));
    }
    let dropped: usize = set.len() - kept.len();
    (kept, dropped)
}

/// What is written to disk of the state.
pub struct PersistedState {
    pub schema_version: u32,
    pub data_version: String,
    pub tracked_upgrades: IdSet,
    pub completed_upgrades: IdSet,
    pub pinned_upgrades: IdSet,
    pub collected: IdMap<u32>,
    pub disabled_modules: IdSet,
    pub containers: Vec<Container>,
    pub next_container_seq: u64,
    pub default_shelf_seeded: bool,
    pub gunsmith_storage_seeded: bool,
    pub research_states: IdMap<ResearchNodeState>,
    pub tracked_research: IdSet,
    pub pinned_research: IdSet,
}

/// What a [`PersistedState`] says.
#[verifier::ext_equal]
pub struct PersistedView {
    pub schema_version: u32,
    pub data_version: Seq<char>,
    pub tracking: Set<Seq<char>>,
    pub completed: Set<Seq<char>>,
    pub pinned: Set<Seq<char>>,
    pub collected: Map<Seq<char>, u32>,
    pub disabled_modules: Set<Seq<char>>,
    pub containers: Seq<ContainerView>,
    pub next_container_seq: u64,
    pub default_shelf_seeded: bool,
    pub gunsmith_storage_seeded: bool,
    pub research_states: Map<Seq<char>, ResearchNodeState>,
    pub tracked_research: Set<Seq<char>>,
    pub pinned_research: Set<Seq<char>>,
}

impl View for PersistedState {
    type V = PersistedView;

    open spec fn view(&self) -> PersistedView {
        PersistedView {
            schema_version: self.schema_version,
            data_version: self.data_version@,
            tracking: self.tracked_upgrades@,
            completed: self.completed_upgrades@,
            pinned: self.pinned_upgrades@,
            collected: self.collected@,
            disabled_modules: self.disabled_modules@,
            containers: state::containers_view(self.containers@),
            next_container_seq: self.next_container_seq,
            default_shelf_seeded: self.default_shelf_seeded,
            gunsmith_storage_seeded: self.gunsmith_storage_seeded,
            research_states: self.research_states@,
            tracked_research: self.tracked_research@,
            pinned_research: self.pinned_research@,
        }
    }
}

impl StateView {
    /// What is written to disk of the state.
    pub open spec fn persisted(self) -> PersistedView {
        PersistedView {
            schema_version: STATE_SCHEMA_VERSION,
            data_version: self.data.data_version,
            tracking: self.tracking,
            completed: self.completed,
            pinned: self.pinned,
            collected: self.collected,
            disabled_modules: self.disabled_modules,
            containers: self.containers,
            next_container_seq: self.next_container_seq,
            default_shelf_seeded: self.default_shelf_seeded,
            gunsmith_storage_seeded: self.gunsmith_storage_seeded,
            research_states: self.research_states,
            tracked_research: self.tracked_research,
            pinned_research: self.pinned_research,
        }
    }

    /// The state with what was read from disk merged in: ids that the data no
    /// longer knows are left out, counts and containers carry over as they
    /// are.
    pub open spec fn merged(self, p: PersistedView) -> StateView {
        let d = self.data;
        StateView {
            tracking: d.known_in(IdKind::Upgrade, p.tracking),
            completed: d.known_in(IdKind::Upgrade, p.completed),
            pinned: d.known_in(IdKind::Upgrade, p.pinned),
            tracked_research: d.known_in(IdKind::Research, p.tracked_research),
            pinned_research: d.known_in(IdKind::Research, p.pinned_research),
            research_states: p.research_states.restrict(
                d.known_in(IdKind::Research, p.research_states.dom()),
            ),
            disabled_modules: d.known_in(IdKind::Module, p.disabled_modules),
            collected: p.collected,
            containers: p.containers,
            next_container_seq: p.next_container_seq,
            default_shelf_seeded: p.default_shelf_seeded,
            gunsmith_storage_seeded: p.gunsmith_storage_seeded,
            ..self
        }.bumped()
    }
}

/// One warning where `cond` holds, else none.
pub open spec fn warn_if(cond: bool, warning: Seq<char>) -> Seq<Seq<char>> {
    if cond {
        seq![warning]
    } else {
        Seq::empty()
    }
}

/// The warnings in one text, or nothing where there are none.
pub open spec fn warning_text(warnings: Seq<Seq<char>>) -> Option<Seq<char>> {
    if warnings.len() == 0 {
        None
    } else {
        Some(text::joined(warnings, " "@))
    }
}

fn warning_of(warnings: &Vec<String>) -> (r: Option<String>)
    ensures
        text::opt_text(r) == warning_text(ids::texts(warnings@)),
{
    if warnings.len() == 0 {
        None
    } else {
        Some(join(warnings, " "))
    }
}

fn push_warning(warnings: &mut Vec<String>, cond: bool, warning: String)
    ensures
        ids::texts(final(warnings)@) == ids::texts(old(warnings)@) + warn_if(cond, warning@),
{
    let ghost was = warnings@;
    if cond {
        warnings.push(warning);
    }
    assert(ids::texts(warnings@) =~= ids::texts(was) + warn_if(cond, warning@));
}

/// A count between two texts.
fn counted(before: &str, n: usize, after: &str) -> (r: String)
    ensures
        r@ == before@ + text::decimal(n as nat) + after@,
{
    let mut r: String = before.to_owned();
    push_decimal(&mut r, n as u64);
    r.append(after);
    r
}

/// Two texts between three.
fn framed(a: &str, x: &String, b: &str, y: &String, c: &str) -> (r: String)
    ensures
        r@ == a@ + x@ + b@ + y@ + c@,
{
    let mut r: String = a.to_owned();
    r.append(x.as_str());
    r.append(b);
    r.append(y.as_str());
    r.append(c);
    r
}

impl PersistedState {
    /// What is written to disk of `state`.
    pub fn from_app(state: &AppState) -> (p: Self)
        ensures
            p@ == state@.persisted(),
            p.tracked_upgrades.order() == state.tracked_upgrades.order(),
            p.tracked_research.order() == state.tracked_research.order(),
    {
        PersistedState {
            schema_version: STATE_SCHEMA_VERSION,
            data_version: state.data.data_version.clone(),
            tracked_upgrades: state.tracked_upgrades.clone(),
            completed_upgrades: state.completed_upgrades.clone(),
            pinned_upgrades: state.pinned_upgrades.clone(),
            collected: state.collected.copied(),
            disabled_modules: state.disabled_modules.clone(),
            containers: clone_containers(&state.containers),
            next_container_seq: state.next_container_seq,
            default_shelf_seeded: state.default_shelf_seeded,
            gunsmith_storage_seeded: state.gunsmith_storage_seeded,
            research_states: state.research_states.copied(),
            tracked_research: state.tracked_research.clone(),
            pinned_research: state.pinned_research.clone(),
        }
    }

    /// The warnings that merging under the data `d` gives: the data version
    /// changed, tracked upgrades were dropped, tracked nodes were dropped.
    /// Lost pins and states are not worth one.
    pub open spec fn warnings(&self, d: DataView) -> Seq<Seq<char>> {
        let ups = self.tracked_upgrades.order();
        let nodes = self.tracked_research.order();
        let lost_ups = (ups.len() - d.known_of(IdKind::Upgrade, ups).len()) as nat;
        let lost_nodes = (nodes.len() - d.known_of(IdKind::Research, nodes).len()) as nat;
        warn_if(
            self.data_version@ != d.data_version,
            "Game data updated ("@ + self.data_version@ + " → "@ + d.data_version
                + "); rechecking tracked items."@,
        ) + warn_if(
            lost_ups > 0,
            "Dropped "@ + text::decimal(lost_ups) + " tracked upgrade(s) no longer present in data."@,
        ) + warn_if(
            lost_nodes > 0,
            "Dropped "@ + text::decimal(lost_nodes)
                + " tracked research node(s) no longer present in data."@,
        )
    }

    /// Merges what was read from disk into `state`, leaving out ids that the
    /// current data does not know. A warning tells what was lost.
    pub fn merge_into(self, state: &mut AppState) -> (warning: Option<String>)
        ensures
            final(state)@ == old(state)@.merged(self@),
            final(state).tracked_upgrades.order() == old(state)@.data.known_of(
                IdKind::Upgrade,
                self.tracked_upgrades.order(),
            ),
            final(state).tracked_research.order() == old(state)@.data.known_of(
                IdKind::Research,
                self.tracked_research.order(),
            ),
            text::opt_text(warning) == warning_text(self.warnings(old(state)@.data)),
    {
        let ghost was = state@;
        let ghost d = was.data;
        let mut warnings: Vec<String> = Vec::new();
        assert(ids::texts(warnings@) =~= Seq::<Seq<char>>::empty());
        push_warning(
            &mut warnings,
            self.data_version != state.data.data_version,
            framed(
                "Game data updated (",
                &self.data_version,
                " → ",
                &state.data.data_version,
                "); rechecking tracked items.",
            ),
        );
        let (kept_upgrades, dropped_upgrades): (IdSet, usize) = filter_known(
            &self.tracked_upgrades,
            &state.data,
            IdKind::Upgrade,
        );
        let (kept_done, _): (IdSet, usize) = filter_known(
            &self.completed_upgrades,
            &state.data,
            IdKind::Upgrade,
        );
        let (kept_pinned, _): (IdSet, usize) = filter_known(
            &self.pinned_upgrades,
            &state.data,
            IdKind::Upgrade,
        );
        push_warning(
            &mut warnings,
            dropped_upgrades > 0,
            counted(
                "Dropped ",
                dropped_upgrades,
                " tracked upgrade(s) no longer present in data.",
            ),
        );
        let (kept_tracked_research, dropped_research): (IdSet, usize) = filter_known(
            &self.tracked_research,
            &state.data,
            IdKind::Research,
        );
        push_warning(
            &mut warnings,
            dropped_research > 0,
            counted(
                "Dropped ",
                dropped_research,
                " tracked research node(s) no longer present in data.",
            ),
        );
        let kept_states: IdMap<ResearchNodeState> = known_states(
            &self.research_states,
            &state.data,
        );
        let (kept_pinned_research, _): (IdSet, usize) = filter_known(
            &self.pinned_research,
            &state.data,
            IdKind::Research,
        );
        let (kept_disabled, _): (IdSet, usize) = filter_known(
            &self.disabled_modules,
            &state.data,
            IdKind::Module,
        );
        state.tracked_upgrades = kept_upgrades;
        state.completed_upgrades = kept_done;
        state.pinned_upgrades = kept_pinned;
        state.tracked_research = kept_tracked_research;
        state.research_states = kept_states;
        state.pinned_research = kept_pinned_research;
        state.disabled_modules = kept_disabled;
        state.collected = self.collected;
        state.containers = self.containers;
        state.next_container_seq = self.next_container_seq;
        state.default_shelf_seeded = self.default_shelf_seeded;
        state.gunsmith_storage_seeded = self.gunsmith_storage_seeded;
        state.bump();
        assert(ids::texts(warnings@) =~= self.warnings(d));
        assert(state@ =~= was.merged(self@));
        warning_of(&warnings)
    }
}

fn known_states(states: &IdMap<ResearchNodeState>, data: &GameData) -> (r: IdMap<ResearchNodeState>)
    ensures
        r@ == states@.restrict(data@.known_in(IdKind::Research, states@.dom())),
{
    let ghost d = data@;
    let ghost ids = states.order();
    let mut r: IdMap<ResearchNodeState> = IdMap::new();
    let mut i: usize = 0;
    while i < states.len()
        invariant
            i <= ids.len(),
            d == data@,
            ids == states.order(),
            forall|id: Seq<char>|
                #[trigger] r@.contains_key(id) <==> ids.take(i as int).contains(id) && d.knows(
                    IdKind::Research,
                    id,
                ),
            forall|id: Seq<char>| #[trigger]
                r@.contains_key(id) ==> states@.contains_key(id) && r@[id] == states@[id],
        decreases ids.len() - i,
    {
        let id: &String = states.key_at(i);
        let value: ResearchNodeState = *states.value_at(i);
        proof {
            assert(ids.take(i + 1) =~= ids.take(i as int).push(id@));
            ids::lemma_contains_push_any(ids.take(i as int), id@);
        }
        if knows(data, IdKind::Research, id) {
            r.insert(id.clone(), value);
        }
        i += 1;
    }
    proof {
        assert(ids.take(ids.len() as int) =~= ids);
        assert(r@ =~= states@.restrict(d.known_in(IdKind::Research, states@.dom())));
    }
    r
}

/// A copy of a list of containers.
pub fn clone_containers(cs: &Vec<Container>) -> (r: Vec<Container>)
    ensures
        state::containers_view(r@) == state::containers_view(cs@),
{
    let mut r: Vec<Container> = Vec::new();
    let mut i: usize = 0;
    while i < cs.len()
        invariant
            i <= cs@.len(),
            r@.len() == i,
            forall|j: int| 0 <= j < i ==> (#[trigger] r@[j])@ == cs@[j]@,
        decreases cs@.len() - i,
    {
        r.push(cs[i].clone());
        i += 1;
    }
    assert(state::containers_view(r@) =~= state::containers_view(cs@));
    r
}

/// What is written to disk of the recipe corrections. It lies beside the
/// state, so that a broken one never takes the user's progress down with it.
pub struct PersistedOverrides {
    pub schema_version: u32,
    pub data_version: String,
    pub overrides: IdMap<RecipeOverride>,
}

/// What the corrections in a map say.
pub open spec fn overrides_view(m: Map<Seq<char>, RecipeOverride>) -> Map<Seq<char>, OverrideView> {
    m.map_values(|o: RecipeOverride| o@)
}

impl DataView {
    /// Whether the correction `o` of the upgrade `id` is based on another
    /// recipe than the bundled one. One that is not stamped is never taken to
    /// be.
    pub open spec fn supersedes(self, id: Seq<char>, o: OverrideView) -> bool {
        self.knows_upgrade(id) && match o.base_hash {
            Some(h) => h != data::recipe_stamp(self.upgrade(id).requirements),
            None => false,
        }
    }

    /// Whether the correction `o` of the upgrade `id` is kept.
    pub open spec fn keeps(self, id: Seq<char>, o: OverrideView) -> bool {
        self.knows_upgrade(id) && !self.supersedes(id, o)
    }

    /// How many of `ids` the data does not know as upgrades.
    pub open spec fn count_unknown(self, ids: Seq<Seq<char>>) -> nat
        decreases ids.len(),
    {
        if ids.len() == 0 {
            0
        } else {
            self.count_unknown(ids.drop_last()) + if self.knows_upgrade(ids.last()) {
                0nat
            } else {
                1nat
            }
        }
    }

    /// How many corrections of `ids` are superseded.
    pub open spec fn count_superseded(
        self,
        ids: Seq<Seq<char>>,
        m: Map<Seq<char>, OverrideView>,
    ) -> nat
        decreases ids.len(),
    {
        if ids.len() == 0 {
            0
        } else {
            self.count_superseded(ids.drop_last(), m) + if self.supersedes(
                ids.last(),
                m[ids.last()],
            ) {
                1nat
            } else {
                0nat
            }
        }
    }

    /// The corrections of `m` that are kept.
    pub open spec fn kept_overrides(self, m: Map<Seq<char>, OverrideView>) -> Map<
        Seq<char>,
        OverrideView,
    > {
        m.restrict(m.dom().filter(|id: Seq<char>| self.keeps(id, m[id])))
    }
}

fn clone_overrides(m: &IdMap<RecipeOverride>) -> (r: IdMap<RecipeOverride>)
    ensures
        overrides_view(r@) == overrides_view(m@),
        r.order() == m.order(),
{
    proof {
        use_type_invariant(m);
        m.lemma_distinct();
    }
    let ghost ids = m.order();
    let mut r: IdMap<RecipeOverride> = IdMap::new();
    let mut i: usize = 0;
    while i < m.len()
        invariant
            i <= ids.len(),
            ids == m.order(),
            ids.no_duplicates(),
            r.order() == ids.take(i as int),
            forall|id: Seq<char>| #[trigger]
                r@.contains_key(id) ==> m@.contains_key(id) && r@[id]@ == m@[id]@,
        decreases ids.len() - i,
    {
        let ghost id = ids[i as int];
        proof {
            if ids.take(i as int).contains(id) {
                let j = choose|j: int| 0 <= j < i && ids.take(i as int)[j] == id;
                assert(ids[j] == ids[i as int]);
            }
            assert(ids.take(i + 1) =~= ids.take(i as int).push(id));
        }
        r.insert(m.key_at(i).clone(), m.value_at(i).clone());
        i += 1;
    }
    assert(ids.take(ids.len() as int) =~= ids);
    assert(overrides_view(r@) =~= overrides_view(m@));
    r
}

impl PersistedOverrides {
    /// What is written to disk of the corrections in `state`.
    pub fn from_app(state: &AppState) -> (p: Self)
        ensures
            p.schema_version == OVERRIDES_SCHEMA_VERSION,
            p.data_version@ == state@.data.data_version,
            overrides_view(p.overrides@) == state@.overrides,
            p.overrides.order() == state.overrides.order(),
    {
        PersistedOverrides {
            schema_version: OVERRIDES_SCHEMA_VERSION,
            data_version: state.data.data_version.clone(),
            overrides: clone_overrides(&state.overrides),
        }
    }

    /// The warnings that merging under the data `d` gives.
    pub open spec fn warnings(&self, d: DataView) -> Seq<Seq<char>> {
        let ids = self.overrides.order();
        let dropped = d.count_unknown(ids);
        let superseded = d.count_superseded(ids, overrides_view(self.overrides@));
        warn_if(
            self.data_version@ != d.data_version,
            "Recipe overrides were saved against data "@ + self.data_version@ + " (now "@
                + d.data_version + "); rechecking."@,
        ) + warn_if(
            dropped > 0,
            "Dropped "@ + text::decimal(dropped)
                + " recipe override(s) for upgrade(s) no longer present."@,
        ) + warn_if(
            superseded > 0,
            "Discarded "@ + text::decimal(superseded)
                + " recipe correction(s) now covered by the official dataset."@,
        )
    }

    /// Merges the corrections read from disk into `state`. Those of upgrades
    /// that the data no longer knows are dropped; those whose bundled recipe
    /// has changed since are discarded, so that the official data wins.
    pub fn merge_into(self, state: &mut AppState) -> (warning: Option<String>)
        ensures
            final(state)@ == (StateView {
                overrides: old(state)@.data.kept_overrides(overrides_view(self.overrides@)),
                ..old(state)@
            }).bumped(),
            text::opt_text(warning) == warning_text(self.warnings(old(state)@.data)),
    {
        let ghost was = state@;
        let ghost d = was.data;
        let mut warnings: Vec<String> = Vec::new();
        assert(ids::texts(warnings@) =~= Seq::<Seq<char>>::empty());
        push_warning(
            &mut warnings,
            self.data_version != state.data.data_version,
            framed(
                "Recipe overrides were saved against data ",
                &self.data_version,
                " (now ",
                &state.data.data_version,
                "); rechecking.",
            ),
        );
        let overrides: &IdMap<RecipeOverride> = &self.overrides;
        proof {
            use_type_invariant(overrides);
            overrides.lemma_distinct();
        }
        let ghost ids = overrides.order();
        let ghost m = overrides_view(overrides@);
        let mut kept: IdMap<RecipeOverride> = IdMap::new();
        let mut dropped: usize = 0;
        let mut superseded: usize = 0;
        let mut i: usize = 0;
        while i < overrides.len()
            invariant
                i <= ids.len(),
                ids == overrides.order(),
                m == overrides_view(overrides@),
                d == state.data@,
                state@ == was,
                dropped == d.count_unknown(ids.take(i as int)),
                superseded == d.count_superseded(ids.take(i as int), m),
                dropped <= i,
                superseded <= i,
                forall|id: Seq<char>|
                    #[trigger] kept@.contains_key(id) <==> ids.take(i as int).contains(id)
                        && d.keeps(id, m[id]),
                forall|id: Seq<char>| #[trigger]
                    kept@.contains_key(id) ==> m.contains_key(id) && kept@[id]@ == m[id],
            decreases ids.len() - i,
        {
            let id: &String = overrides.key_at(i);
            let ov: &RecipeOverride = overrides.value_at(i);
            proof {
                assert(ids.take(i + 1) =~= ids.take(i as int).push(id@));
                assert(ids.take(i + 1).drop_last() =~= ids.take(i as int));
                ids::lemma_contains_push_any(ids.take(i as int), id@);
                assert(m.contains_key(id@) && m[id@] == ov@);
            }
            match state.data.find_upgrade(id) {
                None => {
                    dropped += 1;
                },
                Some(p) => {
                    let stale: bool = match ov.base_hash {
                        Some(h) => h != recipe_hash(&state.data.modules[p.0].upgrades[p.1]),
                        None => false,
                    };
                    if stale {
                        superseded += 1;
                    } else {
                        kept.insert(id.clone(), ov.clone());
                    }
                },
            }
            i += 1;
        }
        assert(ids.take(ids.len() as int) =~= ids);
        assert(overrides_view(kept@) =~= d.kept_overrides(m));
        push_warning(
            &mut warnings,
            dropped > 0,
            counted(
                "Dropped ",
                dropped,
                " recipe override(s) for upgrade(s) no longer present.",
            ),
        );
        push_warning(
            &mut warnings,
            superseded > 0,
            counted(
                "Discarded ",
                superseded,
                " recipe correction(s) now covered by the official dataset.",
            ),
        );
        state.overrides = kept;
        state.bump();
        assert(ids::texts(warnings@) =~= self.warnings(d));
        warning_of(&warnings)
    }
}

} // verus!
