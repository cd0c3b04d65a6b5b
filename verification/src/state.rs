//! Application state: what the user has enabled, completed, and collected.
//!
//! Every operation is described by what it does to the [`StateView`] of the
//! state: a value made of sets, maps and sequences of texts.

pub mod change_laws;
pub mod holding_laws;
pub mod horizon_laws;
pub mod inventory;
pub mod laws;
pub mod level_laws;
pub mod needs;
pub mod persist;
pub mod persist_laws;
pub mod progress;
pub mod ranking_laws;
pub mod research;
pub mod research_laws;
pub mod stock_laws;
pub mod upgrades;
pub mod wishlist_laws;

use crate::text;
use crate::data::{DataView, GameData, Kilograms, ModuleId, OverrideView, RecipeOverride};
use crate::ids::{IdMap, IdSet};
use crate::text::clone_opt_string;
use std::sync::Arc;
use vstd::prelude::*;

verus! {

pub const STATE_SCHEMA_VERSION: u32 = 1;

pub const OVERRIDES_SCHEMA_VERSION: u32 = 1;

pub type ContainerId = String;

/// What kind of secondary container this is. Only a [`ContainerKind::Case`]
/// has an in-game contents screen and so supports the screenshot scan; bags
/// and shelves are entered by hand.
#[derive(Debug, Clone, Copy, PartialEq, Eq, Structural)]
pub enum ContainerKind {
    /// A backpack or pouch: no screen, contents entered by hand.
    Bag,
    /// An item case with a contents screen.
    Case,
    /// A shelf: entered by hand like a bag, but its own category.
    Shelf,
}

impl Default for ContainerKind {
    fn default() -> (r: Self)
        ensures
            r == ContainerKind::Bag,
    {
        ContainerKind::Bag
    }
}

/// A user-defined secondary container. Its contents count toward owned totals
/// exactly like the stash.
#[derive(Debug)]
pub struct Container {
    pub id: ContainerId,
    pub name: String,
    pub contents: IdMap<u32>,
    /// Key of the chosen icon. Presentation only.
    pub icon: Option<String>,
    pub kind: ContainerKind,
    /// In-game weight cap. Display only; nothing is enforced.
    pub capacity_kg: Option<Kilograms>,
}

/// What a [`Container`] says.
#[verifier::ext_equal]
pub struct ContainerView {
    pub id: Seq<char>,
    pub name: Seq<char>,
    pub contents: Map<Seq<char>, u32>,
    pub icon: Option<Seq<char>>,
    pub kind: ContainerKind,
    pub capacity_kg: Option<Kilograms>,
}

impl View for Container {
    type V = ContainerView;

    open spec fn view(&self) -> ContainerView {
        ContainerView {
            id: self.id@,
            name: self.name@,
            contents: self.contents@,
            icon: text::opt_text(self.icon),
            kind: self.kind,
            capacity_kg: self.capacity_kg,
        }
    }
}

impl Clone for Container {
    fn clone(&self) -> (r: Self)
        ensures
            r@ == self@,
    {
        Container {
            id: self.id.clone(),
            name: self.name.clone(),
            contents: self.contents.copied(),
            icon: clone_opt_string(&self.icon),
            kind: self.kind,
            capacity_kg: self.capacity_kg,
        }
    }
}

/// User-recorded progress of one research node. Locked and available are
/// derived from the parents, never recorded.
#[derive(Debug, Clone, Copy, PartialEq, Eq, Structural)]
pub enum ResearchNodeState {
    /// Research started, samples outstanding.
    InProgress,
    /// Blueprint developed: the part is purchasable and children unlock.
    Developed,
}

/// Fully derived status of a research node, for display and gating.
#[derive(Debug, Clone, Copy, PartialEq, Eq, Structural)]
pub enum ResearchStatus {
    /// At least one parent is not developed yet.
    Locked,
    /// Every parent developed, nothing recorded.
    Available,
    /// Recorded as started.
    InProgress,
    /// Recorded as developed.
    Developed,
}

/// How far ahead the surplus calculation looks when deciding what counts as
/// still needed.
#[derive(Debug, Clone, Copy, PartialEq, Eq, Structural)]
pub enum NeedHorizon {
    /// Only upgrades the user is tracking and has not completed.
    TrackedOnly,
    /// The lowest not-completed level of every enabled module.
    AllNatural,
    /// Every not-completed level of every enabled module.
    AllFuture,
}

/// The state of the application.
pub struct AppState {
    pub data: Arc<GameData>,
    /// For a module whose availability hangs on a parent area: that area's id.
    pub module_parents: IdMap<ModuleId>,
    pub tracked_upgrades: IdSet,
    pub completed_upgrades: IdSet,
    /// Upgrades the user has pinned to prioritize. Advisory: a pin on an
    /// upgrade that is completed or untracked sits inert.
    pub pinned_upgrades: IdSet,
    /// The stash: the implicit primary container.
    pub collected: IdMap<u32>,
    pub containers: Vec<Container>,
    /// Source of container ids; persisted, so that no id is reused.
    pub next_container_seq: u64,
    pub default_shelf_seeded: bool,
    pub gunsmith_storage_seeded: bool,
    /// Modules the user has marked as unavailable.
    pub disabled_modules: IdSet,
    /// Recipe corrections by upgrade id. A correction replaces the bundled
    /// recipe as a whole.
    pub overrides: IdMap<RecipeOverride>,
    /// Recorded research progress; absent means not started.
    pub research_states: IdMap<ResearchNodeState>,
    pub tracked_research: IdSet,
    pub pinned_research: IdSet,
    /// Bumped on every mutation.
    pub version: u64,
    /// Warning to surface when loading found a problem.
    pub load_warning: Option<String>,
}

/// What an [`AppState`] says.
#[verifier::ext_equal]
pub struct StateView {
    pub data: DataView,
    pub module_parents: Map<Seq<char>, Seq<char>>,
    pub tracking: Set<Seq<char>>,
    pub completed: Set<Seq<char>>,
    pub pinned: Set<Seq<char>>,
    pub collected: Map<Seq<char>, u32>,
    pub containers: Seq<ContainerView>,
    pub next_container_seq: u64,
    pub default_shelf_seeded: bool,
    pub gunsmith_storage_seeded: bool,
    pub disabled_modules: Set<Seq<char>>,
    pub overrides: Map<Seq<char>, OverrideView>,
    pub research_states: Map<Seq<char>, ResearchNodeState>,
    pub tracked_research: Set<Seq<char>>,
    pub pinned_research: Set<Seq<char>>,
    pub version: u64,
    pub load_warning: Option<Seq<char>>,
}

/// What a list of containers says.
pub open spec fn containers_view(containers: Seq<Container>) -> Seq<ContainerView> {
    Seq::new(containers.len(), |i: int| containers[i]@)
}

impl View for AppState {
    type V = StateView;

    open spec fn view(&self) -> StateView {
        StateView {
            data: self.data@,
            module_parents: self.module_parents@.map_values(|s: String| s@),
            tracking: self.tracked_upgrades@,
            completed: self.completed_upgrades@,
            pinned: self.pinned_upgrades@,
            collected: self.collected@,
            containers: containers_view(self.containers@),
            next_container_seq: self.next_container_seq,
            default_shelf_seeded: self.default_shelf_seeded,
            gunsmith_storage_seeded: self.gunsmith_storage_seeded,
            disabled_modules: self.disabled_modules@,
            overrides: self.overrides@.map_values(|o: RecipeOverride| o@),
            research_states: self.research_states@,
            tracked_research: self.tracked_research@,
            pinned_research: self.pinned_research@,
            version: self.version,
            load_warning: text::opt_text(self.load_warning),
        }
    }
}

/// The version after `v`: versions start over after the largest.
pub open spec fn next_version(v: u64) -> u64 {
    if v == u64::MAX {
        0
    } else {
        (v + 1) as u64
    }
}

impl StateView {
    /// The state of a profile that nothing was recorded in.
    pub open spec fn fresh(data: DataView) -> StateView {
        StateView {
            data,
            module_parents: Map::empty(),
            tracking: Set::empty(),
            completed: Set::empty(),
            pinned: Set::empty(),
            collected: Map::empty(),
            containers: Seq::empty(),
            next_container_seq: 0,
            default_shelf_seeded: false,
            gunsmith_storage_seeded: false,
            disabled_modules: Set::empty(),
            overrides: Map::empty(),
            research_states: Map::empty(),
            tracked_research: Set::empty(),
            pinned_research: Set::empty(),
            version: 0,
            load_warning: None,
        }
    }

    /// The state one version later.
    pub open spec fn bumped(self) -> StateView {
        StateView { version: next_version(self.version), ..self }
    }

    /// Whether the module, or the area that it hangs on, is disabled.
    pub open spec fn module_disabled(self, module_id: Seq<char>) -> bool {
        ||| self.disabled_modules.contains(module_id)
        ||| self.module_parents.contains_key(module_id) && self.disabled_modules.contains(
            self.module_parents[module_id],
        )
    }

    /// The state with everything the user recorded taken out. Container ids
    /// go on counting, and the seeds, corrections and data stay.
    pub open spec fn reset(self) -> StateView {
        StateView {
            tracking: Set::empty(),
            completed: Set::empty(),
            pinned: Set::empty(),
            collected: Map::empty(),
            containers: Seq::empty(),
            disabled_modules: Set::empty(),
            research_states: Map::empty(),
            tracked_research: Set::empty(),
            pinned_research: Set::empty(),
            ..self
        }.bumped()
    }
}

impl AppState {
    /// The state of a profile that nothing was recorded in.
    pub fn new(data: Arc<GameData>) -> (s: Self)
        ensures
            s@ == StateView::fresh(data@),
            s.tracked_upgrades.order() == Seq::<Seq<char>>::empty(),
            s.tracked_research.order() == Seq::<Seq<char>>::empty(),
    {
        let s = AppState {
            data,
            module_parents: IdMap::new(),
            tracked_upgrades: IdSet::new(),
            completed_upgrades: IdSet::new(),
            pinned_upgrades: IdSet::new(),
            collected: IdMap::new(),
            containers: Vec::new(),
            next_container_seq: 0,
            default_shelf_seeded: false,
            gunsmith_storage_seeded: false,
            disabled_modules: IdSet::new(),
            overrides: IdMap::new(),
            research_states: IdMap::new(),
            tracked_research: IdSet::new(),
            pinned_research: IdSet::new(),
            version: 0,
            load_warning: None,
        };
        assert(s@ =~= StateView::fresh(data@));
        s
    }

    /// Moves the version on by one.
    pub fn bump(&mut self)
        ensures
            final(self)@ == old(self)@.bumped(),
            *final(self) == (AppState { version: next_version(old(self).version), ..*old(self) }),
    {
        self.version = self.version.wrapping_add(1);
        assert(self@ =~= old(self)@.bumped());
    }

    /// Takes the table of parent areas: for each module that lies in one, the
    /// id under which that area is disabled.
    pub fn set_module_parents(&mut self, parents: IdMap<ModuleId>)
        ensures
            final(self)@ == (StateView {
                module_parents: parents@.map_values(|s: String| s@),
                ..old(self)@
            }),
            *final(self) == (AppState { module_parents: parents, ..*old(self) }),
    {
        self.module_parents = parents;
        assert(self@ =~= (StateView {
            module_parents: parents@.map_values(|s: String| s@),
            ..old(self)@
        }));
    }

    /// Whether the module is disabled itself or through its parent area, so
    /// that disabling a parent cascades and enabling it again restores each
    /// child to its own setting.
    pub fn is_module_effectively_disabled(&self, module_id: &str) -> (r: bool)
        ensures
            r == self@.module_disabled(module_id@),
    {
        if self.disabled_modules.contains(module_id) {
            return true;
        }
        match self.module_parents.get(module_id) {
            Some(parent) => self.disabled_modules.contains(parent.as_str()),
            None => false,
        }
    }

    /// Marks a module as unavailable or available. A redundant call leaves
    /// the version alone.
    pub fn set_module_disabled(&mut self, id: &ModuleId, on: bool)
        ensures
            final(self)@ == if old(self)@.disabled_modules.contains(id@) == on {
                old(self)@
            } else if on {
                (StateView {
                    disabled_modules: old(self)@.disabled_modules.insert(id@),
                    ..old(self)@
                }).bumped()
            } else {
                (StateView {
                    disabled_modules: old(self)@.disabled_modules.remove(id@),
                    ..old(self)@
                }).bumped()
            },
    {
        let ghost was = self@;
        let changed: bool = if on {
            self.disabled_modules.insert(id.clone())
        } else {
            self.disabled_modules.remove(id.as_str())
        };
        if changed {
            self.bump();
        } else {
            assert(self@.disabled_modules =~= was.disabled_modules);
            assert(self@ =~= was);
        }
    }

    /// Forgets everything the user recorded.
    pub fn reset_all(&mut self)
        ensures
            final(self)@ == old(self)@.reset(),
    {
        self.tracked_upgrades.clear();
        self.completed_upgrades.clear();
        self.pinned_upgrades.clear();
        self.collected.clear();
        self.containers.clear();
        self.disabled_modules.clear();
        self.research_states.clear();
        self.tracked_research.clear();
        self.pinned_research.clear();
        assert(self@.containers =~= Seq::<ContainerView>::empty());
        self.bump();
        assert(self@ =~= old(self)@.reset());
    }
}

} // verus!
