//! Tracking, pinning and completing upgrades, and correcting recipes.

use crate::data;
use crate::data::{
    base_slots, clone_slots, recipe_hash, DataView, HideoutModule, OverrideView, RecipeOverride,
    ReqView, Requirement, UpgradeId, UpgradeView, RECIPE_SLOTS,
};
use crate::ids;
use crate::state::{AppState, StateView};
use vstd::prelude::*;

verus! {

/// The requirements in the filled slots of a recipe, in order.
pub open spec fn filled(slots: Seq<Option<ReqView>>) -> Seq<ReqView>
    decreases slots.len(),
{
    if slots.len() == 0 {
        Seq::empty()
    } else {
        match slots.last() {
            Some(r) => filled(slots.drop_last()).push(r),
            None => filled(slots.drop_last()),
        }
    }
}

/// The first upgrade of `ups` from position `from` on that has the level
/// `level`.
pub open spec fn level_from(ups: Seq<UpgradeView>, level: int, from: int) -> Option<int>
    decreases ups.len() - from,
{
    if from < 0 || from >= ups.len() {
        None
    } else if ups[from].level == level {
        Some(from)
    } else {
        level_from(ups, level, from + 1)
    }
}

/// What is found under a level has that level.
pub proof fn lemma_level_from(ups: Seq<UpgradeView>, level: int, from: int)
    requires
        0 <= from,
    ensures
        match level_from(ups, level, from) {
            Some(u) => from <= u < ups.len() && ups[u].level == level,
            None => forall|u: int| from <= u < ups.len() ==> (#[trigger] ups[u]).level != level,
        },
    decreases ups.len() - from,
{
    if from < ups.len() && ups[from].level != level {
        lemma_level_from(ups, level, from + 1);
    }
}

/// The ids of the upgrades of `ups` below the level `level`, in order.
pub open spec fn ids_below(ups: Seq<UpgradeView>, level: int) -> Seq<Seq<char>>
    decreases ups.len(),
{
    if ups.len() == 0 {
        Seq::empty()
    } else if ups.last().level < level {
        ids_below(ups.drop_last(), level).push(ups.last().id)
    } else {
        ids_below(ups.drop_last(), level)
    }
}

impl DataView {
    /// The upgrades of the module that the upgrade `id` belongs to.
    pub open spec fn siblings(self, id: Seq<char>) -> Seq<UpgradeView> {
        match self.module_pos(self.module_of(id).id) {
            Some(m) => self.modules[m].upgrades,
            None => Seq::empty(),
        }
    }

    /// The upgrade of the same module one level above the upgrade `id`.
    pub open spec fn next_level(self, id: Seq<char>) -> Option<Seq<char>> {
        if !self.knows_upgrade(id) {
            None
        } else {
            match level_from(self.siblings(id), self.upgrade(id).level + 1, 0) {
                Some(u) => Some(self.siblings(id)[u].id),
                None => None,
            }
        }
    }

    /// The upgrades of the same module below the level of the upgrade `id`.
    pub open spec fn lower_levels(self, id: Seq<char>) -> Seq<Seq<char>> {
        if !self.knows_upgrade(id) {
            Seq::empty()
        } else {
            ids_below(self.siblings(id), self.upgrade(id).level as int)
        }
    }
}

impl StateView {
    /// The recipe of an upgrade in its slots: the correction where there is
    /// one, else the bundled recipe, else nothing.
    pub open spec fn slots(self, id: Seq<char>) -> Seq<Option<ReqView>> {
        if self.overrides.contains_key(id) {
            self.overrides[id].slots
        } else if self.data.knows_upgrade(id) {
            data::base_slots_of(self.data.upgrade(id).requirements)
        } else {
            Seq::new(RECIPE_SLOTS as nat, |i: int| None)
        }
    }

    /// What an upgrade costs.
    pub open spec fn requirements(self, id: Seq<char>) -> Seq<ReqView> {
        filled(self.slots(id))
    }

    /// The state with a recipe corrected. A correction that says what the
    /// bundled recipe says is dropped; another is stamped with the bundled
    /// recipe it is based on.
    pub open spec fn with_override(self, id: Seq<char>, o: OverrideView) -> StateView {
        if self.data.knows_upgrade(id) && o.slots == data::base_slots_of(
            self.data.upgrade(id).requirements,
        ) {
            StateView { overrides: self.overrides.remove(id), ..self }.bumped()
        } else {
            let base_hash = if self.data.knows_upgrade(id) {
                Some(data::recipe_stamp(self.data.upgrade(id).requirements))
            } else {
                o.base_hash
            };
            StateView {
                overrides: self.overrides.insert(id, OverrideView { slots: o.slots, base_hash }),
                ..self
            }.bumped()
        }
    }

    /// The state with an upgrade put on or taken off the wishlist. What is
    /// put on it is not completed.
    pub open spec fn with_tracked(self, id: Seq<char>, on: bool) -> StateView {
        if on {
            StateView {
                tracking: self.tracking.insert(id),
                completed: self.completed.remove(id),
                ..self
            }.bumped()
        } else {
            StateView { tracking: self.tracking.remove(id), ..self }.bumped()
        }
    }

    /// The state with an upgrade pinned or unpinned.
    pub open spec fn with_pinned(self, id: Seq<char>, on: bool) -> StateView {
        if self.pinned.contains(id) == on {
            self
        } else if on {
            StateView { pinned: self.pinned.insert(id), ..self }.bumped()
        } else {
            StateView { pinned: self.pinned.remove(id), ..self }.bumped()
        }
    }

    /// The state with an upgrade marked completed or not. Completing takes it
    /// off the wishlist and puts the next level of its module there, unless
    /// that is completed too.
    pub open spec fn with_completed(self, id: Seq<char>, on: bool) -> StateView {
        if on {
            let completed = self.completed.insert(id);
            let tracking = self.tracking.remove(id);
            let tracking = match self.data.next_level(id) {
                Some(next) => if completed.contains(next) {
                    tracking
                } else {
                    tracking.insert(next)
                },
                None => tracking,
            };
            StateView { completed, tracking, ..self }.bumped()
        } else {
            StateView { completed: self.completed.remove(id), ..self }.bumped()
        }
    }

    /// Completes each of `ids` that is not completed yet, in order: the state
    /// after it, and the ids it completed.
    pub open spec fn completing_all(self, ids: Seq<Seq<char>>) -> (StateView, Seq<Seq<char>>)
        decreases ids.len(),
    {
        if ids.len() == 0 {
            (self, Seq::empty())
        } else {
            let (s, done) = self.completing_all(ids.drop_last());
            if s.completed.contains(ids.last()) {
                (s, done)
            } else {
                (s.with_completed(ids.last(), true), done.push(ids.last()))
            }
        }
    }

    /// What seeing the panel of the upgrade `id` on screen does: every lower
    /// level of its module is completed, and the upgrade itself is put on the
    /// wishlist where `auto_track` asks for it. The state after it, and what
    /// it changed.
    pub open spec fn seeing_panel(self, id: Seq<char>, auto_track: bool) -> (
        StateView,
        ProgressionView,
    ) {
        if !self.data.knows_upgrade(id) {
            (self, ProgressionView { completed_priors: Seq::empty(), tracked_self: false })
        } else {
            let (s, completed_priors) = self.completing_all(self.data.lower_levels(id));
            let s = if auto_track {
                if !s.completed.contains(id) && !s.tracking.contains(id) {
                    s.with_tracked(id, true)
                } else {
                    s
                }
            } else if !self.tracking.contains(id) && s.tracking.contains(id) {
                s.with_tracked(id, false)
            } else {
                s
            };
            let tracked_self = !self.tracking.contains(id) && !self.completed.contains(id)
                && s.tracking.contains(id);
            (s, ProgressionView { completed_priors, tracked_self })
        }
    }
}

/// What [`AppState::apply_ocr_progression`] changed.
#[derive(Debug)]
pub struct OcrProgression {
    /// Lower-level upgrades that were freshly marked completed.
    pub completed_priors: Vec<UpgradeId>,
    /// Whether the upgrade itself was put on the wishlist by this.
    pub tracked_self: bool,
}

/// What an [`OcrProgression`] says.
#[verifier::ext_equal]
pub struct ProgressionView {
    pub completed_priors: Seq<Seq<char>>,
    pub tracked_self: bool,
}

impl View for OcrProgression {
    type V = ProgressionView;

    open spec fn view(&self) -> ProgressionView {
        ProgressionView {
            completed_priors: ids::texts(self.completed_priors@),
            tracked_self: self.tracked_self,
        }
    }
}

impl AppState {
    /// The recipe of an upgrade in its slots, corrections applied. Empty slots
    /// stay in position.
    pub fn effective_slots(&self, upgrade_id: &UpgradeId) -> (r: [Option<Requirement>; 4])
        ensures
            data::slots_view(r@) == self@.slots(upgrade_id@),
    {
        match self.overrides.get(upgrade_id.as_str()) {
            Some(o) => {
                return clone_slots(&o.slots);
            },
            None => {},
        }
        match self.data.find_upgrade(upgrade_id) {
            Some(p) => base_slots(&self.data.modules[p.0].upgrades[p.1]),
            None => {
                let r: [Option<Requirement>; 4] = [None, None, None, None];
                assert(data::slots_view(r@) =~= self@.slots(upgrade_id@));
                r
            },
        }
    }

    /// What an upgrade costs, corrections applied.
    pub fn effective_requirements(&self, upgrade_id: &UpgradeId) -> (r: Vec<Requirement>)
        ensures
            data::reqs_view(r@) == self@.requirements(upgrade_id@),
    {
        let slots = self.effective_slots(upgrade_id);
        let ghost all = self@.slots(upgrade_id@);
        let mut r: Vec<Requirement> = Vec::new();
        let mut i: usize = 0;
        assert(data::reqs_view(r@) =~= filled(all.take(0)));
        while i < 4
            invariant
                i <= 4,
                all == data::slots_view(slots@),
                data::reqs_view(r@) == filled(all.take(i as int)),
            decreases 4 - i,
        {
            assert(all.take(i + 1).drop_last() =~= all.take(i as int));
            assert(all.take(i + 1).last() == all[i as int]);
            let ghost before = r@;
            match &slots[i] {
                Some(q) => {
                    r.push(q.clone());
                    assert(data::reqs_view(r@) =~= data::reqs_view(before).push(q@));
                },
                None => {},
            }
            i += 1;
        }
        assert(all.take(4) =~= all);
        r
    }

    /// Corrects the recipe of an upgrade. A correction that says what the
    /// bundled recipe says is dropped instead of stored.
    pub fn set_recipe_override(&mut self, upgrade_id: &UpgradeId, new_override: RecipeOverride)
        ensures
            final(self)@ == old(self)@.with_override(upgrade_id@, new_override@),
    {
        let ghost was = self@;
        let mut new_override = new_override;
        let ghost given = new_override@;
        match self.data.find_upgrade(upgrade_id) {
            Some(p) => {
                let matching: bool = new_override.matches_base(
                    &self.data.modules[p.0].upgrades[p.1],
                );
                if matching {
                    self.overrides.remove(upgrade_id.as_str());
                    assert(self@.overrides =~= was.overrides.remove(upgrade_id@));
                    self.bump();
                    assert(self@ =~= was.with_override(upgrade_id@, given));
                    return;
                }
                new_override.base_hash = Some(recipe_hash(&self.data.modules[p.0].upgrades[p.1]));
            },
            None => {},
        }
        let ghost stored = new_override@;
        self.overrides.insert(upgrade_id.clone(), new_override);
        assert(self@.overrides =~= was.overrides.insert(upgrade_id@, stored));
        self.bump();
        assert(self@ =~= was.with_override(upgrade_id@, given));
    }

    /// Drops the correction of a recipe. Where there is none the version is
    /// left alone.
    pub fn clear_recipe_override(&mut self, upgrade_id: &UpgradeId)
        ensures
            final(self)@ == if old(self)@.overrides.contains_key(upgrade_id@) {
                (StateView {
                    overrides: old(self)@.overrides.remove(upgrade_id@),
                    ..old(self)@
                }).bumped()
            } else {
                old(self)@
            },
    {
        let ghost was = self@;
        let removed: bool = self.overrides.remove(upgrade_id.as_str());
        assert(self@.overrides =~= was.overrides.remove(upgrade_id@));
        if removed {
            self.bump();
        } else {
            assert(self@.overrides =~= was.overrides);
            assert(self@ =~= was);
        }
    }

    /// Whether the recipe of an upgrade is corrected.
    pub fn is_overridden(&self, upgrade_id: &UpgradeId) -> (r: bool)
        ensures
            r == self@.overrides.contains_key(upgrade_id@),
    {
        self.overrides.contains_key(upgrade_id.as_str())
    }

    /// Puts an upgrade on the wishlist or takes it off. Putting it on takes
    /// back that it was completed.
    pub fn set_tracked_upgrade(&mut self, id: &UpgradeId, on: bool)
        ensures
            final(self)@ == old(self)@.with_tracked(id@, on),
    {
        if on {
            self.tracked_upgrades.insert(id.clone());
            self.completed_upgrades.remove(id.as_str());
        } else {
            self.tracked_upgrades.remove(id.as_str());
        }
        self.bump();
    }

    /// Pins or unpins an upgrade. Only a real change moves the version on:
    /// pinning reorders the overlay, and the version is what rebuilds it.
    pub fn set_pinned_upgrade(&mut self, id: &UpgradeId, on: bool)
        ensures
            final(self)@ == old(self)@.with_pinned(id@, on),
    {
        let ghost was = self@;
        let changed: bool = if on {
            self.pinned_upgrades.insert(id.clone())
        } else {
            self.pinned_upgrades.remove(id.as_str())
        };
        if changed {
            self.bump();
        } else {
            assert(self@.pinned =~= was.pinned);
            assert(self@ =~= was);
        }
    }

    /// Whether an upgrade is pinned.
    pub fn is_upgrade_pinned(&self, id: &UpgradeId) -> (r: bool)
        ensures
            r == self@.pinned.contains(id@),
    {
        self.pinned_upgrades.contains(id.as_str())
    }

    /// The upgrade of the same module one level up.
    fn next_level_upgrade(&self, id: &UpgradeId) -> (r: Option<UpgradeId>)
        ensures
            match r {
                Some(next) => self@.data.next_level(id@) == Some(next@),
                None => self@.data.next_level(id@) is None,
            },
    {
        let ghost d = self.data@;
        match self.data.find_upgrade(id) {
            None => None,
            Some(p) => {
                let level: u32 = self.data.modules[p.0].upgrades[p.1].level;
                let module_id = &self.data.modules[p.0].id;
                match self.data.find_module(module_id) {
                    None => {
                        proof {
                            data::lemma_module_from(d.modules, d.module_of(id@).id, 0);
                            assert(d.modules[p.0 as int].id == d.module_of(id@).id);
                        }
                        None
                    },
                    Some(m) => {
                        let module: &HideoutModule = &self.data.modules[m];
                        let ghost ups = d.siblings(id@);
                        assert(ups == module@.upgrades);
                        let mut u: usize = 0;
                        while u < module.upgrades.len()
                            invariant
                                u <= module.upgrades@.len(),
                                ups == module@.upgrades,
                                level_from(ups, level + 1, 0) == level_from(ups, level + 1, u as int),
                                d == self.data@,
                                d.knows_upgrade(id@),
                                d.upgrade(id@).level == level,
                                d.siblings(id@) == ups,
                            decreases module.upgrades@.len() - u,
                        {
                            if module.upgrades[u].level as u64 == level as u64 + 1 {
                                return Some(module.upgrades[u].id.clone());
                            }
                            u += 1;
                        }
                        None
                    },
                }
            },
        }
    }

    /// Marks an upgrade completed or takes that back. Completing one puts the
    /// next level of its module on the wishlist, so that there is always a
    /// live target.
    pub fn set_completed_upgrade(&mut self, id: &UpgradeId, on: bool)
        ensures
            final(self)@ == old(self)@.with_completed(id@, on),
    {
        let ghost was = self@;
        if on {
            self.completed_upgrades.insert(id.clone());
            self.tracked_upgrades.remove(id.as_str());
            match self.next_level_upgrade(id) {
                Some(next_id) => {
                    if !self.completed_upgrades.contains(next_id.as_str()) {
                        self.tracked_upgrades.insert(next_id);
                    }
                },
                None => {},
            }
        } else {
            self.completed_upgrades.remove(id.as_str());
        }
        self.bump();
        assert(self@ =~= was.with_completed(id@, on));
    }

    fn lower_level_ids(&self, id: &UpgradeId) -> (r: Vec<UpgradeId>)
        requires
            self@.data.knows_upgrade(id@),
        ensures
            ids::texts(r@) == self@.data.lower_levels(id@),
    {
        let mut out: Vec<UpgradeId> = Vec::new();
        let ghost d = self.data@;
        match self.data.find_upgrade(id) {
            None => {},
            Some(p) => {
                let level: u32 = self.data.modules[p.0].upgrades[p.1].level;
                match self.data.find_module(&self.data.modules[p.0].id) {
                    None => {
                        assert(ids::texts(out@) =~= Seq::<Seq<char>>::empty());
                    },
                    Some(m) => {
                        let module: &HideoutModule = &self.data.modules[m];
                        let ghost ups = d.siblings(id@);
                        assert(ups == module@.upgrades);
                        let mut u: usize = 0;
                        assert(ids::texts(out@) =~= ids_below(ups.take(0), level as int));
                        while u < module.upgrades.len()
                            invariant
                                u <= module.upgrades@.len(),
                                ups == module@.upgrades,
                                ids::texts(out@) == ids_below(ups.take(u as int), level as int),
                            decreases module.upgrades@.len() - u,
                        {
                            assert(ups.take(u + 1).drop_last() =~= ups.take(u as int));
                            assert(ups.take(u + 1).last() == ups[u as int]);
                            let ghost before = out@;
                            if module.upgrades[u].level < level {
                                out.push(module.upgrades[u].id.clone());
                                assert(ids::texts(out@) =~= ids::texts(before).push(ups[u as int].id));
                            }
                            u += 1;
                        }
                        assert(ups.take(ups.len() as int) =~= ups);
                    },
                }
            },
        }
        out
    }

    /// Promotes an upgrade because its panel was seen on screen. The game
    /// shows the panel of a level only once every lower one is claimed, so
    /// those are completed in any case; the upgrade itself is put on the
    /// wishlist only where `auto_track` asks for it.
    pub fn apply_ocr_progression(&mut self, upgrade_id: &UpgradeId, auto_track: bool) -> (out:
        OcrProgression)
        ensures
            (final(self)@, out@) == old(self)@.seeing_panel(upgrade_id@, auto_track),
    {
        let ghost was = self@;
        let ghost id = upgrade_id@;
        let mut out = OcrProgression { completed_priors: Vec::new(), tracked_self: false };
        assert(ids::texts(out.completed_priors@) =~= Seq::<Seq<char>>::empty());
        if self.data.find_upgrade(upgrade_id).is_none() {
            assert(out@ =~= was.seeing_panel(id, auto_track).1);
            return out;
        }
        let was_tracked: bool = self.tracked_upgrades.contains(upgrade_id.as_str());
        let was_completed: bool = self.completed_upgrades.contains(upgrade_id.as_str());
        let prior_ids: Vec<UpgradeId> = self.lower_level_ids(upgrade_id);
        let ghost priors = was.data.lower_levels(id);
        assert(priors.take(0) =~= Seq::<Seq<char>>::empty());
        let mut i: usize = 0;
        while i < prior_ids.len()
            invariant
                i <= prior_ids@.len(),
                priors == ids::texts(prior_ids@),
                (self@, ids::texts(out.completed_priors@)) == was.completing_all(priors.take(i as int)),
                out.tracked_self == false,
            decreases prior_ids@.len() - i,
        {
            assert(priors.take(i + 1).drop_last() =~= priors.take(i as int));
            assert(priors.take(i + 1).last() == prior_ids@[i as int]@);
            if !self.completed_upgrades.contains(prior_ids[i].as_str()) {
                let ghost before = out.completed_priors@;
                self.set_completed_upgrade(&prior_ids[i], true);
                out.completed_priors.push(prior_ids[i].clone());
                assert(ids::texts(out.completed_priors@) =~= ids::texts(before).push(prior_ids@[i as int]@));
            }
            i += 1;
        }
        assert(priors.take(priors.len() as int) =~= priors);
        if auto_track {
            if !self.completed_upgrades.contains(upgrade_id.as_str())
                && !self.tracked_upgrades.contains(upgrade_id.as_str()) {
                self.set_tracked_upgrade(upgrade_id, true);
            }
        } else if !was_tracked && self.tracked_upgrades.contains(upgrade_id.as_str()) {
            self.set_tracked_upgrade(upgrade_id, false);
        }
        let is_tracked: bool = self.tracked_upgrades.contains(upgrade_id.as_str());
        out.tracked_self = !was_tracked && !was_completed && is_tracked;
        assert(out@ =~= was.seeing_panel(id, auto_track).1);
        out
    }
}

} // verus!
