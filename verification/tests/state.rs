//! The planner's state: tracking, stock, recipes, research, persistence.

use ez_wishlist_overlay::data::{
    recipe_hash, GameData, HideoutModule, Item, Kilograms, RecipeOverride, Requirement,
    ResearchCategory,
    ResearchNode, Upgrade, RECIPE_SLOTS,
};
use ez_wishlist_overlay::ids::{IdMap, IdSet};
use ez_wishlist_overlay::state::inventory::GUNSMITH_STORAGE_ID;
use ez_wishlist_overlay::state::persist::{PersistedOverrides, PersistedState};
use ez_wishlist_overlay::state::progress::{RecipeKnowledge, UpgradeProgress};
use ez_wishlist_overlay::state::{
    AppState, ContainerId, ContainerKind, NeedHorizon, ResearchNodeState, ResearchStatus,
    OVERRIDES_SCHEMA_VERSION, STATE_SCHEMA_VERSION,
};
use std::sync::Arc;

fn id_set(ids: &[&str]) -> IdSet {
    let mut out = IdSet::new();
    for id in ids {
        out.insert(id.to_string());
    }
    out
}

fn counts(pairs: &[(&str, u32)]) -> IdMap<u32> {
    let mut out = IdMap::new();
    for (id, n) in pairs {
        out.insert(id.to_string(), *n);
    }
    out
}

fn fraction(p: &UpgradeProgress) -> f32 {
    let (part, whole) = p.parts();
    part as f32 / whole as f32
}

/// What a profile without any entry says.
fn blank_profile() -> PersistedState {
    PersistedState {
        schema_version: 1,
        data_version: "test".into(),
        tracked_upgrades: IdSet::new(),
        completed_upgrades: IdSet::new(),
        pinned_upgrades: IdSet::new(),
        collected: IdMap::new(),
        disabled_modules: IdSet::new(),
        containers: Vec::new(),
        next_container_seq: 0,
        default_shelf_seeded: false,
        gunsmith_storage_seeded: false,
        research_states: IdMap::new(),
        tracked_research: IdSet::new(),
        pinned_research: IdSet::new(),
    }
}


fn fixture_data() -> GameData {
    GameData {
        data_version: "test".into(),
        scraped_at: "now".into(),
        source_repo: "test".into(),
        source_commit: "deadbeef".into(),
        research: Vec::new(),
        modules: vec![
            HideoutModule {
                id: "workbench".into(),
                name: "Workbench".into(),
                upgrades: vec![
                    Upgrade {
                        id: "workbench_lv1".into(),
                        name: "Workbench".into(),
                        level: 1,
                        description: String::new(),
                        requirements: vec![
                            Requirement {
                                item_id: "bolts".into(),
                                quantity: 5,
                            },
                            Requirement {
                                item_id: "screws".into(),
                                quantity: 3,
                            },
                        ],
                    },
                    Upgrade {
                        id: "workbench_lv2".into(),
                        name: "Workbench".into(),
                        level: 2,
                        description: String::new(),
                        requirements: vec![Requirement {
                            item_id: "bolts".into(),
                            quantity: 7,
                        }],
                    },
                ],
            },
            HideoutModule {
                id: "placeholder".into(),
                name: "Placeholder".into(),
                upgrades: vec![Upgrade {
                    id: "placeholder_lv1".into(),
                    name: "Placeholder".into(),
                    level: 1,
                    description: String::new(),
                    requirements: vec![],
                }],
            },
        ],
        items: vec![
            Item {
                id: "bolts".into(),
                name: "Bolts".into(),
                icon_path: "icons/bolts.png".into(),
                category: None,
                subcategory: None,
                weight: None,
                price: None,
                rarity: None,
            },
            Item {
                id: "screws".into(),
                name: "Screws".into(),
                icon_path: "icons/screws.png".into(),
                category: None,
                subcategory: None,
                weight: None,
                price: None,
                rarity: None,
            },
        ],
    }
}

fn fixture() -> Arc<GameData> {
    Arc::new(fixture_data())
}

#[test]
fn active_items_aggregates_across_tracked_upgrades() {
    let mut s = AppState::new(fixture());
    s.set_tracked_upgrade(&"workbench_lv1".to_string(), true);
    s.set_tracked_upgrade(&"workbench_lv2".to_string(), true);
    let active = s.active_items();
    let bolts = active.iter().find(|a| a.item_id == "bolts").unwrap();
    assert_eq!(bolts.needed, 12);
    assert_eq!(bolts.sources.len(), 2);
}

#[test]
fn completed_upgrade_drops_from_view() {
    let mut s = AppState::new(fixture());
    s.set_tracked_upgrade(&"workbench_lv2".to_string(), true);
    s.set_completed_upgrade(&"workbench_lv2".to_string(), true);
    assert!(s.active_items().is_empty());
}

#[test]
fn completing_a_level_auto_tracks_next_level() {
    let mut s = AppState::new(fixture());
    s.set_tracked_upgrade(&"workbench_lv1".to_string(), true);
    s.set_completed_upgrade(&"workbench_lv1".to_string(), true);
    assert!(
        s.tracked_upgrades.contains("workbench_lv2"),
        "lv2 should be auto-tracked once lv1 is done"
    );
}

#[test]
fn completing_top_level_does_not_panic_or_re_add() {
    let mut s = AppState::new(fixture());
    s.set_tracked_upgrade(&"workbench_lv2".to_string(), true);
    s.set_completed_upgrade(&"workbench_lv2".to_string(), true);
    assert!(!s.tracked_upgrades.contains("workbench_lv2"));
    assert!(s.completed_upgrades.contains("workbench_lv2"));
}

#[test]
fn disabled_module_hides_from_active_items() {
    let mut s = AppState::new(fixture());
    s.set_tracked_upgrade(&"workbench_lv1".to_string(), true);
    assert!(!s.active_items().is_empty());
    s.set_module_disabled(&"workbench".to_string(), true);
    assert!(
        s.active_items().is_empty(),
        "disabling the module should hide its tracked requirements"
    );
    s.set_module_disabled(&"workbench".to_string(), false);
    assert!(
        !s.active_items().is_empty(),
        "re-enabling restores the tracked requirements"
    );
}

#[test]
fn active_items_sorted_by_needed_descending() {
    let mut s = AppState::new(fixture());
    s.set_tracked_upgrade(&"workbench_lv1".to_string(), true);
    s.set_tracked_upgrade(&"workbench_lv2".to_string(), true);

    let active = s.active_items();
    assert_eq!(active[0].item_id, "bolts");
    assert_eq!(active[1].item_id, "screws");

    s.set_collected(&"bolts".to_string(), 11);
    let active = s.active_items();
    assert_eq!(
        active[0].item_id, "bolts",
        "bolts stays first — sort key is `needed`, not `remaining`"
    );
    assert_eq!(active[1].item_id, "screws");
}

#[test]
fn cycle_resets_at_target() {
    let mut s = AppState::new(fixture());
    s.set_collected(&"bolts".to_string(), 4);
    let (v, reset) = s.cycle_collected(&"bolts".to_string(), 5);
    assert_eq!(v, 5);
    assert!(!reset);
    let (v, reset) = s.cycle_collected(&"bolts".to_string(), 5);
    assert_eq!(v, 0);
    assert!(reset);
}

#[test]
fn track_and_done_are_mutually_exclusive() {
    let mut s = AppState::new(fixture());
    let id = "workbench_lv1".to_string();
    s.set_tracked_upgrade(&id, true);
    assert!(s.tracked_upgrades.contains(&id));
    s.set_completed_upgrade(&id, true);
    assert!(!s.tracked_upgrades.contains(&id));
    assert!(s.completed_upgrades.contains(&id));
}

#[test]
fn persistence_round_trip() {
    let mut s = AppState::new(fixture());
    s.set_tracked_upgrade(&"workbench_lv1".to_string(), true);
    s.set_collected(&"bolts".to_string(), 3);
    let back = PersistedState::from_app(&s);

    let mut s2 = AppState::new(s.data.clone());
    back.merge_into(&mut s2);
    assert!(s2.tracked_upgrades.contains("workbench_lv1"));
    assert_eq!(*s2.collected.get("bolts").unwrap(), 3);
}

fn kg(weight: f32) -> Option<Kilograms> {
    Some(Kilograms {
        bits: weight.to_bits(),
    })
}

#[test]
fn container_capacity_persists_and_defaults_to_none() {
    let mut s = AppState::new(fixture());
    let id = s.create_container("Gunsmith storage".into());
    s.set_container_capacity(&id, kg(30.0));

    let back = PersistedState::from_app(&s);
    let mut s2 = AppState::new(s.data.clone());
    back.merge_into(&mut s2);
    assert_eq!(s2.containers[0].capacity_kg, kg(30.0));

    let plain = s.create_container("Old box".into());
    assert_eq!(s.containers[1].id, plain);
    assert_eq!(s.containers[1].capacity_kg, None);

    s.set_container_capacity(&id, None);
    assert_eq!(s.containers[0].capacity_kg, None);
}

#[test]
fn gunsmith_storage_seeds_exactly_once_and_stays_deleted() {
    let mut s = AppState::new(fixture());
    assert!(s.seed_gunsmith_storage(), "fresh profile seeds");
    assert!(!s.seed_gunsmith_storage(), "second call is a no-op");
    let g = s
        .containers
        .iter()
        .find(|c| c.id == GUNSMITH_STORAGE_ID)
        .expect("seeded container present");
    assert_eq!(g.kind, ContainerKind::Case);
    assert_eq!(g.capacity_kg, kg(30.0));

    s.delete_container(&GUNSMITH_STORAGE_ID.to_string());
    let back = PersistedState::from_app(&s);
    let mut s2 = AppState::new(s.data.clone());
    back.merge_into(&mut s2);
    assert!(!s2.seed_gunsmith_storage(), "flag survives the round-trip");
    assert!(s2.containers.iter().all(|c| c.id != GUNSMITH_STORAGE_ID));
}

#[test]
fn loads_pre_73_state_with_task_fields_without_error() {
    let mut parsed = blank_profile();
    parsed.tracked_upgrades = id_set(&["workbench_lv1"]);
    parsed.collected = counts(&[("bolts", 4)]);

    let mut s = AppState::new(fixture());
    let warn = parsed.merge_into(&mut s);
    assert!(
        warn.is_none(),
        "matching data_version + resolvable upgrade should not warn, got {warn:?}"
    );
    assert!(s.tracked_upgrades.contains("workbench_lv1"));
    assert_eq!(*s.collected.get("bolts").unwrap(), 4);
}

#[test]
fn effective_requirements_falls_back_to_base_when_no_override() {
    let s = AppState::new(fixture());
    let reqs = s.effective_requirements(&"workbench_lv1".to_string());
    assert_eq!(reqs.len(), 2);
    assert!(reqs.iter().any(|r| r.item_id == "bolts" && r.quantity == 5));
    assert!(reqs
        .iter()
        .any(|r| r.item_id == "screws" && r.quantity == 3));
}

#[test]
fn override_drives_active_items_aggregation() {
    let mut s = AppState::new(fixture());
    s.set_tracked_upgrade(&"workbench_lv1".to_string(), true);

    let mut slots: [Option<Requirement>; RECIPE_SLOTS] =
        std::array::from_fn(|_| None);
    slots[0] = Some(Requirement {
        item_id: "bolts".into(),
        quantity: 10,
    });
    s.set_recipe_override(
        &"workbench_lv1".to_string(),
        RecipeOverride::new(slots),
    );

    let active = s.active_items();
    let bolts = active.iter().find(|a| a.item_id == "bolts").unwrap();
    assert_eq!(
        bolts.needed, 10,
        "override quantity should flow into aggregation"
    );
    assert!(
        !active.iter().any(|a| a.item_id == "screws"),
        "removed item should disappear from the wishlist"
    );
}

#[test]
fn set_recipe_override_clears_when_matches_base() {
    let mut s = AppState::new(fixture());
    let mut slots: [Option<Requirement>; RECIPE_SLOTS] =
        std::array::from_fn(|_| None);
    slots[0] = Some(Requirement {
        item_id: "bolts".into(),
        quantity: 5,
    });
    slots[1] = Some(Requirement {
        item_id: "screws".into(),
        quantity: 3,
    });
    s.set_recipe_override(
        &"workbench_lv1".to_string(),
        RecipeOverride::new(slots),
    );

    assert!(
        !s.is_overridden(&"workbench_lv1".to_string()),
        "an override identical to the bundled recipe should collapse to no override"
    );
}

#[test]
fn persisted_overrides_drop_unknown_upgrades() {
    let mut s = AppState::new(fixture());
    let mut slots: [Option<Requirement>; RECIPE_SLOTS] =
        std::array::from_fn(|_| None);
    slots[0] = Some(Requirement {
        item_id: "bolts".into(),
        quantity: 7,
    });
    let mut overrides = IdMap::new();
    overrides.insert("workbench_lv1".to_string(), RecipeOverride::new(slots.clone()));
    overrides.insert("ghost_upgrade".to_string(), RecipeOverride::new(slots));
    let persisted = PersistedOverrides {
        schema_version: OVERRIDES_SCHEMA_VERSION,
        data_version: "older".into(),
        overrides,
    };
    let warn = persisted
        .merge_into(&mut s)
        .expect("data-version drift should warn");
    assert!(warn.contains("Dropped 1 recipe override"));
    assert!(s.overrides.contains_key("workbench_lv1"));
    assert!(!s.overrides.contains_key("ghost_upgrade"));
}

#[test]
fn set_recipe_override_stamps_base_hash() {
    let mut s = AppState::new(fixture());
    let mut slots: [Option<Requirement>; RECIPE_SLOTS] = std::array::from_fn(|_| None);
    slots[0] = Some(Requirement {
        item_id: "bolts".into(),
        quantity: 2,
    });
    s.set_recipe_override(&"workbench_lv1".to_string(), RecipeOverride::new(slots));

    let (m, u) = s.data.find_upgrade(&"workbench_lv1".to_string()).unwrap();
    let expected = recipe_hash(&s.data.modules[m].upgrades[u]);
    assert_eq!(
        s.overrides.get("workbench_lv1").unwrap().base_hash,
        Some(expected),
        "the bundled recipe's hash should be stamped on the correction",
    );
}

#[test]
fn merge_discards_correction_when_official_recipe_changed() {
    let mut s1 = AppState::new(fixture());
    let mut slots: [Option<Requirement>; RECIPE_SLOTS] = std::array::from_fn(|_| None);
    slots[0] = Some(Requirement {
        item_id: "bolts".into(),
        quantity: 1,
    });
    s1.set_recipe_override(
        &"workbench_lv1".to_string(),
        RecipeOverride::new(slots.clone()),
    );
    s1.set_recipe_override(&"workbench_lv2".to_string(), RecipeOverride::new(slots));
    let persisted = PersistedOverrides::from_app(&s1);

    let mut data2 = fixture_data();
    for m in &mut data2.modules {
        for u in &mut m.upgrades {
            if u.id == "workbench_lv1" {
                u.requirements[0].quantity = 6;
            }
        }
    }
    let mut s2 = AppState::new(Arc::new(data2));

    let warn = persisted.merge_into(&mut s2).expect("should warn");
    assert!(
        warn.contains("Discarded 1 recipe correction"),
        "the superseded correction should be reported: {warn}",
    );
    assert!(
        !s2.overrides.contains_key("workbench_lv1"),
        "a correction whose official recipe changed must be discarded",
    );
    assert!(
        s2.overrides.contains_key("workbench_lv2"),
        "a correction whose official recipe is unchanged must survive",
    );
}

#[test]
fn merge_keeps_correction_when_base_unchanged() {
    let mut s1 = AppState::new(fixture());
    let mut slots: [Option<Requirement>; RECIPE_SLOTS] = std::array::from_fn(|_| None);
    slots[0] = Some(Requirement {
        item_id: "bolts".into(),
        quantity: 4,
    });
    s1.set_recipe_override(
        &"placeholder_lv1".to_string(),
        RecipeOverride::new(slots.clone()),
    );
    s1.set_recipe_override(&"workbench_lv1".to_string(), RecipeOverride::new(slots));
    let persisted = PersistedOverrides::from_app(&s1);

    let mut s2 = AppState::new(fixture());
    assert!(
        persisted.merge_into(&mut s2).is_none(),
        "no warning expected"
    );
    assert!(s2.overrides.contains_key("placeholder_lv1"));
    assert!(s2.overrides.contains_key("workbench_lv1"));
}

#[test]
fn merge_keeps_legacy_override_without_base_hash() {
    let mut s = AppState::new(fixture());
    let mut slots: [Option<Requirement>; RECIPE_SLOTS] = std::array::from_fn(|_| None);
    slots[0] = Some(Requirement { item_id: "bolts".into(), quantity: 1 });
    let mut overrides = IdMap::new();
    overrides.insert("workbench_lv1".to_string(), RecipeOverride::new(slots));
    let persisted = PersistedOverrides {
        schema_version: 1,
        data_version: "older".into(),
        overrides,
    };
    assert_eq!(
        persisted.overrides.get("workbench_lv1").unwrap().base_hash,
        None,
        "missing field must default to None",
    );
    persisted.merge_into(&mut s);
    assert!(
        s.overrides.contains_key("workbench_lv1"),
        "legacy override (no base hash) must be kept across updates",
    );
}

#[test]
fn apply_ocr_progression_marks_priors_completed_and_tracks_self() {
    let mut s = AppState::new(fixture());
    let prog = s.apply_ocr_progression(&"workbench_lv2".to_string(), true);
    assert_eq!(prog.completed_priors, vec!["workbench_lv1".to_string()]);
    assert!(prog.tracked_self);
    assert!(s.completed_upgrades.contains("workbench_lv1"));
    assert!(s.tracked_upgrades.contains("workbench_lv2"));
}

#[test]
fn apply_ocr_progression_is_idempotent() {
    let mut s = AppState::new(fixture());
    s.apply_ocr_progression(&"workbench_lv2".to_string(), true);
    let second = s.apply_ocr_progression(&"workbench_lv2".to_string(), true);
    assert!(second.completed_priors.is_empty());
    assert!(!second.tracked_self);
}

#[test]
fn apply_ocr_progression_lv1_only_tracks_self() {
    let mut s = AppState::new(fixture());
    let prog = s.apply_ocr_progression(&"workbench_lv1".to_string(), true);
    assert!(prog.completed_priors.is_empty(), "no priors below Lv 1");
    assert!(prog.tracked_self);
    assert!(s.tracked_upgrades.contains("workbench_lv1"));
}

#[test]
fn apply_ocr_progression_skips_when_already_completed() {
    let mut s = AppState::new(fixture());
    s.set_completed_upgrade(&"workbench_lv2".to_string(), true);
    let prog = s.apply_ocr_progression(&"workbench_lv2".to_string(), true);
    assert!(!prog.tracked_self, "completed upgrades stay completed");
    assert!(s.completed_upgrades.contains("workbench_lv2"));
    assert!(!s.tracked_upgrades.contains("workbench_lv2"));
}

#[test]
fn apply_ocr_progression_auto_track_off_completes_priors_but_no_tracking() {
    let mut s = AppState::new(fixture());
    let prog = s.apply_ocr_progression(&"workbench_lv2".to_string(), false);
    assert_eq!(
        prog.completed_priors,
        vec!["workbench_lv1".to_string()],
        "priors still get completed regardless of auto_track",
    );
    assert!(
        !prog.tracked_self,
        "tracked_self reports the post-state — false when we didn't track",
    );
    assert!(
        s.completed_upgrades.contains("workbench_lv1"),
        "prior must still be marked completed",
    );
    assert!(
        !s.tracked_upgrades.contains("workbench_lv2"),
        "OCR'd upgrade must NOT be tracked when auto_track=false, \
         even after the prior-completion cascade",
    );
}

#[test]
fn apply_ocr_progression_auto_track_off_preserves_existing_tracking() {
    let mut s = AppState::new(fixture());
    s.set_tracked_upgrade(&"workbench_lv2".to_string(), true);
    s.apply_ocr_progression(&"workbench_lv2".to_string(), false);
    assert!(
        s.tracked_upgrades.contains("workbench_lv2"),
        "explicit user-tracked upgrades survive auto_track=false",
    );
}

#[test]
fn data_version_mismatch_warns_but_keeps_collected() {
    let mut s = AppState::new(fixture());
    let persisted = PersistedState {
        schema_version: 1,
        data_version: "older".into(),
        tracked_upgrades: id_set(&["nonexistent_upgrade"]),
        completed_upgrades: IdSet::new(),
        pinned_upgrades: IdSet::new(),
        collected: counts(&[("bolts", 7)]),
        disabled_modules: IdSet::new(),
        containers: Vec::new(),
        next_container_seq: 0,
        default_shelf_seeded: false,
        gunsmith_storage_seeded: false,
        research_states: IdMap::new(),
        tracked_research: IdSet::new(),
        pinned_research: IdSet::new(),
    };
    let warn = persisted.merge_into(&mut s).expect("should warn");
    assert!(warn.contains("Game data updated"));
    assert!(warn.contains("Dropped 1 tracked upgrade"));
    assert_eq!(*s.collected.get("bolts").unwrap(), 7);
}

#[test]
fn upgrade_progress_caps_each_item_at_its_target() {
    let mut s = AppState::new(fixture());
    s.set_collected(&"bolts".to_string(), 10);
    s.set_collected(&"screws".to_string(), 3);
    let p = s.upgrade_progress(&"workbench_lv1".to_string());
    assert_eq!(p.needed, 8);
    assert_eq!(p.collected, 8, "per-item contribution caps at the target");
    assert_eq!(fraction(&p), 1.0);
}

#[test]
fn upgrade_progress_partial_fraction() {
    let mut s = AppState::new(fixture());
    s.set_collected(&"bolts".to_string(), 5);
    let p = s.upgrade_progress(&"workbench_lv1".to_string());
    assert_eq!((p.collected, p.needed), (5, 8));
    assert!((fraction(&p) - 0.625).abs() < 1e-6);
}

#[test]
fn upgrade_progress_empty_recipe_is_zero_not_full() {
    let s = AppState::new(fixture());
    let p = s.upgrade_progress(&"placeholder_lv1".to_string());
    assert_eq!((p.collected, p.needed), (0, 0));
    assert_eq!(fraction(&p), 0.0);
}

#[test]
fn recipe_knowledge_bundled_edited_unknown() {
    let mut s = AppState::new(fixture());
    assert_eq!(
        s.recipe_knowledge(&"workbench_lv1".to_string()),
        RecipeKnowledge::Bundled
    );
    let mut slots: [Option<Requirement>; RECIPE_SLOTS] = std::array::from_fn(|_| None);
    slots[0] = Some(Requirement {
        item_id: "bolts".into(),
        quantity: 9,
    });
    s.set_recipe_override(&"workbench_lv1".to_string(), RecipeOverride::new(slots));
    assert_eq!(
        s.recipe_knowledge(&"workbench_lv1".to_string()),
        RecipeKnowledge::Edited
    );
    assert_eq!(
        s.recipe_knowledge(&"placeholder_lv1".to_string()),
        RecipeKnowledge::Unknown
    );
}

#[test]
fn hideout_progress_rows_shows_natural_next_level_untracked() {
    let mut s = AppState::new(fixture());
    let rows = s.hideout_progress_rows();
    assert!(
        rows.iter().any(|r| r.upgrade_id == "workbench_lv1"),
        "workbench's natural next build is Lv1, shown without tracking"
    );
    assert!(
        rows.iter().all(|r| r.upgrade_id != "workbench_lv2"),
        "Lv2 stays hidden until Lv1 is built (strict level order)"
    );
    assert!(rows.iter().any(|r| r.upgrade_id == "placeholder_lv1"));

    s.set_completed_upgrade(&"workbench_lv1".to_string(), true);
    let rows = s.hideout_progress_rows();
    assert!(
        rows.iter().any(|r| r.upgrade_id == "workbench_lv2"),
        "row advances to Lv2 once Lv1 is built"
    );
    assert!(rows.iter().all(|r| r.upgrade_id != "workbench_lv1"));
}

#[test]
fn hideout_progress_rows_parks_unknown_last() {
    let s = AppState::new(fixture());
    let rows = s.hideout_progress_rows();
    assert_eq!(rows.len(), 2);
    assert_eq!(
        rows[0].upgrade_id, "workbench_lv1",
        "known not-started sorts above an unknown recipe"
    );
    assert_eq!(rows[1].upgrade_id, "placeholder_lv1");
    assert_eq!(rows[1].knowledge, RecipeKnowledge::Unknown);
}

#[test]
fn hideout_progress_rows_excludes_completed_and_disabled() {
    let mut s = AppState::new(fixture());
    s.set_completed_upgrade(&"workbench_lv1".to_string(), true);
    let rows = s.hideout_progress_rows();
    assert!(rows.iter().all(|r| r.upgrade_id != "workbench_lv1"));
    assert!(rows.iter().any(|r| r.upgrade_id == "workbench_lv2"));
    s.set_module_disabled(&"workbench".to_string(), true);
    let rows = s.hideout_progress_rows();
    assert!(
        rows.iter().all(|r| r.upgrade_id != "workbench_lv2"),
        "a locked module's next level is hidden"
    );
    assert!(rows.iter().any(|r| r.upgrade_id == "placeholder_lv1"));
}

#[test]
fn hideout_progress_rows_drops_fully_built_module() {
    let mut s = AppState::new(fixture());
    s.set_completed_upgrade(&"workbench_lv1".to_string(), true);
    s.set_completed_upgrade(&"workbench_lv2".to_string(), true);
    let rows = s.hideout_progress_rows();
    assert!(
        rows.iter().all(|r| !r.upgrade_id.starts_with("workbench")),
        "a module with every level built contributes no row"
    );
    assert!(rows.iter().any(|r| r.upgrade_id == "placeholder_lv1"));
}

#[test]
fn needed_by_id_tracked_only_sums_tracked_not_completed() {
    let mut s = AppState::new(fixture());
    s.set_tracked_upgrade(&"workbench_lv2".to_string(), true);
    let need = s.needed_by_id(NeedHorizon::TrackedOnly);
    assert_eq!(need.get("bolts"), Some(&7));
    assert_eq!(need.get("screws"), None);
}

#[test]
fn needed_by_id_all_natural_picks_lowest_incomplete_level() {
    let s = AppState::new(fixture());
    let need = s.needed_by_id(NeedHorizon::AllNatural);
    assert_eq!(need.get("bolts"), Some(&5));
    assert_eq!(need.get("screws"), Some(&3));
}

#[test]
fn needed_by_id_all_natural_advances_after_completion() {
    let mut s = AppState::new(fixture());
    s.set_completed_upgrade(&"workbench_lv1".to_string(), true);
    let need = s.needed_by_id(NeedHorizon::AllNatural);
    assert_eq!(need.get("bolts"), Some(&7));
    assert_eq!(need.get("screws"), None);
}

#[test]
fn needed_by_id_all_future_sums_every_remaining_level() {
    let s = AppState::new(fixture());
    let need = s.needed_by_id(NeedHorizon::AllFuture);
    assert_eq!(need.get("bolts"), Some(&12));
    assert_eq!(need.get("screws"), Some(&3));
}

#[test]
fn can_consume_materials_tracks_stock_against_recipe() {
    let mut s = AppState::new(fixture());
    assert!(
        !s.can_consume_materials(&"workbench_lv1".to_string()),
        "nothing collected → can't consume",
    );
    s.set_collected(&"bolts".to_string(), 5);
    s.set_collected(&"screws".to_string(), 2);
    assert!(
        !s.can_consume_materials(&"workbench_lv1".to_string()),
        "screws short by one → still can't consume",
    );
    s.set_collected(&"screws".to_string(), 3);
    assert!(
        s.can_consume_materials(&"workbench_lv1".to_string()),
        "exact stock of every item → can consume",
    );
}

#[test]
fn can_consume_materials_false_for_empty_recipe() {
    let s = AppState::new(fixture());
    assert!(!s.can_consume_materials(&"placeholder_lv1".to_string()));
}

#[test]
fn can_consume_materials_counts_container_stock() {
    let mut s = AppState::new(fixture());
    s.set_collected(&"bolts".to_string(), 5);
    assert!(
        !s.can_consume_materials(&"workbench_lv1".to_string()),
        "screws missing entirely → can't consume",
    );
    let c = s.create_container("Backpack".into());
    s.set_container_item(&c, &"screws".to_string(), 3);
    assert!(
        s.can_consume_materials(&"workbench_lv1".to_string()),
        "stash bolts + container screws together cover the recipe",
    );
}

#[test]
fn complete_upgrade_consuming_subtracts_recipe_from_collected() {
    let mut s = AppState::new(fixture());
    s.set_collected(&"bolts".to_string(), 8);
    s.set_collected(&"screws".to_string(), 3);
    s.complete_upgrade(&"workbench_lv1".to_string(), true);
    assert!(s.completed_upgrades.contains("workbench_lv1"));
    assert_eq!(*s.collected.get("bolts").unwrap(), 3, "8 - 5 = 3");
    assert_eq!(
        s.collected.get("screws"),
        None,
        "3 - 3 = 0 → entry removed by set_collected",
    );
}

#[test]
fn complete_upgrade_consuming_falls_back_to_containers() {
    let mut s = AppState::new(fixture());
    s.set_collected(&"bolts".to_string(), 3);
    s.set_collected(&"screws".to_string(), 3);
    let c = s.create_container("Backpack".into());
    s.set_container_item(&c, &"bolts".to_string(), 4);
    s.complete_upgrade(&"workbench_lv1".to_string(), true);
    assert!(s.completed_upgrades.contains("workbench_lv1"));
    assert_eq!(
        s.collected.get("bolts"),
        None,
        "stash bolts drained first (3 → 0)",
    );
    assert_eq!(
        s.collected.get("screws"),
        None,
        "stash screws drained (3 → 0)"
    );
    assert_eq!(
        s.containers[0].contents.get("bolts"),
        Some(&2),
        "container covers the 2-bolt shortfall once the stash empties (4 → 2)",
    );
}

#[test]
fn complete_upgrade_consuming_drains_stash_then_same_tier_containers_in_order() {
    let mut s = AppState::new(fixture());
    s.set_collected(&"bolts".to_string(), 2);
    let c1 = s.create_container("First bag".into());
    s.set_container_item(&c1, &"bolts".to_string(), 2);
    let c2 = s.create_container("Second bag".into());
    s.set_container_item(&c2, &"bolts".to_string(), 4);
    s.complete_upgrade(&"workbench_lv2".to_string(), true);
    assert_eq!(s.collected.get("bolts"), None, "stash emptied first");
    assert_eq!(
        s.containers[0].contents.get("bolts"),
        None,
        "first bag emptied next",
    );
    assert_eq!(
        s.containers[1].contents.get("bolts"),
        Some(&1),
        "second bag covers the last bolt (4 → 1)",
    );
}

#[test]
fn complete_upgrade_consuming_drains_boxes_before_shelves_and_bags() {
    let mut s = AppState::new(fixture());
    let bag = s.create_container("Backpack".into());
    s.set_container_item(&bag, &"bolts".to_string(), 3);
    let shelf = s.create_container("Shelf".into());
    s.set_container_kind(&shelf, ContainerKind::Shelf);
    s.set_container_item(&shelf, &"bolts".to_string(), 3);
    let case = s.create_container("Item case".into());
    s.set_container_kind(&case, ContainerKind::Case);
    s.set_container_item(&case, &"bolts".to_string(), 3);
    s.complete_upgrade(&"workbench_lv2".to_string(), true);

    let bolts_in = |id: &ContainerId| {
        s.containers
            .iter()
            .find(|c| &c.id == id)
            .unwrap()
            .contents
            .get("bolts")
            .copied()
    };
    assert_eq!(bolts_in(&case), None, "box drains first (3 → 0)");
    assert_eq!(
        bolts_in(&bag),
        None,
        "bag drains next — declaration order within the shelves/bags tier (3 → 0)",
    );
    assert_eq!(
        bolts_in(&shelf),
        Some(2),
        "shelf covers the remainder after box + bag (3 → 2)",
    );
}

#[test]
fn complete_upgrade_skipping_leaves_collected_untouched() {
    let mut s = AppState::new(fixture());
    s.set_collected(&"bolts".to_string(), 8);
    s.set_collected(&"screws".to_string(), 3);
    s.complete_upgrade(&"workbench_lv1".to_string(), false);
    assert!(s.completed_upgrades.contains("workbench_lv1"));
    assert_eq!(
        *s.collected.get("bolts").unwrap(),
        8,
        "skip → inventory kept"
    );
    assert_eq!(*s.collected.get("screws").unwrap(), 3);
}

#[test]
fn complete_upgrade_consuming_still_auto_tracks_next_level() {
    let mut s = AppState::new(fixture());
    s.set_collected(&"bolts".to_string(), 5);
    s.set_collected(&"screws".to_string(), 3);
    s.complete_upgrade(&"workbench_lv1".to_string(), true);
    assert!(
        s.tracked_upgrades.contains("workbench_lv2"),
        "lv2 should auto-track once lv1 is done, consumption or not",
    );
}

#[test]
fn needed_by_id_skips_disabled_modules() {
    let mut s = AppState::new(fixture());
    s.set_module_disabled(&"workbench".to_string(), true);
    assert!(s.needed_by_id(NeedHorizon::AllFuture).len() == 0);
    assert!(s.needed_by_id(NeedHorizon::AllNatural).len() == 0);
    s.set_tracked_upgrade(&"workbench_lv1".to_string(), true);
    assert!(s.needed_by_id(NeedHorizon::TrackedOnly).len() == 0);
}

#[test]
fn owned_total_sums_stash_and_containers() {
    let mut s = AppState::new(fixture());
    s.set_collected(&"bolts".to_string(), 3);
    let c = s.create_container("Backpack".into());
    s.set_container_item(&c, &"bolts".to_string(), 4);
    assert_eq!(s.owned_total(&"bolts".to_string()), 7);
    s.set_collected(&"screws".to_string(), 2);
    assert_eq!(s.owned_total(&"screws".to_string()), 2);
    assert_eq!(s.owned_total(&"ghost".to_string()), 0);
}

#[test]
fn upgrade_ready_counts_container_stock() {
    let mut s = AppState::new(fixture());
    s.set_tracked_upgrade(&"workbench_lv2".to_string(), true);
    s.set_collected(&"bolts".to_string(), 4);
    assert!(!s.is_upgrade_ready(&"workbench_lv2".to_string()));
    let c = s.create_container("Backpack".into());
    s.set_container_item(&c, &"bolts".to_string(), 3);
    assert!(
        s.is_upgrade_ready(&"workbench_lv2".to_string()),
        "stash + container together should satisfy the recipe"
    );
    s.delete_container(&c);
    assert!(!s.is_upgrade_ready(&"workbench_lv2".to_string()));
}

#[test]
fn upgrade_progress_includes_containers() {
    let mut s = AppState::new(fixture());
    let c = s.create_container("Item case".into());
    s.set_container_item(&c, &"bolts".to_string(), 5);
    s.set_container_item(&c, &"screws".to_string(), 3);
    let p = s.upgrade_progress(&"workbench_lv1".to_string());
    assert_eq!((p.collected, p.needed), (8, 8));
    assert_eq!(fraction(&p), 1.0);
}

#[test]
fn active_items_collected_includes_containers() {
    let mut s = AppState::new(fixture());
    s.set_tracked_upgrade(&"workbench_lv2".to_string(), true);
    s.set_collected(&"bolts".to_string(), 2);
    let c = s.create_container("Backpack".into());
    s.set_container_item(&c, &"bolts".to_string(), 3);
    let active = s.active_items();
    let bolts = active.iter().find(|a| a.item_id == "bolts").unwrap();
    assert_eq!(bolts.collected, 5, "combined stash + container total");
    assert_eq!(bolts.needed, 7);
}

#[test]
fn adjust_container_item_clamps_at_zero_and_removes() {
    let mut s = AppState::new(fixture());
    let c = s.create_container("Backpack".into());
    s.adjust_container_item(&c, &"bolts".to_string(), 3);
    assert_eq!(s.owned_total(&"bolts".to_string()), 3);
    s.adjust_container_item(&c, &"bolts".to_string(), -10);
    assert_eq!(s.owned_total(&"bolts".to_string()), 0);
    assert!(!s.containers[0].contents.contains_key("bolts"));
}

#[test]
fn rename_and_delete_container() {
    let mut s = AppState::new(fixture());
    let c = s.create_container("Bagpack".into());
    s.rename_container(&c, "Backpack".into());
    assert_eq!(s.containers[0].name, "Backpack");
    s.set_container_item(&c, &"bolts".to_string(), 5);
    assert_eq!(s.owned_total(&"bolts".to_string()), 5);
    s.delete_container(&c);
    assert!(s.containers.is_empty());
    assert_eq!(s.owned_total(&"bolts".to_string()), 0);
}

#[test]
fn container_icon_set_and_persists() {
    let mut s = AppState::new(fixture());
    let c = s.create_container("Backpack".into());
    assert_eq!(s.containers[0].icon, None, "new containers start icon-less");
    s.set_container_icon(&c, Some("backpack_rucksack".into()));
    assert_eq!(s.containers[0].icon.as_deref(), Some("backpack_rucksack"));

    let back = PersistedState::from_app(&s);
    let mut s2 = AppState::new(s.data.clone());
    back.merge_into(&mut s2);
    assert_eq!(s2.containers[0].icon.as_deref(), Some("backpack_rucksack"));
}

#[test]
fn container_round_trip_persist() {
    let mut s = AppState::new(fixture());
    let c = s.create_container("Backpack".into());
    s.set_container_item(&c, &"bolts".to_string(), 4);
    s.set_container_kind(&c, ContainerKind::Case);
    let back = PersistedState::from_app(&s);

    let mut s2 = AppState::new(s.data.clone());
    back.merge_into(&mut s2);
    assert_eq!(s2.containers.len(), 1);
    assert_eq!(s2.containers[0].name, "Backpack");
    assert_eq!(s2.containers[0].contents.get("bolts"), Some(&4));
    assert_eq!(s2.containers[0].kind, ContainerKind::Case);
    assert_eq!(s2.owned_total(&"bolts".to_string()), 4);
    assert_eq!(s2.next_container_seq, 1);
    let c2 = s2.create_container("Item case".into());
    assert_ne!(c2, c);
}

#[test]
fn old_state_json_without_containers_loads_empty() {
    let mut back = blank_profile();
    back.tracked_upgrades = id_set(&["workbench_lv1"]);
    back.collected = counts(&[("bolts", 2)]);
    assert!(back.containers.is_empty());
    assert_eq!(back.next_container_seq, 0);
    let mut s = AppState::new(fixture());
    let warn = back.merge_into(&mut s);
    assert!(warn.is_none(), "same data version + known ids → no warning");
    assert!(s.containers.is_empty());
    assert!(s.tracked_upgrades.contains("workbench_lv1"));
    assert_eq!(*s.collected.get("bolts").unwrap(), 2);
}


#[test]
fn pin_toggle_bumps_version() {
    let mut s = AppState::new(fixture());
    let v0 = s.version;
    s.set_pinned_upgrade(&"workbench_lv1".to_string(), true);
    assert!(s.version > v0, "pinning must bump version so VR re-renders");
    let v1 = s.version;
    s.set_pinned_upgrade(&"workbench_lv1".to_string(), false);
    assert!(s.version > v1, "unpinning must bump version too");
    let v2 = s.version;
    s.set_pinned_upgrade(&"workbench_lv1".to_string(), false);
    assert_eq!(s.version, v2, "redundant unpin shouldn't bump");
}

fn disjoint_levels(s: &mut AppState) {
    let mut lv1: [Option<Requirement>; RECIPE_SLOTS] = std::array::from_fn(|_| None);
    lv1[0] = Some(Requirement {
        item_id: "screws".into(),
        quantity: 3,
    });
    s.set_recipe_override(&"workbench_lv1".to_string(), RecipeOverride::new(lv1));
    s.set_tracked_upgrade(&"workbench_lv1".to_string(), true);
    s.set_tracked_upgrade(&"workbench_lv2".to_string(), true);
}

#[test]
fn pinned_floats_in_active_items() {
    let mut s = AppState::new(fixture());
    disjoint_levels(&mut s);

    let base = s.active_items();
    assert_eq!(base[0].item_id, "bolts");
    assert_eq!(base[1].item_id, "screws");
    assert!(base.iter().all(|a| !a.pinned));

    s.set_pinned_upgrade(&"workbench_lv1".to_string(), true);
    let rows = s.active_items();
    assert_eq!(rows[0].item_id, "screws", "pinned item leads");
    assert!(rows[0].pinned);
    assert_eq!(rows[1].item_id, "bolts");
    assert!(!rows[1].pinned);
}

#[test]
fn pin_does_not_unsink_completed() {
    let mut s = AppState::new(fixture());
    disjoint_levels(&mut s);
    s.set_pinned_upgrade(&"workbench_lv1".to_string(), true);
    s.set_collected(&"screws".to_string(), 3);
    let rows = s.active_items();
    assert_eq!(rows[0].item_id, "bolts", "still-needed item leads");
    assert_eq!(rows[1].item_id, "screws");
    assert!(
        rows[1].collected >= rows[1].needed,
        "the pinned-but-done item sinks last"
    );
}

#[test]
fn pin_skips_items_already_satisfied_for_that_upgrade() {
    let mut s = AppState::new(fixture());
    s.set_tracked_upgrade(&"workbench_lv1".to_string(), true);
    s.set_tracked_upgrade(&"workbench_lv2".to_string(), true);
    s.set_pinned_upgrade(&"workbench_lv1".to_string(), true);
    s.set_collected(&"bolts".to_string(), 5);

    let items = s.active_items();
    let bolts = items.iter().find(|a| a.item_id == "bolts").unwrap();
    let screws = items.iter().find(|a| a.item_id == "screws").unwrap();
    assert!(
        !bolts.pinned,
        "bolts is satisfied for the pinned upgrade (5/5) — the pin must not \
         flag it even though it's 5/12 across all tracked upgrades"
    );
    assert!(
        screws.pinned,
        "screws is still short for the pinned upgrade (0/3) — that's what the pin highlights"
    );
    assert_eq!(
        items[0].item_id, "screws",
        "the pin's still-needed item leads"
    );
}

#[test]
fn pin_sums_shared_item_across_pinned_upgrades() {
    let mut s = AppState::new(fixture());
    s.set_tracked_upgrade(&"workbench_lv1".to_string(), true);
    s.set_tracked_upgrade(&"workbench_lv2".to_string(), true);
    s.set_pinned_upgrade(&"workbench_lv1".to_string(), true);
    s.set_pinned_upgrade(&"workbench_lv2".to_string(), true);

    s.set_collected(&"bolts".to_string(), 7);
    let bolts = s
        .active_items()
        .into_iter()
        .find(|a| a.item_id == "bolts")
        .unwrap();
    assert!(
        bolts.pinned,
        "7 bolts covers 5 and 7 separately but not the combined 12 — still pinned"
    );

    s.set_collected(&"bolts".to_string(), 12);
    let bolts = s
        .active_items()
        .into_iter()
        .find(|a| a.item_id == "bolts")
        .unwrap();
    assert!(
        !bolts.pinned,
        "12 bolts satisfies both pinned upgrades together — pin clears"
    );
}

#[test]
fn shortfall_counts_distinct_and_units() {
    let mut s = AppState::new(fixture());
    s.set_collected(&"bolts".to_string(), 5);
    s.set_collected(&"screws".to_string(), 1);
    let sf = s.upgrade_shortfall(&"workbench_lv1".to_string());
    assert_eq!(sf.items_missing, 1, "only screws is below target");
    assert_eq!(sf.units_missing, 2, "3 needed − 1 owned");
}

#[test]
fn shortfall_boundary_owned_equals_qty_not_missing() {
    let mut s = AppState::new(fixture());
    s.set_collected(&"bolts".to_string(), 5);
    s.set_collected(&"screws".to_string(), 3);
    let sf = s.upgrade_shortfall(&"workbench_lv1".to_string());
    assert_eq!(
        sf.items_missing, 0,
        "owned == target is not missing (uses <, not <=)"
    );
    assert_eq!(sf.units_missing, 0);
}

#[test]
fn ready_is_tracking_independent() {
    let mut s = AppState::new(fixture());
    s.set_collected(&"bolts".to_string(), 5);
    s.set_collected(&"screws".to_string(), 3);
    assert!(
        !s.tracked_upgrades.contains("workbench_lv1"),
        "precondition: not tracked"
    );
    assert!(
        s.is_upgrade_ready(&"workbench_lv1".to_string()),
        "untracked + every item collected ⇒ ready"
    );
    s.set_completed_upgrade(&"workbench_lv1".to_string(), true);
    assert!(!s.is_upgrade_ready(&"workbench_lv1".to_string()));
}

#[test]
fn hideout_progress_rows_floats_pinned_above_bucket() {
    let mut s = AppState::new(fixture());
    s.set_collected(&"bolts".to_string(), 5);
    s.set_collected(&"screws".to_string(), 3);

    let rows = s.hideout_progress_rows();
    assert_eq!(rows[0].upgrade_id, "workbench_lv1");
    assert_eq!(rows[1].upgrade_id, "placeholder_lv1");

    s.set_pinned_upgrade(&"placeholder_lv1".to_string(), true);
    let rows = s.hideout_progress_rows();
    assert_eq!(rows[0].upgrade_id, "placeholder_lv1");
    assert!(rows[0].pinned);
    assert_eq!(rows[1].upgrade_id, "workbench_lv1");
}

#[test]
fn hideout_progress_rows_orders_ready_nearly_inprogress_known_unknown() {
    fn up(id: &str, reqs: &[(&str, u32)]) -> Upgrade {
        Upgrade {
            id: id.into(),
            name: id.into(),
            level: 1,
            description: String::new(),
            requirements: reqs
                .iter()
                .map(|(i, q)| Requirement {
                    item_id: (*i).into(),
                    quantity: *q,
                })
                .collect(),
        }
    }
    fn module(id: &str, upgrade: Upgrade) -> HideoutModule {
        HideoutModule {
            id: id.into(),
            name: id.into(),
            upgrades: vec![upgrade],
        }
    }
    let data = Arc::new(GameData {
        data_version: "test".into(),
        scraped_at: "now".into(),
        source_repo: "test".into(),
        source_commit: "deadbeef".into(),
        research: Vec::new(),
        modules: vec![
            module("m_ready", up("u_ready", &[("ra", 2)])),
            module("m_nearly", up("u_nearly", &[("na", 2)])),
            module(
                "m_inprog",
                up("u_inprog", &[("pa", 2), ("pb", 2), ("pc", 2)]),
            ),
            module("m_known", up("u_known", &[("ka", 2), ("kb", 2), ("kc", 2)])),
            module("m_unknown", up("u_unknown", &[])),
        ],
        items: vec![],
    });
    let mut s = AppState::new(data);
    s.set_collected(&"ra".to_string(), 2);
    s.set_collected(&"na".to_string(), 1);
    s.set_collected(&"pa".to_string(), 1);
    let order: Vec<String> = s
        .hideout_progress_rows()
        .into_iter()
        .map(|r| r.upgrade_id)
        .collect();
    assert_eq!(
        order,
        vec!["u_ready", "u_nearly", "u_inprog", "u_known", "u_unknown"]
    );
}

#[test]
fn pinned_round_trips_through_persisted_state() {
    let mut s = AppState::new(fixture());
    s.set_tracked_upgrade(&"workbench_lv1".to_string(), true);
    s.set_pinned_upgrade(&"workbench_lv1".to_string(), true);
    let back = PersistedState::from_app(&s);
    let mut s2 = AppState::new(s.data.clone());
    back.merge_into(&mut s2);
    assert!(s2.is_upgrade_pinned(&"workbench_lv1".to_string()));
}

#[test]
fn merge_into_drops_unknown_pins() {
    let mut s = AppState::new(fixture());
    let persisted = PersistedState {
        schema_version: STATE_SCHEMA_VERSION,
        data_version: "test".into(),
        tracked_upgrades: IdSet::new(),
        completed_upgrades: IdSet::new(),
        pinned_upgrades: id_set(&["workbench_lv1", "ghost"]),
        collected: IdMap::new(),
        disabled_modules: IdSet::new(),
        containers: Vec::new(),
        next_container_seq: 0,
        default_shelf_seeded: false,
        gunsmith_storage_seeded: false,
        research_states: IdMap::new(),
        tracked_research: IdSet::new(),
        pinned_research: IdSet::new(),
    };
    let warn = persisted.merge_into(&mut s);
    assert!(warn.is_none(), "a dropped pin must not produce a warning");
    assert!(s.is_upgrade_pinned(&"workbench_lv1".to_string()));
    assert!(
        !s.is_upgrade_pinned(&"ghost".to_string()),
        "unknown pin id is pruned on load"
    );
}

#[test]
fn reset_all_clears_pins() {
    let mut s = AppState::new(fixture());
    s.set_tracked_upgrade(&"workbench_lv1".to_string(), true);
    s.set_pinned_upgrade(&"workbench_lv1".to_string(), true);
    s.reset_all();
    assert!(s.pinned_upgrades.len() == 0);
}

fn research_fixture() -> Arc<GameData> {
    fn ritem(id: &str, name: &str) -> Item {
        Item {
            id: id.into(),
            name: name.into(),
            icon_path: format!("icons/{id}.png"),
            category: Some("gunsmith".into()),
            subcategory: None,
            weight: None,
            price: None,
            rarity: None,
        }
    }
    fn node(
        id: &str,
        parents: &[&str],
        unlocks: &str,
        samples: &[(&str, u32)],
    ) -> ResearchNode {
        ResearchNode {
            id: id.into(),
            name: id.to_uppercase(),
            parents: parents.iter().map(|p| p.to_string()).collect(),
            unlocks_item_id: unlocks.into(),
            samples: samples
                .iter()
                .map(|&(i, q)| Requirement {
                    item_id: i.into(),
                    quantity: q,
                })
                .collect(),
        }
    }
    Arc::new(GameData {
        data_version: "test".into(),
        scraped_at: "now".into(),
        source_repo: "test".into(),
        source_commit: "deadbeef".into(),
        modules: Vec::new(),
        items: vec![
            ritem("part_a", "Part A"),
            ritem("part_b", "Part B"),
            ritem("part_c", "Part C"),
            ritem("part_d", "Part D"),
            ritem("oil", "Oil"),
            ritem("tape", "Tape"),
        ],
        research: vec![ResearchCategory {
            id: "basic".into(),
            name: "Basic Research".into(),
            merchant: "Neumann".into(),
            nodes: vec![
                node("r1", &[], "part_a", &[("oil", 2)]),
                node("r2", &["r1"], "part_b", &[("tape", 3), ("oil", 1)]),
                node("r3", &["r1"], "part_c", &[("tape", 1)]),
                node("r4", &["r2", "r3"], "part_d", &[("oil", 4)]),
            ],
        }],
    })
}

#[test]
fn research_status_derives_locked_and_available_from_parents() {
    let mut s = AppState::new(research_fixture());
    let (r1, r2) = ("r1".to_string(), "r2".to_string());
    assert_eq!(s.research_status(&r1), ResearchStatus::Available);
    assert_eq!(s.research_status(&r2), ResearchStatus::Locked);

    s.set_research_state(&r1, Some(ResearchNodeState::InProgress));
    assert_eq!(s.research_status(&r1), ResearchStatus::InProgress);
    assert_eq!(
        s.research_status(&r2),
        ResearchStatus::Locked,
        "in-progress parent doesn't unlock the child"
    );

    s.set_research_state(&r1, Some(ResearchNodeState::Developed));
    assert_eq!(s.research_status(&r1), ResearchStatus::Developed);
    assert_eq!(s.research_status(&r2), ResearchStatus::Available);

    assert_eq!(
        s.research_status(&"ghost".to_string()),
        ResearchStatus::Locked,
        "unknown ids read as locked"
    );
}

#[test]
fn developing_untracks_only_itself_no_cascade() {
    let mut s = AppState::new(research_fixture());
    let (r1, r2, r3) = ("r1".to_string(), "r2".to_string(), "r3".to_string());
    s.set_tracked_research(&r1, true);

    s.set_research_state(&r1, Some(ResearchNodeState::Developed));
    assert!(
        !s.tracked_research.contains(&r1),
        "developing removes the node from the wishlist"
    );
    assert_eq!(s.research_status(&r2), ResearchStatus::Available);
    assert_eq!(s.research_status(&r3), ResearchStatus::Available);
    assert!(
        !s.tracked_research.contains(&r2) && !s.tracked_research.contains(&r3),
        "developing must not auto-track the newly-unlocked children"
    );
}

#[test]
fn focus_research_tracks_and_pins_the_prerequisite_chain() {
    let mut s = AppState::new(research_fixture());
    let (r1, r2, r3, r4) = (
        "r1".to_string(),
        "r2".to_string(),
        "r3".to_string(),
        "r4".to_string(),
    );
    s.focus_research(&r4);
    for id in [&r1, &r2, &r3, &r4] {
        assert!(s.tracked_research.contains(id), "{id} tracked by focus");
        assert!(s.is_research_pinned(id), "{id} pinned by focus");
    }
    assert!(s
        .active_items()
        .iter()
        .all(|i| i.pinned || i.collected >= i.needed));

    let mut s2 = AppState::new(research_fixture());
    s2.set_research_state(&r1, Some(ResearchNodeState::Developed));
    s2.focus_research(&r2);
    assert!(s2.tracked_research.contains(&r2) && s2.is_research_pinned(&r2));
    assert!(
        !s2.tracked_research.contains(&r1),
        "a developed prerequisite is not re-tracked by focus"
    );
}

#[test]
fn active_items_includes_tracked_research_until_developed() {
    let mut s = AppState::new(research_fixture());
    let r2 = "r2".to_string();
    s.set_tracked_research(&r2, true);

    let items = s.active_items();
    let tape = items.iter().find(|i| i.item_id == "tape").expect("tape");
    assert_eq!(tape.needed, 3);
    assert_eq!(tape.sources, vec!["Research: R2".to_string()]);
    assert!(
        items.iter().any(|i| i.item_id == "oil"),
        "locked-but-tracked nodes still contribute (samples are lootable early)"
    );

    s.set_research_state(&r2, Some(ResearchNodeState::Developed));
    assert!(
        s.active_items().is_empty(),
        "developing untracks the node, so nothing contributes"
    );
}

#[test]
fn complete_research_consuming_drains_inventory() {
    let mut s = AppState::new(research_fixture());
    let r1 = "r1".to_string();
    s.set_collected(&"oil".to_string(), 3);
    assert!(s.can_consume_research_samples(&r1));
    s.complete_research(&r1, true);
    assert_eq!(*s.collected.get("oil").unwrap(), 1, "r1 burned oil×2");
    assert_eq!(s.research_status(&r1), ResearchStatus::Developed);

    let r3 = "r3".to_string();
    s.set_collected(&"tape".to_string(), 5);
    s.complete_research(&r3, false);
    assert_eq!(*s.collected.get("tape").unwrap(), 5);
}

#[test]
fn research_persists_and_prunes_unknown_ids() {
    let mut s = AppState::new(research_fixture());
    s.set_research_state(&"r1".to_string(), Some(ResearchNodeState::Developed));
    s.set_tracked_research(&"r4".to_string(), true);
    s.set_pinned_research(&"r4".to_string(), true);
    let persisted = PersistedState::from_app(&s);

    let mut fresh = AppState::new(research_fixture());
    let warn = persisted.merge_into(&mut fresh);
    assert!(warn.is_none());
    assert_eq!(
        fresh.research_status(&"r1".to_string()),
        ResearchStatus::Developed
    );
    assert!(fresh.tracked_research.contains("r4"));
    assert!(
        fresh.is_research_pinned(&"r4".to_string()),
        "pin survives a round-trip"
    );

    let persisted = PersistedState::from_app(&s);
    let mut other = AppState::new(fixture());
    let warn = persisted.merge_into(&mut other).expect("should warn");
    assert!(warn.contains("tracked research node"));
    assert!(other.tracked_research.len() == 0);
    assert!(other.research_states.len() == 0);
    assert!(
        other.pinned_research.len() == 0,
        "orphaned pin pruned silently"
    );
}

#[test]
fn research_pin_drives_active_items_priority() {
    let mut s = AppState::new(research_fixture());
    let r2 = "r2".to_string();
    s.set_tracked_research(&r2, true);

    let tape = |s: &AppState| {
        s.active_items()
            .into_iter()
            .find(|i| i.item_id == "tape")
            .expect("tape")
    };
    assert!(!tape(&s).pinned, "tracking alone does not pin");

    s.set_pinned_research(&r2, true);
    assert!(tape(&s).pinned, "pinning a tracked node lights its samples");

    s.set_tracked_research(&r2, false);
    assert!(
        s.is_research_pinned(&r2),
        "untracking leaves the pin recorded (re-applies on re-track)"
    );
    assert!(
        s.active_items().is_empty(),
        "but an untracked node contributes nothing, pinned or not"
    );

    s.set_tracked_research(&r2, true);
    assert!(tape(&s).pinned, "re-tracking revives the recorded pin");

    s.set_research_state(&r2, Some(ResearchNodeState::Developed));
    assert!(s.active_items().is_empty());
}

#[test]
fn reset_all_clears_research_pins() {
    let mut s = AppState::new(research_fixture());
    s.set_tracked_research(&"r1".to_string(), true);
    s.set_pinned_research(&"r1".to_string(), true);
    s.reset_all();
    assert!(s.pinned_research.len() == 0);
    assert!(s.tracked_research.len() == 0);
}

#[test]
fn no_id_is_minted_twice() {
    let mut s = AppState::new(fixture());
    let a = s.create_container("Bag".into());
    let b = s.create_container("Bag".into());
    assert_ne!(a, b);
    s.delete_container(&b);
    let c = s.create_container("Bag".into());
    assert_ne!(c, a);
    assert_ne!(c, b);
}

#[test]
fn the_future_needs_at_least_what_comes_next() {
    let s = AppState::new(fixture());
    let next = s.needed_by_id(NeedHorizon::AllNatural);
    let all = s.needed_by_id(NeedHorizon::AllFuture);
    assert!(next.get("bolts").unwrap() < all.get("bolts").unwrap());
    assert_eq!(next.get("screws"), all.get("screws"));
}

#[test]
fn paying_takes_the_cost_from_what_is_owned() {
    let mut s = AppState::new(fixture());
    let bolts = "bolts".to_string();
    s.set_collected(&bolts, 3);
    s.set_collected(&"screws".to_string(), 3);
    let bag = s.create_container("Bag".into());
    s.set_container_item(&bag, &bolts, 4);
    let level = "workbench_lv1".to_string();
    assert!(s.is_upgrade_ready(&level));
    assert!(s.can_consume_materials(&level));
    s.complete_upgrade(&level, true);
    assert_eq!(s.owned_total(&bolts), 2);
    assert_eq!(s.owned_total(&"screws".to_string()), 0);
}

#[test]
fn clearing_a_correction_restores_the_recipe() {
    let mut s = AppState::new(fixture());
    let level = "workbench_lv1".to_string();
    let mut slots: [Option<Requirement>; RECIPE_SLOTS] = std::array::from_fn(|_| None);
    slots[0] = Some(Requirement {
        item_id: "bolts".into(),
        quantity: 9,
    });
    s.set_recipe_override(&level, RecipeOverride::new(slots));
    assert!(s.is_overridden(&level));
    assert_eq!(s.effective_requirements(&level).len(), 1);
    let before = s.version;
    s.clear_recipe_override(&level);
    assert!(!s.is_overridden(&level));
    assert_eq!(s.effective_requirements(&level).len(), 2);
    assert_eq!(s.version, before + 1);
    s.clear_recipe_override(&level);
    assert_eq!(s.version, before + 1);
}

#[test]
fn research_progress_counts_samples_up_to_their_number() {
    let mut s = AppState::new(research_fixture());
    let r1 = "r1".to_string();
    let needed = s.research_progress(&r1).needed;
    assert!(needed > 0);
    assert_eq!(s.research_progress(&r1).collected, 0);
    for item in ["part_a", "part_b", "part_c", "part_d", "oil", "tape"] {
        s.set_collected(&item.to_string(), 1_000);
    }
    let full = s.research_progress(&r1);
    assert_eq!((full.collected, full.needed), (needed, needed));
    let none = s.research_progress(&"no such node".to_string());
    assert_eq!((none.collected, none.needed), (0, 0));
}

#[test]
fn weights_are_the_same_as_floats_are() {
    let w = |k: f32| Kilograms { bits: k.to_bits() };
    assert!(w(0.0004).same(w(0.0004)));
    assert!(!w(0.0004).same(w(0.0)));
    assert!(w(0.0).same(w(-0.0)));
    assert!(w(f32::INFINITY).same(w(f32::INFINITY)));
    assert!(!w(f32::NAN).same(w(f32::NAN)));
}

#[test]
fn an_unchanged_cap_changes_nothing() {
    let mut s = AppState::new(fixture());
    let id = s.create_container("Bag".into());
    s.set_container_capacity(&id, kg(0.0004));
    let before = s.version;
    s.set_container_capacity(&id, kg(0.0004));
    assert_eq!(s.version, before);
    assert_eq!(s.containers[0].capacity_kg, kg(0.0004));
    s.set_container_capacity(&id, kg(0.0005));
    assert_eq!(s.version, before + 1);
}

#[test]
fn fewer_items_come_before_fewer_units() {
    let level = |id: &str, reqs: &[(&str, u32)]| HideoutModule {
        id: format!("m_{id}"),
        name: format!("M {id}"),
        upgrades: vec![Upgrade {
            id: id.into(),
            name: id.into(),
            level: 1,
            description: String::new(),
            requirements: reqs
                .iter()
                .map(|(i, q)| Requirement {
                    item_id: (*i).into(),
                    quantity: *q,
                })
                .collect(),
        }],
    };
    let s = AppState::new(Arc::new(GameData {
        data_version: "test".into(),
        scraped_at: "now".into(),
        source_repo: "test".into(),
        source_commit: "deadbeef".into(),
        research: Vec::new(),
        modules: vec![
            level("a_two", &[("x", 1), ("y", 1)]),
            level("b_one", &[("x", 2_000_000_000)]),
            level("c_one", &[("x", 5)]),
        ],
        items: Vec::new(),
    }));
    let order: Vec<String> = s
        .hideout_progress_rows()
        .into_iter()
        .map(|r| r.upgrade_id)
        .collect();
    assert_eq!(order, vec!["c_one", "b_one", "a_two"]);
}

#[test]
fn what_is_wished_for_needs_no_more_than_the_future() {
    let mut s = AppState::new(fixture());
    s.set_tracked_upgrade(&"workbench_lv1".to_string(), true);
    s.set_tracked_upgrade(&"workbench_lv2".to_string(), true);
    let wished = s.needed_by_id(NeedHorizon::TrackedOnly);
    let all = s.needed_by_id(NeedHorizon::AllFuture);
    assert_eq!(wished.get("bolts"), Some(&12));
    assert_eq!(all.get("bolts"), Some(&12));
    s.set_module_disabled(&"workbench".to_string(), true);
    for h in [NeedHorizon::TrackedOnly, NeedHorizon::AllNatural, NeedHorizon::AllFuture] {
        assert_eq!(s.needed_by_id(h).len(), 0);
    }
}

#[test]
fn disabling_a_parent_area_disables_what_lies_in_it() {
    let mut s = AppState::new(fixture());
    let mut parents = IdMap::new();
    parents.insert("workbench".to_string(), "kitchen_area".to_string());
    let before = s.version;
    s.set_module_parents(parents);
    assert_eq!(s.version, before);
    assert!(!s.is_module_effectively_disabled("workbench"));
    s.set_module_disabled(&"kitchen_area".to_string(), true);
    assert!(s.is_module_effectively_disabled("workbench"));
    assert!(!s.is_module_effectively_disabled("placeholder"));
    assert_eq!(s.needed_by_id(NeedHorizon::AllFuture).len(), 0);
    s.set_module_disabled(&"kitchen_area".to_string(), false);
    assert!(!s.is_module_effectively_disabled("workbench"));
    s.set_module_disabled(&"workbench".to_string(), true);
    assert!(s.is_module_effectively_disabled("workbench"));
}
