//! The overlay: capture modes, the guide box, pointing and clicking, cards,
//! and when the panel shows.

use ez_wishlist_overlay::canvas::{Canvas, Rgba};
use ez_wishlist_overlay::data::{GameData, HideoutModule, Item, Requirement, Upgrade};
use ez_wishlist_overlay::state::needs::ActiveItem;
use ez_wishlist_overlay::state::AppState;
use ez_wishlist_overlay::vr::capture_session::{
    CaptureEye, CaptureHand, CaptureMode, CaptureState, JobKind, ScanTarget,
};
use ez_wishlist_overlay::vr::guide::{
    self, count_text, layout_for_hole, side_by_side, Bar, GuidePlan, FINE, UNIT,
};
use ez_wishlist_overlay::vr::input::{
    handle_click, hit_test, hover_of, ClickOutcome, Debouncer, Spot, HAPTIC_INCREMENT_US,
    HAPTIC_RESET_US,
};
use ez_wishlist_overlay::vr::ocr_render::{
    self, draw_body, OcrFeedback, OcrFeedbackKind, OcrItemDelta, CARD_H_MAX, CARD_H_MIN, CARD_W,
};
use ez_wishlist_overlay::vr::pose::{Visibility, VisibilityFsm, MS};
use ez_wishlist_overlay::vr::render::{
    self, cap_wishlist, decode_icon, scale_icon, truncate_to_width, Area, CellHit, CELL_PADDING,
    CELL_PX, MAX_ROWS, NAME_BAND_H,
};
use std::sync::Arc;

// Capture modes.

#[test]
fn job_kind_routes_per_mode() {
    assert_eq!(CaptureMode::Off.job_kind(), None);
    assert_eq!(CaptureMode::Hideout.job_kind(), Some(JobKind::UpgradePanel));
    assert_eq!(
        CaptureMode::Box(ScanTarget::Stash).job_kind(),
        Some(JobKind::BoxScan)
    );
    assert_eq!(
        CaptureMode::Box(ScanTarget::Container("crate_a".into())).job_kind(),
        Some(JobKind::BoxScan)
    );
}

#[test]
fn is_active_only_when_not_off() {
    assert!(!CaptureMode::Off.is_active());
    assert!(CaptureMode::Hideout.is_active());
    assert!(CaptureMode::Box(ScanTarget::Stash).is_active());
}

#[test]
fn scan_target_only_for_box() {
    assert!(CaptureMode::Off.scan_target().is_none());
    assert!(CaptureMode::Hideout.scan_target().is_none());
    assert!(matches!(
        CaptureMode::Box(ScanTarget::Stash).scan_target(),
        Some(&ScanTarget::Stash)
    ));
    let boxed = CaptureMode::Box(ScanTarget::Container("crate_a".into()));
    assert!(boxed
        .scan_target()
        .unwrap()
        .same(&ScanTarget::Container("crate_a".into())));
    assert!(!boxed.scan_target().unwrap().same(&ScanTarget::Stash));
}

#[test]
fn captions_and_labels_present_for_active_states() {
    assert!(CaptureMode::Off.guide_caption().is_empty());
    assert!(!CaptureMode::Hideout.guide_caption().is_empty());
    assert!(!CaptureMode::Box(ScanTarget::Stash)
        .guide_caption()
        .is_empty());
    for s in [
        CaptureState::Ready,
        CaptureState::Capturing,
        CaptureState::RunningOcr,
    ] {
        assert!(!s.label().is_empty());
    }
}

#[test]
fn default_is_off_and_ready() {
    assert!(CaptureMode::default().same(&CaptureMode::Off));
    assert_eq!(CaptureState::default(), CaptureState::Ready);
}

#[test]
fn modes_copy_and_compare_by_what_they_scan() {
    let a = CaptureMode::Box(ScanTarget::Container("a".into()));
    let b = CaptureMode::Box(ScanTarget::Container("b".into()));
    assert!(a.same(&a.copy()));
    assert!(!a.same(&b));
    assert!(!a.same(&CaptureMode::Hideout));
    assert_eq!(CaptureEye::Left.other(), CaptureEye::Right);
    assert_eq!(CaptureEye::Right.other().other(), CaptureEye::Right);
    assert_eq!(CaptureEye::Left.label(), "left");
    assert_eq!(CaptureHand::Right.label(), "RIGHT");
}

// The guide box.

fn guide(mode: CaptureMode, chip: &str, rgb: (u8, u8, u8), w: u32, h: u32) -> GuidePlan {
    guide::render(&mode, chip, rgb, "RIGHT", &layout_for_hole(w, h))
}

/// Whether a bar covers the middle of the pixel at `(x, y)`.
fn covers(b: &Bar, x: u32, y: u32) -> bool {
    let (cx, cy) = (x as i64 * UNIT + UNIT / 2, y as i64 * UNIT + UNIT / 2);
    b.x <= cx && cx < b.x + b.w && b.y <= cy && cy < b.y + b.h
}

fn painted(p: &GuidePlan, x: u32, y: u32) -> bool {
    p.sides.iter().chain(p.ticks.iter()).any(|b| covers(b, x, y))
}

#[test]
fn layout_centers_hole_in_texture() {
    let l = layout_for_hole(400, 300);
    assert_eq!(l.hole_x * 2 + l.hole_w, l.tex_w, "x symmetric");
    assert_eq!(l.hole_y * 2 + l.hole_h, l.tex_h, "y symmetric");
    assert!(l.tex_w > l.hole_w && l.tex_h > l.hole_h);
    assert!(l.hole_x > 0 && l.hole_y > 0);
}

#[test]
fn renders_requested_size() {
    let layout = layout_for_hole(800, 600);
    let pix = guide::render(
        &CaptureMode::Hideout,
        "Ready — pull trigger",
        (80, 180, 100),
        "RIGHT",
        &layout,
    );
    assert_eq!((pix.width, pix.height), (layout.tex_w, layout.tex_h));
    assert_eq!(pix.chip, "Ready — pull trigger");
    assert_eq!(pix.chip_rgb, (80, 180, 100));
}

#[test]
fn hole_interior_transparent_frame_just_outside() {
    let layout = layout_for_hole(400, 200);
    let pix = guide(
        CaptureMode::Box(ScanTarget::Stash),
        "Capturing…",
        (200, 180, 80),
        400,
        200,
    );
    let cy = layout.hole_y + layout.hole_h / 2;
    assert!(
        !painted(&pix, layout.hole_x + layout.hole_w / 2, cy),
        "hole interior stays transparent for see-through aiming"
    );
    assert!(
        painted(&pix, layout.hole_x - 1, cy),
        "frame drawn just outside the hole"
    );
    assert!(
        !painted(&pix, layout.hole_x + 3, cy),
        "no frame pixels inside the captured hole"
    );
}

const CLEAR: Rgba = Rgba { r: 0, g: 0, b: 0, a: 0 };
const INK: Rgba = Rgba { r: 250, g: 240, b: 230, a: 200 };

#[test]
fn side_by_side_puts_content_in_capture_eye_half() {
    let layout = layout_for_hole(200, 100);
    let plan = guide(CaptureMode::Hideout, "Ready", (80, 180, 100), 200, 100);
    let mut content = Canvas::filled(plan.width, plan.height, CLEAR);
    for y in 0..content.h {
        for x in 0..content.w {
            if painted(&plan, x, y) {
                content.put(x, y, INK);
            }
        }
    }
    let w = content.w;
    let cy = layout.hole_y + layout.hole_h / 2;
    let fx = layout.hole_x - 1;
    assert!(content.get(fx, cy).a > 0, "frame pixel painted in content");

    let r = side_by_side(&content, false);
    assert_eq!((r.w, r.h), (w * 2, content.h));
    assert_eq!(r.get(fx, cy).a, 0, "left half clear for right-eye box");
    assert!(r.get(fx + w, cy).a > 0, "content in right half");

    let l = side_by_side(&content, true);
    assert!(l.get(fx, cy).a > 0, "content in left half");
    assert_eq!(l.get(fx + w, cy).a, 0, "right half clear for left-eye box");
}

#[test]
fn handles_degenerate_size() {
    let pix = guide(CaptureMode::Hideout, "Reading…", (89, 190, 175), 0, 0);
    assert!(pix.width >= 1 && pix.height >= 1);
}

#[test]
fn no_bar_of_the_frame_touches_the_hole() {
    for (w, h) in [(1, 1), (37, 300), (1024, 550)] {
        let l = layout_for_hole(w, h);
        let p = guide(CaptureMode::Hideout, "Ready", (1, 2, 3), w, h);
        for y in l.hole_y..l.hole_y + l.hole_h {
            for x in [l.hole_x, l.hole_x + l.hole_w / 2, l.hole_x + l.hole_w - 1] {
                assert!(!painted(&p, x, y), "{w}x{h} at {x},{y}");
            }
        }
    }
}

#[test]
fn unread_count_shows_a_question_mark() {
    assert_eq!(count_text(Some(7)), "7");
    assert_eq!(count_text(None), "?");
}

// Pointing and clicking.

fn hit(id: &str, x: u32, y: u32, w: u32, h: u32, needed: u32) -> CellHit {
    CellHit {
        item_id: id.to_string(),
        rect: Area { x, y, w, h },
        hit_rect: Area { x, y, w, h },
        needed,
    }
}

#[test]
fn hit_test_picks_containing_cell() {
    let hits = vec![hit("a", 0, 0, 100, 100, 5), hit("b", 200, 200, 100, 100, 5)];
    let h = hit_test(&hits, &Spot::at(50, 50));
    assert_eq!(h.map(|h| h.item_id.as_str()), Some("a"));
    let h = hit_test(&hits, &Spot::at(250, 250));
    assert_eq!(h.map(|h| h.item_id.as_str()), Some("b"));
    let h = hit_test(&hits, &Spot::at(150, 150));
    assert!(h.is_none());
}

#[test]
fn the_name_above_an_icon_hits_its_item() {
    let cell = CellHit {
        item_id: "a".to_string(),
        rect: Area { x: 8, y: 30, w: 160, h: 100 },
        hit_rect: Area { x: 8, y: 8, w: 160, h: 160 },
        needed: 1,
    };
    let hits = vec![cell];
    assert!(hit_test(&hits, &Spot::at(20, 12)).is_some());
    assert!(hit_test(&hits, &Spot::at(4, 12)).is_none());
    let hover = hover_of(&hits, &vec![None, Some(Spot::at(20, 12))]);
    assert_eq!(hover.as_deref(), Some("a"));
    assert!(hover_of(&hits, &vec![None]).is_none());
}

#[test]
fn debouncer_drops_repeat_within_window() {
    let mut d = Debouncer::new();
    let t0 = 5_000 * MS;
    let id = "a".to_string();
    assert!(!d.should_drop(&id, t0));
    assert!(d.should_drop(&id, t0 + 50 * MS));
    assert!(!d.should_drop(&id, t0 + 150 * MS));
}

#[test]
fn debouncer_independent_per_item() {
    let mut d = Debouncer::new();
    let t0 = 5_000 * MS;
    assert!(!d.should_drop(&"a".to_string(), t0));
    assert!(!d.should_drop(&"b".to_string(), t0 + 10 * MS));
}

fn one_item_state(item: &str, qty: u32) -> AppState {
    let data = GameData {
        data_version: "test".into(),
        scraped_at: "now".into(),
        source_repo: "test".into(),
        source_commit: "test".into(),
        research: vec![],
        modules: vec![HideoutModule {
            id: "m".into(),
            name: "Mod".into(),
            upgrades: vec![Upgrade {
                id: "u1".into(),
                name: "U1".into(),
                level: 1,
                description: String::new(),
                requirements: vec![Requirement { item_id: item.into(), quantity: qty }],
            }],
        }],
        items: vec![Item {
            id: item.into(),
            name: item.to_string(),
            icon_path: "i.png".into(),
            category: None,
            subcategory: None,
            weight: None,
            price: None,
            rarity: None,
        }],
    };
    let mut state = AppState::new(Arc::new(data));
    state.set_tracked_upgrade(&"u1".to_string(), true);
    state
}

#[test]
fn handle_click_increments_below_target() {
    let mut state = one_item_state("bolts", 5);
    let hits = vec![hit("bolts", 0, 0, 100, 100, 5)];
    let mut deb = Debouncer::new();
    let t0 = 5_000 * MS;

    let out = handle_click(&mut state, &hits, &Spot::at(50, 50), &mut deb, t0);
    assert!(matches!(out, ClickOutcome::Incremented { new_value: 1, .. }));
    assert_eq!(out.haptic(), Some(HAPTIC_INCREMENT_US));
    assert_eq!(state.collected.get("bolts").copied().unwrap_or(0), 1);

    let out = handle_click(&mut state, &hits, &Spot::at(50, 50), &mut deb, t0);
    assert!(matches!(out, ClickOutcome::Ignored));
    assert_eq!(out.haptic(), None);
    assert_eq!(state.collected.get("bolts").copied().unwrap_or(0), 1);
}

#[test]
fn handle_click_cycles_at_target() {
    let mut state = one_item_state("wire", 2);
    state.set_collected(&"wire".to_string(), 2);

    let hits = vec![hit("wire", 0, 0, 100, 100, 2)];
    let mut deb = Debouncer::new();
    let t0 = 5_000 * MS;

    let out = handle_click(&mut state, &hits, &Spot::at(50, 50), &mut deb, t0);
    assert!(matches!(out, ClickOutcome::Reset { .. }));
    assert_eq!(out.haptic(), Some(HAPTIC_RESET_US));
    assert_eq!(state.collected.get("wire").copied().unwrap_or(0), 0);
}

#[test]
fn a_click_between_cells_changes_nothing() {
    let mut state = one_item_state("wire", 2);
    let before = state.version;
    let hits = vec![hit("wire", 0, 0, 100, 100, 2)];
    let mut deb = Debouncer::new();
    let out = handle_click(&mut state, &hits, &Spot::at(150, 50), &mut deb, 0);
    assert!(matches!(out, ClickOutcome::Ignored));
    assert_eq!(state.version, before);
}

// Cards.

fn done_feedback() -> OcrFeedback {
    OcrFeedback {
        kind: OcrFeedbackKind::Done {
            upgrade_name: "Bitcoin Mine".into(),
            level: 2,
            items: vec![
                OcrItemDelta {
                    item_name: "BPU".into(),
                    before: 0,
                    after: Some(4),
                    needed: 4,
                },
                OcrItemDelta {
                    item_name: "Floppy Disk".into(),
                    before: 3,
                    after: Some(2),
                    needed: 4,
                },
                OcrItemDelta {
                    item_name: "PC Fan (unread)".into(),
                    before: 5,
                    after: None,
                    needed: 6,
                },
            ],
            progression_notes: vec![
                "Auto-completed Bitcoin Mine Lv 1".into(),
                "Now tracking Bitcoin Mine Lv 2".into(),
            ],
        },
    }
}

#[test]
fn renders_done_variant_to_expected_size() {
    let pix = ocr_render::render(&done_feedback(), false);
    assert_eq!(pix.width, CARD_W);
    assert!(pix.height >= CARD_H_MIN);
    assert!(pix.height <= CARD_H_MAX);
    assert!(pix.body.iter().any(|l| l.text == "BPU"));
    assert!(pix.body.iter().any(|l| l.text.contains("Now tracking Bitcoin Mine Lv 2")));
}

#[test]
fn renders_processing_variant() {
    let pix = ocr_render::render(&OcrFeedback::processing(), false);
    assert_eq!(pix.width, CARD_W);
    assert_eq!(pix.height, CARD_H_MIN);
}

#[test]
fn renders_not_a_panel_variant() {
    let pix = ocr_render::render(&OcrFeedback::not_a_panel(), false);
    assert_eq!(pix.width, CARD_W);
    assert_eq!(pix.height, CARD_H_MIN);
}

#[test]
fn renders_failed_variant() {
    let pix = ocr_render::render(&OcrFeedback::failed("file not found"), false);
    assert_eq!(pix.width, CARD_W);
    assert!(pix.height >= CARD_H_MIN);
    assert!(pix.body.iter().any(|l| l.text.contains("file not found")));
}

#[test]
fn renders_done_with_many_items_within_max_height() {
    let mut fb = done_feedback();
    if let OcrFeedbackKind::Done { items, .. } = &mut fb.kind {
        for i in 0..30 {
            items.push(OcrItemDelta {
                item_name: format!("Filler item #{i}"),
                before: 0,
                after: Some(1),
                needed: 5,
            });
        }
    }
    let pix = ocr_render::render(&fb, false);
    assert_eq!(pix.height, CARD_H_MAX, "growth should clip at CARD_H_MAX");
}

#[test]
fn a_module_without_data_is_named_on_its_card() {
    let fb = OcrFeedback {
        kind: OcrFeedbackKind::UnknownUpgrade {
            module_hint: Some("Sauna".into()),
            current_level: 3,
        },
    };
    assert!(!fb.is_processing());
    let pix = ocr_render::render(&fb, true);
    let all: Vec<String> = pix.body.iter().map(|l| l.text.clone()).collect();
    assert!(
        pix.title.contains("Sauna") || all.iter().any(|t| t.contains("Sauna")),
        "{:?} {all:?}",
        pix.title
    );
}

// When the panel shows.

#[test]
fn hides_until_dwell_elapses() {
    let mut fsm = VisibilityFsm::new();
    let t0 = 9_000 * MS;
    let dwell = 350 * MS;
    assert_eq!(fsm.tick_with_dwell(70, t0, dwell), Visibility::PendingShow);
    assert_eq!(
        fsm.tick_with_dwell(70, t0 + 200 * MS, dwell),
        Visibility::PendingShow
    );
    assert_eq!(
        fsm.tick_with_dwell(70, t0 + 400 * MS, dwell),
        Visibility::Visible
    );
}

#[test]
fn hides_instantly_when_below_hide_threshold() {
    let mut fsm = VisibilityFsm::new();
    let t0 = 9_000 * MS;
    let dwell = 350 * MS;
    fsm.tick_with_dwell(70, t0, dwell);
    fsm.tick_with_dwell(70, t0 + 400 * MS, dwell);
    assert_eq!(fsm.state(), Visibility::Visible);
    assert_eq!(
        fsm.tick_with_dwell(20, t0 + 450 * MS, dwell),
        Visibility::Hidden
    );
}

#[test]
fn hysteresis_band_holds_state() {
    let mut fsm = VisibilityFsm::new();
    let t0 = 9_000 * MS;
    let dwell = 100 * MS;
    fsm.tick_with_dwell(70, t0, dwell);
    fsm.tick_with_dwell(70, t0 + 150 * MS, dwell);
    assert_eq!(fsm.state(), Visibility::Visible);
    assert_eq!(
        fsm.tick_with_dwell(50, t0 + 200 * MS, dwell),
        Visibility::Visible
    );
}

#[test]
fn brief_glance_does_not_show() {
    let mut fsm = VisibilityFsm::new();
    let t0 = 9_000 * MS;
    let dwell = 350 * MS;
    fsm.tick_with_dwell(70, t0, dwell);
    assert_eq!(
        fsm.tick_with_dwell(20, t0 + 100 * MS, dwell),
        Visibility::Hidden
    );
}

#[test]
fn the_usual_dwell_is_a_third_of_a_second() {
    let mut fsm = VisibilityFsm::default();
    assert_eq!(fsm.tick(60, 0), Visibility::PendingShow);
    assert_eq!(fsm.tick(60, 349 * MS), Visibility::PendingShow);
    assert_eq!(fsm.tick(60, 350 * MS), Visibility::Visible);
    assert_eq!(fsm.tick(45, 351 * MS), Visibility::Visible);
    assert_eq!(fsm.tick(44, 352 * MS), Visibility::Hidden);
}

// The grid.

fn item(id: &str, name: &str, needed: u32, collected: u32) -> ActiveItem {
    ActiveItem {
        item_id: id.to_string(),
        name: name.to_string(),
        icon_path: format!("icons/{id}.png"),
        needed,
        collected,
        sources: vec!["test".into()],
        pinned: false,
    }
}

#[test]
fn renders_empty_to_placeholder_pixmap() {
    let pm = render::render(&vec![], 6);
    assert!(pm.hits.is_empty());
    assert!(pm.width < CELL_PX * 6);
    assert!(pm.height < CELL_PX);
}

#[test]
fn renders_grid_with_correct_hit_rects() {
    let items: Vec<ActiveItem> = (0..7)
        .map(|i| item(&format!("i{i}"), &format!("Item {i}"), 5, i as u32))
        .collect();
    let hits = render::render(&items, 6).hits;
    assert_eq!(hits.len(), 7);
    let h0 = &hits[0];
    assert_eq!(h0.item_id, "i0");
    assert_eq!(h0.rect.x, 8);
    assert_eq!(h0.rect.y, 8 + NAME_BAND_H);
    let h6 = &hits[6];
    assert_eq!(h6.item_id, "i6");
    assert_eq!(h6.rect.x, 8);
    let expected_y6 = 8 + CELL_PX + CELL_PADDING + NAME_BAND_H;
    assert_eq!(h6.rect.y, expected_y6);
}

#[test]
fn rows_derive_from_cols() {
    let items: Vec<ActiveItem> = (0..7)
        .map(|i| item(&format!("i{i}"), &format!("Item {i}"), 1, 0))
        .collect();
    let pm = render::render(&items, 3);
    assert_eq!(pm.hits.len(), 7);
    let last = &pm.hits[6];
    let row_2_y = CELL_PADDING + 2 * (CELL_PX + CELL_PADDING) + NAME_BAND_H;
    assert_eq!(last.rect.y, row_2_y);
    let expected_h = CELL_PADDING + 3 * (CELL_PX + CELL_PADDING);
    assert_eq!(pm.height, expected_h);
    let expected_w = CELL_PADDING + 3 * (CELL_PX + CELL_PADDING);
    assert_eq!(pm.width, expected_w);
}

#[test]
fn caps_visible_at_max_rows_times_cols() {
    let items: Vec<ActiveItem> = (0..100)
        .map(|i| item(&format!("i{i}"), &format!("Item {i}"), 1, 0))
        .collect();
    let pm = render::render(&items, 5);
    assert_eq!(pm.hits.len(), (5 * MAX_ROWS) as usize);
    assert_eq!(pm.more, 60);
}

#[test]
fn a_cell_shows_progress_until_it_is_done() {
    let items = vec![item("battery", "Battery", 5, 5), item("wire", "Wire", 3, 0)];
    let pm = render::render(&items, 6);
    assert!(pm.cells[0].done);
    assert!(!pm.cells[1].done);
    assert_eq!(pm.cells[1].label, "0/3");
    assert_eq!(pm.more, 0);
}

#[test]
fn no_columns_count_as_one() {
    let items = vec![item("a", "A", 1, 0), item("b", "B", 1, 0)];
    let pm = render::render(&items, 0);
    assert_eq!(pm.hits[1].hit_rect.x, 8);
    assert_eq!(pm.hits[1].hit_rect.y, 8 + CELL_PX + CELL_PADDING);
}

#[test]
fn cells_keep_apart_and_on_the_picture() {
    let items: Vec<ActiveItem> = (0..11)
        .map(|i| item(&format!("i{i}"), "x", 1, 0))
        .collect();
    let pm = render::render(&items, 4);
    for (i, a) in pm.hits.iter().enumerate() {
        let a = a.hit_rect;
        assert!(a.x + a.w <= pm.width && a.y + a.h <= pm.height);
        for b in &pm.hits[i + 1..] {
            let b = b.hit_rect;
            assert!(a.x + a.w <= b.x || b.x + b.w <= a.x || a.y + a.h <= b.y || b.y + b.h <= a.y);
        }
    }
}

#[test]
fn the_wishlist_is_cut_to_its_first_items() {
    let mut items = vec![item("a", "A", 1, 0), item("b", "B", 1, 0), item("c", "C", 1, 0)];
    cap_wishlist(&mut items, 2);
    assert_eq!(items.len(), 2);
    assert_eq!(items[1].item_id, "b");
    cap_wishlist(&mut items, 9);
    assert_eq!(items.len(), 2);
}

#[test]
fn long_names_end_in_an_ellipsis() {
    let widths = |fits: usize| (0..5).map(|i| i < fits).collect::<Vec<bool>>();
    assert_eq!(truncate_to_width("Bolts", true, true, &widths(5)), "Bolts");
    let cut = truncate_to_width("Bolts", false, true, &widths(3));
    assert!(cut.ends_with('…') && cut.starts_with('B') && cut.chars().count() < 6, "{cut}");
}

#[test]
fn a_full_cell_beside_the_click_does_not_matter() {
    let mut state = one_item_state("bolts", 5);
    state.set_collected(&"full".to_string(), u32::MAX);
    let hits = vec![
        hit("bolts", 0, 0, 100, 100, 5),
        hit("full", 200, 0, 100, 100, 0),
    ];
    let mut deb = Debouncer::new();
    let r = handle_click(&mut state, &hits, &Spot::at(50, 50), &mut deb, 0);
    assert!(matches!(r, ClickOutcome::Incremented { new_value: 1, .. }));
    assert_eq!(state.collected.get("full"), Some(&u32::MAX));
}

#[test]
fn texts_stand_beside_the_hole() {
    let layout = layout_for_hole(400, 200);
    let mode = CaptureMode::Box(ScanTarget::Stash);
    let plan = guide::render(&mode, "Capturing...", (200, 180, 80), "RIGHT", &layout);
    assert_eq!((plan.width, plan.height), (416, 296));
    assert_eq!((layout.hole_x, layout.hole_y), (8, 48));
    // The text is fourteen pixels high, the hint twelve.
    assert_eq!(plan.hint_row.size, 12 * FINE);
    assert_eq!(plan.hint_row.baseline, 48 * FINE - 28_000);
    assert_eq!(plan.caption_row.size, 14 * FINE);
    assert_eq!(plan.caption_row.baseline, plan.hint_row.baseline - 72_000);
    assert_eq!(plan.chip_box.top, 248 * FINE + 28_000);
    assert_eq!(plan.chip_box.height, 112_000);
    assert_eq!(plan.chip_box.pad, 35_000);
    assert_eq!(plan.chip_box.text.baseline, plan.chip_box.top + 78_400);
    assert!(plan.chip_box.top + plan.chip_box.height <= 296 * FINE);
    let plan = guide::render(&mode, "", (0, 0, 0), "", &layout);
    assert_eq!(plan.caption_row.baseline, plan.hint_row.baseline);
}

#[test]
fn every_hole_whose_picture_fits_has_margins() {
    let l = layout_for_hole(1_000_000_000, 3_000_000_000);
    assert_eq!((l.hole_x, l.tex_w), (20_000_000, 1_040_000_000));
    assert_eq!((l.hole_y, l.tex_h), (510_000_000, 4_020_000_000));
    let l = layout_for_hole(0, 0);
    assert_eq!((l.hole_w, l.hole_h, l.hole_x, l.hole_y), (1, 1, 5, 48));
}

#[test]
fn the_body_takes_the_space_that_was_measured() {
    let space = |kind: &OcrFeedbackKind| draw_body(kind, 100).1 - 100;
    assert_eq!(space(&OcrFeedbackKind::Processing), 300);
    assert_eq!(space(&OcrFeedbackKind::NotAPanel), 300);
    assert_eq!(space(&OcrFeedbackKind::Failed("x".into())), 560);
    let unknown = OcrFeedbackKind::UnknownUpgrade {
        module_hint: None,
        current_level: 1,
    };
    assert_eq!(space(&unknown), 820);
    let done = |items: usize, notes: usize| OcrFeedbackKind::Done {
        upgrade_name: "x".into(),
        level: 1,
        items: (0..items)
            .map(|i| OcrItemDelta {
                item_name: format!("{i}"),
                before: 0,
                after: None,
                needed: 1,
            })
            .collect(),
        progression_notes: (0..notes).map(|i| format!("{i}")).collect(),
    };
    assert_eq!(space(&done(0, 0)), 300);
    assert_eq!(space(&done(3, 0)), 960);
    assert_eq!(space(&done(3, 2)), 960 + 70 + 560);
}

// Icons.

#[test]
fn icons_are_decoded_and_scaled() {
    let mut src = image::RgbaImage::new(2, 1);
    src.put_pixel(0, 0, image::Rgba([10, 20, 30, 255]));
    src.put_pixel(1, 0, image::Rgba([200, 150, 100, 50]));
    let mut file = std::io::Cursor::new(Vec::new());
    src.write_to(&mut file, image::ImageFormat::Png).unwrap();
    let icon = decode_icon(&file.into_inner()).unwrap();
    assert_eq!((icon.w, icon.h), (2, 1));
    assert_eq!(icon.get(1, 0), Rgba { r: 200, g: 150, b: 100, a: 50 });
    assert_eq!(icon.to_bytes(), src.into_raw());
    assert!(decode_icon(b"no picture").is_none());

    let one = Canvas {
        w: 2,
        h: 2,
        px: vec![Rgba { r: 9, g: 8, b: 7, a: 255 }; 4],
    };
    let big = scale_icon(&one, 5, 3);
    assert_eq!((big.w, big.h), (5, 3));
    assert!(big.px.iter().all(|p| *p == Rgba { r: 9, g: 8, b: 7, a: 255 }));
    let least = scale_icon(&one, 0, 0);
    assert_eq!((least.w, least.h), (1, 1));
}
