//! The overlay's loop: attaching, arming, capturing, drawing, fading.

use ez_wishlist_overlay::canvas::{draw_line, line_points, Canvas, Rgba};
use ez_wishlist_overlay::vr::capture::{
    drop_alpha, frame_rgb, pack_rows, sample_pixels, swap_red_blue, to_rgba, PixelLayout,
};
use ez_wishlist_overlay::vr::capture_session::{
    CaptureEye, CaptureHand, CaptureMode, CaptureState, JobKind, ScanTarget,
};
use ez_wishlist_overlay::vr::glyphs::{paint_glyph, Mask};
use ez_wishlist_overlay::vr::runtime::{
    capture_outcome, must_be_delivered, pause_after, press_counts, screenshot_path,
    split_triggers, Attach, CapturePlan, CaptureResult, GuideKey, RenderLoop, Runtime, Signature,
    Transition, VrStatus, FADE_NS, MAX_REQUESTS, WATCHDOG_NS,
};

#[test]
fn capture_mode_starts_off_and_round_trips() {
    let mut rt = Runtime::disconnected_for_test();
    assert!(rt.capture_mode().same(&CaptureMode::Off));
    assert!(!rt.capture_active());

    rt.set_capture_mode(CaptureMode::Box(ScanTarget::Stash));
    assert!(rt
        .capture_mode()
        .same(&CaptureMode::Box(ScanTarget::Stash)));
    assert!(rt.capture_active());
    assert_eq!(rt.capture_state(), CaptureState::Ready);

    rt.set_capture_mode(CaptureMode::Hideout);
    assert!(rt.capture_mode().same(&CaptureMode::Hideout));

    rt.exit_capture_mode();
    assert!(rt.capture_mode().same(&CaptureMode::Off));
    assert!(!rt.capture_active());
}

#[test]
fn attaching_shows_in_the_status() {
    let mut rt = Runtime::new(true);
    rt.on_attach(Attach::NotInstalled);
    assert!(matches!(rt.status(), VrStatus::RuntimeNotInstalled));
    rt.on_attach(Attach::Starting);
    assert!(matches!(rt.status(), VrStatus::Connecting));
    rt.on_attach(Attach::Attached);
    assert!(matches!(rt.status(), VrStatus::Connected));
    assert!(matches!(Runtime::new(false).status(), VrStatus::Unsupported));
    assert!(VrStatus::Error("lost".into()).label().contains("lost"));
}

#[test]
fn screenshot_requests_run_together() {
    let mut rt = Runtime::disconnected_for_test();
    assert!(!rt.take_requests());
    for _ in 0..MAX_REQUESTS + 3 {
        rt.request_screenshot();
    }
    assert_eq!(rt.requests, MAX_REQUESTS);
    assert!(rt.take_requests());
    assert!(!rt.take_requests());
    assert!(rt.take_last_capture().is_none());
}

fn sig(version: u64) -> Signature {
    Signature {
        version,
        grid_cols: 6,
        max_items: 48,
    }
}

#[test]
fn the_grid_is_drawn_once_for_each_version() {
    let mut l = RenderLoop::new();
    assert!(l.needs_render(sig(1)));
    l.rendered(sig(1));
    assert!(!l.needs_render(sig(1)));
    assert!(l.needs_render(sig(2)));
}

#[test]
fn arming_a_mode_hides_the_panel() {
    let mut l = RenderLoop::new();
    let ns = 1_000_000;
    l.look(false, 70, 0, 60, 45, 350 * ns);
    assert!(l.look(false, 70, 400 * ns, 60, 45, 350 * ns));
    assert_eq!(l.plan_transition(true), Transition::Show);
    l.shown(400 * ns, sig(1));
    assert_eq!(l.plan_transition(true), Transition::Stay);
    assert!(!l.look(true, 70, 410 * ns, 60, 45, 350 * ns));
    assert_eq!(l.plan_transition(false), Transition::Hide);
    l.hidden();
    assert_eq!(l.plan_transition(false), Transition::Stay);
}

#[test]
fn one_capture_runs_at_a_time() {
    let mut l = RenderLoop::new();
    let mode = CaptureMode::Hideout;
    assert_eq!(
        l.plan_capture(&mode, true, false, true),
        CapturePlan::InMode(JobKind::UpgradePanel)
    );
    assert_eq!(l.begin_capture(), CaptureState::Capturing);
    assert_eq!(l.end_capture(true, 5), CaptureState::RunningOcr);
    assert_eq!(l.plan_capture(&mode, true, false, true), CapturePlan::Nothing);
    assert!(!l.watchdog(5 + WATCHDOG_NS));
    assert!(l.watchdog(6 + WATCHDOG_NS));
    assert_eq!(
        l.plan_capture(&mode, true, false, true),
        CapturePlan::InMode(JobKind::UpgradePanel)
    );
}

#[test]
fn without_a_mode_the_trigger_takes_nothing() {
    let l = RenderLoop::new();
    assert_eq!(l.plan_capture(&CaptureMode::Off, true, false, true), CapturePlan::Nothing);
    assert_eq!(l.plan_capture(&CaptureMode::Off, false, true, true), CapturePlan::OneShot);
}

#[test]
fn the_guide_is_drawn_when_what_it_shows_changes() {
    let mut l = RenderLoop::new();
    let key = |label: &str| GuideKey {
        mode: CaptureMode::Hideout,
        label: label.into(),
        trigger: CaptureHand::Right,
        eye_only: true,
        eye: CaptureEye::Left,
    };
    assert!(l.ensure_guide(key("Ready")));
    assert!(!l.ensure_guide(key("Ready")));
    assert!(l.ensure_guide(key("Capturing…")));
}

#[test]
fn the_panel_fades_in() {
    let mut l = RenderLoop::new();
    l.shown(1_000, sig(1));
    assert_eq!(l.fade_in(1_000), 0);
    assert_eq!(l.fade_in(1_000 + FADE_NS / 2), FADE_NS / 2);
    assert_eq!(l.fade_in(1_000 + FADE_NS), FADE_NS);
}

#[test]
fn a_card_is_drawn_once_and_goes_when_its_time_is_up() {
    let mut l = RenderLoop::new();
    let dismiss = 2_000_000_000;
    let first = l.drive_card(Some(false), 10, false, dismiss);
    assert!(first.terminal && first.draw && !first.hide);
    let second = l.drive_card(None, 20, false, dismiss);
    assert!(!second.draw && !second.hide);
    let last = l.drive_card(None, 10 + dismiss + 1_000_000_000, false, dismiss);
    assert!(last.hide);
    assert!(l.card.is_none());
}

#[test]
fn sticky_cards_stay() {
    let mut l = RenderLoop::new();
    l.drive_card(Some(false), 10, true, 1_000);
    let late = l.drive_card(None, 90_000_000_000, true, 1_000);
    assert!(!late.hide);
    assert!(l.card.is_some());
    assert!(l.retire_card());
    assert!(!l.retire_card());
}

#[test]
fn the_chosen_hand_captures_and_the_other_points() {
    assert_eq!(split_triggers(CaptureHand::Right, Some(1), Some(2)), (Some(2), Some(1)));
    assert_eq!(split_triggers(CaptureHand::Left, Some(1), Some(2)), (Some(1), Some(2)));
    assert_eq!(split_triggers(CaptureHand::Left, None, Some(2)), (None, Some(2)));
}

#[test]
fn a_tick_waits_for_what_is_left_of_it() {
    assert_eq!(pause_after(0), 11_000_000);
    assert_eq!(pause_after(4_000_000), 7_000_000);
    assert_eq!(pause_after(50_000_000), 0);
}

#[test]
fn presses_count_on_a_picture_that_is_seen() {
    assert!(press_counts(true, (600, 120)));
    assert!(!press_counts(false, (600, 120)));
    assert!(!press_counts(true, (0, 120)));
}

#[test]
fn outcomes_of_a_capture() {
    let (r, ok) = capture_outcome(None, Some("a.png".into()));
    assert!(matches!(r, CaptureResult::Saved(p) if p == "a.png") && ok);
    let (r, ok) = capture_outcome(None, None);
    assert!(matches!(r, CaptureResult::Ephemeral) && ok);
    let (r, ok) = capture_outcome(Some("no texture".into()), None);
    assert!(matches!(r, CaptureResult::Failed(e) if e == "no texture") && !ok);
    assert!(must_be_delivered(JobKind::BoxScan) != must_be_delivered(JobKind::UpgradePanel));
}

#[test]
fn screenshots_are_named_by_time() {
    let p = screenshot_path("20260526_091314", 5_000_000);
    assert_eq!(p, "vr_screenshots/20260526_091314_005000000.webp");
}

// Frames.

#[test]
fn rows_lose_their_padding() {
    let src: Vec<u8> = (0..24).collect();
    assert_eq!(pack_rows(&src, 12, 2, 2), vec![0, 1, 2, 3, 4, 5, 6, 7, 12, 13, 14, 15, 16, 17, 18, 19]);
}

#[test]
fn red_and_blue_change_places() {
    let px = vec![1, 2, 3, 4, 5, 6, 7, 8];
    let swapped = swap_red_blue(px.clone());
    assert_eq!(swapped, vec![3, 2, 1, 4, 7, 6, 5, 8]);
    assert_eq!(swap_red_blue(swapped), px);
    assert_eq!(to_rgba(px.clone(), PixelLayout::Rgba), px);
    assert_eq!(to_rgba(px.clone(), PixelLayout::Bgra), vec![3, 2, 1, 4, 7, 6, 5, 8]);
}

#[test]
fn frames_lose_alpha_and_padding() {
    assert_eq!(drop_alpha(&vec![1, 2, 3, 4, 5, 6, 7, 8]), vec![1, 2, 3, 5, 6, 7]);
    let src = vec![1, 2, 3, 4, 9, 9, 9, 9];
    assert_eq!(frame_rgb(&src, 8, 1, 1, PixelLayout::Bgra), vec![3, 2, 1]);
}

#[test]
fn samples_are_the_ends_and_the_middle() {
    assert!(sample_pixels(&vec![]).is_none());
    let px: Vec<u8> = (0..12).collect();
    let (first, _, last) = sample_pixels(&px).unwrap();
    assert_eq!(first, (0, 1, 2, 3));
    assert_eq!(last, (8, 9, 10, 11));
}

// Drawing.

const CLEAR: Rgba = Rgba { r: 0, g: 0, b: 0, a: 0 };
const RED: Rgba = Rgba { r: 255, g: 0, b: 0, a: 255 };

#[test]
fn lines_run_from_end_to_end() {
    let pts = line_points((0, 0), (4, 2));
    assert_eq!(pts.first(), Some(&(0, 0)));
    assert_eq!(pts.last(), Some(&(4, 2)));
    assert_eq!(pts.len(), 5);
    assert_eq!(line_points((3, 3), (3, 3)), vec![(3, 3)]);
}

#[test]
fn lines_are_cut_at_the_edge() {
    let mut c = Canvas::filled(3, 3, CLEAR);
    draw_line(&mut c, (0, 1), (5, 1), RED, (0, 0));
    assert_eq!(c.get(0, 1), RED);
    assert_eq!(c.get(2, 1), RED);
    assert_eq!(c.get(0, 0), CLEAR);
}

#[test]
fn glyphs_paint_only_what_they_cover() {
    let mut c = Canvas::filled(2, 2, CLEAR);
    let glyph = Mask { w: 2, h: 1, px: vec![255, 0] };
    paint_glyph(&mut c, &glyph, 0, 1, RED);
    assert_eq!(c.get(0, 1).r, 255);
    assert_eq!(c.get(1, 1), CLEAR);
    assert_eq!(c.get(0, 0), CLEAR);
}
