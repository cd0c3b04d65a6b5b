//! The thread that talks to the headset: what it shows of itself, and what it
//! decides in each round.
//!
//! Times are in nanoseconds since some fixed moment.

use crate::text;
use crate::text::same_text;
use crate::vr::capture_session::{
    CaptureEye, CaptureHand, CaptureMode, CaptureModeView, CaptureState, JobKind,
};
use crate::vr::pose;
use crate::vr::pose::{Visibility, VisibilityFsm, MS};
use vstd::prelude::*;
use vstd::string::*;

verus! {

/// How long the thread waits before it looks for the headset again.
pub const RETRY_DELAY_MS: u64 = 5_000;

/// How long a round takes at least.
pub const TICK_MS: u64 = 11;

/// How long the wishlist takes to fade in.
pub const FADE_NS: u64 = 150_000_000;

/// How long a card takes to fade out.
pub const FADE_TAIL_NS: u64 = 600_000_000;

/// How long the result of a capture stands on the guide box.
pub const CONFIRM_NS: u64 = 4_000_000_000;

/// How long a screenshot may take to be read.
pub const WATCHDOG_NS: u64 = 30_000_000_000;

/// How many screenshots can be asked for at a time.
pub const MAX_REQUESTS: u8 = 4;

/// The directory of the screenshots.
pub const SCREENSHOT_SUBDIR: &'static str = "vr_screenshots";

/// How the thread stands to the headset.
#[derive(Debug)]
pub enum VrStatus {
    /// There is no headset on this system.
    Unsupported,
    /// The runtime is not installed.
    RuntimeNotInstalled,
    /// The runtime does not run.
    Disconnected,
    Connecting,
    Connected,
    Error(String),
}

/// What a [`VrStatus`] says.
#[verifier::ext_equal]
pub enum VrStatusView {
    Unsupported,
    RuntimeNotInstalled,
    Disconnected,
    Connecting,
    Connected,
    Error(Seq<char>),
}

impl View for VrStatus {
    type V = VrStatusView;

    open spec fn view(&self) -> VrStatusView {
        match *self {
            VrStatus::Unsupported => VrStatusView::Unsupported,
            VrStatus::RuntimeNotInstalled => VrStatusView::RuntimeNotInstalled,
            VrStatus::Disconnected => VrStatusView::Disconnected,
            VrStatus::Connecting => VrStatusView::Connecting,
            VrStatus::Connected => VrStatusView::Connected,
            VrStatus::Error(msg) => VrStatusView::Error(msg@),
        }
    }
}

impl VrStatus {
    /// The status in words.
    pub fn label(&self) -> (r: String)
        ensures
            r@ == match self@ {
                VrStatusView::Unsupported => "VR: unavailable on this OS"@,
                VrStatusView::RuntimeNotInstalled =>
                    "VR: SteamVR not installed (install via Steam)"@,
                VrStatusView::Disconnected => "VR: not running"@,
                VrStatusView::Connecting => "VR: connecting…"@,
                VrStatusView::Connected => "VR: connected"@,
                VrStatusView::Error(msg) => "VR error: "@ + msg,
            },
    {
        match self {
            VrStatus::Unsupported => "VR: unavailable on this OS".to_owned(),
            VrStatus::RuntimeNotInstalled => {
                "VR: SteamVR not installed (install via Steam)".to_owned()
            },
            VrStatus::Disconnected => "VR: not running".to_owned(),
            VrStatus::Connecting => "VR: connecting…".to_owned(),
            VrStatus::Connected => "VR: connected".to_owned(),
            VrStatus::Error(msg) => {
                let mut r: String = "VR error: ".to_owned();
                r.append(msg.as_str());
                r
            },
        }
    }

    /// The colour of the status: green, amber, red or gray.
    pub fn color(&self) -> (r: (u8, u8, u8))
        ensures
            r == match self@ {
                VrStatusView::Connected => (80u8, 180u8, 100u8),
                VrStatusView::Connecting => (200u8, 180u8, 80u8),
                VrStatusView::Error(msg) => (220u8, 100u8, 90u8),
                _ => (160u8, 160u8, 160u8),
            },
    {
        match self {
            VrStatus::Connected => (80, 180, 100),
            VrStatus::Connecting => (200, 180, 80),
            VrStatus::Error(_) => (220, 100, 90),
            _ => (160, 160, 160),
        }
    }

    /// A copy.
    pub fn copy(&self) -> (r: Self)
        ensures
            r@ == self@,
    {
        match self {
            VrStatus::Unsupported => VrStatus::Unsupported,
            VrStatus::RuntimeNotInstalled => VrStatus::RuntimeNotInstalled,
            VrStatus::Disconnected => VrStatus::Disconnected,
            VrStatus::Connecting => VrStatus::Connecting,
            VrStatus::Connected => VrStatus::Connected,
            VrStatus::Error(msg) => VrStatus::Error(msg.clone()),
        }
    }
}

/// How a capture went.
#[derive(Debug)]
pub enum CaptureResult {
    /// The screenshot was written to this file.
    Saved(String),
    /// The screenshot was taken and not written.
    Ephemeral,
    Failed(String),
}

/// What a [`CaptureResult`] says.
#[verifier::ext_equal]
pub enum CaptureResultView {
    Saved(Seq<char>),
    Ephemeral,
    Failed(Seq<char>),
}

impl View for CaptureResult {
    type V = CaptureResultView;

    open spec fn view(&self) -> CaptureResultView {
        match *self {
            CaptureResult::Saved(path) => CaptureResultView::Saved(path@),
            CaptureResult::Ephemeral => CaptureResultView::Ephemeral,
            CaptureResult::Failed(msg) => CaptureResultView::Failed(msg@),
        }
    }
}

/// What became of the attempt to reach the headset.
#[derive(Debug, Clone, Copy, PartialEq, Eq, Structural)]
pub enum Attach {
    /// The runtime is not installed.
    NotInstalled,
    /// The attempt begins.
    Starting,
    Attached,
    /// The attempt failed.
    Failed,
    /// The headset is gone.
    Lost,
}

/// What the thread and the window share.
#[derive(Debug)]
pub struct Runtime {
    pub status: VrStatus,
    /// How many screenshots are asked for.
    pub requests: u8,
    /// How the last capture went, until the window has shown it.
    pub last_capture: Option<CaptureResult>,
    pub capture_mode: CaptureMode,
    pub capture_state: CaptureState,
}

impl Runtime {
    /// Whether no more screenshots are asked for than can be.
    pub open spec fn wf(self) -> bool {
        self.requests <= MAX_REQUESTS
    }

    /// The start. No mode is active.
    pub fn new(windows: bool) -> (r: Self)
        ensures
            r.wf(),
            r.status@ == if windows {
                VrStatusView::Connecting
            } else {
                VrStatusView::Unsupported
            },
            r.requests == 0,
            r.last_capture is None,
            r.capture_mode@ == CaptureModeView::Off,
            r.capture_state == CaptureState::Ready,
    {
        Runtime {
            status: if windows {
                VrStatus::Connecting
            } else {
                VrStatus::Unsupported
            },
            requests: 0,
            last_capture: None,
            capture_mode: CaptureMode::Off,
            capture_state: CaptureState::Ready,
        }
    }

    /// The state without a thread.
    pub fn disconnected_for_test() -> (r: Self)
        ensures
            r.wf(),
            r.status@ == VrStatusView::Unsupported,
            r.requests == 0,
            r.last_capture is None,
            r.capture_mode@ == CaptureModeView::Off,
            r.capture_state == CaptureState::Ready,
    {
        Self::new(false)
    }

    /// How the thread stands to the headset.
    pub fn status(&self) -> (r: VrStatus)
        ensures
            r@ == self.status@,
    {
        self.status.copy()
    }

    /// Takes in what became of the attempt to reach the headset. A failed
    /// attempt is the same as a headset that is gone: it is made again.
    pub fn on_attach(&mut self, event: Attach)
        ensures
            final(self).status@ == match event {
                Attach::NotInstalled => VrStatusView::RuntimeNotInstalled,
                Attach::Starting => VrStatusView::Connecting,
                Attach::Attached => VrStatusView::Connected,
                Attach::Failed => VrStatusView::Disconnected,
                Attach::Lost => VrStatusView::Disconnected,
            },
            final(self).requests == old(self).requests,
            final(self).last_capture == old(self).last_capture,
            final(self).capture_mode == old(self).capture_mode,
            final(self).capture_state == old(self).capture_state,
    {
        self.status = match event {
            Attach::NotInstalled => VrStatus::RuntimeNotInstalled,
            Attach::Starting => VrStatus::Connecting,
            Attach::Attached => VrStatus::Connected,
            Attach::Failed => VrStatus::Disconnected,
            Attach::Lost => VrStatus::Disconnected,
        };
    }

    /// Asks for a screenshot. Where four are asked for already, nothing
    /// happens.
    pub fn request_screenshot(&mut self)
        requires
            old(self).wf(),
        ensures
            final(self).wf(),
            final(self).requests == if old(self).requests < MAX_REQUESTS {
                old(self).requests + 1
            } else {
                MAX_REQUESTS as int
            },
            final(self).status == old(self).status,
            final(self).last_capture == old(self).last_capture,
            final(self).capture_mode == old(self).capture_mode,
            final(self).capture_state == old(self).capture_state,
    {
        if self.requests < MAX_REQUESTS {
            self.requests = self.requests + 1;
        }
    }

    /// Whether a screenshot is asked for. All that are asked for are taken as
    /// one.
    pub fn take_requests(&mut self) -> (r: bool)
        ensures
            r == (old(self).requests > 0),
            final(self).requests == 0,
            final(self).status == old(self).status,
            final(self).last_capture == old(self).last_capture,
            final(self).capture_mode == old(self).capture_mode,
            final(self).capture_state == old(self).capture_state,
    {
        let r: bool = self.requests > 0;
        self.requests = 0;
        r
    }

    /// How the last capture went; it is told once.
    pub fn take_last_capture(&mut self) -> (r: Option<CaptureResult>)
        ensures
            r == old(self).last_capture,
            final(self).last_capture is None,
            final(self).status == old(self).status,
            final(self).requests == old(self).requests,
            final(self).capture_mode == old(self).capture_mode,
            final(self).capture_state == old(self).capture_state,
    {
        self.last_capture.take()
    }

    /// Chooses what the trigger captures.
    pub fn set_capture_mode(&mut self, mode: CaptureMode)
        ensures
            final(self).capture_mode == mode,
            final(self).capture_state == CaptureState::Ready,
            final(self).status == old(self).status,
            final(self).requests == old(self).requests,
            final(self).last_capture == old(self).last_capture,
    {
        self.capture_state = CaptureState::Ready;
        self.capture_mode = mode;
    }

    /// The trigger captures nothing any more.
    pub fn exit_capture_mode(&mut self)
        ensures
            final(self).capture_mode@ == CaptureModeView::Off,
            final(self).capture_state == CaptureState::Ready,
            final(self).status == old(self).status,
            final(self).requests == old(self).requests,
            final(self).last_capture == old(self).last_capture,
    {
        self.set_capture_mode(CaptureMode::Off);
    }

    /// What the trigger captures.
    pub fn capture_mode(&self) -> (r: CaptureMode)
        ensures
            r@ == self.capture_mode@,
    {
        self.capture_mode.copy()
    }

    /// Whether the trigger captures anything.
    pub fn capture_active(&self) -> (r: bool)
        ensures
            r == self.capture_mode@.active(),
    {
        self.capture_mode.is_active()
    }

    /// How far the capture is.
    pub fn capture_state(&self) -> (r: CaptureState)
        ensures
            r == self.capture_state,
    {
        self.capture_state
    }
}

/// What the picture of the wishlist was drawn from.
#[derive(Debug, Clone, Copy, PartialEq, Eq, Structural)]
pub struct Signature {
    pub version: u64,
    pub grid_cols: u32,
    pub max_items: u32,
}

/// What the guide box was drawn for.
#[derive(Debug)]
pub struct GuideKey {
    pub mode: CaptureMode,
    pub label: String,
    pub trigger: CaptureHand,
    pub eye_only: bool,
    pub eye: CaptureEye,
}

/// What a [`GuideKey`] says.
#[verifier::ext_equal]
pub struct GuideKeyView {
    pub mode: CaptureModeView,
    pub label: Seq<char>,
    pub trigger: CaptureHand,
    pub eye_only: bool,
    pub eye: CaptureEye,
}

impl View for GuideKey {
    type V = GuideKeyView;

    open spec fn view(&self) -> GuideKeyView {
        GuideKeyView {
            mode: self.mode@,
            label: self.label@,
            trigger: self.trigger,
            eye_only: self.eye_only,
            eye: self.eye,
        }
    }
}

impl GuideKey {
    fn same(&self, other: &Self) -> (r: bool)
        ensures
            r == (self@ == other@),
    {
        self.mode.same(&other.mode) && same_text(&self.label, &other.label) && self.trigger
            == other.trigger && self.eye_only == other.eye_only && self.eye == other.eye
    }
}

/// The result of a capture as it stands on the guide box.
#[derive(Debug)]
pub struct Confirm {
    pub label: String,
    pub rgb: (u8, u8, u8),
    pub shown_at: u64,
}

/// The card that shows what was read.
#[derive(Debug, Clone, Copy, PartialEq, Eq, Structural)]
pub struct Card {
    /// Whether the panel is still being read.
    pub processing: bool,
    pub visible_since: u64,
    /// Whether the card was drawn.
    pub submitted: bool,
    /// How opaque it is, where `FADE_TAIL_NS` is fully.
    pub last_alpha: u64,
}

/// What the thread remembers from one round to the next.
#[derive(Debug)]
pub struct RenderLoop {
    pub fsm: VisibilityFsm,
    pub was_visible: bool,
    /// Since when the wishlist fades in.
    pub fade_start: Option<u64>,
    /// What the wishlist was drawn from.
    pub clean_sig: Option<Signature>,
    /// The item that is pointed at.
    pub hover: Option<String>,
    /// Whether a screenshot is being read.
    pub in_flight: bool,
    pub dispatched_at: Option<u64>,
    pub guide_shown: Option<GuideKey>,
    pub guide_confirm: Option<Confirm>,
    pub card: Option<Card>,
}

/// What is to be done for the wishlist to appear or to go.
#[derive(Debug, Clone, Copy, PartialEq, Eq, Structural)]
pub enum Transition {
    Stay,
    /// Place the wishlist before the head, and show it where that succeeds.
    Show,
    Hide,
}

/// What is to be captured.
#[derive(Debug, Clone, Copy, PartialEq, Eq, Structural)]
pub enum CapturePlan {
    Nothing,
    /// A screenshot of the active mode.
    InMode(JobKind),
    /// A single screenshot of an upgrade panel.
    OneShot,
}

/// What is to be done with the card.
#[derive(Debug, Clone, Copy, PartialEq, Eq, Structural)]
pub struct CardStep {
    /// Whether a panel was read to its end.
    pub terminal: bool,
    /// Whether the card is drawn.
    pub draw: bool,
    /// Whether the card is hidden.
    pub hide: bool,
    /// How opaque the card becomes, where that changes.
    pub alpha: Option<u64>,
}

/// What is captured in a round. A screenshot is not taken while another one is
/// being read.
pub open spec fn capture_plan(
    mode: CaptureModeView,
    in_flight: bool,
    trigger: bool,
    space: bool,
    ocr_enabled: bool,
) -> CapturePlan {
    match mode.kind() {
        Some(kind) => if (trigger || space) && ocr_enabled && !in_flight {
            CapturePlan::InMode(kind)
        } else {
            CapturePlan::Nothing
        },
        None => if space {
            CapturePlan::OneShot
        } else {
            CapturePlan::Nothing
        },
    }
}

/// How opaque a card is at `age`, where it goes at `dismiss`.
pub open spec fn card_alpha(steady: bool, age: int, dismiss: u64) -> int {
    if steady || dismiss - age >= FADE_TAIL_NS {
        FADE_TAIL_NS as int
    } else if age >= dismiss {
        0
    } else {
        dismiss - age
    }
}

/// Whether two opacities differ by more than one step of 256.
pub open spec fn differs(a: int, b: int) -> bool {
    alpha_distance(a, b) * 256 > FADE_TAIL_NS
}

/// The distance between two numbers.
pub open spec fn alpha_distance(a: int, b: int) -> int {
    if a < b {
        b - a
    } else {
        a - b
    }
}

/// The card after a feedback is taken in.
pub open spec fn card_taken(card: Option<Card>, latest: Option<bool>, now: u64) -> Option<Card> {
    match latest {
        Some(processing) => Some(
            Card { processing, visible_since: now, submitted: false, last_alpha: 0 },
        ),
        None => card,
    }
}

/// What happens to the card in a round, and what it is afterwards.
pub open spec fn card_round(
    card: Option<Card>,
    latest: Option<bool>,
    now: u64,
    sticky: bool,
    dismiss: u64,
) -> (Option<Card>, CardStep) {
    let terminal = latest == Some(false);
    match card_taken(card, latest, now) {
        None => (None, CardStep { terminal, draw: false, hide: false, alpha: None }),
        Some(c) => {
            let age = pose::elapsed(c.visible_since, now);
            let steady = c.processing || sticky;
            if !steady && age >= dismiss {
                (None, CardStep { terminal, draw: !c.submitted, hide: true, alpha: None })
            } else {
                let target = card_alpha(steady, age, dismiss) as u64;
                let moves = differs(target as int, c.last_alpha as int);
                (
                    Some(
                        Card {
                            submitted: true,
                            last_alpha: if moves {
                                target
                            } else {
                                c.last_alpha
                            },
                            ..c
                        },
                    ),
                    CardStep {
                        terminal,
                        draw: !c.submitted,
                        hide: false,
                        alpha: if moves {
                            Some(target)
                        } else {
                            None
                        },
                    },
                )
            }
        },
    }
}

fn time_since(then: u64, now: u64) -> (r: u64)
    ensures
        r == pose::elapsed(then, now),
{
    if now < then {
        0
    } else {
        now - then
    }
}

impl RenderLoop {
    /// Whether the time is known since when a screenshot is being read, so
    /// that the wait for it ends.
    pub open spec fn wf(self) -> bool {
        &&& self.in_flight ==> self.dispatched_at is Some
        &&& self.card matches Some(c) ==> c.last_alpha <= FADE_TAIL_NS
    }

    /// Whether everything but the wishlist is the same.
    pub open spec fn same_capture(self, other: RenderLoop) -> bool {
        &&& self.in_flight == other.in_flight
        &&& self.dispatched_at == other.dispatched_at
        &&& self.guide_shown == other.guide_shown
        &&& self.guide_confirm == other.guide_confirm
        &&& self.card == other.card
    }

    /// Whether everything of the wishlist is the same.
    pub open spec fn same_grid(self, other: RenderLoop) -> bool {
        &&& self.fsm == other.fsm
        &&& self.was_visible == other.was_visible
        &&& self.fade_start == other.fade_start
        &&& self.clean_sig == other.clean_sig
        &&& self.hover == other.hover
    }

    /// The first round.
    pub fn new() -> (r: Self)
        ensures
            r.wf(),
            r.fsm == VisibilityFsm::start(),
            !r.was_visible,
            r.fade_start is None,
            r.clean_sig is None,
            r.hover is None,
            !r.in_flight,
            r.dispatched_at is None,
            r.guide_shown is None,
            r.guide_confirm is None,
            r.card is None,
    {
        RenderLoop {
            fsm: VisibilityFsm::new(),
            was_visible: false,
            fade_start: None,
            clean_sig: None,
            hover: None,
            in_flight: false,
            dispatched_at: None,
            guide_shown: None,
            guide_confirm: None,
            card: None,
        }
    }

    /// Whether the wishlist is to be visible. While a mode is active it is
    /// not, and the angle of the head is not looked at.
    pub fn look(&mut self, cap_active: bool, pitch: i32, now: u64, show: i32, hide: i32, dwell: u64) -> (
    r: bool)
        requires
            old(self).wf(),
        ensures
            final(self).wf(),
            final(self).same_capture(*old(self)),
            final(self).was_visible == old(self).was_visible,
            final(self).fade_start == old(self).fade_start,
            final(self).clean_sig == old(self).clean_sig,
            final(self).hover == old(self).hover,
            final(self).fsm == if cap_active {
                old(self).fsm
            } else {
                old(self).fsm.after(pitch, now, show, hide, dwell)
            },
            r == (!cap_active && final(self).fsm.state == Visibility::Visible),
    {
        if cap_active {
            return false;
        }
        let v: Visibility = self.fsm.tick_with(pitch, now, show, hide, dwell);
        v == Visibility::Visible
    }

    /// What is to be done for the wishlist to appear or to go.
    pub fn plan_transition(&self, visible_now: bool) -> (r: Transition)
        ensures
            r == if visible_now && !self.was_visible {
                Transition::Show
            } else if !visible_now && self.was_visible {
                Transition::Hide
            } else {
                Transition::Stay
            },
    {
        if visible_now && !self.was_visible {
            Transition::Show
        } else if !visible_now && self.was_visible {
            Transition::Hide
        } else {
            Transition::Stay
        }
    }

    /// The wishlist was placed, drawn and shown.
    pub fn shown(&mut self, now: u64, sig: Signature)
        requires
            old(self).wf(),
        ensures
            final(self).wf(),
            final(self).same_capture(*old(self)),
            final(self).fsm == old(self).fsm,
            final(self).was_visible,
            final(self).fade_start == Some(now),
            final(self).clean_sig == Some(sig),
            final(self).hover is None,
    {
        self.clean_sig = Some(sig);
        self.hover = None;
        self.fade_start = Some(now);
        self.was_visible = true;
    }

    /// The wishlist was hidden.
    pub fn hidden(&mut self)
        requires
            old(self).wf(),
        ensures
            final(self).wf(),
            final(self).same_capture(*old(self)),
            final(self).fsm == old(self).fsm,
            !final(self).was_visible,
            final(self).fade_start is None,
            final(self).clean_sig == old(self).clean_sig,
            final(self).hover == old(self).hover,
    {
        self.fade_start = None;
        self.was_visible = false;
    }

    /// What is captured in this round.
    pub fn plan_capture(&self, mode: &CaptureMode, trigger: bool, space: bool, ocr_enabled: bool) -> (
    r: CapturePlan)
        ensures
            r == capture_plan(mode@, self.in_flight, trigger, space, ocr_enabled),
    {
        match mode.job_kind() {
            Some(kind) => if (trigger || space) && ocr_enabled && !self.in_flight {
                CapturePlan::InMode(kind)
            } else {
                CapturePlan::Nothing
            },
            None => if space {
                CapturePlan::OneShot
            } else {
                CapturePlan::Nothing
            },
        }
    }

    /// A screenshot of a mode is about to be taken: what is left of the last
    /// one goes.
    pub fn begin_capture(&mut self) -> (r: CaptureState)
        requires
            old(self).wf(),
        ensures
            final(self).wf(),
            final(self).same_grid(*old(self)),
            final(self).in_flight == old(self).in_flight,
            final(self).dispatched_at == old(self).dispatched_at,
            final(self).guide_shown == old(self).guide_shown,
            final(self).guide_confirm is None,
            final(self).card == old(self).card,
            r == CaptureState::Capturing,
    {
        self.guide_confirm = None;
        CaptureState::Capturing
    }

    /// The card goes before a screenshot is taken, so that it is not on it.
    /// Says whether there was one.
    pub fn retire_card(&mut self) -> (r: bool)
        requires
            old(self).wf(),
        ensures
            final(self).wf(),
            final(self).same_grid(*old(self)),
            final(self).in_flight == old(self).in_flight,
            final(self).dispatched_at == old(self).dispatched_at,
            final(self).guide_shown == old(self).guide_shown,
            final(self).guide_confirm == old(self).guide_confirm,
            final(self).card is None,
            r == (old(self).card is Some),
    {
        let r: bool = self.card.is_some();
        self.card = None;
        r
    }

    /// A screenshot of a mode was taken or not.
    pub fn end_capture(&mut self, dispatched: bool, now: u64) -> (r: CaptureState)
        requires
            old(self).wf(),
        ensures
            final(self).wf(),
            final(self).same_grid(*old(self)),
            final(self).guide_shown == old(self).guide_shown,
            final(self).guide_confirm == old(self).guide_confirm,
            final(self).card == old(self).card,
            final(self).in_flight == (dispatched || old(self).in_flight),
            final(self).dispatched_at == if dispatched {
                Some(now)
            } else {
                old(self).dispatched_at
            },
            r == if dispatched {
                CaptureState::RunningOcr
            } else {
                CaptureState::Ready
            },
    {
        if dispatched {
            self.in_flight = true;
            self.dispatched_at = Some(now);
            CaptureState::RunningOcr
        } else {
            CaptureState::Ready
        }
    }

    /// What stands on the guide box: the result of the last capture for four
    /// seconds, and else how far the capture is.
    pub open spec fn chip(self, st: CaptureState, now: u64) -> (Seq<char>, (u8, u8, u8)) {
        match self.guide_confirm {
            Some(c) => if pose::elapsed(c.shown_at, now) < CONFIRM_NS {
                (c.label@, c.rgb)
            } else {
                (st.label_text(), st.channels())
            },
            None => (st.label_text(), st.channels()),
        }
    }

    /// What stands on the guide box.
    pub fn guide_chip(&self, st: CaptureState, now: u64) -> (r: (String, (u8, u8, u8)))
        ensures
            (r.0@, r.1) == self.chip(st, now),
    {
        if let Some(c) = &self.guide_confirm {
            if time_since(c.shown_at, now) < CONFIRM_NS {
                return (c.label.clone(), c.rgb);
            }
        }
        (st.label().to_owned(), st.rgb())
    }

    /// Whether the guide box is to be drawn for `key`. It is where it was not
    /// the last time.
    pub fn ensure_guide(&mut self, key: GuideKey) -> (r: bool)
        requires
            old(self).wf(),
        ensures
            final(self).wf(),
            final(self).same_grid(*old(self)),
            final(self).in_flight == old(self).in_flight,
            final(self).dispatched_at == old(self).dispatched_at,
            final(self).guide_confirm == old(self).guide_confirm,
            final(self).card == old(self).card,
            r == !(old(self).guide_shown matches Some(k) && k@ == key@),
            final(self).guide_shown matches Some(k) && k@ == key@,
    {
        if let Some(k) = &self.guide_shown {
            if k.same(&key) {
                return false;
            }
        }
        self.guide_shown = Some(key);
        true
    }

    /// No mode is active: the guide box goes, with what stands on it. Says
    /// whether it was shown.
    pub fn leave_guide(&mut self) -> (r: bool)
        requires
            old(self).wf(),
        ensures
            final(self).wf(),
            final(self).same_grid(*old(self)),
            final(self).in_flight == old(self).in_flight,
            final(self).dispatched_at == old(self).dispatched_at,
            final(self).card == old(self).card,
            final(self).guide_confirm is None,
            final(self).guide_shown is None,
            r == (old(self).guide_shown is Some),
    {
        self.guide_confirm = None;
        let was_shown: bool = self.guide_shown.is_some();
        self.guide_shown = None;
        was_shown
    }

    /// Gives up on a screenshot that takes too long to be read. Says whether
    /// it did.
    pub fn watchdog(&mut self, now: u64) -> (r: bool)
        requires
            old(self).wf(),
        ensures
            final(self).wf(),
            final(self).same_grid(*old(self)),
            final(self).guide_shown == old(self).guide_shown,
            final(self).guide_confirm == old(self).guide_confirm,
            final(self).card == old(self).card,
            r == (old(self).in_flight && old(self).dispatched_at is Some && pose::elapsed(
                old(self).dispatched_at->0,
                now,
            ) > WATCHDOG_NS),
            final(self).in_flight == (old(self).in_flight && !r),
            final(self).dispatched_at == if r {
                None
            } else {
                old(self).dispatched_at
            },
    {
        if let Some(t) = self.dispatched_at {
            if self.in_flight && time_since(t, now) > WATCHDOG_NS {
                self.in_flight = false;
                self.dispatched_at = None;
                return true;
            }
        }
        false
    }

    /// Whether the wishlist is to be drawn anew.
    pub fn needs_render(&self, sig: Signature) -> (r: bool)
        ensures
            r == (self.clean_sig != Some(sig)),
    {
        match self.clean_sig {
            Some(s) => s != sig,
            None => true,
        }
    }

    /// The wishlist was drawn anew.
    pub fn rendered(&mut self, sig: Signature)
        requires
            old(self).wf(),
        ensures
            final(self).wf(),
            final(self).same_capture(*old(self)),
            final(self).fsm == old(self).fsm,
            final(self).was_visible == old(self).was_visible,
            final(self).fade_start == old(self).fade_start,
            final(self).clean_sig == Some(sig),
            final(self).hover == old(self).hover,
    {
        self.clean_sig = Some(sig);
    }

    /// Takes in what is pointed at. Says whether the picture is sent: where it
    /// was drawn anew, or something else is pointed at.
    pub fn point_at(&mut self, redrawn: bool, hover: Option<String>) -> (r: bool)
        requires
            old(self).wf(),
        ensures
            final(self).wf(),
            final(self).same_capture(*old(self)),
            final(self).fsm == old(self).fsm,
            final(self).was_visible == old(self).was_visible,
            final(self).fade_start == old(self).fade_start,
            final(self).clean_sig == old(self).clean_sig,
            r == (redrawn || text::opt_text(hover) != text::opt_text(old(self).hover)),
            text::opt_text(final(self).hover) == text::opt_text(hover),
    {
        let same: bool = match (&self.hover, &hover) {
            (Some(a), Some(b)) => same_text(a, b),
            (None, None) => true,
            _ => false,
        };
        if redrawn || !same {
            self.hover = hover;
            true
        } else {
            false
        }
    }

    /// How opaque the wishlist is, where `FADE_NS` is fully.
    pub fn fade_in(&mut self, now: u64) -> (r: u64)
        requires
            old(self).wf(),
        ensures
            final(self).wf(),
            final(self).same_capture(*old(self)),
            final(self).fsm == old(self).fsm,
            final(self).was_visible == old(self).was_visible,
            final(self).clean_sig == old(self).clean_sig,
            final(self).hover == old(self).hover,
            r <= FADE_NS,
            match old(self).fade_start {
                Some(t0) => if pose::elapsed(t0, now) >= FADE_NS {
                    r == FADE_NS && final(self).fade_start is None
                } else {
                    r == pose::elapsed(t0, now) && final(self).fade_start == Some(t0)
                },
                None => r == FADE_NS && final(self).fade_start is None,
            },
    {
        match self.fade_start {
            Some(t0) => {
                let e: u64 = time_since(t0, now);
                if e >= FADE_NS {
                    self.fade_start = None;
                    FADE_NS
                } else {
                    e
                }
            },
            None => FADE_NS,
        }
    }

    /// Takes in what was read since the last round: whether the newest card is
    /// one of a panel that is still being read. A new card replaces the one
    /// before; one that is done goes after `dismiss`, unless it is `sticky`.
    pub fn drive_card(&mut self, latest: Option<bool>, now: u64, sticky: bool, dismiss: u64) -> (r:
        CardStep)
        requires
            old(self).wf(),
        ensures
            final(self).wf(),
            final(self).same_grid(*old(self)),
            final(self).in_flight == old(self).in_flight,
            final(self).dispatched_at == old(self).dispatched_at,
            final(self).guide_shown == old(self).guide_shown,
            final(self).guide_confirm == old(self).guide_confirm,
            (final(self).card, r) == card_round(old(self).card, latest, now, sticky, dismiss),
    {
        let terminal: bool = match latest {
            Some(processing) => !processing,
            None => false,
        };
        if let Some(processing) = latest {
            self.card = Some(
                Card { processing, visible_since: now, submitted: false, last_alpha: 0 },
            );
        }
        let c: Card = match self.card {
            Some(c) => c,
            None => {
                return CardStep { terminal, draw: false, hide: false, alpha: None };
            },
        };
        let age: u64 = time_since(c.visible_since, now);
        let steady: bool = c.processing || sticky;
        let draw: bool = !c.submitted;
        if !steady && age >= dismiss {
            self.card = None;
            return CardStep { terminal, draw, hide: true, alpha: None };
        }
        let target: u64 = if steady || dismiss - age >= FADE_TAIL_NS {
            FADE_TAIL_NS
        } else {
            dismiss - age
        };
        let d: u64 = if target < c.last_alpha {
            c.last_alpha - target
        } else {
            target - c.last_alpha
        };
        let moves: bool = d * 256 > FADE_TAIL_NS;
        let last_alpha: u64 = if moves {
            target
        } else {
            c.last_alpha
        };
        self.card = Some(
            Card {
                processing: c.processing,
                visible_since: c.visible_since,
                submitted: true,
                last_alpha,
            },
        );
        CardStep {
            terminal,
            draw,
            hide: false,
            alpha: if moves {
                Some(target)
            } else {
                None
            },
        }
    }

    /// A panel was read to its end: the next screenshot can be taken. While a
    /// mode is active its result stands on the guide box.
    pub fn finish_read(&mut self, cap_active: bool, label: Option<(String, (u8, u8, u8))>, now: u64) -> (
    r: Option<CaptureState>)
        requires
            old(self).wf(),
        ensures
            final(self).wf(),
            final(self).same_grid(*old(self)),
            final(self).guide_shown == old(self).guide_shown,
            final(self).card == old(self).card,
            !final(self).in_flight,
            final(self).dispatched_at is None,
            r == if cap_active {
                Some(CaptureState::Ready)
            } else {
                None
            },
            match label {
                Some(l) => if cap_active {
                    final(self).guide_confirm matches Some(c) && c.label@ == l.0@ && c.rgb == l.1
                        && c.shown_at == now
                } else {
                    final(self).guide_confirm == old(self).guide_confirm
                },
                None => final(self).guide_confirm == old(self).guide_confirm,
            },
    {
        self.in_flight = false;
        self.dispatched_at = None;
        if cap_active {
            if let Some((text, rgb)) = label {
                self.guide_confirm = Some(Confirm { label: text, rgb, shown_at: now });
            }
            Some(CaptureState::Ready)
        } else {
            None
        }
    }
}

/// Which trigger captures, and which one is left alone.
pub fn split_triggers(hand: CaptureHand, left: Option<u32>, right: Option<u32>) -> (r: (
    Option<u32>,
    Option<u32>,
))
    ensures
        r == match hand {
            CaptureHand::Left => (left, right),
            CaptureHand::Right => (right, left),
        },
{
    match hand {
        CaptureHand::Left => (left, right),
        CaptureHand::Right => (right, left),
    }
}

/// How long to wait until the next round.
pub fn pause_after(spent: u64) -> (r: u64)
    ensures
        r == if spent < TICK_MS * MS {
            TICK_MS * MS - spent
        } else {
            0
        },
{
    if spent < TICK_MS * MS {
        TICK_MS * MS - spent
    } else {
        0
    }
}

/// Whether a press on the overlay is looked at: the overlay is visible, and
/// something was drawn.
pub fn press_counts(visible_now: bool, canvas: (u32, u32)) -> (r: bool)
    ensures
        r == (visible_now && canvas.0 != 0 && canvas.1 != 0),
{
    visible_now && canvas.0 != 0 && canvas.1 != 0
}

/// Whether a screenshot waits until there is room for it: one of a scan must
/// not get lost.
pub fn must_be_delivered(kind: JobKind) -> (r: bool)
    ensures
        r == (kind == JobKind::BoxScan),
{
    match kind {
        JobKind::BoxScan => true,
        JobKind::UpgradePanel => false,
    }
}

/// What is told of a capture: whether it was handed on, and how it went. A
/// screenshot that is kept is told by its file.
pub fn capture_outcome(failure: Option<String>, debug_path: Option<String>) -> (r: (CaptureResult, bool))
    ensures
        r.1 == (failure is None),
        r.0@ == match failure {
            Some(msg) => CaptureResultView::Failed(msg@),
            None => match debug_path {
                Some(path) => CaptureResultView::Saved(path@),
                None => CaptureResultView::Ephemeral,
            },
        },
{
    match failure {
        Some(msg) => (CaptureResult::Failed(msg), false),
        None => match debug_path {
            Some(path) => (CaptureResult::Saved(path), true),
            None => (CaptureResult::Ephemeral, true),
        },
    }
}

/// A number with noughts before it, so that it has at least `width` digits.
pub open spec fn with_noughts(n: nat, width: int) -> Seq<char> {
    let d = text::decimal(n);
    Seq::new(
        (if d.len() < width {
            width - d.len()
        } else {
            0
        }) as nat,
        |i: int| '0',
    ) + d
}

/// The file of a screenshot, below the debug directory.
pub fn screenshot_path(stamp: &str, nanos: u32) -> (r: String)
    ensures
        r@ == SCREENSHOT_SUBDIR@ + "/"@ + stamp@ + "_"@ + with_noughts(nanos as nat, 9)
            + ".webp"@,
{
    let digits: String = text::decimal_string(nanos as u64);
    let n: usize = text::chars_of(&digits).len();
    let mut number: String = String::new();
    let mut i: usize = n;
    let ghost noughts = Seq::new(
        (if n < 9 {
            9 - n
        } else {
            0
        }) as nat,
        |k: int| '0',
    );
    while i < 9
        invariant
            n <= i || i == n,
            i <= 9 || i == n,
            number@ == Seq::new((i - n) as nat, |k: int| '0'),
        decreases 9 - i,
    {
        number.push('0');
        assert(number@ =~= Seq::new((i + 1 - n) as nat, |k: int| '0'));
        i += 1;
    }
    assert(number@ =~= noughts);
    number.append(digits.as_str());
    let mut r: String = SCREENSHOT_SUBDIR.to_owned();
    r.append("/");
    r.append(stamp);
    r.append("_");
    r.append(number.as_str());
    r.append(".webp");
    r
}

/// While a screenshot is being read no other one of a mode is taken, whatever
/// is pressed.
pub proof fn law_one_capture_at_a_time(mode: CaptureModeView, trigger: bool, space: bool, ocr: bool)
    requires
        mode.active(),
    ensures
        capture_plan(mode, true, trigger, space, ocr) == CapturePlan::Nothing,
{
}

/// Without a mode the trigger takes no screenshot.
pub proof fn law_trigger_needs_a_mode(in_flight: bool, trigger: bool, ocr: bool)
    ensures
        capture_plan(CaptureModeView::Off, in_flight, trigger, false, ocr) == CapturePlan::Nothing,
{
}

/// The card of a panel that is still being read, and one that is to stay,
/// never goes, and comes out fully opaque.
pub proof fn law_steady_cards_stay(card: Card, now: u64, sticky: bool, dismiss: u64)
    requires
        card.processing || sticky,
        card.last_alpha <= FADE_TAIL_NS,
    ensures
        ({
            let (after, step) = card_round(Some(card), None, now, sticky, dismiss);
            &&& after is Some
            &&& !step.hide
            &&& !differs(FADE_TAIL_NS as int, after->0.last_alpha as int)
        }),
{
}

/// A card is drawn once: in the round in which it comes, and in none after.
pub proof fn law_cards_are_drawn_once(
    card: Option<Card>,
    latest: bool,
    now: u64,
    later: u64,
    sticky: bool,
    dismiss: u64,
)
    requires
        dismiss > 0,
    ensures
        card_round(card, Some(latest), now, sticky, dismiss).1.draw,
        !card_round(
            card_round(card, Some(latest), now, sticky, dismiss).0,
            None,
            later,
            sticky,
            dismiss,
        ).1.draw,
{
}

/// A card that is done is gone after its time.
pub proof fn law_done_cards_go(card: Card, now: u64, dismiss: u64)
    requires
        !card.processing,
        pose::elapsed(card.visible_since, now) >= dismiss,
    ensures
        card_round(Some(card), None, now, false, dismiss).0 is None,
        card_round(Some(card), None, now, false, dismiss).1.hide,
{
}

} // verus!
