//! What the trigger of a controller captures, and how far a capture is.

use crate::text;
use vstd::prelude::*;
use vstd::string::*;

verus! {

/// What a screenshot is read as.
#[derive(Debug, Clone, Copy, PartialEq, Eq, Structural)]
pub enum JobKind {
    /// The panel of an upgrade.
    UpgradePanel,
    /// The contents of a container or of the stash.
    BoxScan,
}

/// Where the items of a scan are stored.
#[derive(Debug)]
pub enum ScanTarget {
    Stash,
    /// The container with this id.
    Container(String),
}

/// What a [`ScanTarget`] says.
#[verifier::ext_equal]
pub enum ScanTargetView {
    Stash,
    Container(Seq<char>),
}

impl View for ScanTarget {
    type V = ScanTargetView;

    open spec fn view(&self) -> ScanTargetView {
        match *self {
            ScanTarget::Stash => ScanTargetView::Stash,
            ScanTarget::Container(id) => ScanTargetView::Container(id@),
        }
    }
}

impl ScanTarget {
    /// A copy.
    pub fn copy(&self) -> (r: Self)
        ensures
            r@ == self@,
    {
        match self {
            ScanTarget::Stash => ScanTarget::Stash,
            ScanTarget::Container(id) => ScanTarget::Container(id.clone()),
        }
    }

    /// Whether two targets are the same.
    pub fn same(&self, other: &Self) -> (r: bool)
        ensures
            r == (self@ == other@),
    {
        match (self, other) {
            (ScanTarget::Stash, ScanTarget::Stash) => true,
            (ScanTarget::Container(a), ScanTarget::Container(b)) => text::same_text(a, b),
            _ => false,
        }
    }
}

/// What the trigger captures. While a mode is active the wishlist is hidden,
/// so that the trigger has one meaning only.
#[derive(Debug)]
pub enum CaptureMode {
    /// Nothing: the trigger clicks on the wishlist.
    Off,
    /// The panel of an upgrade.
    Hideout,
    /// A container or the stash.
    Box(ScanTarget),
}

/// What a [`CaptureMode`] says.
#[verifier::ext_equal]
pub enum CaptureModeView {
    Off,
    Hideout,
    Box(ScanTargetView),
}

impl View for CaptureMode {
    type V = CaptureModeView;

    open spec fn view(&self) -> CaptureModeView {
        match *self {
            CaptureMode::Off => CaptureModeView::Off,
            CaptureMode::Hideout => CaptureModeView::Hideout,
            CaptureMode::Box(t) => CaptureModeView::Box(t@),
        }
    }
}

impl Default for CaptureMode {
    fn default() -> (r: Self)
        ensures
            r@ == CaptureModeView::Off,
    {
        CaptureMode::Off
    }
}

impl CaptureModeView {
    /// Whether the trigger captures.
    pub open spec fn active(self) -> bool {
        self != CaptureModeView::Off
    }

    /// What a screenshot is read as.
    pub open spec fn kind(self) -> Option<JobKind> {
        match self {
            CaptureModeView::Off => None,
            CaptureModeView::Hideout => Some(JobKind::UpgradePanel),
            CaptureModeView::Box(_) => Some(JobKind::BoxScan),
        }
    }

    /// What to aim at.
    pub open spec fn caption(self) -> Seq<char> {
        match self {
            CaptureModeView::Off => Seq::empty(),
            CaptureModeView::Hideout => "Aim at the upgrade panel"@,
            CaptureModeView::Box(ScanTargetView::Stash) => "Aim at the stash terminal"@,
            CaptureModeView::Box(ScanTargetView::Container(_)) => "Aim at the container"@,
        }
    }
}

impl CaptureMode {
    /// Whether the trigger captures.
    pub fn is_active(&self) -> (r: bool)
        ensures
            r == self@.active(),
    {
        match self {
            CaptureMode::Off => false,
            _ => true,
        }
    }

    /// What a screenshot is read as, where one is taken at all.
    pub fn job_kind(&self) -> (r: Option<JobKind>)
        ensures
            r == self@.kind(),
    {
        match self {
            CaptureMode::Off => None,
            CaptureMode::Hideout => Some(JobKind::UpgradePanel),
            CaptureMode::Box(_) => Some(JobKind::BoxScan),
        }
    }

    /// Where the items of a scan are stored.
    pub fn scan_target(&self) -> (r: Option<&ScanTarget>)
        ensures
            match r {
                Some(t) => self@ == CaptureModeView::Box(t@),
                None => !(self@ is Box),
            },
    {
        match self {
            CaptureMode::Box(t) => Some(t),
            _ => None,
        }
    }

    /// What to aim at.
    pub fn guide_caption(&self) -> (r: &'static str)
        ensures
            r@ == self@.caption(),
    {
        proof {
            reveal_strlit("");
            assert(""@ =~= Seq::<char>::empty());
        }
        match self {
            CaptureMode::Off => "",
            CaptureMode::Hideout => "Aim at the upgrade panel",
            CaptureMode::Box(ScanTarget::Stash) => "Aim at the stash terminal",
            CaptureMode::Box(ScanTarget::Container(_)) => "Aim at the container",
        }
    }

    /// A copy.
    pub fn copy(&self) -> (r: Self)
        ensures
            r@ == self@,
    {
        match self {
            CaptureMode::Off => CaptureMode::Off,
            CaptureMode::Hideout => CaptureMode::Hideout,
            CaptureMode::Box(t) => CaptureMode::Box(t.copy()),
        }
    }

    /// Whether two modes are the same.
    pub fn same(&self, other: &Self) -> (r: bool)
        ensures
            r == (self@ == other@),
    {
        match (self, other) {
            (CaptureMode::Off, CaptureMode::Off) => true,
            (CaptureMode::Hideout, CaptureMode::Hideout) => true,
            (CaptureMode::Box(a), CaptureMode::Box(b)) => a.same(b),
            _ => false,
        }
    }
}

/// How far a capture is.
#[derive(Debug, Clone, Copy, PartialEq, Eq, Structural)]
pub enum CaptureState {
    /// Waiting for the trigger.
    Ready,
    /// Taking the screenshot.
    Capturing,
    /// The screenshot is being read.
    RunningOcr,
}

impl Default for CaptureState {
    fn default() -> (r: Self)
        ensures
            r == CaptureState::Ready,
    {
        CaptureState::Ready
    }
}

impl CaptureState {
    /// The label of the state.
    pub open spec fn label_text(self) -> Seq<char> {
        match self {
            CaptureState::Ready => "Ready — pull trigger"@,
            CaptureState::Capturing => "Capturing…"@,
            CaptureState::RunningOcr => "Reading…"@,
        }
    }

    /// The colour of the state: green, amber or teal.
    pub open spec fn channels(self) -> (u8, u8, u8) {
        match self {
            CaptureState::Ready => (80, 180, 100),
            CaptureState::Capturing => (200, 180, 80),
            CaptureState::RunningOcr => (89, 190, 175),
        }
    }

    /// The label of the state.
    pub fn label(&self) -> (r: &'static str)
        ensures
            r@ == self.label_text(),
    {
        match self {
            CaptureState::Ready => "Ready — pull trigger",
            CaptureState::Capturing => "Capturing…",
            CaptureState::RunningOcr => "Reading…",
        }
    }

    /// The colour of the state.
    pub fn rgb(&self) -> (r: (u8, u8, u8))
        ensures
            r == self.channels(),
    {
        match self {
            CaptureState::Ready => (80, 180, 100),
            CaptureState::Capturing => (200, 180, 80),
            CaptureState::RunningOcr => (89, 190, 175),
        }
    }
}

/// Which eye's picture is captured.
#[derive(Debug, Clone, Copy, PartialEq, Eq, Structural)]
pub enum CaptureEye {
    Left,
    Right,
}

impl CaptureEye {
    /// The name of the eye.
    pub fn label(self) -> (r: &'static str)
        ensures
            r@ == match self {
                CaptureEye::Left => "left"@,
                CaptureEye::Right => "right"@,
            },
    {
        match self {
            CaptureEye::Left => "left",
            CaptureEye::Right => "right",
        }
    }

    /// The other eye.
    pub fn other(self) -> (r: Self)
        ensures
            r != self,
    {
        match self {
            CaptureEye::Left => CaptureEye::Right,
            CaptureEye::Right => CaptureEye::Left,
        }
    }
}

/// Which hand's trigger captures.
#[derive(Debug, Clone, Copy, PartialEq, Eq, Structural)]
pub enum CaptureHand {
    Left,
    Right,
}

impl CaptureHand {
    /// The name of the hand.
    pub open spec fn label_text(self) -> Seq<char> {
        match self {
            CaptureHand::Left => "LEFT"@,
            CaptureHand::Right => "RIGHT"@,
        }
    }

    /// The name of the hand.
    pub fn label(self) -> (r: &'static str)
        ensures
            r@ == self.label_text(),
    {
        match self {
            CaptureHand::Left => "LEFT",
            CaptureHand::Right => "RIGHT",
        }
    }
}

/// Exactly the modes that are active have a kind of screenshot and a caption.
pub proof fn law_active_modes_capture(mode: CaptureModeView)
    ensures
        mode.active() == (mode.kind() is Some),
        mode.active() == (mode.caption().len() > 0),
{
    reveal_strlit("Aim at the upgrade panel");
    reveal_strlit("Aim at the stash terminal");
    reveal_strlit("Aim at the container");
}

} // verus!
