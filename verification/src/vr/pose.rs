//! Looking up shows the overlay, looking down hides it.
//!
//! The head has to be held up for a while before the overlay shows; between
//! the two angles nothing changes.

use vstd::prelude::*;

verus! {

/// Looking up this far shows the overlay, in degrees above the horizon.
pub const SHOW_PITCH_DEG: i32 = 60;

/// Looking lower than this hides the overlay, in degrees above the horizon.
pub const HIDE_PITCH_DEG: i32 = 45;

/// How long the head has to be held up.
pub const DWELL_MS: u64 = 350;

/// The nanoseconds of a millisecond.
pub const MS: u64 = 1_000_000;

/// Whether the overlay is shown.
#[derive(Debug, Clone, Copy, PartialEq, Eq, Structural)]
pub enum Visibility {
    Hidden,
    /// The head is held up, but not long enough yet.
    PendingShow,
    Visible,
}

/// Decides whether the overlay is shown. Times are in nanoseconds since some
/// fixed moment.
#[derive(Debug, Clone, Copy, PartialEq, Eq, Structural)]
pub struct VisibilityFsm {
    pub state: Visibility,
    /// Since when the head is held up, while that is not long enough.
    pub pending_since: Option<u64>,
}

/// How much later `now` is than `then`; nothing where it is earlier.
pub open spec fn elapsed(then: u64, now: u64) -> int {
    if now < then {
        0
    } else {
        now - then
    }
}

impl VisibilityFsm {
    /// Whether a time is kept exactly while it is needed.
    pub open spec fn wf(self) -> bool {
        (self.state == Visibility::PendingShow) == (self.pending_since is Some)
    }

    /// The start: hidden.
    pub open spec fn start() -> Self {
        VisibilityFsm { state: Visibility::Hidden, pending_since: None }
    }

    /// What one look at the angle of the head does.
    pub open spec fn after(
        self,
        pitch: i32,
        now: u64,
        show: i32,
        hide: i32,
        dwell: u64,
    ) -> Self {
        match self.state {
            Visibility::Hidden => if pitch >= show {
                VisibilityFsm { state: Visibility::PendingShow, pending_since: Some(now) }
            } else {
                self
            },
            Visibility::PendingShow => if pitch < hide {
                Self::start()
            } else if pitch >= show && self.pending_since is Some && elapsed(
                self.pending_since->0,
                now,
            ) >= dwell {
                VisibilityFsm { state: Visibility::Visible, pending_since: None }
            } else {
                self
            },
            Visibility::Visible => if pitch < hide {
                Self::start()
            } else {
                self
            },
        }
    }

    /// Hidden.
    pub fn new() -> (r: Self)
        ensures
            r == Self::start(),
            r.wf(),
    {
        VisibilityFsm { state: Visibility::Hidden, pending_since: None }
    }

    /// Whether the overlay is shown.
    pub fn state(&self) -> (r: Visibility)
        ensures
            r == self.state,
    {
        self.state
    }

    /// Takes in the angle of the head in degrees.
    pub fn tick(&mut self, pitch_deg: i32, now: u64) -> (r: Visibility)
        ensures
            *final(self) == old(self).after(
                pitch_deg,
                now,
                SHOW_PITCH_DEG,
                HIDE_PITCH_DEG,
                (DWELL_MS * MS) as u64,
            ),
            r == final(self).state,
            old(self).wf() ==> final(self).wf(),
    {
        self.tick_with_dwell(pitch_deg, now, DWELL_MS * MS)
    }

    /// Takes in the angle of the head in degrees; the head has to be held up
    /// for `dwell`.
    pub fn tick_with_dwell(&mut self, pitch_deg: i32, now: u64, dwell: u64) -> (r: Visibility)
        ensures
            *final(self) == old(self).after(
                pitch_deg,
                now,
                SHOW_PITCH_DEG,
                HIDE_PITCH_DEG,
                dwell,
            ),
            r == final(self).state,
            old(self).wf() ==> final(self).wf(),
    {
        self.tick_with(pitch_deg, now, SHOW_PITCH_DEG, HIDE_PITCH_DEG, dwell)
    }

    /// Takes in the angle of the head. The angles may have any unit: only how
    /// they compare matters.
    pub fn tick_with(&mut self, pitch: i32, now: u64, show: i32, hide: i32, dwell: u64) -> (r:
        Visibility)
        ensures
            *final(self) == old(self).after(pitch, now, show, hide, dwell),
            r == final(self).state,
            old(self).wf() ==> final(self).wf(),
    {
        match self.state {
            Visibility::Hidden => {
                if pitch >= show {
                    self.pending_since = Some(now);
                    self.state = Visibility::PendingShow;
                }
            },
            Visibility::PendingShow => {
                if pitch < hide {
                    self.pending_since = None;
                    self.state = Visibility::Hidden;
                } else if pitch >= show {
                    if let Some(t0) = self.pending_since {
                        let held: u64 = if now < t0 {
                            0
                        } else {
                            now - t0
                        };
                        if held >= dwell {
                            self.state = Visibility::Visible;
                            self.pending_since = None;
                        }
                    }
                }
            },
            Visibility::Visible => {
                if pitch < hide {
                    self.state = Visibility::Hidden;
                    self.pending_since = None;
                }
            },
        }
        self.state
    }
}

impl Default for VisibilityFsm {
    fn default() -> (r: Self)
        ensures
            r == Self::start(),
    {
        Self::new()
    }
}

/// Looking low hides the overlay at once.
pub proof fn law_looking_down_hides(
    fsm: VisibilityFsm,
    pitch: i32,
    now: u64,
    show: i32,
    hide: i32,
    dwell: u64,
)
    requires
        fsm.wf(),
        pitch < hide,
        hide <= show,
    ensures
        fsm.after(pitch, now, show, hide, dwell) == VisibilityFsm::start(),
{
}

/// Between the two angles nothing changes.
pub proof fn law_band_holds(
    fsm: VisibilityFsm,
    pitch: i32,
    now: u64,
    show: i32,
    hide: i32,
    dwell: u64,
)
    requires
        hide <= pitch < show,
    ensures
        fsm.after(pitch, now, show, hide, dwell) == fsm,
{
}

/// Looks at the angle of the head: the angle and the time of each.
pub struct Look {
    pub pitch: i32,
    pub now: u64,
}

/// Where the looks lead from the start.
pub open spec fn after_all(looks: Seq<Look>, show: i32, hide: i32, dwell: u64) -> VisibilityFsm
    decreases looks.len(),
{
    if looks.len() == 0 {
        VisibilityFsm::start()
    } else {
        after_all(looks.drop_last(), show, hide, dwell).after(
            looks.last().pitch,
            looks.last().now,
            show,
            hide,
            dwell,
        )
    }
}

/// Whether the head was raised at the look number `i`, and never lowered since
/// then.
pub open spec fn raised_since(looks: Seq<Look>, show: i32, hide: i32, i: int) -> bool {
    &&& 0 <= i < looks.len()
    &&& looks[i].pitch >= show
    &&& forall|k: int| i <= k < looks.len() ==> (#[trigger] looks[k]).pitch >= hide
}

/// Whether the head was raised at the look number `i`, still or again at the
/// look number `j` at least `dwell` later, and never lowered since the first.
pub open spec fn held_up(
    looks: Seq<Look>,
    show: i32,
    hide: i32,
    dwell: u64,
    i: int,
    j: int,
) -> bool {
    &&& raised_since(looks, show, hide, i)
    &&& i < j < looks.len()
    &&& looks[j].pitch >= show
    &&& elapsed(looks[i].now, looks[j].now) >= dwell
}

/// The overlay is visible only where the head was raised, held up long enough,
/// and not lowered since.
pub proof fn law_shown_only_after_dwell(looks: Seq<Look>, show: i32, hide: i32, dwell: u64)
    requires
        hide <= show,
    ensures
        after_all(looks, show, hide, dwell).wf(),
        after_all(looks, show, hide, dwell).state == Visibility::Visible ==> exists|i: int, j: int|
            held_up(looks, show, hide, dwell, i, j),
        after_all(looks, show, hide, dwell).state == Visibility::PendingShow ==> exists|i: int|
            #[trigger] raised_since(looks, show, hide, i) && Some(looks[i].now) == after_all(
                looks,
                show,
                hide,
                dwell,
            ).pending_since,
    decreases looks.len(),
{
    if looks.len() > 0 {
        let init = looks.drop_last();
        law_shown_only_after_dwell(init, show, hide, dwell);
        let before = after_all(init, show, hide, dwell);
        let after = after_all(looks, show, hide, dwell);
        let n = looks.len() - 1;
        assert(looks[n] == looks.last());
        if after.state == Visibility::PendingShow {
            if before.state == Visibility::Hidden {
                assert(raised_since(looks, show, hide, n));
            } else {
                let i = choose|i: int| #[trigger]
                    raised_since(init, show, hide, i) && Some(init[i].now)
                        == before.pending_since;
                assert forall|k: int| i <= k < looks.len() implies (#[trigger] looks[k]).pitch
                    >= hide by {
                    if k < n {
                        assert(init[k] == looks[k]);
                    }
                }
                assert(init[i] == looks[i]);
                assert(raised_since(looks, show, hide, i));
            }
        }
        if after.state == Visibility::Visible {
            if before.state == Visibility::PendingShow {
                let i = choose|i: int| #[trigger]
                    raised_since(init, show, hide, i) && Some(init[i].now)
                        == before.pending_since;
                assert forall|k: int| i <= k < looks.len() implies (#[trigger] looks[k]).pitch
                    >= hide by {
                    if k < n {
                        assert(init[k] == looks[k]);
                    }
                }
                assert(init[i] == looks[i]);
                assert(held_up(looks, show, hide, dwell, i, n));
            } else {
                let (i, j) = choose|i: int, j: int| held_up(init, show, hide, dwell, i, j);
                assert forall|k: int| i <= k < looks.len() implies (#[trigger] looks[k]).pitch
                    >= hide by {
                    if k < n {
                        assert(init[k] == looks[k]);
                    }
                }
                assert(init[i] == looks[i] && init[j] == looks[j]);
                assert(held_up(looks, show, hide, dwell, i, j));
            }
        }
    }
}

} // verus!
