//! What the rounds of the overlay do: captures, cards and the status chip.

use crate::vr::capture_session::{
    CaptureHand, CaptureModeView, CaptureState, JobKind, ScanTargetView,
};
use crate::vr::pose;
use crate::vr::runtime;
use crate::vr::runtime::{CapturePlan, Card, RenderLoop};
use vstd::prelude::*;

verus! {

/// In a capture mode the trigger and the space bar both capture, for the job
/// of the mode, unless reading is disabled or a capture is under way. Outside
/// of one the space bar alone takes a screenshot.
pub proof fn law_what_captures(
    mode: CaptureModeView,
    in_flight: bool,
    trigger: bool,
    space: bool,
    ocr_enabled: bool,
    target: ScanTargetView,
)
    ensures
        mode == CaptureModeView::Off && space ==> runtime::capture_plan(
            mode,
            in_flight,
            trigger,
            space,
            ocr_enabled,
        ) == CapturePlan::OneShot,
        mode == CaptureModeView::Off && !space ==> runtime::capture_plan(
            mode,
            in_flight,
            trigger,
            space,
            ocr_enabled,
        ) == CapturePlan::Nothing,
        mode == CaptureModeView::Hideout && (trigger || space) && ocr_enabled && !in_flight
            ==> runtime::capture_plan(mode, in_flight, trigger, space, ocr_enabled)
            == CapturePlan::InMode(JobKind::UpgradePanel),
        mode == CaptureModeView::Box(target) && (trigger || space) && ocr_enabled && !in_flight
            ==> runtime::capture_plan(mode, in_flight, trigger, space, ocr_enabled)
            == CapturePlan::InMode(JobKind::BoxScan),
        mode != CaptureModeView::Off && (in_flight || !ocr_enabled || !trigger && !space)
            ==> runtime::capture_plan(mode, in_flight, trigger, space, ocr_enabled)
            == CapturePlan::Nothing,
{
}

/// A card is shown in full until six tenths of a second before it goes; from
/// then on it fades with the time that is left, and never becomes clearer. One
/// that stays does not fade.
pub proof fn law_cards_fade(age: int, later: int, dismiss: u64)
    requires
        0 <= age <= later,
    ensures
        runtime::card_alpha(true, age, dismiss) == 600_000_000,
        age + 600_000_000 <= dismiss ==> runtime::card_alpha(false, age, dismiss) == 600_000_000,
        age + 600_000_000 > dismiss && age < dismiss ==> runtime::card_alpha(false, age, dismiss)
            == dismiss - age,
        age >= dismiss ==> runtime::card_alpha(false, age, dismiss) == 0,
        runtime::card_alpha(false, later, dismiss) <= runtime::card_alpha(false, age, dismiss),
{
}

/// A result takes the place of the card and starts its time anew; it is drawn
/// in its first round. A finished one ends the reading.
pub proof fn law_results_become_cards(
    card: Option<Card>,
    processing: bool,
    now: u64,
    sticky: bool,
    dismiss: u64,
)
    requires
        dismiss > 0,
    ensures
        ({
            let (next, step) = runtime::card_round(card, Some(processing), now, sticky, dismiss);
            &&& next matches Some(c) && c.processing == processing && c.visible_since == now
                && c.submitted
            &&& step.draw
            &&& !step.hide
            &&& step.terminal == !processing
        }),
{
}

/// Without a result a card keeps what it shows; it goes once it is as old as
/// cards become, unless it is still being worked on or cards stay, and it is
/// hidden just then.
pub proof fn law_cards_go_in_time(c: Card, now: u64, sticky: bool, dismiss: u64)
    requires
        c.visible_since <= now,
        c.last_alpha <= 600_000_000,
    ensures
        ({
            let (next, step) = runtime::card_round(Some(c), None, now, sticky, dismiss);
            &&& next is None <==> !c.processing && !sticky && now - c.visible_since >= dismiss
            &&& step.hide <==> next is None
            &&& !step.terminal
            &&& step.draw == !c.submitted
            &&& next matches Some(d) ==> d.processing == c.processing && d.visible_since
                == c.visible_since
        }),
        runtime::card_round(None, None, now, sticky, dismiss).0 is None,
        !runtime::card_round(None, None, now, sticky, dismiss).1.draw,
        !runtime::card_round(None, None, now, sticky, dismiss).1.hide,
        runtime::card_round(None, None, now, sticky, dismiss).1.alpha is None,
{
}

/// How clear a card is changes only by steps that can be seen, and is then the
/// clearness of its age.
pub proof fn law_visible_steps_only(c: Card, now: u64, sticky: bool, dismiss: u64)
    requires
        c.visible_since <= now,
        c.last_alpha <= 600_000_000,
    ensures
        ({
            let (next, step) = runtime::card_round(Some(c), None, now, sticky, dismiss);
            let age = now - c.visible_since;
            let target = runtime::card_alpha(c.processing || sticky, age, dismiss);
            &&& step.alpha is Some ==> step.alpha.unwrap() == target && next is Some
                && next.unwrap().last_alpha == target
            &&& next is Some && step.alpha is None ==> next.unwrap().last_alpha == c.last_alpha
                && -2_343_750 <= target - c.last_alpha <= 2_343_750
        }),
{
}

/// The chip says what was read for four seconds, and else what goes on.
pub proof fn law_chip_confirms_for_four_seconds(l: RenderLoop, st: CaptureState, now: u64)
    ensures
        l.guide_confirm is None ==> l.chip(st, now) == (st.label_text(), st.channels()),
        l.guide_confirm matches Some(c) ==> {
            &&& c.shown_at <= now && now - c.shown_at < 4_000_000_000 ==> l.chip(st, now) == (
                c.label@,
                c.rgb,
            )
            &&& c.shown_at <= now && now - c.shown_at >= 4_000_000_000 ==> l.chip(st, now) == (
                st.label_text(),
                st.channels(),
            )
        },
{
}

/// The hand that captures gives the first trigger, and the other hand the
/// second: with the other hand they change places.
pub proof fn law_hands_change_places(
    left: Option<u32>,
    right: Option<u32>,
    a: (Option<u32>, Option<u32>),
    b: (Option<u32>, Option<u32>),
)
    requires
        call_ensures(runtime::split_triggers, (CaptureHand::Left, left, right), a),
        call_ensures(runtime::split_triggers, (CaptureHand::Right, left, right), b),
    ensures
        a.0 == left && a.1 == right,
        b.0 == a.1 && b.1 == a.0,
{
}

/// A round and the pause behind it last as long as a tick, unless the round
/// alone lasts longer.
pub proof fn law_rounds_last_a_tick(spent: u64, pause: u64)
    requires
        call_ensures(runtime::pause_after, (spent,), pause),
    ensures
        spent <= runtime::TICK_MS * pose::MS ==> spent + pause == runtime::TICK_MS * pose::MS,
        spent > runtime::TICK_MS * pose::MS ==> pause == 0,
{
}

/// A screenshot that was handed on for reading is waited for half a minute, and
/// then given up; reading it in time ends the wait.
pub proof fn law_reading_is_waited_for(
    l: &mut RenderLoop,
    m: &mut RenderLoop,
    t: u64,
    now: u64,
    st: CaptureState,
    gone: bool,
)
    requires
        old(l).wf(),
        call_ensures(RenderLoop::end_capture, (l, true, t), st),
        *old(m) == *final(l),
        call_ensures(RenderLoop::watchdog, (m, now), gone),
        t <= now,
    ensures
        st == CaptureState::RunningOcr,
        gone <==> now - t > 30_000_000_000,
        final(m).in_flight == !gone,
        gone ==> final(m).dispatched_at is None,
        final(m).card == old(l).card,
{
}

/// A screenshot that could not be handed on is not waited for, and what is read
/// ends the wait.
pub proof fn law_reading_ends(
    l: &mut RenderLoop,
    t: u64,
    st: CaptureState,
    m: &mut RenderLoop,
    active: bool,
    label: Option<(String, (u8, u8, u8))>,
    next: Option<CaptureState>,
)
    requires
        old(l).wf(),
        old(m).wf(),
        call_ensures(RenderLoop::end_capture, (l, false, t), st),
        call_ensures(RenderLoop::finish_read, (m, active, label, t), next),
    ensures
        st == CaptureState::Ready,
        final(l).in_flight == old(l).in_flight,
        !final(m).in_flight,
        active ==> next == Some(CaptureState::Ready),
        !active ==> next is None,
        active && label is Some ==> final(m).guide_confirm is Some
            && final(m).guide_confirm.unwrap().shown_at == t
            && final(m).guide_confirm.unwrap().label@ == label.unwrap().0@,
{
}

} // verus!
