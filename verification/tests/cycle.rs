use std::cell::{Cell, RefCell};
use std::time::Duration;

use blur_autoclicker::cycle::{execute_click_cycle, ClickCycleKind, ClickCyclePlan};
use blur_autoclicker::mouse::{LEFT_DOWN, LEFT_UP};
use blur_autoclicker::script::{InputAction, InputSession, InputTarget};

fn left_button() -> InputTarget {
    InputTarget::MouseButton { down_flag: LEFT_DOWN, up_flag: LEFT_UP }
}

/// Drives one click cycle through its session, the way the click worker
/// does: each action of the session is carried out by the matching closure.
fn run_click_cycle<FPress, FRelease, FSleep, FActive>(
    plan: ClickCyclePlan,
    press: &mut FPress,
    release: &mut FRelease,
    sleep_for: &mut FSleep,
    is_active: &FActive,
) -> bool
where
    FPress: FnMut(),
    FRelease: FnMut(),
    FSleep: FnMut(Duration),
    FActive: Fn() -> bool,
{
    let mut session = InputSession::new(plan.cycle_ops(left_button()), Vec::new(), 1);
    let mut answer = true;
    loop {
        match session.step(answer) {
            InputAction::CheckActive => answer = is_active(),
            InputAction::Press { .. } => press(),
            InputAction::Release { .. } => release(),
            InputAction::Sleep { ms } => sleep_for(Duration::from_millis(ms as u64)),
            InputAction::Finish { completed } => return completed,
        }
    }
}

#[test]
fn single_cycle_uses_requested_hold() {
    let sleeps = RefCell::new(Vec::new());
    let mut press = || {};
    let mut release = || {};
    let mut sleep_for = |duration: Duration| sleeps.borrow_mut().push(duration.as_millis() as u32);
    let is_active = || true;

    let sent = run_click_cycle(
        ClickCyclePlan::single(55),
        &mut press,
        &mut release,
        &mut sleep_for,
        &is_active,
    );

    assert!(sent);
    assert_eq!(&*sleeps.borrow(), &[55]);
}

#[test]
fn double_cycle_sends_gap_then_long_hold() {
    let events = RefCell::new(Vec::new());
    let sleeps = RefCell::new(Vec::new());
    let mut press = || events.borrow_mut().push("down");
    let mut release = || events.borrow_mut().push("up");
    let mut sleep_for = |duration: Duration| sleeps.borrow_mut().push(duration.as_millis() as u32);
    let is_active = || true;

    let sent = run_click_cycle(
        ClickCyclePlan::double(850, 1_000, 450),
        &mut press,
        &mut release,
        &mut sleep_for,
        &is_active,
    );

    assert!(sent);
    assert_eq!(&*events.borrow(), &["down", "up", "down", "up"]);
    assert_eq!(&*sleeps.borrow(), &[450, 550]);
}

#[test]
fn double_cycle_clamps_gap_and_hold_to_cycle_length() {
    let plan = ClickCyclePlan::double(900, 300, 450);

    assert_eq!(plan.inter_click_gap_ms, 299);
    assert_eq!(plan.second_hold_ms, 1);
}

#[test]
fn stopped_second_hold_releases_button() {
    let events = RefCell::new(Vec::new());
    let active = Cell::new(true);
    let mut press = || events.borrow_mut().push("down");
    let mut release = || events.borrow_mut().push("up");
    let mut sleep_count = 0usize;
    let mut sleep_for = |_| {
        sleep_count += 1;
        if sleep_count == 2 {
            active.set(false);
        }
    };
    let is_active = || active.get();

    let sent = run_click_cycle(
        ClickCyclePlan::double(850, 1_000, 450),
        &mut press,
        &mut release,
        &mut sleep_for,
        &is_active,
    );

    assert!(!sent);
    assert_eq!(&*events.borrow(), &["down", "up", "down", "up"]);
}

#[test]
fn single_plan_fields() {
    let plan = ClickCyclePlan::single(12);
    assert_eq!(plan.kind, ClickCycleKind::Single);
    assert_eq!(plan.first_hold_ms, 12);
    assert_eq!(plan.inter_click_gap_ms, 0);
    assert_eq!(plan.second_hold_ms, 0);
}

#[test]
fn double_plan_with_zero_cycle_has_no_gap_and_no_hold() {
    let plan = ClickCyclePlan::double(40, 0, 10);
    assert_eq!(plan.kind, ClickCycleKind::Double);
    assert_eq!(plan.first_hold_ms, 0);
    assert_eq!(plan.inter_click_gap_ms, 0);
    assert_eq!(plan.second_hold_ms, 0);
}

#[test]
fn double_plan_keeps_short_hold() {
    let plan = ClickCyclePlan::double(100, 1_000, 200);
    assert_eq!(plan.inter_click_gap_ms, 200);
    assert_eq!(plan.second_hold_ms, 100);
}

#[test]
fn uninterrupted_double_cycle_trace() {
    let t = left_button();
    let trace = execute_click_cycle(ClickCyclePlan::double(850, 1_000, 450), t, &vec![]);
    assert_eq!(
        trace,
        vec![
            InputAction::CheckActive,
            InputAction::Press { target: t },
            InputAction::Release { target: t },
            InputAction::Sleep { ms: 450 },
            InputAction::CheckActive,
            InputAction::CheckActive,
            InputAction::Press { target: t },
            InputAction::Sleep { ms: 550 },
            InputAction::CheckActive,
            InputAction::Release { target: t },
            InputAction::Finish { completed: true },
        ]
    );
}

#[test]
fn stop_during_hold_releases_then_finishes() {
    let t = left_button();
    let trace = execute_click_cycle(ClickCyclePlan::single(30), t, &vec![true, false]);
    assert_eq!(
        trace,
        vec![
            InputAction::CheckActive,
            InputAction::Press { target: t },
            InputAction::Sleep { ms: 30 },
            InputAction::CheckActive,
            InputAction::Release { target: t },
            InputAction::Finish { completed: false },
        ]
    );
}

#[test]
fn stop_before_first_press_sends_nothing() {
    let t = left_button();
    let trace = execute_click_cycle(ClickCyclePlan::single(30), t, &vec![false]);
    assert_eq!(trace, vec![InputAction::CheckActive, InputAction::Finish { completed: false }]);
}

#[test]
fn instant_single_cycle_has_no_sleep() {
    let t = left_button();
    let trace = execute_click_cycle(ClickCyclePlan::single(0), t, &vec![]);
    assert_eq!(
        trace,
        vec![
            InputAction::CheckActive,
            InputAction::Press { target: t },
            InputAction::Release { target: t },
            InputAction::Finish { completed: true },
        ]
    );
}

#[test]
fn finished_session_keeps_giving_finish() {
    let mut session = InputSession::new(Vec::new(), Vec::new(), 0);
    assert_eq!(session.step(true), InputAction::Finish { completed: true });
    assert_eq!(session.step(false), InputAction::Finish { completed: true });
}
