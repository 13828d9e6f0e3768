use vstd::prelude::*;

use crate::script::{
    answers_of, held_after, lemma_held_after_concat, lemma_held_after_one, lemma_restores_concat,
    lemma_concat_repeats, lemma_hold_repeats, lemma_quiet_repeats, lemma_restores_check_sleep,
    lemma_single_session, ops_actions, press_ops, release_ops, releases, hold_ops, hold_pattern, runs_repeat, run_repeats, whole_repeats,
    stops_after_check, lemma_stopped_run_shape, restores_held, run_ops, session_ops, InputAction, InputOp, InputSession, InputTarget,
};

verus! {

/// Whether a click cycle sends one click or two.
#[derive(Clone, Copy, Debug, PartialEq, Eq, Structural)]
pub enum ClickCycleKind {
    Single,
    Double,
}

/// Timing of one click cycle: how long each click is held and, for a double
/// click, the gap between the two clicks.
#[derive(Clone, Copy, Debug, PartialEq, Eq, Structural)]
pub struct ClickCyclePlan {
    pub kind: ClickCycleKind,
    pub first_hold_ms: u32,
    pub inter_click_gap_ms: u32,
    pub second_hold_ms: u32,
}

/// `a - b`, or 0 where that would be negative.
pub open spec fn sat_sub(a: int, b: int) -> int {
    if a >= b { a - b } else { 0 }
}

/// The smaller of `a` and `b`.
pub open spec fn min_int(a: int, b: int) -> int {
    if a <= b { a } else { b }
}

/// The gap of a double click, kept shorter than the whole cycle.
pub open spec fn double_gap(cycle_ms: u32, gap_ms: u32) -> int {
    min_int(gap_ms as int, sat_sub(cycle_ms as int, 1))
}

/// The hold of the second click of a double click, kept within what is left
/// of the cycle after the gap.
pub open spec fn double_second_hold(requested_hold_ms: u32, cycle_ms: u32, gap_ms: u32) -> int {
    min_int(requested_hold_ms as int, sat_sub(cycle_ms as int, double_gap(cycle_ms, gap_ms)))
}

impl ClickCyclePlan {
    /// A single click held for `hold_ms`.
    pub fn single(hold_ms: u32) -> (plan: Self)
        ensures
            plan.kind == ClickCycleKind::Single,
            plan.first_hold_ms == hold_ms,
            plan.inter_click_gap_ms == 0,
            plan.second_hold_ms == 0,
    {
        ClickCyclePlan {
            kind: ClickCycleKind::Single,
            first_hold_ms: hold_ms,
            inter_click_gap_ms: 0,
            second_hold_ms: 0,
        }
    }

    /// A double click that fits in `cycle_ms`: an instant first click, a gap
    /// of at most `cycle_ms - 1`, then a second click held for at most what is
    /// left of the cycle.
    pub fn double(requested_hold_ms: u32, cycle_ms: u32, inter_click_gap_ms: u32) -> (plan: Self)
        ensures
            plan.kind == ClickCycleKind::Double,
            plan.first_hold_ms == 0,
            plan.inter_click_gap_ms == double_gap(cycle_ms, inter_click_gap_ms),
            plan.second_hold_ms == double_second_hold(requested_hold_ms, cycle_ms, inter_click_gap_ms),
    {
        let limit = if cycle_ms >= 1 { cycle_ms - 1 } else { 0 };
        let clamped_gap_ms = if inter_click_gap_ms <= limit { inter_click_gap_ms } else { limit };
        let rest = if cycle_ms >= clamped_gap_ms { cycle_ms - clamped_gap_ms } else { 0 };
        let second_hold_ms = if requested_hold_ms <= rest { requested_hold_ms } else { rest };
        ClickCyclePlan {
            kind: ClickCycleKind::Double,
            first_hold_ms: 0,
            inter_click_gap_ms: clamped_gap_ms,
            second_hold_ms,
        }
    }
}

/// Law: a double click fits in its cycle: for a cycle of at least one
/// millisecond the gap is shorter than the cycle and the gap and the second
/// hold together take at most the cycle.
pub proof fn lemma_double_fits_cycle(requested_hold_ms: u32, cycle_ms: u32, gap_ms: u32)
    requires
        cycle_ms >= 1,
    ensures
        double_gap(cycle_ms, gap_ms) < cycle_ms,
        double_gap(cycle_ms, gap_ms) + double_second_hold(requested_hold_ms, cycle_ms, gap_ms) <= cycle_ms,
        double_second_hold(requested_hold_ms, cycle_ms, gap_ms) <= requested_hold_ms,
{
}

/// The ops of one press and release of `target`: check that the run is
/// active, press, hold for `hold_ms` and check again when the hold is not
/// zero, release.
pub open spec fn press_release_ops(hold_ms: u32, target: InputTarget) -> Seq<InputOp> {
    seq![InputOp::CheckActive, InputOp::Press { target }] + (if hold_ms > 0 {
        seq![InputOp::Sleep { ms: hold_ms }, InputOp::CheckActive]
    } else {
        seq![]
    }) + seq![InputOp::Release { target }]
}

/// The ops of one click cycle on `target`: the first click and, for a double
/// click, the gap (followed by a check when it is not zero) and the second
/// click.
pub open spec fn click_cycle_ops(plan: ClickCyclePlan, target: InputTarget) -> Seq<InputOp> {
    press_release_ops(plan.first_hold_ms, target) + if plan.kind == ClickCycleKind::Double {
        (if plan.inter_click_gap_ms > 0 {
            seq![InputOp::Sleep { ms: plan.inter_click_gap_ms }, InputOp::CheckActive]
        } else {
            seq![]
        }) + press_release_ops(plan.second_hold_ms, target)
    } else {
        seq![]
    }
}

/// The ops of one press and release of `target` held for `hold_ms`.
pub fn dispatch_press_release(hold_ms: u32, target: InputTarget) -> (ops: Vec<InputOp>)
    ensures
        ops@ == press_release_ops(hold_ms, target),
{
    let mut ops = Vec::new();
    ops.push(InputOp::CheckActive);
    ops.push(InputOp::Press { target });
    if hold_ms > 0 {
        ops.push(InputOp::Sleep { ms: hold_ms });
        ops.push(InputOp::CheckActive);
    }
    ops.push(InputOp::Release { target });
    proof {
        assert(ops@ =~= press_release_ops(hold_ms, target));
    }
    ops
}

impl ClickCyclePlan {
    /// The ops of one cycle of this plan on `target`.
    pub fn cycle_ops(&self, target: InputTarget) -> (ops: Vec<InputOp>)
        ensures
            ops@ == click_cycle_ops(*self, target),
    {
        let mut ops = dispatch_press_release(self.first_hold_ms, target);
        if self.kind == ClickCycleKind::Double {
            if self.inter_click_gap_ms > 0 {
                ops.push(InputOp::Sleep { ms: self.inter_click_gap_ms });
                ops.push(InputOp::CheckActive);
            }
            let mut second = dispatch_press_release(self.second_hold_ms, target);
            ops.append(&mut second);
            proof {
                assert(ops@ =~= click_cycle_ops(*self, target));
            }
        } else {
            proof {
                assert(ops@ =~= click_cycle_ops(*self, target));
            }
        }
        ops
    }
}

/// Runs one click cycle of `plan` on `target`, taking the answers to its
/// activity checks from `answers` in order (then "active"), and returns the
/// actions it gives; the last is the finish, completed unless a check found
/// the run stopped. The button is pressed and released in whole clicks, at
/// most the plan's clicks and all of them when the cycle completes, and a
/// stopped cycle only releases after the check that stopped it.
pub fn execute_click_cycle(plan: ClickCyclePlan, target: InputTarget, answers: &Vec<bool>) -> (trace: Vec<InputAction>)
    ensures
        trace@ == run_ops(click_cycle_ops(plan, target), Seq::<InputTarget>::empty(), answers_of(answers@), 0),
        whole_repeats(trace@, click_pattern(target), plan_clicks(plan)),
        stops_after_check(trace@),
{
    proof {
        lemma_click_cycle_repeats(plan, target);
        assert(run_repeats(click_cycle_ops(plan, target), click_pattern(target), plan_clicks(plan), answers_of(answers@), 0));
        lemma_stopped_run_shape(click_cycle_ops(plan, target), Seq::<InputTarget>::empty(), answers_of(answers@), 0);
    }
    let ops = plan.cycle_ops(target);
    let ghost unit = ops@;
    let mut session = InputSession::new(ops, Vec::new(), 1);
    proof {
        lemma_single_session(unit, seq![]);
    }
    session.run_with_answers(answers)
}

/// Pressing, doing what leaves held as it is, then releasing, leaves held as
/// it was.
pub proof fn lemma_press_around_restores(target: InputTarget, mid: Seq<InputOp>)
    requires
        restores_held(mid),
    ensures
        restores_held(seq![InputOp::Press { target }] + mid + seq![InputOp::Release { target }]),
{
    let ops = seq![InputOp::Press { target }] + mid + seq![InputOp::Release { target }];
    assert forall|held: Seq<InputTarget>| #[trigger] held_after(held, ops_actions(ops)) == held by {
        let a = seq![InputAction::Press { target }];
        let r = seq![InputAction::Release { target }];
        assert(ops_actions(ops) =~= a + ops_actions(mid) + r);
        lemma_held_after_concat(held, a + ops_actions(mid), r);
        lemma_held_after_concat(held, a, ops_actions(mid));
        lemma_held_after_one(held, InputAction::Press { target });
        lemma_held_after_one(held.push(target), InputAction::Release { target });
        assert(held.push(target).drop_last() =~= held);
    }
}

/// Law: a click cycle releases every button it presses: carried out in full
/// it leaves held what was held before it.
pub proof fn lemma_click_cycle_restores(plan: ClickCyclePlan, target: InputTarget)
    ensures
        restores_held(click_cycle_ops(plan, target)),
{
    let e = Seq::<InputOp>::empty();
    assert(restores_held(e)) by {
        lemma_restores_check_sleep(e);
    }
    lemma_press_release_restores(plan.first_hold_ms, target);
    lemma_press_release_restores(plan.second_hold_ms, target);
    let first = press_release_ops(plan.first_hold_ms, target);
    if plan.kind == ClickCycleKind::Double {
        let gap = if plan.inter_click_gap_ms > 0 {
            seq![InputOp::Sleep { ms: plan.inter_click_gap_ms }, InputOp::CheckActive]
        } else {
            seq![]
        };
        lemma_restores_check_sleep(gap);
        let second = press_release_ops(plan.second_hold_ms, target);
        lemma_restores_concat(gap, second);
        lemma_restores_concat(first, gap + second);
    } else {
        lemma_restores_concat(first, e);
        assert(first + e =~= first);
    }
}

/// A press and release of `target`, preceded by a check, leaves held what
/// was held.
proof fn lemma_press_release_restores(h: u32, target: InputTarget)
    ensures
        restores_held(press_release_ops(h, target)),
{
    let mid = if h > 0 {
        seq![InputOp::Sleep { ms: h }, InputOp::CheckActive]
    } else {
        seq![]
    };
    lemma_restores_check_sleep(mid);
    lemma_press_around_restores(target, mid);
    lemma_restores_check_sleep(seq![InputOp::CheckActive]);
    lemma_restores_concat(
        seq![InputOp::CheckActive],
        seq![InputOp::Press { target }] + mid + seq![InputOp::Release { target }],
    );
    assert(press_release_ops(h, target) =~= seq![InputOp::CheckActive] + (seq![
        InputOp::Press { target },
    ] + mid + seq![InputOp::Release { target }]));
}

/// One click of `target`: press, then release.
pub open spec fn click_pattern(target: InputTarget) -> Seq<InputAction> {
    seq![InputAction::Press { target }, InputAction::Release { target }]
}

/// The clicks of a cycle of `plan`: two for a double click, one for a single.
pub open spec fn plan_clicks(plan: ClickCyclePlan) -> nat {
    if plan.kind == ClickCycleKind::Double {
        2
    } else {
        1
    }
}

/// A press and release of `target`, preceded by a check, presses and
/// releases it whole once, whatever the answers.
proof fn lemma_press_release_repeats(hold_ms: u32, target: InputTarget)
    ensures
        runs_repeat(press_release_ops(hold_ms, target), click_pattern(target), 1),
{
    let ts = seq![target];
    let check = seq![InputOp::CheckActive];
    assert(press_ops(ts) =~= seq![InputOp::Press { target }]);
    assert(ts.drop_last() =~= Seq::<InputTarget>::empty());
    assert(release_ops(ts.drop_last()) =~= Seq::<InputOp>::empty());
    assert(release_ops(ts) =~= seq![InputOp::Release { target }]);
    assert(press_release_ops(hold_ms, target) =~= check + hold_ops(ts, hold_ms));
    assert(releases(ts.drop_last()) =~= Seq::<InputAction>::empty());
    assert(hold_pattern(ts) =~= click_pattern(target));
    lemma_hold_repeats(ts, hold_ms);
    assert forall|i: int| 0 <= i < check.len() implies (#[trigger] check[i] is CheckActive || check[i] is Sleep) by {}
    lemma_quiet_repeats(check, click_pattern(target));
    lemma_restores_check_sleep(check);
    lemma_concat_repeats(check, hold_ops(ts, hold_ms), click_pattern(target), 0, 1);
}

/// Law: whatever the answers to its activity checks, a click cycle presses
/// and releases the button in whole clicks, press then release, never
/// leaving it pressed: at most the plan's clicks, and all of them when the
/// cycle completes.
pub proof fn lemma_click_cycle_repeats(plan: ClickCyclePlan, target: InputTarget)
    ensures
        runs_repeat(click_cycle_ops(plan, target), click_pattern(target), plan_clicks(plan)),
{
    let p = click_pattern(target);
    let first = press_release_ops(plan.first_hold_ms, target);
    lemma_press_release_repeats(plan.first_hold_ms, target);
    lemma_press_release_restores(plan.first_hold_ms, target);
    if plan.kind == ClickCycleKind::Double {
        let gap = if plan.inter_click_gap_ms > 0 {
            seq![InputOp::Sleep { ms: plan.inter_click_gap_ms }, InputOp::CheckActive]
        } else {
            seq![]
        };
        assert forall|i: int| 0 <= i < gap.len() implies (#[trigger] gap[i] is CheckActive || gap[i] is Sleep) by {}
        lemma_quiet_repeats(gap, p);
        lemma_restores_check_sleep(gap);
        let second = press_release_ops(plan.second_hold_ms, target);
        lemma_press_release_repeats(plan.second_hold_ms, target);
        lemma_concat_repeats(gap, second, p, 0, 1);
        lemma_concat_repeats(first, gap + second, p, 1, 1);
        assert(click_cycle_ops(plan, target) =~= first + (gap + second));
    } else {
        let e = Seq::<InputOp>::empty();
        lemma_quiet_repeats(e, p);
        lemma_concat_repeats(first, e, p, 1, 0);
        assert(click_cycle_ops(plan, target) =~= first + e);
    }
}

} // verus!
