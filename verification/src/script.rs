use vstd::prelude::*;

verus! {

/// What a press or release acts on.
#[derive(Clone, Copy, Debug, PartialEq, Eq, Structural)]
pub enum InputTarget {
    /// A mouse button, sent with its press flag and its release flag.
    MouseButton { down_flag: u32, up_flag: u32 },
    /// A keyboard key, by its Linux input-event code.
    Key { code: u16 },
    /// The left shift key held around an uppercase letter.
    Shift,
}

/// One step of an input script.
#[derive(Clone, Copy, Debug, PartialEq, Eq, Structural)]
pub enum InputOp {
    /// Ask whether the run is still active; stop if it is not.
    CheckActive,
    Press { target: InputTarget },
    Release { target: InputTarget },
    Sleep { ms: u32 },
}

/// What the driver of a session does next.
#[derive(Clone, Copy, Debug, PartialEq, Eq, Structural)]
pub enum InputAction {
    /// Query whether the run is active and hand the answer to the next step.
    CheckActive,
    Press { target: InputTarget },
    Release { target: InputTarget },
    Sleep { ms: u32 },
    /// The session is over; `completed` is false when it was stopped.
    Finish { completed: bool },
}

/// Where a session stands.
#[derive(Clone, Copy, Debug, PartialEq, Eq, Structural)]
pub enum SessionPhase {
    /// Working through the script.
    Running,
    /// An activity check was issued; its answer comes with the next step.
    AwaitingAnswer,
    /// The run was stopped; what is still held is being released.
    Releasing,
    /// The finish action was given.
    Finished { completed: bool },
}

/// The action that carries out a script op when nothing stops the run.
pub open spec fn op_action(op: InputOp) -> InputAction {
    match op {
        InputOp::CheckActive => InputAction::CheckActive,
        InputOp::Press { target } => InputAction::Press { target },
        InputOp::Release { target } => InputAction::Release { target },
        InputOp::Sleep { ms } => InputAction::Sleep { ms },
    }
}

/// What is still held after `target` is released: the last held input goes
/// when it is the one released.
pub open spec fn release_target(held: Seq<InputTarget>, target: InputTarget) -> Seq<InputTarget> {
    if held.len() > 0 && held.last() == target {
        held.drop_last()
    } else {
        held
    }
}

/// Releases of everything held, the most recently pressed first.
pub open spec fn releases(held: Seq<InputTarget>) -> Seq<InputAction>
    decreases held.len(),
{
    if held.len() == 0 {
        seq![]
    } else {
        seq![InputAction::Release { target: held.last() }] + releases(held.drop_last())
    }
}

/// The actions of a run of `ops`, with `held` pressed at the start and the
/// answers to the activity checks given by `answers` from index `k` on.
/// A negative answer releases everything held and finishes uncompleted.
pub open spec fn run_ops(
    ops: Seq<InputOp>,
    held: Seq<InputTarget>,
    answers: spec_fn(nat) -> bool,
    k: nat,
) -> Seq<InputAction>
    decreases ops.len(),
{
    if ops.len() == 0 {
        seq![InputAction::Finish { completed: true }]
    } else {
        let rest = ops.drop_first();
        match ops[0] {
            InputOp::CheckActive => if answers(k) {
                seq![InputAction::CheckActive] + run_ops(rest, held, answers, k + 1)
            } else {
                seq![InputAction::CheckActive] + releases(held) + seq![
                    InputAction::Finish { completed: false },
                ]
            },
            InputOp::Press { target } => seq![InputAction::Press { target }] + run_ops(
                rest,
                held.push(target),
                answers,
                k,
            ),
            InputOp::Release { target } => seq![InputAction::Release { target }] + run_ops(
                rest,
                release_target(held, target),
                answers,
                k,
            ),
            InputOp::Sleep { ms } => seq![InputAction::Sleep { ms }] + run_ops(
                rest,
                held,
                answers,
                k,
            ),
        }
    }
}

/// The ops of block `i` of a session: the unit, preceded by the separator
/// for every block but the first.
pub open spec fn block(unit: Seq<InputOp>, sep: Seq<InputOp>, i: nat) -> Seq<InputOp> {
    if i == 0 {
        unit
    } else {
        sep + unit
    }
}

/// The ops of blocks `i` up to `count` (exclusive), one after another.
pub open spec fn blocks_from(unit: Seq<InputOp>, sep: Seq<InputOp>, i: nat, count: nat) -> Seq<
    InputOp,
>
    decreases count - i,
{
    if i >= count {
        seq![]
    } else {
        block(unit, sep, i) + blocks_from(unit, sep, i + 1, count)
    }
}

/// `count` copies of `unit` with `sep` between each two.
pub open spec fn session_ops(unit: Seq<InputOp>, sep: Seq<InputOp>, count: nat) -> Seq<InputOp> {
    blocks_from(unit, sep, 0, count)
}

/// A session of one repetition is its unit.
pub proof fn lemma_single_session(unit: Seq<InputOp>, sep: Seq<InputOp>)
    ensures
        session_ops(unit, sep, 1) == unit,
{
    assert(blocks_from(unit, sep, 1, 1) =~= Seq::<InputOp>::empty());
    assert(session_ops(unit, sep, 1) =~= unit);
}

/// The answers that a list gives: its entries in order, then "active".
pub open spec fn answers_of(list: Seq<bool>) -> spec_fn(nat) -> bool {
    |k: nat| if k < list.len() { list[k as int] } else { true }
}

/// A scripted run of inputs, driven one action at a time: `count` repetitions
/// of a unit script with a separator script between repetitions.
pub struct InputSession {
    unit: Vec<InputOp>,
    separator: Vec<InputOp>,
    count: usize,
    index: usize,
    pos: usize,
    held: Vec<InputTarget>,
    phase: SessionPhase,
}

impl InputSession {
    /// The length of block `i` of the session.
    pub closed spec fn block_len(&self, i: nat) -> nat {
        if i == 0 {
            self.unit@.len()
        } else {
            self.separator@.len() + self.unit@.len()
        }
    }

    /// The script ops not yet carried out.
    pub closed spec fn remaining(&self) -> Seq<InputOp> {
        if self.index < self.count {
            block(self.unit@, self.separator@, self.index as nat).skip(self.pos as int)
                + blocks_from(self.unit@, self.separator@, (self.index + 1) as nat, self.count as nat)
        } else {
            seq![]
        }
    }

    /// The inputs pressed and not yet released, in the order of pressing.
    pub closed spec fn held(&self) -> Seq<InputTarget> {
        self.held@
    }

    /// Where the session stands.
    pub closed spec fn phase(&self) -> SessionPhase {
        self.phase
    }

    /// The session's invariant: its position lies within its script.
    pub closed spec fn wf(&self) -> bool {
        &&& self.index <= self.count
        &&& self.index < self.count ==> self.pos <= self.block_len(self.index as nat)
        &&& self.index == self.count ==> self.pos == 0
        &&& self.separator@.len() + self.unit@.len() <= usize::MAX
    }

    /// The actions that the rest of the session gives, for the answers
    /// `answers` to its activity checks from index `k` on.
    pub open spec fn future(&self, answers: spec_fn(nat) -> bool, k: nat) -> Seq<InputAction> {
        match self.phase() {
            SessionPhase::Running => run_ops(self.remaining(), self.held(), answers, k),
            SessionPhase::AwaitingAnswer => if answers(k) {
                run_ops(self.remaining(), self.held(), answers, k + 1)
            } else {
                releases(self.held()) + seq![InputAction::Finish { completed: false }]
            },
            SessionPhase::Releasing => releases(self.held()) + seq![
                InputAction::Finish { completed: false },
            ],
            SessionPhase::Finished { .. } => seq![],
        }
    }

    /// A measure that every step lowers: the session ends after finitely
    /// many steps.
    pub open spec fn measure(&self) -> nat {
        2 * self.remaining().len() + self.held().len() + match self.phase() {
            SessionPhase::Running => 1nat,
            SessionPhase::AwaitingAnswer => 2nat,
            SessionPhase::Releasing => 1nat,
            SessionPhase::Finished { .. } => 0nat,
        }
    }
}

impl InputSession {
    /// A fresh session of `count` repetitions of `unit`, with `separator`
    /// between each two repetitions.
    pub fn new(unit: Vec<InputOp>, separator: Vec<InputOp>, count: usize) -> (s: Self)
        requires
            separator@.len() + unit@.len() <= usize::MAX,
        ensures
            s.wf(),
            s.remaining() == session_ops(unit@, separator@, count as nat),
            s.held() == Seq::<InputTarget>::empty(),
            s.phase() == SessionPhase::Running,
    {
        let s = InputSession { unit, separator, count, index: 0, pos: 0, held: Vec::new(), phase: SessionPhase::Running };
        proof {
            if count > 0 {
                assert(block(s.unit@, s.separator@, 0).skip(0) =~= block(s.unit@, s.separator@, 0));
            }
        }
        s
    }

    fn block_length(&self, i: usize) -> (n: usize)
        requires
            self.wf(),
        ensures
            n == self.block_len(i as nat),
    {
        if i == 0 {
            self.unit.len()
        } else {
            self.separator.len() + self.unit.len()
        }
    }

    /// Moves past finished blocks, so that the position names the next op.
    fn normalize(&mut self)
        requires
            old(self).wf(),
        ensures
            final(self).wf(),
            final(self).remaining() == old(self).remaining(),
            final(self).held() == old(self).held(),
            final(self).phase() == old(self).phase(),
            final(self).unit@ == old(self).unit@,
            final(self).separator@ == old(self).separator@,
            final(self).index < final(self).count ==> final(self).pos < final(self).block_len(
                final(self).index as nat,
            ),
    {
        while self.index < self.count && self.pos >= self.block_length(self.index)
            invariant
                self.wf(),
                self.remaining() == old(self).remaining(),
                self.held() == old(self).held(),
                self.phase() == old(self).phase(),
                self.unit@ == old(self).unit@,
                self.separator@ == old(self).separator@,
            decreases self.count - self.index,
        {
            let ghost before = self.remaining();
            let ghost i = self.index as nat;
            let ghost u = self.unit@;
            let ghost sp = self.separator@;
            proof {
                assert(block(u, sp, i).skip(self.pos as int) =~= Seq::<InputOp>::empty());
                assert(before =~= blocks_from(u, sp, i + 1, self.count as nat));
            }
            self.index = self.index + 1;
            self.pos = 0;
            proof {
                if self.index < self.count {
                    assert(block(u, sp, i + 1).skip(0) =~= block(u, sp, i + 1));
                    assert(self.remaining() =~= blocks_from(u, sp, i + 1, self.count as nat));
                } else {
                    assert(blocks_from(u, sp, i + 1, self.count as nat) =~= Seq::<InputOp>::empty());
                }
            }
        }
    }

    /// The op at the current position.
    fn current_op(&self) -> (op: InputOp)
        requires
            self.wf(),
            self.index < self.count,
            self.pos < self.block_len(self.index as nat),
        ensures
            op == self.remaining()[0],
            self.remaining().len() > 0,
    {
        let ghost b = block(self.unit@, self.separator@, self.index as nat);
        proof {
            assert(b.len() == self.block_len(self.index as nat));
        }
        if self.index > 0 && self.pos < self.separator.len() {
            self.separator[self.pos]
        } else {
            let p = if self.index > 0 { self.pos - self.separator.len() } else { self.pos };
            self.unit[p]
        }
    }

    /// One step of a running session: the next op, or the finish.
    fn running_step(&mut self) -> (action: InputAction)
        requires
            old(self).wf(),
            old(self).phase() == SessionPhase::Running,
        ensures
            final(self).wf(),
            final(self).measure() < old(self).measure(),
            final(self).phase() == SessionPhase::AwaitingAnswer <==> action == InputAction::CheckActive,
            final(self).phase() is Finished <==> action is Finish,
            forall|answers: spec_fn(nat) -> bool, k: nat|
                #[trigger] old(self).future(answers, k) == seq![action] + final(self).future(
                    answers,
                    k,
                ),
    {
        self.normalize();
        if self.index >= self.count {
            self.phase = SessionPhase::Finished { completed: true };
            return InputAction::Finish { completed: true };
        }
        let ghost rem = self.remaining();
        let ghost b = block(self.unit@, self.separator@, self.index as nat);
        let ghost tail = blocks_from(self.unit@, self.separator@, (self.index + 1) as nat, self.count as nat);
        let op = self.current_op();
        self.pos = self.pos + 1;
        proof {
            assert(b.skip(self.pos as int) + tail =~= rem.drop_first());
            assert(self.remaining() == rem.drop_first());
        }
        match op {
            InputOp::CheckActive => {
                self.phase = SessionPhase::AwaitingAnswer;
                InputAction::CheckActive
            },
            InputOp::Press { target } => {
                self.held.push(target);
                InputAction::Press { target }
            },
            InputOp::Release { target } => {
                let n = self.held.len();
                if n > 0 && self.held[n - 1] == target {
                    self.held.pop();
                }
                proof {
                    assert(self.held@ =~= release_target(old(self).held@, target));
                }
                InputAction::Release { target }
            },
            InputOp::Sleep { ms } => InputAction::Sleep { ms },
        }
    }

    /// One step of a stopped session: release the last held input, or finish.
    fn releasing_step(&mut self) -> (action: InputAction)
        requires
            old(self).wf(),
            old(self).phase() == SessionPhase::Releasing,
        ensures
            final(self).wf(),
            final(self).remaining() == old(self).remaining(),
            final(self).measure() < old(self).measure(),
            final(self).phase() != SessionPhase::AwaitingAnswer,
            action != InputAction::CheckActive,
            final(self).phase() is Finished <==> action is Finish,
            forall|answers: spec_fn(nat) -> bool, k: nat|
                #[trigger] old(self).future(answers, k) == seq![action] + final(self).future(
                    answers,
                    k,
                ),
    {
        match self.held.pop() {
            Some(target) => {
                proof {
                    assert(self.held@ =~= old(self).held@.drop_last());
                }
                InputAction::Release { target }
            },
            None => {
                self.phase = SessionPhase::Finished { completed: false };
                InputAction::Finish { completed: false }
            },
        }
    }

    /// Gives the next action of the session. `answer` is whether the run is
    /// still active; it is read only when the previous action was an
    /// activity check. After the finish the session keeps giving it.
    pub fn step(&mut self, answer: bool) -> (action: InputAction)
        requires
            old(self).wf(),
        ensures
            final(self).wf(),
            old(self).phase() is Finished ==> action == (InputAction::Finish {
                completed: old(self).phase()->completed,
            }) && final(self).phase() == old(self).phase(),
            !(old(self).phase() is Finished) ==> final(self).measure() < old(self).measure(),
            !(old(self).phase() is Finished) ==> (final(self).phase() == SessionPhase::AwaitingAnswer
                <==> action == InputAction::CheckActive),
            !(old(self).phase() is Finished) ==> (final(self).phase() is Finished <==> action is Finish),
            !(old(self).phase() is Finished) ==> forall|answers: spec_fn(nat) -> bool, k: nat|
                (old(self).phase() == SessionPhase::AwaitingAnswer ==> answers(k) == answer)
                    ==> #[trigger] old(self).future(answers, k) == seq![action] + final(self).future(
                    answers,
                    if old(self).phase() == SessionPhase::AwaitingAnswer {
                        k + 1
                    } else {
                        k
                    },
                ),
    {
        match self.phase {
            SessionPhase::Finished { completed } => InputAction::Finish { completed },
            SessionPhase::Running => self.running_step(),
            SessionPhase::Releasing => self.releasing_step(),
            SessionPhase::AwaitingAnswer => {
                if answer {
                    self.phase = SessionPhase::Running;
                    let ghost mid = *self;
                    let action = self.running_step();
                    proof {
                        assert forall|answers: spec_fn(nat) -> bool, k: nat|
                            answers(k) == answer implies #[trigger] old(self).future(answers, k)
                            == seq![action] + self.future(answers, k + 1) by {
                            assert(old(self).future(answers, k) == mid.future(answers, k + 1));
                        }
                    }
                    action
                } else {
                    self.phase = SessionPhase::Releasing;
                    let ghost mid = *self;
                    let action = self.releasing_step();
                    proof {
                        assert forall|answers: spec_fn(nat) -> bool, k: nat|
                            answers(k) == answer implies #[trigger] old(self).future(answers, k)
                            == seq![action] + self.future(answers, k + 1) by {
                            assert(old(self).future(answers, k) == mid.future(answers, k + 1));
                        }
                    }
                    action
                }
            },
        }
    }
}

impl InputSession {
    /// Runs the session to its end, answering its activity checks from
    /// `answers` in order and with "active" once the list is used up, and
    /// returns every action it gave, the finish last.
    pub fn run_with_answers(&mut self, answers: &Vec<bool>) -> (trace: Vec<InputAction>)
        requires
            old(self).wf(),
            old(self).phase() == SessionPhase::Running,
        ensures
            trace@ == old(self).future(answers_of(answers@), 0),
    {
        let ghost ans = answers_of(answers@);
        let mut trace: Vec<InputAction> = Vec::new();
        let mut j: usize = 0;
        let ghost mut k: nat = 0;
        let mut awaiting = false;
        loop
            invariant
                self.wf(),
                !(self.phase() is Finished),
                awaiting <==> self.phase() == SessionPhase::AwaitingAnswer,
                j as nat == if k < answers@.len() { k } else { answers@.len() },
                ans == answers_of(answers@),
                trace@ + self.future(ans, k) == old(self).future(ans, 0),
            decreases self.measure(),
        {
            let a = if j < answers.len() { answers[j] } else { true };
            let ghost before = *self;
            let ghost k0 = k;
            let act = self.step(a);
            proof {
                assert(awaiting ==> ans(k0) == a);
                if awaiting {
                    k = k + 1;
                }
                assert(before.future(ans, k0) == seq![act] + self.future(ans, k));
            }
            if awaiting && j < answers.len() {
                j = j + 1;
            }
            let ghost old_trace = trace@;
            trace.push(act);
            proof {
                assert(trace@ + self.future(ans, k) =~= old_trace + (seq![act] + self.future(ans, k)));
            }
            if let InputAction::Finish { .. } = act {
                proof {
                    assert(self.future(ans, k) == Seq::<InputAction>::empty());
                    assert(trace@ =~= trace@ + self.future(ans, k));
                }
                return trace;
            }
            awaiting = matches!(act, InputAction::CheckActive);
        }
    }
}

/// Where the inputs held at `held` stand after `actions`.
pub open spec fn held_after(held: Seq<InputTarget>, actions: Seq<InputAction>) -> Seq<InputTarget>
    decreases actions.len(),
{
    if actions.len() == 0 {
        held
    } else {
        let next = match actions[0] {
            InputAction::Press { target } => held.push(target),
            InputAction::Release { target } => release_target(held, target),
            _ => held,
        };
        held_after(next, actions.drop_first())
    }
}

/// What one action does to the held inputs.
pub open spec fn held_step(held: Seq<InputTarget>, action: InputAction) -> Seq<InputTarget> {
    match action {
        InputAction::Press { target } => held.push(target),
        InputAction::Release { target } => release_target(held, target),
        _ => held,
    }
}

/// One action changes the held inputs as `held_step` says.
pub proof fn lemma_held_after_one(held: Seq<InputTarget>, action: InputAction)
    ensures
        held_after(held, seq![action]) == held_step(held, action),
{
    let a = seq![action];
    assert(a.drop_first() =~= Seq::<InputAction>::empty());
    assert(held_after(held_step(held, action), a.drop_first()) == held_step(held, action));
}

/// The actions of `ops` carried out in full.
pub open spec fn ops_actions(ops: Seq<InputOp>) -> Seq<InputAction> {
    ops.map_values(|op: InputOp| op_action(op))
}

/// Held inputs compose over concatenated actions.
pub proof fn lemma_held_after_concat(held: Seq<InputTarget>, a: Seq<InputAction>, b: Seq<InputAction>)
    ensures
        held_after(held, a + b) == held_after(held_after(held, a), b),
    decreases a.len(),
{
    if a.len() == 0 {
        assert(a + b =~= b);
    } else {
        let next = match a[0] {
            InputAction::Press { target } => held.push(target),
            InputAction::Release { target } => release_target(held, target),
            _ => held,
        };
        assert((a + b).drop_first() =~= a.drop_first() + b);
        lemma_held_after_concat(next, a.drop_first(), b);
    }
}

/// Releasing everything held, most recent first, leaves nothing held.
pub proof fn lemma_releases_clear(held: Seq<InputTarget>)
    ensures
        held_after(held, releases(held)) == Seq::<InputTarget>::empty(),
    decreases held.len(),
{
    if held.len() > 0 {
        let r = releases(held);
        assert(r.drop_first() =~= releases(held.drop_last()));
        lemma_releases_clear(held.drop_last());
    }
}

/// Law: a run in which every activity check finds the run active carries
/// out the whole script, in order, and finishes completed.
pub proof fn lemma_uninterrupted_run(
    ops: Seq<InputOp>,
    held: Seq<InputTarget>,
    answers: spec_fn(nat) -> bool,
    k: nat,
)
    requires
        forall|j: nat| j >= k ==> #[trigger] answers(j),
    ensures
        run_ops(ops, held, answers, k) == ops_actions(ops) + seq![
            InputAction::Finish { completed: true },
        ],
    decreases ops.len(),
{
    if ops.len() == 0 {
        assert(ops_actions(ops) =~= Seq::<InputAction>::empty());
        assert(ops_actions(ops) + seq![InputAction::Finish { completed: true }] =~= seq![
            InputAction::Finish { completed: true },
        ]);
    } else {
        let rest = ops.drop_first();
        assert(ops_actions(ops) =~= seq![op_action(ops[0])] + ops_actions(rest));
        match ops[0] {
            InputOp::CheckActive => {
                assert(answers(k));
                lemma_uninterrupted_run(rest, held, answers, k + 1);
            },
            InputOp::Press { target } => {
                lemma_uninterrupted_run(rest, held.push(target), answers, k);
            },
            InputOp::Release { target } => {
                lemma_uninterrupted_run(rest, release_target(held, target), answers, k);
            },
            InputOp::Sleep { ms } => {
                lemma_uninterrupted_run(rest, held, answers, k);
            },
        }
        assert(run_ops(ops, held, answers, k) =~= ops_actions(ops) + seq![
            InputAction::Finish { completed: true },
        ]);
    }
}

/// Law: whatever the answers to its activity checks, a run ends with one
/// finish action and gives no other. When the run is stopped, nothing it
/// pressed, nor anything held at its start, is left held; when it completes,
/// what is held is what the whole script leaves held.
pub proof fn lemma_run_releases_on_stop(
    ops: Seq<InputOp>,
    held: Seq<InputTarget>,
    answers: spec_fn(nat) -> bool,
    k: nat,
)
    ensures
        run_ops(ops, held, answers, k).len() > 0,
        run_ops(ops, held, answers, k).last() is Finish,
        forall|i: int|
            0 <= i < run_ops(ops, held, answers, k).len() - 1 ==> !(#[trigger] run_ops(
                ops,
                held,
                answers,
                k,
            )[i] is Finish),
        run_ops(ops, held, answers, k).last() == (InputAction::Finish { completed: false })
            ==> held_after(held, run_ops(ops, held, answers, k).drop_last())
            == Seq::<InputTarget>::empty(),
        run_ops(ops, held, answers, k).last() == (InputAction::Finish { completed: true })
            ==> held_after(held, run_ops(ops, held, answers, k).drop_last()) == held_after(
            held,
            ops_actions(ops),
        ),
    decreases ops.len(),
{
    let t = run_ops(ops, held, answers, k);
    if ops.len() == 0 {
        assert(t.drop_last() =~= Seq::<InputAction>::empty());
        assert(ops_actions(ops) =~= Seq::<InputAction>::empty());
    } else {
        let rest = ops.drop_first();
        assert(ops_actions(ops) =~= seq![op_action(ops[0])] + ops_actions(rest));
        match ops[0] {
            InputOp::CheckActive => {
                if answers(k) {
                    lemma_run_releases_on_stop(rest, held, answers, k + 1);
                    let r = run_ops(rest, held, answers, k + 1);
                    assert(t =~= seq![InputAction::CheckActive] + r);
                    assert(t.drop_last() =~= seq![InputAction::CheckActive] + r.drop_last());
                    lemma_held_after_concat(held, seq![InputAction::CheckActive], r.drop_last());
                    lemma_held_after_concat(held, seq![InputAction::CheckActive], ops_actions(rest));
                    lemma_held_after_one(held, InputAction::CheckActive);
                } else {
                    let rel = releases(held);
                    assert(t =~= (seq![InputAction::CheckActive] + rel) + seq![
                        InputAction::Finish { completed: false },
                    ]);
                    assert(t.drop_last() =~= seq![InputAction::CheckActive] + rel);
                    lemma_held_after_concat(held, seq![InputAction::CheckActive], rel);
                    lemma_held_after_one(held, InputAction::CheckActive);
                    lemma_releases_clear(held);
                    assert forall|i: int| 0 <= i < t.len() - 1 implies !(#[trigger] t[i] is Finish) by {
                        lemma_releases_len(held);
                        if i > 0 {
                            lemma_releases_not_finish(held, i - 1);
                            assert(t[i] == rel[i - 1]);
                        }
                    }
                }
            },
            InputOp::Press { target } => {
                let h2 = held.push(target);
                lemma_run_releases_on_stop(rest, h2, answers, k);
                let r = run_ops(rest, h2, answers, k);
                let a = seq![InputAction::Press { target }];
                assert(t =~= a + r);
                assert(t.drop_last() =~= a + r.drop_last());
                lemma_held_after_concat(held, a, r.drop_last());
                lemma_held_after_concat(held, a, ops_actions(rest));
                lemma_held_after_one(held, a[0]);
                assert(a =~= seq![a[0]]);
            },
            InputOp::Release { target } => {
                let h2 = release_target(held, target);
                lemma_run_releases_on_stop(rest, h2, answers, k);
                let r = run_ops(rest, h2, answers, k);
                let a = seq![InputAction::Release { target }];
                assert(t =~= a + r);
                assert(t.drop_last() =~= a + r.drop_last());
                lemma_held_after_concat(held, a, r.drop_last());
                lemma_held_after_concat(held, a, ops_actions(rest));
                lemma_held_after_one(held, a[0]);
                assert(a =~= seq![a[0]]);
            },
            InputOp::Sleep { ms } => {
                lemma_run_releases_on_stop(rest, held, answers, k);
                let r = run_ops(rest, held, answers, k);
                let a = seq![InputAction::Sleep { ms }];
                assert(t =~= a + r);
                assert(t.drop_last() =~= a + r.drop_last());
                lemma_held_after_concat(held, a, r.drop_last());
                lemma_held_after_concat(held, a, ops_actions(rest));
                lemma_held_after_one(held, a[0]);
                assert(a =~= seq![a[0]]);
            },
        }
    }
}

/// Whether carrying out `ops` in full leaves held exactly what was held before,
/// whatever that was.
pub open spec fn restores_held(ops: Seq<InputOp>) -> bool {
    forall|held: Seq<InputTarget>| #[trigger] held_after(held, ops_actions(ops)) == held
}

proof fn lemma_ops_actions_concat(a: Seq<InputOp>, b: Seq<InputOp>)
    ensures
        ops_actions(a + b) == ops_actions(a) + ops_actions(b),
{
    assert(ops_actions(a + b) =~= ops_actions(a) + ops_actions(b));
}

/// Two scripts that each leave held what was held do so one after the other.
pub proof fn lemma_restores_concat(a: Seq<InputOp>, b: Seq<InputOp>)
    requires
        restores_held(a),
        restores_held(b),
    ensures
        restores_held(a + b),
{
    assert forall|held: Seq<InputTarget>| #[trigger] held_after(held, ops_actions(a + b)) == held by {
        lemma_ops_actions_concat(a, b);
        lemma_held_after_concat(held, ops_actions(a), ops_actions(b));
    }
}

proof fn lemma_blocks_restore(unit: Seq<InputOp>, sep: Seq<InputOp>, i: nat, count: nat)
    requires
        restores_held(unit),
        restores_held(sep),
    ensures
        restores_held(blocks_from(unit, sep, i, count)),
    decreases count - i,
{
    if i >= count {
        assert(ops_actions(blocks_from(unit, sep, i, count)) =~= Seq::<InputAction>::empty());
    } else {
        lemma_blocks_restore(unit, sep, i + 1, count);
        if i > 0 {
            lemma_restores_concat(sep, unit);
        }
        lemma_restores_concat(block(unit, sep, i), blocks_from(unit, sep, i + 1, count));
    }
}

/// Law: a session whose unit and separator each release what they press
/// leaves nothing held when it ends, whether it completes or is stopped.
pub proof fn lemma_session_leaves_nothing_held(
    unit: Seq<InputOp>,
    sep: Seq<InputOp>,
    count: nat,
    answers: spec_fn(nat) -> bool,
    k: nat,
)
    requires
        restores_held(unit),
        restores_held(sep),
    ensures
        held_after(
            Seq::<InputTarget>::empty(),
            run_ops(session_ops(unit, sep, count), Seq::<InputTarget>::empty(), answers, k),
        ) == Seq::<InputTarget>::empty(),
{
    let ops = session_ops(unit, sep, count);
    let e = Seq::<InputTarget>::empty();
    let t = run_ops(ops, e, answers, k);
    lemma_blocks_restore(unit, sep, 0, count);
    lemma_run_releases_on_stop(ops, e, answers, k);
    assert(t =~= t.drop_last() + seq![t.last()]);
    lemma_held_after_concat(e, t.drop_last(), seq![t.last()]);
    lemma_held_after_one(held_after(e, t.drop_last()), t.last());
    assert(held_after(e, ops_actions(ops)) == e);
}

/// The releases of held inputs are releases only.
proof fn lemma_releases_not_finish(held: Seq<InputTarget>, i: int)
    requires
        0 <= i < releases(held).len(),
    ensures
        releases(held)[i] is Release,
        releases(held).len() == held.len(),
    decreases held.len(),
{
    if held.len() > 0 {
        if i > 0 {
            lemma_releases_not_finish(held.drop_last(), i - 1);
        } else {
            lemma_releases_len(held.drop_last());
        }
    }
}

proof fn lemma_releases_len(held: Seq<InputTarget>)
    ensures
        releases(held).len() == held.len(),
    decreases held.len(),
{
    if held.len() > 0 {
        lemma_releases_len(held.drop_last());
    }
}

/// Ops that only check and sleep leave held what was held.
pub proof fn lemma_restores_check_sleep(ops: Seq<InputOp>)
    requires
        forall|i: int| 0 <= i < ops.len() ==> (#[trigger] ops[i] is CheckActive || ops[i] is Sleep),
    ensures
        restores_held(ops),
    decreases ops.len(),
{
    assert forall|held: Seq<InputTarget>| #[trigger] held_after(held, ops_actions(ops)) == held by {
        lemma_no_press_keeps_held(held, ops_actions(ops));
    }
}

proof fn lemma_no_press_keeps_held(held: Seq<InputTarget>, actions: Seq<InputAction>)
    requires
        forall|i: int| 0 <= i < actions.len() ==> (#[trigger] actions[i] is CheckActive || actions[i] is Sleep),
    ensures
        held_after(held, actions) == held,
    decreases actions.len(),
{
    if actions.len() > 0 {
        lemma_no_press_keeps_held(held, actions.drop_first());
    }
}

/// The presses and releases among `actions`, in order.
pub open spec fn events(actions: Seq<InputAction>) -> Seq<InputAction>
    decreases actions.len(),
{
    if actions.len() == 0 {
        seq![]
    } else {
        (if actions[0] is Press || actions[0] is Release {
            seq![actions[0]]
        } else {
            seq![]
        }) + events(actions.drop_first())
    }
}

/// The presses and releases of two runs of actions, one after the other.
pub proof fn lemma_events_concat(a: Seq<InputAction>, b: Seq<InputAction>)
    ensures
        events(a + b) == events(a) + events(b),
    decreases a.len(),
{
    if a.len() == 0 {
        assert(a + b =~= b);
        assert(events(a) + events(b) =~= events(b));
    } else {
        assert((a + b).drop_first() =~= a.drop_first() + b);
        assert((a + b)[0] == a[0]);
        lemma_events_concat(a.drop_first(), b);
        let h = if a[0] is Press || a[0] is Release {
            seq![a[0]]
        } else {
            seq![]
        };
        assert(h + (events(a.drop_first()) + events(b)) =~= (h + events(a.drop_first())) + events(b));
    }
}

/// The presses and releases of one action.
pub proof fn lemma_events_one(x: InputAction)
    ensures
        events(seq![x]) == if x is Press || x is Release {
            seq![x]
        } else {
            Seq::<InputAction>::empty()
        },
{
    assert(seq![x].drop_first() =~= Seq::<InputAction>::empty());
    assert(events(seq![x].drop_first()) == Seq::<InputAction>::empty());
    if x is Press || x is Release {
        assert(seq![x] + Seq::<InputAction>::empty() =~= seq![x]);
    } else {
        assert(Seq::<InputAction>::empty() + Seq::<InputAction>::empty() =~= Seq::<InputAction>::empty());
    }
}

/// `pattern` written `m` times, one after another.
pub open spec fn repeated(pattern: Seq<InputAction>, m: nat) -> Seq<InputAction>
    decreases m,
{
    if m == 0 {
        seq![]
    } else {
        repeated(pattern, (m - 1) as nat) + pattern
    }
}

/// `a` copies of a pattern followed by `b` copies are `a + b` copies.
pub proof fn lemma_repeated_add(pattern: Seq<InputAction>, a: nat, b: nat)
    ensures
        repeated(pattern, a) + repeated(pattern, b) == repeated(pattern, a + b),
    decreases b,
{
    if b == 0 {
        assert(repeated(pattern, a) + Seq::<InputAction>::empty() =~= repeated(pattern, a));
    } else {
        lemma_repeated_add(pattern, a, (b - 1) as nat);
        assert(repeated(pattern, a) + (repeated(pattern, (b - 1) as nat) + pattern) =~= (repeated(
            pattern,
            a,
        ) + repeated(pattern, (b - 1) as nat)) + pattern);
        assert((a + b - 1) as nat == (a + (b - 1)) as nat);
    }
}

/// The number of activity checks in `ops`.
pub open spec fn check_count(ops: Seq<InputOp>) -> nat
    decreases ops.len(),
{
    if ops.len() == 0 {
        0
    } else {
        (if ops[0] is CheckActive {
            1nat
        } else {
            0nat
        }) + check_count(ops.drop_first())
    }
}

/// One step of a run: the run of `op` followed by `rest`.
pub proof fn lemma_run_cons(
    op: InputOp,
    rest: Seq<InputOp>,
    held: Seq<InputTarget>,
    answers: spec_fn(nat) -> bool,
    k: nat,
)
    ensures
        run_ops(seq![op] + rest, held, answers, k) == match op {
            InputOp::CheckActive => if answers(k) {
                seq![InputAction::CheckActive] + run_ops(rest, held, answers, k + 1)
            } else {
                seq![InputAction::CheckActive] + releases(held) + seq![
                    InputAction::Finish { completed: false },
                ]
            },
            InputOp::Press { target } => seq![InputAction::Press { target }] + run_ops(
                rest,
                held.push(target),
                answers,
                k,
            ),
            InputOp::Release { target } => seq![InputAction::Release { target }] + run_ops(
                rest,
                release_target(held, target),
                answers,
                k,
            ),
            InputOp::Sleep { ms } => seq![InputAction::Sleep { ms }] + run_ops(rest, held, answers, k),
        },
{
    assert((seq![op] + rest).drop_first() =~= rest);
    assert((seq![op] + rest)[0] == op);
}

/// A run of `a` then `b`: the run of `a` when it is stopped; else the run of
/// `a` without its finish, followed by the run of `b` from what `a` leaves
/// held, with the answers after those that `a` used.
pub proof fn lemma_run_concat(
    a: Seq<InputOp>,
    b: Seq<InputOp>,
    held: Seq<InputTarget>,
    answers: spec_fn(nat) -> bool,
    k: nat,
)
    ensures
        run_ops(a, held, answers, k).last() == (InputAction::Finish { completed: false }) ==> run_ops(
            a + b,
            held,
            answers,
            k,
        ) == run_ops(a, held, answers, k),
        run_ops(a, held, answers, k).last() == (InputAction::Finish { completed: true }) ==> run_ops(
            a + b,
            held,
            answers,
            k,
        ) == run_ops(a, held, answers, k).drop_last() + run_ops(
            b,
            held_after(held, ops_actions(a)),
            answers,
            k + check_count(a),
        ),
    decreases a.len(),
{
    if a.len() == 0 {
        assert(a + b =~= b);
        assert(ops_actions(a) =~= Seq::<InputAction>::empty());
        assert(run_ops(a, held, answers, k).drop_last() =~= Seq::<InputAction>::empty());
        assert(Seq::<InputAction>::empty() + run_ops(b, held, answers, k) =~= run_ops(b, held, answers, k));
    } else {
        let r = a.drop_first();
        let x = a[0];
        assert(a =~= seq![x] + r);
        assert(a + b =~= seq![x] + (r + b));
        lemma_run_cons(x, r, held, answers, k);
        lemma_run_cons(x, r + b, held, answers, k);
        assert(ops_actions(a) =~= seq![op_action(x)] + ops_actions(r));
        lemma_held_after_concat(held, seq![op_action(x)], ops_actions(r));
        lemma_held_after_one(held, op_action(x));
        let h2 = held_step(held, op_action(x));
        let k2 = if x is CheckActive {
            k + 1
        } else {
            k
        };
        if x is CheckActive && !answers(k) {
            let t = seq![InputAction::CheckActive] + releases(held) + seq![
                InputAction::Finish { completed: false },
            ];
            assert(t.last() == InputAction::Finish { completed: false });
        } else {
            lemma_run_concat(r, b, h2, answers, k2);
            lemma_run_releases_on_stop(r, h2, answers, k2);
            let ra = run_ops(r, h2, answers, k2);
            let head = seq![op_action(x)];
            assert(run_ops(a, held, answers, k) == head + ra);
            assert(run_ops(a + b, held, answers, k) == head + run_ops(r + b, h2, answers, k2));
            assert((head + ra).last() == ra.last());
            assert((head + ra).drop_last() =~= head + ra.drop_last());
            assert(check_count(a) == (if x is CheckActive { 1nat } else { 0nat }) + check_count(r));
            if ra.last() == (InputAction::Finish { completed: true }) {
                assert(head + (ra.drop_last() + run_ops(b, held_after(h2, ops_actions(r)), answers, k2 + check_count(r)))
                    =~= (head + ra.drop_last()) + run_ops(b, held_after(h2, ops_actions(r)), answers, k2 + check_count(r)));
                assert(k2 + check_count(r) == k + check_count(a));
            }
        }
    }
}

/// Whether the actions `t` press and release exactly `pattern`, some `m`
/// times over, at most `n` times, and `n` times when `t` completes.
pub open spec fn whole_repeats(t: Seq<InputAction>, pattern: Seq<InputAction>, n: nat) -> bool {
    exists|m: nat|
        #![trigger repeated(pattern, m)]
        m <= n && events(t) == repeated(pattern, m) && (t.last() == (InputAction::Finish {
            completed: true,
        }) ==> m == n)
}

/// Whether the run of `ops` from nothing held, with the answers `answers`
/// from index `k` on, presses and releases `pattern` whole, as
/// `whole_repeats` says.
pub open spec fn run_repeats(
    ops: Seq<InputOp>,
    pattern: Seq<InputAction>,
    n: nat,
    answers: spec_fn(nat) -> bool,
    k: nat,
) -> bool {
    whole_repeats(run_ops(ops, seq![], answers, k), pattern, n)
}

/// Whether the actions `t`, when they end stopped, end with the activity
/// check that found the run stopped followed by releases only.
pub open spec fn stops_after_check(t: Seq<InputAction>) -> bool {
    t.last() == (InputAction::Finish { completed: false }) ==> exists|j: int|
        0 <= j < t.len() - 1 && #[trigger] t[j] is CheckActive && forall|i: int|
            j < i < t.len() - 1 ==> #[trigger] t[i] is Release
}

/// Whether every run of `ops` from nothing held, whatever the answers to its
/// activity checks, presses and releases `pattern` whole, at most `n` times
/// and `n` times when it completes.
pub open spec fn runs_repeat(ops: Seq<InputOp>, pattern: Seq<InputAction>, n: nat) -> bool {
    forall|answers: spec_fn(nat) -> bool, k: nat| #[trigger] run_repeats(ops, pattern, n, answers, k)
}

/// The events of a finish are none.
proof fn lemma_events_drop_finish(t: Seq<InputAction>)
    requires
        t.len() > 0,
        t.last() is Finish,
    ensures
        events(t) == events(t.drop_last()),
{
    assert(t =~= t.drop_last() + seq![t.last()]);
    lemma_events_concat(t.drop_last(), seq![t.last()]);
    lemma_events_one(t.last());
    assert(events(t.drop_last()) + Seq::<InputAction>::empty() =~= events(t.drop_last()));
}

/// A run of ops that only check and sleep, from nothing held, presses and
/// releases nothing.
pub proof fn lemma_quiet_run(ops: Seq<InputOp>, answers: spec_fn(nat) -> bool, k: nat)
    requires
        forall|i: int| 0 <= i < ops.len() ==> (#[trigger] ops[i] is CheckActive || ops[i] is Sleep),
    ensures
        events(run_ops(ops, seq![], answers, k)) == Seq::<InputAction>::empty(),
    decreases ops.len(),
{
    let e = Seq::<InputTarget>::empty();
    let t = run_ops(ops, e, answers, k);
    if ops.len() == 0 {
        lemma_events_one(InputAction::Finish { completed: true });
    } else {
        let r = ops.drop_first();
        assert(ops =~= seq![ops[0]] + r);
        lemma_run_cons(ops[0], r, e, answers, k);
        if ops[0] is CheckActive {
            lemma_events_one(InputAction::CheckActive);
            if answers(k) {
                lemma_quiet_run(r, answers, k + 1);
                lemma_events_concat(seq![InputAction::CheckActive], run_ops(r, e, answers, k + 1));
            } else {
                assert(releases(e) =~= Seq::<InputAction>::empty());
                let f = seq![InputAction::Finish { completed: false }];
                lemma_events_one(f[0]);
                assert(t =~= seq![InputAction::CheckActive] + f);
                lemma_events_concat(seq![InputAction::CheckActive], f);
            }
        } else {
            let ms = ops[0]->ms;
            lemma_events_one(InputAction::Sleep { ms });
            lemma_quiet_run(r, answers, k);
            lemma_events_concat(seq![InputAction::Sleep { ms }], run_ops(r, e, answers, k));
        }
        assert(events(t) =~= Seq::<InputAction>::empty());
    }
}

/// Ops that only check and sleep press and release a pattern no times.
pub proof fn lemma_quiet_repeats(ops: Seq<InputOp>, pattern: Seq<InputAction>)
    requires
        forall|i: int| 0 <= i < ops.len() ==> (#[trigger] ops[i] is CheckActive || ops[i] is Sleep),
    ensures
        runs_repeat(ops, pattern, 0),
{
    assert forall|answers: spec_fn(nat) -> bool, k: nat| #[trigger] run_repeats(ops, pattern, 0, answers, k) by {
        lemma_quiet_run(ops, answers, k);
        assert(repeated(pattern, 0) == Seq::<InputAction>::empty());
    }
}

/// Scripts that press and release a pattern whole, the first of which
/// leaves held what was held, do so one after the other, their counts added.
pub proof fn lemma_concat_repeats(
    a: Seq<InputOp>,
    b: Seq<InputOp>,
    pattern: Seq<InputAction>,
    na: nat,
    nb: nat,
)
    requires
        runs_repeat(a, pattern, na),
        runs_repeat(b, pattern, nb),
        restores_held(a),
    ensures
        runs_repeat(a + b, pattern, na + nb),
{
    let e = Seq::<InputTarget>::empty();
    assert forall|answers: spec_fn(nat) -> bool, k: nat| #[trigger]
        run_repeats(a + b, pattern, na + nb, answers, k) by {
        assert(run_repeats(a, pattern, na, answers, k));
        let ra = run_ops(a, e, answers, k);
        let ma = choose|m: nat|
            #![trigger repeated(pattern, m)]
            m <= na && events(ra) == repeated(pattern, m) && (ra.last() == (InputAction::Finish {
                completed: true,
            }) ==> m == na);
        lemma_run_releases_on_stop(a, e, answers, k);
        lemma_run_concat(a, b, e, answers, k);
        if ra.last() == (InputAction::Finish { completed: false }) {
            assert(repeated(pattern, ma) == repeated(pattern, ma));
        } else {
            assert(ra.last() == (InputAction::Finish { completed: true }));
            assert(held_after(e, ops_actions(a)) == e);
            let kb = k + check_count(a);
            assert(run_repeats(b, pattern, nb, answers, kb));
            let rb = run_ops(b, e, answers, kb);
            let mb = choose|m: nat|
                #![trigger repeated(pattern, m)]
                m <= nb && events(rb) == repeated(pattern, m) && (rb.last() == (InputAction::Finish {
                    completed: true,
                }) ==> m == nb);
            lemma_run_releases_on_stop(b, e, answers, kb);
            lemma_events_drop_finish(ra);
            lemma_events_concat(ra.drop_last(), rb);
            lemma_repeated_add(pattern, ma, mb);
            assert((ra.drop_last() + rb).last() == rb.last());
            assert(repeated(pattern, ma + mb) == repeated(pattern, ma + mb));
        }
    }
}

/// Law: a session of a unit that presses and releases `pattern` whole, `n`
/// times, with separators that only sleep, presses and releases the pattern
/// whole too: at most `n * count` times, and that many when it completes.
pub proof fn lemma_session_repeats(
    unit: Seq<InputOp>,
    sep: Seq<InputOp>,
    pattern: Seq<InputAction>,
    n: nat,
    count: nat,
)
    requires
        runs_repeat(unit, pattern, n),
        restores_held(unit),
        forall|i: int| 0 <= i < sep.len() ==> (#[trigger] sep[i] is Sleep),
    ensures
        runs_repeat(session_ops(unit, sep, count), pattern, n * count),
{
    lemma_blocks_repeat(unit, sep, pattern, n, 0, count);
    assert(n * ((count - 0) as nat) == n * count);
}

proof fn lemma_blocks_repeat(
    unit: Seq<InputOp>,
    sep: Seq<InputOp>,
    pattern: Seq<InputAction>,
    n: nat,
    i: nat,
    count: nat,
)
    requires
        runs_repeat(unit, pattern, n),
        restores_held(unit),
        forall|j: int| 0 <= j < sep.len() ==> (#[trigger] sep[j] is Sleep),
        i <= count,
    ensures
        runs_repeat(blocks_from(unit, sep, i, count), pattern, n * ((count - i) as nat)),
    decreases count - i,
{
    if i >= count {
        assert(blocks_from(unit, sep, i, count) =~= Seq::<InputOp>::empty());
        lemma_quiet_repeats(Seq::<InputOp>::empty(), pattern);
        assert(n * ((count - i) as nat) == 0) by (nonlinear_arith)
            requires
                i >= count,
                i <= count,
        ;
    } else {
        lemma_blocks_repeat(unit, sep, pattern, n, i + 1, count);
        assert forall|j: int| 0 <= j < sep.len() implies (#[trigger] sep[j] is CheckActive || sep[j] is Sleep) by {}
        lemma_restores_check_sleep(sep);
        let b = block(unit, sep, i);
        if i > 0 {
            lemma_quiet_repeats(sep, pattern);
            lemma_concat_repeats(sep, unit, pattern, 0, n);
            lemma_restores_concat(sep, unit);
            assert((0 + n) as nat == n);
        }
        assert(runs_repeat(b, pattern, n));
        assert(restores_held(b));
        lemma_concat_repeats(b, blocks_from(unit, sep, i + 1, count), pattern, n, n * ((count - (i + 1)) as nat));
        assert(n + n * ((count - (i + 1)) as nat) == n * ((count - i) as nat)) by (nonlinear_arith)
            requires
                i < count,
        ;
    }
}

/// Law: a stopped run says so right after the activity check that found the
/// run stopped, and between that check and its finish it only releases.
pub proof fn lemma_stopped_run_shape(
    ops: Seq<InputOp>,
    held: Seq<InputTarget>,
    answers: spec_fn(nat) -> bool,
    k: nat,
)
    ensures
        stops_after_check(run_ops(ops, held, answers, k)),
    decreases ops.len(),
{
    let t = run_ops(ops, held, answers, k);
    lemma_run_releases_on_stop(ops, held, answers, k);
    if ops.len() > 0 && t.last() == (InputAction::Finish { completed: false }) {
        let r = ops.drop_first();
        let x = ops[0];
        assert(ops =~= seq![x] + r);
        lemma_run_cons(x, r, held, answers, k);
        if x is CheckActive && !answers(k) {
            let rel = releases(held);
            assert(t =~= seq![InputAction::CheckActive] + rel + seq![InputAction::Finish { completed: false }]);
            lemma_releases_len(held);
            assert forall|i: int| 0 < i < t.len() - 1 implies #[trigger] t[i] is Release by {
                lemma_releases_not_finish(held, i - 1);
                assert(t[i] == rel[i - 1]);
            }
            assert(t[0] is CheckActive);
        } else {
            let h2 = held_step(held, op_action(x));
            let k2 = if x is CheckActive {
                k + 1
            } else {
                k
            };
            let rt = run_ops(r, h2, answers, k2);
            assert(t == seq![op_action(x)] + rt);
            lemma_stopped_run_shape(r, h2, answers, k2);
            lemma_run_releases_on_stop(r, h2, answers, k2);
            assert(rt.last() == t.last());
            let j = choose|j: int|
                0 <= j < rt.len() - 1 && #[trigger] rt[j] is CheckActive && forall|i: int|
                    j < i < rt.len() - 1 ==> #[trigger] rt[i] is Release;
            assert(t[j + 1] == rt[j]);
            assert forall|i: int| j + 1 < i < t.len() - 1 implies #[trigger] t[i] is Release by {
                assert(t[i] == rt[i - 1]);
            }
        }
    }
}

/// Presses of `targets`, in order.
pub open spec fn press_ops(targets: Seq<InputTarget>) -> Seq<InputOp> {
    targets.map_values(|t: InputTarget| InputOp::Press { target: t })
}

/// Releases of `targets`, the last first.
pub open spec fn release_ops(targets: Seq<InputTarget>) -> Seq<InputOp>
    decreases targets.len(),
{
    if targets.len() == 0 {
        seq![]
    } else {
        seq![InputOp::Release { target: targets.last() }] + release_ops(targets.drop_last())
    }
}

/// A hold of `targets`: press them in order, sleep `hold_ms` and check that
/// the run is active when that is not zero, release them the last first.
pub open spec fn hold_ops(targets: Seq<InputTarget>, hold_ms: u32) -> Seq<InputOp> {
    press_ops(targets) + (if hold_ms > 0 {
        seq![InputOp::Sleep { ms: hold_ms }, InputOp::CheckActive]
    } else {
        seq![]
    }) + release_ops(targets)
}

/// The presses and releases of a whole hold of `targets`.
pub open spec fn hold_pattern(targets: Seq<InputTarget>) -> Seq<InputAction> {
    targets.map_values(|t: InputTarget| InputAction::Press { target: t }) + releases(targets)
}

proof fn lemma_run_presses(
    targets: Seq<InputTarget>,
    rest: Seq<InputOp>,
    held: Seq<InputTarget>,
    answers: spec_fn(nat) -> bool,
    k: nat,
)
    ensures
        run_ops(press_ops(targets) + rest, held, answers, k) == targets.map_values(
            |t: InputTarget| InputAction::Press { target: t },
        ) + run_ops(rest, held + targets, answers, k),
    decreases targets.len(),
{
    let pa = targets.map_values(|t: InputTarget| InputAction::Press { target: t });
    if targets.len() == 0 {
        assert(press_ops(targets) + rest =~= rest);
        assert(held + targets =~= held);
        assert(pa + run_ops(rest, held, answers, k) =~= run_ops(rest, held, answers, k));
    } else {
        let t0 = targets[0];
        let tr = targets.drop_first();
        assert(press_ops(targets) + rest =~= seq![InputOp::Press { target: t0 }] + (press_ops(tr) + rest));
        lemma_run_cons(InputOp::Press { target: t0 }, press_ops(tr) + rest, held, answers, k);
        lemma_run_presses(tr, rest, held.push(t0), answers, k);
        assert(held.push(t0) + tr =~= held + targets);
        let pr = tr.map_values(|t: InputTarget| InputAction::Press { target: t });
        assert(pa =~= seq![InputAction::Press { target: t0 }] + pr);
        assert(seq![InputAction::Press { target: t0 }] + (pr + run_ops(rest, held + targets, answers, k))
            =~= pa + run_ops(rest, held + targets, answers, k));
    }
}

proof fn lemma_run_release_ops(
    targets: Seq<InputTarget>,
    rest: Seq<InputOp>,
    held: Seq<InputTarget>,
    answers: spec_fn(nat) -> bool,
    k: nat,
)
    ensures
        run_ops(release_ops(targets) + rest, held + targets, answers, k) == releases(targets) + run_ops(
            rest,
            held,
            answers,
            k,
        ),
    decreases targets.len(),
{
    if targets.len() == 0 {
        assert(release_ops(targets) + rest =~= rest);
        assert(held + targets =~= held);
        assert(releases(targets) + run_ops(rest, held, answers, k) =~= run_ops(rest, held, answers, k));
    } else {
        let tl = targets.last();
        let td = targets.drop_last();
        assert(release_ops(targets) + rest =~= seq![InputOp::Release { target: tl }] + (release_ops(td) + rest));
        lemma_run_cons(InputOp::Release { target: tl }, release_ops(td) + rest, held + targets, answers, k);
        assert(release_target(held + targets, tl) =~= held + td);
        lemma_run_release_ops(td, rest, held, answers, k);
        assert(seq![InputAction::Release { target: tl }] + (releases(td) + run_ops(rest, held, answers, k))
            =~= releases(targets) + run_ops(rest, held, answers, k));
    }
}

/// Presses and releases only: their events are themselves.
proof fn lemma_events_all(a: Seq<InputAction>)
    requires
        forall|i: int| 0 <= i < a.len() ==> (#[trigger] a[i] is Press || a[i] is Release),
    ensures
        events(a) == a,
    decreases a.len(),
{
    if a.len() > 0 {
        lemma_events_all(a.drop_first());
        assert(seq![a[0]] + a.drop_first() =~= a);
    }
}

/// A whole hold of `targets` is made of presses and releases only.
proof fn lemma_hold_pattern_events(targets: Seq<InputTarget>)
    ensures
        forall|i: int| 0 <= i < hold_pattern(targets).len() ==> (#[trigger] hold_pattern(targets)[i] is Press
            || hold_pattern(targets)[i] is Release),
{
    let pa = targets.map_values(|t: InputTarget| InputAction::Press { target: t });
    lemma_releases_len(targets);
    assert forall|i: int| 0 <= i < hold_pattern(targets).len() implies (#[trigger] hold_pattern(targets)[i] is Press
        || hold_pattern(targets)[i] is Release) by {
        if i >= pa.len() {
            lemma_releases_not_finish(targets, i - pa.len());
        }
    }
}

/// Law: a hold, whatever the answer to its activity check, presses and
/// releases its targets whole, once: pressed in order and released the last
/// first, also when the run is stopped during the hold.
pub proof fn lemma_hold_repeats(targets: Seq<InputTarget>, hold_ms: u32)
    ensures
        runs_repeat(hold_ops(targets, hold_ms), hold_pattern(targets), 1),
{
    let e = Seq::<InputTarget>::empty();
    let pat = hold_pattern(targets);
    let pa = targets.map_values(|t: InputTarget| InputAction::Press { target: t });
    assert(e + targets =~= targets);
    lemma_hold_pattern_events(targets);
    lemma_events_all(pat);
    assert(repeated(pat, 1) =~= pat) by {
        assert(repeated(pat, 0) =~= Seq::<InputAction>::empty());
    }
    assert forall|answers: spec_fn(nat) -> bool, k: nat| #[trigger] run_repeats(
        hold_ops(targets, hold_ms),
        pat,
        1,
        answers,
        k,
    ) by {
        let t = run_ops(hold_ops(targets, hold_ms), e, answers, k);
        let ft = seq![InputAction::Finish { completed: true }];
        let ff = seq![InputAction::Finish { completed: false }];
        lemma_events_one(ft[0]);
        lemma_events_one(ff[0]);
        lemma_events_one(InputAction::CheckActive);
        lemma_events_one(InputAction::Sleep { ms: hold_ms });
        lemma_run_release_ops(targets, Seq::<InputOp>::empty(), e, answers, k);
        lemma_run_release_ops(targets, Seq::<InputOp>::empty(), e, answers, k + 1);
        if hold_ms > 0 {
            let mid = seq![InputOp::Sleep { ms: hold_ms }, InputOp::CheckActive];
            assert(hold_ops(targets, hold_ms) =~= press_ops(targets) + (mid + release_ops(targets)));
            lemma_run_presses(targets, mid + release_ops(targets), e, answers, k);
            assert(mid + release_ops(targets) =~= seq![InputOp::Sleep { ms: hold_ms }] + (seq![
                InputOp::CheckActive,
            ] + release_ops(targets)));
            lemma_run_cons(
                InputOp::Sleep { ms: hold_ms },
                seq![InputOp::CheckActive] + release_ops(targets),
                targets,
                answers,
                k,
            );
            lemma_run_cons(InputOp::CheckActive, release_ops(targets), targets, answers, k);
            assert(release_ops(targets) + Seq::<InputOp>::empty() =~= release_ops(targets));
            let s = seq![InputAction::Sleep { ms: hold_ms }];
            let c = seq![InputAction::CheckActive];
            let fin = if answers(k) { ft } else { ff };
            if answers(k) {
                assert(run_ops(Seq::<InputOp>::empty(), e, answers, k + 1) == ft);
            }
            assert(t =~= pa + (s + (c + (releases(targets) + fin))));
            lemma_events_concat(releases(targets), fin);
            lemma_events_concat(c, releases(targets) + fin);
            lemma_events_concat(s, c + (releases(targets) + fin));
            lemma_events_concat(pa, s + (c + (releases(targets) + fin)));
            assert(pat =~= pa + releases(targets));
            lemma_events_concat(pa, releases(targets));
            assert(events(releases(targets) + fin) =~= events(releases(targets)));
            assert(events(t) =~= pat);
            assert(t.last() == fin[0]);
        } else {
            assert(hold_ops(targets, hold_ms) =~= press_ops(targets) + release_ops(targets));
            lemma_run_presses(targets, release_ops(targets), e, answers, k);
            assert(release_ops(targets) + Seq::<InputOp>::empty() =~= release_ops(targets));
            assert(run_ops(Seq::<InputOp>::empty(), e, answers, k) == ft);
            assert(t =~= pa + (releases(targets) + ft));
            lemma_events_concat(releases(targets), ft);
            lemma_events_concat(pa, releases(targets) + ft);
            lemma_events_concat(pa, releases(targets));
            assert(events(t) =~= pat);
        }
        assert(repeated(pat, 1) == pat);
    }
}

} // verus!
