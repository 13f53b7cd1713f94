//! The state-machine framework and the execution engine that drives one machine to a
//! terminal state, recording one phase event per transition and bounding the step count.

use vstd::prelude::*;
use crate::ports::{Event, EventRecord, ReasoningEngine};
use crate::runtime::{KernelView, RuntimeCore};

verus! {

/// The kind of a machine state.
#[derive(Debug, Clone, Copy, PartialEq, Eq, Structural)]
pub enum StateKind {
    Initial,
    Normal,
    Waiting,
    TerminalSuccess,
    TerminalFailure,
}

/// The result of advancing a machine one transition.
#[derive(Debug, Clone, PartialEq)]
pub enum StepResult {
    Continue(String),
    Done,
    Failed(String),
}

#[derive(Debug, Clone, PartialEq)]
pub enum MachineError {
    Internal(String),
}

pub open spec fn machine_error_text(e: MachineError) -> Seq<char> {
    match e {
        MachineError::Internal(m) => "machine error: "@ + m@,
    }
}

impl MachineError {
    pub fn message(&self) -> (s: String)
        ensures
            s@ == machine_error_text(*self),
    {
        match self {
            MachineError::Internal(m) => String::from_str("machine error: ").concat(m.as_str()),
        }
    }
}

/// The log `b` continues the log `a`: every record of `a` is kept in place.
pub open spec fn extends(a: Seq<EventRecord>, b: Seq<EventRecord>) -> bool {
    a.len() <= b.len() && b.take(a.len() as int) == a
}

pub proof fn lemma_extends_trans(a: Seq<EventRecord>, b: Seq<EventRecord>, c: Seq<EventRecord>)
    requires
        extends(a, b),
        extends(b, c),
    ensures
        extends(a, c),
{
    assert(c.take(a.len() as int) =~= c.take(b.len() as int).take(a.len() as int));
}

pub proof fn lemma_extends_refl(a: Seq<EventRecord>)
    ensures
        extends(a, a),
{
    assert(a.take(a.len() as int) =~= a);
}

/// A phase state machine. Its `step` performs the current state's work through the
/// kernel and returns the next state; the kernel's log only ever grows.
pub trait Machine {
    /// Whether the machine is held to the specification below: its name, its initial
    /// state and what each step does. A machine proved against them says so; any other
    /// promises only that the log grows.
    open spec fn obeys_machine_spec() -> bool {
        false
    }

    /// The name the phase is recorded under.
    open spec fn spec_name(&self) -> Seq<char> {
        Seq::empty()
    }

    /// The state a run starts in.
    open spec fn spec_initial(&self) -> Seq<char> {
        Seq::empty()
    }

    /// What one step from `state` does: the machine becomes `next`, the kernel goes from
    /// `before` to `after`, and the step returns `r`.
    open spec fn stepped(
        &self,
        next: &Self,
        state: Seq<char>,
        before: KernelView,
        after: KernelView,
        r: Result<StepResult, MachineError>,
    ) -> bool {
        true
    }

    fn name(&self) -> (n: &str)
        ensures
            Self::obeys_machine_spec() ==> n@ == self.spec_name(),
    ;

    fn initial(&self) -> (s: String)
        ensures
            Self::obeys_machine_spec() ==> s@ == self.spec_initial(),
    ;

    fn step<E: ReasoningEngine>(&mut self, state: &str, ctx: &mut RuntimeCore<E>) -> (r: Result<
        StepResult,
        MachineError,
    >)
        requires
            old(ctx).wf(),
        ensures
            final(ctx).wf(),
            extends(old(ctx).log_value(), final(ctx).log_value()),
            final(ctx).autonomy_value() == old(ctx).autonomy_value(),
            Self::obeys_machine_spec() ==> old(self).stepped(&*final(self), state@, old(ctx).kernel(), final(ctx).kernel(), r),
    ;
}

/// One step of a phase with a single working state: from `Idle` it moves to the working
/// state and changes nothing; in the working state it does its work, as `worked` says;
/// any other state is unknown and changes nothing.
pub open spec fn phase_step(
    state: Seq<char>,
    working: Seq<char>,
    before: KernelView,
    after: KernelView,
    r: Result<StepResult, MachineError>,
    worked: bool,
) -> bool {
    &&& state == "Idle"@ ==> after == before && (r matches Ok(StepResult::Continue(n)) && n@ == working)
    &&& state == working ==> worked
    &&& state != "Idle"@ && state != working ==> after == before && (r matches Err(MachineError::Internal(m)) && m@
        == crate::checks::unknown_state_text(state))
}

#[derive(Debug, Clone, PartialEq)]
pub enum PhaseOutcome {
    Success,
    Failed(String),
}

pub open spec fn budget_text() -> Seq<char> {
    "step budget exceeded"@
}

/// The record a step's result is logged with, from state `from` of `phase`, and the
/// outcome it ends the run with: a transition is recorded and continues the run; done
/// closes it successfully; a failure, or an error by its text, fails it.
pub open spec fn step_record(
    phase: Seq<char>,
    from: Seq<char>,
    r: Result<StepResult, MachineError>,
    e: Event,
    o: Option<PhaseOutcome>,
) -> bool {
    match r {
        Ok(StepResult::Continue(next)) => e matches Event::PhaseStateChanged { phase: p, from: f, to: t } && p@
            == phase && f@ == from && t@ == next@ && o is None,
        Ok(StepResult::Done) => e matches Event::PhaseCompleted { phase: p, outcome } && p@ == phase && outcome@
            == "success"@ && o == Some(PhaseOutcome::Success),
        Ok(StepResult::Failed(m)) => e matches Event::PhaseFailed { phase: p, reason } && p@ == phase && reason@
            == m@ && (o matches Some(PhaseOutcome::Failed(w)) && w@ == m@),
        Err(err) => e matches Event::PhaseFailed { phase: p, reason } && p@ == phase && reason@ == machine_error_text(
            err,
        ) && (o matches Some(PhaseOutcome::Failed(w)) && w@ == machine_error_text(err)),
    }
}

/// The record at `at` moves `phase` from state `from` to state `to`.
pub open spec fn transition_at(log: Seq<EventRecord>, at: int, phase: Seq<char>, from: Seq<char>, to: Seq<char>) -> bool {
    log[at].event matches Event::PhaseStateChanged { phase: p, from: f, to: t } && p@ == phase && f@ == from && t@
        == to
}

/// A run's transitions in the log, after its opening record at `open` and before
/// `bound`: the records at `marks`, in order, move the phase through `states`.
pub open spec fn run_trace(
    log: Seq<EventRecord>,
    open: int,
    bound: int,
    phase: Seq<char>,
    marks: Seq<int>,
    states: Seq<Seq<char>>,
) -> bool {
    &&& bound <= log.len()
    &&& states.len() == marks.len() + 1
    &&& forall|i: int| 0 <= i < marks.len() ==> open < #[trigger] marks[i] < bound
    &&& forall|i: int, j: int| 0 <= i < j < marks.len() ==> marks[i] < marks[j]
    &&& forall|i: int| 0 <= i < marks.len() ==> transition_at(log, #[trigger] marks[i], phase, states[i], states[i + 1])
}

/// Record `e` closes a run with outcome `o`: completed for a success, failed with the same
/// reason for a failure.
pub open spec fn closes_with(e: Event, o: PhaseOutcome) -> bool {
    match o {
        PhaseOutcome::Success => e is PhaseCompleted,
        PhaseOutcome::Failed(w) => e matches Event::PhaseFailed { reason, .. } && reason@ == w@,
    }
}

/// A phase marker: it records a run's progress and changes no engineering data.
pub open spec fn phase_event(e: Event) -> bool {
    ||| e is PhaseEntered
    ||| e is PhaseStateChanged
    ||| e is PhaseCompleted
    ||| e is PhaseFailed
}

/// The steps of a run: the `i`-th step took machine `ms[i]` in state `states[i]` and
/// kernel `cs[i]` to machine `ms[i + 1]` and kernel `ds[i]`, returning `rs[i]`, as the
/// machine's own specification says when it is held to one; the engineering state is
/// carried unchanged from the end of one step to the start of the next.
pub open spec fn run_steps<M: Machine>(
    ms: Seq<M>,
    states: Seq<Seq<char>>,
    cs: Seq<KernelView>,
    ds: Seq<KernelView>,
    rs: Seq<Result<StepResult, MachineError>>,
) -> bool {
    &&& ms.len() == rs.len() + 1
    &&& cs.len() == rs.len()
    &&& ds.len() == rs.len()
    &&& states.len() >= rs.len()
    &&& forall|i: int|
        0 <= i < rs.len() ==> (M::obeys_machine_spec() ==> ms[i].stepped(&ms[i + 1], states[i], cs[i], ds[i], #[trigger] rs[i]))
    &&& forall|i: int| 0 <= i < rs.len() - 1 ==> (#[trigger] cs[i + 1]).state_value()@ == ds[i].state_value()@
}

/// A trace before one bound is a trace before any later bound within the log.
proof fn lemma_trace_widen(
    log: Seq<EventRecord>,
    open: int,
    b1: int,
    b2: int,
    phase: Seq<char>,
    marks: Seq<int>,
    states: Seq<Seq<char>>,
)
    requires
        run_trace(log, open, b1, phase, marks, states),
        b1 <= b2 <= log.len(),
    ensures
        run_trace(log, open, b2, phase, marks, states),
{
}

/// A trace stays in a log that grows.
proof fn lemma_trace_grows(
    a: Seq<EventRecord>,
    b: Seq<EventRecord>,
    open: int,
    bound: int,
    phase: Seq<char>,
    marks: Seq<int>,
    states: Seq<Seq<char>>,
)
    requires
        0 <= open,
        extends(a, b),
        run_trace(a, open, bound, phase, marks, states),
    ensures
        run_trace(b, open, bound, phase, marks, states),
{
    assert forall|i: int| 0 <= i < marks.len() implies transition_at(b, #[trigger] marks[i], phase, states[i], states[i + 1]) by {
        assert(b[marks[i]] == b.take(a.len() as int)[marks[i]]);
    }
}

/// Drives one machine to a terminal state.
pub struct ExecutionEngine {
    pub max_steps: u32,
}

impl ExecutionEngine {
    /// A budget of 64 steps.
    pub fn new() -> (e: Self)
        ensures
            e.max_steps == 64,
    {
        ExecutionEngine { max_steps: 64 }
    }

    fn emit_one<E: ReasoningEngine>(ctx: &mut RuntimeCore<E>, e: Event)
        requires
            old(ctx).wf(),
        ensures
            final(ctx).wf(),
            extends(old(ctx).log_value(), final(ctx).log_value()),
            final(ctx).log_value().len() == old(ctx).log_value().len() + 1,
            final(ctx).log_value().last().event == e,
            final(ctx).autonomy_value() == old(ctx).autonomy_value(),
            phase_event(e) ==> final(ctx).state_value()@ == old(ctx).state_value()@,
    {
        let mut v: Vec<Event> = Vec::new();
        v.push(e);
        let ghost es = v@;
        ctx.emit(v);
        proof {
            assert(es.len() == 1);
            assert(ctx.log_value()[old(ctx).log_value().len() + 0int].event == es[0]);
            reveal_with_fuel(crate::state::fold_events, 2);
        }
    }

    /// The record a step's result is logged with, and the outcome it ends the run with:
    /// a transition continues the run, anything else closes it.
    pub fn record_step(phase: &String, from: String, r: Result<StepResult, MachineError>) -> (res: (
        Event,
        Option<PhaseOutcome>,
    ))
        ensures
            step_record(phase@, from@, r, res.0, res.1),
    {
        match r {
            Ok(StepResult::Continue(next)) => (
                Event::PhaseStateChanged { phase: phase.clone(), from, to: next },
                None,
            ),
            Ok(StepResult::Done) => (
                Event::PhaseCompleted { phase: phase.clone(), outcome: String::from_str("success") },
                Some(PhaseOutcome::Success),
            ),
            Ok(StepResult::Failed(reason)) => {
                let kept = reason.clone();
                (Event::PhaseFailed { phase: phase.clone(), reason }, Some(PhaseOutcome::Failed(kept)))
            },
            Err(e) => {
                let reason = e.message();
                let kept = reason.clone();
                (Event::PhaseFailed { phase: phase.clone(), reason }, Some(PhaseOutcome::Failed(kept)))
            },
        }
    }

    /// Runs a machine from its initial state until it is done or fails, at most
    /// `max_steps` steps. The run opens with the phase-entered record under the machine's
    /// name and initial state. Each step is given the current state, starting at the
    /// initial one, and the kernel as the previous step left it; a transition is recorded
    /// and its target becomes the current state, and the first other result closes the
    /// run with the record and outcome `step_record` gives it. Only after `max_steps`
    /// transitions does the run fail with "step budget exceeded". The step results are
    /// those the machine's steps returned, as its specification says when it has one.
    pub fn run<M: Machine, E: ReasoningEngine>(&self, machine: &mut M, ctx: &mut RuntimeCore<E>) -> (o:
        PhaseOutcome)
        requires
            old(ctx).wf(),
        ensures
            final(ctx).wf(),
            extends(old(ctx).log_value(), final(ctx).log_value()),
            final(ctx).log_value().len() >= old(ctx).log_value().len() + 2,
            final(ctx).autonomy_value() == old(ctx).autonomy_value(),
            closes_with(final(ctx).log_value().last().event, o),
            final(ctx).log_value()[old(ctx).log_value().len() as int].event matches Event::PhaseEntered {
                phase,
                state,
            } && (M::obeys_machine_spec() ==> phase@ == old(machine).spec_name() && state@
                == old(machine).spec_initial()) && exists|
                marks: Seq<int>,
                states: Seq<Seq<char>>,
                ms: Seq<M>,
                cs: Seq<KernelView>,
                ds: Seq<KernelView>,
                rs: Seq<Result<StepResult, MachineError>>,
            |
                {
                    &&& #[trigger] run_trace(
                        final(ctx).log_value(),
                        old(ctx).log_value().len() as int,
                        final(ctx).log_value().len() - 1,
                        phase@,
                        marks,
                        states,
                    )
                    &&& states[0] == state@
                    &&& #[trigger] run_steps(ms, states, cs, ds, rs)
                    &&& ms[0] == *old(machine)
                    &&& ms.last() == *final(machine)
                    &&& rs.len() > 0 ==> cs[0].state_value()@ == old(ctx).state_value()@
                        && final(ctx).state_value()@ == ds.last().state_value()@
                    &&& rs.len() == 0 ==> final(ctx).state_value()@ == old(ctx).state_value()@
                    &&& forall|i: int|
                        0 <= i < marks.len() ==> step_record(
                            phase@,
                            states[i],
                            #[trigger] rs[i],
                            final(ctx).log_value()[marks[i]].event,
                            None,
                        )
                    &&& marks.len() <= self.max_steps
                    &&& marks.len() == self.max_steps ==> rs.len() == marks.len() && (final(ctx).log_value().last().event matches Event::PhaseFailed {
                        phase: p,
                        reason,
                    } && p@ == phase@ && reason@ == budget_text() && (o matches PhaseOutcome::Failed(w) && w@
                        == budget_text()))
                    &&& marks.len() < self.max_steps ==> rs.len() == marks.len() + 1 && step_record(
                        phase@,
                        states.last(),
                        rs.last(),
                        final(ctx).log_value().last().event,
                        Some(o),
                    )
                },
    {
        let phase = String::from_str(machine.name());
        let mut state = machine.initial();
        let ghost start = ctx.log_value();
        let ghost p0 = phase@;
        let ghost s0 = state@;
        let ghost st0 = ctx.state_value()@;
        Self::emit_one(ctx, Event::PhaseEntered { phase: phase.clone(), state: state.clone() });
        let ghost entered = ctx.log_value();
        let ghost mut marks: Seq<int> = Seq::empty();
        let ghost mut states: Seq<Seq<char>> = seq![s0];
        let ghost mut ms: Seq<M> = seq![*machine];
        let ghost mut cs: Seq<KernelView> = Seq::empty();
        let ghost mut ds: Seq<KernelView> = Seq::empty();
        let ghost mut rs: Seq<Result<StepResult, MachineError>> = Seq::empty();
        proof {
            lemma_extends_refl(entered);
        }
        let mut k: u32 = 0;
        while k < self.max_steps
            invariant
                ctx.wf(),
                start == old(ctx).log_value(),
                extends(start, ctx.log_value()),
                extends(entered, ctx.log_value()),
                entered.len() == start.len() + 1,
                entered[start.len() as int].event matches Event::PhaseEntered { phase: p, state: q } && p@ == p0
                    && q@ == s0,
                M::obeys_machine_spec() ==> p0 == old(machine).spec_name() && s0 == old(machine).spec_initial(),
                phase@ == p0,
                ctx.autonomy_value() == old(ctx).autonomy_value(),
                run_trace(ctx.log_value(), start.len() as int, ctx.log_value().len() as int, p0, marks, states),
                states[0] == s0,
                states.last() == state@,
                marks.len() == k,
                k <= self.max_steps,
                run_steps(ms, states, cs, ds, rs),
                rs.len() == marks.len(),
                ms[0] == *old(machine),
                ms.last() == *machine,
                st0 == old(ctx).state_value()@,
                rs.len() > 0 ==> cs[0].state_value()@ == st0 && ctx.state_value()@ == ds.last().state_value()@,
                rs.len() == 0 ==> ctx.state_value()@ == st0,
                forall|i: int|
                    0 <= i < marks.len() ==> step_record(p0, states[i], #[trigger] rs[i], ctx.log_value()[marks[i]].event, None),
            decreases self.max_steps - k,
        {
            let ghost before = ctx.log_value();
            let ghost kb = ctx.kernel();
            let ghost mb = *machine;
            let r = machine.step(state.as_str(), ctx);
            let ghost ka = ctx.kernel();
            let ghost ma = *machine;
            let ghost after_step = ctx.log_value();
            proof {
                lemma_extends_trans(start, before, ctx.log_value());
                lemma_extends_trans(entered, before, ctx.log_value());
                lemma_trace_grows(before, after_step, start.len() as int, before.len() as int, p0, marks, states);
            }
            let ghost rg = r;
            let ghost from = state@;
            let next = match &r {
                Ok(StepResult::Continue(n)) => Some(n.clone()),
                _ => None,
            };
            let (event, outcome) = Self::record_step(&phase, state, r);
            let ghost ev = event;
            let ghost mid = ctx.log_value();
            Self::emit_one(ctx, event);
            proof {
                lemma_extends_trans(start, mid, ctx.log_value());
                lemma_extends_trans(entered, mid, ctx.log_value());
                lemma_trace_grows(mid, ctx.log_value(), start.len() as int, before.len() as int, p0, marks, states);
                assert(ctx.log_value()[start.len() as int] == entered[start.len() as int]) by {
                    assert(ctx.log_value().take(entered.len() as int)[start.len() as int] == ctx.log_value()[start.len() as int]);
                }
                assert(phase_event(ev));
                let ms2 = ms.push(ma);
                let cs2 = cs.push(kb);
                let ds2 = ds.push(ka);
                let rs2 = rs.push(rg);
                assert forall|i: int| 0 <= i < rs2.len() && M::obeys_machine_spec() implies (ms2[i].stepped(
                    &ms2[i + 1],
                    states[i],
                    cs2[i],
                    ds2[i],
                    #[trigger] rs2[i],
                )) by {
                    if i < rs.len() {
                        assert(ms2[i] == ms[i] && ms2[i + 1] == ms[i + 1] && cs2[i] == cs[i] && ds2[i] == ds[i] && rs2[i] == rs[i]);
                    } else {
                        assert(ms2[i] == mb);
                    }
                }
                assert forall|i: int| 0 <= i < rs2.len() - 1 implies (#[trigger] cs2[i + 1]).state_value()@ == ds2[i].state_value()@ by {
                    if i < rs.len() - 1 {
                        assert(cs2[i + 1] == cs[i + 1] && ds2[i] == ds[i]);
                    }
                }
                assert forall|i: int| 0 <= i < marks.len() implies step_record(p0, states[i], #[trigger] rs2[i], ctx.log_value()[marks[i]].event, None) by {
                    assert(rs2[i] == rs[i]);
                    assert(ctx.log_value()[marks[i]] == mid[marks[i]]) by {
                        assert(ctx.log_value().take(mid.len() as int)[marks[i]] == ctx.log_value()[marks[i]]);
                    }
                    assert(mid[marks[i]] == before[marks[i]]) by {
                        assert(mid.take(before.len() as int)[marks[i]] == mid[marks[i]]);
                    }
                }
                ms = ms2;
                cs = cs2;
                ds = ds2;
                rs = rs2;
            }
            match outcome {
                Some(o) => {
                    proof {
                        assert(ctx.log_value().last().event == ev);
                        assert(step_record(p0, states.last(), rg, ctx.log_value().last().event, Some(o)));
                        assert(rs.last() == rg);
                        lemma_trace_widen(ctx.log_value(), start.len() as int, before.len() as int, ctx.log_value().len() - 1, p0, marks, states);
                        assert(run_trace(ctx.log_value(), start.len() as int, ctx.log_value().len() - 1, p0, marks, states));
                        assert(run_steps(ms, states, cs, ds, rs));
                    }
                    return o;
                },
                None => {
                    match next {
                        Some(n) => {
                            proof {
                                let at = mid.len() as int;
                                assert(ctx.log_value()[at].event == ev);
                                let m2 = marks.push(at);
                                let s2 = states.push(n@);
                                assert forall|i: int| 0 <= i < m2.len() implies start.len() < #[trigger] m2[i] < ctx.log_value().len() by {
                                    if i < marks.len() {
                                        assert(m2[i] == marks[i]);
                                    }
                                }
                                assert forall|i: int, j: int| 0 <= i < j < m2.len() implies m2[i] < m2[j] by {
                                    if j < marks.len() {
                                        assert(m2[i] == marks[i] && m2[j] == marks[j]);
                                    }
                                }
                                assert forall|i: int| 0 <= i < m2.len() implies transition_at(ctx.log_value(), #[trigger] m2[i], p0, s2[i], s2[i + 1]) by {
                                    if i < marks.len() {
                                        assert(m2[i] == marks[i] && s2[i] == states[i] && s2[i + 1] == states[i + 1]);
                                    } else {
                                        assert(s2[i] == from);
                                    }
                                }
                                assert forall|i: int| 0 <= i < m2.len() implies step_record(p0, s2[i], #[trigger] rs[i], ctx.log_value()[m2[i]].event, None) by {
                                    if i < marks.len() {
                                        assert(m2[i] == marks[i] && s2[i] == states[i]);
                                    } else {
                                        assert(s2[i] == from);
                                        assert(rs[i] == rg);
                                    }
                                }
                                assert forall|i: int| 0 <= i < rs.len() && M::obeys_machine_spec() implies (ms[i].stepped(
                                    &ms[i + 1],
                                    s2[i],
                                    cs[i],
                                    ds[i],
                                    #[trigger] rs[i],
                                )) by {
                                    assert(s2[i] == states[i]);
                                }
                                marks = m2;
                                states = s2;
                            }
                            state = n;
                        },
                        None => {
                            proof {
                                assert(false);
                            }
                            return PhaseOutcome::Success;
                        },
                    }
                },
            }
            k = k + 1;
        }
        let reason = String::from_str("step budget exceeded");
        let ghost mid = ctx.log_value();
        Self::emit_one(ctx, Event::PhaseFailed { phase, reason: reason.clone() });
        proof {
            lemma_extends_trans(start, mid, ctx.log_value());
            lemma_extends_trans(entered, mid, ctx.log_value());
            lemma_trace_grows(mid, ctx.log_value(), start.len() as int, mid.len() as int, p0, marks, states);
            assert(ctx.log_value()[start.len() as int] == ctx.log_value().take(entered.len() as int)[start.len() as int]);
            reveal_strlit("step budget exceeded");
            assert forall|i: int| 0 <= i < marks.len() implies step_record(p0, states[i], #[trigger] rs[i], ctx.log_value()[marks[i]].event, None) by {
                assert(ctx.log_value()[marks[i]] == mid[marks[i]]) by {
                    assert(ctx.log_value().take(mid.len() as int)[marks[i]] == ctx.log_value()[marks[i]]);
                }
            }
        }
        PhaseOutcome::Failed(reason)
    }
}

} // verus!
