//! The rule-check phases the kernel judges itself: ERC over the schematic and BOM
//! verification over the bill of materials.

use vstd::prelude::*;
use crate::domain::Board;
use crate::engines::{
    coverage_findings, drivers_findings, finding_views, lifecycle_findings, undriven_findings,
    BomCoverageRule, BomLifecycleRule, ErcMultipleDriversRule, ErcPowerNetUndrivenRule,
    FindingView, VerificationContext, ViolationFinding,
};
use crate::fsm::{extends, lemma_extends_refl, lemma_extends_trans, phase_step, Machine, MachineError, StepResult};
use crate::gates::{
    blocking_count, close_verification, fresh_findings, gate_count, gate_text, raise_new_findings,
    raised_all, raised_traced, untraceable_text,
};
use crate::ports::{Event, EventRecord, ReasoningEngine};
use crate::rules::{rule_run, KernelRule, VerificationEngine};
use crate::runtime::{KernelView, RuntimeCore};
use crate::state::EngineeringState;
use crate::text::str_equal;

verus! {

/// What a gate does with the findings `fs` of the state `before`: it raises the new
/// findings, then is done when no blocking violation of the rules in `scope` (of any rule,
/// without a scope) remains and fails naming the count otherwise; a new finding without
/// subjects stops it with an error.
pub open spec fn gated_within(
    before: EngineeringState,
    after: EngineeringState,
    fs: Seq<FindingView>,
    scope: Option<Seq<Seq<char>>>,
    r: Result<StepResult, MachineError>,
) -> bool {
    let fresh = fresh_findings(before@.violations, fs);
    let open = gate_count(after@.violations, scope);
    match r {
        Ok(step) => {
            &&& forall|k: int| 0 <= k < fresh.len() ==> (#[trigger] fresh[k]).subjects.len() > 0
            &&& raised_all(before@.violations, after@.violations, fresh)
            &&& raised_traced(after@, before@.violations.len() as int, fresh.len() as int)
            &&& open == 0 ==> step is Done
            &&& open > 0 ==> (step matches StepResult::Failed(m) && m@ == gate_text(open))
        },
        Err(MachineError::Internal(m)) => {
            &&& exists|k: int| 0 <= k < fresh.len() && (#[trigger] fresh[k]).subjects.len() == 0
            &&& m@ == untraceable_text()
        },
    }
}

/// A gate that decided records its milestone last: how many rules ran and how many
/// violations its gate counts open.
pub open spec fn milestone(
    log: Seq<EventRecord>,
    after: EngineeringState,
    rule_count: usize,
    scope: Option<Seq<Seq<char>>>,
    r: Result<StepResult, MachineError>,
) -> bool {
    r is Ok ==> log.last().event == (Event::VerificationCompleted {
        rule_count,
        open_violations: gate_count(after@.violations, scope) as usize,
    })
}

pub open spec fn unknown_state_text(state: Seq<char>) -> Seq<char> {
    "unknown state "@ + state
}

/// The error for a state a machine does not have.
pub fn unknown_state(state: &str) -> (e: MachineError)
    ensures
        e matches MachineError::Internal(m) && m@ == unknown_state_text(state@),
{
    MachineError::Internal(String::from_str("unknown state ").concat(state))
}

pub open spec fn scope_views(scope: Option<Vec<String>>) -> Option<Seq<Seq<char>>> {
    match scope {
        Some(ids) => Some(crate::rules::string_views(ids@)),
        None => None,
    }
}

/// Raises the findings, records the milestone, and closes its gate over the blocking
/// violations (of the scoped rules, when a scope is given).
pub fn conclude<E: ReasoningEngine>(
    ctx: &mut RuntimeCore<E>,
    findings: &Vec<ViolationFinding>,
    rule_count: usize,
    scope: &Option<Vec<String>>,
) -> (r: Result<StepResult, MachineError>)
    requires
        old(ctx).wf(),
    ensures
        final(ctx).wf(),
        extends(old(ctx).log_value(), final(ctx).log_value()),
        final(ctx).autonomy_value() == old(ctx).autonomy_value(),
        gated_within(old(ctx).state_value(), final(ctx).state_value(), finding_views(findings@), scope_views(*scope), r),
        milestone(final(ctx).log_value(), final(ctx).state_value(), rule_count, scope_views(*scope), r),
{
    let ghost start = ctx.log_value();
    match raise_new_findings(ctx, findings) {
        Ok(()) => {},
        Err(e) => {
            return Err(e);
        },
    }
    let ghost mid = ctx.log_value();
    let step = close_verification(ctx, rule_count, scope);
    proof {
        lemma_extends_trans(start, mid, ctx.log_value());
    }
    Ok(step)
}



/// The ERC findings of a state: undriven power nets, then nets with several drivers.
pub open spec fn erc_findings(st: EngineeringState) -> Seq<FindingView> {
    undriven_findings(st.nets@, st.pins@) + drivers_findings(st.nets@, st.pins@)
}

/// The BOM findings of a state: uncovered components, then end-of-life parts.
pub open spec fn bom_findings(st: EngineeringState) -> Seq<FindingView> {
    coverage_findings(st.components@, st.bom_line_items@) + lifecycle_findings(st.bom_line_items@, st.parts@)
}

fn board_ref(b: &Option<Board>) -> (r: Option<&Board>)
    ensures
        r matches Some(x) ==> b matches Some(y) && *x == y,
        r is None <==> b is None,
{
    match b {
        Some(x) => Some(x),
        None => None,
    }
}

/// What a kernel rule finds in a state.
pub open spec fn state_findings(r: KernelRule, st: EngineeringState) -> Seq<FindingView> {
    match r {
        KernelRule::PowerNetUndriven(_) => undriven_findings(st.nets@, st.pins@),
        KernelRule::MultipleDrivers(_) => drivers_findings(st.nets@, st.pins@),
        KernelRule::BomCoverage(_) => coverage_findings(st.components@, st.bom_line_items@),
        KernelRule::BomLifecycle(_) => lifecycle_findings(st.bom_line_items@, st.parts@),
        KernelRule::UnroutedNet(_) => crate::engines::unrouted_findings(st.nets@, st.tracks@),
    }
}

/// The findings of a rule list over a state, rule by rule.
pub open spec fn state_run(rules: Seq<KernelRule>, st: EngineeringState) -> Seq<FindingView>
    decreases rules.len(),
{
    if rules.len() == 0 {
        Seq::empty()
    } else {
        state_run(rules.drop_last(), st) + state_findings(rules.last(), st)
    }
}

proof fn lemma_state_run(rules: Seq<KernelRule>, st: EngineeringState, ctx: &VerificationContext)
    requires
        ctx.components@ == st.components@,
        ctx.pins@ == st.pins@,
        ctx.nets@ == st.nets@,
        ctx.parts@ == st.parts@,
        ctx.bom_line_items@ == st.bom_line_items@,
        ctx.tracks@ == st.tracks@,
    ensures
        rule_run(rules, ctx) == state_run(rules, st),
    decreases rules.len(),
{
    if rules.len() > 0 {
        lemma_state_run(rules.drop_last(), st, ctx);
    }
}

/// Runs kernel rules over the current state.
pub fn run_on_state<E: ReasoningEngine>(ctx: &RuntimeCore<E>, engine: &VerificationEngine<KernelRule>) -> (r: Vec<
    ViolationFinding,
>)
    ensures
        finding_views(r@) == state_run(engine.registered(), ctx.state_value()),
{
    let st = ctx.state();
    let vctx = VerificationContext {
        requirements: st.requirements.as_slice(),
        constraints: st.constraints.as_slice(),
        components: st.components.as_slice(),
        pins: st.pins.as_slice(),
        nets: st.nets.as_slice(),
        parts: st.parts.as_slice(),
        bom_line_items: st.bom_line_items.as_slice(),
        board: board_ref(&st.board),
        placements: st.placements.as_slice(),
        tracks: st.tracks.as_slice(),
    };
    let r = engine.run(&vctx);
    proof {
        lemma_state_run(engine.registered(), ctx.state_value(), &vctx);
    }
    r
}

/// The verification gate of the schematic correctness loop: the ERC rules over the realized
/// schematic.
pub struct ErcVerificationMachine;

impl ErcVerificationMachine {
    /// The phase's gate scope: its own two rules.
    pub open spec fn scope() -> Option<Seq<Seq<char>>> {
        Some(seq![crate::engines::undriven_rule_id(), crate::engines::drivers_rule_id()])
    }

    /// The ids of the phase's own rules, in evaluation order.
    pub fn rule_ids() -> (v: Vec<String>)
        ensures
            Some(crate::rules::string_views(v@)) == Self::scope(),
    {
        let mut ids: Vec<&'static str> = Vec::new();
        ids.push(ErcPowerNetUndrivenRule::id_text());
        ids.push(ErcMultipleDriversRule::id_text());
        let v = crate::layout::id_list(&ids);
        assert(ids@.map_values(|s: &'static str| s@) =~= seq![crate::engines::undriven_rule_id(), crate::engines::drivers_rule_id()]);
        v
    }

    pub fn new() -> Self {
        ErcVerificationMachine
    }

    /// The phase's engine: undriven power nets, then multiple drivers.
    pub fn engine() -> (e: VerificationEngine<KernelRule>)
        ensures
            e.registered() == seq![
                KernelRule::PowerNetUndriven(ErcPowerNetUndrivenRule),
                KernelRule::MultipleDrivers(ErcMultipleDriversRule),
            ],
    {
        VerificationEngine::new().with_rule(KernelRule::PowerNetUndriven(ErcPowerNetUndrivenRule::new())).with_rule(
            KernelRule::MultipleDrivers(ErcMultipleDriversRule::new()),
        )
    }

    /// The `Verifying` state's work.
    pub fn verify<E: ReasoningEngine>(&self, ctx: &mut RuntimeCore<E>) -> (r: Result<StepResult, MachineError>)
        requires
            old(ctx).wf(),
        ensures
            final(ctx).wf(),
            extends(old(ctx).log_value(), final(ctx).log_value()),
            final(ctx).autonomy_value() == old(ctx).autonomy_value(),
            gated_within(old(ctx).state_value(), final(ctx).state_value(), erc_findings(old(ctx).state_value()), Self::scope(), r),
            milestone(final(ctx).log_value(), final(ctx).state_value(), 2, Self::scope(), r),
    {
        let engine = Self::engine();
        let findings = run_on_state(ctx, &engine);
        proof {
            reveal_with_fuel(state_run, 3);
            assert(engine.registered().drop_last() =~= seq![KernelRule::PowerNetUndriven(ErcPowerNetUndrivenRule)]);
            assert(engine.registered().drop_last().drop_last() =~= Seq::<KernelRule>::empty());
            assert(finding_views(findings@) =~= erc_findings(ctx.state_value()));
        }
        let scope = Some(Self::rule_ids());
        conclude(ctx, &findings, engine.rule_count(), &scope)
    }
}

impl Machine for ErcVerificationMachine {
    open spec fn obeys_machine_spec() -> bool {
        true
    }

    open spec fn spec_name(&self) -> Seq<char> {
        "ErcVerification"@
    }

    open spec fn spec_initial(&self) -> Seq<char> {
        "Idle"@
    }

    open spec fn stepped(
        &self,
        next: &Self,
        state: Seq<char>,
        before: KernelView,
        after: KernelView,
        r: Result<StepResult, MachineError>,
    ) -> bool {
        phase_step(
            state,
            "Verifying"@,
            before,
            after,
            r,
            gated_within(before.state_value(), after.state_value(), erc_findings(before.state_value()), ErcVerificationMachine::scope(), r)
                && milestone(after.log_value(), after.state_value(), 2, ErcVerificationMachine::scope(), r),
        )
    }

    fn name(&self) -> (n: &str)
        ensures
            n@ == "ErcVerification"@,
    {
        "ErcVerification"
    }

    fn initial(&self) -> (s: String)
        ensures
            s@ == "Idle"@,
    {
        String::from_str("Idle")
    }

    fn step<E: ReasoningEngine>(&mut self, state: &str, ctx: &mut RuntimeCore<E>) -> (r: Result<
        StepResult,
        MachineError,
    >)
        ensures
            state@ == "Idle"@ ==> *final(ctx) == *old(ctx) && (r matches Ok(StepResult::Continue(n)) && n@
                == "Verifying"@),
            state@ == "Verifying"@ ==> gated_within(
                old(ctx).state_value(),
                final(ctx).state_value(),
                erc_findings(old(ctx).state_value()),
                ErcVerificationMachine::scope(),
                r,
            ) && milestone(final(ctx).log_value(), final(ctx).state_value(), 2, ErcVerificationMachine::scope(), r),
            state@ != "Idle"@ && state@ != "Verifying"@ ==> *final(ctx) == *old(ctx) && (r matches Err(
                MachineError::Internal(m),
            ) && m@ == unknown_state_text(state@)),
    {
        proof {
            lemma_extends_refl(ctx.log_value());
            reveal_strlit("Idle");
            reveal_strlit("Verifying");
            assert("Idle"@.len() != "Verifying"@.len());
        }
        if str_equal(state, "Idle") {
            Ok(StepResult::Continue(String::from_str("Verifying")))
        } else if str_equal(state, "Verifying") {
            self.verify(ctx)
        } else {
            Err(unknown_state(state))
        }
    }
}

/// The verification gate of the BOM correctness loop: the BOM rules over the schematic and its bill
/// of materials.
pub struct BomVerificationMachine;

impl BomVerificationMachine {
    /// The phase's gate scope: its own two rules.
    pub open spec fn scope() -> Option<Seq<Seq<char>>> {
        Some(seq![crate::engines::coverage_rule_id(), crate::engines::lifecycle_rule_id()])
    }

    /// The ids of the phase's own rules, in evaluation order.
    pub fn rule_ids() -> (v: Vec<String>)
        ensures
            Some(crate::rules::string_views(v@)) == Self::scope(),
    {
        let mut ids: Vec<&'static str> = Vec::new();
        ids.push(BomCoverageRule::id_text());
        ids.push(BomLifecycleRule::id_text());
        let v = crate::layout::id_list(&ids);
        assert(ids@.map_values(|s: &'static str| s@) =~= seq![crate::engines::coverage_rule_id(), crate::engines::lifecycle_rule_id()]);
        v
    }

    pub fn new() -> Self {
        BomVerificationMachine
    }

    /// The phase's engine: component coverage, then part lifecycle.
    pub fn engine() -> (e: VerificationEngine<KernelRule>)
        ensures
            e.registered() == seq![
                KernelRule::BomCoverage(BomCoverageRule),
                KernelRule::BomLifecycle(BomLifecycleRule),
            ],
    {
        VerificationEngine::new().with_rule(KernelRule::BomCoverage(BomCoverageRule::new())).with_rule(
            KernelRule::BomLifecycle(BomLifecycleRule::new()),
        )
    }

    /// The `Verifying` state's work.
    pub fn verify<E: ReasoningEngine>(&self, ctx: &mut RuntimeCore<E>) -> (r: Result<StepResult, MachineError>)
        requires
            old(ctx).wf(),
        ensures
            final(ctx).wf(),
            extends(old(ctx).log_value(), final(ctx).log_value()),
            final(ctx).autonomy_value() == old(ctx).autonomy_value(),
            gated_within(old(ctx).state_value(), final(ctx).state_value(), bom_findings(old(ctx).state_value()), Self::scope(), r),
            milestone(final(ctx).log_value(), final(ctx).state_value(), 2, Self::scope(), r),
    {
        let engine = Self::engine();
        let findings = run_on_state(ctx, &engine);
        proof {
            reveal_with_fuel(state_run, 3);
            assert(engine.registered().drop_last() =~= seq![KernelRule::BomCoverage(BomCoverageRule)]);
            assert(engine.registered().drop_last().drop_last() =~= Seq::<KernelRule>::empty());
            assert(finding_views(findings@) =~= bom_findings(ctx.state_value()));
        }
        let scope = Some(Self::rule_ids());
        conclude(ctx, &findings, engine.rule_count(), &scope)
    }
}

impl Machine for BomVerificationMachine {
    open spec fn obeys_machine_spec() -> bool {
        true
    }

    open spec fn spec_name(&self) -> Seq<char> {
        "BomVerification"@
    }

    open spec fn spec_initial(&self) -> Seq<char> {
        "Idle"@
    }

    open spec fn stepped(
        &self,
        next: &Self,
        state: Seq<char>,
        before: KernelView,
        after: KernelView,
        r: Result<StepResult, MachineError>,
    ) -> bool {
        phase_step(
            state,
            "Verifying"@,
            before,
            after,
            r,
            gated_within(before.state_value(), after.state_value(), bom_findings(before.state_value()), BomVerificationMachine::scope(), r)
                && milestone(after.log_value(), after.state_value(), 2, BomVerificationMachine::scope(), r),
        )
    }

    fn name(&self) -> (n: &str)
        ensures
            n@ == "BomVerification"@,
    {
        "BomVerification"
    }

    fn initial(&self) -> (s: String)
        ensures
            s@ == "Idle"@,
    {
        String::from_str("Idle")
    }

    fn step<E: ReasoningEngine>(&mut self, state: &str, ctx: &mut RuntimeCore<E>) -> (r: Result<
        StepResult,
        MachineError,
    >)
        ensures
            state@ == "Idle"@ ==> *final(ctx) == *old(ctx) && (r matches Ok(StepResult::Continue(n)) && n@
                == "Verifying"@),
            state@ == "Verifying"@ ==> gated_within(
                old(ctx).state_value(),
                final(ctx).state_value(),
                bom_findings(old(ctx).state_value()),
                BomVerificationMachine::scope(),
                r,
            ) && milestone(final(ctx).log_value(), final(ctx).state_value(), 2, BomVerificationMachine::scope(), r),
            state@ != "Idle"@ && state@ != "Verifying"@ ==> *final(ctx) == *old(ctx) && (r matches Err(
                MachineError::Internal(m),
            ) && m@ == unknown_state_text(state@)),
    {
        proof {
            lemma_extends_refl(ctx.log_value());
            reveal_strlit("Idle");
            reveal_strlit("Verifying");
            assert("Idle"@.len() != "Verifying"@.len());
        }
        if str_equal(state, "Idle") {
            Ok(StepResult::Continue(String::from_str("Verifying")))
        } else if str_equal(state, "Verifying") {
            self.verify(ctx)
        } else {
            Err(unknown_state(state))
        }
    }
}

} // verus!
