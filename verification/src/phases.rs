//! Constraint Extraction, Engineering Analysis and Manufacturing Generation, and the
//! kernel's share of the phases whose judgement is geometric or numeric: the choices
//! they make that are not numeric, and how they close.

use vstd::prelude::*;
use crate::compiler::{
    assignment_breach, first_error, ir_error_text, requirement_ir_error, EngineeringIr, IrError,
    ManufacturingIr, RequirementIr,
};
use crate::domain::{
    Constraint, ConstraintKind, ConstraintStatus, EntityId, Placement, ProvenanceLink, RelationType,
    Requirement, RequirementCategory, RequirementView,
};
use crate::effects::lemma_entity_then_links;
use crate::fsm::{extends, lemma_extends_refl, lemma_extends_trans, phase_step, Machine, MachineError, StepResult};
use crate::gates::{blocking_count, gate_count, gate_text};
use crate::lowering::{lower_bom, lower_pcb, pcb_stage};
use crate::ports::{Event, ReasoningEngine};
use crate::protocol::CapabilityRequest;
use crate::runtime::{KernelView, RuntimeCore};
use crate::state::{fold_events, views, StateModel};
use crate::text::{contains_text, decimal, decimal_text, is_blank, lowercased, str_contains, str_equal, to_lowercase};
use crate::units::{Magnitude, PhysicalQuantity, Unit};

verus! {

// ------------------------------------------------------------------------------------
// Constraint Extraction
// ------------------------------------------------------------------------------------

/// Wording that names a lower bound.
pub open spec fn lower_bound_cue(s: Seq<char>) -> bool {
    ||| contains_text(s, "at least"@)
    ||| contains_text(s, "minimum"@)
    ||| contains_text(s, "no less than"@)
    ||| contains_text(s, "not less than"@)
    ||| contains_text(s, ">="@)
    ||| contains_text(s, "\u{2265}"@)
}

/// A lower-bound cue in the lower-cased wording makes a minimum; anything else is an
/// upper bound.
pub open spec fn kind_of(statement: Seq<char>) -> ConstraintKind {
    kind_named(lowercased(statement))
}

/// A lower-bound cue in lower-case wording makes a minimum; anything else is an upper
/// bound.
pub open spec fn kind_named(l: Seq<char>) -> ConstraintKind {
    if lower_bound_cue(l) {
        ConstraintKind::Min
    } else {
        ConstraintKind::Max
    }
}

/// Infers a constraint's comparison sense from a requirement's wording.
pub fn infer_kind(statement: &str) -> (k: ConstraintKind)
    ensures
        k == kind_of(statement@),
{
    let s = to_lowercase(statement);
    kind_from_lowered(s.as_str())
}

/// Infers a constraint's comparison sense from already lower-cased wording.
pub fn kind_from_lowered(t: &str) -> (k: ConstraintKind)
    ensures
        k == kind_named(t@),
{
    if str_contains(t, "at least") || str_contains(t, "minimum") || str_contains(t, "no less than")
        || str_contains(t, "not less than") || str_contains(t, ">=") || str_contains(t, "\u{2265}") {
        ConstraintKind::Min
    } else {
        ConstraintKind::Max
    }
}

pub open spec fn operator_text(k: ConstraintKind) -> Seq<char> {
    match k {
        ConstraintKind::Max => "<="@,
        ConstraintKind::Min => ">="@,
        ConstraintKind::Equal => "=="@,
    }
}

/// Renders a physical quantity as text (its magnitude and unit symbol).
pub trait QuantityFormat {
    fn format(&self, q: &PhysicalQuantity) -> String;
}

/// The requirement has a typed target and no constraint yet derives from it.
pub open spec fn extractable(r: RequirementView, existing: Seq<Constraint>) -> bool {
    &&& r.targets.len() > 0
    &&& !exists|k: int| 0 <= k < existing.len() && (#[trigger] existing[k]).subject_requirement == r.id
}

/// The requirements a constraint is committed for, in order: extractable, with an id.
pub open spec fn extracted(rs: Seq<RequirementView>, existing: Seq<Constraint>) -> Seq<RequirementView>
    decreases rs.len(),
{
    if rs.len() == 0 {
        Seq::empty()
    } else {
        let e = extracted(rs.drop_last(), existing);
        if extractable(rs.last(), existing) && rs.last().id.0 != 0 {
            e.push(rs.last())
        } else {
            e
        }
    }
}

/// `c` is the constraint derived from requirement `r`: bounded by its first target, in
/// the sense its wording names, with a statement quoting it.
pub open spec fn derived_from(c: Constraint, r: RequirementView) -> bool {
    &&& c.subject_requirement == r.id
    &&& c.source == r.id
    &&& c.bound == r.targets[0]
    &&& c.kind == kind_of(r.statement@)
    &&& c.status == ConstraintStatus::Active
    &&& exists|t: Seq<char>|
        c.statement@ == r.statement@ + " (value "@ + operator_text(c.kind) + " "@ + t + ")"@
}

/// Derives a constraint from every requirement with a typed target that has none yet.
pub struct ConstraintExtractionMachine<F: QuantityFormat> {
    format: F,
}

fn has_constraint_for(existing: &Vec<Constraint>, id: EntityId) -> (r: bool)
    ensures
        r == exists|k: int| 0 <= k < existing@.len() && (#[trigger] existing@[k]).subject_requirement == id,
{
    let n = existing.len();
    let mut i: usize = 0;
    while i < n
        invariant
            n == existing@.len(),
            i <= n,
            forall|k: int| 0 <= k < i ==> (#[trigger] existing@[k]).subject_requirement != id,
        decreases n - i,
    {
        if existing[i].subject_requirement == id {
            assert(existing@[i as int].subject_requirement == id);
            return true;
        }
        i = i + 1;
    }
    false
}

/// What extraction did: one constraint derived per extractable requirement, appended in
/// requirement order, and one link per constraint recording that it derives from its
/// requirement, appended in the same order; nothing else changed, and the count recorded.
pub open spec fn constraints_extracted(
    c0: KernelView,
    c1: KernelView,
    count: usize,
) -> bool {
    let s0 = c0.state_value()@;
    let s1 = c1.state_value()@;
    let ex = extracted(s0.requirements, s0.constraints);
    &&& count == ex.len()
    &&& s1.constraints.len() == s0.constraints.len() + ex.len()
    &&& s1.constraints.take(s0.constraints.len() as int) == s0.constraints
    &&& forall|k: int| 0 <= k < ex.len() ==> derived_from(#[trigger] s1.constraints[s0.constraints.len() + k], ex[k])
    &&& forall|k: int|
        0 <= k < ex.len() ==> crate::schematic::derived(s1, (#[trigger] s1.constraints[s0.constraints.len() + k]).id, ex[k].id)
    &&& s1.requirements == s0.requirements
    &&& s1 == (StateModel { constraints: s1.constraints, links: s1.links, ..s0 })
    &&& s1.links.len() == s0.links.len() + ex.len()
    &&& s1.links.take(s0.links.len() as int) == s0.links
    &&& forall|k: int|
        0 <= k < ex.len() ==> crate::agents::derives(
            #[trigger] s1.links[s0.links.len() + k],
            s1.constraints[s0.constraints.len() + k].id,
            ex[k].id,
        )
    &&& c1.log_value().last().event == (Event::ConstraintsExtracted { count })
}

impl<F: QuantityFormat> ConstraintExtractionMachine<F> {
    /// The formatter the machine renders constraint bounds with.
    pub closed spec fn formatter(&self) -> F {
        self.format
    }

    pub fn new(format: F) -> (m: Self)
        ensures
            m.formatter() == format,
    {
        ConstraintExtractionMachine { format }
    }

    /// The `Extracting` state's work: commit one constraint per extractable requirement
    /// and record how many were committed.
    pub fn extract<E: ReasoningEngine>(&self, ctx: &mut RuntimeCore<E>) -> (count: usize)
        requires
            old(ctx).wf(),
        ensures
            final(ctx).wf(),
            extends(old(ctx).log_value(), final(ctx).log_value()),
            final(ctx).autonomy_value() == old(ctx).autonomy_value(),
            constraints_extracted(old(ctx).kernel(), final(ctx).kernel(), count),
    {
        let ghost s0 = ctx.state_value()@;
        let reqs = ctx.requirements();
        let existing = ctx.constraints();
        let ghost rv = views(reqs@);
        let mut committed: usize = 0;
        proof {
            lemma_extends_refl(ctx.log_value());
            assert(rv.take(0) =~= Seq::<RequirementView>::empty());
            assert(s0.constraints.take(s0.constraints.len() as int) =~= s0.constraints);
        }
        let n = reqs.len();
        let mut i: usize = 0;
        while i < n
            invariant
                ctx.wf(),
                extends(old(ctx).log_value(), ctx.log_value()),
                ctx.autonomy_value() == old(ctx).autonomy_value(),
                s0 == old(ctx).state_value()@,
                rv == views(reqs@),
                rv == s0.requirements,
                existing@ == s0.constraints,
                n == reqs@.len(),
                i <= n,
                committed <= i,
                committed == extracted(rv.take(i as int), s0.constraints).len(),
                ctx.state_value()@.requirements == s0.requirements,
                ctx.state_value()@.constraints.len() == s0.constraints.len() + committed,
                ctx.state_value()@.constraints.take(s0.constraints.len() as int) == s0.constraints,
                forall|k: int|
                    0 <= k < committed ==> derived_from(
                        #[trigger] ctx.state_value()@.constraints[s0.constraints.len() + k],
                        extracted(rv.take(i as int), s0.constraints)[k],
                    ),
                forall|k: int|
                    0 <= k < committed ==> crate::schematic::derived(
                        ctx.state_value()@,
                        (#[trigger] ctx.state_value()@.constraints[s0.constraints.len() + k]).id,
                        extracted(rv.take(i as int), s0.constraints)[k].id,
                    ),
                ctx.state_value()@ == (StateModel {
                    constraints: ctx.state_value()@.constraints,
                    links: ctx.state_value()@.links,
                    ..s0
                }),
                ctx.state_value()@.links.len() == s0.links.len() + committed,
                ctx.state_value()@.links.take(s0.links.len() as int) == s0.links,
                forall|k: int|
                    0 <= k < committed ==> crate::agents::derives(
                        #[trigger] ctx.state_value()@.links[s0.links.len() + k],
                        ctx.state_value()@.constraints[s0.constraints.len() + k].id,
                        extracted(rv.take(i as int), s0.constraints)[k].id,
                    ),
            decreases n - i,
        {
            let req = &reqs[i];
            proof {
                assert(rv.take(i + 1).drop_last() =~= rv.take(i as int));
                assert(rv.take(i + 1).last() == req@);
            }
            if req.targets.len() == 0 || has_constraint_for(&existing, req.id) {
                i = i + 1;
                continue;
            }
            let bound = req.targets[0];
            let kind = infer_kind(req.statement.as_str());
            let op = match kind {
                ConstraintKind::Max => "<=",
                ConstraintKind::Min => ">=",
                ConstraintKind::Equal => "==",
            };
            let shown = self.format.format(&bound);
            let statement = req.statement.clone().concat(" (value ").concat(op).concat(" ").concat(shown.as_str()).concat(
                ")",
            );
            let ghost t = shown@;
            let cid = ctx.fresh_id();
            let constraint = Constraint {
                id: cid,
                statement,
                subject_requirement: req.id,
                kind,
                bound,
                source: req.id,
                status: ConstraintStatus::Active,
            };
            let lid = ctx.fresh_id();
            let mut links: Vec<ProvenanceLink> = Vec::new();
            links.push(ProvenanceLink { id: lid, from: cid, to: req.id, relation: RelationType::DerivedFrom });
            let ghost cv = constraint;
            let ghost lv = links@;
            let ghost before = ctx.state_value()@;
            let ghost lb = ctx.log_value();
            let request = CapabilityRequest::CreateConstraint { constraint, links };
            proof {
                reveal_strlit(" (value ");
                let pre = req.statement@ + " (value "@;
                assert(cv.statement@ == pre + operator_text(kind) + " "@ + t + ")"@);
                assert(cv.statement@[req.statement@.len() + 1int] == '(');
                assert(!is_blank(cv.statement@));
                assert(derived_from(cv, req@));
            }
            match ctx.invoke(request, Ok(())) {
                Ok(_) => {
                    committed = committed + 1;
                    proof {
                        lemma_entity_then_links(before, Event::ConstraintCommitted { constraint: cv }, lv);
                        let after = ctx.state_value()@;
                        assert(after.constraints == before.constraints.push(cv));
                        let ex0 = extracted(rv.take(i as int), s0.constraints);
                        assert(extracted(rv.take(i + 1), s0.constraints) == ex0.push(req@));
                        assert(after.constraints.take(s0.constraints.len() as int) =~= s0.constraints) by {
                            assert(before.constraints.take(s0.constraints.len() as int) == s0.constraints);
                        }
                        assert forall|k: int| 0 <= k < committed implies derived_from(
                            #[trigger] after.constraints[s0.constraints.len() + k],
                            ex0.push(req@)[k],
                        ) by {
                            if k < committed - 1 {
                                assert(after.constraints[s0.constraints.len() + k] == before.constraints[s0.constraints.len() + k]);
                            }
                        }
                        assert(after.links == before.links + lv);
                        assert(after == (StateModel { constraints: after.constraints, links: after.links, ..s0 }));
                        assert(after.links.take(s0.links.len() as int) =~= s0.links) by {
                            assert(before.links.take(s0.links.len() as int) == s0.links);
                        }
                        assert forall|k: int| 0 <= k < committed implies crate::agents::derives(
                            #[trigger] after.links[s0.links.len() + k],
                            after.constraints[s0.constraints.len() + k].id,
                            ex0.push(req@)[k].id,
                        ) by {
                            if k < committed - 1 {
                                assert(after.links[s0.links.len() + k] == before.links[s0.links.len() + k]);
                                assert(after.constraints[s0.constraints.len() + k] == before.constraints[s0.constraints.len() + k]);
                            } else {
                                assert(after.links[s0.links.len() + k] == lv[0]);
                            }
                        }
                        assert forall|k: int| 0 <= k < committed implies crate::schematic::derived(
                            after,
                            (#[trigger] after.constraints[s0.constraints.len() + k]).id,
                            ex0.push(req@)[k].id,
                        ) by {
                            if k < committed - 1 {
                                assert(after.constraints[s0.constraints.len() + k] == before.constraints[s0.constraints.len() + k]);
                                let j = choose|j: int| 0 <= j < before.links.len() && crate::agents::derives(
                                    #[trigger] before.links[j],
                                    before.constraints[s0.constraints.len() + k].id,
                                    ex0[k].id,
                                );
                                assert(after.links[j] == before.links[j]);
                            } else {
                                assert(after.links[before.links.len() as int] == lv[0]);
                            }
                        }
                        assert(extends(lb, ctx.log_value())) by {
                            assert(ctx.log_value().take(lb.len() as int) == lb);
                        }
                        lemma_extends_trans(old(ctx).log_value(), lb, ctx.log_value());
                    }
                },
                Err(_) => {
                    proof {
                        assert(req.id.0 == 0) by {
                            if req.id.0 != 0 {
                                assert(ctx.state_value()@.requirements == before.requirements);
                                assert(before.requirements == s0.requirements);
                                assert(views(ctx.state_value().requirements@)[i as int] == rv[i as int]);
                                assert(views(ctx.state_value().requirements@).len() == ctx.state_value().requirements@.len());
                                assert(i < ctx.state_value().requirements@.len());
                                assert(views(ctx.state_value().requirements@)[i as int] == ctx.state_value().requirements@[i as int]@);
                                assert(rv[i as int] == reqs@[i as int]@);
                                assert(crate::lookup::has_id(ctx.state_value().requirements@, req.id)) by {
                                    assert(ctx.state_value().requirements@[i as int]@.id == req.id);
                                    assert(ctx.state_value().requirements@[i as int].id == req.id);
                                }
                            }
                        }
                    }
                },
            }
            i = i + 1;
        }
        proof {
            assert(rv.take(n as int) =~= rv);
        }
        let mut events: Vec<Event> = Vec::new();
        events.push(Event::ConstraintsExtracted { count: committed });
        let ghost es = events@;
        let ghost l0 = ctx.log_value();
        let ghost sp = ctx.state_value()@;
        ctx.emit(events);
        proof {
            reveal_with_fuel(fold_events, 2);
            assert(ctx.state_value()@ == sp);
            assert(ctx.log_value()[l0.len() + 0int].event == es[0]);
            assert(ctx.log_value().len() == l0.len() + 1);
            assert(extends(l0, ctx.log_value())) by {
                assert(ctx.log_value().take(l0.len() as int) == l0);
            }
            lemma_extends_trans(old(ctx).log_value(), l0, ctx.log_value());
        }
        committed
    }
}

impl<F: QuantityFormat> Machine for ConstraintExtractionMachine<F> {
    open spec fn obeys_machine_spec() -> bool {
        true
    }

    open spec fn spec_name(&self) -> Seq<char> {
        "ConstraintExtraction"@
    }

    open spec fn spec_initial(&self) -> Seq<char> {
        "Idle"@
    }

    open spec fn stepped(
        &self,
        next: &Self,
        state: Seq<char>,
        before: KernelView,
        after: KernelView,
        r: Result<StepResult, MachineError>,
    ) -> bool {
        phase_step(
            state,
            "Extracting"@,
            before,
            after,
            r,
            r == Ok::<StepResult, MachineError>(StepResult::Done) && exists|count: usize| constraints_extracted(before, after, count),
        )
    }

    fn name(&self) -> (n: &str)
        ensures
            n@ == "ConstraintExtraction"@,
    {
        "ConstraintExtraction"
    }

    fn initial(&self) -> (s: String)
        ensures
            s@ == "Idle"@,
    {
        String::from_str("Idle")
    }

    fn step<E: ReasoningEngine>(&mut self, state: &str, ctx: &mut RuntimeCore<E>) -> (r: Result<
        StepResult,
        MachineError,
    >)
        ensures
            state@ == "Idle"@ ==> *final(ctx) == *old(ctx) && (r matches Ok(StepResult::Continue(n)) && n@
                == "Extracting"@),
            state@ == "Extracting"@ ==> r == Ok::<StepResult, MachineError>(StepResult::Done) && exists|count: usize|
                constraints_extracted(old(ctx).kernel(), final(ctx).kernel(), count),
            state@ != "Idle"@ && state@ != "Extracting"@ ==> *final(ctx) == *old(ctx) && (r matches Err(
                MachineError::Internal(m),
            ) && m@ == crate::checks::unknown_state_text(state@)),
    {
        proof {
            lemma_extends_refl(ctx.log_value());
            reveal_strlit("Idle");
            reveal_strlit("Extracting");
            assert("Idle"@.len() != "Extracting"@.len());
        }
        if str_equal(state, "Idle") {
            Ok(StepResult::Continue(String::from_str("Extracting")))
        } else if str_equal(state, "Extracting") {
            self.extract(ctx);
            Ok(StepResult::Done)
        } else {
            Err(crate::checks::unknown_state(state))
        }
    }
}

// ------------------------------------------------------------------------------------
// Engineering Analysis
// ------------------------------------------------------------------------------------

/// Lowers the requirements into the Engineering IR and records the milestone.
pub struct EngineeringAnalysisStub;

/// What lowering did: the state is unchanged; the Engineering IR milestone is recorded when
/// the lowering chain holds, and its first breach is reported otherwise.
pub open spec fn engineering_lowered(
    c0: KernelView,
    c1: KernelView,
    r: Result<StepResult, MachineError>,
) -> bool {
    let s0 = c0.state_value()@;
    &&& c1.state_value()@ == s0
    &&& r is Ok ==> r == Ok::<StepResult, MachineError>(StepResult::Done)
        && crate::lowering::engineering_stage(s0) is None
        && c1.log_value().last().event == (Event::EngineeringIrProduced {
            schema_version: 1,
            block_count: s0.functional_blocks.len() as usize,
        })
    &&& r matches Err(MachineError::Internal(m)) ==> crate::lowering::engineering_stage(s0) == Some(m@)
    &&& r is Err ==> c1.log_value() == c0.log_value()
}

impl EngineeringAnalysisStub {
    pub fn new() -> Self {
        EngineeringAnalysisStub
    }

    /// The `Lowering` state's work.
    pub fn lower<E: ReasoningEngine>(&self, ctx: &mut RuntimeCore<E>) -> (r: Result<StepResult, MachineError>)
        requires
            old(ctx).wf(),
        ensures
            final(ctx).wf(),
            extends(old(ctx).log_value(), final(ctx).log_value()),
            final(ctx).autonomy_value() == old(ctx).autonomy_value(),
            engineering_lowered(old(ctx).kernel(), final(ctx).kernel(), r),
    {
        let ir = match crate::lowering::lower_engineering(ctx) {
            Ok(ir) => ir,
            Err(e) => {
                proof {
                    lemma_extends_refl(ctx.log_value());
                }
                return Err(e);
            },
        };
        let mut events: Vec<Event> = Vec::new();
        events.push(Event::EngineeringIrProduced { schema_version: ir.schema_version, block_count: ir.blocks.len() });
        let ghost es = events@;
        let ghost l0 = ctx.log_value();
        let ghost sp = ctx.state_value()@;
        ctx.emit(events);
        proof {
            reveal_with_fuel(fold_events, 2);
            assert(ctx.state_value()@ == sp);
            assert(ctx.log_value()[l0.len() + 0int].event == es[0]);
            assert(ctx.log_value().len() == l0.len() + 1);
            assert(views(ir.blocks@).len() == ir.blocks@.len());
            assert(extends(l0, ctx.log_value())) by {
                assert(ctx.log_value().take(l0.len() as int) == l0);
            }
        }
        Ok(StepResult::Done)
    }
}

impl Machine for EngineeringAnalysisStub {
    open spec fn obeys_machine_spec() -> bool {
        true
    }

    open spec fn spec_name(&self) -> Seq<char> {
        "EngineeringAnalysis"@
    }

    open spec fn spec_initial(&self) -> Seq<char> {
        "Idle"@
    }

    open spec fn stepped(
        &self,
        next: &Self,
        state: Seq<char>,
        before: KernelView,
        after: KernelView,
        r: Result<StepResult, MachineError>,
    ) -> bool {
        phase_step(state, "Lowering"@, before, after, r, engineering_lowered(before, after, r))
    }

    fn name(&self) -> (n: &str)
        ensures
            n@ == "EngineeringAnalysis"@,
    {
        "EngineeringAnalysis"
    }

    fn initial(&self) -> (s: String)
        ensures
            s@ == "Idle"@,
    {
        String::from_str("Idle")
    }

    fn step<E: ReasoningEngine>(&mut self, state: &str, ctx: &mut RuntimeCore<E>) -> (r: Result<
        StepResult,
        MachineError,
    >)
        ensures
            state@ == "Idle"@ ==> *final(ctx) == *old(ctx) && (r matches Ok(StepResult::Continue(n)) && n@
                == "Lowering"@),
            state@ == "Lowering"@ ==> engineering_lowered(old(ctx).kernel(), final(ctx).kernel(), r),
            state@ != "Idle"@ && state@ != "Lowering"@ ==> *final(ctx) == *old(ctx) && (r matches Err(
                MachineError::Internal(m),
            ) && m@ == crate::checks::unknown_state_text(state@)),
    {
        proof {
            lemma_extends_refl(ctx.log_value());
            reveal_strlit("Idle");
            reveal_strlit("Lowering");
            assert("Idle"@.len() != "Lowering"@.len());
        }
        if str_equal(state, "Idle") {
            Ok(StepResult::Continue(String::from_str("Lowering")))
        } else if str_equal(state, "Lowering") {
            self.lower(ctx)
        } else {
            Err(crate::checks::unknown_state(state))
        }
    }
}

// ------------------------------------------------------------------------------------
// Manufacturing Generation
// ------------------------------------------------------------------------------------

pub open spec fn release_block_text(open: nat) -> Seq<char> {
    "blocked: "@ + decimal(open) + " open blocking violation(s) remain across the design"@
}

/// Why the manufacturing join fails, if it does: the BOM chain, then the PCB chain, then
/// the join of the two.
pub open spec fn release_stage(s: StateModel) -> Option<Seq<char>> {
    match crate::lowering::bom_stage(s) {
        Some(m) => Some(m),
        None => crate::lowering::pcb_stage(s),
    }
}

/// The first placement the manufacturing join cannot resolve to a sourced part.
pub open spec fn join_error(s: StateModel) -> Option<IrError> {
    first_error(s.placements, |p: Placement| assignment_breach(s.components, s.bom_line_items, s.parts, p))
}

/// What generation did: the state is unchanged; the join of layout and bill of materials
/// is recorded when both chains and the join hold, and the first breach is reported
/// otherwise, with nothing recorded.
pub open spec fn generated(
    c0: KernelView,
    c1: KernelView,
    r: Result<StepResult, MachineError>,
) -> bool {
    let s0 = c0.state_value()@;
    &&& c1.state_value()@ == s0
    &&& (release_stage(s0) matches Some(m) ==> (r matches Err(MachineError::Internal(x)) && x@ == m))
    &&& (release_stage(s0) is None && join_error(s0) is Some) ==> (r matches Err(MachineError::Internal(x)) && x@
        == ir_error_text(join_error(s0)->0))
    &&& release_stage(s0) is None && join_error(s0) is None ==> r == Ok::<StepResult, MachineError>(StepResult::Done)
        && c1.log_value().last().event == (Event::ManufacturingGenerated {
        schema_version: 1,
        place_count: s0.placements.len() as usize,
        copper_count: s0.tracks.len() as usize,
        line_item_count: s0.bom_line_items.len() as usize,
    })
    &&& r is Err ==> c1.log_value() == c0.log_value()
}

/// The release gate: no blocking violation may remain anywhere in the design, then the
/// routed layout and the bill of materials are joined into the Manufacturing IR.
pub struct ManufacturingGenerationMachine;

impl ManufacturingGenerationMachine {
    pub fn new() -> Self {
        ManufacturingGenerationMachine
    }

    /// The `CheckingGate` state's decision.
    pub fn check_gate<E: ReasoningEngine>(&self, ctx: &RuntimeCore<E>) -> (r: StepResult)
        ensures
            ({
                let open = blocking_count(ctx.state_value()@.violations);
                &&& open == 0 ==> (r matches StepResult::Continue(n) && n@ == "Generating"@)
                &&& open > 0 ==> (r matches StepResult::Failed(m) && m@ == release_block_text(open))
            }),
    {
        let vs = ctx.violations();
        let open = crate::gates::count_blocking_all(&vs);
        if open > 0 {
            StepResult::Failed(String::from_str("blocked: ").concat(decimal_text(open as u64).as_str()).concat(
                " open blocking violation(s) remain across the design",
            ))
        } else {
            StepResult::Continue(String::from_str("Generating"))
        }
    }

    /// The `Generating` state's work: the join and the release milestone.
    pub fn generate<E: ReasoningEngine>(&self, ctx: &mut RuntimeCore<E>) -> (r: Result<StepResult, MachineError>)
        requires
            old(ctx).wf(),
        ensures
            final(ctx).wf(),
            extends(old(ctx).log_value(), final(ctx).log_value()),
            final(ctx).autonomy_value() == old(ctx).autonomy_value(),
            generated(old(ctx).kernel(), final(ctx).kernel(), r),
    {
        proof {
            lemma_extends_refl(ctx.log_value());
        }
        let bom = match lower_bom(ctx) {
            Ok(ir) => ir,
            Err(e) => {
                return Err(e);
            },
        };
        let pcb = match lower_pcb(ctx) {
            Ok(ir) => ir,
            Err(e) => {
                return Err(e);
            },
        };
        let mfg = match ManufacturingIr::project(&pcb, &bom) {
            Ok(ir) => ir,
            Err(e) => {
                return Err(MachineError::Internal(e.message()));
            },
        };
        let mut events: Vec<Event> = Vec::new();
        events.push(Event::ManufacturingGenerated {
            schema_version: mfg.schema_version,
            place_count: mfg.assignments.len(),
            copper_count: mfg.copper.len(),
            line_item_count: mfg.line_items.len(),
        });
        let ghost es = events@;
        let ghost l0 = ctx.log_value();
        let ghost sp = ctx.state_value()@;
        ctx.emit(events);
        proof {
            reveal_with_fuel(fold_events, 2);
            assert(ctx.state_value()@ == sp);
            assert(ctx.log_value()[l0.len() + 0int].event == es[0]);
            assert(ctx.log_value().len() == l0.len() + 1);
            assert(extends(l0, ctx.log_value())) by {
                assert(ctx.log_value().take(l0.len() as int) == l0);
            }
        }
        Ok(StepResult::Done)
    }
}

impl Machine for ManufacturingGenerationMachine {
    open spec fn obeys_machine_spec() -> bool {
        true
    }

    open spec fn spec_name(&self) -> Seq<char> {
        "ManufacturingGeneration"@
    }

    open spec fn spec_initial(&self) -> Seq<char> {
        "Idle"@
    }

    open spec fn stepped(
        &self,
        next: &Self,
        state: Seq<char>,
        before: KernelView,
        after: KernelView,
        r: Result<StepResult, MachineError>,
    ) -> bool {
        &&& state == "Idle"@ ==> after == before && (r matches Ok(StepResult::Continue(n)) && n@ == "CheckingGate"@)
        &&& state == "CheckingGate"@ ==> after == before && ({
            let open = blocking_count(before.state_value()@.violations);
            &&& open == 0 ==> (r matches Ok(StepResult::Continue(n)) && n@ == "Generating"@)
            &&& open > 0 ==> (r matches Ok(StepResult::Failed(m)) && m@ == release_block_text(open))
        })
        &&& state == "Generating"@ ==> generated(before, after, r)
        &&& state != "Idle"@ && state != "CheckingGate"@ && state != "Generating"@ ==> after == before && (r matches Err(
            MachineError::Internal(m),
        ) && m@ == crate::checks::unknown_state_text(state))
    }

    fn name(&self) -> (n: &str)
        ensures
            n@ == "ManufacturingGeneration"@,
    {
        "ManufacturingGeneration"
    }

    fn initial(&self) -> (s: String)
        ensures
            s@ == "Idle"@,
    {
        String::from_str("Idle")
    }

    fn step<E: ReasoningEngine>(&mut self, state: &str, ctx: &mut RuntimeCore<E>) -> (r: Result<
        StepResult,
        MachineError,
    >)
        ensures
            state@ == "Idle"@ ==> *final(ctx) == *old(ctx) && (r matches Ok(StepResult::Continue(n)) && n@
                == "CheckingGate"@),
            state@ == "CheckingGate"@ ==> *final(ctx) == *old(ctx) && ({
                let open = blocking_count(old(ctx).state_value()@.violations);
                &&& open == 0 ==> (r matches Ok(StepResult::Continue(n)) && n@ == "Generating"@)
                &&& open > 0 ==> (r matches Ok(StepResult::Failed(m)) && m@ == release_block_text(open))
            }),
            state@ == "Generating"@ ==> generated(old(ctx).kernel(), final(ctx).kernel(), r),
            state@ != "Idle"@ && state@ != "CheckingGate"@ && state@ != "Generating"@ ==> *final(ctx) == *old(ctx) && (r matches Err(
                MachineError::Internal(m),
            ) && m@ == crate::checks::unknown_state_text(state@)),
    {
        proof {
            lemma_extends_refl(ctx.log_value());
            reveal_strlit("Idle");
            reveal_strlit("CheckingGate");
            reveal_strlit("Generating");
            assert("Idle"@[0] != "CheckingGate"@[0]);
            assert("Idle"@[0] != "Generating"@[0]);
            assert("CheckingGate"@[0] != "Generating"@[0]);
        }
        if str_equal(state, "Idle") {
            Ok(StepResult::Continue(String::from_str("CheckingGate")))
        } else if str_equal(state, "CheckingGate") {
            Ok(self.check_gate(ctx))
        } else if str_equal(state, "Generating") {
            self.generate(ctx)
        } else {
            Err(crate::checks::unknown_state(state))
        }
    }
}

} // verus!
