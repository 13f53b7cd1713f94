use eak::agents::RequirementPlanningMachine;
use eak::checks::{BomVerificationMachine, ErcVerificationMachine};
use eak::clock::{LogicalClock, SeededIdSource};
use eak::domain::{
    Component, ComponentClass, ConstraintKind, EntityId, Part, PartLifecycle, Pin, PinElectricalType, FunctionalBlock, Priority, RelationType, RequirementCategory, ViolationStatus,
    Waiver,
};
use eak::fsm::{ExecutionEngine, Machine, MachineError, PhaseOutcome, StepResult};
use eak::orchestrator::{Orchestrator, WorkflowPlan};
use eak::phases::{infer_kind, kind_from_lowered, EngineeringAnalysisStub};
use eak::schematic::class_from_lowered;
use eak::ports::{
    CandidateRequirement, ReasoningEngine, ReasoningError, ReasoningRequest, ReasoningResponse,
};
use eak::procurement::BomPlanningMachine;
use eak::protocol::{Autonomy, CapabilityRequest};
use eak::runtime::{RunClock, RuntimeCore};
use eak::schematic::SchematicPlanningMachine;
use eak::state::replay;
use eak::units::Magnitude;

fn candidate(statement: &str, category: RequirementCategory, crit: &str) -> CandidateRequirement {
    CandidateRequirement {
        statement: statement.into(),
        category,
        priority: Priority::High,
        acceptance_criterion: crit.into(),
        source_hint: "intent".into(),
        confidence: Magnitude(0.9f64.to_bits()),
        rationale: "stated".into(),
        targets: vec![],
    }
}

/// A reasoner that always answers with the same candidates.
struct Canned(Vec<(&'static str, RequirementCategory, &'static str)>);

impl ReasoningEngine for Canned {
    fn model_id(&self) -> String {
        "canned".into()
    }
    fn request_judgement(&self, _req: &ReasoningRequest) -> Result<ReasoningResponse, ReasoningError> {
        Ok(ReasoningResponse {
            candidates: self.0.iter().map(|(s, c, a)| candidate(s, *c, a)).collect(),
            clarifying_questions: vec![],
            raw: "{}".into(),
        })
    }
}

fn power_and_size() -> Canned {
    Canned(vec![
        (
            "Operating power shall not exceed 5 W",
            RequirementCategory::Electrical,
            "measured input power < 5 W",
        ),
        (
            "Board outline shall fit within 50 x 50 mm",
            RequirementCategory::Mechanical,
            "outline <= 50 mm on each side",
        ),
    ])
}

fn sourced() -> Canned {
    Canned(vec![
        (
            "USB-C connector shall supply 5 V to the board",
            RequirementCategory::Functional,
            "VBUS present at 5 V",
        ),
        (
            "Operating power shall not exceed 5 W",
            RequirementCategory::Electrical,
            "measured input power < 5 W",
        ),
    ])
}

fn load_only() -> Canned {
    Canned(vec![(
        "Microcontroller shall run the sensing firmware",
        RequirementCategory::Electrical,
        "firmware boots and samples",
    )])
}

fn regulated() -> Canned {
    Canned(vec![
        (
            "USB-C connector shall supply 5 V to the board",
            RequirementCategory::Functional,
            "VBUS present at 5 V",
        ),
        (
            "Voltage regulator shall provide a 3.3 V rail",
            RequirementCategory::Functional,
            "3.3 V present at VOUT",
        ),
        (
            "Microcontroller shall run the sensing firmware",
            RequirementCategory::Electrical,
            "firmware boots and samples",
        ),
    ])
}

fn new_core(reasoner: Canned) -> RuntimeCore<Canned> {
    RuntimeCore::new(
        reasoner,
        SeededIdSource::new(7),
        RunClock::Logical(LogicalClock::new()),
        Autonomy::Autonomous,
    )
}

/// The phases these tests sequence, as one machine type for a plan.
enum Phase {
    Requirements(RequirementPlanningMachine),
    Engineering(EngineeringAnalysisStub),
    Schematic(SchematicPlanningMachine),
    Erc(ErcVerificationMachine),
    Bom(BomPlanningMachine),
    BomCheck(BomVerificationMachine),
}

impl Machine for Phase {
    fn name(&self) -> &str {
        match self {
            Phase::Requirements(m) => m.name(),
            Phase::Engineering(m) => m.name(),
            Phase::Schematic(m) => m.name(),
            Phase::Erc(m) => m.name(),
            Phase::Bom(m) => m.name(),
            Phase::BomCheck(m) => m.name(),
        }
    }
    fn initial(&self) -> String {
        match self {
            Phase::Requirements(m) => m.initial(),
            Phase::Engineering(m) => m.initial(),
            Phase::Schematic(m) => m.initial(),
            Phase::Erc(m) => m.initial(),
            Phase::Bom(m) => m.initial(),
            Phase::BomCheck(m) => m.initial(),
        }
    }
    fn step<E: ReasoningEngine>(
        &mut self,
        state: &str,
        ctx: &mut RuntimeCore<E>,
    ) -> Result<StepResult, MachineError> {
        match self {
            Phase::Requirements(m) => m.step(state, ctx),
            Phase::Engineering(m) => m.step(state, ctx),
            Phase::Schematic(m) => m.step(state, ctx),
            Phase::Erc(m) => m.step(state, ctx),
            Phase::Bom(m) => m.step(state, ctx),
            Phase::BomCheck(m) => m.step(state, ctx),
        }
    }
}

fn all_succeeded(results: &[(String, PhaseOutcome)]) -> bool {
    results.iter().all(|(_, o)| *o == PhaseOutcome::Success)
}

#[test]
fn infer_kind_reads_wording() {
    assert_eq!(infer_kind("Operating power shall not exceed 5 W"), ConstraintKind::Max);
    assert_eq!(infer_kind("Supply current shall be at least 8 W"), ConstraintKind::Min);
    assert_eq!(infer_kind("Voltage >= 3.3 V"), ConstraintKind::Min);
    assert_eq!(infer_kind("Board outline shall fit within 50 mm"), ConstraintKind::Max);
}

#[test]
fn infer_kind_ignores_letter_case() {
    assert_eq!(infer_kind("Supply current shall be AT LEAST 8 W"), ConstraintKind::Min);
    assert_eq!(infer_kind("MINIMUM clearance 0.2 mm"), ConstraintKind::Min);
}

#[test]
fn requirement_planning_runs_and_replays() {
    let mut core = new_core(power_and_size());
    core.capture_intent("USB-C IoT sensor, < 5 W, < 50x50 mm", "engineer");
    let mut machine = RequirementPlanningMachine::new();
    let outcome = ExecutionEngine::new().run(&mut machine, &mut core);
    assert_eq!(outcome, PhaseOutcome::Success);
    assert_eq!(core.state().requirements.len(), 2);
    for r in &core.state().requirements {
        assert!(r.validate().is_ok());
    }
    assert_eq!(*core.state(), replay(core.log()));
}

#[test]
fn orchestrator_sequences_both_phases() {
    let mut core = new_core(power_and_size());
    core.capture_intent("USB-C IoT sensor, < 5 W, < 50x50 mm", "engineer");
    let mut plan = WorkflowPlan::new(vec![
        Phase::Requirements(RequirementPlanningMachine::new()),
        Phase::Engineering(EngineeringAnalysisStub::new()),
    ]);
    let results = Orchestrator::new().run(&mut plan, &mut core);
    assert_eq!(results.len(), 2);
    assert!(all_succeeded(&results));
    assert_eq!(*core.state(), replay(core.log()));
}

fn waive_first(core: &mut RuntimeCore<Canned>, justification: &str) {
    let vid = core.state().violations[0].id;
    let wid = core.fresh_id();
    core.invoke(
        CapabilityRequest::GrantWaiver {
            waiver: Waiver {
                id: wid,
                violation: vid,
                justification: justification.into(),
                decided_by: "engineer".into(),
            },
        },
        Ok(()),
    )
    .expect("waiver granted");
    assert_eq!(core.state().violations[0].status, ViolationStatus::Waived);
    assert!(!core.state().violations[0].is_blocking());
}

#[test]
fn erc_waiver_lets_reverification_pass() {
    let mut core = planned(load_only(), "battery-only sensor node");
    let mut plan = WorkflowPlan::new(vec![
        Phase::Engineering(EngineeringAnalysisStub::new()),
        Phase::Schematic(SchematicPlanningMachine::new()),
        Phase::Erc(ErcVerificationMachine::new()),
    ]);
    let results = Orchestrator::new().run(&mut plan, &mut core);
    assert!(matches!(results.last().unwrap().1, PhaseOutcome::Failed(_)));
    assert_eq!(core.state().violations.len(), 1);
    assert!(core.state().violations[0].is_blocking());

    waive_first(&mut core, "battery-powered prototype: VBUS net left unpopulated");

    let mut erc = ErcVerificationMachine::new();
    let outcome = ExecutionEngine::new().run(&mut erc, &mut core);
    assert_eq!(outcome, PhaseOutcome::Success);
    assert_eq!(core.state().violations.len(), 1);
    assert_eq!(core.state().waivers.len(), 1);
    assert_eq!(*core.state(), replay(core.log()));
}

/// Commits one functional block per requirement, each realizing just that requirement:
/// the architecture the synthesis phases start from.
fn block_per_requirement(core: &mut RuntimeCore<Canned>) {
    let reqs: Vec<(EntityId, String)> =
        core.state().requirements.iter().map(|r| (r.id, r.statement.clone())).collect();
    for (rid, statement) in reqs {
        let bid = core.fresh_id();
        core.invoke(
            CapabilityRequest::CreateFunctionalBlock {
                block: FunctionalBlock {
                    id: bid,
                    name: statement.clone(),
                    function: statement,
                    requirements: vec![rid],
                },
                links: vec![],
            },
            Ok(()),
        )
        .expect("block committed");
    }
}

/// Elicits the requirements, then commits the architecture over them.
fn planned(reasoner: Canned, intent: &str) -> RuntimeCore<Canned> {
    let mut core = new_core(reasoner);
    core.capture_intent(intent, "engineer");
    let outcome = ExecutionEngine::new().run(&mut RequirementPlanningMachine::new(), &mut core);
    assert_eq!(outcome, PhaseOutcome::Success);
    block_per_requirement(&mut core);
    core
}

fn synthesis_plan() -> WorkflowPlan<Phase> {
    WorkflowPlan::new(vec![
        Phase::Engineering(EngineeringAnalysisStub::new()),
        Phase::Schematic(SchematicPlanningMachine::new()),
        Phase::Erc(ErcVerificationMachine::new()),
        Phase::Bom(BomPlanningMachine::new()),
        Phase::BomCheck(BomVerificationMachine::new()),
    ])
}

#[test]
fn sourced_design_synthesizes_clean_schematic_and_bom() {
    let mut core = planned(sourced(), "USB-C powered sensor node, < 5 W");
    let mut plan = synthesis_plan();
    let results = Orchestrator::new().run(&mut plan, &mut core);
    assert_eq!(results.len(), 5);
    assert!(all_succeeded(&results));
    let s = core.state();
    assert!(!s.functional_blocks.is_empty());
    assert!(!s.components.is_empty());
    assert!(!s.nets.is_empty());
    assert!(!s.parts.is_empty());
    assert!(!s.bom_line_items.is_empty());
    for item in &s.bom_line_items {
        assert!(!item.components.is_empty());
        assert!(s.part(item.part).is_some());
    }
    assert!(s.violations.is_empty());
    assert_eq!(*s, replay(core.log()));
}

#[test]
fn regulator_design_passes_erc_but_bom_check_catches_eol_part() {
    let mut core = planned(regulated(), "3.3 V regulated sensor node");
    let mut plan = synthesis_plan();
    let results = Orchestrator::new().run(&mut plan, &mut core);
    assert_eq!(results.len(), 5);
    assert_eq!(results[2].1, PhaseOutcome::Success);
    assert!(matches!(results.last().unwrap().1, PhaseOutcome::Failed(_)));
    assert_eq!(core.state().violations.len(), 1);
    assert!(core.state().violations[0].is_blocking());
    assert_eq!(core.state().violations[0].rule, "bom-lifecycle");

    waive_first(&mut core, "EOL regulator accepted for prototype bring-up");

    let mut verify = BomVerificationMachine::new();
    let outcome = ExecutionEngine::new().run(&mut verify, &mut core);
    assert_eq!(outcome, PhaseOutcome::Success);
    assert_eq!(core.state().violations.len(), 1);
    assert_eq!(core.state().waivers.len(), 1);
    assert_eq!(*core.state(), replay(core.log()));
}

#[test]
fn same_seed_runs_are_identical() {
    let run = || {
        let mut core = planned(sourced(), "USB-C powered sensor node, < 5 W");
        let mut plan = synthesis_plan();
        let results = Orchestrator::new().run(&mut plan, &mut core);
        (results, replay(core.log()))
    };
    let (r1, s1) = run();
    let (r2, s2) = run();
    assert_eq!(r1, r2);
    assert_eq!(s1, s2);
}

#[test]
fn raised_violation_is_linked_to_its_subjects() {
    let mut core = planned(load_only(), "battery-only sensor node");
    let mut plan = WorkflowPlan::new(vec![
        Phase::Engineering(EngineeringAnalysisStub::new()),
        Phase::Schematic(SchematicPlanningMachine::new()),
        Phase::Erc(ErcVerificationMachine::new()),
    ]);
    let results = Orchestrator::new().run(&mut plan, &mut core);
    assert!(matches!(results.last().unwrap().1, PhaseOutcome::Failed(_)));
    let s = core.state();
    assert_eq!(s.violations.len(), 1);
    let v = &s.violations[0];
    assert!(!v.subjects.is_empty());
    for subject in &v.subjects {
        assert!(s
            .links
            .iter()
            .any(|l| l.from == v.id && l.to == *subject && l.relation == RelationType::TracesTo));
    }
}

#[test]
fn realized_component_is_derived_from_its_block() {
    let mut core = planned(sourced(), "USB-C powered sensor node, < 5 W");
    let mut plan = WorkflowPlan::new(vec![
        Phase::Engineering(EngineeringAnalysisStub::new()),
        Phase::Schematic(SchematicPlanningMachine::new()),
    ]);
    let results = Orchestrator::new().run(&mut plan, &mut core);
    assert!(all_succeeded(&results));
    let s = core.state();
    assert_eq!(s.components.len(), s.functional_blocks.len());
    for (component, block) in s.components.iter().zip(s.functional_blocks.iter()) {
        assert_eq!(component.from_block, block.id);
        assert!(s
            .links
            .iter()
            .any(|l| l.from == component.id && l.to == block.id && l.relation == RelationType::DerivedFrom));
    }
}

#[test]
fn bom_planning_refuses_a_component_id_used_twice() {
    let mut core = planned(sourced(), "USB-C powered sensor node, < 5 W");
    let mut plan = WorkflowPlan::new(vec![
        Phase::Engineering(EngineeringAnalysisStub::new()),
        Phase::Schematic(SchematicPlanningMachine::new()),
    ]);
    assert!(all_succeeded(&Orchestrator::new().run(&mut plan, &mut core)));
    let first = core.state().components[0].clone();
    let class = if first.class == ComponentClass::Ic { ComponentClass::Connector } else { ComponentClass::Ic };
    let pin_id = core.fresh_id();
    core.invoke(
        CapabilityRequest::RealizeComponent {
            component: Component {
                id: first.id,
                refdes: "X1".to_string(),
                class,
                value: None,
                from_block: first.from_block,
            },
            pins: vec![Pin {
                id: pin_id,
                component: first.id,
                designation: "1".to_string(),
                electrical_type: PinElectricalType::Passive,
            }],
            links: vec![],
        },
        Ok(()),
    )
    .expect("duplicate-id component committed");
    let outcome = ExecutionEngine::new().run(&mut BomPlanningMachine::new(), &mut core);
    match outcome {
        PhaseOutcome::Failed(reason) => assert!(reason.contains("capability rejected: BOM line item")),
        other => panic!("expected a refusal, got {:?}", other),
    }
    assert!(core.state().bom_line_items.len() < 2);
}

#[test]
fn bom_planning_reuses_the_first_part_already_ordered_under_a_number() {
    let mut core = planned(sourced(), "USB-C powered sensor node, < 5 W");
    let mut plan = WorkflowPlan::new(vec![
        Phase::Engineering(EngineeringAnalysisStub::new()),
        Phase::Schematic(SchematicPlanningMachine::new()),
    ]);
    assert!(all_succeeded(&Orchestrator::new().run(&mut plan, &mut core)));
    let mut stocked = Vec::new();
    for _ in 0..2 {
        let id = core.fresh_id();
        core.invoke(
            CapabilityRequest::CreatePart {
                part: Part {
                    id,
                    mpn: "STM32L010F4P6".to_string(),
                    manufacturer: "STMicroelectronics".to_string(),
                    lifecycle: PartLifecycle::Active,
                    datasheet: "https://st.com/stm32l0".to_string(),
                },
                links: vec![],
            },
            Ok(()),
        )
        .expect("part committed");
        stocked.push(id);
    }
    let outcome = ExecutionEngine::new().run(&mut BomPlanningMachine::new(), &mut core);
    assert_eq!(outcome, PhaseOutcome::Success);
    let s = core.state();
    let ic_line = s
        .bom_line_items
        .iter()
        .find(|item| item.components.iter().any(|c| s.components.iter().any(|k| k.id == *c && k.class == ComponentClass::Ic)))
        .expect("an IC line");
    assert_eq!(ic_line.part, stocked[0]);
    assert_eq!(s.parts.iter().filter(|p| p.mpn == "STM32L010F4P6").count(), 2);
}

#[test]
fn bom_planning_refuses_to_reuse_a_nil_part() {
    let mut core = planned(sourced(), "USB-C powered sensor node, < 5 W");
    let mut plan = WorkflowPlan::new(vec![
        Phase::Engineering(EngineeringAnalysisStub::new()),
        Phase::Schematic(SchematicPlanningMachine::new()),
    ]);
    assert!(all_succeeded(&Orchestrator::new().run(&mut plan, &mut core)));
    core.invoke(
        CapabilityRequest::CreatePart {
            part: Part {
                id: EntityId(0),
                mpn: "USB4110-GF-A".to_string(),
                manufacturer: "GCT".to_string(),
                lifecycle: PartLifecycle::Active,
                datasheet: "https://gct.co/usb4110".to_string(),
            },
            links: vec![],
        },
        Ok(()),
    )
    .expect("part committed");
    let outcome = ExecutionEngine::new().run(&mut BomPlanningMachine::new(), &mut core);
    match outcome {
        PhaseOutcome::Failed(reason) => assert!(reason.contains("BOM line item has no part")),
        other => panic!("expected a refusal, got {:?}", other),
    }
}

#[test]
fn lowered_wording_classifies_and_bounds() {
    assert_eq!(kind_from_lowered("input shall be at least 3 v"), ConstraintKind::Min);
    assert_eq!(kind_from_lowered("input shall be AT LEAST 3 v"), ConstraintKind::Max);
    assert_eq!(class_from_lowered("usb-c connector shall supply 5 v", RequirementCategory::Functional), ComponentClass::Connector);
    assert_eq!(class_from_lowered("usb-c connector shall supply 5 v", RequirementCategory::Electrical), ComponentClass::Ic);
    assert_eq!(class_from_lowered("an ldo shall provide 3.3 v", RequirementCategory::Electrical), ComponentClass::Regulator);
}
