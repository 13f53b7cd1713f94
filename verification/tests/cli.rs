use eak::agents::{build_prompt, stable_seed, RequirementPlanningMachine};
use eak::checks::ErcVerificationMachine;
use eak::cli::{
    default_loopbacks, parse_reasoning, trace_cmd, CliError, ConfidenceFormat, ReasoningChoice,
};
use eak::clock::{LogicalClock, SeededIdSource};
use eak::domain::{DesignIntent, EntityId, Priority, RelationType, RequirementCategory};
use eak::fsm::{ExecutionEngine, Machine, MachineError, PhaseOutcome};
use eak::ports::{
    CandidateRequirement, ReasoningEngine, ReasoningError, ReasoningRequest, ReasoningResponse,
    StoreError,
};
use eak::protocol::Autonomy;
use eak::runtime::{RunClock, RuntimeCore};
use eak::units::Magnitude;

struct TwoRequirements;

impl ReasoningEngine for TwoRequirements {
    fn model_id(&self) -> String {
        "canned".into()
    }
    fn request_judgement(&self, _req: &ReasoningRequest) -> Result<ReasoningResponse, ReasoningError> {
        let c = |statement: &str, category, crit: &str| CandidateRequirement {
            statement: statement.into(),
            category,
            priority: Priority::High,
            acceptance_criterion: crit.into(),
            source_hint: "intent".into(),
            confidence: Magnitude(0.9f64.to_bits()),
            rationale: "stated".into(),
            targets: vec![],
        };
        Ok(ReasoningResponse {
            candidates: vec![
                c(
                    "Operating power shall not exceed 5 W",
                    RequirementCategory::Electrical,
                    "measured input power < 5 W",
                ),
                c(
                    "Board outline shall fit within 50 x 50 mm",
                    RequirementCategory::Mechanical,
                    "outline <= 50 mm on each side",
                ),
            ],
            clarifying_questions: vec![],
            raw: "{}".into(),
        })
    }
}

struct TwoDecimals;

impl ConfidenceFormat for TwoDecimals {
    fn two_decimals(&self, confidence: Magnitude) -> String {
        format!("{:.2}", f64::from_bits(confidence.0))
    }
}

fn planned() -> RuntimeCore<TwoRequirements> {
    let mut core = RuntimeCore::new(
        TwoRequirements,
        SeededIdSource::new(2),
        RunClock::Logical(LogicalClock::new()),
        Autonomy::Autonomous,
    );
    core.capture_intent("USB-C IoT sensor, < 5 W, < 50x50 mm", "engineer");
    let outcome = ExecutionEngine::new().run(&mut RequirementPlanningMachine::new(), &mut core);
    assert_eq!(outcome, PhaseOutcome::Success);
    core
}

#[test]
fn every_elicited_requirement_traces_to_intent() {
    let core = planned();
    let state = core.state();
    let intent = state.intent.as_ref().expect("intent captured");
    assert_eq!(state.requirements.len(), 2);
    for r in &state.requirements {
        assert_eq!(r.source, intent.id);
        assert!(state
            .links
            .iter()
            .any(|l| l.from == r.id && l.to == intent.id && l.relation == RelationType::DerivedFrom));
        assert!(state.links.iter().any(|l| l.from == r.id && l.relation == RelationType::JustifiedBy));
        assert!(r.validate().is_ok());
        let chain = trace_cmd(core.log(), &r.id.short(), &TwoDecimals).expect("trace renders");
        assert!(chain.starts_with(&format!("Requirement {} [", r.id.short())));
        assert!(chain.contains("Design Intent"));
        assert!(chain.contains("Decision"));
        assert!(chain.contains("(confidence 0.90"));
        let by_full = trace_cmd(core.log(), &r.id.to_hex(), &TwoDecimals).expect("full id");
        assert_eq!(chain, by_full);
    }
}

#[test]
fn tracing_an_unknown_requirement_fails() {
    let core = planned();
    let r = trace_cmd(core.log(), "zzzz", &TwoDecimals);
    assert_eq!(r, Err(CliError::Msg("requirement zzzz not found".into())));
}

#[test]
fn reasoning_choice_parses() {
    assert_eq!(parse_reasoning("fixture"), Some(ReasoningChoice::Fixture));
    assert_eq!(parse_reasoning("live"), Some(ReasoningChoice::Live));
    assert_eq!(parse_reasoning("other"), None);
}

#[test]
fn default_loopbacks_route_each_check_back() {
    let lbs = default_loopbacks();
    let pairs: Vec<(&str, &str, u32)> =
        lbs.iter().map(|l| (l.from.as_str(), l.to.as_str(), l.max_retries)).collect();
    assert_eq!(
        pairs,
        vec![
            ("ConstraintVerification", "ConstraintExtraction", 2),
            ("ErcVerification", "SchematicPlanning", 2),
            ("BomVerification", "BomPlanning", 2),
            ("DrcVerification", "RoutingPlanning", 2),
        ]
    );
}

#[test]
fn store_failures_become_command_failures() {
    let e = CliError::from_store(StoreError::Io("disk full".into()));
    let CliError::Msg(m) = e;
    assert!(m.contains("disk full"));
}

#[test]
fn a_machine_rejects_a_state_it_lacks() {
    let mut core = planned();
    let r = ErcVerificationMachine::new().step("Bogus", &mut core);
    assert_eq!(r, Err(MachineError::Internal("unknown state Bogus".into())));
}

#[test]
fn prompt_quotes_the_intent() {
    let intent = DesignIntent {
        id: EntityId(1),
        statement: "USB-C sensor".into(),
        structured_summary: "USB-C sensor".into(),
        source: "engineer".into(),
    };
    let p = build_prompt(&intent);
    assert!(p.ends_with("DESIGN INTENT:\nUSB-C sensor\n"));
}

#[test]
fn stable_seed_is_fnv1a() {
    assert_eq!(stable_seed(""), 0xcbf2_9ce4_8422_2325);
    assert_eq!(stable_seed("a"), 0xaf63_dc4c_8601_ec8c);
    assert_eq!(stable_seed("x"), stable_seed("x"));
    assert_ne!(stable_seed("x"), stable_seed("y"));
}
