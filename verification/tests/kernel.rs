use eak::clock::{Clock, IdSource, LogicalClock, SeededIdSource};
use eak::domain::{
    Board, BoardSide, BomLineItem, Component, ComponentClass, Decision, EntityId, FunctionalBlock,
    Layer, LayerRole, LayerStack, Net, NetClass, Part, PartLifecycle, Pin, PinElectricalType,
    Placement, Priority, Requirement, RequirementCategory, RequirementStatus, Track,
};
use eak::fsm::{ExecutionEngine, Machine, MachineError, PhaseOutcome, StepResult};
use eak::orchestrator::{LoopBack, Orchestrator, WorkflowPlan};
use eak::ports::{
    CandidateRequirement, Event, ReasoningEngine, ReasoningError, ReasoningRequest, ReasoningResponse,
};
use eak::protocol::{Autonomy, CapabilityError, CapabilityRequest};
use eak::reasoning::{Cassette, FixtureEngine};
use eak::runtime::{RunClock, RuntimeCore};
use eak::state::replay;
use eak::units::{Magnitude, PhysicalQuantity, Unit};

struct NullReasoner;

impl ReasoningEngine for NullReasoner {
    fn model_id(&self) -> String {
        "null".into()
    }
    fn request_judgement(&self, _req: &ReasoningRequest) -> Result<ReasoningResponse, ReasoningError> {
        Ok(ReasoningResponse {
            candidates: vec![],
            clarifying_questions: vec![],
            raw: String::new(),
        })
    }
}

fn one() -> Magnitude {
    Magnitude(1.0f64.to_bits())
}

fn mm_q(v: f64) -> PhysicalQuantity {
    mm(v)
}

fn mm(v: f64) -> PhysicalQuantity {
    PhysicalQuantity::new(Magnitude(v.to_bits()), Unit::Millimetre)
}

fn core_with_seed(seed: u64) -> RuntimeCore<NullReasoner> {
    RuntimeCore::new(
        NullReasoner,
        SeededIdSource::new(seed),
        RunClock::Logical(LogicalClock::new()),
        Autonomy::Autonomous,
    )
}

fn new_core() -> RuntimeCore<NullReasoner> {
    core_with_seed(7)
}

fn decision(id: EntityId, subject: EntityId) -> Decision {
    Decision {
        id,
        subject,
        rationale: "from intent".into(),
        decider: "test".into(),
        reasoning_call_seq: None,
        evidence: vec![],
        confidence: one(),
    }
}

fn requirement(id: EntityId, statement: &str, crit: &str, source: EntityId) -> Requirement {
    Requirement {
        id,
        statement: statement.into(),
        category: RequirementCategory::Electrical,
        priority: Priority::High,
        acceptance_criterion: crit.into(),
        status: RequirementStatus::Accepted,
        source,
        targets: vec![],
    }
}

/// Commits intent, one accepted requirement and a block realizing it; returns the
/// requirement and block ids.
fn committed_block(core: &mut RuntimeCore<NullReasoner>, intent: &str) -> (EntityId, EntityId) {
    let src = core.capture_intent(intent, "engineer");
    let rid = core.fresh_id();
    let did = core.fresh_id();
    core.invoke(
        CapabilityRequest::CreateRequirement {
            requirement: requirement(rid, "Device shall do a thing", "it does the thing", src),
            decision: decision(did, rid),
            evidence: vec![],
            links: vec![],
        },
        Ok(()),
    )
    .unwrap();
    let bid = core.fresh_id();
    core.invoke(
        CapabilityRequest::CreateFunctionalBlock {
            block: FunctionalBlock {
                id: bid,
                name: "blk".into(),
                function: "f".into(),
                requirements: vec![rid],
            },
            links: vec![],
        },
        Ok(()),
    )
    .unwrap();
    (rid, bid)
}

fn two_layer_stack() -> LayerStack {
    let layer = Layer {
        role: LayerRole::Signal,
        copper_thickness: mm_q(0.035),
        dielectric_height: mm(1.5),
        dielectric_er: Magnitude(4.5f64.to_bits()),
        loss_tangent: Magnitude(0.02f64.to_bits()),
    };
    LayerStack { layers: vec![layer, layer] }
}

fn board(id: EntityId, w: f64, h: f64) -> Board {
    Board {
        id,
        width: mm(w),
        height: mm(h),
        stack: two_layer_stack(),
    }
}

#[test]
fn kernel_runs_on_its_own_ports() {
    // The kernel runs on nothing but its own ports: a reasoner written here, the seeded id
    // source and the logical clock. No adapter, engine, phase or store is involved.
    let mut core = new_core();
    let id = core.capture_intent("USB-C powered IoT sensor node", "engineer");
    assert!(!id.is_null());
    assert_eq!(core.log().len(), 1);
    assert_eq!(replay(core.log()), *core.state());
}

#[test]
fn commit_then_replay_reconstructs_identical_state() {
    let mut core = core_with_seed(42);
    let src = core.capture_intent("USB-C powered IoT sensor node, < 5 W", "engineer");
    assert_eq!(core.state().intent.as_ref().unwrap().id, src);
    let rid = core.fresh_id();
    let did = core.fresh_id();
    core.invoke(
        CapabilityRequest::CreateRequirement {
            requirement: requirement(
                rid,
                "Operating power shall not exceed 5 W",
                "measured power < 5 W",
                src,
            ),
            decision: decision(did, rid),
            evidence: vec![],
            links: vec![],
        },
        Ok(()),
    )
    .unwrap();
    let replayed = replay(core.log());
    assert_eq!(*core.state(), replayed);
    assert_eq!(core.state().requirements.len(), 1);
}

#[test]
fn phase3_synthesis_commits_fold_and_replay_byte_identically() {
    let mut core = new_core();
    let (_rid, bid) = committed_block(&mut core, "USB-C powered IoT sensor node, 5 V rail");
    let cid = core.fresh_id();
    let pid = core.fresh_id();
    core.invoke(
        CapabilityRequest::RealizeComponent {
            component: Component {
                id: cid,
                refdes: "U1".into(),
                class: ComponentClass::Regulator,
                value: None,
                from_block: bid,
            },
            pins: vec![Pin {
                id: pid,
                component: cid,
                designation: "VOUT".into(),
                electrical_type: PinElectricalType::PowerOut,
            }],
            links: vec![],
        },
        Ok(()),
    )
    .unwrap();
    let nid = core.fresh_id();
    core.invoke(
        CapabilityRequest::CreateNet {
            net: Net {
                id: nid,
                name: "+5V".into(),
                class: NetClass::Power,
                members: vec![pid],
            },
            links: vec![],
        },
        Ok(()),
    )
    .unwrap();
    let s = core.state();
    assert_eq!(s.functional_blocks.len(), 1);
    assert_eq!(s.components.len(), 1);
    assert_eq!(s.pins.len(), 1);
    assert_eq!(s.nets.len(), 1);
    assert!(s.functional_block(bid).is_some());
    assert!(s.component(cid).is_some());
    assert!(s.pin(pid).is_some());
    assert_eq!(*s, replay(core.log()));
}

fn realized_component(core: &mut RuntimeCore<NullReasoner>, bid: EntityId) -> (EntityId, EntityId) {
    let cid = core.fresh_id();
    let pid = core.fresh_id();
    core.invoke(
        CapabilityRequest::RealizeComponent {
            component: Component {
                id: cid,
                refdes: "U1".into(),
                class: ComponentClass::Regulator,
                value: None,
                from_block: bid,
            },
            pins: vec![Pin {
                id: pid,
                component: cid,
                designation: "VOUT".into(),
                electrical_type: PinElectricalType::PowerOut,
            }],
            links: vec![],
        },
        Ok(()),
    )
    .unwrap();
    (cid, pid)
}

#[test]
fn phase3_bom_commits_fold_and_replay_byte_identically() {
    let mut core = new_core();
    let (_rid, bid) = committed_block(&mut core, "USB-C powered IoT sensor node, 3.3 V rail");
    let (cid, _pid) = realized_component(&mut core, bid);
    let part_id = core.fresh_id();
    core.invoke(
        CapabilityRequest::CreatePart {
            part: Part {
                id: part_id,
                mpn: "LM1117-3.3".into(),
                manufacturer: "Texas Instruments".into(),
                lifecycle: PartLifecycle::Eol,
                datasheet: "https://ti.com/lm1117".into(),
            },
            links: vec![],
        },
        Ok(()),
    )
    .unwrap();
    let item_id = core.fresh_id();
    core.invoke(
        CapabilityRequest::CreateBomLineItem {
            item: BomLineItem {
                id: item_id,
                part: part_id,
                components: vec![cid],
                quantity: 1,
            },
            links: vec![],
        },
        Ok(()),
    )
    .unwrap();
    let s = core.state();
    assert_eq!(s.parts.len(), 1);
    assert_eq!(s.bom_line_items.len(), 1);
    assert!(s.part(part_id).is_some());
    assert!(s.bom_line_item(item_id).is_some());
    assert_eq!(*s, replay(core.log()));
}

#[test]
fn phase3_pcb_commits_fold_and_replay_byte_identically() {
    let mut core = new_core();
    let (_rid, bid) =
        committed_block(&mut core, "USB-C powered IoT sensor node, fits a 50x40 mm board");
    let (cid, _pid) = realized_component(&mut core, bid);
    let board_id = core.fresh_id();
    core.invoke(
        CapabilityRequest::CreateBoard {
            board: board(board_id, 50.0, 40.0),
            links: vec![],
        },
        Ok(()),
    )
    .unwrap();
    let placement_id = core.fresh_id();
    core.invoke(
        CapabilityRequest::PlaceComponent {
            placement: Placement {
                id: placement_id,
                component: cid,
                x: mm(5.0),
                y: mm(5.0),
                width: mm(10.0),
                height: mm(8.0),
                side: BoardSide::Top,
            },
            links: vec![],
        },
        Ok(()),
    )
    .unwrap();
    let s = core.state();
    assert!(s.board.is_some());
    assert_eq!(s.placements.len(), 1);
    assert_eq!(s.board().unwrap().id, board_id);
    assert!(s.placement(placement_id).is_some());
    assert_eq!(*s, replay(core.log()));
}

fn rejected(r: Result<eak::protocol::CapabilityAck, CapabilityError>) -> bool {
    matches!(r, Err(CapabilityError::Rejected(_)))
}

#[test]
fn bom_line_item_handler_rejects_untraceable_proposals_at_the_seam() {
    let mut core = new_core();
    let fake_part = core.fresh_id();
    let fake_comp = core.fresh_id();
    let pid = core.fresh_id();
    let (id1, id2, id3, id4) = (core.fresh_id(), core.fresh_id(), core.fresh_id(), core.fresh_id());
    core.invoke(
        CapabilityRequest::CreatePart {
            part: Part {
                id: pid,
                mpn: "RC0402FR-0710KL".into(),
                manufacturer: "Yageo".into(),
                lifecycle: PartLifecycle::Active,
                datasheet: "https://yageo.com/rc0402".into(),
            },
            links: vec![],
        },
        Ok(()),
    )
    .unwrap();
    let item = |id: EntityId, part: EntityId, components: Vec<EntityId>, quantity: u32| {
        CapabilityRequest::CreateBomLineItem {
            item: BomLineItem {
                id,
                part,
                components,
                quantity,
            },
            links: vec![],
        }
    };
    assert!(rejected(core.invoke(item(id1, pid, vec![fake_comp], 0), Ok(()))));
    assert!(rejected(core.invoke(item(id2, pid, vec![], 1), Ok(()))));
    assert!(rejected(core.invoke(item(id3, fake_part, vec![fake_comp], 1), Ok(()))));
    assert!(rejected(core.invoke(item(id4, pid, vec![fake_comp], 1), Ok(()))));
    assert!(core.state().bom_line_items.is_empty());
}

#[test]
fn phase3_handlers_reject_untraceable_proposals_at_the_seam() {
    let mut core = new_core();
    let (id1, id2, id3) = (core.fresh_id(), core.fresh_id(), core.fresh_id());
    assert!(rejected(core.invoke(
        CapabilityRequest::CreateFunctionalBlock {
            block: FunctionalBlock {
                id: id1,
                name: "orphan".into(),
                function: "f".into(),
                requirements: vec![],
            },
            links: vec![],
        },
        Ok(())
    )));
    assert!(rejected(core.invoke(
        CapabilityRequest::RealizeComponent {
            component: Component {
                id: id2,
                refdes: "R1".into(),
                class: ComponentClass::Resistor,
                value: None,
                from_block: EntityId::null(),
            },
            pins: vec![],
            links: vec![],
        },
        Ok(())
    )));
    assert!(rejected(core.invoke(
        CapabilityRequest::CreateNet {
            net: Net {
                id: id3,
                name: "GND".into(),
                class: NetClass::Ground,
                members: vec![],
            },
            links: vec![],
        },
        Ok(())
    )));
    let s = core.state();
    assert!(s.functional_blocks.is_empty());
    assert!(s.components.is_empty());
    assert!(s.nets.is_empty());
}

fn place(id: EntityId, component: EntityId, v: f64, size: f64) -> CapabilityRequest {
    CapabilityRequest::PlaceComponent {
        placement: Placement {
            id,
            component,
            x: mm(v),
            y: mm(v),
            width: mm(size),
            height: mm(size),
            side: BoardSide::Top,
        },
        links: vec![],
    }
}

#[test]
fn phase3_pcb_handlers_reject_untraceable_proposals_at_the_seam() {
    let mut core = new_core();
    let (pid0, cid0) = (core.fresh_id(), core.fresh_id());
    assert!(rejected(core.invoke(place(pid0, cid0, 0.0, 1.0), Ok(()))));

    let board0 = core.fresh_id();
    core.invoke(
        CapabilityRequest::CreateBoard {
            board: board(board0, 50.0, 50.0),
            links: vec![],
        },
        Ok(()),
    )
    .unwrap();
    let board1 = core.fresh_id();
    assert!(rejected(core.invoke(
        CapabilityRequest::CreateBoard {
            board: board(board1, 20.0, 20.0),
            links: vec![],
        },
        Ok(())
    )));

    let (pid1, cid1) = (core.fresh_id(), core.fresh_id());
    assert!(rejected(core.invoke(place(pid1, cid1, 1.0, 1.0), Ok(()))));

    let (_rid, block_id) = committed_block(&mut core, "intent");
    let (comp_id, _pin) = realized_component(&mut core, block_id);
    let p1 = core.fresh_id();
    core.invoke(place(p1, comp_id, 2.0, 3.0), Ok(())).unwrap();
    let p2 = core.fresh_id();
    assert!(rejected(core.invoke(place(p2, comp_id, 2.0, 3.0), Ok(()))));

    assert_eq!(core.state().placements.len(), 1);
    assert!(core.state().board.is_some());
}

#[test]
fn phase3_routing_handler_rejects_untraceable_proposals_at_the_seam() {
    let mut core = new_core();
    let track = |id: EntityId, net: EntityId| CapabilityRequest::RouteNet {
        track: Track {
            id,
            net,
            layer: BoardSide::Top,
            width: mm(0.25),
            x1: mm(1.0),
            y1: mm(1.0),
            x2: mm(9.0),
            y2: mm(1.0),
        },
        links: vec![],
    };
    let (_rid, block_id) = committed_block(&mut core, "intent");
    let (_comp, pin_id) = realized_component(&mut core, block_id);
    let net_id = core.fresh_id();
    core.invoke(
        CapabilityRequest::CreateNet {
            net: Net {
                id: net_id,
                name: "VBUS".into(),
                class: NetClass::Power,
                members: vec![pin_id],
            },
            links: vec![],
        },
        Ok(()),
    )
    .unwrap();

    let t0 = core.fresh_id();
    assert!(rejected(core.invoke(track(t0, net_id), Ok(()))));

    let board_id = core.fresh_id();
    core.invoke(
        CapabilityRequest::CreateBoard {
            board: board(board_id, 50.0, 50.0),
            links: vec![],
        },
        Ok(()),
    )
    .unwrap();
    let t1 = core.fresh_id();
    let phantom = core.fresh_id();
    assert!(rejected(core.invoke(track(t1, phantom), Ok(()))));

    let t2 = core.fresh_id();
    core.invoke(track(t2, net_id), Ok(())).unwrap();
    let t3 = core.fresh_id();
    assert!(rejected(core.invoke(track(t3, net_id), Ok(()))));

    assert_eq!(core.state().tracks.len(), 1);
    assert_eq!(*core.state(), replay(core.log()));
}

#[test]
fn geometric_request_failing_its_numeric_check_is_rejected() {
    let mut core = new_core();
    let b = core.fresh_id();
    let r = core.invoke(
        CapabilityRequest::CreateBoard {
            board: board(b, 50.0, 50.0),
            links: vec![],
        },
        Err(eak::domain::DomainError::EmptyField("board layer stack")),
    );
    assert!(rejected(r));
    assert!(core.state().board.is_none());
    assert!(core.log().is_empty());
}

#[test]
fn seeded_ids_repeat_across_runs() {
    let mut a = core_with_seed(9);
    let mut b = core_with_seed(9);
    assert_eq!(a.fresh_id(), b.fresh_id());
    assert_eq!(a.fresh_id(), b.fresh_id());
}

// ---- orchestration ----

enum TestPhase {
    AlwaysOk(&'static str),
    FailsThenOk(&'static str, u32),
}

impl Machine for TestPhase {
    fn name(&self) -> &str {
        match self {
            TestPhase::AlwaysOk(n) => n,
            TestPhase::FailsThenOk(n, _) => n,
        }
    }
    fn initial(&self) -> String {
        "go".into()
    }
    fn step<E: ReasoningEngine>(
        &mut self,
        _state: &str,
        _ctx: &mut RuntimeCore<E>,
    ) -> Result<StepResult, MachineError> {
        match self {
            TestPhase::AlwaysOk(_) => Ok(StepResult::Done),
            TestPhase::FailsThenOk(_, left) => {
                if *left > 0 {
                    *left -= 1;
                    Ok(StepResult::Failed("not yet".into()))
                } else {
                    Ok(StepResult::Done)
                }
            }
        }
    }
}

fn count(results: &[(String, PhaseOutcome)], name: &str) -> usize {
    results.iter().filter(|(n, _)| n == name).count()
}

fn lb(from: &str, to: &str, max_retries: u32) -> LoopBack {
    LoopBack {
        from: from.into(),
        to: to.into(),
        max_retries,
    }
}

#[test]
fn loop_back_re_runs_until_phase_recovers() {
    let mut plan = WorkflowPlan::with_loopbacks(
        vec![
            TestPhase::AlwaysOk("A"),
            TestPhase::FailsThenOk("B", 2),
            TestPhase::AlwaysOk("C"),
        ],
        vec![lb("B", "A", 3)],
    );
    let mut ctx = new_core();
    let results = Orchestrator::new().run(&mut plan, &mut ctx);
    assert_eq!(count(&results, "B"), 3);
    assert_eq!(count(&results, "A"), 3);
    assert_eq!(results.last().unwrap().0, "C");
    assert_eq!(results.last().unwrap().1, PhaseOutcome::Success);
}

#[test]
fn loop_back_gives_up_when_retries_exhausted() {
    let mut plan = WorkflowPlan::with_loopbacks(
        vec![TestPhase::AlwaysOk("A"), TestPhase::FailsThenOk("B", 99)],
        vec![lb("B", "A", 2)],
    );
    let mut ctx = new_core();
    let results = Orchestrator::new().run(&mut plan, &mut ctx);
    assert_eq!(count(&results, "B"), 3);
    let (last_name, last_outcome) = results.last().unwrap();
    assert_eq!(last_name, "B");
    assert!(matches!(last_outcome, PhaseOutcome::Failed(_)));
}

#[test]
fn linear_plan_stops_on_first_failure() {
    let mut plan = WorkflowPlan::new(vec![
        TestPhase::AlwaysOk("A"),
        TestPhase::FailsThenOk("B", 1),
        TestPhase::AlwaysOk("C"),
    ]);
    let mut ctx = new_core();
    let results = Orchestrator::new().run(&mut plan, &mut ctx);
    assert_eq!(results.len(), 2);
    assert_eq!(count(&results, "C"), 0);
    assert!(matches!(results[1].1, PhaseOutcome::Failed(_)));
}

#[test]
fn orchestrated_phases_are_recorded_in_the_log() {
    let mut plan = WorkflowPlan::new(vec![TestPhase::AlwaysOk("A"), TestPhase::AlwaysOk("B")]);
    let mut ctx = new_core();
    let results = Orchestrator::new().run(&mut plan, &mut ctx);
    assert_eq!(results.len(), 2);
    assert!(results.iter().all(|(_, o)| *o == PhaseOutcome::Success));
    assert!(!ctx.log().is_empty());
    assert_eq!(*ctx.state(), replay(ctx.log()));
}

// ---- fixture reasoning ----

fn req() -> ReasoningRequest {
    ReasoningRequest {
        model_id: String::new(),
        system: String::new(),
        prompt: "p".into(),
        schema_name: "s".into(),
        temperature: Magnitude(0.0f64.to_bits()),
        seed: 1,
    }
}

#[test]
fn single_returns_canned() {
    let canned = ReasoningResponse {
        candidates: vec![CandidateRequirement {
            statement: "x".into(),
            category: RequirementCategory::Functional,
            priority: Priority::Low,
            acceptance_criterion: "y".into(),
            source_hint: String::new(),
            confidence: one(),
            rationale: String::new(),
            targets: vec![],
        }],
        clarifying_questions: vec![],
        raw: String::new(),
    };
    let engine = FixtureEngine::single(canned);
    let r = engine.request_judgement(&req()).unwrap();
    assert_eq!(r.candidates.len(), 1);
    assert_eq!(engine.model_id(), "fixture");
}

#[test]
fn empty_cassette_is_unavailable() {
    let engine = FixtureEngine::from_cassette(Cassette::empty());
    assert!(engine.request_judgement(&req()).is_err());
}

#[test]
fn fixture_key_depends_on_prompt_schema_and_seed() {
    let base = FixtureEngine::key(&req());
    assert_eq!(base.len(), 16);
    assert_eq!(base, FixtureEngine::key(&req()));
    let mut other = req();
    other.seed = 2;
    assert_ne!(base, FixtureEngine::key(&other));
    let mut other = req();
    other.prompt = "q".into();
    assert_ne!(base, FixtureEngine::key(&other));
}

#[test]
fn seeded_ids_are_splitmix_draws() {
    let mut ids = SeededIdSource::new(0);
    assert_eq!(ids.fresh(), EntityId(0xe220_a839_7b1d_cdaf_6e78_9e6a_a1b9_65f4));
    let mut clock = LogicalClock::new();
    assert_eq!(clock.now().0, 0);
    assert_eq!(clock.now().0, 1);
}

#[test]
fn each_step_result_maps_to_its_record_and_outcome() {
    let phase = "Demo".to_string();
    let (e, o) = ExecutionEngine::record_step(&phase, "A".to_string(), Ok(StepResult::Continue("B".to_string())));
    assert_eq!(e, Event::PhaseStateChanged { phase: phase.clone(), from: "A".to_string(), to: "B".to_string() });
    assert_eq!(o, None);
    let (e, o) = ExecutionEngine::record_step(&phase, "B".to_string(), Ok(StepResult::Done));
    assert_eq!(e, Event::PhaseCompleted { phase: phase.clone(), outcome: "success".to_string() });
    assert_eq!(o, Some(PhaseOutcome::Success));
    let (e, o) = ExecutionEngine::record_step(&phase, "B".to_string(), Ok(StepResult::Failed("no".to_string())));
    assert_eq!(e, Event::PhaseFailed { phase: phase.clone(), reason: "no".to_string() });
    assert_eq!(o, Some(PhaseOutcome::Failed("no".to_string())));
    let (e, o) = ExecutionEngine::record_step(&phase, "B".to_string(), Err(MachineError::Internal("x".to_string())));
    assert_eq!(e, Event::PhaseFailed { phase: phase.clone(), reason: "machine error: x".to_string() });
    assert_eq!(o, Some(PhaseOutcome::Failed("machine error: x".to_string())));
}

#[test]
fn logical_clock_counts_and_one_seed_mints_one_sequence() {
    let mut clock = LogicalClock::new();
    let readings: Vec<i64> = (0..5).map(|_| clock.now().0).collect();
    assert_eq!(readings, vec![0, 1, 2, 3, 4]);
    let mut a = SeededIdSource::new(99);
    let mut b = SeededIdSource::new(99);
    let xs: Vec<EntityId> = (0..8).map(|_| a.fresh()).collect();
    let ys: Vec<EntityId> = (0..8).map(|_| b.fresh()).collect();
    assert_eq!(xs, ys);
}
