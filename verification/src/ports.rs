//! The event-log and reasoning boundaries: the event type the log carries and the
//! request/response shapes of the single reasoning port.

use vstd::prelude::*;
use crate::domain::{
    Board, BomLineItem, Component, Constraint, Decision, DesignIntent, Evidence, FunctionalBlock,
    Net, Part, Pin, Placement, Priority, ProvenanceLink, Requirement, RequirementCategory, Track,
    Violation, Waiver,
};
use crate::units::{Magnitude, PhysicalQuantity};

verus! {

/// Wall-clock instant (unix epoch milliseconds) recorded in every event.
#[derive(Debug, Clone, Copy, PartialEq, Eq, PartialOrd, Ord, Hash, Structural)]
pub struct Timestamp(pub i64);

/// An event with its assigned position and recorded time.
#[derive(Debug, PartialEq)]
pub struct EventRecord {
    pub seq: u64,
    pub timestamp: Timestamp,
    pub event: Event,
}

/// Every design-significant change. Entity-bearing variants are state deltas; the rest
/// are audit and provenance markers.
#[derive(Debug, PartialEq)]
pub enum Event {
    PhaseEntered { phase: String, state: String },
    PhaseStateChanged { phase: String, from: String, to: String },
    PhaseCompleted { phase: String, outcome: String },
    PhaseFailed { phase: String, reason: String },
    ReasoningCall { request: ReasoningRequest, response: ReasoningResponse },
    IntentCaptured { intent: DesignIntent },
    EvidenceReferenced { evidence: Evidence },
    DecisionCreated { decision: Decision },
    RequirementCommitted { requirement: Requirement },
    ProvenanceLinked { link: ProvenanceLink },
    ConstraintCommitted { constraint: Constraint },
    ViolationRaised { violation: Violation },
    WaiverGranted { waiver: Waiver },
    ConstraintsExtracted { count: usize },
    VerificationCompleted { rule_count: usize, open_violations: usize },
    FunctionalBlockCommitted { block: FunctionalBlock },
    ComponentCommitted { component: Component },
    PinCommitted { pin: Pin },
    NetCommitted { net: Net },
    PartCommitted { part: Part },
    BomLineItemCommitted { item: BomLineItem },
    RequirementIrProduced { schema_version: u32, requirement_count: usize },
    EngineeringIrProduced { schema_version: u32, block_count: usize },
    SchematicIrProduced { schema_version: u32, net_count: usize },
    BomIrProduced { schema_version: u32, line_item_count: usize },
    BoardCommitted { board: Board },
    PlacementCommitted { placement: Placement },
    PcbIrProduced { schema_version: u32, placement_count: usize },
    TrackCommitted { track: Track },
    PcbIrEnriched { schema_version: u32, track_count: usize },
    ManufacturingGenerated {
        schema_version: u32,
        place_count: usize,
        copper_count: usize,
        line_item_count: usize,
    },
}

/// A failure of the event store.
#[derive(Debug, Clone, PartialEq, Eq)]
pub enum StoreError {
    Io(String),
    Serialization(String),
}

impl StoreError {
    pub fn message(&self) -> (s: String)
        ensures
            s@ == store_error_text(*self),
    {
        match self {
            StoreError::Io(m) => String::from_str("store io error: ").concat(m.as_str()),
            StoreError::Serialization(m) => String::from_str("store serialization error: ").concat(
                m.as_str(),
            ),
        }
    }
}

pub open spec fn store_error_text(e: StoreError) -> Seq<char> {
    match e {
        StoreError::Io(m) => "store io error: "@ + m@,
        StoreError::Serialization(m) => "store serialization error: "@ + m@,
    }
}

/// A structured request for judgement.
#[derive(Debug, PartialEq)]
pub struct ReasoningRequest {
    pub model_id: String,
    pub system: String,
    pub prompt: String,
    pub schema_name: String,
    pub temperature: Magnitude,
    pub seed: u64,
}

impl Clone for ReasoningRequest {
    fn clone(&self) -> (r: Self)
        ensures
            r == *self,
    {
        ReasoningRequest {
            model_id: self.model_id.clone(),
            system: self.system.clone(),
            prompt: self.prompt.clone(),
            schema_name: self.schema_name.clone(),
            temperature: self.temperature,
            seed: self.seed,
        }
    }
}

/// One candidate requirement proposed by the reasoning engine: judgement only.
#[derive(Debug, PartialEq)]
pub struct CandidateRequirement {
    pub statement: String,
    pub category: RequirementCategory,
    pub priority: Priority,
    pub acceptance_criterion: String,
    pub source_hint: String,
    pub confidence: Magnitude,
    pub rationale: String,
    pub targets: Vec<PhysicalQuantity>,
}

pub struct CandidateRequirementView {
    pub statement: String,
    pub category: RequirementCategory,
    pub priority: Priority,
    pub acceptance_criterion: String,
    pub source_hint: String,
    pub confidence: Magnitude,
    pub rationale: String,
    pub targets: Seq<PhysicalQuantity>,
}

impl View for CandidateRequirement {
    type V = CandidateRequirementView;

    open spec fn view(&self) -> CandidateRequirementView {
        CandidateRequirementView {
            statement: self.statement,
            category: self.category,
            priority: self.priority,
            acceptance_criterion: self.acceptance_criterion,
            source_hint: self.source_hint,
            confidence: self.confidence,
            rationale: self.rationale,
            targets: self.targets@,
        }
    }
}

impl Clone for CandidateRequirement {
    fn clone(&self) -> (r: Self)
        ensures
            r@ == self@,
    {
        let targets = self.targets.clone();
        proof {
            assert(targets@ =~= self.targets@);
        }
        CandidateRequirement {
            statement: self.statement.clone(),
            category: self.category,
            priority: self.priority,
            acceptance_criterion: self.acceptance_criterion.clone(),
            source_hint: self.source_hint.clone(),
            confidence: self.confidence,
            rationale: self.rationale.clone(),
            targets,
        }
    }
}

/// The reasoning engine's answer.
#[derive(Debug, PartialEq)]
pub struct ReasoningResponse {
    pub candidates: Vec<CandidateRequirement>,
    pub clarifying_questions: Vec<String>,
    pub raw: String,
}

pub struct ReasoningResponseView {
    pub candidates: Seq<CandidateRequirementView>,
    pub clarifying_questions: Seq<String>,
    pub raw: String,
}

impl View for ReasoningResponse {
    type V = ReasoningResponseView;

    open spec fn view(&self) -> ReasoningResponseView {
        ReasoningResponseView {
            candidates: self.candidates@.map_values(|c: CandidateRequirement| c@),
            clarifying_questions: self.clarifying_questions@,
            raw: self.raw,
        }
    }
}

impl Clone for ReasoningResponse {
    fn clone(&self) -> (r: Self)
        ensures
            r@ == self@,
    {
        let candidates = self.candidates.clone();
        let clarifying_questions = self.clarifying_questions.clone();
        proof {
            assert(candidates@.map_values(|c: CandidateRequirement| c@) =~= self.candidates@.map_values(
                |c: CandidateRequirement| c@,
            ));
            assert(clarifying_questions@ =~= self.clarifying_questions@);
        }
        ReasoningResponse { candidates, clarifying_questions, raw: self.raw.clone() }
    }
}

/// A failure at the reasoning boundary.
#[derive(Debug, Clone, PartialEq, Eq)]
pub enum ReasoningError {
    Provider(String),
    Schema(String),
    Unavailable,
}

pub open spec fn reasoning_error_text(e: ReasoningError) -> Seq<char> {
    match e {
        ReasoningError::Provider(m) => "reasoning provider error: "@ + m@,
        ReasoningError::Schema(m) => "reasoning schema violation: "@ + m@,
        ReasoningError::Unavailable => "reasoning engine unavailable"@,
    }
}

impl ReasoningError {
    pub fn message(&self) -> (s: String)
        ensures
            s@ == reasoning_error_text(*self),
    {
        match self {
            ReasoningError::Provider(m) => String::from_str("reasoning provider error: ").concat(
                m.as_str(),
            ),
            ReasoningError::Schema(m) => String::from_str("reasoning schema violation: ").concat(
                m.as_str(),
            ),
            ReasoningError::Unavailable => String::from_str("reasoning engine unavailable"),
        }
    }
}

/// The single boundary to stochastic judgement. What an engine answers is not
/// specified here: it may depend on anything, so callers rely on nothing beyond its type.
pub trait ReasoningEngine {
    /// Stable identifier of the engine or model in use.
    fn model_id(&self) -> String;

    fn request_judgement(&self, req: &ReasoningRequest) -> Result<ReasoningResponse, ReasoningError>;
}

} // verus!
