//! The command core: run configuration, the workflow's correctness-loop edges, and the
//! provenance trace of a requirement rendered from a replayed log.

use vstd::prelude::*;
use crate::domain::{
    short_hex, Decision, EntityId, Evidence, EvidenceKind, ProvenanceLink, RelationType,
    Requirement, RequirementCategory, RequirementStatus,
};
use crate::lookup::{by_id, first_where, lemma_first_where_at, lemma_first_where_none};
use crate::orchestrator::{lb_views, LoopBack, LoopBackView};
use crate::ports::{EventRecord, StoreError};
use crate::state::{replay, replayed, EngineeringState};
use crate::text::{decimal, decimal_text, hex_digits, str_equal};
use crate::units::Magnitude;

verus! {

/// Which reasoning engine a run uses.
#[derive(Debug, Clone, Copy, PartialEq, Eq, Structural)]
pub enum ReasoningChoice {
    Fixture,
    Live,
}

/// Reads a `--reasoning` value.
pub fn parse_reasoning(s: &str) -> (r: Option<ReasoningChoice>)
    ensures
        s@ == "fixture"@ ==> r == Some(ReasoningChoice::Fixture),
        s@ == "live"@ ==> r == Some(ReasoningChoice::Live),
        s@ != "fixture"@ && s@ != "live"@ ==> r is None,
{
    proof {
        reveal_strlit("fixture");
        reveal_strlit("live");
        assert("fixture"@[0] != "live"@[0]);
    }
    if str_equal(s, "fixture") {
        Some(ReasoningChoice::Fixture)
    } else if str_equal(s, "live") {
        Some(ReasoningChoice::Live)
    } else {
        None
    }
}

/// A run's configuration; paths are given as text.
#[derive(Debug)]
pub struct RunConfig {
    pub intent: String,
    pub reasoning: ReasoningChoice,
    pub cassette: Option<String>,
    pub log: String,
    pub model: String,
    pub seed: u64,
    /// A logical (counter) clock makes a run fully reproducible.
    pub deterministic_clock: bool,
}

/// A command failure, with its message.
#[derive(Debug, Clone, PartialEq, Eq)]
pub enum CliError {
    Msg(String),
}

impl CliError {
    pub fn message(&self) -> (s: String)
        ensures
            self matches CliError::Msg(m) ==> s@ == m@,
    {
        match self {
            CliError::Msg(m) => m.clone(),
        }
    }

    /// A store failure as a command failure, with the store's message.
    pub fn from_store(e: StoreError) -> (c: CliError)
        ensures
            c matches CliError::Msg(m) && m@ == crate::ports::store_error_text(e),
    {
        CliError::Msg(e.message())
    }
}

fn edge(from: &str, to: &str) -> (l: LoopBack)
    ensures
        l@ == (LoopBackView { from: from@, to: to@, max_retries: 2 }),
{
    LoopBack { from: String::from_str(from), to: String::from_str(to), max_retries: 2 }
}

/// The default workflow's correctness-loop edges: each rule-check phase routes back to
/// the phase that produced what it checks, at most twice.
pub fn default_loopbacks() -> (v: Vec<LoopBack>)
    ensures
        lb_views(v@) == seq![
            LoopBackView { from: "ConstraintVerification"@, to: "ConstraintExtraction"@, max_retries: 2 },
            LoopBackView { from: "ErcVerification"@, to: "SchematicPlanning"@, max_retries: 2 },
            LoopBackView { from: "BomVerification"@, to: "BomPlanning"@, max_retries: 2 },
            LoopBackView { from: "DrcVerification"@, to: "RoutingPlanning"@, max_retries: 2 },
        ],
{
    let mut v: Vec<LoopBack> = Vec::new();
    v.push(edge("ConstraintVerification", "ConstraintExtraction"));
    v.push(edge("ErcVerification", "SchematicPlanning"));
    v.push(edge("BomVerification", "BomPlanning"));
    v.push(edge("DrcVerification", "RoutingPlanning"));
    assert(lb_views(v@) =~= seq![
        LoopBackView { from: "ConstraintVerification"@, to: "ConstraintExtraction"@, max_retries: 2 },
        LoopBackView { from: "ErcVerification"@, to: "SchematicPlanning"@, max_retries: 2 },
        LoopBackView { from: "BomVerification"@, to: "BomPlanning"@, max_retries: 2 },
        LoopBackView { from: "DrcVerification"@, to: "RoutingPlanning"@, max_retries: 2 },
    ]);
    v
}

// ------------------------------------------------------------------------------------
// Provenance trace
// ------------------------------------------------------------------------------------

/// Renders a decision's confidence with two decimals.
pub trait ConfidenceFormat {
    fn two_decimals(&self, confidence: Magnitude) -> String;
}

pub open spec fn category_name(c: RequirementCategory) -> Seq<char> {
    match c {
        RequirementCategory::Functional => "Functional"@,
        RequirementCategory::Electrical => "Electrical"@,
        RequirementCategory::Mechanical => "Mechanical"@,
        RequirementCategory::Thermal => "Thermal"@,
        RequirementCategory::Regulatory => "Regulatory"@,
        RequirementCategory::Fabrication => "Fabrication"@,
        RequirementCategory::Cost => "Cost"@,
        RequirementCategory::Schedule => "Schedule"@,
    }
}

pub open spec fn status_name(s: RequirementStatus) -> Seq<char> {
    match s {
        RequirementStatus::Proposed => "Proposed"@,
        RequirementStatus::Accepted => "Accepted"@,
        RequirementStatus::Satisfied => "Satisfied"@,
        RequirementStatus::Violated => "Violated"@,
        RequirementStatus::Waived => "Waived"@,
    }
}

pub open spec fn evidence_kind_name(k: EvidenceKind) -> Seq<char> {
    match k {
        EvidenceKind::DesignIntentSource => "DesignIntentSource"@,
        EvidenceKind::StandardClause => "StandardClause"@,
        EvidenceKind::PriorDesign => "PriorDesign"@,
        EvidenceKind::DatasheetParameter => "DatasheetParameter"@,
        EvidenceKind::ReviewNote => "ReviewNote"@,
    }
}

pub fn category_text(c: RequirementCategory) -> (s: &'static str)
    ensures
        s@ == category_name(c),
{
    match c {
        RequirementCategory::Functional => "Functional",
        RequirementCategory::Electrical => "Electrical",
        RequirementCategory::Mechanical => "Mechanical",
        RequirementCategory::Thermal => "Thermal",
        RequirementCategory::Regulatory => "Regulatory",
        RequirementCategory::Fabrication => "Fabrication",
        RequirementCategory::Cost => "Cost",
        RequirementCategory::Schedule => "Schedule",
    }
}

pub fn status_text(s: RequirementStatus) -> (t: &'static str)
    ensures
        t@ == status_name(s),
{
    match s {
        RequirementStatus::Proposed => "Proposed",
        RequirementStatus::Accepted => "Accepted",
        RequirementStatus::Satisfied => "Satisfied",
        RequirementStatus::Violated => "Violated",
        RequirementStatus::Waived => "Waived",
    }
}

pub fn evidence_kind_text(k: EvidenceKind) -> (t: &'static str)
    ensures
        t@ == evidence_kind_name(k),
{
    match k {
        EvidenceKind::DesignIntentSource => "DesignIntentSource",
        EvidenceKind::StandardClause => "StandardClause",
        EvidenceKind::PriorDesign => "PriorDesign",
        EvidenceKind::DatasheetParameter => "DatasheetParameter",
        EvidenceKind::ReviewNote => "ReviewNote",
    }
}

/// The requirement named by `name`: the first whose full or short hex id reads `name`.
pub open spec fn names_requirement(name: Seq<char>) -> spec_fn(Requirement) -> bool {
    |r: Requirement| hex_digits(r.id.0 as nat, 32) == name || short_hex(r.id) == name
}

pub open spec fn header_text(r: Requirement) -> Seq<char> {
    "Requirement "@ + short_hex(r.id) + " ["@ + category_name(r.category) + " / "@ + status_name(r.status)
        + "]\n  \""@ + r.statement@ + "\"\n  acceptance: "@ + r.acceptance_criterion@ + "\n"@
}

pub open spec fn justifies(id: EntityId) -> spec_fn(ProvenanceLink) -> bool {
    |l: ProvenanceLink| l.from == id && l.relation == RelationType::JustifiedBy
}

pub open spec fn call_text(seq: Option<u64>) -> Seq<char> {
    match seq {
        Some(s) => decimal(s as nat),
        None => "none"@,
    }
}

pub open spec fn decision_head(d: Decision, confidence: Seq<char>) -> Seq<char> {
    "  +- Decision "@ + short_hex(d.id) + " by "@ + d.decider@ + " (confidence "@ + confidence
        + ", reasoning call #"@ + call_text(d.reasoning_call_seq) + ")\n     rationale: "@ + d.rationale@
        + "\n"@
}

pub open spec fn evidence_line(e: Evidence) -> Seq<char> {
    "     +- Evidence "@ + short_hex(e.id) + " ("@ + evidence_kind_name(e.kind) + ") from "@ + e.source@ + "\n"@
}

/// The evidence lines of a decision: one per cited evidence item that exists.
pub open spec fn evidence_lines(st: EngineeringState, ids: Seq<EntityId>) -> Seq<char>
    decreases ids.len(),
{
    if ids.len() == 0 {
        Seq::empty()
    } else {
        evidence_lines(st, ids.drop_last()) + match by_id(st.evidence@, ids.last()) {
            Some(e) => evidence_line(e),
            None => Seq::empty(),
        }
    }
}

/// The decision justifying the requirement, if its first justification link leads to one.
pub open spec fn justifying_decision(st: EngineeringState, r: Requirement) -> Option<Decision> {
    match first_where(st.links@, justifies(r.id)) {
        Some(i) => by_id(st.decisions@, st.links@[i].to),
        None => None,
    }
}

pub open spec fn intent_text(st: EngineeringState, r: Requirement) -> Seq<char> {
    match st.intent {
        Some(i) => if r.source == i.id {
            "  +- derives from Design Intent "@ + short_hex(i.id) + ": \""@ + i.statement@ + "\"\n"@
        } else {
            Seq::empty()
        },
        None => Seq::empty(),
    }
}

/// The trace of requirement `r` in state `st`, with `confidence` standing for the
/// rendered confidence of the justifying decision.
pub open spec fn trace_text(st: EngineeringState, r: Requirement, confidence: Seq<char>) -> Seq<char> {
    header_text(r) + match justifying_decision(st, r) {
        Some(d) => decision_head(d, confidence) + evidence_lines(st, d.evidence@),
        None => Seq::empty(),
    } + intent_text(st, r)
}

fn find_named<'a>(reqs: &'a Vec<Requirement>, name: &str) -> (r: Option<&'a Requirement>)
    ensures
        match r {
            Some(q) => first_where(reqs@, names_requirement(name@)) matches Some(i) && reqs@[i] == *q,
            None => first_where(reqs@, names_requirement(name@)) is None,
        },
{
    let n = reqs.len();
    let mut i: usize = 0;
    while i < n
        invariant
            n == reqs@.len(),
            i <= n,
            forall|j: int| 0 <= j < i ==> !names_requirement(name@)(#[trigger] reqs@[j]),
        decreases n - i,
    {
        let full = reqs[i].id.to_hex();
        let short = reqs[i].id.short();
        if str_equal(full.as_str(), name) || str_equal(short.as_str(), name) {
            proof {
                lemma_first_where_at(reqs@, names_requirement(name@), i as int);
            }
            return Some(&reqs[i]);
        }
        i = i + 1;
    }
    proof {
        lemma_first_where_none(reqs@, names_requirement(name@));
    }
    None
}

fn first_justification(links: &Vec<ProvenanceLink>, id: EntityId) -> (r: Option<usize>)
    ensures
        match r {
            Some(i) => first_where(links@, justifies(id)) == Some(i as int) && i < links@.len(),
            None => first_where(links@, justifies(id)) is None,
        },
{
    let n = links.len();
    let mut i: usize = 0;
    while i < n
        invariant
            n == links@.len(),
            i <= n,
            forall|j: int| 0 <= j < i ==> !justifies(id)(#[trigger] links@[j]),
        decreases n - i,
    {
        if links[i].from == id && links[i].relation == RelationType::JustifiedBy {
            proof {
                lemma_first_where_at(links@, justifies(id), i as int);
            }
            return Some(i);
        }
        i = i + 1;
    }
    proof {
        lemma_first_where_none(links@, justifies(id));
    }
    None
}

/// What tracing `name` in `st` gives: the trace of the first requirement it names, or
/// that it names none.
pub open spec fn traced(st: EngineeringState, name: Seq<char>, r: Result<String, CliError>) -> bool {
    match first_where(st.requirements@, names_requirement(name)) {
        None => r matches Err(CliError::Msg(m)) && m@ == "requirement "@ + name + " not found"@,
        Some(i) => r matches Ok(s) && exists|t: Seq<char>| s@ == #[trigger] trace_text(st, st.requirements@[i], t),
    }
}

/// Renders the provenance chain of a requirement in a state: the requirement, the
/// decision that justifies it with its evidence, and the intent it derives from.
pub fn trace_in<F: ConfidenceFormat>(st: &EngineeringState, requirement: &str, format: &F) -> (r: Result<
    String,
    CliError,
>)
    ensures
        traced(*st, requirement@, r),
{
    let req = match find_named(&st.requirements, requirement) {
        Some(q) => q,
        None => {
            return Err(
                CliError::Msg(String::from_str("requirement ").concat(requirement).concat(" not found")),
            );
        },
    };
    let mut out = String::from_str("Requirement ").concat(req.id.short().as_str()).concat(" [").concat(
        category_text(req.category),
    ).concat(" / ").concat(status_text(req.status)).concat("]\n  \"").concat(req.statement.as_str()).concat(
        "\"\n  acceptance: ",
    ).concat(req.acceptance_criterion.as_str()).concat("\n");
    let ghost header = out@;
    let ghost mut conf: Seq<char> = Seq::empty();
    let ghost mut middle: Seq<char> = Seq::empty();
    match first_justification(&st.links, req.id) {
        Some(li) => {
            match st.decision(st.links[li].to) {
                Some(dec) => {
                    let c = format.two_decimals(dec.confidence);
                    let call = match dec.reasoning_call_seq {
                        Some(s) => decimal_text(s),
                        None => String::from_str("none"),
                    };
                    let head = String::from_str("  +- Decision ").concat(dec.id.short().as_str()).concat(" by ").concat(
                        dec.decider.as_str(),
                    ).concat(" (confidence ").concat(c.as_str()).concat(", reasoning call #").concat(
                        call.as_str(),
                    ).concat(")\n     rationale: ").concat(dec.rationale.as_str()).concat("\n");
                    proof {
                        conf = c@;
                    }
                    let mut lines = String::new();
                    let n = dec.evidence.len();
                    let mut k: usize = 0;
                    while k < n
                        invariant
                            n == dec.evidence@.len(),
                            k <= n,
                            lines@ == evidence_lines(*st, dec.evidence@.take(k as int)),
                        decreases n - k,
                    {
                        proof {
                            assert(dec.evidence@.take(k + 1).drop_last() =~= dec.evidence@.take(k as int));
                        }
                        match st.evidence_item(dec.evidence[k]) {
                            Some(ev) => {
                                let line = String::from_str("     +- Evidence ").concat(ev.id.short().as_str()).concat(
                                    " (",
                                ).concat(evidence_kind_text(ev.kind)).concat(") from ").concat(ev.source.as_str()).concat(
                                    "\n",
                                );
                                lines.append(line.as_str());
                            },
                            None => {
                                proof {
                                    assert(lines@ =~= lines@ + Seq::<char>::empty());
                                }
                            },
                        }
                        k = k + 1;
                    }
                    proof {
                        assert(dec.evidence@.take(n as int) =~= dec.evidence@);
                        middle = head@ + lines@;
                    }
                    out.append(head.as_str());
                    out.append(lines.as_str());
                },
                None => {},
            }
        },
        None => {},
    }
    let ghost before_intent = out@;
    match &st.intent {
        Some(i) => {
            if req.source == i.id {
                let line = String::from_str("  +- derives from Design Intent ").concat(i.id.short().as_str()).concat(
                    ": \"",
                ).concat(i.statement.as_str()).concat("\"\n");
                out.append(line.as_str());
            }
        },
        None => {},
    }
    proof {
        assert(header == header_text(*req));
        assert(out@ =~= trace_text(*st, *req, conf));
    }
    Ok(out)
}

/// Replays a log and renders the provenance chain of a requirement (by full or short
/// hex id).
pub fn trace_cmd<F: ConfidenceFormat>(records: &Vec<EventRecord>, requirement: &str, format: &F) -> (r: Result<
    String,
    CliError,
>)
    ensures
        exists|st: EngineeringState| st@ == replayed(records@) && #[trigger] traced(st, requirement@, r),
{
    let st = replay(records);
    let r = trace_in(&st, requirement, format);
    assert(traced(st, requirement@, r));
    r
}

} // verus!
