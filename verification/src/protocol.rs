//! The agent runtime protocol: the capability requests through which agents propose
//! mutations, and what the runtime's seam admits of each.

use vstd::prelude::*;
use crate::domain::{
    blank_field_check, bom_line_item_check, constraint_check, domain_error_text,
    requirement_check, short_hex, Board, BomLineItem, Component, Constraint, Decision,
    DomainError, EntityId, Evidence, FunctionalBlock, Net, Part, Pin, Placement, ProvenanceLink,
    Requirement, Track, Violation, Waiver,
};
use crate::lookup::{first_where, has_id};
use crate::ports::Event;
use crate::state::EngineeringState;

verus! {

/// Autonomy level.
#[derive(Debug, Clone, Copy, PartialEq, Eq, Structural)]
pub enum Autonomy {
    Autonomous,
    Supervised,
}

/// What the execution engine tells an agent when it activates it.
#[derive(Debug)]
pub struct AgentActivation {
    pub phase: String,
    pub goal: String,
    pub budget: Budget,
}

#[derive(Debug, Clone, Copy, PartialEq, Eq, Structural)]
pub struct Budget {
    pub max_reasoning_calls: u32,
}

/// How an agent's activation ended.
#[derive(Debug, PartialEq)]
pub enum AgentOutcome {
    Success { committed: usize },
    NeedsHuman(String),
    Failed(String),
}

/// A proposed mutation: the only way an agent acts on the world.
#[derive(Debug, PartialEq)]
pub enum CapabilityRequest {
    CreateRequirement {
        requirement: Requirement,
        decision: Decision,
        evidence: Vec<Evidence>,
        links: Vec<ProvenanceLink>,
    },
    CreateConstraint { constraint: Constraint, links: Vec<ProvenanceLink> },
    RaiseViolation { violation: Violation, links: Vec<ProvenanceLink> },
    GrantWaiver { waiver: Waiver },
    CreateFunctionalBlock { block: FunctionalBlock, links: Vec<ProvenanceLink> },
    RealizeComponent { component: Component, pins: Vec<Pin>, links: Vec<ProvenanceLink> },
    CreateNet { net: Net, links: Vec<ProvenanceLink> },
    CreatePart { part: Part, links: Vec<ProvenanceLink> },
    CreateBomLineItem { item: BomLineItem, links: Vec<ProvenanceLink> },
    CreateBoard { board: Board, links: Vec<ProvenanceLink> },
    PlaceComponent { placement: Placement, links: Vec<ProvenanceLink> },
    RouteNet { track: Track, links: Vec<ProvenanceLink> },
}

/// A proposal rejected at the seam.
#[derive(Debug, Clone, PartialEq, Eq)]
pub enum CapabilityError {
    Rejected(String),
}

impl CapabilityError {
    pub fn message(&self) -> (s: String)
        ensures
            self matches CapabilityError::Rejected(m) ==> s@ == "capability rejected: "@ + m@,
    {
        match self {
            CapabilityError::Rejected(m) => String::from_str("capability rejected: ").concat(
                m.as_str(),
            ),
        }
    }
}

/// The sequence numbers a committed request was recorded at.
#[derive(Debug, PartialEq)]
pub struct CapabilityAck {
    pub committed: Vec<u64>,
}

/// `prefix`, the short form of `id`, then `suffix`.
pub open spec fn with_id(prefix: Seq<char>, id: EntityId, suffix: Seq<char>) -> Seq<char> {
    prefix + short_hex(id) + suffix
}

pub fn text_with_id(prefix: &str, id: EntityId, suffix: &str) -> (s: String)
    ensures
        s@ == with_id(prefix@, id, suffix@),
{
    String::from_str(prefix).concat(id.short().as_str()).concat(suffix)
}

pub open spec fn supervised_text() -> Seq<char> {
    "supervised autonomy requires human approval (HITL deferred to a later phase)"@
}

/// The text of a failed intrinsic check, if it failed.
pub open spec fn check_text(r: Result<(), DomainError>) -> Option<Seq<char>> {
    match r {
        Err(e) => Some(domain_error_text(e)),
        Ok(()) => None,
    }
}

/// Some line item already covers component `cid`.
pub open spec fn covered_by_line(items: Seq<BomLineItem>, cid: EntityId) -> bool {
    exists|l: int| 0 <= l < items.len() && (#[trigger] items[l]).components@.contains(cid)
}

/// Some placement already places component `cid`.
pub open spec fn already_placed(ps: Seq<Placement>, cid: EntityId) -> bool {
    exists|k: int| 0 <= k < ps.len() && (#[trigger] ps[k]).component == cid
}

/// Some track already realizes net `nid`.
pub open spec fn already_routed(ts: Seq<Track>, nid: EntityId) -> bool {
    exists|k: int| 0 <= k < ts.len() && (#[trigger] ts[k]).net == nid
}

/// Why the seam rejects a request, given the state it is proposed against; `None`
/// when the request is admitted. `numeric` stands for the entity's own numeric
/// validation and is consulted only for geometric requests.
pub open spec fn rejection(
    st: EngineeringState,
    autonomy: Autonomy,
    req: CapabilityRequest,
    numeric: Result<(), DomainError>,
) -> Option<Seq<char>> {
    match req {
        CapabilityRequest::CreateRequirement { requirement, .. } => {
            if requirement_check(requirement@) is Err {
                check_text(requirement_check(requirement@))
            } else if autonomy == Autonomy::Supervised {
                Some(supervised_text())
            } else {
                None
            }
        },
        CapabilityRequest::CreateConstraint { constraint, .. } => {
            if constraint_check(&constraint) is Err {
                check_text(constraint_check(&constraint))
            } else if constraint.subject_requirement.0 == 0 {
                Some("constraint has no subject requirement"@)
            } else if !has_id(st.requirements@, constraint.subject_requirement) {
                Some(
                    with_id(
                        "constraint subject requirement "@,
                        constraint.subject_requirement,
                        " does not exist"@,
                    ),
                )
            } else {
                None
            }
        },
        CapabilityRequest::RaiseViolation { violation, .. } => {
            if violation.subjects@.len() == 0 {
                Some("violation names no subjects (would be untraceable)"@)
            } else {
                None
            }
        },
        CapabilityRequest::GrantWaiver { waiver } => {
            if autonomy == Autonomy::Supervised {
                Some(supervised_text())
            } else if !has_id(st.violations@, waiver.violation) {
                Some(with_id("waiver targets unknown violation "@, waiver.violation, ""@))
            } else {
                None
            }
        },
        CapabilityRequest::CreateFunctionalBlock { block, .. } => {
            let missing = first_where(
                block.requirements@,
                |rid: EntityId| !has_id(st.requirements@, rid),
            );
            if blank_field_check(block.name@, "functional block name") is Err {
                check_text(blank_field_check(block.name@, "functional block name"))
            } else if block.requirements@.len() == 0 {
                Some("functional block realizes no requirement (would be untraceable)"@)
            } else if missing is Some {
                Some(
                    with_id(
                        "functional block references unknown requirement "@,
                        block.requirements@[missing->0],
                        ""@,
                    ),
                )
            } else {
                None
            }
        },
        CapabilityRequest::RealizeComponent { component, pins, .. } => {
            if blank_field_check(component.refdes@, "component reference designator") is Err {
                check_text(blank_field_check(component.refdes@, "component reference designator"))
            } else if component.from_block.0 == 0 {
                Some("component has no originating functional block"@)
            } else if !has_id(st.functional_blocks@, component.from_block) {
                Some(
                    with_id(
                        "component originates from unknown functional block "@,
                        component.from_block,
                        ""@,
                    ),
                )
            } else if pins@.len() == 0 {
                Some("component has no pins"@)
            } else {
                None
            }
        },
        CapabilityRequest::CreateNet { net, .. } => {
            let missing = first_where(net.members@, |pid: EntityId| !has_id(st.pins@, pid));
            if blank_field_check(net.name@, "net name") is Err {
                check_text(blank_field_check(net.name@, "net name"))
            } else if net.members@.len() == 0 {
                Some("net joins no pins (carries no connectivity)"@)
            } else if missing is Some {
                Some(with_id("net references unknown pin "@, net.members@[missing->0], ""@))
            } else {
                None
            }
        },
        CapabilityRequest::CreatePart { part, .. } => check_text(
            blank_field_check(part.mpn@, "manufacturer part number"),
        ),
        CapabilityRequest::CreateBomLineItem { item, .. } => {
            let bad = first_where(
                item.components@,
                |cid: EntityId|
                    !has_id(st.components@, cid) || covered_by_line(st.bom_line_items@, cid),
            );
            if bom_line_item_check(item@) is Err {
                check_text(bom_line_item_check(item@))
            } else if item.part.0 == 0 {
                Some("BOM line item has no part"@)
            } else if !has_id(st.parts@, item.part) {
                Some(with_id("BOM line item references unknown part "@, item.part, ""@))
            } else if bad is Some {
                let cid = item.components@[bad->0];
                if !has_id(st.components@, cid) {
                    Some(with_id("BOM line item references unknown component "@, cid, ""@))
                } else {
                    Some(
                        with_id(
                            "BOM line item double-covers component "@,
                            cid,
                            " (already on another line)"@,
                        ),
                    )
                }
            } else {
                None
            }
        },
        CapabilityRequest::CreateBoard { .. } => {
            if numeric is Err {
                check_text(numeric)
            } else if st.board is Some {
                Some("design already has a board outline"@)
            } else {
                None
            }
        },
        CapabilityRequest::PlaceComponent { placement, .. } => {
            if numeric is Err {
                check_text(numeric)
            } else if placement.component.0 == 0 {
                Some("placement has no component"@)
            } else if !has_id(st.components@, placement.component) {
                Some(
                    with_id(
                        "placement references unknown component "@,
                        placement.component,
                        ""@,
                    ),
                )
            } else if st.board is None {
                Some("cannot place a component before the board outline exists"@)
            } else if already_placed(st.placements@, placement.component) {
                Some("component is already placed"@)
            } else {
                None
            }
        },
        CapabilityRequest::RouteNet { track, .. } => {
            if numeric is Err {
                check_text(numeric)
            } else if track.net.0 == 0 {
                Some("track realizes no net"@)
            } else if !has_id(st.nets@, track.net) {
                Some(with_id("track realizes unknown net "@, track.net, ""@))
            } else if st.board is None {
                Some("cannot route a net before the board outline exists"@)
            } else if already_routed(st.tracks@, track.net) {
                Some("net is already routed"@)
            } else {
                None
            }
        },
    }
}

/// The provenance-link events for a list of links, in order.
pub open spec fn link_events(links: Seq<ProvenanceLink>) -> Seq<Event> {
    links.map_values(|l: ProvenanceLink| Event::ProvenanceLinked { link: l })
}

/// The events an admitted request commits, in order: the entity (with its decision,
/// evidence or pins where the request carries them), then its provenance links.
pub open spec fn request_events(req: CapabilityRequest) -> Seq<Event> {
    match req {
        CapabilityRequest::CreateRequirement { requirement, decision, evidence, links } => evidence@.map_values(
            |e: Evidence| Event::EvidenceReferenced { evidence: e },
        ) + seq![
            Event::DecisionCreated { decision },
            Event::RequirementCommitted { requirement },
        ] + link_events(links@),
        CapabilityRequest::CreateConstraint { constraint, links } => seq![
            Event::ConstraintCommitted { constraint },
        ] + link_events(links@),
        CapabilityRequest::RaiseViolation { violation, links } => seq![
            Event::ViolationRaised { violation },
        ] + link_events(links@),
        CapabilityRequest::GrantWaiver { waiver } => seq![Event::WaiverGranted { waiver }],
        CapabilityRequest::CreateFunctionalBlock { block, links } => seq![
            Event::FunctionalBlockCommitted { block },
        ] + link_events(links@),
        CapabilityRequest::RealizeComponent { component, pins, links } => seq![
            Event::ComponentCommitted { component },
        ] + pins@.map_values(|p: Pin| Event::PinCommitted { pin: p }) + link_events(links@),
        CapabilityRequest::CreateNet { net, links } => seq![Event::NetCommitted { net }]
            + link_events(links@),
        CapabilityRequest::CreatePart { part, links } => seq![Event::PartCommitted { part }]
            + link_events(links@),
        CapabilityRequest::CreateBomLineItem { item, links } => seq![
            Event::BomLineItemCommitted { item },
        ] + link_events(links@),
        CapabilityRequest::CreateBoard { board, links } => seq![Event::BoardCommitted { board }]
            + link_events(links@),
        CapabilityRequest::PlaceComponent { placement, links } => seq![
            Event::PlacementCommitted { placement },
        ] + link_events(links@),
        CapabilityRequest::RouteNet { track, links } => seq![Event::TrackCommitted { track }]
            + link_events(links@),
    }
}

} // verus!
