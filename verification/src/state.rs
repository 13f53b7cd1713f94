//! Engineering State: the fold of the event log. The same fold runs live during a
//! run and during replay, so both reconstruct the same state.

use vstd::prelude::*;
use crate::domain::{
    Board, BoardView, BomLineItem, BomLineItemView, Component, Constraint, Decision, DecisionView,
    DesignIntent, EntityId, Evidence, FunctionalBlock, FunctionalBlockView, Net, NetView, Part,
    Pin, Placement, ProvenanceLink, Requirement, RequirementView, Track, Violation,
    ViolationStatus, ViolationView, Waiver, blocking,
};
use crate::lookup::{by_id, find_by_id, has_id};
use crate::ports::{Event, EventRecord};

verus! {

/// The views of a list of entities.
pub open spec fn views<T: View>(s: Seq<T>) -> Seq<T::V> {
    s.map_values(|x: T| x@)
}

/// The mathematical model of [`EngineeringState`].
pub struct StateModel {
    pub intent: Option<DesignIntent>,
    pub requirements: Seq<RequirementView>,
    pub decisions: Seq<DecisionView>,
    pub evidence: Seq<Evidence>,
    pub links: Seq<ProvenanceLink>,
    pub constraints: Seq<Constraint>,
    pub violations: Seq<ViolationView>,
    pub waivers: Seq<Waiver>,
    pub functional_blocks: Seq<FunctionalBlockView>,
    pub components: Seq<Component>,
    pub pins: Seq<Pin>,
    pub nets: Seq<NetView>,
    pub parts: Seq<Part>,
    pub bom_line_items: Seq<BomLineItemView>,
    pub board: Option<BoardView>,
    pub placements: Seq<Placement>,
    pub tracks: Seq<Track>,
}

/// The state before any event.
pub open spec fn empty_model() -> StateModel {
    StateModel {
        intent: None,
        requirements: Seq::empty(),
        decisions: Seq::empty(),
        evidence: Seq::empty(),
        links: Seq::empty(),
        constraints: Seq::empty(),
        violations: Seq::empty(),
        waivers: Seq::empty(),
        functional_blocks: Seq::empty(),
        components: Seq::empty(),
        pins: Seq::empty(),
        nets: Seq::empty(),
        parts: Seq::empty(),
        bom_line_items: Seq::empty(),
        board: None,
        placements: Seq::empty(),
        tracks: Seq::empty(),
    }
}

/// `i` is the first violation carrying `id`.
pub open spec fn first_violation(vs: Seq<ViolationView>, id: EntityId, i: int) -> bool {
    &&& 0 <= i < vs.len()
    &&& vs[i].id == id
    &&& forall|j: int| 0 <= j < i ==> (#[trigger] vs[j]).id != id
}

/// Waiving flips the first violation carrying `id` to `Waived`; other violations and
/// an unknown id leave the list unchanged.
pub open spec fn waive(vs: Seq<ViolationView>, id: EntityId) -> Seq<ViolationView> {
    if exists|i: int| first_violation(vs, id, i) {
        let i = choose|i: int| first_violation(vs, id, i);
        vs.update(i, ViolationView { status: ViolationStatus::Waived, ..vs[i] })
    } else {
        vs
    }
}

/// Folding one event: state deltas extend (or, for a waiver, update) the state; audit
/// events leave it unchanged.
pub open spec fn apply_event(s: StateModel, e: Event) -> StateModel {
    match e {
        Event::IntentCaptured { intent } => StateModel { intent: Some(intent), ..s },
        Event::RequirementCommitted { requirement } => StateModel {
            requirements: s.requirements.push(requirement@),
            ..s
        },
        Event::DecisionCreated { decision } => StateModel {
            decisions: s.decisions.push(decision@),
            ..s
        },
        Event::EvidenceReferenced { evidence } => StateModel {
            evidence: s.evidence.push(evidence),
            ..s
        },
        Event::ProvenanceLinked { link } => StateModel { links: s.links.push(link), ..s },
        Event::ConstraintCommitted { constraint } => StateModel {
            constraints: s.constraints.push(constraint),
            ..s
        },
        Event::ViolationRaised { violation } => StateModel {
            violations: s.violations.push(violation@),
            ..s
        },
        Event::WaiverGranted { waiver } => StateModel {
            violations: waive(s.violations, waiver.violation),
            waivers: s.waivers.push(waiver),
            ..s
        },
        Event::FunctionalBlockCommitted { block } => StateModel {
            functional_blocks: s.functional_blocks.push(block@),
            ..s
        },
        Event::ComponentCommitted { component } => StateModel {
            components: s.components.push(component),
            ..s
        },
        Event::PinCommitted { pin } => StateModel { pins: s.pins.push(pin), ..s },
        Event::NetCommitted { net } => StateModel { nets: s.nets.push(net@), ..s },
        Event::PartCommitted { part } => StateModel { parts: s.parts.push(part), ..s },
        Event::BomLineItemCommitted { item } => StateModel {
            bom_line_items: s.bom_line_items.push(item@),
            ..s
        },
        Event::BoardCommitted { board } => StateModel { board: Some(board@), ..s },
        Event::PlacementCommitted { placement } => StateModel {
            placements: s.placements.push(placement),
            ..s
        },
        Event::TrackCommitted { track } => StateModel { tracks: s.tracks.push(track), ..s },
        _ => s,
    }
}

/// Folding a sequence of events, oldest first.
pub open spec fn fold_events(s: StateModel, es: Seq<Event>) -> StateModel
    decreases es.len(),
{
    if es.len() == 0 {
        s
    } else {
        apply_event(fold_events(s, es.drop_last()), es.last())
    }
}

/// The events a log holds, in order.
pub open spec fn record_events(rs: Seq<EventRecord>) -> Seq<Event> {
    rs.map_values(|r: EventRecord| r.event)
}

/// The state a log denotes: the fold of its events from the empty state.
pub open spec fn replayed(rs: Seq<EventRecord>) -> StateModel {
    fold_events(empty_model(), record_events(rs))
}

/// Law (history is kept): folding more events only appends requirements, decisions and
/// provenance links; none is removed or changed.
pub proof fn lemma_history_kept(s: StateModel, es: Seq<Event>)
    ensures
        fold_events(s, es).requirements.len() >= s.requirements.len(),
        fold_events(s, es).requirements.take(s.requirements.len() as int) == s.requirements,
        fold_events(s, es).decisions.len() >= s.decisions.len(),
        fold_events(s, es).decisions.take(s.decisions.len() as int) == s.decisions,
        fold_events(s, es).links.len() >= s.links.len(),
        fold_events(s, es).links.take(s.links.len() as int) == s.links,
    decreases es.len(),
{
    if es.len() == 0 {
        assert(s.requirements.take(s.requirements.len() as int) =~= s.requirements);
        assert(s.decisions.take(s.decisions.len() as int) =~= s.decisions);
        assert(s.links.take(s.links.len() as int) =~= s.links);
    } else {
        lemma_history_kept(s, es.drop_last());
        let t = fold_events(s, es.drop_last());
        let u = fold_events(s, es);
        assert(u == apply_event(t, es.last()));
        assert(u.requirements.take(s.requirements.len() as int) =~= t.requirements.take(s.requirements.len() as int));
        assert(u.decisions.take(s.decisions.len() as int) =~= t.decisions.take(s.decisions.len() as int));
        assert(u.links.take(s.links.len() as int) =~= t.links.take(s.links.len() as int));
    }
}

/// Law (fold composition): folding a concatenation folds the first part, then the second.
pub proof fn lemma_fold_append(s: StateModel, a: Seq<Event>, b: Seq<Event>)
    ensures
        fold_events(s, a + b) == fold_events(fold_events(s, a), b),
    decreases b.len(),
{
    if b.len() == 0 {
        assert(a + b =~= a);
    } else {
        lemma_fold_append(s, a, b.drop_last());
        assert((a + b).drop_last() =~= a + b.drop_last());
        assert((a + b).last() == b.last());
    }
}

/// Everything the runtime knows about a design, kept in event order.
#[derive(Debug, PartialEq)]
pub struct EngineeringState {
    pub intent: Option<DesignIntent>,
    pub requirements: Vec<Requirement>,
    pub decisions: Vec<Decision>,
    pub evidence: Vec<Evidence>,
    pub links: Vec<ProvenanceLink>,
    pub constraints: Vec<Constraint>,
    pub violations: Vec<Violation>,
    pub waivers: Vec<Waiver>,
    pub functional_blocks: Vec<FunctionalBlock>,
    pub components: Vec<Component>,
    pub pins: Vec<Pin>,
    pub nets: Vec<Net>,
    pub parts: Vec<Part>,
    pub bom_line_items: Vec<BomLineItem>,
    pub board: Option<Board>,
    pub placements: Vec<Placement>,
    pub tracks: Vec<Track>,
}

pub open spec fn board_view(b: Option<Board>) -> Option<BoardView> {
    match b {
        Some(b) => Some(b@),
        None => None,
    }
}

impl View for EngineeringState {
    type V = StateModel;

    open spec fn view(&self) -> StateModel {
        StateModel {
            intent: self.intent,
            requirements: views(self.requirements@),
            decisions: views(self.decisions@),
            evidence: self.evidence@,
            links: self.links@,
            constraints: self.constraints@,
            violations: views(self.violations@),
            waivers: self.waivers@,
            functional_blocks: views(self.functional_blocks@),
            components: self.components@,
            pins: self.pins@,
            nets: views(self.nets@),
            parts: self.parts@,
            bom_line_items: views(self.bom_line_items@),
            board: board_view(self.board),
            placements: self.placements@,
            tracks: self.tracks@,
        }
    }
}

impl EngineeringState {
    pub fn new() -> (s: Self)
        ensures
            s@ == empty_model(),
    {
        let s = EngineeringState {
            intent: None,
            requirements: Vec::new(),
            decisions: Vec::new(),
            evidence: Vec::new(),
            links: Vec::new(),
            constraints: Vec::new(),
            violations: Vec::new(),
            waivers: Vec::new(),
            functional_blocks: Vec::new(),
            components: Vec::new(),
            pins: Vec::new(),
            nets: Vec::new(),
            parts: Vec::new(),
            bom_line_items: Vec::new(),
            board: None,
            placements: Vec::new(),
            tracks: Vec::new(),
        };
        assert(s@.requirements =~= Seq::empty());
        assert(s@.decisions =~= Seq::empty());
        assert(s@.violations =~= Seq::empty());
        assert(s@.functional_blocks =~= Seq::empty());
        assert(s@.nets =~= Seq::empty());
        assert(s@.bom_line_items =~= Seq::empty());
        s
    }

    fn waive_violation(&mut self, id: EntityId)
        ensures
            views(final(self).violations@) == waive(views(old(self).violations@), id),
            final(self).intent == old(self).intent,
            final(self).requirements == old(self).requirements,
            final(self).decisions == old(self).decisions,
            final(self).evidence == old(self).evidence,
            final(self).links == old(self).links,
            final(self).constraints == old(self).constraints,
            final(self).waivers == old(self).waivers,
            final(self).functional_blocks == old(self).functional_blocks,
            final(self).components == old(self).components,
            final(self).pins == old(self).pins,
            final(self).nets == old(self).nets,
            final(self).parts == old(self).parts,
            final(self).bom_line_items == old(self).bom_line_items,
            final(self).board == old(self).board,
            final(self).placements == old(self).placements,
            final(self).tracks == old(self).tracks,
    {
        let ghost vs = views(self.violations@);
        let n = self.violations.len();
        let mut i: usize = 0;
        let mut found = false;
        while i < n
            invariant_except_break
                !found,
            invariant
                n == self.violations@.len(),
                vs == views(self.violations@),
                i <= n,
                forall|j: int| 0 <= j < i ==> (#[trigger] self.violations@[j]).id != id,
            ensures
                found ==> i < n && self.violations@[i as int].id == id,
                !found ==> i == n,
            decreases n - i,
        {
            if self.violations[i].id == id {
                found = true;
                break;
            }
            i = i + 1;
        }
        if found {
            let mut v = self.violations[i].clone();
            v.status = ViolationStatus::Waived;
            self.violations.set(i, v);
            proof {
                assert(first_violation(vs, id, i as int));
                let k = choose|k: int| first_violation(vs, id, k);
                if k < i {
                    assert(vs[k].id == old(self).violations@[k].id);
                } else if i < k {
                    assert(vs[i as int].id == id);
                }
                assert(views(self.violations@) =~= waive(vs, id));
            }
        } else {
            proof {
                assert forall|k: int| !first_violation(vs, id, k) by {
                    if 0 <= k < vs.len() {
                        assert(vs[k].id == self.violations@[k].id);
                    }
                }
            }
        }
    }

    /// Fold one event.
    pub fn apply(&mut self, event: &Event)
        ensures
            final(self)@ == apply_event(old(self)@, *event),
    {
        let ghost s0 = self@;
        match event {
            Event::IntentCaptured { intent } => {
                self.intent = Some(intent.clone());
            },
            Event::RequirementCommitted { requirement } => {
                self.requirements.push(requirement.clone());
                assert(views(self.requirements@) =~= s0.requirements.push(requirement@));
            },
            Event::DecisionCreated { decision } => {
                self.decisions.push(decision.clone());
                assert(views(self.decisions@) =~= s0.decisions.push(decision@));
            },
            Event::EvidenceReferenced { evidence } => {
                self.evidence.push(evidence.clone());
            },
            Event::ProvenanceLinked { link } => {
                self.links.push(*link);
            },
            Event::ConstraintCommitted { constraint } => {
                self.constraints.push(constraint.clone());
            },
            Event::ViolationRaised { violation } => {
                self.violations.push(violation.clone());
                assert(views(self.violations@) =~= s0.violations.push(violation@));
            },
            Event::WaiverGranted { waiver } => {
                self.waive_violation(waiver.violation);
                self.waivers.push(waiver.clone());
            },
            Event::FunctionalBlockCommitted { block } => {
                self.functional_blocks.push(block.clone());
                assert(views(self.functional_blocks@) =~= s0.functional_blocks.push(block@));
            },
            Event::ComponentCommitted { component } => {
                self.components.push(component.clone());
            },
            Event::PinCommitted { pin } => {
                self.pins.push(pin.clone());
            },
            Event::NetCommitted { net } => {
                self.nets.push(net.clone());
                assert(views(self.nets@) =~= s0.nets.push(net@));
            },
            Event::PartCommitted { part } => {
                self.parts.push(part.clone());
            },
            Event::BomLineItemCommitted { item } => {
                self.bom_line_items.push(item.clone());
                assert(views(self.bom_line_items@) =~= s0.bom_line_items.push(item@));
            },
            Event::BoardCommitted { board } => {
                self.board = Some(board.clone());
            },
            Event::PlacementCommitted { placement } => {
                self.placements.push(*placement);
            },
            Event::TrackCommitted { track } => {
                self.tracks.push(*track);
            },
            _ => {},
        }
    }

    pub fn requirement(&self, id: EntityId) -> (r: Option<&Requirement>)
        ensures
            r is Some <==> has_id(self.requirements@, id),
            r matches Some(x) ==> by_id(self.requirements@, id) == Some(*x),
    {
        find_by_id(&self.requirements, id)
    }

    pub fn decision(&self, id: EntityId) -> (r: Option<&Decision>)
        ensures
            r is Some <==> has_id(self.decisions@, id),
            r matches Some(x) ==> by_id(self.decisions@, id) == Some(*x),
    {
        find_by_id(&self.decisions, id)
    }

    pub fn evidence_item(&self, id: EntityId) -> (r: Option<&Evidence>)
        ensures
            r is Some <==> has_id(self.evidence@, id),
            r matches Some(x) ==> by_id(self.evidence@, id) == Some(*x),
    {
        find_by_id(&self.evidence, id)
    }

    pub fn constraint(&self, id: EntityId) -> (r: Option<&Constraint>)
        ensures
            r is Some <==> has_id(self.constraints@, id),
            r matches Some(x) ==> by_id(self.constraints@, id) == Some(*x),
    {
        find_by_id(&self.constraints, id)
    }

    pub fn violation(&self, id: EntityId) -> (r: Option<&Violation>)
        ensures
            r is Some <==> has_id(self.violations@, id),
            r matches Some(x) ==> by_id(self.violations@, id) == Some(*x),
    {
        find_by_id(&self.violations, id)
    }

    pub fn functional_block(&self, id: EntityId) -> (r: Option<&FunctionalBlock>)
        ensures
            r is Some <==> has_id(self.functional_blocks@, id),
            r matches Some(x) ==> by_id(self.functional_blocks@, id) == Some(*x),
    {
        find_by_id(&self.functional_blocks, id)
    }

    pub fn component(&self, id: EntityId) -> (r: Option<&Component>)
        ensures
            r is Some <==> has_id(self.components@, id),
            r matches Some(x) ==> by_id(self.components@, id) == Some(*x),
    {
        find_by_id(&self.components, id)
    }

    pub fn pin(&self, id: EntityId) -> (r: Option<&Pin>)
        ensures
            r is Some <==> has_id(self.pins@, id),
            r matches Some(x) ==> by_id(self.pins@, id) == Some(*x),
    {
        find_by_id(&self.pins, id)
    }

    pub fn net(&self, id: EntityId) -> (r: Option<&Net>)
        ensures
            r is Some <==> has_id(self.nets@, id),
            r matches Some(x) ==> by_id(self.nets@, id) == Some(*x),
    {
        find_by_id(&self.nets, id)
    }

    pub fn part(&self, id: EntityId) -> (r: Option<&Part>)
        ensures
            r is Some <==> has_id(self.parts@, id),
            r matches Some(x) ==> by_id(self.parts@, id) == Some(*x),
    {
        find_by_id(&self.parts, id)
    }

    pub fn bom_line_item(&self, id: EntityId) -> (r: Option<&BomLineItem>)
        ensures
            r is Some <==> has_id(self.bom_line_items@, id),
            r matches Some(x) ==> by_id(self.bom_line_items@, id) == Some(*x),
    {
        find_by_id(&self.bom_line_items, id)
    }

    pub fn board(&self) -> (r: Option<&Board>)
        ensures
            r matches Some(b) ==> self.board == Some(*b),
            r is None <==> self.board is None,
    {
        self.board.as_ref()
    }

    pub fn placement(&self, id: EntityId) -> (r: Option<&Placement>)
        ensures
            r is Some <==> has_id(self.placements@, id),
            r matches Some(x) ==> by_id(self.placements@, id) == Some(*x),
    {
        find_by_id(&self.placements, id)
    }

    pub fn track(&self, id: EntityId) -> (r: Option<&Track>)
        ensures
            r is Some <==> has_id(self.tracks@, id),
            r matches Some(x) ==> by_id(self.tracks@, id) == Some(*x),
    {
        find_by_id(&self.tracks, id)
    }

    /// The open, blocking violations, in order: the workflow gate.
    pub fn open_blocking_violations(&self) -> (r: Vec<&Violation>)
        ensures
            r@.map_values(|v: &Violation| v@) == views(self.violations@).filter(
                |v: ViolationView| blocking(v),
            ),
    {
        let ghost all = views(self.violations@);
        let ghost pred = |v: ViolationView| blocking(v);
        let mut out: Vec<&Violation> = Vec::new();
        let n = self.violations.len();
        let mut i: usize = 0;
        proof {
            reveal(Seq::filter);
            assert(all.take(0).filter(pred) =~= Seq::empty());
            assert(out@.map_values(|v: &Violation| v@) =~= Seq::empty());
        }
        while i < n
            invariant
                n == self.violations@.len(),
                all == views(self.violations@),
                pred == (|v: ViolationView| blocking(v)),
                i <= n,
                out@.map_values(|v: &Violation| v@) == all.take(i as int).filter(pred),
            decreases n - i,
        {
            let v = &self.violations[i];
            proof {
                reveal(Seq::filter);
                assert(all.take(i + 1).drop_last() =~= all.take(i as int));
                assert(all.take(i + 1).last() == v@);
            }
            if v.is_blocking() {
                out.push(v);
                assert(out@.map_values(|v: &Violation| v@) =~= all.take(i as int).filter(pred).push(v@));
            }
            i = i + 1;
        }
        assert(all.take(n as int) =~= all);
        out
    }
}

/// The state a log denotes, rebuilt by folding every event in order, touching neither
/// a model nor a clock.
pub fn replay(records: &Vec<EventRecord>) -> (s: EngineeringState)
    ensures
        s@ == replayed(records@),
{
    let mut s = EngineeringState::new();
    let n = records.len();
    let mut i: usize = 0;
    while i < n
        invariant
            n == records@.len(),
            i <= n,
            s@ == fold_events(empty_model(), record_events(records@.take(i as int))),
        decreases n - i,
    {
        s.apply(&records[i].event);
        proof {
            assert(record_events(records@.take(i + 1)).drop_last() =~= record_events(records@.take(i as int)));
            assert(record_events(records@.take(i + 1)).last() == records@[i as int].event);
        }
        i = i + 1;
    }
    assert(records@.take(n as int) =~= records@);
    s
}

} // verus!
