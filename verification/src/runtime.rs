//! The engineering runtime kernel: the sole mutator of Engineering State.
//!
//! Every event funnels through one commit path: stamp (clock), append (event log),
//! fold (state). Its invariant is the kernel's central law: the live state is always
//! the replay of the log. Capability handlers re-validate proposals at the seam
//! and commit nothing when they reject.

use vstd::prelude::*;
use crate::clock::{Clock, IdSource, LogicalClock, SeededIdSource, SystemClock};
use crate::domain::{
    Board, BomLineItem, Component, Constraint, Decision, DesignIntent, DomainError, EntityId,
    Evidence, FunctionalBlock, Net, Part, Pin, Placement, ProvenanceLink, Requirement, Track,
    Violation, Waiver,
};
use crate::lookup::{
    contains_id, first_where, has_id, ids_contain, HasId, is_first_where, lemma_first_where_at,
    lemma_first_where_none,
};
use crate::ports::{
    Event, EventRecord, ReasoningEngine, ReasoningError, ReasoningRequest, ReasoningResponse,
    Timestamp,
};
use crate::protocol::{
    already_placed, already_routed, covered_by_line, link_events, rejection, request_events,
    text_with_id, Autonomy, CapabilityAck, CapabilityError, CapabilityRequest,
};
use crate::state::{
    apply_event, empty_model, fold_events, lemma_fold_append, record_events, replayed, views,
    EngineeringState, StateModel,
};

verus! {

/// The clock a run stamps its events with.
pub enum RunClock {
    Logical(LogicalClock),
    System(SystemClock),
}

impl RunClock {
    /// A logical clock reads its counter and advances it; the system clock reads the
    /// machine's time and stays the system clock.
    fn now(&mut self) -> (t: Timestamp)
        ensures
            match *old(self) {
                RunClock::Logical(c) => t.0 == c.next && *final(self) == RunClock::Logical(
                    LogicalClock { next: c.next.wrapping_add(1) },
                ),
                RunClock::System(_) => *final(self) is System,
            },
    {
        match self {
            RunClock::Logical(c) => c.now(),
            RunClock::System(c) => c.now(),
        }
    }
}

/// `new_log` is `old_log` followed by one record per event of `events`, numbered by
/// position.
pub open spec fn appended(old_log: Seq<EventRecord>, new_log: Seq<EventRecord>, events: Seq<Event>) -> bool {
    &&& new_log.len() == old_log.len() + events.len()
    &&& new_log.take(old_log.len() as int) == old_log
    &&& forall|i: int|
        0 <= i < events.len() ==> (#[trigger] new_log[old_log.len() + i]).event == events[i]
            && new_log[old_log.len() + i].seq == old_log.len() + i
}

/// The sequence numbers `start, start + 1, ..., start + n - 1`.
pub open spec fn seq_range(start: nat, n: nat) -> Seq<u64> {
    Seq::new(n, |i: int| (start + i) as u64)
}

/// The kernel: state, log, reasoning port, id source, clock and autonomy level.
pub struct RuntimeCore<E: ReasoningEngine> {
    state: EngineeringState,
    log: Vec<EventRecord>,
    reasoning: E,
    ids: SeededIdSource,
    clock: RunClock,
    autonomy: Autonomy,
}

/// What a kernel shows of itself, whatever its reasoning engine: its state, its log, its id
/// source and its autonomy.
pub struct KernelView {
    pub state: EngineeringState,
    pub log: Seq<EventRecord>,
    pub ids: u64,
    pub autonomy: Autonomy,
}

impl KernelView {
    pub open spec fn state_value(&self) -> EngineeringState {
        self.state
    }

    pub open spec fn log_value(&self) -> Seq<EventRecord> {
        self.log
    }

    pub open spec fn id_state(&self) -> u64 {
        self.ids
    }

    pub open spec fn autonomy_value(&self) -> Autonomy {
        self.autonomy
    }
}

impl<E: ReasoningEngine> RuntimeCore<E> {
    /// The kernel invariant: the state is the replay of the log, and each record's
    /// sequence number is its position.
    pub closed spec fn wf(&self) -> bool {
        &&& self.state@ == replayed(self.log@)
        &&& forall|i: int| 0 <= i < self.log@.len() ==> (#[trigger] self.log@[i]).seq == i
    }

    pub closed spec fn state_value(&self) -> EngineeringState {
        self.state
    }

    pub closed spec fn log_value(&self) -> Seq<EventRecord> {
        self.log@
    }

    pub closed spec fn autonomy_value(&self) -> Autonomy {
        self.autonomy
    }

    pub closed spec fn id_state(&self) -> u64 {
        self.ids.state
    }

    /// What the kernel shows of itself.
    pub open spec fn kernel(&self) -> KernelView {
        KernelView {
            state: self.state_value(),
            log: self.log_value(),
            ids: self.id_state(),
            autonomy: self.autonomy_value(),
        }
    }

    /// Everything but the state and the log (and the clock, which is consulted on every
    /// commit) is the same in `self` and `other`.
    pub closed spec fn same_ports(&self, other: &Self) -> bool {
        &&& self.reasoning == other.reasoning
        &&& self.ids == other.ids
        &&& self.autonomy == other.autonomy
    }

    pub fn new(reasoning: E, ids: SeededIdSource, clock: RunClock, autonomy: Autonomy) -> (core: Self)
        ensures
            core.wf(),
            core.state_value()@ == empty_model(),
            core.log_value().len() == 0,
            core.autonomy_value() == autonomy,
            core.id_state() == ids.state,
    {
        let core = RuntimeCore {
            state: EngineeringState::new(),
            log: Vec::new(),
            reasoning,
            ids,
            clock,
            autonomy,
        };
        assert(record_events(core.log@) =~= Seq::empty());
        core
    }

    /// The current state.
    pub fn state(&self) -> (s: &EngineeringState)
        ensures
            *s == self.state_value(),
    {
        &self.state
    }

    /// The recorded history, oldest first.
    pub fn log(&self) -> (l: &Vec<EventRecord>)
        ensures
            l@ == self.log_value(),
    {
        &self.log
    }

    pub fn autonomy(&self) -> (a: Autonomy)
        ensures
            a == self.autonomy_value(),
    {
        self.autonomy
    }

    /// The single commit path: stamp, append, fold, for each event in order.
    fn commit(&mut self, events: Vec<Event>) -> (seqs: Vec<u64>)
        requires
            old(self).wf(),
        ensures
            final(self).wf(),
            appended(old(self).log@, final(self).log@, events@),
            final(self).state@ == fold_events(old(self).state@, events@),
            seqs@ == seq_range(old(self).log@.len(), events@.len()),
            final(self).same_ports(old(self)),
    {
        let ghost orig = events@;
        let ghost old_log = self.log@;
        let ghost old_state = self.state@;
        let start = self.log.len();
        let n = events.len();
        let mut events = events;
        let mut seqs: Vec<u64> = Vec::new();
        let mut k: usize = 0;
        proof {
            assert(orig.take(0) =~= Seq::<Event>::empty());
            assert(self.log@.take(start as int) =~= self.log@);
            assert(seqs@ =~= seq_range(start as nat, 0));
        }
        while k < n
            invariant
                self.wf(),
                n == orig.len(),
                start == old_log.len(),
                0 <= k <= n,
                events@ == orig.skip(k as int),
                appended(old_log, self.log@, orig.take(k as int)),
                self.state@ == fold_events(old_state, orig.take(k as int)),
                seqs@ == seq_range(start as nat, k as nat),
                self.reasoning == old(self).reasoning,
                self.ids == old(self).ids,
                self.autonomy == old(self).autonomy,
            decreases n - k,
        {
            let e = events.remove(0);
            let ts = self.clock.now();
            let ghost before = self.log@;
            self.state.apply(&e);
            let seq = self.log.len() as u64;
            self.log.push(EventRecord { seq, timestamp: ts, event: e });
            seqs.push(seq);
            proof {
                assert(e == orig[k as int]);
                assert(orig.take(k + 1) =~= orig.take(k as int).push(e));
                assert(orig.take(k + 1).drop_last() =~= orig.take(k as int));
                assert(record_events(self.log@) =~= record_events(before).push(e));
                assert(record_events(self.log@).drop_last() =~= record_events(before));
                assert(replayed(self.log@) == apply_event(replayed(before), e));
                assert(fold_events(old_state, orig.take(k + 1)) == apply_event(
                    fold_events(old_state, orig.take(k as int)), e));
                assert(events@ =~= orig.skip(k + 1));
                assert(self.log@.take(start as int) =~= old_log);
                assert(seqs@ =~= seq_range(start as nat, (k + 1) as nat));
                assert forall|i: int| 0 <= i < self.log@.len() implies (#[trigger] self.log@[i]).seq == i by {
                    if i < before.len() {
                        assert(self.log@[i] == before[i]);
                    }
                }
                assert forall|i: int| 0 <= i < k + 1 implies (#[trigger] self.log@[old_log.len() + i]).event
                    == orig.take(k + 1)[i] && self.log@[old_log.len() + i].seq == old_log.len() + i by {
                    if i < k {
                        assert(self.log@[old_log.len() + i] == before[old_log.len() + i]);
                    }
                }
            }
            k = k + 1;
        }
        proof {
            assert(orig.take(n as int) =~= orig);
        }
        seqs
    }

    /// Emit trusted audit or input events (phase lifecycle, captured intent, IR
    /// milestones) through the commit path.
    pub fn emit(&mut self, events: Vec<Event>) -> (seqs: Vec<u64>)
        requires
            old(self).wf(),
        ensures
            final(self).wf(),
            appended(old(self).log_value(), final(self).log_value(), events@),
            final(self).state_value()@ == fold_events(old(self).state_value()@, events@),
            seqs@ == seq_range(old(self).log_value().len(), events@.len()),
            final(self).same_ports(old(self)),
            final(self).autonomy_value() == old(self).autonomy_value(),
            final(self).id_state() == old(self).id_state(),
    {
        self.commit(events)
    }

    /// Mint a fresh id.
    pub fn fresh_id(&mut self) -> (id: EntityId)
        requires
            old(self).wf(),
        ensures
            final(self).wf(),
            id.0 != 0,
            final(self).state_value() == old(self).state_value(),
            final(self).log_value() == old(self).log_value(),
            final(self).autonomy_value() == old(self).autonomy_value(),
    {
        self.ids.fresh()
    }

    /// Seed the run with the engineer's intent (trusted input, not model output).
    pub fn capture_intent(&mut self, statement: &str, source: &str) -> (id: EntityId)
        requires
            old(self).wf(),
        ensures
            final(self).wf(),
            id.0 != 0,
            appended(
                old(self).log_value(),
                final(self).log_value(),
                seq![
                    Event::IntentCaptured {
                        intent: final(self).state_value().intent->0,
                    },
                ],
            ),
            final(self).state_value().intent matches Some(i) && i.id == id && i.statement@
                == statement@ && i.structured_summary@ == statement@ && i.source@ == source@,
            final(self).autonomy_value() == old(self).autonomy_value(),
    {
        let id = self.ids.fresh();
        let intent = DesignIntent {
            id,
            statement: String::from_str(statement),
            structured_summary: String::from_str(statement),
            source: String::from_str(source),
        };
        let mut events: Vec<Event> = Vec::new();
        events.push(Event::IntentCaptured { intent });
        let ghost es = events@;
        self.commit(events);
        proof {
            assert(es =~= seq![es[0]]);
            reveal_with_fuel(fold_events, 2);
        }
        id
    }
}


/// What `invoke` promises: an admitted request commits exactly its events; a rejected
/// one names its reason and leaves the kernel untouched.
pub open spec fn invoke_post<E: ReasoningEngine>(
    before: &RuntimeCore<E>,
    after: &RuntimeCore<E>,
    req: CapabilityRequest,
    numeric: Result<(), DomainError>,
    r: Result<CapabilityAck, CapabilityError>,
) -> bool {
    match r {
        Ok(ack) => {
            &&& rejection(before.state_value(), before.autonomy_value(), req, numeric) is None
            &&& appended(before.log_value(), after.log_value(), request_events(req))
            &&& after.state_value()@ == fold_events(before.state_value()@, request_events(req))
            &&& ack.committed@ == seq_range(before.log_value().len(), request_events(req).len())
            &&& after.same_ports(before)
            &&& after.autonomy_value() == before.autonomy_value()
            &&& after.id_state() == before.id_state()
        },
        Err(CapabilityError::Rejected(m)) => {
            &&& rejection(before.state_value(), before.autonomy_value(), req, numeric) == Some(m@)
            &&& *after == *before
        },
    }
}

fn push_link_events(events: &mut Vec<Event>, links: Vec<ProvenanceLink>)
    ensures
        final(events)@ == old(events)@ + link_events(links@),
{
    let ghost start = events@;
    let n = links.len();
    let mut i: usize = 0;
    while i < n
        invariant
            n == links@.len(),
            i <= n,
            events@ == start + link_events(links@.take(i as int)),
        decreases n - i,
    {
        events.push(Event::ProvenanceLinked { link: links[i] });
        proof {
            assert(link_events(links@.take(i + 1)) =~= link_events(links@.take(i as int)).push(
                Event::ProvenanceLinked { link: links@[i as int] },
            ));
        }
        i = i + 1;
    }
    assert(links@.take(n as int) =~= links@);
}

fn evidence_events(evidence: &Vec<Evidence>) -> (events: Vec<Event>)
    ensures
        events@ == evidence@.map_values(|e: Evidence| Event::EvidenceReferenced { evidence: e }),
{
    let mut events: Vec<Event> = Vec::new();
    let n = evidence.len();
    let mut i: usize = 0;
    while i < n
        invariant
            n == evidence@.len(),
            i <= n,
            events@ == evidence@.take(i as int).map_values(
                |e: Evidence| Event::EvidenceReferenced { evidence: e },
            ),
        decreases n - i,
    {
        events.push(Event::EvidenceReferenced { evidence: evidence[i].clone() });
        proof {
            assert(evidence@.take(i + 1).map_values(
                |e: Evidence| Event::EvidenceReferenced { evidence: e },
            ) =~= evidence@.take(i as int).map_values(
                |e: Evidence| Event::EvidenceReferenced { evidence: e },
            ).push(Event::EvidenceReferenced { evidence: evidence@[i as int] }));
        }
        i = i + 1;
    }
    assert(evidence@.take(n as int) =~= evidence@);
    events
}

fn pin_events(pins: &Vec<Pin>) -> (events: Vec<Event>)
    ensures
        events@ == pins@.map_values(|p: Pin| Event::PinCommitted { pin: p }),
{
    let mut events: Vec<Event> = Vec::new();
    let n = pins.len();
    let mut i: usize = 0;
    while i < n
        invariant
            n == pins@.len(),
            i <= n,
            events@ == pins@.take(i as int).map_values(|p: Pin| Event::PinCommitted { pin: p }),
        decreases n - i,
    {
        events.push(Event::PinCommitted { pin: pins[i].clone() });
        proof {
            assert(pins@.take(i + 1).map_values(|p: Pin| Event::PinCommitted { pin: p })
                =~= pins@.take(i as int).map_values(|p: Pin| Event::PinCommitted { pin: p }).push(
                Event::PinCommitted { pin: pins@[i as int] },
            ));
        }
        i = i + 1;
    }
    assert(pins@.take(n as int) =~= pins@);
    events
}

/// The first id of `ids` that no entity of `pool` carries.
fn first_unknown<T: HasId>(pool: &Vec<T>, ids: &Vec<EntityId>) -> (r: Option<usize>)
    ensures
        r matches Some(i) ==> first_where(ids@, |id: EntityId| !has_id(pool@, id)) == Some(i as int)
            && i < ids@.len(),
        r is None ==> first_where(ids@, |id: EntityId| !has_id(pool@, id)) is None,
{
    let ghost p = |id: EntityId| !has_id(pool@, id);
    let n = ids.len();
    let mut i: usize = 0;
    while i < n
        invariant
            n == ids@.len(),
            i <= n,
            p == (|id: EntityId| !has_id(pool@, id)),
            forall|j: int| 0 <= j < i ==> !p(#[trigger] ids@[j]),
        decreases n - i,
    {
        if !contains_id(pool, ids[i]) {
            proof {
                lemma_first_where_at(ids@, p, i as int);
            }
            return Some(i);
        }
        i = i + 1;
    }
    proof {
        lemma_first_where_none(ids@, p);
    }
    None
}

fn rejected(msg: String) -> (r: Result<CapabilityAck, CapabilityError>)
    ensures
        r == Err::<CapabilityAck, CapabilityError>(CapabilityError::Rejected(msg)),
{
    Err(CapabilityError::Rejected(msg))
}

impl<E: ReasoningEngine> RuntimeCore<E> {
    /// Law (replay): the live state is the fold of the recorded events, and each record
    /// sits at the position its sequence number names.
    pub proof fn lemma_state_is_replay(&self)
        requires
            self.wf(),
        ensures
            self.state_value()@ == replayed(self.log_value()),
            forall|i: int|
                0 <= i < self.log_value().len() ==> (#[trigger] self.log_value()[i]).seq == i,
    {
    }

    fn accept(&mut self, events: Vec<Event>) -> (r: Result<CapabilityAck, CapabilityError>)
        requires
            old(self).wf(),
        ensures
            final(self).wf(),
            r matches Ok(ack) && ack.committed@ == seq_range(old(self).log@.len(), events@.len()),
            appended(old(self).log@, final(self).log@, events@),
            final(self).state@ == fold_events(old(self).state@, events@),
            final(self).same_ports(old(self)),
    {
        let seqs = self.commit(events);
        Ok(CapabilityAck { committed: seqs })
    }

    fn handle_create_requirement(
        &mut self,
        requirement: Requirement,
        decision: Decision,
        evidence: Vec<Evidence>,
        links: Vec<ProvenanceLink>,
    ) -> (r: Result<CapabilityAck, CapabilityError>)
        requires
            old(self).wf(),
        ensures
            final(self).wf(),
            invoke_post(
                old(self),
                final(self),
                CapabilityRequest::CreateRequirement { requirement, decision, evidence, links },
                Ok(()),
                r,
            ),
    {
        if let Err(e) = requirement.validate() {
            return rejected(e.message());
        }
        if self.autonomy == Autonomy::Supervised {
            return rejected(
                String::from_str(
                    "supervised autonomy requires human approval (HITL deferred to a later phase)",
                ),
            );
        }
        let ghost req = CapabilityRequest::CreateRequirement { requirement, decision, evidence, links };
        let mut events = evidence_events(&evidence);
        events.push(Event::DecisionCreated { decision });
        events.push(Event::RequirementCommitted { requirement });
        push_link_events(&mut events, links);
        assert(events@ =~= request_events(req));
        self.accept(events)
    }

    fn handle_create_constraint(&mut self, constraint: Constraint, links: Vec<ProvenanceLink>) -> (r:
        Result<CapabilityAck, CapabilityError>)
        requires
            old(self).wf(),
        ensures
            final(self).wf(),
            invoke_post(
                old(self),
                final(self),
                CapabilityRequest::CreateConstraint { constraint, links },
                Ok(()),
                r,
            ),
    {
        if let Err(e) = constraint.validate() {
            return rejected(e.message());
        }
        if constraint.subject_requirement.is_null() {
            return rejected(String::from_str("constraint has no subject requirement"));
        }
        if self.state.requirement(constraint.subject_requirement).is_none() {
            return rejected(
                text_with_id(
                    "constraint subject requirement ",
                    constraint.subject_requirement,
                    " does not exist",
                ),
            );
        }
        let ghost req = CapabilityRequest::CreateConstraint { constraint, links };
        let mut events: Vec<Event> = Vec::new();
        events.push(Event::ConstraintCommitted { constraint });
        push_link_events(&mut events, links);
        assert(events@ =~= request_events(req));
        self.accept(events)
    }

    fn handle_raise_violation(&mut self, violation: Violation, links: Vec<ProvenanceLink>) -> (r:
        Result<CapabilityAck, CapabilityError>)
        requires
            old(self).wf(),
        ensures
            final(self).wf(),
            invoke_post(
                old(self),
                final(self),
                CapabilityRequest::RaiseViolation { violation, links },
                Ok(()),
                r,
            ),
    {
        if violation.subjects.len() == 0 {
            return rejected(String::from_str("violation names no subjects (would be untraceable)"));
        }
        let ghost req = CapabilityRequest::RaiseViolation { violation, links };
        let mut events: Vec<Event> = Vec::new();
        events.push(Event::ViolationRaised { violation });
        push_link_events(&mut events, links);
        assert(events@ =~= request_events(req));
        self.accept(events)
    }

    fn handle_grant_waiver(&mut self, waiver: Waiver) -> (r: Result<CapabilityAck, CapabilityError>)
        requires
            old(self).wf(),
        ensures
            final(self).wf(),
            invoke_post(old(self), final(self), CapabilityRequest::GrantWaiver { waiver }, Ok(()), r),
    {
        if self.autonomy == Autonomy::Supervised {
            return rejected(
                String::from_str(
                    "supervised autonomy requires human approval (HITL deferred to a later phase)",
                ),
            );
        }
        if self.state.violation(waiver.violation).is_none() {
            return rejected(text_with_id("waiver targets unknown violation ", waiver.violation, ""));
        }
        let ghost req = CapabilityRequest::GrantWaiver { waiver };
        let mut events: Vec<Event> = Vec::new();
        events.push(Event::WaiverGranted { waiver });
        assert(events@ =~= request_events(req));
        self.accept(events)
    }

    fn handle_create_functional_block(&mut self, block: FunctionalBlock, links: Vec<ProvenanceLink>) -> (r:
        Result<CapabilityAck, CapabilityError>)
        requires
            old(self).wf(),
        ensures
            final(self).wf(),
            invoke_post(
                old(self),
                final(self),
                CapabilityRequest::CreateFunctionalBlock { block, links },
                Ok(()),
                r,
            ),
    {
        if let Err(e) = block.validate() {
            return rejected(e.message());
        }
        if block.requirements.len() == 0 {
            return rejected(
                String::from_str("functional block realizes no requirement (would be untraceable)"),
            );
        }
        if let Some(i) = first_unknown(&self.state.requirements, &block.requirements) {
            return rejected(
                text_with_id(
                    "functional block references unknown requirement ",
                    block.requirements[i],
                    "",
                ),
            );
        }
        let ghost req = CapabilityRequest::CreateFunctionalBlock { block, links };
        let mut events: Vec<Event> = Vec::new();
        events.push(Event::FunctionalBlockCommitted { block });
        push_link_events(&mut events, links);
        assert(events@ =~= request_events(req));
        self.accept(events)
    }

    fn handle_realize_component(
        &mut self,
        component: Component,
        pins: Vec<Pin>,
        links: Vec<ProvenanceLink>,
    ) -> (r: Result<CapabilityAck, CapabilityError>)
        requires
            old(self).wf(),
        ensures
            final(self).wf(),
            invoke_post(
                old(self),
                final(self),
                CapabilityRequest::RealizeComponent { component, pins, links },
                Ok(()),
                r,
            ),
    {
        if let Err(e) = component.validate() {
            return rejected(e.message());
        }
        if component.from_block.is_null() {
            return rejected(String::from_str("component has no originating functional block"));
        }
        if self.state.functional_block(component.from_block).is_none() {
            return rejected(
                text_with_id(
                    "component originates from unknown functional block ",
                    component.from_block,
                    "",
                ),
            );
        }
        if pins.len() == 0 {
            return rejected(String::from_str("component has no pins"));
        }
        let ghost req = CapabilityRequest::RealizeComponent { component, pins, links };
        let mut events: Vec<Event> = Vec::new();
        events.push(Event::ComponentCommitted { component });
        let mut pe = pin_events(&pins);
        events.append(&mut pe);
        push_link_events(&mut events, links);
        assert(events@ =~= request_events(req));
        self.accept(events)
    }

    fn handle_create_net(&mut self, net: Net, links: Vec<ProvenanceLink>) -> (r: Result<
        CapabilityAck,
        CapabilityError,
    >)
        requires
            old(self).wf(),
        ensures
            final(self).wf(),
            invoke_post(old(self), final(self), CapabilityRequest::CreateNet { net, links }, Ok(()), r),
    {
        if let Err(e) = net.validate() {
            return rejected(e.message());
        }
        if net.members.len() == 0 {
            return rejected(String::from_str("net joins no pins (carries no connectivity)"));
        }
        if let Some(i) = first_unknown(&self.state.pins, &net.members) {
            return rejected(text_with_id("net references unknown pin ", net.members[i], ""));
        }
        let ghost req = CapabilityRequest::CreateNet { net, links };
        let mut events: Vec<Event> = Vec::new();
        events.push(Event::NetCommitted { net });
        push_link_events(&mut events, links);
        assert(events@ =~= request_events(req));
        self.accept(events)
    }

    fn handle_create_part(&mut self, part: Part, links: Vec<ProvenanceLink>) -> (r: Result<
        CapabilityAck,
        CapabilityError,
    >)
        requires
            old(self).wf(),
        ensures
            final(self).wf(),
            invoke_post(old(self), final(self), CapabilityRequest::CreatePart { part, links }, Ok(()), r),
    {
        if let Err(e) = part.validate() {
            return rejected(e.message());
        }
        let ghost req = CapabilityRequest::CreatePart { part, links };
        let mut events: Vec<Event> = Vec::new();
        events.push(Event::PartCommitted { part });
        push_link_events(&mut events, links);
        assert(events@ =~= request_events(req));
        self.accept(events)
    }

    fn line_covers(&self, cid: EntityId) -> (r: bool)
        ensures
            r == covered_by_line(self.state.bom_line_items@, cid),
    {
        let items = &self.state.bom_line_items;
        let n = items.len();
        let mut i: usize = 0;
        while i < n
            invariant
                n == items@.len(),
                items@ == self.state.bom_line_items@,
                i <= n,
                forall|l: int| 0 <= l < i ==> !(#[trigger] items@[l]).components@.contains(cid),
            decreases n - i,
        {
            if ids_contain(&items[i].components, cid) {
                assert(items@[i as int].components@.contains(cid));
                return true;
            }
            i = i + 1;
        }
        false
    }

    /// The first component id that is unknown or already covered by another line.
    fn first_unplaceable_line_component(&self, ids: &Vec<EntityId>) -> (r: Option<usize>)
        ensures
            r matches Some(i) ==> i < ids@.len() && first_where(
                ids@,
                |cid: EntityId|
                    !has_id(self.state.components@, cid) || covered_by_line(
                        self.state.bom_line_items@,
                        cid,
                    ),
            ) == Some(i as int),
            r is None ==> first_where(
                ids@,
                |cid: EntityId|
                    !has_id(self.state.components@, cid) || covered_by_line(
                        self.state.bom_line_items@,
                        cid,
                    ),
            ) is None,
    {
        let ghost p = |cid: EntityId|
            !has_id(self.state.components@, cid) || covered_by_line(self.state.bom_line_items@, cid);
        let n = ids.len();
        let mut i: usize = 0;
        while i < n
            invariant
                n == ids@.len(),
                i <= n,
                p == (|cid: EntityId|
                    !has_id(self.state.components@, cid) || covered_by_line(
                        self.state.bom_line_items@,
                        cid,
                    )),
                forall|j: int| 0 <= j < i ==> !p(#[trigger] ids@[j]),
            decreases n - i,
        {
            let cid = ids[i];
            if self.state.component(cid).is_none() || self.line_covers(cid) {
                proof {
                    lemma_first_where_at(ids@, p, i as int);
                }
                return Some(i);
            }
            i = i + 1;
        }
        proof {
            lemma_first_where_none(ids@, p);
        }
        None
    }

    fn handle_create_bom_line_item(&mut self, item: BomLineItem, links: Vec<ProvenanceLink>) -> (r:
        Result<CapabilityAck, CapabilityError>)
        requires
            old(self).wf(),
        ensures
            final(self).wf(),
            invoke_post(
                old(self),
                final(self),
                CapabilityRequest::CreateBomLineItem { item, links },
                Ok(()),
                r,
            ),
    {
        if let Err(e) = item.validate() {
            return rejected(e.message());
        }
        if item.part.is_null() {
            return rejected(String::from_str("BOM line item has no part"));
        }
        if self.state.part(item.part).is_none() {
            return rejected(text_with_id("BOM line item references unknown part ", item.part, ""));
        }
        if let Some(i) = self.first_unplaceable_line_component(&item.components) {
            let cid = item.components[i];
            if self.state.component(cid).is_none() {
                return rejected(
                    text_with_id("BOM line item references unknown component ", cid, ""),
                );
            }
            return rejected(
                text_with_id(
                    "BOM line item double-covers component ",
                    cid,
                    " (already on another line)",
                ),
            );
        }
        let ghost req = CapabilityRequest::CreateBomLineItem { item, links };
        let mut events: Vec<Event> = Vec::new();
        events.push(Event::BomLineItemCommitted { item });
        push_link_events(&mut events, links);
        assert(events@ =~= request_events(req));
        self.accept(events)
    }

    fn handle_create_board(
        &mut self,
        board: Board,
        links: Vec<ProvenanceLink>,
        numeric: Result<(), DomainError>,
    ) -> (r: Result<CapabilityAck, CapabilityError>)
        requires
            old(self).wf(),
        ensures
            final(self).wf(),
            invoke_post(old(self), final(self), CapabilityRequest::CreateBoard { board, links }, numeric, r),
    {
        if let Err(e) = numeric {
            return rejected(e.message());
        }
        if self.state.board.is_some() {
            return rejected(String::from_str("design already has a board outline"));
        }
        let ghost req = CapabilityRequest::CreateBoard { board, links };
        let mut events: Vec<Event> = Vec::new();
        events.push(Event::BoardCommitted { board });
        push_link_events(&mut events, links);
        assert(events@ =~= request_events(req));
        self.accept(events)
    }

    fn is_placed(&self, cid: EntityId) -> (r: bool)
        ensures
            r == already_placed(self.state.placements@, cid),
    {
        let ps = &self.state.placements;
        let n = ps.len();
        let mut i: usize = 0;
        while i < n
            invariant
                n == ps@.len(),
                ps@ == self.state.placements@,
                i <= n,
                forall|k: int| 0 <= k < i ==> (#[trigger] ps@[k]).component != cid,
            decreases n - i,
        {
            if ps[i].component == cid {
                assert(ps@[i as int].component == cid);
                return true;
            }
            i = i + 1;
        }
        false
    }

    fn handle_place_component(
        &mut self,
        placement: Placement,
        links: Vec<ProvenanceLink>,
        numeric: Result<(), DomainError>,
    ) -> (r: Result<CapabilityAck, CapabilityError>)
        requires
            old(self).wf(),
        ensures
            final(self).wf(),
            invoke_post(
                old(self),
                final(self),
                CapabilityRequest::PlaceComponent { placement, links },
                numeric,
                r,
            ),
    {
        if let Err(e) = numeric {
            return rejected(e.message());
        }
        if placement.component.is_null() {
            return rejected(String::from_str("placement has no component"));
        }
        if self.state.component(placement.component).is_none() {
            return rejected(
                text_with_id("placement references unknown component ", placement.component, ""),
            );
        }
        if self.state.board.is_none() {
            return rejected(
                String::from_str("cannot place a component before the board outline exists"),
            );
        }
        if self.is_placed(placement.component) {
            return rejected(String::from_str("component is already placed"));
        }
        let ghost req = CapabilityRequest::PlaceComponent { placement, links };
        let mut events: Vec<Event> = Vec::new();
        events.push(Event::PlacementCommitted { placement });
        push_link_events(&mut events, links);
        assert(events@ =~= request_events(req));
        self.accept(events)
    }

    fn is_routed(&self, nid: EntityId) -> (r: bool)
        ensures
            r == already_routed(self.state.tracks@, nid),
    {
        let ts = &self.state.tracks;
        let n = ts.len();
        let mut i: usize = 0;
        while i < n
            invariant
                n == ts@.len(),
                ts@ == self.state.tracks@,
                i <= n,
                forall|k: int| 0 <= k < i ==> (#[trigger] ts@[k]).net != nid,
            decreases n - i,
        {
            if ts[i].net == nid {
                assert(ts@[i as int].net == nid);
                return true;
            }
            i = i + 1;
        }
        false
    }

    fn handle_route_net(
        &mut self,
        track: Track,
        links: Vec<ProvenanceLink>,
        numeric: Result<(), DomainError>,
    ) -> (r: Result<CapabilityAck, CapabilityError>)
        requires
            old(self).wf(),
        ensures
            final(self).wf(),
            invoke_post(old(self), final(self), CapabilityRequest::RouteNet { track, links }, numeric, r),
    {
        if let Err(e) = numeric {
            return rejected(e.message());
        }
        if track.net.is_null() {
            return rejected(String::from_str("track realizes no net"));
        }
        if self.state.net(track.net).is_none() {
            return rejected(text_with_id("track realizes unknown net ", track.net, ""));
        }
        if self.state.board.is_none() {
            return rejected(
                String::from_str("cannot route a net before the board outline exists"),
            );
        }
        if self.is_routed(track.net) {
            return rejected(String::from_str("net is already routed"));
        }
        let ghost req = CapabilityRequest::RouteNet { track, links };
        let mut events: Vec<Event> = Vec::new();
        events.push(Event::TrackCommitted { track });
        push_link_events(&mut events, links);
        assert(events@ =~= request_events(req));
        self.accept(events)
    }

    /// Propose a mutation: the only write path for an agent. The seam re-validates it
    /// and either commits exactly its events or rejects it with nothing committed.
    /// `numeric` is the outcome of the entity's own numeric validation (outline
    /// dimensions and layer stack, courtyard extent, trace width and endpoints), which is
    /// computed outside the kernel; it is consulted only for geometric requests.
    pub fn invoke(&mut self, req: CapabilityRequest, numeric: Result<(), DomainError>) -> (r: Result<
        CapabilityAck,
        CapabilityError,
    >)
        requires
            old(self).wf(),
        ensures
            final(self).wf(),
            invoke_post(old(self), final(self), req, numeric, r),
    {
        match req {
            CapabilityRequest::CreateRequirement { requirement, decision, evidence, links } => {
                self.handle_create_requirement(requirement, decision, evidence, links)
            },
            CapabilityRequest::CreateConstraint { constraint, links } => {
                self.handle_create_constraint(constraint, links)
            },
            CapabilityRequest::RaiseViolation { violation, links } => {
                self.handle_raise_violation(violation, links)
            },
            CapabilityRequest::GrantWaiver { waiver } => self.handle_grant_waiver(waiver),
            CapabilityRequest::CreateFunctionalBlock { block, links } => {
                self.handle_create_functional_block(block, links)
            },
            CapabilityRequest::RealizeComponent { component, pins, links } => {
                self.handle_realize_component(component, pins, links)
            },
            CapabilityRequest::CreateNet { net, links } => self.handle_create_net(net, links),
            CapabilityRequest::CreatePart { part, links } => self.handle_create_part(part, links),
            CapabilityRequest::CreateBomLineItem { item, links } => {
                self.handle_create_bom_line_item(item, links)
            },
            CapabilityRequest::CreateBoard { board, links } => {
                self.handle_create_board(board, links, numeric)
            },
            CapabilityRequest::PlaceComponent { placement, links } => {
                self.handle_place_component(placement, links, numeric)
            },
            CapabilityRequest::RouteNet { track, links } => {
                self.handle_route_net(track, links, numeric)
            },
        }
    }
}


impl<E: ReasoningEngine> RuntimeCore<E> {
    pub fn design_intent(&self) -> (r: Option<DesignIntent>)
        ensures
            r == self.state_value().intent,
    {
        match &self.state.intent {
            Some(i) => Some(i.clone()),
            None => None,
        }
    }

    pub fn requirements(&self) -> (r: Vec<Requirement>)
        ensures
            views(r@) == views(self.state_value().requirements@),
    {
        let r = self.state.requirements.clone();
        assert(views(r@) =~= views(self.state.requirements@));
        r
    }

    pub fn provenance_links(&self) -> (r: Vec<ProvenanceLink>)
        ensures
            r@ == self.state_value().links@,
    {
        let r = self.state.links.clone();
        assert(r@ =~= self.state.links@);
        r
    }

    pub fn constraints(&self) -> (r: Vec<Constraint>)
        ensures
            r@ == self.state_value().constraints@,
    {
        let r = self.state.constraints.clone();
        assert(r@ =~= self.state.constraints@);
        r
    }

    pub fn violations(&self) -> (r: Vec<Violation>)
        ensures
            views(r@) == views(self.state_value().violations@),
    {
        let r = self.state.violations.clone();
        assert(views(r@) =~= views(self.state.violations@));
        r
    }

    pub fn functional_blocks(&self) -> (r: Vec<FunctionalBlock>)
        ensures
            views(r@) == views(self.state_value().functional_blocks@),
    {
        let r = self.state.functional_blocks.clone();
        assert(views(r@) =~= views(self.state.functional_blocks@));
        r
    }

    pub fn components(&self) -> (r: Vec<Component>)
        ensures
            r@ == self.state_value().components@,
    {
        let r = self.state.components.clone();
        assert(r@ =~= self.state.components@);
        r
    }

    pub fn pins(&self) -> (r: Vec<Pin>)
        ensures
            r@ == self.state_value().pins@,
    {
        let r = self.state.pins.clone();
        assert(r@ =~= self.state.pins@);
        r
    }

    pub fn nets(&self) -> (r: Vec<Net>)
        ensures
            views(r@) == views(self.state_value().nets@),
    {
        let r = self.state.nets.clone();
        assert(views(r@) =~= views(self.state.nets@));
        r
    }

    pub fn parts(&self) -> (r: Vec<Part>)
        ensures
            r@ == self.state_value().parts@,
    {
        let r = self.state.parts.clone();
        assert(r@ =~= self.state.parts@);
        r
    }

    pub fn bom_line_items(&self) -> (r: Vec<BomLineItem>)
        ensures
            views(r@) == views(self.state_value().bom_line_items@),
    {
        let r = self.state.bom_line_items.clone();
        assert(views(r@) =~= views(self.state.bom_line_items@));
        r
    }

    pub fn board(&self) -> (r: Option<Board>)
        ensures
            r matches Some(b) ==> self.state_value().board matches Some(c) && b@ == c@,
            r is None <==> self.state_value().board is None,
    {
        match &self.state.board {
            Some(b) => Some(b.clone()),
            None => None,
        }
    }

    pub fn placements(&self) -> (r: Vec<Placement>)
        ensures
            r@ == self.state_value().placements@,
    {
        let r = self.state.placements.clone();
        assert(r@ =~= self.state.placements@);
        r
    }

    pub fn tracks(&self) -> (r: Vec<Track>)
        ensures
            r@ == self.state_value().tracks@,
    {
        let r = self.state.tracks.clone();
        assert(r@ =~= self.state.tracks@);
        r
    }

    /// Call the reasoning engine and record the call. The recorded request carries the
    /// engine's model id in place of the caller's; the recorded response is the one
    /// returned. A failed call records nothing. What the engine answers is its own
    /// affair: nothing is assumed of it.
    pub fn reason(&mut self, req: ReasoningRequest) -> (r: Result<(u64, ReasoningResponse), ReasoningError>)
        requires
            old(self).wf(),
        ensures
            final(self).wf(),
            final(self).autonomy_value() == old(self).autonomy_value(),
            final(self).id_state() == old(self).id_state(),
            match r {
                Ok((seq, resp)) => {
                    &&& seq == old(self).log_value().len()
                    &&& final(self).log_value().len() == old(self).log_value().len() + 1
                    &&& final(self).log_value().take(old(self).log_value().len() as int)
                        == old(self).log_value()
                    &&& final(self).log_value()[seq as int].seq == seq
                    &&& final(self).log_value()[seq as int].event matches Event::ReasoningCall {
                        request,
                        response,
                    } && request == (ReasoningRequest { model_id: request.model_id, ..req })
                        && response@ == resp@
                    &&& final(self).state_value()@ == old(self).state_value()@
                },
                Err(_) => *final(self) == *old(self),
            },
    {
        let mut req = req;
        req.model_id = self.reasoning.model_id();
        let response = match self.reasoning.request_judgement(&req) {
            Ok(resp) => resp,
            Err(e) => {
                return Err(e);
            },
        };
        let ghost logged_req = req;
        let kept = response.clone();
        let mut events: Vec<Event> = Vec::new();
        events.push(Event::ReasoningCall { request: req, response });
        let ghost es = events@;
        let seqs = self.commit(events);
        proof {
            assert(es =~= seq![es[0]]);
            reveal_with_fuel(fold_events, 2);
            assert(seqs@[0] == old(self).log@.len());
            assert(self.log@[old(self).log@.len() + 0int] == self.log@[old(self).log@.len() as int]);
        }
        Ok((seqs[0], kept))
    }
}

} // verus!
