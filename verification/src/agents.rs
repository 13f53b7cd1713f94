//! The Requirement Agent: asks the reasoning port for candidate requirements (judgement
//! only), then deterministically validates, de-duplicates, justifies and commits them.

use vstd::prelude::*;
use crate::domain::{
    requirement_check, Decision, DecisionView, DesignIntent, EntityId, Evidence, EvidenceKind,
    ProvenanceLink, RelationType, Requirement, RequirementStatus, RequirementView,
};
use crate::effects::add_links;
use crate::engines::PlanningEngine;
use crate::fsm::{extends, lemma_extends_refl, lemma_extends_trans, MachineError, StepResult};
use crate::ports::{
    reasoning_error_text, CandidateRequirement, CandidateRequirementView, Event, ReasoningEngine,
    ReasoningRequest,
};
use crate::protocol::{AgentActivation, AgentOutcome, Autonomy, CapabilityRequest};
use crate::runtime::{KernelView, RuntimeCore};
use crate::state::{fold_events, lemma_fold_append, views, StateModel};
use crate::text::{is_blank, lowercased, str_is_blank, to_lowercase, trim_text, trimmed};
use crate::units::Magnitude;
use vstd::string::StringSliceAdditionalSpecFns;

verus! {

/// A phase's driving agent: it acts only through the kernel, and the kernel's log only
/// ever grows.
pub trait Agent {
    fn name(&self) -> &str;

    fn activate<E: ReasoningEngine>(&mut self, ctx: &mut RuntimeCore<E>, activation: &AgentActivation) -> (o:
        AgentOutcome)
        requires
            old(ctx).wf(),
        ensures
            final(ctx).wf(),
            extends(old(ctx).log_value(), final(ctx).log_value()),
            final(ctx).autonomy_value() == old(ctx).autonomy_value(),
    ;
}

pub open spec fn prompt_text(statement: Seq<char>) -> Seq<char> {
    "Decompose the following design intent into discrete, testable engineering requirements. For each: a statement, a category, a priority, an objective acceptance criterion, a short rationale, and the source it derives from.\n\nDESIGN INTENT:\n"@
        + statement + "\n"@
}

/// The prompt asking for requirements, quoting the intent's statement.
pub fn build_prompt(intent: &DesignIntent) -> (s: String)
    ensures
        s@ == prompt_text(intent.statement@),
{
    String::from_str(
        "Decompose the following design intent into discrete, testable engineering requirements. For each: a statement, a category, a priority, an objective acceptance criterion, a short rationale, and the source it derives from.\n\nDESIGN INTENT:\n",
    ).concat(intent.statement.as_str()).concat("\n")
}

/// FNV-1a (64-bit) over a byte string.
pub open spec fn fnv1a(bytes: Seq<u8>) -> u64
    decreases bytes.len(),
{
    if bytes.len() == 0 {
        0xcbf2_9ce4_8422_2325u64
    } else {
        (fnv1a(bytes.drop_last()) ^ (bytes.last() as u64)).wrapping_mul(0x0000_0100_0000_01b3u64)
    }
}

/// A deterministic seed from a text, so a run is reproducible: FNV-1a over its UTF-8
/// bytes.
pub fn stable_seed(text: &str) -> (h: u64)
    ensures
        h == fnv1a(text.spec_bytes()),
{
    let bytes = text.as_bytes();
    let n = bytes.len();
    let mut h: u64 = 0xcbf2_9ce4_8422_2325;
    let mut i: usize = 0;
    while i < n
        invariant
            n == bytes@.len(),
            bytes@ == text.spec_bytes(),
            i <= n,
            h == fnv1a(bytes@.take(i as int)),
        decreases n - i,
    {
        proof {
            assert(bytes@.take(i + 1).drop_last() =~= bytes@.take(i as int));
        }
        h = (h ^ (bytes[i] as u64)).wrapping_mul(0x0000_0100_0000_01b3);
        i = i + 1;
    }
    assert(bytes@.take(n as int) =~= bytes@);
    h
}

pub open spec fn system_text() -> Seq<char> {
    "You are a requirements engineer. Decompose design intent into discrete, testable requirements."@
}

/// A candidate passes the cheap pre-checks: its statement and criterion are not blank.
pub open spec fn candidate_ok(c: CandidateRequirementView) -> bool {
    !is_blank(c.statement@) && !is_blank(c.acceptance_criterion@)
}

/// A candidate's de-duplication key: its trimmed, lower-cased statement.
pub open spec fn candidate_key(c: CandidateRequirementView) -> Seq<char> {
    lowercased(trimmed(c.statement@))
}

/// The keys seen after the candidates, in order: each candidate passing the pre-checks
/// with a key not yet seen adds its key.
pub open spec fn seen_keys(cs: Seq<CandidateRequirementView>) -> Seq<Seq<char>>
    decreases cs.len(),
{
    if cs.len() == 0 {
        Seq::empty()
    } else {
        let k = seen_keys(cs.drop_last());
        let c = cs.last();
        if candidate_ok(c) && !k.contains(candidate_key(c)) {
            k.push(candidate_key(c))
        } else {
            k
        }
    }
}

/// The candidates admitted for commit, in order: those passing the pre-checks, with a
/// key not seen before, and whose requirement (accepted, rooted at `source`) validates.
pub open spec fn admitted(cs: Seq<CandidateRequirementView>, source: EntityId) -> Seq<CandidateRequirementView>
    decreases cs.len(),
{
    if cs.len() == 0 {
        Seq::empty()
    } else {
        let a = admitted(cs.drop_last(), source);
        let c = cs.last();
        if candidate_ok(c) && !seen_keys(cs.drop_last()).contains(candidate_key(c)) && source.0 != 0 {
            a.push(c)
        } else {
            a
        }
    }
}

/// `r` is the requirement committed for candidate `c`: accepted, rooted at `source`.
pub open spec fn committed_as(r: RequirementView, c: CandidateRequirementView, source: EntityId) -> bool {
    &&& r.statement == c.statement
    &&& r.category == c.category
    &&& r.priority == c.priority
    &&& r.acceptance_criterion == c.acceptance_criterion
    &&& r.status == RequirementStatus::Accepted
    &&& r.source == source
    &&& r.targets == c.targets
}

/// `after` is `before` followed by one requirement committed for each candidate of `cs`.
pub open spec fn committed_all(
    before: Seq<RequirementView>,
    after: Seq<RequirementView>,
    cs: Seq<CandidateRequirementView>,
    source: EntityId,
) -> bool {
    &&& after.len() == before.len() + cs.len()
    &&& after.take(before.len() as int) == before
    &&& forall|k: int| 0 <= k < cs.len() ==> committed_as(#[trigger] after[before.len() + k], cs[k], source)
}

fn keys_contain(keys: &Vec<String>, k: &String) -> (r: bool)
    ensures
        r == keys@.map_values(|s: String| s@).contains(k@),
{
    let ghost v = keys@.map_values(|s: String| s@);
    let n = keys.len();
    let mut i: usize = 0;
    while i < n
        invariant
            n == keys@.len(),
            v == keys@.map_values(|s: String| s@),
            i <= n,
            forall|j: int| 0 <= j < i ==> v[j] != k@,
        decreases n - i,
    {
        if keys[i].eq(k) {
            assert(v[i as int] == k@);
            return true;
        }
        i = i + 1;
    }
    false
}

proof fn lemma_fold_evidence(s: StateModel, ev: Seq<Evidence>)
    ensures
        fold_events(s, ev.map_values(|e: Evidence| Event::EvidenceReferenced { evidence: e })).requirements
            == s.requirements,
        fold_events(s, ev.map_values(|e: Evidence| Event::EvidenceReferenced { evidence: e })).decisions
            == s.decisions,
        fold_events(s, ev.map_values(|e: Evidence| Event::EvidenceReferenced { evidence: e })).links == s.links,
        fold_events(s, ev.map_values(|e: Evidence| Event::EvidenceReferenced { evidence: e })).evidence == s.evidence
            + ev,
    decreases ev.len(),
{
    if ev.len() > 0 {
        lemma_fold_evidence(s, ev.drop_last());
        assert(ev.map_values(|e: Evidence| Event::EvidenceReferenced { evidence: e }).drop_last()
            =~= ev.drop_last().map_values(|e: Evidence| Event::EvidenceReferenced { evidence: e }));
    }
}

/// Link `l` records that requirement `rid` derives from `source`.
pub open spec fn derives(l: ProvenanceLink, rid: EntityId, source: EntityId) -> bool {
    l.from == rid && l.to == source && l.relation == RelationType::DerivedFrom
}

/// Link `l` records that requirement `rid` is justified by decision `d`, which is about it.
pub open spec fn justified_by(l: ProvenanceLink, d: DecisionView, rid: EntityId) -> bool {
    l.from == rid && l.relation == RelationType::JustifiedBy && l.to == d.id && d.subject == rid
}

/// Requirement `rid` is traceable in `s`: linked as derived from `source`, and linked to a
/// decision about it that the state holds.
pub open spec fn traceable(s: StateModel, rid: EntityId, source: EntityId) -> bool {
    &&& exists|i: int| 0 <= i < s.links.len() && derives(#[trigger] s.links[i], rid, source)
    &&& exists|i: int, j: int|
        0 <= i < s.links.len() && 0 <= j < s.decisions.len() && justified_by(
            #[trigger] s.links[i],
            #[trigger] s.decisions[j],
            rid,
        )
}

/// Traceability survives appending links and decisions.
proof fn lemma_traceable_grows(s: StateModel, t: StateModel, rid: EntityId, source: EntityId)
    requires
        traceable(s, rid, source),
        t.links.len() >= s.links.len(),
        t.links.take(s.links.len() as int) == s.links,
        t.decisions.len() >= s.decisions.len(),
        t.decisions.take(s.decisions.len() as int) == s.decisions,
    ensures
        traceable(t, rid, source),
{
    let i = choose|i: int| 0 <= i < s.links.len() && derives(#[trigger] s.links[i], rid, source);
    assert(t.links[i] == t.links.take(s.links.len() as int)[i]);
    assert(derives(t.links[i], rid, source));
    let (a, b) = choose|a: int, b: int|
        0 <= a < s.links.len() && 0 <= b < s.decisions.len() && justified_by(
            #[trigger] s.links[a],
            #[trigger] s.decisions[b],
            rid,
        );
    assert(t.links[a] == t.links.take(s.links.len() as int)[a]);
    assert(t.decisions[b] == t.decisions.take(s.decisions.len() as int)[b]);
    assert(justified_by(t.links[a], t.decisions[b], rid));
}

/// Law (traceability persists): a requirement traceable to its source stays traceable
/// whatever events follow.
pub proof fn lemma_traceability_persists(s: StateModel, es: Seq<Event>, rid: EntityId, source: EntityId)
    requires
        traceable(s, rid, source),
    ensures
        traceable(fold_events(s, es), rid, source),
{
    crate::state::lemma_history_kept(s, es);
    lemma_traceable_grows(s, fold_events(s, es), rid, source);
}

/// Requirement `rid` is justified in `s` by a decision about it that cites reasoning call
/// `call` and exactly one piece of evidence, to which the decision is linked as support.
pub open spec fn cited(s: StateModel, rid: EntityId, call: u64) -> bool {
    exists|i: int, j: int, k: int, m: int|
        #![trigger s.links[i], s.decisions[j], s.links[k], s.evidence[m]]
        0 <= i < s.links.len() && 0 <= j < s.decisions.len() && 0 <= k < s.links.len() && 0 <= m < s.evidence.len()
            && justified_by(s.links[i], s.decisions[j], rid) && s.decisions[j].reasoning_call_seq == Some(call)
            && s.decisions[j].evidence == seq![s.evidence[m].id] && s.links[k].from == s.decisions[j].id
            && s.links[k].to == s.evidence[m].id && s.links[k].relation == RelationType::Supports
}

/// The records appended for `count` requirements, from the state `s0`: for each, in
/// order, exactly one decision about it citing reasoning call `call` and its one piece of
/// evidence, that evidence, and three links (the requirement justified by the decision,
/// derived from `source`, and the decision supported by the evidence).
pub open spec fn committed_shape(s0: StateModel, s: StateModel, count: int, source: EntityId, call: u64) -> bool {
    let r0 = s0.requirements.len() as int;
    let d0 = s0.decisions.len() as int;
    let e0 = s0.evidence.len() as int;
    let l0 = s0.links.len() as int;
    &&& s.decisions.len() == d0 + count
    &&& s.evidence.len() == e0 + count
    &&& s.links.len() == l0 + 3 * count
    &&& s.decisions.take(d0) == s0.decisions
    &&& s.evidence.take(e0) == s0.evidence
    &&& s.links.take(l0) == s0.links
    &&& forall|k: int|
        0 <= k < count ==> {
            let rq = #[trigger] s.requirements[r0 + k];
            let d = s.decisions[d0 + k];
            let e = s.evidence[e0 + k];
            &&& d.subject == rq.id
            &&& d.reasoning_call_seq == Some(call)
            &&& d.evidence == seq![e.id]
            &&& s.links[l0 + 3 * k] == (ProvenanceLink { id: s.links[l0 + 3 * k].id, from: rq.id, to: d.id, relation: RelationType::JustifiedBy })
            &&& s.links[l0 + 3 * k + 1] == (ProvenanceLink { id: s.links[l0 + 3 * k + 1].id, from: rq.id, to: source, relation: RelationType::DerivedFrom })
            &&& s.links[l0 + 3 * k + 2] == (ProvenanceLink { id: s.links[l0 + 3 * k + 2].id, from: d.id, to: e.id, relation: RelationType::Supports })
        }
}

/// Committing one more requirement, with its decision, evidence and three links, extends
/// the shape by one.
proof fn lemma_shape_grows(
    s0: StateModel,
    before: StateModel,
    after: StateModel,
    count: int,
    source: EntityId,
    call: u64,
    rv: RequirementView,
    dv: DecisionView,
    e: Evidence,
    lv: Seq<ProvenanceLink>,
)
    requires
        0 <= count,
        committed_shape(s0, before, count, source, call),
        before.requirements.len() == s0.requirements.len() + count,
        after.requirements == before.requirements.push(rv),
        after.decisions == before.decisions.push(dv),
        after.evidence == before.evidence + seq![e],
        after.links == before.links + lv,
        dv.subject == rv.id,
        dv.reasoning_call_seq == Some(call),
        dv.evidence == seq![e.id],
        lv.len() == 3,
        lv[0].from == rv.id && lv[0].to == dv.id && lv[0].relation == RelationType::JustifiedBy,
        lv[1].from == rv.id && lv[1].to == source && lv[1].relation == RelationType::DerivedFrom,
        lv[2].from == dv.id && lv[2].to == e.id && lv[2].relation == RelationType::Supports,
    ensures
        committed_shape(s0, after, count + 1, source, call),
{
    let r0 = s0.requirements.len() as int;
    let d0 = s0.decisions.len() as int;
    let e0 = s0.evidence.len() as int;
    let l0 = s0.links.len() as int;
    assert(after.decisions.take(d0) =~= s0.decisions) by {
        assert(before.decisions.take(d0) == s0.decisions);
    }
    assert(after.evidence.take(e0) =~= s0.evidence) by {
        assert(before.evidence.take(e0) == s0.evidence);
    }
    assert(after.links.take(l0) =~= s0.links) by {
        assert(before.links.take(l0) == s0.links);
    }
    assert forall|k: int| 0 <= k < count + 1 implies {
        let rq = #[trigger] after.requirements[r0 + k];
        let d = after.decisions[d0 + k];
        let ev = after.evidence[e0 + k];
        &&& d.subject == rq.id
        &&& d.reasoning_call_seq == Some(call)
        &&& d.evidence == seq![ev.id]
        &&& after.links[l0 + 3 * k] == (ProvenanceLink { id: after.links[l0 + 3 * k].id, from: rq.id, to: d.id, relation: RelationType::JustifiedBy })
        &&& after.links[l0 + 3 * k + 1] == (ProvenanceLink { id: after.links[l0 + 3 * k + 1].id, from: rq.id, to: source, relation: RelationType::DerivedFrom })
        &&& after.links[l0 + 3 * k + 2] == (ProvenanceLink { id: after.links[l0 + 3 * k + 2].id, from: d.id, to: ev.id, relation: RelationType::Supports })
    } by {
        if k < count {
            assert(after.requirements[r0 + k] == before.requirements[r0 + k]);
            assert(after.decisions[d0 + k] == before.decisions[d0 + k]);
            assert(after.evidence[e0 + k] == before.evidence[e0 + k]);
            assert(after.links[l0 + 3 * k] == before.links[l0 + 3 * k]);
            assert(after.links[l0 + 3 * k + 1] == before.links[l0 + 3 * k + 1]);
            assert(after.links[l0 + 3 * k + 2] == before.links[l0 + 3 * k + 2]);
        } else {
            assert(after.requirements[r0 + k] == rv);
            assert(after.decisions[d0 + k] == dv);
            assert(after.evidence[e0 + k] == e);
            assert(after.links[l0 + 3 * k] == lv[0]);
            assert(after.links[l0 + 3 * k + 1] == lv[1]);
            assert(after.links[l0 + 3 * k + 2] == lv[2]);
        }
    }
}

/// Every requirement appended after position `from` cites reasoning call `call`.
pub open spec fn all_cited(s: StateModel, from: int, count: int, call: u64) -> bool {
    forall|k: int| 0 <= k < count ==> cited(s, (#[trigger] s.requirements[from + k]).id, call)
}

/// A citation survives appending links, decisions and evidence.
proof fn lemma_cited_grows(s: StateModel, t: StateModel, rid: EntityId, call: u64)
    requires
        cited(s, rid, call),
        t.links.len() >= s.links.len(),
        t.links.take(s.links.len() as int) == s.links,
        t.decisions.len() >= s.decisions.len(),
        t.decisions.take(s.decisions.len() as int) == s.decisions,
        t.evidence.len() >= s.evidence.len(),
        t.evidence.take(s.evidence.len() as int) == s.evidence,
    ensures
        cited(t, rid, call),
{
    let (i, j, k, m) = choose|i: int, j: int, k: int, m: int|
        #![trigger s.links[i], s.decisions[j], s.links[k], s.evidence[m]]
        0 <= i < s.links.len() && 0 <= j < s.decisions.len() && 0 <= k < s.links.len() && 0 <= m < s.evidence.len()
            && justified_by(s.links[i], s.decisions[j], rid) && s.decisions[j].reasoning_call_seq == Some(call)
            && s.decisions[j].evidence == seq![s.evidence[m].id] && s.links[k].from == s.decisions[j].id
            && s.links[k].to == s.evidence[m].id && s.links[k].relation == RelationType::Supports;
    assert(t.links[i] == t.links.take(s.links.len() as int)[i]);
    assert(t.links[k] == t.links.take(s.links.len() as int)[k]);
    assert(t.decisions[j] == t.decisions.take(s.decisions.len() as int)[j]);
    assert(t.evidence[m] == t.evidence.take(s.evidence.len() as int)[m]);
}

/// Every requirement appended after position `from` is traceable to `source`.
pub open spec fn all_traceable(s: StateModel, from: int, count: int, source: EntityId) -> bool {
    forall|k: int| 0 <= k < count ==> traceable(s, (#[trigger] s.requirements[from + k]).id, source)
}

pub struct RequirementAgent;

impl RequirementAgent {
    pub fn new() -> Self {
        RequirementAgent
    }

    /// Commits the admitted candidates, each as an accepted requirement rooted at the
    /// intent, justified by a decision citing the reasoning call and its evidence.
    /// Returns how many the seam admitted.
    #[verifier::rlimit(50)]
    pub fn commit_candidates<E: ReasoningEngine>(
        &self,
        ctx: &mut RuntimeCore<E>,
        intent: &DesignIntent,
        call_seq: u64,
        candidates: &Vec<CandidateRequirement>,
    ) -> (committed: usize)
        requires
            old(ctx).wf(),
        ensures
            final(ctx).wf(),
            extends(old(ctx).log_value(), final(ctx).log_value()),
            final(ctx).autonomy_value() == old(ctx).autonomy_value(),
            ({
                let adm = admitted(views(candidates@), intent.id);
                &&& old(ctx).autonomy_value() == Autonomy::Supervised ==> committed == 0
                    && final(ctx).state_value()@.requirements == old(ctx).state_value()@.requirements
                &&& old(ctx).autonomy_value() != Autonomy::Supervised ==> committed == adm.len()
                    && committed_all(
                    old(ctx).state_value()@.requirements,
                    final(ctx).state_value()@.requirements,
                    adm,
                    intent.id,
                ) && all_traceable(
                    final(ctx).state_value()@,
                    old(ctx).state_value()@.requirements.len() as int,
                    adm.len() as int,
                    intent.id,
                ) && all_cited(
                    final(ctx).state_value()@,
                    old(ctx).state_value()@.requirements.len() as int,
                    adm.len() as int,
                    call_seq,
                )
                &&& committed == 0 ==> final(ctx).log_value() == old(ctx).log_value() && final(ctx).state_value()
                    == old(ctx).state_value()
                &&& old(ctx).autonomy_value() != Autonomy::Supervised ==> committed_shape(
                    old(ctx).state_value()@,
                    final(ctx).state_value()@,
                    adm.len() as int,
                    intent.id,
                    call_seq,
                )
            }),
    {
        let ghost r0 = ctx.state_value()@.requirements;
        let ghost cv = views(candidates@);
        let mut committed: usize = 0;
        let mut seen: Vec<String> = Vec::new();
        proof {
            lemma_extends_refl(ctx.log_value());
            assert(r0.take(r0.len() as int) =~= r0);
            let st0 = ctx.state_value()@;
            assert(st0.decisions.take(st0.decisions.len() as int) =~= st0.decisions);
            assert(st0.evidence.take(st0.evidence.len() as int) =~= st0.evidence);
            assert(st0.links.take(st0.links.len() as int) =~= st0.links);
            assert(cv.take(0) =~= Seq::<CandidateRequirementView>::empty());
            assert(seen@.map_values(|s: String| s@) =~= seen_keys(cv.take(0)));
        }
        let n = candidates.len();
        let mut i: usize = 0;
        while i < n
            invariant
                ctx.wf(),
                extends(old(ctx).log_value(), ctx.log_value()),
                ctx.autonomy_value() == old(ctx).autonomy_value(),
                r0 == old(ctx).state_value()@.requirements,
                cv == views(candidates@),
                n == candidates@.len(),
                i <= n,
                seen@.map_values(|s: String| s@) == seen_keys(cv.take(i as int)),
                old(ctx).autonomy_value() == Autonomy::Supervised ==> committed == 0
                    && ctx.state_value()@.requirements == r0,
                old(ctx).autonomy_value() != Autonomy::Supervised ==> committed == admitted(cv.take(i as int), intent.id).len()
                    && committed_all(r0, ctx.state_value()@.requirements, admitted(cv.take(i as int), intent.id), intent.id)
                    && all_traceable(ctx.state_value()@, r0.len() as int, committed as int, intent.id)
                    && all_cited(ctx.state_value()@, r0.len() as int, committed as int, call_seq),
                committed == 0 ==> ctx.log_value() == old(ctx).log_value() && ctx.state_value() == old(ctx).state_value(),
                old(ctx).autonomy_value() != Autonomy::Supervised ==> committed_shape(
                    old(ctx).state_value()@,
                    ctx.state_value()@,
                    committed as int,
                    intent.id,
                    call_seq,
                ),
                committed <= i,
            decreases n - i,
        {
            let cand = &candidates[i];
            proof {
                assert(cv.take(i + 1).drop_last() =~= cv.take(i as int));
                assert(cv.take(i + 1).last() == cand@);
            }
            if str_is_blank(cand.statement.as_str()) || str_is_blank(cand.acceptance_criterion.as_str()) {
                i = i + 1;
                continue;
            }
            let trimmed_statement = trim_text(cand.statement.as_str());
            let key = to_lowercase(trimmed_statement.as_str());
            if keys_contain(&seen, &key) {
                i = i + 1;
                continue;
            }
            let ghost sb = seen@;
            seen.push(key);
            proof {
                assert(seen@.map_values(|s: String| s@) =~= sb.map_values(|s: String| s@).push(candidate_key(cand@)));
            }
            let rid = ctx.fresh_id();
            let eid = ctx.fresh_id();
            let did = ctx.fresh_id();
            let targets = cand.targets.clone();
            let requirement = Requirement {
                id: rid,
                statement: cand.statement.clone(),
                category: cand.category,
                priority: cand.priority,
                acceptance_criterion: cand.acceptance_criterion.clone(),
                status: RequirementStatus::Accepted,
                source: intent.id,
                targets,
            };
            proof {
                assert(requirement.targets@ =~= cand.targets@);
            }
            match requirement.validate() {
                Ok(()) => {},
                Err(_) => {
                    i = i + 1;
                    continue;
                },
            }
            let evidence = Evidence {
                id: eid,
                kind: EvidenceKind::DesignIntentSource,
                content_reference: cand.source_hint.clone(),
                source: intent.source.clone(),
                reliability: Magnitude(0x3ff0_0000_0000_0000),
            };
            let mut cited_ids: Vec<EntityId> = Vec::new();
            cited_ids.push(eid);
            let decision = Decision {
                id: did,
                subject: rid,
                rationale: cand.rationale.clone(),
                decider: String::from_str("RequirementAgent"),
                reasoning_call_seq: Some(call_seq),
                evidence: cited_ids,
                confidence: cand.confidence,
            };
            let l1 = ctx.fresh_id();
            let l2 = ctx.fresh_id();
            let l3 = ctx.fresh_id();
            let mut links: Vec<ProvenanceLink> = Vec::new();
            links.push(ProvenanceLink { id: l1, from: rid, to: did, relation: RelationType::JustifiedBy });
            links.push(ProvenanceLink { id: l2, from: rid, to: intent.id, relation: RelationType::DerivedFrom });
            links.push(ProvenanceLink { id: l3, from: did, to: eid, relation: RelationType::Supports });
            let mut evs: Vec<Evidence> = Vec::new();
            evs.push(evidence);
            let ghost rv = requirement@;
            let ghost dv = decision;
            let ghost evv = evs@;
            let ghost lv = links@;
            let ghost before = ctx.state_value()@;
            let ghost lb = ctx.log_value();
            let req = CapabilityRequest::CreateRequirement { requirement, decision, evidence: evs, links };
            match ctx.invoke(req, Ok(())) {
                Ok(_) => {
                    committed = committed + 1;
                    proof {
                        let ee = evv.map_values(|e: Evidence| Event::EvidenceReferenced { evidence: e });
                        let mid = seq![Event::DecisionCreated { decision: dv }, Event::RequirementCommitted { requirement: req->requirement }];
                        lemma_fold_append(before, ee + mid, crate::protocol::link_events(lv));
                        lemma_fold_append(before, ee, mid);
                        lemma_fold_evidence(before, evv);
                        reveal_with_fuel(fold_events, 3);
                        assert(mid.drop_last().drop_last() =~= Seq::<Event>::empty());
                        assert(mid.drop_last() =~= seq![Event::DecisionCreated { decision: dv }]);
                        crate::effects::lemma_fold_links(fold_events(before, ee + mid), lv);
                        let after = ctx.state_value()@;
                        assert(after.requirements == before.requirements.push(rv));
                        let adm0 = admitted(cv.take(i as int), intent.id);
                        assert(admitted(cv.take(i + 1), intent.id) == adm0.push(cand@));
                        assert(after.requirements.take(r0.len() as int) =~= r0) by {
                            assert(before.requirements.take(r0.len() as int) == r0);
                        }
                        assert forall|k: int| 0 <= k < adm0.len() + 1 implies committed_as(
                            #[trigger] after.requirements[r0.len() + k],
                            adm0.push(cand@)[k],
                            intent.id,
                        ) by {
                            if k < adm0.len() {
                                assert(after.requirements[r0.len() + k] == before.requirements[r0.len() + k]);
                            }
                        }
                        assert(extends(lb, ctx.log_value())) by {
                            assert(ctx.log_value().take(lb.len() as int) == lb);
                        }
                        lemma_extends_trans(old(ctx).log_value(), lb, ctx.log_value());
                        assert(after.links == before.links + lv);
                        assert(after.decisions == before.decisions.push(dv@));
                        assert(after.links.take(before.links.len() as int) =~= before.links);
                        assert(after.decisions.take(before.decisions.len() as int) =~= before.decisions);
                        assert forall|k: int| 0 <= k < committed implies traceable(
                            after,
                            (#[trigger] after.requirements[r0.len() + k]).id,
                            intent.id,
                        ) by {
                            if k < committed - 1 {
                                assert(after.requirements[r0.len() + k] == before.requirements[r0.len() + k]);
                                lemma_traceable_grows(before, after, before.requirements[r0.len() + k].id, intent.id);
                            } else {
                                assert(after.requirements[r0.len() + k] == rv);
                                let li = before.links.len() + 1int;
                                assert(after.links[li] == lv[1]);
                                assert(derives(after.links[li], rv.id, intent.id));
                                let lj = before.links.len() as int;
                                assert(after.links[lj] == lv[0]);
                                let dj = before.decisions.len() as int;
                                assert(after.decisions[dj] == dv@);
                                assert(justified_by(after.links[lj], after.decisions[dj], rv.id));
                            }
                        }
                        assert(after.evidence == before.evidence + evv);
                        assert(after.evidence.take(before.evidence.len() as int) =~= before.evidence);
                        assert(dv@.evidence =~= seq![eid]);
                        assert(evv =~= seq![evv[0]]);
                        lemma_shape_grows(old(ctx).state_value()@, before, after, (committed - 1) as int, intent.id, call_seq, rv, dv@, evv[0], lv);
                        assert forall|k: int| 0 <= k < committed implies cited(
                            after,
                            (#[trigger] after.requirements[r0.len() + k]).id,
                            call_seq,
                        ) by {
                            if k < committed - 1 {
                                assert(after.requirements[r0.len() + k] == before.requirements[r0.len() + k]);
                                lemma_cited_grows(before, after, before.requirements[r0.len() + k].id, call_seq);
                            } else {
                                assert(after.requirements[r0.len() + k] == rv);
                                let lj = before.links.len() as int;
                                let lk = before.links.len() + 2int;
                                let dj = before.decisions.len() as int;
                                let em = before.evidence.len() as int;
                                assert(after.links[lj] == lv[0]);
                                assert(after.links[lk] == lv[2]);
                                assert(after.decisions[dj] == dv@);
                                assert(after.evidence[em] == evv[0]);
                                assert(dv@.evidence =~= seq![eid]);
                                assert(justified_by(after.links[lj], after.decisions[dj], rv.id));
                            }
                        }
                    }
                },
                Err(_) => {
                    proof {
                        assert(old(ctx).autonomy_value() == Autonomy::Supervised);
                    }
                },
            }
            i = i + 1;
        }
        proof {
            assert(cv.take(n as int) =~= cv);
        }
        committed
    }
}

pub open spec fn no_intent_outcome() -> Seq<char> {
    "no design intent to structure"@
}

pub open spec fn no_candidates_outcome() -> Seq<char> {
    "no candidate requirements proposed"@
}

pub open spec fn none_survived_outcome() -> Seq<char> {
    "no candidate survived validation"@
}

/// The request the agent sends: the fixed system text, the prompt quoting the intent,
/// the candidate schema, temperature zero, and the intent's stable seed.
pub open spec fn agent_request(r: ReasoningRequest, statement: Seq<char>) -> bool {
    &&& r.system@ == system_text()
    &&& r.prompt@ == prompt_text(statement)
    &&& r.schema_name@ == "requirement_candidates_v1"@
    &&& r.temperature == Magnitude(0)
    &&& r.seed == fnv1a(vstd::utf8::encode_utf8(statement))
}

/// What structuring the intent did, from kernel `c0` to kernel `c1` with outcome `o`:
/// without an intent nothing happens; otherwise either the reasoning call failed and
/// nothing was recorded, or the call was recorded first and every admitted candidate
/// was committed (none under supervision), each citing the call; when nothing is
/// committed, the call's record is the only one added.
pub open spec fn structured(c0: KernelView, c1: KernelView, o: AgentOutcome) -> bool {
    &&& c0.state_value()@.intent is None ==> c1 == c0 && (o matches AgentOutcome::NeedsHuman(m) && m@
        == no_intent_outcome())
    &&& c0.state_value()@.intent matches Some(intent) ==> {
        ||| c1.log_value() == c0.log_value() && c1.state_value()@ == c0.state_value()@ && (o matches AgentOutcome::Failed(
            m,
        ) && exists|e: crate::ports::ReasoningError| m@ == "reasoning failed: "@ + reasoning_error_text(e))
        ||| c1.log_value()[c0.log_value().len() as int].event matches Event::ReasoningCall { request, response }
            && agent_request(request, intent.statement@) && {
            let cands = views(response.candidates@);
            let adm = admitted(cands, intent.id);
            let c = if c0.autonomy_value() == Autonomy::Supervised {
                0
            } else {
                adm.len()
            };
            &&& cands.len() == 0 ==> (o matches AgentOutcome::NeedsHuman(m) && m@ == no_candidates_outcome())
            &&& cands.len() > 0 && c == 0 ==> (o matches AgentOutcome::NeedsHuman(m) && m@ == none_survived_outcome())
            &&& cands.len() > 0 && c > 0 ==> o == (AgentOutcome::Success { committed: c as usize })
            &&& cands.len() > 0 && c0.autonomy_value() != Autonomy::Supervised ==> committed_all(
                c0.state_value()@.requirements,
                c1.state_value()@.requirements,
                adm,
                intent.id,
            ) && all_traceable(c1.state_value()@, c0.state_value()@.requirements.len() as int, adm.len() as int, intent.id)
                && all_cited(
                c1.state_value()@,
                c0.state_value()@.requirements.len() as int,
                adm.len() as int,
                c0.log_value().len() as u64,
            ) && committed_shape(
                c0.state_value()@,
                c1.state_value()@,
                adm.len() as int,
                intent.id,
                c0.log_value().len() as u64,
            )
            &&& (cands.len() == 0 || c == 0) ==> c1.log_value().len() == c0.log_value().len() + 1
                && c1.state_value()@ == c0.state_value()@
        }
    }
}

impl RequirementAgent {
    /// Structures the intent into requirements: one reasoning call, then the
    /// deterministic commit of the admitted candidates.
    pub fn structure<E: ReasoningEngine>(&self, ctx: &mut RuntimeCore<E>) -> (o: AgentOutcome)
        requires
            old(ctx).wf(),
        ensures
            final(ctx).wf(),
            extends(old(ctx).log_value(), final(ctx).log_value()),
            final(ctx).autonomy_value() == old(ctx).autonomy_value(),
            structured(old(ctx).kernel(), final(ctx).kernel(), o),
    {
        let intent = match ctx.design_intent() {
            Some(i) => i,
            None => {
                proof {
                    lemma_extends_refl(ctx.log_value());
                }
                return AgentOutcome::NeedsHuman(String::from_str("no design intent to structure"));
            },
        };
        let _plan = PlanningEngine::new().elicitation_plan();
        let request = ReasoningRequest {
            model_id: String::new(),
            system: String::from_str(
                "You are a requirements engineer. Decompose design intent into discrete, testable requirements.",
            ),
            prompt: build_prompt(&intent),
            schema_name: String::from_str("requirement_candidates_v1"),
            temperature: Magnitude(0),
            seed: stable_seed(intent.statement.as_str()),
        };
        let ghost l0 = ctx.log_value();
        let (call_seq, response) = match ctx.reason(request) {
            Ok(pair) => pair,
            Err(e) => {
                proof {
                    lemma_extends_refl(ctx.log_value());
                }
                return AgentOutcome::Failed(String::from_str("reasoning failed: ").concat(e.message().as_str()));
            },
        };
        let ghost l1 = ctx.log_value();
        proof {
            assert(extends(l0, l1)) by {
                assert(l1.take(l0.len() as int) == l0);
            }
        }
        if response.candidates.len() == 0 {
            return AgentOutcome::NeedsHuman(String::from_str("no candidate requirements proposed"));
        }
        let committed = self.commit_candidates(ctx, &intent, call_seq, &response.candidates);
        proof {
            lemma_extends_trans(l0, l1, ctx.log_value());
            assert(ctx.log_value()[l0.len() as int] == l1[l0.len() as int]) by {
                assert(ctx.log_value().take(l1.len() as int) == l1);
            }
        }
        if committed == 0 {
            AgentOutcome::NeedsHuman(String::from_str("no candidate survived validation"))
        } else {
            AgentOutcome::Success { committed }
        }
    }
}

impl Agent for RequirementAgent {
    fn name(&self) -> (n: &str)
        ensures
            n@ == "RequirementAgent"@,
    {
        "RequirementAgent"
    }

    fn activate<E: ReasoningEngine>(&mut self, ctx: &mut RuntimeCore<E>, activation: &AgentActivation) -> (o:
        AgentOutcome)
        ensures
            structured(old(ctx).kernel(), final(ctx).kernel(), o),
    {
        self.structure(ctx)
    }
}

/// The step an agent's outcome leads to while structuring requirements.
pub open spec fn structuring_step(o: AgentOutcome) -> (Seq<char>, bool) {
    match o {
        AgentOutcome::Success { .. } => ("CommittingRequirements"@, true),
        AgentOutcome::NeedsHuman(m) => ("needs human: "@ + m@ + " (HITL deferred)"@, false),
        AgentOutcome::Failed(m) => (m@, false),
    }
}

/// Maps the agent's outcome to the machine's next step: success continues to the
/// commit, anything else fails the phase with the agent's reason.
pub fn outcome_step(o: AgentOutcome) -> (r: StepResult)
    ensures
        structuring_step(o).1 ==> (r matches StepResult::Continue(s) && s@ == structuring_step(o).0),
        !structuring_step(o).1 ==> (r matches StepResult::Failed(s) && s@ == structuring_step(o).0),
{
    match o {
        AgentOutcome::Success { .. } => StepResult::Continue(String::from_str("CommittingRequirements")),
        AgentOutcome::NeedsHuman(m) => StepResult::Failed(
            String::from_str("needs human: ").concat(m.as_str()).concat(" (HITL deferred)"),
        ),
        AgentOutcome::Failed(m) => StepResult::Failed(m),
    }
}

/// Some accepted requirement has a blank acceptance criterion.
pub open spec fn has_untestable(rs: Seq<RequirementView>) -> bool {
    exists|i: int|
        0 <= i < rs.len() && (#[trigger] rs[i]).status == RequirementStatus::Accepted && !crate::domain::testable(rs[i])
}

fn any_untestable(rs: &Vec<Requirement>) -> (r: bool)
    ensures
        r == has_untestable(views(rs@)),
{
    let ghost v = views(rs@);
    let n = rs.len();
    let mut i: usize = 0;
    while i < n
        invariant
            n == rs@.len(),
            v == views(rs@),
            i <= n,
            forall|k: int| 0 <= k < i ==> !((#[trigger] v[k]).status == RequirementStatus::Accepted && !crate::domain::testable(v[k])),
        decreases n - i,
    {
        if rs[i].status == RequirementStatus::Accepted && !rs[i].is_testable() {
            assert(v[i as int].status == RequirementStatus::Accepted && !crate::domain::testable(v[i as int]));
            return true;
        }
        i = i + 1;
    }
    false
}

/// Requirement Planning: capture the intent, structure it into requirements through the
/// agent, project the Requirement IR, and validate testability with one redraft.

/// The step of a structuring outcome: success continues, anything else fails the phase.
pub open spec fn steps_as(o: AgentOutcome, r: Result<StepResult, MachineError>) -> bool {
    &&& structuring_step(o).1 ==> (r matches Ok(StepResult::Continue(s)) && s@ == structuring_step(o).0)
    &&& !structuring_step(o).1 ==> (r matches Ok(StepResult::Failed(s)) && s@ == structuring_step(o).0)
}

/// One transition of requirement planning from `state`, with the redraft count going
/// from `d0` to `d1` and the kernel from `c0` to `c1`.
pub open spec fn planning_step(
    state: Seq<char>,
    d0: u32,
    d1: u32,
    c0: KernelView,
    c1: KernelView,
    r: Result<StepResult, MachineError>,
) -> bool {
    &&& state != "ValidatingRequirements"@ ==> d1 == d0
    &&& state == "Idle"@ ==> c1 == c0 && (r matches Ok(StepResult::Continue(n)) && n@ == "CapturingIntent"@)
    &&& state == "CapturingIntent"@ ==> c1 == c0 && (c0.state_value()@.intent is Some ==> (r matches Ok(
        StepResult::Continue(n),
    ) && n@ == "StructuringRequirements"@)) && (c0.state_value()@.intent is None ==> (r matches Ok(
        StepResult::Failed(n),
    ) && n@ == "intent absent or unreadable"@))
    &&& state == "StructuringRequirements"@ ==> exists|o: AgentOutcome| #[trigger] structured(c0, c1, o) && steps_as(o, r)
    &&& state == "CommittingRequirements"@ ==> c1.state_value()@ == c0.state_value()@ && ({
        let s0 = c0.state_value()@;
        &&& s0.intent is None ==> (r matches Err(MachineError::Internal(m)) && m@ == "intent vanished"@)
        &&& s0.intent is Some && crate::compiler::requirement_ir_error(s0.requirements) is Some ==> (r matches Err(
            MachineError::Internal(m),
        ) && m@ == crate::compiler::ir_error_text(crate::compiler::requirement_ir_error(s0.requirements)->0))
        &&& s0.intent is Some && crate::compiler::requirement_ir_error(s0.requirements) is None ==> (r matches Ok(
            StepResult::Continue(n),
        ) && n@ == "ValidatingRequirements"@) && c1.log_value().last().event == (Event::RequirementIrProduced {
            schema_version: 1,
            requirement_count: s0.requirements.len() as usize,
        })
    })
    &&& state == "ValidatingRequirements"@ ==> c1 == c0 && ({
        let bad = has_untestable(c0.state_value()@.requirements);
        &&& bad && d0 < 1 ==> d1 == d0 + 1 && (r matches Ok(StepResult::Continue(n)) && n@ == "StructuringRequirements"@)
        &&& bad && d0 >= 1 ==> d1 == d0 && (r matches Ok(StepResult::Failed(n)) && n@
            == "requirements remain untestable after redraft"@)
        &&& !bad ==> d1 == d0 && r == Ok::<StepResult, MachineError>(StepResult::Done)
    })
    &&& state != "Idle"@ && state != "CapturingIntent"@ && state != "StructuringRequirements"@ && state
        != "CommittingRequirements"@ && state != "ValidatingRequirements"@ ==> c1 == c0 && (r matches Err(
        MachineError::Internal(m),
    ) && m@ == crate::checks::unknown_state_text(state))
}

/// The requirement-planning phase: capture, structure (one redraft allowed), commit the
/// Requirement IR milestone, validate.
pub struct RequirementPlanningMachine {
    agent: RequirementAgent,
    redraft_attempts: u32,
}

impl RequirementPlanningMachine {
    pub fn new() -> (m: Self)
        ensures
            m.redrafts() == 0,
    {
        RequirementPlanningMachine { agent: RequirementAgent::new(), redraft_attempts: 0 }
    }

    pub closed spec fn redrafts(&self) -> u32 {
        self.redraft_attempts
    }

    /// Advances one state.
    pub fn transition<E: ReasoningEngine>(&mut self, state: &str, ctx: &mut RuntimeCore<E>) -> (r: Result<
        StepResult,
        MachineError,
    >)
        requires
            old(ctx).wf(),
        ensures
            final(ctx).wf(),
            extends(old(ctx).log_value(), final(ctx).log_value()),
            final(ctx).autonomy_value() == old(ctx).autonomy_value(),
            planning_step(state@, old(self).redrafts(), final(self).redrafts(), old(ctx).kernel(), final(ctx).kernel(), r),
    {
        proof {
            lemma_extends_refl(ctx.log_value());
            reveal_strlit("StructuringRequirements");
            reveal_strlit("Idle");
            reveal_strlit("CapturingIntent");
            reveal_strlit("CommittingRequirements");
            reveal_strlit("ValidatingRequirements");
            assert("CommittingRequirements"@[0] != "ValidatingRequirements"@[0]);
            assert("CapturingIntent"@[1] != "CommittingRequirements"@[1]);
            assert("CapturingIntent"@[0] != "ValidatingRequirements"@[0]);
            assert("Idle"@[0] != "ValidatingRequirements"@[0]);
            assert("Idle"@[0] != "CommittingRequirements"@[0]);
            assert("Idle"@[0] != "CapturingIntent"@[0]);
            assert("StructuringRequirements"@[0] != "ValidatingRequirements"@[0]);
            assert("StructuringRequirements"@[0] != "CommittingRequirements"@[0]);
            assert("StructuringRequirements"@[0] != "CapturingIntent"@[0]);
            assert("StructuringRequirements"@[0] != "Idle"@[0]);
        }
        if crate::text::str_equal(state, "Idle") {
            Ok(StepResult::Continue(String::from_str("CapturingIntent")))
        } else if crate::text::str_equal(state, "CapturingIntent") {
            if ctx.design_intent().is_some() {
                Ok(StepResult::Continue(String::from_str("StructuringRequirements")))
            } else {
                Ok(StepResult::Failed(String::from_str("intent absent or unreadable")))
            }
        } else if crate::text::str_equal(state, "StructuringRequirements") {
            let activation = AgentActivation {
                phase: String::from_str("RequirementPlanning"),
                goal: String::from_str("structure intent into testable requirements"),
                budget: crate::protocol::Budget { max_reasoning_calls: 1 },
            };
            let o = self.agent.activate(ctx, &activation);
            proof {
                reveal_strlit("StructuringRequirements");
                reveal_strlit("Idle");
                reveal_strlit("CapturingIntent");
                reveal_strlit("CommittingRequirements");
                reveal_strlit("ValidatingRequirements");
            }
            Ok(outcome_step(o))
        } else if crate::text::str_equal(state, "CommittingRequirements") {
            let intent = match ctx.design_intent() {
                Some(i) => i,
                None => {
                    return Err(MachineError::Internal(String::from_str("intent vanished")));
                },
            };
            let reqs = ctx.requirements();
            let links = ctx.provenance_links();
            let ir = match crate::compiler::RequirementIr::project(&intent, &reqs, &links) {
                Ok(ir) => ir,
                Err(e) => {
                    return Err(MachineError::Internal(e.message()));
                },
            };
            let mut events: Vec<Event> = Vec::new();
            events.push(Event::RequirementIrProduced {
                schema_version: ir.schema_version,
                requirement_count: ir.requirements.len(),
            });
            let ghost es = events@;
            let ghost l0 = ctx.log_value();
            let ghost sp = ctx.state_value()@;
            ctx.emit(events);
            proof {
                reveal_with_fuel(fold_events, 2);
                assert(ctx.state_value()@ == sp);
                assert(ctx.log_value()[l0.len() + 0int].event == es[0]);
                assert(ctx.log_value().len() == l0.len() + 1);
                assert(views(ir.requirements@).len() == ir.requirements@.len());
                assert(extends(l0, ctx.log_value())) by {
                    assert(ctx.log_value().take(l0.len() as int) == l0);
                }
                reveal_strlit("StructuringRequirements");
                reveal_strlit("Idle");
                reveal_strlit("CapturingIntent");
                reveal_strlit("CommittingRequirements");
                reveal_strlit("ValidatingRequirements");
            }
            Ok(StepResult::Continue(String::from_str("ValidatingRequirements")))
        } else if crate::text::str_equal(state, "ValidatingRequirements") {
            let reqs = ctx.requirements();
            let bad = any_untestable(&reqs);
            if bad && self.redraft_attempts < 1 {
                self.redraft_attempts = self.redraft_attempts + 1;
                Ok(StepResult::Continue(String::from_str("StructuringRequirements")))
            } else if bad {
                Ok(StepResult::Failed(String::from_str("requirements remain untestable after redraft")))
            } else {
                Ok(StepResult::Done)
            }
        } else {
            Err(crate::checks::unknown_state(state))
        }
    }
}

impl crate::fsm::Machine for RequirementPlanningMachine {
    open spec fn obeys_machine_spec() -> bool {
        true
    }

    open spec fn spec_name(&self) -> Seq<char> {
        "RequirementPlanning"@
    }

    open spec fn spec_initial(&self) -> Seq<char> {
        "Idle"@
    }

    open spec fn stepped(
        &self,
        next: &Self,
        state: Seq<char>,
        before: KernelView,
        after: KernelView,
        r: Result<StepResult, MachineError>,
    ) -> bool {
        planning_step(state, self.redrafts(), next.redrafts(), before, after, r)
    }

    fn name(&self) -> (n: &str)
        ensures
            n@ == "RequirementPlanning"@,
    {
        "RequirementPlanning"
    }

    fn initial(&self) -> (s: String)
        ensures
            s@ == "Idle"@,
    {
        String::from_str("Idle")
    }

    fn step<E: ReasoningEngine>(&mut self, state: &str, ctx: &mut RuntimeCore<E>) -> (r: Result<
        StepResult,
        MachineError,
    >)
        ensures
            planning_step(state@, old(self).redrafts(), final(self).redrafts(), old(ctx).kernel(), final(ctx).kernel(), r),
    {
        self.transition(state, ctx)
    }
}

} // verus!
