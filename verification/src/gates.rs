//! The verification gates: a phase runs its rules, raises each new finding as an open
//! violation traced to its subjects, records the milestone, and fails while any blocking
//! violation remains. Re-verification never raises a finding twice.

use vstd::prelude::*;
use crate::domain::{
    blocking, EntityId, ProvenanceLink, RelationType, Violation, ViolationStatus, ViolationView,
};
use crate::engines::{
    coverage_findings, drivers_findings, finding_views, lifecycle_findings, undriven_findings,
    BomCoverageRule, BomLifecycleRule, ErcMultipleDriversRule, ErcPowerNetUndrivenRule,
    FindingView, VerificationContext, ViolationFinding,
};
use crate::fsm::{extends, lemma_extends_refl, lemma_extends_trans, Machine, MachineError, StepResult};
use crate::ports::{Event, ReasoningEngine};
use crate::protocol::{link_events, CapabilityRequest};
use crate::rules::{
    count_blocking_among, scoped_blocking, string_views, KernelRule,
    VerificationEngine,
};
use crate::runtime::RuntimeCore;
use crate::state::{fold_events, lemma_fold_append, views, EngineeringState, StateModel};
use crate::text::{decimal, decimal_text, str_equal};

verus! {

/// A violation with the finding's rule and subjects was already raised (open or
/// waived).
pub open spec fn already_raised(vs: Seq<ViolationView>, f: FindingView) -> bool {
    exists|i: int| 0 <= i < vs.len() && (#[trigger] vs[i]).rule@ == f.rule && vs[i].subjects == f.subjects
}

/// The findings not yet raised, in order.
pub open spec fn fresh_findings(vs: Seq<ViolationView>, fs: Seq<FindingView>) -> Seq<FindingView>
    decreases fs.len(),
{
    if fs.len() == 0 {
        Seq::empty()
    } else {
        let r = fresh_findings(vs, fs.drop_last());
        if already_raised(vs, fs.last()) {
            r
        } else {
            r.push(fs.last())
        }
    }
}

/// `v` is the open violation raised for finding `f`.
pub open spec fn raised_as(v: ViolationView, f: FindingView) -> bool {
    &&& v.rule@ == f.rule
    &&& v.severity == f.severity
    &&& v.subjects == f.subjects
    &&& v.message@ == f.message
    &&& v.status == ViolationStatus::Open
}

/// `after` is `before` followed by one violation raised for each finding of `fs`.
pub open spec fn raised_all(before: Seq<ViolationView>, after: Seq<ViolationView>, fs: Seq<FindingView>) -> bool {
    &&& after.len() == before.len() + fs.len()
    &&& after.take(before.len() as int) == before
    &&& forall|k: int| 0 <= k < fs.len() ==> raised_as(#[trigger] after[before.len() + k], fs[k])
}

/// Link `l` traces violation `vid` to subject `subject`.
pub open spec fn traces(l: ProvenanceLink, vid: EntityId, subject: EntityId) -> bool {
    l.from == vid && l.to == subject && l.relation == RelationType::TracesTo
}

/// Some link of `s` traces violation `vid` to `subject`.
pub open spec fn linked(s: StateModel, vid: EntityId, subject: EntityId) -> bool {
    exists|i: int| 0 <= i < s.links.len() && traces(#[trigger] s.links[i], vid, subject)
}

/// Violation `v` is linked in `s` to each of its subjects.
pub open spec fn violation_traced(s: StateModel, v: ViolationView) -> bool {
    forall|t: int| 0 <= t < v.subjects.len() ==> linked(s, v.id, #[trigger] v.subjects[t])
}

/// The `count` violations after position `from` are each linked to their subjects.
pub open spec fn raised_traced(s: StateModel, from: int, count: int) -> bool {
    forall|k: int| 0 <= k < count ==> violation_traced(s, #[trigger] s.violations[from + k])
}

/// A violation's trace survives appending links.
proof fn lemma_traced_grows(s: StateModel, t: StateModel, v: ViolationView)
    requires
        violation_traced(s, v),
        t.links.len() >= s.links.len(),
        t.links.take(s.links.len() as int) == s.links,
    ensures
        violation_traced(t, v),
{
    assert forall|j: int| 0 <= j < v.subjects.len() implies linked(t, v.id, #[trigger] v.subjects[j]) by {
        assert(linked(s, v.id, v.subjects[j]));
        let i = choose|i: int| 0 <= i < s.links.len() && traces(#[trigger] s.links[i], v.id, v.subjects[j]);
        assert(t.links[i] == t.links.take(s.links.len() as int)[i]);
        assert(traces(t.links[i], v.id, v.subjects[j]));
    }
}

/// Law (violation traces persist): a violation linked to its subjects stays linked
/// whatever events follow.
pub proof fn lemma_violation_trace_persists(s: StateModel, es: Seq<Event>, v: ViolationView)
    requires
        violation_traced(s, v),
    ensures
        violation_traced(fold_events(s, es), v),
{
    crate::state::lemma_history_kept(s, es);
    lemma_traced_grows(s, fold_events(s, es), v);
}

/// The number of blocking violations.
pub open spec fn blocking_count(vs: Seq<ViolationView>) -> nat
    decreases vs.len(),
{
    if vs.len() == 0 {
        0
    } else {
        blocking_count(vs.drop_last()) + if blocking(vs.last()) { 1nat } else { 0nat }
    }
}

pub open spec fn untraceable_text() -> Seq<char> {
    "capability rejected: violation names no subjects (would be untraceable)"@
}

pub open spec fn gate_text(open: nat) -> Seq<char> {
    decimal(open) + " blocking violation(s) open"@
}

/// Folding provenance links leaves the violations untouched.
proof fn lemma_links_keep_violations(s: StateModel, links: Seq<ProvenanceLink>)
    ensures
        fold_events(s, link_events(links)).violations == s.violations,
    decreases links.len(),
{
    if links.len() > 0 {
        lemma_links_keep_violations(s, links.drop_last());
        assert(link_events(links).drop_last() =~= link_events(links.drop_last()));
    }
}

fn finding_already_raised(vs: &Vec<Violation>, f: &ViolationFinding) -> (r: bool)
    ensures
        r == already_raised(views(vs@), f@),
{
    let ghost v = views(vs@);
    let n = vs.len();
    let mut i: usize = 0;
    while i < n
        invariant
            n == vs@.len(),
            v == views(vs@),
            i <= n,
            forall|k: int| 0 <= k < i ==> !((#[trigger] v[k]).rule@ == f@.rule && v[k].subjects == f@.subjects),
        decreases n - i,
    {
        let same_rule = vs[i].rule.eq(&f.rule);
        let mut same_subjects = vs[i].subjects.len() == f.subjects.len();
        if same_subjects {
            let m = f.subjects.len();
            let mut j: usize = 0;
            while j < m
                invariant
                    i < vs@.len(),
                    m == f.subjects@.len(),
                    m == vs@[i as int].subjects@.len(),
                    j <= m,
                    same_subjects == forall|t: int| 0 <= t < j ==> vs@[i as int].subjects@[t] == f.subjects@[t],
                decreases m - j,
            {
                if vs[i].subjects[j] != f.subjects[j] {
                    same_subjects = false;
                }
                j = j + 1;
            }
            proof {
                if same_subjects {
                    assert(vs@[i as int].subjects@ =~= f.subjects@);
                }
            }
        }
        if same_rule && same_subjects {
            assert(v[i as int].rule@ == f@.rule && v[i as int].subjects == f@.subjects);
            return true;
        }
        i = i + 1;
    }
    false
}

fn trace_links<E: ReasoningEngine>(ctx: &mut RuntimeCore<E>, vid: EntityId, subjects: &Vec<EntityId>) -> (links:
    Vec<ProvenanceLink>)
    requires
        old(ctx).wf(),
    ensures
        final(ctx).wf(),
        final(ctx).state_value() == old(ctx).state_value(),
        final(ctx).log_value() == old(ctx).log_value(),
        final(ctx).autonomy_value() == old(ctx).autonomy_value(),
        links@.len() == subjects@.len(),
        forall|k: int|
            0 <= k < links@.len() ==> (#[trigger] links@[k]).from == vid && links@[k].to == subjects@[k]
                && links@[k].relation == RelationType::TracesTo,
{
    let mut links: Vec<ProvenanceLink> = Vec::new();
    let n = subjects.len();
    let mut i: usize = 0;
    while i < n
        invariant
            ctx.wf(),
            ctx.state_value() == old(ctx).state_value(),
            ctx.log_value() == old(ctx).log_value(),
            ctx.autonomy_value() == old(ctx).autonomy_value(),
            n == subjects@.len(),
            i <= n,
            links@.len() == i,
            forall|k: int|
                0 <= k < i ==> (#[trigger] links@[k]).from == vid && links@[k].to == subjects@[k]
                    && links@[k].relation == RelationType::TracesTo,
        decreases n - i,
    {
        let id = ctx.fresh_id();
        links.push(ProvenanceLink { id, from: vid, to: subjects[i], relation: RelationType::TracesTo });
        i = i + 1;
    }
    links
}

/// Raises every finding not raised before, in order, each as an open violation traced
/// to its subjects. A finding without subjects is refused at the seam and stops the
/// pass.
pub fn raise_new_findings<E: ReasoningEngine>(ctx: &mut RuntimeCore<E>, findings: &Vec<ViolationFinding>) -> (r:
    Result<(), MachineError>)
    requires
        old(ctx).wf(),
    ensures
        final(ctx).wf(),
        extends(old(ctx).log_value(), final(ctx).log_value()),
        final(ctx).autonomy_value() == old(ctx).autonomy_value(),
        ({
            let fresh = fresh_findings(old(ctx).state_value()@.violations, finding_views(findings@));
            &&& r is Ok <==> forall|k: int| 0 <= k < fresh.len() ==> (#[trigger] fresh[k]).subjects.len() > 0
            &&& r is Ok ==> raised_all(old(ctx).state_value()@.violations, final(ctx).state_value()@.violations, fresh)
                && raised_traced(final(ctx).state_value()@, old(ctx).state_value()@.violations.len() as int, fresh.len() as int)
            &&& r matches Err(MachineError::Internal(m)) ==> m@ == untraceable_text()
        }),
{
    let ghost before = ctx.state_value()@.violations;
    let ghost fs = finding_views(findings@);
    let existing = ctx.violations();
    proof {
        lemma_extends_refl(ctx.log_value());
        assert(fs.take(0) =~= Seq::<FindingView>::empty());
        assert(before.take(before.len() as int) =~= before);
    }
    let n = findings.len();
    let mut i: usize = 0;
    while i < n
        invariant
            ctx.wf(),
            n == findings@.len(),
            fs == finding_views(findings@),
            views(existing@) == before,
            before == old(ctx).state_value()@.violations,
            i <= n,
            extends(old(ctx).log_value(), ctx.log_value()),
            ctx.autonomy_value() == old(ctx).autonomy_value(),
            forall|k: int| 0 <= k < fresh_findings(before, fs.take(i as int)).len() ==> (#[trigger] fresh_findings(before, fs.take(i as int))[k]).subjects.len() > 0,
            raised_all(before, ctx.state_value()@.violations, fresh_findings(before, fs.take(i as int))),
            raised_traced(ctx.state_value()@, before.len() as int, fresh_findings(before, fs.take(i as int)).len() as int),
        decreases n - i,
    {
        let f = &findings[i];
        let ghost prefix = fresh_findings(before, fs.take(i as int));
        proof {
            assert(fs.take(i + 1).drop_last() =~= fs.take(i as int));
            assert(fs.take(i + 1).last() == f@);
        }
        if finding_already_raised(&existing, f) {
            i = i + 1;
            continue;
        }
        let ghost start_log = ctx.log_value();
        let vid = ctx.fresh_id();
        let links = trace_links(ctx, vid, &f.subjects);
        let violation = Violation {
            id: vid,
            rule: f.rule.clone(),
            severity: f.severity,
            subjects: f.subjects.clone(),
            message: f.message.clone(),
            status: ViolationStatus::Open,
        };
        let ghost vv = violation@;
        let ghost lk = links@;
        let ghost mid = ctx.state_value()@;
        let req = CapabilityRequest::RaiseViolation { violation, links };
        match ctx.invoke(req, Ok(())) {
            Ok(_) => {
                proof {
                    let es = seq![Event::ViolationRaised { violation: req->violation }];
                    assert(crate::protocol::request_events(req) == es + link_events(lk));
                    lemma_fold_append(mid, es, link_events(lk));
                    reveal_with_fuel(fold_events, 2);
                    lemma_links_keep_violations(fold_events(mid, es), lk);
                    let after = ctx.state_value()@.violations;
                    assert(after == mid.violations.push(vv));
                    assert(fresh_findings(before, fs.take(i + 1)) == prefix.push(f@));
                    assert(after.take(before.len() as int) =~= before) by {
                        assert(mid.violations.take(before.len() as int) =~= before);
                    }
                    assert forall|k: int| 0 <= k < prefix.len() + 1 implies raised_as(
                        #[trigger] after[before.len() + k],
                        prefix.push(f@)[k],
                    ) by {
                        if k < prefix.len() {
                            assert(after[before.len() + k] == mid.violations[before.len() + k]);
                        }
                    }
                    lemma_extends_trans(old(ctx).log_value(), start_log, ctx.log_value());
                    assert(extends(start_log, ctx.log_value())) by {
                        assert(ctx.log_value().take(start_log.len() as int) == start_log);
                    }
                    lemma_extends_trans(old(ctx).log_value(), start_log, ctx.log_value());
                    let st = ctx.state_value()@;
                    crate::effects::lemma_entity_then_links(mid, Event::ViolationRaised { violation: req->violation }, lk);
                    assert(st.links == mid.links + lk);
                    assert(st.links.take(mid.links.len() as int) =~= mid.links);
                    assert forall|k: int| 0 <= k < prefix.len() + 1 implies violation_traced(
                        st,
                        #[trigger] st.violations[before.len() + k],
                    ) by {
                        if k < prefix.len() {
                            assert(st.violations[before.len() + k] == mid.violations[before.len() + k]);
                            lemma_traced_grows(mid, st, mid.violations[before.len() + k]);
                        } else {
                            assert(st.violations[before.len() + k] == vv);
                            assert forall|j: int| 0 <= j < vv.subjects.len() implies linked(
                                st,
                                vv.id,
                                #[trigger] vv.subjects[j],
                            ) by {
                                let q = mid.links.len() + j;
                                assert(st.links[q] == lk[j]);
                                assert(traces(st.links[q], vv.id, vv.subjects[j]));
                            }
                        }
                    }
                }
            },
            Err(e) => {
                proof {
                    assert(fresh_findings(before, fs.take(i + 1)) == prefix.push(f@));
                    assert(f@.subjects.len() == 0);
                    assert(fresh_findings(before, fs.take(i + 1))[prefix.len() as int].subjects.len() == 0);
                    lemma_fresh_prefix(before, fs, i + 1, prefix.len() as int);
                    assert(fresh_findings(before, fs)[prefix.len() as int].subjects.len() == 0);
                    reveal_strlit("capability rejected: ");
                    reveal_strlit("violation names no subjects (would be untraceable)");
                    reveal_strlit("capability rejected: violation names no subjects (would be untraceable)");
                }
                let msg = e.message();
                proof {
                    assert(msg@ =~= untraceable_text());
                }
                return Err(MachineError::Internal(msg));
            },
        }
        i = i + 1;
    }
    proof {
        assert(fs.take(n as int) =~= fs);
    }
    Ok(())
}

/// A fresh finding of a prefix stays a fresh finding of the whole list, at the same place.
proof fn lemma_fresh_prefix(vs: Seq<ViolationView>, fs: Seq<FindingView>, j: int, k: int)
    requires
        0 <= j <= fs.len(),
        0 <= k < fresh_findings(vs, fs.take(j)).len(),
    ensures
        k < fresh_findings(vs, fs).len(),
        fresh_findings(vs, fs)[k] == fresh_findings(vs, fs.take(j))[k],
    decreases fs.len() - j,
{
    if j == fs.len() {
        assert(fs.take(j) =~= fs);
    } else {
        assert(fs.take(j + 1).drop_last() =~= fs.take(j));
        lemma_fresh_prefix(vs, fs, j + 1, k);
    }
}

/// The number of blocking violations.
pub fn count_blocking_all(vs: &Vec<Violation>) -> (n: usize)
    ensures
        n == blocking_count(views(vs@)),
{
    count_blocking(vs)
}

fn count_blocking(vs: &Vec<Violation>) -> (n: usize)
    ensures
        n == blocking_count(views(vs@)),
{
    let len = vs.len();
    let mut count: usize = 0;
    let mut i: usize = 0;
    while i < len
        invariant
            len == vs@.len(),
            i <= len,
            count <= i,
            count == blocking_count(views(vs@.take(i as int))),
        decreases len - i,
    {
        proof {
            assert(views(vs@.take(i + 1)).drop_last() =~= views(vs@.take(i as int)));
        }
        if vs[i].is_blocking() {
            count = count + 1;
        }
        i = i + 1;
    }
    assert(vs@.take(len as int) =~= vs@);
    count
}

/// A gate's count of blocking violations: every blocking violation, or only those
/// raised by the given rules.
pub open spec fn gate_count(vs: Seq<ViolationView>, scope: Option<Seq<Seq<char>>>) -> nat {
    match scope {
        None => blocking_count(vs),
        Some(ids) => scoped_blocking(ids, vs),
    }
}

/// Records the verification milestone and decides the phase: done when no blocking
/// violation remains, failed naming how many remain otherwise.
pub fn close_verification<E: ReasoningEngine>(
    ctx: &mut RuntimeCore<E>,
    rule_count: usize,
    scope: &Option<Vec<String>>,
) -> (r: StepResult)
    requires
        old(ctx).wf(),
    ensures
        final(ctx).wf(),
        final(ctx).state_value()@ == old(ctx).state_value()@,
        extends(old(ctx).log_value(), final(ctx).log_value()),
        final(ctx).autonomy_value() == old(ctx).autonomy_value(),
        ({
            let open = gate_count(
                old(ctx).state_value()@.violations,
                match scope {
                    Some(ids) => Some(string_views(ids@)),
                    None => None,
                },
            );
            &&& final(ctx).log_value().len() == old(ctx).log_value().len() + 1
            &&& final(ctx).log_value().last().event == (Event::VerificationCompleted {
                rule_count,
                open_violations: open as usize,
            })
            &&& open == 0 ==> r is Done
            &&& open > 0 ==> (r matches StepResult::Failed(m) && m@ == gate_text(open))
        }),
{
    let vs = ctx.violations();
    let open = match scope {
        Some(ids) => {
            let sl = vs.as_slice();
            assert(sl@ == vs@);
            count_blocking_among(ids, sl)
        },
        None => count_blocking(&vs),
    };
    let mut events: Vec<Event> = Vec::new();
    events.push(Event::VerificationCompleted { rule_count, open_violations: open });
    let ghost es = events@;
    ctx.emit(events);
    proof {
        reveal_with_fuel(fold_events, 2);
        assert(ctx.log_value()[old(ctx).log_value().len() + 0int].event == es[0]);
        assert(ctx.log_value().take(old(ctx).log_value().len() as int) == old(ctx).log_value());
    }
    if open > 0 {
        StepResult::Failed(decimal_text(open as u64).concat(" blocking violation(s) open"))
    } else {
        StepResult::Done
    }
}

} // verus!
