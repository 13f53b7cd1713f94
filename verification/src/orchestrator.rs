//! Workflow orchestration: sequencing phases, with loop-back edges that route a failed
//! phase back to an earlier one a bounded number of times, and a global step cap that
//! makes every workflow terminate.

use vstd::prelude::*;
use crate::fsm::{closes_with, extends, lemma_extends_refl, lemma_extends_trans, ExecutionEngine, Machine, PhaseOutcome};
use crate::ports::EventRecord;
use crate::ports::ReasoningEngine;
use crate::runtime::RuntimeCore;
use crate::text::{decimal, decimal_text};

verus! {

/// When phase `from` fails, re-enter phase `to` instead of aborting, at most
/// `max_retries` times across the run.
#[derive(Debug)]
pub struct LoopBack {
    pub from: String,
    pub to: String,
    pub max_retries: u32,
}

pub struct LoopBackView {
    pub from: Seq<char>,
    pub to: Seq<char>,
    pub max_retries: u32,
}

impl View for LoopBack {
    type V = LoopBackView;

    open spec fn view(&self) -> LoopBackView {
        LoopBackView { from: self.from@, to: self.to@, max_retries: self.max_retries }
    }
}

impl Clone for LoopBack {
    fn clone(&self) -> (r: Self)
        ensures
            r@ == self@,
    {
        LoopBack { from: self.from.clone(), to: self.to.clone(), max_retries: self.max_retries }
    }
}

/// The phase plan: an ordered list of machines and the loop-back edges between them.
/// With no loop-backs it is a linear chain that stops on the first failure.
pub struct WorkflowPlan<M: Machine> {
    pub phases: Vec<M>,
    pub loopbacks: Vec<LoopBack>,
}

impl<M: Machine> WorkflowPlan<M> {
    /// A linear plan.
    pub fn new(phases: Vec<M>) -> (p: Self)
        ensures
            p.phases@ == phases@,
            p.loopbacks@.len() == 0,
    {
        WorkflowPlan { phases, loopbacks: Vec::new() }
    }

    /// A plan with correctness-loop edges.
    pub fn with_loopbacks(phases: Vec<M>, loopbacks: Vec<LoopBack>) -> (p: Self)
        ensures
            p.phases@ == phases@,
            p.loopbacks@ == loopbacks@,
    {
        WorkflowPlan { phases, loopbacks }
    }
}

pub open spec fn lb_views(lbs: Seq<LoopBack>) -> Seq<LoopBackView> {
    lbs.map_values(|l: LoopBack| l@)
}

pub open spec fn name_views(ns: Seq<String>) -> Seq<Seq<char>> {
    ns.map_values(|s: String| s@)
}

/// The names the phases are recorded under, in plan order, by their specifications.
pub open spec fn phase_names<M: Machine>(ms: Seq<M>) -> Seq<Seq<char>> {
    ms.map_values(|m: M| m.spec_name())
}

/// Each of the first `closes.len()` results is the outcome the run closed with: the
/// record at `closes[i]`, after position `from` and in order, closes with it.
pub open spec fn ran_as(log: Seq<EventRecord>, from: int, results: Seq<(String, PhaseOutcome)>, closes: Seq<int>) -> bool {
    &&& closes.len() <= results.len()
    &&& forall|i: int| 0 <= i < closes.len() ==> from <= #[trigger] closes[i] < log.len()
    &&& forall|i: int, j: int| 0 <= i < j < closes.len() ==> closes[i] < closes[j]
    &&& forall|i: int| 0 <= i < closes.len() ==> closes_with(log[closes[i]].event, (#[trigger] results[i]).1)
}

/// The total retry budget of all edges.
pub open spec fn retry_total(lbs: Seq<LoopBackView>) -> nat
    decreases lbs.len(),
{
    if lbs.len() == 0 {
        0
    } else {
        retry_total(lbs.drop_last()) + lbs.last().max_retries as nat
    }
}

/// The workflow step cap: a phase re-runs at most once per retry, so this bounds the
/// total executions well above what any plan can legitimately need.
pub open spec fn step_cap(phase_count: nat, lbs: Seq<LoopBackView>) -> nat {
    phase_count * (retry_total(lbs) + 1) + 1
}

/// `i` is the first phase named `target`.
pub open spec fn first_named(names: Seq<Seq<char>>, target: Seq<char>, i: int) -> bool {
    &&& 0 <= i < names.len()
    &&& names[i] == target
    &&& forall|j: int| 0 <= j < i ==> names[j] != target
}

pub open spec fn index_of(names: Seq<Seq<char>>, target: Seq<char>) -> Option<int> {
    if exists|i: int| first_named(names, target, i) {
        Some(choose|i: int| first_named(names, target, i))
    } else {
        None
    }
}

/// Edge `k` can recover a failure of the phase at `cursor`: it leaves that phase, has
/// budget left, and its target exists.
pub open spec fn can_recover(
    names: Seq<Seq<char>>,
    lbs: Seq<LoopBackView>,
    used: Seq<u32>,
    cursor: int,
    k: int,
) -> bool {
    &&& lbs[k].from == names[cursor]
    &&& used[k] < lbs[k].max_retries
    &&& index_of(names, lbs[k].to) is Some
}

pub open spec fn first_recovery(
    names: Seq<Seq<char>>,
    lbs: Seq<LoopBackView>,
    used: Seq<u32>,
    cursor: int,
    k: int,
) -> bool {
    &&& 0 <= k < lbs.len()
    &&& can_recover(names, lbs, used, cursor, k)
    &&& forall|j: int| 0 <= j < k ==> !can_recover(names, lbs, used, cursor, j)
}

/// The first edge that recovers a failure at `cursor`, if any.
pub open spec fn recovery(names: Seq<Seq<char>>, lbs: Seq<LoopBackView>, used: Seq<u32>, cursor: int) -> Option<int> {
    if exists|k: int| first_recovery(names, lbs, used, cursor, k) {
        Some(choose|k: int| first_recovery(names, lbs, used, cursor, k))
    } else {
        None
    }
}

/// Where the workflow goes after the phase at `cursor` ran: on success to the next
/// phase; on failure back along the first edge that can recover it, spending one retry;
/// otherwise nowhere (the workflow stops).
pub open spec fn advance(
    names: Seq<Seq<char>>,
    lbs: Seq<LoopBackView>,
    cursor: int,
    used: Seq<u32>,
    failed: bool,
) -> Option<(int, Seq<u32>)> {
    if !failed {
        Some((cursor + 1, used))
    } else {
        match recovery(names, lbs, used, cursor) {
            Some(k) => Some((index_of(names, lbs[k].to)->0, used.update(k, (used[k] + 1) as u32))),
            None => None,
        }
    }
}

pub open spec fn no_retries_used(n: nat) -> Seq<u32> {
    Seq::new(n, |i: int| 0u32)
}

pub open spec fn failed_flags(rs: Seq<(String, PhaseOutcome)>) -> Seq<bool> {
    rs.map_values(|r: (String, PhaseOutcome)| r.1 is Failed)
}

/// `cs` is the cursor of each phase execution and `us` the retries spent before it:
/// the workflow starts at the first phase with no retry spent and moves by `advance`.
pub open spec fn walk(
    names: Seq<Seq<char>>,
    lbs: Seq<LoopBackView>,
    cs: Seq<int>,
    us: Seq<Seq<u32>>,
    fs: Seq<bool>,
) -> bool {
    &&& cs.len() == fs.len()
    &&& us.len() == fs.len()
    &&& cs.len() > 0 ==> cs[0] == 0 && us[0] == no_retries_used(lbs.len())
    &&& forall|i: int| 0 <= i < cs.len() ==> 0 <= #[trigger] cs[i] < names.len()
    &&& forall|i: int|
        0 <= i < cs.len() - 1 ==> advance(names, lbs, cs[i], us[i], fs[i]) == Some(
            (#[trigger] cs[i + 1], us[i + 1]),
        )
}

pub open spec fn cap_message(cap: nat) -> Seq<char> {
    "workflow step cap "@ + decimal(cap) + " exceeded (possible loop-back cycle)"@
}

/// The entry that reports a workflow stopped by its step cap.
pub open spec fn cap_entry(r: (String, PhaseOutcome), cap: nat) -> bool {
    &&& r.0@ == "<workflow>"@
    &&& r.1 matches PhaseOutcome::Failed(m) && m@ == cap_message(cap)
}

/// The orchestration of a plan whose phases are named `names`: `results` lists every
/// phase execution in order, each under its phase's name, along a `walk`; the workflow
/// ends when the walk leaves the last phase, when a failure has no recovery, or when
/// the step cap is reached, in which case one more entry reports the cap.
pub open spec fn orchestrated(
    names: Seq<Seq<char>>,
    lbs: Seq<LoopBackView>,
    cap: nat,
    results: Seq<(String, PhaseOutcome)>,
) -> bool {
    exists|cs: Seq<int>, us: Seq<Seq<u32>>, runs: nat|
        #[trigger] orchestrated_along(names, lbs, cap, results, cs, us, runs)
}

/// `orchestrated`, with the walk `cs`/`us` of the `runs` phase executions made explicit.
pub open spec fn orchestrated_along(
    names: Seq<Seq<char>>,
    lbs: Seq<LoopBackView>,
    cap: nat,
    results: Seq<(String, PhaseOutcome)>,
    cs: Seq<int>,
    us: Seq<Seq<u32>>,
    runs: nat,
) -> bool {
    let fs = failed_flags(results.take(runs as int));
    &&& runs <= results.len() <= runs + 1
    &&& runs <= cap
    &&& walk(names, lbs, cs, us, fs)
    &&& cs.len() == runs
    &&& forall|i: int| 0 <= i < runs ==> (#[trigger] results[i]).0@ == names[cs[i]]
    &&& runs == 0 ==> names.len() == 0 && results.len() == 0
    &&& runs < results.len() ==> {
        &&& runs == cap
        &&& cap_entry(results.last(), cap)
        &&& advance(names, lbs, cs[runs - 1], us[runs - 1], fs[runs - 1]) matches Some((c, u)) && c
            < names.len()
    }
    &&& (runs > 0 && runs == results.len()) ==> match advance(
        names,
        lbs,
        cs[runs - 1],
        us[runs - 1],
        fs[runs - 1],
    ) {
        Some((c, u)) => c == names.len(),
        None => true,
    }
}

fn position_of(names: &Vec<String>, target: &String) -> (r: Option<usize>)
    ensures
        match r {
            Some(i) => index_of(name_views(names@), target@) == Some(i as int),
            None => index_of(name_views(names@), target@) is None,
        },
{
    let ghost ns = name_views(names@);
    let n = names.len();
    let mut i: usize = 0;
    while i < n
        invariant
            n == names@.len(),
            ns == name_views(names@),
            i <= n,
            forall|j: int| 0 <= j < i ==> ns[j] != target@,
        decreases n - i,
    {
        if names[i].eq(target) {
            proof {
                assert(first_named(ns, target@, i as int));
                let k = choose|k: int| first_named(ns, target@, k);
                if k < i {
                    assert(ns[k] != target@);
                }
                if i < k {
                    assert(ns[i as int] != target@);
                }
            }
            return Some(i);
        }
        i = i + 1;
    }
    None
}

/// The edge that recovers a failure of the phase at `cursor` and its target's position.
pub fn find_recovery(names: &Vec<String>, lbs: &Vec<LoopBack>, used: &Vec<u32>, cursor: usize) -> (r:
    Option<(usize, usize)>)
    requires
        cursor < names@.len(),
        used@.len() == lbs@.len(),
    ensures
        match r {
            Some((k, to)) => recovery(name_views(names@), lb_views(lbs@), used@, cursor as int) == Some(
                k as int,
            ) && index_of(name_views(names@), lbs@[k as int].to@) == Some(to as int),
            None => recovery(name_views(names@), lb_views(lbs@), used@, cursor as int) is None,
        },
{
    let ghost ns = name_views(names@);
    let ghost ls = lb_views(lbs@);
    let n = lbs.len();
    let mut k: usize = 0;
    while k < n
        invariant
            n == lbs@.len(),
            used@.len() == n,
            ns == name_views(names@),
            ls == lb_views(lbs@),
            cursor < names@.len(),
            k <= n,
            forall|j: int| 0 <= j < k ==> !can_recover(ns, ls, used@, cursor as int, j),
        decreases n - k,
    {
        let lb = &lbs[k];
        let target = position_of(names, &lb.to);
        if lb.from.eq(&names[cursor]) && used[k] < lb.max_retries && target.is_some() {
            proof {
                assert(can_recover(ns, ls, used@, cursor as int, k as int));
                assert(first_recovery(ns, ls, used@, cursor as int, k as int));
                let q = choose|q: int| first_recovery(ns, ls, used@, cursor as int, q);
                if q < k {
                    assert(!can_recover(ns, ls, used@, cursor as int, q));
                }
                if k < q {
                    assert(!can_recover(ns, ls, used@, cursor as int, k as int));
                }
            }
            return Some((k, target.unwrap()));
        }
        proof {
            assert(!can_recover(ns, ls, used@, cursor as int, k as int));
        }
        k = k + 1;
    }
    None
}

fn retry_sum(lbs: &Vec<LoopBack>) -> (t: u64)
    requires
        retry_total(lb_views(lbs@)) <= u32::MAX,
    ensures
        t == retry_total(lb_views(lbs@)),
{
    let n = lbs.len();
    let mut t: u64 = 0;
    let mut i: usize = 0;
    while i < n
        invariant
            n == lbs@.len(),
            i <= n,
            t == retry_total(lb_views(lbs@.take(i as int))),
            retry_total(lb_views(lbs@)) <= u32::MAX,
        decreases n - i,
    {
        proof {
            assert(lb_views(lbs@.take(i + 1)).drop_last() =~= lb_views(lbs@.take(i as int)));
            lemma_retry_total_prefix(lb_views(lbs@), i + 1);
            assert(lb_views(lbs@).take(i + 1) =~= lb_views(lbs@.take(i + 1)));
        }
        t = t + lbs[i].max_retries as u64;
        i = i + 1;
    }
    assert(lbs@.take(n as int) =~= lbs@);
    t
}

proof fn lemma_retry_total_prefix(lbs: Seq<LoopBackView>, k: int)
    requires
        0 <= k <= lbs.len(),
    ensures
        retry_total(lbs.take(k)) <= retry_total(lbs),
    decreases lbs.len(),
{
    if k < lbs.len() {
        assert(lbs.drop_last().take(k) =~= lbs.take(k));
        lemma_retry_total_prefix(lbs.drop_last(), k);
    } else {
        assert(lbs.take(k) =~= lbs);
    }
}

fn zeros(n: usize) -> (v: Vec<u32>)
    ensures
        v@ == no_retries_used(n as nat),
{
    let mut v: Vec<u32> = Vec::new();
    let mut i: usize = 0;
    while i < n
        invariant
            i <= n,
            v@ == no_retries_used(i as nat),
        decreases n - i,
    {
        v.push(0);
        proof {
            assert(v@ =~= no_retries_used((i + 1) as nat));
        }
        i = i + 1;
    }
    v
}

pub struct Orchestrator {
    engine: ExecutionEngine,
}

impl Orchestrator {
    /// The step budget each phase runs under.
    pub closed spec fn phase_budget(&self) -> u32 {
        self.engine.max_steps
    }

    pub fn new() -> (o: Self)
        ensures
            o.phase_budget() == 64,
    {
        Orchestrator { engine: ExecutionEngine::new() }
    }

    /// Sequences the phases. A failed phase takes the first loop-back edge from it that
    /// still has budget and a resolvable target; otherwise the workflow stops. The result
    /// lists every phase execution in order, so a re-worked phase appears more than once.
    pub fn run<M: Machine, E: ReasoningEngine>(&self, plan: &mut WorkflowPlan<M>, ctx: &mut RuntimeCore<E>) -> (results:
        Vec<(String, PhaseOutcome)>)
        requires
            old(ctx).wf(),
            retry_total(lb_views(old(plan).loopbacks@)) < u32::MAX,
            step_cap(old(plan).phases@.len(), lb_views(old(plan).loopbacks@)) < u32::MAX,
        ensures
            final(ctx).wf(),
            final(plan).phases@.len() == old(plan).phases@.len(),
            final(plan).loopbacks@ == old(plan).loopbacks@,
            results@.len() <= step_cap(old(plan).phases@.len(), lb_views(old(plan).loopbacks@)) + 1,
            exists|names: Seq<Seq<char>>|
                names.len() == old(plan).phases@.len() && (M::obeys_machine_spec() ==> names == phase_names(
                    old(plan).phases@,
                )) && #[trigger] orchestrated(
                    names,
                    lb_views(old(plan).loopbacks@),
                    step_cap(old(plan).phases@.len(), lb_views(old(plan).loopbacks@)),
                    results@,
                ),
            extends(old(ctx).log_value(), final(ctx).log_value()),
            exists|closes: Seq<int>|
                #[trigger] ran_as(final(ctx).log_value(), old(ctx).log_value().len() as int, results@, closes)
                    && results@.len() <= closes.len() + 1,
    {
        let mut results: Vec<(String, PhaseOutcome)> = Vec::new();
        let len = plan.phases.len();
        let mut names: Vec<String> = Vec::new();
        let mut j: usize = 0;
        while j < len
            invariant
                len == plan.phases@.len(),
                plan.phases@ == old(plan).phases@,
                j <= len,
                names@.len() == j,
                M::obeys_machine_spec() ==> forall|k: int| 0 <= k < j ==> (#[trigger] names@[k])@
                    == old(plan).phases@[k].spec_name(),
            decreases len - j,
        {
            names.push(String::from_str(plan.phases[j].name()));
            j = j + 1;
        }
        let ghost ns = name_views(names@);
        proof {
            if M::obeys_machine_spec() {
                assert(ns =~= phase_names(old(plan).phases@));
            }
            lemma_extends_refl(ctx.log_value());
        }
        let ghost start = ctx.log_value();
        let ghost mut closes: Seq<int> = Seq::empty();
        let ghost ls = lb_views(plan.loopbacks@);
        let nl = plan.loopbacks.len();
        let mut used = zeros(nl);
        let total = retry_sum(&plan.loopbacks);
        proof {
            assert(step_cap(len as nat, ls) == len * (retry_total(ls) + 1) + 1);
            assert(len * (retry_total(ls) + 1) <= step_cap(len as nat, ls)) by (nonlinear_arith)
                requires
                    step_cap(len as nat, ls) == len * (retry_total(ls) + 1) + 1,
            ;
            assert(len * (total + 1) == len * (retry_total(ls) + 1));
        }
        let cap: u32 = (len as u64 * (total + 1) + 1) as u32;
        let mut cursor: usize = 0;
        let mut steps: u32 = 0;
        let mut stopped = false;
        let mut capped = false;
        let ghost mut cs: Seq<int> = Seq::empty();
        let ghost mut us: Seq<Seq<u32>> = Seq::empty();
        while cursor < len && !stopped && !capped
            invariant
                len == plan.phases@.len(),
                nl == plan.loopbacks@.len(),
                ls == lb_views(plan.loopbacks@),
                ns == name_views(names@),
                names@.len() == len,
                used@.len() == nl,
                ctx.wf(),
                cap == step_cap(len as nat, ls),
                cap < u32::MAX,
                steps == cs.len(),
                steps <= cap,
                cursor <= len,
                !capped ==> results@.len() == cs.len(),
                capped ==> results@.len() == cs.len() + 1 && steps == cap && !stopped,
                walk(ns, ls, cs, us, failed_flags(results@.take(cs.len() as int))),
                forall|i: int| 0 <= i < cs.len() ==> (#[trigger] results@[i]).0@ == ns[cs[i]],
                cs.len() == 0 ==> cursor == 0 && used@ == no_retries_used(nl as nat) && !stopped,
                cs.len() > 0 && !stopped ==> advance(
                    ns,
                    ls,
                    cs.last(),
                    us.last(),
                    failed_flags(results@.take(cs.len() as int)).last(),
                ) == Some((cursor as int, used@)),
                cs.len() > 0 && stopped ==> advance(
                    ns,
                    ls,
                    cs.last(),
                    us.last(),
                    failed_flags(results@.take(cs.len() as int)).last(),
                ) is None,
                capped ==> cap_entry(results@.last(), cap as nat),
                capped ==> cursor < len,
                plan.loopbacks@ == old(plan).loopbacks@,
                len == old(plan).phases@.len(),
                start == old(ctx).log_value(),
                extends(start, ctx.log_value()),
                M::obeys_machine_spec() ==> ns == phase_names(old(plan).phases@),
                closes.len() == cs.len(),
                ran_as(ctx.log_value(), start.len() as int, results@, closes),
            decreases cap - steps, if capped || stopped { 0int } else { 1int },
        {
            if steps >= cap {
                let msg = String::from_str("workflow step cap ").concat(decimal_text(cap as u64).as_str()).concat(
                    " exceeded (possible loop-back cycle)",
                );
                let ghost before = results@;
                results.push((String::from_str("<workflow>"), PhaseOutcome::Failed(msg)));
                proof {
                    assert(results@.take(cs.len() as int) =~= before.take(cs.len() as int));
                }
                capped = true;
            } else {
                let ghost before = results@;
                let ghost fs0 = failed_flags(results@.take(cs.len() as int));
                steps = steps + 1;
                let ghost lb = ctx.log_value();
                let outcome = self.engine.run(&mut plan.phases[cursor], ctx);
                proof {
                    lemma_extends_trans(start, lb, ctx.log_value());
                }
                let failed = match outcome {
                    PhaseOutcome::Failed(_) => true,
                    PhaseOutcome::Success => false,
                };
                let ghost ob = outcome;
                results.push((names[cursor].clone(), outcome));
                proof {
                    let c2 = closes.push(ctx.log_value().len() - 1);
                    assert forall|i: int| 0 <= i < c2.len() implies closes_with(ctx.log_value()[c2[i]].event, (#[trigger] results@[i]).1) by {
                        if i < closes.len() {
                            assert(results@[i] == before[i]);
                            assert(ctx.log_value()[closes[i]] == lb[closes[i]]) by {
                                assert(ctx.log_value().take(lb.len() as int)[closes[i]] == ctx.log_value()[closes[i]]);
                            }
                        } else {
                            assert(results@[i].1 == ob);
                        }
                    }
                    assert forall|i: int| 0 <= i < c2.len() implies start.len() <= #[trigger] c2[i] < ctx.log_value().len() by {
                        if i < closes.len() {
                            assert(c2[i] == closes[i]);
                        }
                    }
                    assert forall|i: int, j: int| 0 <= i < j < c2.len() implies c2[i] < c2[j] by {
                        if j < closes.len() {
                            assert(c2[i] == closes[i] && c2[j] == closes[j]);
                        }
                    }
                    closes = c2;
                    cs = cs.push(cursor as int);
                    us = us.push(used@);
                    let fs = failed_flags(results@.take(cs.len() as int));
                    assert(results@.take(cs.len() as int) =~= before.take(cs.len() - 1).push(results@.last()));
                    assert(fs =~= fs0.push(failed));
                    assert forall|i: int| 0 <= i < cs.len() - 1 implies advance(ns, ls, cs[i], us[i], fs[i]) == Some(
                        (#[trigger] cs[i + 1], us[i + 1]),
                    ) by {
                        if i < cs.len() - 2 {
                            assert(cs[i + 1] == cs.drop_last()[i + 1]);
                        }
                    }
                    assert forall|i: int| 0 <= i < cs.len() implies (#[trigger] results@[i]).0@ == ns[cs[i]] by {
                        if i < cs.len() - 1 {
                            assert(results@[i] == before[i]);
                        }
                    }
                }
                if !failed {
                    cursor = cursor + 1;
                } else {
                    match find_recovery(&names, &plan.loopbacks, &used, cursor) {
                        Some((k, to)) => {
                            let u = used[k];
                            used.set(k, u + 1);
                            cursor = to;
                            proof {
                                assert(index_of(ns, ls[k as int].to) == Some(to as int));
                                assert(first_named(ns, ls[k as int].to, to as int)) by {
                                    let q = choose|q: int| first_named(ns, ls[k as int].to, q);
                                    assert(q == to);
                                }
                            }
                        },
                        None => {
                            stopped = true;
                        },
                    }
                }
            }
        }
        proof {
            if cs.len() > 0 && !stopped && !capped {
                assert(cursor == len);
            }
            let runs = cs.len();
            assert(results@.take(runs as int) =~= results@.take(runs as int));
            let fs = failed_flags(results@.take(runs as int));
            assert(runs <= results@.len() <= runs + 1);
            assert(runs <= cap);
            assert(walk(ns, ls, cs, us, fs));
            assert(runs == 0 ==> ns.len() == 0 && results@.len() == 0);
            assert(runs < results@.len() ==> {
                &&& runs == cap
                &&& cap_entry(results@.last(), cap as nat)
                &&& advance(ns, ls, cs[runs - 1], us[runs - 1], fs[runs - 1]) matches Some((c, u)) && c
                    < ns.len()
            });
            assert((runs > 0 && runs == results@.len()) ==> match advance(ns, ls, cs[runs - 1], us[runs - 1], fs[runs - 1]) {
                Some((c, u)) => c == ns.len(),
                None => true,
            });
            assert(orchestrated_along(ns, ls, cap as nat, results@, cs, us, runs));
            assert(orchestrated(ns, ls, cap as nat, results@));
            assert(ran_as(ctx.log_value(), start.len() as int, results@, closes));
        }
        results
    }
}


/// No loop-back edge is ever taken more often than its budget allows: along any walk,
/// the retries spent on each edge stay within its `max_retries`.
pub proof fn lemma_retry_budget(
    names: Seq<Seq<char>>,
    lbs: Seq<LoopBackView>,
    cs: Seq<int>,
    us: Seq<Seq<u32>>,
    fs: Seq<bool>,
)
    requires
        walk(names, lbs, cs, us, fs),
    ensures
        forall|i: int| 0 <= i < us.len() ==> (#[trigger] us[i]).len() == lbs.len(),
        forall|i: int, k: int|
            #![trigger us[i][k]]
            0 <= i < us.len() && 0 <= k < lbs.len() ==> us[i][k] <= lbs[k].max_retries,
{
    assert forall|i: int| 0 <= i < us.len() implies (#[trigger] us[i]).len() == lbs.len() && (forall|k: int|
        0 <= k < lbs.len() ==> #[trigger] us[i][k] <= lbs[k].max_retries) by {
        lemma_retry_budget_at(names, lbs, cs, us, fs, i);
    }
}

proof fn lemma_retry_budget_at(
    names: Seq<Seq<char>>,
    lbs: Seq<LoopBackView>,
    cs: Seq<int>,
    us: Seq<Seq<u32>>,
    fs: Seq<bool>,
    i: int,
)
    requires
        walk(names, lbs, cs, us, fs),
        0 <= i < us.len(),
    ensures
        us[i].len() == lbs.len(),
        forall|k: int| 0 <= k < lbs.len() ==> #[trigger] us[i][k] <= lbs[k].max_retries,
    decreases i,
{
    if i > 0 {
        lemma_retry_budget_at(names, lbs, cs, us, fs, i - 1);
        let prev = us[i - 1];
        let j = i - 1;
        assert(cs[j + 1] == cs[i]);
        assert(advance(names, lbs, cs[j], us[j], fs[j]) == Some((cs[j + 1], us[j + 1])));
        assert(advance(names, lbs, cs[i - 1], prev, fs[i - 1]) == Some((cs[i], us[i])));
        if fs[i - 1] {
            let k = choose|k: int| #[trigger] first_recovery(names, lbs, prev, cs[i - 1], k);
            assert(first_recovery(names, lbs, prev, cs[i - 1], k));
            assert forall|q: int| 0 <= q < lbs.len() implies #[trigger] us[i][q] <= lbs[q].max_retries by {
                if q != k {
                    assert(us[i][q] == prev[q]);
                }
            }
        }
    }
}

/// A plan without loop-back edges is a linear chain: its phases run in order, each
/// once, and the workflow stops at the first failure.
pub proof fn lemma_linear_plan(names: Seq<Seq<char>>, results: Seq<(String, PhaseOutcome)>)
    requires
        orchestrated(names, Seq::empty(), step_cap(names.len(), Seq::empty()), results),
    ensures
        results.len() <= names.len(),
        forall|i: int| 0 <= i < results.len() ==> (#[trigger] results[i]).0@ == names[i],
        forall|i: int| 0 <= i < results.len() - 1 ==> (#[trigger] results[i]).1 is Success,
        results.len() < names.len() ==> results.len() > 0 && results.last().1 is Failed,
{
    let lbs = Seq::<LoopBackView>::empty();
    let cap = step_cap(names.len(), lbs);
    let (cs, us, runs) = choose|cs: Seq<int>, us: Seq<Seq<u32>>, runs: nat|
        #[trigger] orchestrated_along(names, lbs, cap, results, cs, us, runs);
    let fs = failed_flags(results.take(runs as int));
    assert(retry_total(lbs) == 0);
    assert(cap == names.len() + 1) by (nonlinear_arith)
        requires
            cap == names.len() * (0 + 1) + 1,
    ;
    assert forall|i: int| 0 <= i < runs implies #[trigger] cs[i] == i by {
        lemma_linear_cursor(names, cs, us, fs, i);
    }
    assert forall|i: int| 0 <= i < runs - 1 implies !(#[trigger] fs[i]) by {
        lemma_linear_cursor(names, cs, us, fs, i);
    }
    if runs > 0 {
        assert(cs[runs - 1] == runs - 1);
    }
    assert(runs == results.len());
    assert forall|i: int| 0 <= i < results.len() - 1 implies (#[trigger] results[i]).1 is Success by {
        assert(!fs[i]);
        assert(fs[i] == (results.take(runs as int)[i].1 is Failed));
    }
    if results.len() < names.len() {
        if runs > 0 {
            let last = runs - 1;
            if !fs[last] {
                assert(advance(names, lbs, cs[last], us[last], fs[last]) == Some((cs[last] + 1, us[last])));
            }
            assert(fs[last] == (results.take(runs as int)[last].1 is Failed));
        }
    }
}

proof fn lemma_linear_cursor(
    names: Seq<Seq<char>>,
    cs: Seq<int>,
    us: Seq<Seq<u32>>,
    fs: Seq<bool>,
    i: int,
)
    requires
        walk(names, Seq::empty(), cs, us, fs),
        0 <= i < cs.len(),
    ensures
        cs[i] == i,
        i < cs.len() - 1 ==> !fs[i],
    decreases i,
{
    let lbs = Seq::<LoopBackView>::empty();
    if i < cs.len() - 1 {
        assert(advance(names, lbs, cs[i], us[i], fs[i]) == Some((cs[i + 1], us[i + 1])));
        if fs[i] {
            assert(recovery(names, lbs, us[i], cs[i]) is None);
        }
    }
    if i > 0 {
        lemma_linear_cursor(names, cs, us, fs, i - 1);
        let j = i - 1;
        assert(cs[j + 1] == cs[i]);
        assert(advance(names, lbs, cs[j], us[j], fs[j]) == Some((cs[j + 1], us[j + 1])));
    }
}

} // verus!
