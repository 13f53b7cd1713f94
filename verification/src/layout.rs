//! The kernel's share of the phases whose judgement is geometric or numeric (floor
//! planning, placement, routing, constraint verification, DRC, EMC): the choices they
//! make that are not numeric, the rules they gate on, and how they close. Coordinates,
//! widths and the geometric rules are computed outside the kernel.

use vstd::prelude::*;
use crate::domain::{Component, EntityId, Net, NetView, RequirementCategory, RequirementView};
use crate::engines::{finding_views, VerificationContext, ViolationFinding};
use crate::fsm::{extends, lemma_extends_refl, MachineError, StepResult};
use crate::lowering::{lower_pcb, pcb_stage};
use crate::ports::{Event, ReasoningEngine};
use crate::rules::{
    net_node_ids, string_views, ConstraintConsistencyRule, DfmEdgeClearanceRule,
    DfmTraceEdgeClearanceRule, DrcCourtyardOverlapRule, DrcNetOpenRule, DrcOutOfBoundsRule,
    DrcTraceWidthRule, EmcAntennaLengthRule, KernelRule, VerificationEngine,
};
use crate::runtime::RuntimeCore;
use crate::checks::{conclude, gated_within, milestone};
use crate::state::{fold_events, views};
use crate::units::{unit_dimension, Dimension, Magnitude, PhysicalQuantity, Tolerance, Unit};

verus! {

// ------------------------------------------------------------------------------------
// Floor planning
// ------------------------------------------------------------------------------------

/// The first length target on a mechanical requirement, in commit order.
pub open spec fn outline_target(reqs: Seq<RequirementView>) -> Option<PhysicalQuantity>
    decreases reqs.len(),
{
    if reqs.len() == 0 {
        None
    } else {
        match outline_target(reqs.drop_last()) {
            Some(q) => Some(q),
            None => {
                let r = reqs.last();
                if r.category == RequirementCategory::Mechanical {
                    first_length(r.targets)
                } else {
                    None
                }
            },
        }
    }
}

/// The first length-dimensioned quantity of a list.
pub open spec fn first_length(ts: Seq<PhysicalQuantity>) -> Option<PhysicalQuantity>
    decreases ts.len(),
{
    if ts.len() == 0 {
        None
    } else {
        match first_length(ts.drop_last()) {
            Some(q) => Some(q),
            None => if unit_dimension(ts.last().unit) == Dimension::Length {
                Some(ts.last())
            } else {
                None
            },
        }
    }
}

/// The default outline edge: 100 mm.
pub open spec fn default_edge() -> PhysicalQuantity {
    PhysicalQuantity { magnitude: Magnitude(0x4059_0000_0000_0000), unit: Unit::Millimetre, tolerance: Tolerance::NoTolerance }
}

/// Sizes the board outline: a square whose edge is the first length target on a
/// mechanical requirement, else 100 mm. A design has exactly one outline.
pub struct PcbFloorPlanningMachine;

impl PcbFloorPlanningMachine {
    pub fn new() -> Self {
        PcbFloorPlanningMachine
    }

    /// The name the phase is recorded under, which loop-back edges refer to.
    pub fn phase_name() -> (n: &'static str)
        ensures
            n@ == "PcbFloorPlanning"@,
    {
        "PcbFloorPlanning"
    }

    /// The edge of the square outline.
    pub fn outline_edge<E: ReasoningEngine>(&self, ctx: &RuntimeCore<E>) -> (q: PhysicalQuantity)
        ensures
            q == match outline_target(ctx.state_value()@.requirements) {
                Some(t) => t,
                None => default_edge(),
            },
    {
        let reqs = &ctx.state().requirements;
        let ghost rv = views(reqs@);
        let n = reqs.len();
        let mut i: usize = 0;
        proof {
            assert(rv.take(0) =~= Seq::<RequirementView>::empty());
        }
        while i < n
            invariant
                n == reqs@.len(),
                rv == views(reqs@),
                rv == ctx.state_value()@.requirements,
                i <= n,
                outline_target(rv.take(i as int)) is None,
            decreases n - i,
        {
            proof {
                assert(rv.take(i + 1).drop_last() =~= rv.take(i as int));
                assert(rv.take(i + 1).last() == reqs@[i as int]@);
            }
            let r = &reqs[i];
            if r.category == RequirementCategory::Mechanical {
                let m = r.targets.len();
                let mut j: usize = 0;
                proof {
                    assert(r.targets@.take(0) =~= Seq::<PhysicalQuantity>::empty());
                }
                while j < m
                    invariant
                        m == r.targets@.len(),
                        j <= m,
                        first_length(r.targets@.take(j as int)) is None,
                        n == reqs@.len(),
                        i < n,
                        rv == views(reqs@),
                        rv == ctx.state_value()@.requirements,
                        outline_target(rv.take(i as int)) is None,
                        rv.take(i + 1).drop_last() == rv.take(i as int),
                        rv.take(i + 1).last() == r@,
                        r.category == RequirementCategory::Mechanical,
                    decreases m - j,
                {
                    proof {
                        assert(r.targets@.take(j + 1).drop_last() =~= r.targets@.take(j as int));
                    }
                    let t = r.targets[j];
                    if t.dimension() == Dimension::Length {
                        proof {
                            assert(first_length(r.targets@.take(j + 1)) == Some(t));
                            lemma_first_length_prefix(r.targets@, j + 1);
                            assert(r@.targets == r.targets@);
                            assert(outline_target(rv.take(i + 1)) == Some(t));
                            lemma_outline_prefix(rv, i + 1);
                        }
                        return t;
                    }
                    j = j + 1;
                }
                proof {
                    assert(r.targets@.take(m as int) =~= r.targets@);
                }
            }
            i = i + 1;
        }
        proof {
            assert(rv.take(n as int) =~= rv);
        }
        PhysicalQuantity { magnitude: Magnitude(0x4059_0000_0000_0000), unit: Unit::Millimetre, tolerance: Tolerance::NoTolerance }
    }
}

proof fn lemma_first_length_prefix(ts: Seq<PhysicalQuantity>, k: int)
    requires
        0 <= k <= ts.len(),
        first_length(ts.take(k)) is Some,
    ensures
        first_length(ts) == first_length(ts.take(k)),
    decreases ts.len() - k,
{
    if k == ts.len() {
        assert(ts.take(k) =~= ts);
    } else {
        assert(ts.take(k + 1).drop_last() =~= ts.take(k));
        lemma_first_length_prefix(ts, k + 1);
    }
}

proof fn lemma_outline_prefix(rs: Seq<RequirementView>, k: int)
    requires
        0 <= k <= rs.len(),
        outline_target(rs.take(k)) is Some,
    ensures
        outline_target(rs) == outline_target(rs.take(k)),
    decreases rs.len() - k,
{
    if k == rs.len() {
        assert(rs.take(k) =~= rs);
    } else {
        assert(rs.take(k + 1).drop_last() =~= rs.take(k));
        lemma_outline_prefix(rs, k + 1);
    }
}

// ------------------------------------------------------------------------------------
// Component placement
// ------------------------------------------------------------------------------------

pub open spec fn is_placed(ps: Seq<crate::domain::Placement>, cid: EntityId) -> bool {
    exists|k: int| 0 <= k < ps.len() && (#[trigger] ps[k]).component == cid
}

/// The components not yet placed, each with its position in commit order.
pub open spec fn unplaced(cs: Seq<Component>, ps: Seq<crate::domain::Placement>) -> Seq<(int, Component)>
    decreases cs.len(),
{
    if cs.len() == 0 {
        Seq::empty()
    } else {
        let u = unplaced(cs.drop_last(), ps);
        if is_placed(ps, cs.last().id) {
            u
        } else {
            u.push(((cs.len() - 1) as int, cs.last()))
        }
    }
}

pub open spec fn no_board_place_text() -> Seq<char> {
    "cannot place components before the board outline exists"@
}

/// Lays components in a row in commit order, placing only those not yet placed.
pub struct ComponentPlacementMachine;

impl ComponentPlacementMachine {
    pub fn new() -> Self {
        ComponentPlacementMachine
    }

    /// The name the phase is recorded under, which loop-back edges refer to.
    pub fn phase_name() -> (n: &'static str)
        ensures
            n@ == "ComponentPlacement"@,
    {
        "ComponentPlacement"
    }

    /// The components to place and their positions in commit order; placing anything
    /// before the outline exists is an error.
    pub fn placement_plan<E: ReasoningEngine>(&self, ctx: &RuntimeCore<E>) -> (r: Result<Vec<(usize, Component)>, MachineError>)
        ensures
            ({
                let s = ctx.state_value()@;
                let u = unplaced(s.components, s.placements);
                &&& u.len() > 0 && s.board is None ==> (r matches Err(MachineError::Internal(m)) && m@ == no_board_place_text())
                &&& !(u.len() > 0 && s.board is None) ==> (r matches Ok(v) && v@.len() == u.len() && forall|k: int|
                    0 <= k < u.len() ==> (#[trigger] v@[k]).0 == u[k].0 && v@[k].1 == u[k].1)
            }),
    {
        let st = ctx.state();
        let mut out: Vec<(usize, Component)> = Vec::new();
        let n = st.components.len();
        let mut i: usize = 0;
        proof {
            assert(st.components@.take(0) =~= Seq::<Component>::empty());
        }
        while i < n
            invariant
                n == st.components@.len(),
                i <= n,
                out@.len() == unplaced(st.components@.take(i as int), st.placements@).len(),
                forall|k: int|
                    0 <= k < out@.len() ==> (#[trigger] out@[k]).0 == unplaced(st.components@.take(i as int), st.placements@)[k].0
                        && out@[k].1 == unplaced(st.components@.take(i as int), st.placements@)[k].1,
            decreases n - i,
        {
            proof {
                assert(st.components@.take(i + 1).drop_last() =~= st.components@.take(i as int));
            }
            let cid = st.components[i].id;
            let mut placed = false;
            let m = st.placements.len();
            let mut j: usize = 0;
            while j < m
                invariant
                    m == st.placements@.len(),
                    j <= m,
                    placed == exists|k: int| 0 <= k < j && (#[trigger] st.placements@[k]).component == cid,
                decreases m - j,
            {
                if st.placements[j].component == cid {
                    placed = true;
                }
                j = j + 1;
            }
            if !placed {
                let c = st.components[i].clone();
                out.push((i, c));
            }
            i = i + 1;
        }
        proof {
            assert(st.components@.take(n as int) =~= st.components@);
        }
        if out.len() > 0 && st.board.is_none() {
            return Err(MachineError::Internal(String::from_str("cannot place components before the board outline exists")));
        }
        Ok(out)
    }
}

/// Projects the PCB IR and records a layout milestone; `enriched` distinguishes the
/// routed layout from the placed one.
pub fn close_layout<E: ReasoningEngine>(ctx: &mut RuntimeCore<E>, enriched: bool) -> (r: Result<StepResult, MachineError>)
    requires
        old(ctx).wf(),
    ensures
        final(ctx).wf(),
        extends(old(ctx).log_value(), final(ctx).log_value()),
        final(ctx).autonomy_value() == old(ctx).autonomy_value(),
        final(ctx).state_value()@ == old(ctx).state_value()@,
        ({
            let s0 = old(ctx).state_value()@;
            &&& r is Ok ==> r == Ok::<StepResult, MachineError>(StepResult::Done) && pcb_stage(s0) is None
                && final(ctx).log_value().last().event == (if enriched {
                Event::PcbIrEnriched { schema_version: 1, track_count: s0.tracks.len() as usize }
            } else {
                Event::PcbIrProduced { schema_version: 1, placement_count: s0.placements.len() as usize }
            })
            &&& r matches Err(MachineError::Internal(m)) ==> pcb_stage(s0) == Some(m@) && final(ctx).log_value()
                == old(ctx).log_value()
        }),
{
    proof {
        lemma_extends_refl(ctx.log_value());
    }
    let ir = match lower_pcb(ctx) {
        Ok(ir) => ir,
        Err(e) => {
            return Err(e);
        },
    };
    let mut events: Vec<Event> = Vec::new();
    if enriched {
        events.push(Event::PcbIrEnriched { schema_version: ir.schema_version, track_count: ir.tracks.len() });
    } else {
        events.push(Event::PcbIrProduced { schema_version: ir.schema_version, placement_count: ir.placements.len() });
    }
    let ghost es = events@;
    let ghost l0 = ctx.log_value();
    let ghost sp = ctx.state_value()@;
    ctx.emit(events);
    proof {
        reveal_with_fuel(fold_events, 2);
        assert(ctx.state_value()@ == sp);
        assert(ctx.log_value()[l0.len() + 0int].event == es[0]);
        assert(ctx.log_value().len() == l0.len() + 1);
        assert(extends(l0, ctx.log_value())) by {
            assert(ctx.log_value().take(l0.len() as int) == l0);
        }
    }
    Ok(StepResult::Done)
}

// ------------------------------------------------------------------------------------
// Routing
// ------------------------------------------------------------------------------------

pub open spec fn is_routed(ts: Seq<crate::domain::Track>, nid: EntityId) -> bool {
    exists|k: int| 0 <= k < ts.len() && (#[trigger] ts[k]).net == nid
}

/// The nets to route, in commit order, each with the placements hosting its member pins
/// (distinct, in member order): every net not yet realized by a track whose members
/// resolve to at least one placement.
pub open spec fn routing_work(
    nets: Seq<NetView>,
    pins: Seq<crate::domain::Pin>,
    placements: Seq<crate::domain::Placement>,
    tracks: Seq<crate::domain::Track>,
) -> Seq<(NetView, Seq<EntityId>)>
    decreases nets.len(),
{
    if nets.len() == 0 {
        Seq::empty()
    } else {
        let w = routing_work(nets.drop_last(), pins, placements, tracks);
        let n = nets.last();
        let nodes = net_node_ids(n.members, pins, placements);
        if !is_routed(tracks, n.id) && nodes.len() > 0 {
            w.push((n, nodes))
        } else {
            w
        }
    }
}

/// The segments of a daisy chain over `k` ordered nodes: one per consecutive pair, or a
/// single self-segment for a lone node.
pub open spec fn daisy(k: nat) -> Seq<(int, int)> {
    if k == 0 {
        Seq::empty()
    } else if k == 1 {
        seq![(0int, 0int)]
    } else {
        Seq::new((k - 1) as nat, |i: int| (i, i + 1))
    }
}

pub open spec fn no_board_route_text() -> Seq<char> {
    "cannot route nets before the board outline exists"@
}

/// Realizes each unrouted net as a daisy chain of tracks over the placements of its
/// member pads.
pub struct RoutingPlanningMachine;

impl RoutingPlanningMachine {
    pub fn new() -> Self {
        RoutingPlanningMachine
    }

    /// The name the phase is recorded under, which loop-back edges refer to.
    pub fn phase_name() -> (n: &'static str)
        ensures
            n@ == "RoutingPlanning"@,
    {
        "RoutingPlanning"
    }

    /// The segments joining `k` ordered nodes.
    pub fn daisy_chain_segments(k: usize) -> (v: Vec<(usize, usize)>)
        ensures
            v@.len() == daisy(k as nat).len(),
            forall|i: int| 0 <= i < v@.len() ==> (#[trigger] v@[i]).0 == daisy(k as nat)[i].0 && v@[i].1 == daisy(k as nat)[i].1,
    {
        let mut v: Vec<(usize, usize)> = Vec::new();
        if k == 0 {
            return v;
        }
        if k == 1 {
            v.push((0, 0));
            return v;
        }
        let mut i: usize = 0;
        while i + 1 < k
            invariant
                k >= 2,
                i <= k - 1,
                v@.len() == i,
                forall|j: int| 0 <= j < i ==> (#[trigger] v@[j]).0 == j && v@[j].1 == j + 1,
            decreases k - i,
        {
            v.push((i, i + 1));
            i = i + 1;
        }
        v
    }

    /// The nets to route with their node placements; routing before the outline exists
    /// is an error.
    pub fn routing_plan<E: ReasoningEngine>(&self, ctx: &RuntimeCore<E>) -> (r: Result<Vec<(Net, Vec<EntityId>)>, MachineError>)
        ensures
            ({
                let s = ctx.state_value()@;
                let w = routing_work(s.nets, s.pins, s.placements, s.tracks);
                &&& s.board is None ==> (r matches Err(MachineError::Internal(m)) && m@ == no_board_route_text())
                &&& s.board is Some ==> (r matches Ok(v) && v@.len() == w.len() && forall|k: int|
                    0 <= k < w.len() ==> (#[trigger] v@[k]).0@ == w[k].0 && v@[k].1@ == w[k].1)
            }),
    {
        let st = ctx.state();
        if st.board.is_none() {
            return Err(MachineError::Internal(String::from_str("cannot route nets before the board outline exists")));
        }
        let vctx = VerificationContext {
            requirements: st.requirements.as_slice(),
            constraints: st.constraints.as_slice(),
            components: st.components.as_slice(),
            pins: st.pins.as_slice(),
            nets: st.nets.as_slice(),
            parts: st.parts.as_slice(),
            bom_line_items: st.bom_line_items.as_slice(),
            board: None,
            placements: st.placements.as_slice(),
            tracks: st.tracks.as_slice(),
        };
        let rule = DrcNetOpenRule::new();
        let ghost nv = views(st.nets@);
        let mut out: Vec<(Net, Vec<EntityId>)> = Vec::new();
        let n = st.nets.len();
        let mut i: usize = 0;
        proof {
            assert(nv.take(0) =~= Seq::<NetView>::empty());
        }
        while i < n
            invariant
                n == st.nets@.len(),
                nv == views(st.nets@),
                vctx.pins@ == st.pins@,
                vctx.placements@ == st.placements@,
                i <= n,
                out@.len() == routing_work(nv.take(i as int), st.pins@, st.placements@, st.tracks@).len(),
                forall|k: int|
                    0 <= k < out@.len() ==> (#[trigger] out@[k]).0@ == routing_work(nv.take(i as int), st.pins@, st.placements@, st.tracks@)[k].0
                        && out@[k].1@ == routing_work(nv.take(i as int), st.pins@, st.placements@, st.tracks@)[k].1,
            decreases n - i,
        {
            proof {
                assert(nv.take(i + 1).drop_last() =~= nv.take(i as int));
                assert(nv.take(i + 1).last() == st.nets@[i as int]@);
            }
            let net = &st.nets[i];
            let routed = crate::engines::any_track_on(st.tracks.as_slice(), net.id);
            proof {
                assert(routed == is_routed(st.tracks@, net.id));
            }
            if !routed {
                let nodes = rule.node_ids(&vctx, net);
                if nodes.len() > 0 {
                    out.push((net.clone(), nodes));
                }
            }
            i = i + 1;
        }
        proof {
            assert(nv.take(n as int) =~= nv);
        }
        Ok(out)
    }
}

// ------------------------------------------------------------------------------------
// Rule-check phases judged outside the kernel
// ------------------------------------------------------------------------------------

pub(crate) fn id_list(ids: &Vec<&'static str>) -> (v: Vec<String>)
    ensures
        string_views(v@) == ids@.map_values(|s: &'static str| s@),
{
    let mut v: Vec<String> = Vec::new();
    let n = ids.len();
    let mut i: usize = 0;
    while i < n
        invariant
            n == ids@.len(),
            i <= n,
            string_views(v@) == ids@.take(i as int).map_values(|s: &'static str| s@),
        decreases n - i,
    {
        let s = String::from_str(ids[i]);
        let ghost before = v@;
        v.push(s);
        proof {
            assert(string_views(v@) =~= string_views(before).push(s@));
            assert(ids@.take(i + 1) =~= ids@.take(i as int).push(ids@[i as int]));
        }
        i = i + 1;
    }
    assert(ids@.take(n as int) =~= ids@);
    v
}

/// Checks that every pair of active constraints is satisfiable; its gate counts only its
/// own rule's violations.
pub struct ConstraintVerificationMachine;

impl ConstraintVerificationMachine {
    pub fn new() -> Self {
        ConstraintVerificationMachine
    }

    /// The name the phase is recorded under, which loop-back edges refer to.
    pub fn phase_name() -> (n: &'static str)
        ensures
            n@ == "ConstraintVerification"@,
    {
        "ConstraintVerification"
    }

    /// The phase's one rule.
    pub fn rule_ids() -> (v: Vec<String>)
        ensures
            string_views(v@) == seq!["constraint-consistency"@],
    {
        let mut ids: Vec<&'static str> = Vec::new();
        ids.push(ConstraintConsistencyRule::id_text());
        let v = id_list(&ids);
        assert(ids@.map_values(|s: &'static str| s@) =~= seq!["constraint-consistency"@]);
        v
    }

    /// Concludes the check on the consistency rule's findings: raises the new ones, then
    /// gates on the blocking violations of its own rule only and records that it ran.
    pub fn gate<E: ReasoningEngine>(&self, ctx: &mut RuntimeCore<E>, findings: &Vec<ViolationFinding>) -> (r: Result<
        StepResult,
        MachineError,
    >)
        requires
            old(ctx).wf(),
        ensures
            final(ctx).wf(),
            extends(old(ctx).log_value(), final(ctx).log_value()),
            final(ctx).autonomy_value() == old(ctx).autonomy_value(),
            gated_within(old(ctx).state_value(), final(ctx).state_value(), finding_views(findings@), Self::scope(), r),
            milestone(final(ctx).log_value(), final(ctx).state_value(), 1, Self::scope(), r),
    {
        let scope = Some(Self::rule_ids());
        conclude(ctx, findings, 1, &scope)
    }

    /// The phase's gate scope: its own rule.
    pub open spec fn scope() -> Option<Seq<Seq<char>>> {
        Some(seq!["constraint-consistency"@])
    }
}

/// The layout design-rule check; its gate counts only its own rules' violations.
pub struct DrcVerificationMachine;

impl DrcVerificationMachine {
    pub fn new() -> Self {
        DrcVerificationMachine
    }

    /// The name the phase is recorded under, which loop-back edges refer to.
    pub fn phase_name() -> (n: &'static str)
        ensures
            n@ == "DrcVerification"@,
    {
        "DrcVerification"
    }

    /// The phase's rules, in evaluation order.
    pub fn rule_ids() -> (v: Vec<String>)
        ensures
            string_views(v@) == seq![
                "drc-out-of-bounds"@,
                "drc-courtyard-overlap"@,
                "drc-trace-width"@,
                "drc-unrouted-net"@,
                "drc-net-open"@,
            ],
    {
        let mut ids: Vec<&'static str> = Vec::new();
        ids.push(DrcOutOfBoundsRule::id_text());
        ids.push(DrcCourtyardOverlapRule::id_text());
        ids.push(DrcTraceWidthRule::id_text());
        ids.push(crate::engines::DrcUnroutedNetRule::id_text());
        ids.push(DrcNetOpenRule::id_text());
        let v = id_list(&ids);
        proof {
            reveal_strlit("drc-unrouted-net");
        }
        assert(ids@.map_values(|s: &'static str| s@) =~= seq![
            "drc-out-of-bounds"@,
            "drc-courtyard-overlap"@,
            "drc-trace-width"@,
            "drc-unrouted-net"@,
            "drc-net-open"@,
        ]);
        v
    }

    /// The phase's gate scope: its own rules.
    pub open spec fn scope() -> Option<Seq<Seq<char>>> {
        Some(
            seq![
                "drc-out-of-bounds"@,
                "drc-courtyard-overlap"@,
                "drc-trace-width"@,
                "drc-unrouted-net"@,
                "drc-net-open"@,
            ],
        )
    }

    /// Concludes the check on its five rules' findings: raises the new ones, then gates
    /// on the blocking violations of its own rules only and records that five rules ran.
    pub fn gate<E: ReasoningEngine>(&self, ctx: &mut RuntimeCore<E>, findings: &Vec<ViolationFinding>) -> (r: Result<
        StepResult,
        MachineError,
    >)
        requires
            old(ctx).wf(),
        ensures
            final(ctx).wf(),
            extends(old(ctx).log_value(), final(ctx).log_value()),
            final(ctx).autonomy_value() == old(ctx).autonomy_value(),
            gated_within(old(ctx).state_value(), final(ctx).state_value(), finding_views(findings@), Self::scope(), r),
            milestone(final(ctx).log_value(), final(ctx).state_value(), 5, Self::scope(), r),
    {
        let scope = Some(Self::rule_ids());
        conclude(ctx, findings, 5, &scope)
    }

    /// The findings of the unrouted-net rule over the current state.
    pub fn unrouted_findings<E: ReasoningEngine>(&self, ctx: &RuntimeCore<E>) -> (r: Vec<ViolationFinding>)
        ensures
            finding_views(r@) == crate::engines::unrouted_findings(
                ctx.state_value().nets@,
                ctx.state_value().tracks@,
            ),
    {
        let engine = VerificationEngine::new().with_rule(KernelRule::UnroutedNet(crate::engines::DrcUnroutedNetRule::new()));
        let r = crate::checks::run_on_state(ctx, &engine);
        proof {
            reveal_with_fuel(crate::checks::state_run, 2);
            assert(engine.registered().drop_last() =~= Seq::<KernelRule>::empty());
        }
        r
    }
}

/// The radiated-emission screen; its gate counts only its own rule's violations.
pub struct EmcAnalysisMachine;

impl EmcAnalysisMachine {
    pub fn new() -> Self {
        EmcAnalysisMachine
    }

    /// The name the phase is recorded under, which loop-back edges refer to.
    pub fn phase_name() -> (n: &'static str)
        ensures
            n@ == "EmcAnalysis"@,
    {
        "EmcAnalysis"
    }

    pub fn rule_ids() -> (v: Vec<String>)
        ensures
            string_views(v@) == seq!["emc-antenna-length"@],
    {
        let mut ids: Vec<&'static str> = Vec::new();
        ids.push(EmcAntennaLengthRule::id_text());
        let v = id_list(&ids);
        assert(ids@.map_values(|s: &'static str| s@) =~= seq!["emc-antenna-length"@]);
        v
    }

    /// The phase's gate scope: its own rule.
    pub open spec fn scope() -> Option<Seq<Seq<char>>> {
        Some(seq!["emc-antenna-length"@])
    }

    /// Concludes the screen on its rule's findings: raises the new ones, then gates on the
    /// blocking violations of its own rule only and records that its one rule ran.
    pub fn gate<E: ReasoningEngine>(&self, ctx: &mut RuntimeCore<E>, findings: &Vec<ViolationFinding>) -> (r: Result<
        StepResult,
        MachineError,
    >)
        requires
            old(ctx).wf(),
        ensures
            final(ctx).wf(),
            extends(old(ctx).log_value(), final(ctx).log_value()),
            final(ctx).autonomy_value() == old(ctx).autonomy_value(),
            gated_within(old(ctx).state_value(), final(ctx).state_value(), finding_views(findings@), Self::scope(), r),
            milestone(final(ctx).log_value(), final(ctx).state_value(), 1, Self::scope(), r),
    {
        let scope = Some(Self::rule_ids());
        conclude(ctx, findings, 1, &scope)
    }
}

} // verus!
