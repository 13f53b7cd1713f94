//! The verification engine, the identities of the geometric and numeric rules, and the
//! open-net rule's connectivity judgement.

use vstd::prelude::*;
use crate::connectivity::{class_count, count_components, joined};
use crate::domain::{
    blocking, short_hex, EntityId, Net, Pin, Placement, Requirement, RequirementCategory, RequirementView,
    Violation, ViolationSeverity, ViolationView,
};
use crate::units::{unit_dimension, Dimension, PhysicalQuantity};
use crate::engines::{
    any_track_on, coverage_findings, drivers_findings, find_pin, finding_views, lifecycle_findings,
    net_routed, single_id, undriven_findings, unrouted_findings, BomCoverageRule, BomLifecycleRule,
    ErcMultipleDriversRule, ErcPowerNetUndrivenRule, DrcUnroutedNetRule, FindingView, Rule,
    VerificationContext, ViolationFinding, coverage_rule_id, drivers_rule_id, lifecycle_rule_id,
    undriven_rule_id, unrouted_rule_id,
};
use crate::lookup::{by_id, first_where, is_first_where, lemma_first_where_at, lemma_first_where_none};
use crate::state::views;
use crate::text::{decimal, decimal_text};

verus! {

/// Every pair of active constraints must be mutually satisfiable (numeric; judged outside
/// the kernel).
pub struct ConstraintConsistencyRule;

impl ConstraintConsistencyRule {
    pub fn new() -> Self {
        ConstraintConsistencyRule
    }

    pub fn id_text() -> (s: &'static str)
        ensures
            s@ == "constraint-consistency"@,
    {
        "constraint-consistency"
    }
}

/// Every placement's courtyard must lie within the board outline (geometric).
pub struct DrcOutOfBoundsRule;

impl DrcOutOfBoundsRule {
    pub fn new() -> Self {
        DrcOutOfBoundsRule
    }

    pub fn id_text() -> (s: &'static str)
        ensures
            s@ == "drc-out-of-bounds"@,
    {
        "drc-out-of-bounds"
    }
}

/// No two placements on one side may overlap (geometric).
pub struct DrcCourtyardOverlapRule;

impl DrcCourtyardOverlapRule {
    pub fn new() -> Self {
        DrcCourtyardOverlapRule
    }

    pub fn id_text() -> (s: &'static str)
        ensures
            s@ == "drc-courtyard-overlap"@,
    {
        "drc-courtyard-overlap"
    }
}

/// Every track must be at least the fabrication minimum width (numeric).
pub struct DrcTraceWidthRule;

impl DrcTraceWidthRule {
    pub fn new() -> Self {
        DrcTraceWidthRule
    }

    pub fn id_text() -> (s: &'static str)
        ensures
            s@ == "drc-trace-width"@,
    {
        "drc-trace-width"
    }
}

/// Placements must keep the fabrication keep-out band from the board edge (geometric).
pub struct DfmEdgeClearanceRule;

impl DfmEdgeClearanceRule {
    pub fn new() -> Self {
        DfmEdgeClearanceRule
    }

    pub fn id_text() -> (s: &'static str)
        ensures
            s@ == "dfm-edge-clearance"@,
    {
        "dfm-edge-clearance"
    }
}

/// Copper must keep the fabrication keep-out band from the board edge (geometric).
pub struct DfmTraceEdgeClearanceRule;

impl DfmTraceEdgeClearanceRule {
    pub fn new() -> Self {
        DfmTraceEdgeClearanceRule
    }

    pub fn id_text() -> (s: &'static str)
        ensures
            s@ == "dfm-trace-edge-clearance"@,
    {
        "dfm-trace-edge-clearance"
    }
}

/// The ids of `ids`, each once, in increasing order: the subjects of a finding about
/// several requirements.
pub fn distinct_sorted_ids(ids: &Vec<EntityId>) -> (out: Vec<EntityId>)
    ensures
        forall|i: int, j: int| 0 <= i < j < out@.len() ==> (#[trigger] out@[i]).0 < (#[trigger] out@[j]).0,
        forall|x: EntityId| out@.contains(x) <==> ids@.contains(x),
{
    let mut out: Vec<EntityId> = Vec::new();
    let n = ids.len();
    let mut i: usize = 0;
    while i < n
        invariant
            n == ids@.len(),
            i <= n,
            forall|a: int, b: int| 0 <= a < b < out@.len() ==> (#[trigger] out@[a]).0 < (#[trigger] out@[b]).0,
            forall|x: EntityId| out@.contains(x) <==> ids@.take(i as int).contains(x),
        decreases n - i,
    {
        let id = ids[i];
        let m = out.len();
        let mut p: usize = 0;
        while p < m && out[p].0 < id.0
            invariant
                m == out@.len(),
                p <= m,
                forall|a: int| 0 <= a < p ==> (#[trigger] out@[a]).0 < id.0,
            decreases m - p,
        {
            p = p + 1;
        }
        let ghost before = out@;
        proof {
            assert(ids@.take(i + 1) =~= ids@.take(i as int).push(id));
        }
        if p < m && out[p].0 == id.0 {
            proof {
                assert(out@[p as int] == id);
                assert forall|x: EntityId| out@.contains(x) <==> ids@.take(i + 1).contains(x) by {
                    if x == id {
                        assert(out@[p as int] == x);
                    }
                    if ids@.take(i + 1).contains(x) && x != id {
                        let k = choose|k: int| 0 <= k < ids@.take(i + 1).len() && #[trigger] ids@.take(i + 1)[k] == x;
                        assert(ids@.take(i as int)[k] == x);
                    }
                }
            }
        } else {
            out.insert(p, id);
            proof {
                assert forall|a: int, b: int| 0 <= a < b < out@.len() implies (#[trigger] out@[a]).0 < (#[trigger] out@[b]).0 by {
                    if b < p {
                        assert(out@[a] == before[a] && out@[b] == before[b]);
                    } else if b == p {
                        assert(out@[a] == before[a]);
                    } else if a < p {
                        assert(out@[a] == before[a] && out@[b] == before[b - 1]);
                        assert(before[b - 1].0 >= id.0);
                        if b - 1 > p {
                            assert(before[p as int].0 < before[b - 1].0);
                        }
                    } else if a == p {
                        assert(out@[b] == before[b - 1]);
                        if b - 1 > p {
                            assert(before[p as int].0 < before[b - 1].0);
                        }
                    } else {
                        assert(out@[a] == before[a - 1] && out@[b] == before[b - 1]);
                    }
                }
                assert forall|x: EntityId| out@.contains(x) <==> ids@.take(i + 1).contains(x) by {
                    if out@.contains(x) {
                        let k = choose|k: int| 0 <= k < out@.len() && #[trigger] out@[k] == x;
                        if k != p {
                            if k < p {
                                assert(before[k] == x);
                            } else {
                                assert(before[k - 1] == x);
                            }
                            assert(before.contains(x));
                            assert(ids@.take(i as int).contains(x));
                            let k2 = choose|k2: int| 0 <= k2 < ids@.take(i as int).len() && #[trigger] ids@.take(i as int)[k2] == x;
                            assert(ids@.take(i + 1)[k2] == x);
                        } else {
                            assert(ids@.take(i + 1)[i as int] == x);
                        }
                    }
                    if ids@.take(i + 1).contains(x) {
                        if x == id {
                            assert(out@[p as int] == x);
                        } else {
                            let k = choose|k: int| 0 <= k < ids@.take(i + 1).len() && #[trigger] ids@.take(i + 1)[k] == x;
                            assert(ids@.take(i as int)[k] == x);
                            assert(ids@.take(i as int).contains(x));
                            assert(before.contains(x));
                            let q = choose|q: int| 0 <= q < before.len() && #[trigger] before[q] == x;
                            if q < p {
                                assert(out@[q] == x);
                            } else {
                                assert(out@[q + 1] == x);
                            }
                        }
                    }
                }
            }
        }
        i = i + 1;
    }
    proof {
        assert(ids@.take(n as int) =~= ids@);
    }
    out
}

/// A net's copper must stay below the radiating-antenna length (numeric).
pub struct EmcAntennaLengthRule;

impl EmcAntennaLengthRule {
    pub fn new() -> Self {
        EmcAntennaLengthRule
    }

    pub fn id_text() -> (s: &'static str)
        ensures
            s@ == "emc-antenna-length"@,
    {
        "emc-antenna-length"
    }
}

// ------------------------------------------------------------------------------------
// Fabrication floors
// ------------------------------------------------------------------------------------

/// The length-dimensioned quantities of a list, in order.
pub open spec fn length_targets(ts: Seq<PhysicalQuantity>) -> Seq<PhysicalQuantity>
    decreases ts.len(),
{
    if ts.len() == 0 {
        Seq::empty()
    } else {
        length_targets(ts.drop_last()) + if unit_dimension(ts.last().unit) == Dimension::Length {
            seq![ts.last()]
        } else {
            Seq::empty()
        }
    }
}

/// The length targets stated on fabrication requirements, in commit order. The first is
/// the process's minimum trace width, the second the board-edge keep-out band.
pub open spec fn fabrication_targets(reqs: Seq<RequirementView>) -> Seq<PhysicalQuantity>
    decreases reqs.len(),
{
    if reqs.len() == 0 {
        Seq::empty()
    } else {
        fabrication_targets(reqs.drop_last()) + if reqs.last().category == RequirementCategory::Fabrication {
            length_targets(reqs.last().targets)
        } else {
            Seq::empty()
        }
    }
}

/// The fabrication process floors the layout rules read, in commit order.
pub fn fabrication_length_targets(reqs: &[Requirement]) -> (v: Vec<PhysicalQuantity>)
    ensures
        v@ == fabrication_targets(views(reqs@)),
{
    let ghost rv = views(reqs@);
    let mut out: Vec<PhysicalQuantity> = Vec::new();
    let n = reqs.len();
    let mut i: usize = 0;
    while i < n
        invariant
            n == reqs@.len(),
            rv == views(reqs@),
            i <= n,
            out@ == fabrication_targets(rv.take(i as int)),
        decreases n - i,
    {
        proof {
            assert(rv.take(i + 1).drop_last() =~= rv.take(i as int));
            assert(rv.take(i + 1).last() == reqs@[i as int]@);
        }
        let r = &reqs[i];
        if r.category == RequirementCategory::Fabrication {
            let ghost before = out@;
            let m = r.targets.len();
            let mut j: usize = 0;
            while j < m
                invariant
                    m == r.targets@.len(),
                    j <= m,
                    out@ == before + length_targets(r.targets@.take(j as int)),
                decreases m - j,
            {
                proof {
                    assert(r.targets@.take(j + 1).drop_last() =~= r.targets@.take(j as int));
                }
                let t = r.targets[j];
                if t.unit.dimension() == Dimension::Length {
                    out.push(t);
                    proof {
                        assert(out@ =~= before + length_targets(r.targets@.take(j + 1)));
                    }
                } else {
                    proof {
                        assert(out@ =~= before + length_targets(r.targets@.take(j + 1)));
                    }
                }
                j = j + 1;
            }
            proof {
                assert(r.targets@.take(m as int) =~= r.targets@);
            }
        } else {
            proof {
                assert(out@ =~= fabrication_targets(rv.take(i + 1)));
            }
        }
        i = i + 1;
    }
    proof {
        assert(rv.take(n as int) =~= rv);
    }
    out
}

// ------------------------------------------------------------------------------------
// Open nets
// ------------------------------------------------------------------------------------

pub open spec fn on_component(c: EntityId) -> spec_fn(Placement) -> bool {
    |pl: Placement| pl.component == c
}

/// The placement hosting a member pin: the first placement of the pin's component.
pub open spec fn hosting_placement(pins: Seq<Pin>, placements: Seq<Placement>, pin: EntityId) -> Option<EntityId> {
    match by_id(pins, pin) {
        Some(p) => match first_where(placements, on_component(p.component)) {
            Some(i) => Some(placements[i].id),
            None => None,
        },
        None => None,
    }
}

/// The distinct placements hosting a net's member pins, in order of first appearance.
pub open spec fn net_node_ids(members: Seq<EntityId>, pins: Seq<Pin>, placements: Seq<Placement>) -> Seq<EntityId>
    decreases members.len(),
{
    if members.len() == 0 {
        Seq::empty()
    } else {
        let acc = net_node_ids(members.drop_last(), pins, placements);
        match hosting_placement(pins, placements, members.last()) {
            Some(id) => if acc.contains(id) { acc } else { acc.push(id) },
            None => acc,
        }
    }
}

pub open spec fn net_open_rule_id() -> Seq<char> {
    "drc-net-open"@
}

pub open spec fn net_open_message(net: Net, components: nat) -> Seq<char> {
    "net \""@ + net.name@ + "\" ("@ + short_hex(net.id) + ") is electrically open: member pads fall in "@
        + decimal(components) + " disconnected copper components"@
}

/// The open-net finding for one net, given the endpoints its tracks resolved to: a net
/// whose pads span two or more placements and that carries copper is open when its
/// tracks leave the placements in more than one connected class.
pub open spec fn net_open_finding(
    net: Net,
    nodes: Seq<EntityId>,
    routed: bool,
    edges: Seq<(Option<usize>, Option<usize>)>,
) -> Option<FindingView> {
    let c = class_count(joined(nodes.len(), edges));
    if nodes.len() >= 2 && routed && c > 1 {
        Some(
            FindingView {
                rule: net_open_rule_id(),
                severity: ViolationSeverity::Error,
                subjects: seq![net.id],
                message: net_open_message(net, c),
            },
        )
    } else {
        None
    }
}

fn placement_on_component(placements: &[Placement], c: EntityId) -> (r: Option<EntityId>)
    ensures
        r == (match first_where(placements@, on_component(c)) {
            Some(i) => Some(placements@[i].id),
            None => None::<EntityId>,
        }),
{
    let n = placements.len();
    let mut i: usize = 0;
    while i < n
        invariant
            n == placements@.len(),
            i <= n,
            forall|j: int| 0 <= j < i ==> !on_component(c)(#[trigger] placements@[j]),
        decreases n - i,
    {
        if placements[i].component == c {
            proof {
                lemma_first_where_at(placements@, on_component(c), i as int);
            }
            return Some(placements[i].id);
        }
        i = i + 1;
    }
    proof {
        lemma_first_where_none(placements@, on_component(c));
    }
    None
}

/// The connectivity rule for a net's copper: every member pad must fall in one connected
/// class of the net's tracks. A net without copper is left to the unrouted-net rule.
pub struct DrcNetOpenRule;

impl DrcNetOpenRule {
    pub fn new() -> Self {
        DrcNetOpenRule
    }

    pub fn id_text() -> (s: &'static str)
        ensures
            s@ == net_open_rule_id(),
    {
        "drc-net-open"
    }

    /// The nodes of a net's connectivity graph: the distinct placements hosting its member
    /// pins. A member naming no pin, or a pin whose component is unplaced, adds no node.
    pub fn node_ids(&self, ctx: &VerificationContext, net: &Net) -> (r: Vec<EntityId>)
        ensures
            r@ == net_node_ids(net.members@, ctx.pins@, ctx.placements@),
    {
        let mut out: Vec<EntityId> = Vec::new();
        let n = net.members.len();
        let mut i: usize = 0;
        while i < n
            invariant
                n == net.members@.len(),
                i <= n,
                out@ == net_node_ids(net.members@.take(i as int), ctx.pins@, ctx.placements@),
            decreases n - i,
        {
            let m = net.members[i];
            proof {
                assert(net.members@.take(i + 1).drop_last() =~= net.members@.take(i as int));
                assert(net.members@.take(i + 1).last() == m);
            }
            match find_pin(ctx.pins, m) {
                Some(pin) => {
                    match placement_on_component(ctx.placements, pin.component) {
                        Some(pid) => {
                            let mut seen = false;
                            let mut k: usize = 0;
                            while k < out.len()
                                invariant
                                    k <= out@.len(),
                                    seen == (exists|t: int| 0 <= t < k && out@[t] == pid),
                                decreases out@.len() - k,
                            {
                                if out[k] == pid {
                                    seen = true;
                                }
                                k = k + 1;
                            }
                            proof {
                                if seen {
                                    let t = choose|t: int| 0 <= t < out@.len() && out@[t] == pid;
                                    assert(out@.contains(pid));
                                } else {
                                    assert(!out@.contains(pid));
                                }
                            }
                            if !seen {
                                out.push(pid);
                            }
                        },
                        None => {},
                    }
                },
                None => {},
            }
            i = i + 1;
        }
        assert(net.members@.take(n as int) =~= net.members@);
        out
    }

    /// The finding for one net, given the node pair each of its tracks' endpoints resolved
    /// to (an unresolved endpoint is `None`; an index past the nodes joins nothing).
    pub fn net_finding(
        &self,
        ctx: &VerificationContext,
        net: &Net,
        edges: &Vec<(Option<usize>, Option<usize>)>,
    ) -> (r: Option<ViolationFinding>)
        ensures
            (match r {
                Some(f) => Some(f@),
                None => None::<FindingView>,
            }) == net_open_finding(
                *net,
                net_node_ids(net.members@, ctx.pins@, ctx.placements@),
                net_routed(ctx.tracks@, net.id),
                edges@,
            ),
    {
        let nodes = self.node_ids(ctx, net);
        if nodes.len() < 2 {
            return None;
        }
        if !any_track_on(ctx.tracks, net.id) {
            return None;
        }
        let c = count_components(nodes.len(), edges);
        if c > 1 {
            let message = String::from_str("net \"").concat(net.name.as_str()).concat("\" (").concat(
                net.id.short().as_str(),
            ).concat(") is electrically open: member pads fall in ").concat(
                decimal_text(c as u64).as_str(),
            ).concat(" disconnected copper components");
            Some(
                ViolationFinding {
                    rule: String::from_str(Self::id_text()),
                    severity: ViolationSeverity::Error,
                    subjects: single_id(net.id),
                    message,
                },
            )
        } else {
            None
        }
    }
}

// ------------------------------------------------------------------------------------
// The engine
// ------------------------------------------------------------------------------------

/// The rules the kernel evaluates itself.
pub enum KernelRule {
    PowerNetUndriven(ErcPowerNetUndrivenRule),
    MultipleDrivers(ErcMultipleDriversRule),
    BomCoverage(BomCoverageRule),
    BomLifecycle(BomLifecycleRule),
    UnroutedNet(DrcUnroutedNetRule),
}

pub open spec fn kernel_rule_id(r: KernelRule) -> Seq<char> {
    match r {
        KernelRule::PowerNetUndriven(_) => undriven_rule_id(),
        KernelRule::MultipleDrivers(_) => drivers_rule_id(),
        KernelRule::BomCoverage(_) => coverage_rule_id(),
        KernelRule::BomLifecycle(_) => lifecycle_rule_id(),
        KernelRule::UnroutedNet(_) => unrouted_rule_id(),
    }
}

/// What a kernel rule finds in a context.
pub open spec fn kernel_findings(r: KernelRule, ctx: &VerificationContext) -> Seq<FindingView> {
    match r {
        KernelRule::PowerNetUndriven(_) => undriven_findings(ctx.nets@, ctx.pins@),
        KernelRule::MultipleDrivers(_) => drivers_findings(ctx.nets@, ctx.pins@),
        KernelRule::BomCoverage(_) => coverage_findings(ctx.components@, ctx.bom_line_items@),
        KernelRule::BomLifecycle(_) => lifecycle_findings(ctx.bom_line_items@, ctx.parts@),
        KernelRule::UnroutedNet(_) => unrouted_findings(ctx.nets@, ctx.tracks@),
    }
}

/// The findings of a rule list, rule by rule in registration order.
pub open spec fn rule_run<R: Rule>(rules: Seq<R>, ctx: &VerificationContext) -> Seq<FindingView>
    decreases rules.len(),
{
    if rules.len() == 0 {
        Seq::empty()
    } else {
        rule_run(rules.drop_last(), ctx) + rules.last().found(ctx)
    }
}

impl KernelRule {
    pub fn rule_id(&self) -> (s: &'static str)
        ensures
            s@ == kernel_rule_id(*self),
    {
        match self {
            KernelRule::PowerNetUndriven(_) => ErcPowerNetUndrivenRule::id_text(),
            KernelRule::MultipleDrivers(_) => ErcMultipleDriversRule::id_text(),
            KernelRule::BomCoverage(_) => BomCoverageRule::id_text(),
            KernelRule::BomLifecycle(_) => BomLifecycleRule::id_text(),
            KernelRule::UnroutedNet(_) => DrcUnroutedNetRule::id_text(),
        }
    }

    pub fn findings(&self, ctx: &VerificationContext) -> (r: Vec<ViolationFinding>)
        ensures
            finding_views(r@) == kernel_findings(*self, ctx),
    {
        match self {
            KernelRule::PowerNetUndriven(r) => r.findings(ctx),
            KernelRule::MultipleDrivers(r) => r.findings(ctx),
            KernelRule::BomCoverage(r) => r.findings(ctx),
            KernelRule::BomLifecycle(r) => r.findings(ctx),
            KernelRule::UnroutedNet(r) => r.findings(ctx),
        }
    }
}

impl Rule for KernelRule {
    open spec fn named(&self) -> Seq<char> {
        kernel_rule_id(*self)
    }

    open spec fn found(&self, ctx: &VerificationContext) -> Seq<FindingView> {
        kernel_findings(*self, ctx)
    }

    fn id(&self) -> (s: &str) {
        self.rule_id()
    }

    fn evaluate(&self, ctx: &VerificationContext) -> (r: Vec<ViolationFinding>) {
        self.findings(ctx)
    }
}

/// The number of violations that are blocking and were raised by one of the given rules.
pub open spec fn scoped_blocking(ids: Seq<Seq<char>>, vs: Seq<ViolationView>) -> nat
    decreases vs.len(),
{
    if vs.len() == 0 {
        0
    } else {
        scoped_blocking(ids, vs.drop_last()) + if blocking(vs.last()) && ids.contains(vs.last().rule@) {
            1nat
        } else {
            0nat
        }
    }
}

pub open spec fn string_views(ss: Seq<String>) -> Seq<Seq<char>> {
    ss.map_values(|s: String| s@)
}

fn strings_contain(ids: &Vec<String>, s: &String) -> (r: bool)
    ensures
        r == string_views(ids@).contains(s@),
{
    let n = ids.len();
    let mut i: usize = 0;
    while i < n
        invariant
            n == ids@.len(),
            i <= n,
            forall|k: int| 0 <= k < i ==> ids@[k]@ != s@,
        decreases n - i,
    {
        if ids[i].eq(s) {
            assert(string_views(ids@)[i as int] == s@);
            return true;
        }
        i = i + 1;
    }
    proof {
        if string_views(ids@).contains(s@) {
            let k = choose|k: int| 0 <= k < string_views(ids@).len() && string_views(ids@)[k] == s@;
            assert(ids@[k]@ == s@);
        }
    }
    false
}

/// Counts the open, blocking violations raised by the given rules: a phase's gate counts
/// only its own rules' violations.
pub fn count_blocking_among(ids: &Vec<String>, violations: &[Violation]) -> (n: usize)
    ensures
        n == scoped_blocking(string_views(ids@), views(violations@)),
        n <= violations@.len(),
{
    let len = violations.len();
    let mut count: usize = 0;
    let mut i: usize = 0;
    while i < len
        invariant
            len == violations@.len(),
            i <= len,
            count <= i,
            count == scoped_blocking(string_views(ids@), views(violations@.take(i as int))),
        decreases len - i,
    {
        proof {
            assert(views(violations@.take(i + 1)).drop_last() =~= views(violations@.take(i as int)));
            assert(views(violations@.take(i + 1)).last() == violations@[i as int]@);
        }
        let v = &violations[i];
        if v.is_blocking() && strings_contain(ids, &v.rule) {
            count = count + 1;
        }
        i = i + 1;
    }
    assert(violations@.take(len as int) =~= violations@);
    count
}

/// Runs a registered list of rules and collects their findings, rule by rule in
/// registration order.
pub struct VerificationEngine<R: Rule> {
    rules: Vec<R>,
}

impl<R: Rule> VerificationEngine<R> {
    pub closed spec fn registered(&self) -> Seq<R> {
        self.rules@
    }

    pub fn new() -> (e: Self)
        ensures
            e.registered() == Seq::<R>::empty(),
    {
        VerificationEngine { rules: Vec::new() }
    }

    /// Builder-style registration.
    pub fn with_rule(self, rule: R) -> (e: Self)
        ensures
            e.registered() == self.registered().push(rule),
    {
        let mut rules = self.rules;
        rules.push(rule);
        VerificationEngine { rules }
    }

    pub fn register(&mut self, rule: R)
        ensures
            final(self).registered() == old(self).registered().push(rule),
    {
        self.rules.push(rule);
    }

    pub fn rule_count(&self) -> (n: usize)
        ensures
            n == self.registered().len(),
    {
        self.rules.len()
    }

    /// The registered rules' ids, one per rule in registration order.
    pub fn rule_ids(&self) -> (ids: Vec<String>)
        ensures
            string_views(ids@) == self.registered().map_values(|r: R| r.named()),
    {
        let mut ids: Vec<String> = Vec::new();
        let n = self.rules.len();
        let mut i: usize = 0;
        while i < n
            invariant
                n == self.rules@.len(),
                i <= n,
                string_views(ids@) == self.rules@.take(i as int).map_values(|r: R| r.named()),
            decreases n - i,
        {
            let s = String::from_str(self.rules[i].id());
            let ghost before = ids@;
            ids.push(s);
            proof {
                assert(string_views(ids@) =~= string_views(before).push(s@));
                assert(self.rules@.take(i + 1) =~= self.rules@.take(i as int).push(self.rules@[i as int]));
                assert(string_views(ids@) =~= self.rules@.take(i + 1).map_values(|r: R| r.named()));
            }
            i = i + 1;
        }
        assert(self.rules@.take(n as int) =~= self.rules@);
        ids
    }

    /// The open, blocking violations raised by this engine's own rules.
    pub fn count_open_blocking(&self, violations: &[Violation]) -> (n: usize)
        ensures
            n == scoped_blocking(self.registered().map_values(|r: R| r.named()), views(violations@)),
    {
        let ids = self.rule_ids();
        count_blocking_among(&ids, violations)
    }

    /// Evaluates every rule: exactly each rule's findings, rule by rule in registration
    /// order.
    pub fn run(&self, ctx: &VerificationContext) -> (r: Vec<ViolationFinding>)
        ensures
            finding_views(r@) == rule_run(self.registered(), ctx),
    {
        let mut out: Vec<ViolationFinding> = Vec::new();
        let n = self.rules.len();
        let mut i: usize = 0;
        while i < n
            invariant
                n == self.rules@.len(),
                i <= n,
                finding_views(out@) == rule_run(self.rules@.take(i as int), ctx),
            decreases n - i,
        {
            let mut f = self.rules[i].evaluate(ctx);
            proof {
                assert(self.rules@.take(i + 1).drop_last() =~= self.rules@.take(i as int));
                assert(self.rules@.take(i + 1).last() == self.rules@[i as int]);
            }
            let ghost before = out@;
            let ghost fv = f@;
            out.append(&mut f);
            proof {
                assert(out@ =~= before + fv);
                assert(finding_views(out@) =~= finding_views(before) + finding_views(fv));
            }
            i = i + 1;
        }
        assert(self.rules@.take(n as int) =~= self.rules@);
        out
    }
}

} // verus!
