//! Deterministic domain engines: the planning engine, the part catalog, and the
//! verification framework with its connectivity and procurement rules.
//!
//! Rules whose judgement is geometric or numeric (bounds, outlines, lengths) are
//! evaluated outside the kernel; their identities live here so every verification
//! phase scopes its gate by the same rule ids.

use vstd::prelude::*;
use crate::domain::{
    blocking, short_hex, Board, BomLineItem, Component, ComponentClass, Constraint, EntityId,
    Net, NetClass, Part, PartLifecycle, Pin, PinElectricalType, Placement, Requirement, Track,
    Violation, ViolationSeverity, ViolationView,
};
use crate::lookup::{by_id, find_by_id, ids_contain};
use crate::state::views;
use crate::text::{decimal, decimal_text};

verus! {

/// One step in an agent's elicitation plan.
#[derive(Debug, PartialEq)]
pub struct PlanStep {
    pub name: String,
}

/// Sequences an agent's elicitation steps: a fixed linear plan.
#[derive(Debug, Clone, Copy)]
pub struct PlanningEngine;

impl PlanningEngine {
    pub fn new() -> Self {
        PlanningEngine
    }

    /// `read_intent`, `propose_requirements`, `validate_and_commit`.
    pub fn elicitation_plan(&self) -> (plan: Vec<PlanStep>)
        ensures
            plan@.len() == 3,
            plan@[0].name@ == "read_intent"@,
            plan@[1].name@ == "propose_requirements"@,
            plan@[2].name@ == "validate_and_commit"@,
    {
        let mut plan: Vec<PlanStep> = Vec::new();
        plan.push(PlanStep { name: String::from_str("read_intent") });
        plan.push(PlanStep { name: String::from_str("propose_requirements") });
        plan.push(PlanStep { name: String::from_str("validate_and_commit") });
        plan
    }
}

/// Pure constraint arithmetic over physical bounds. Its comparisons are numeric and
/// are carried out outside the kernel.
#[derive(Debug, Clone, Copy)]
pub struct ConstraintEngine;

impl ConstraintEngine {
    pub fn new() -> Self {
        ConstraintEngine
    }
}

/// A compiled-in catalog entry.
#[derive(Debug, Clone, Copy, PartialEq, Eq)]
pub struct CatalogPart {
    pub mpn: &'static str,
    pub manufacturer: &'static str,
    pub lifecycle: PartLifecycle,
    pub datasheet: &'static str,
}

/// The catalog entry for each component class. The regulator is deliberately
/// end-of-life so that the BOM lifecycle gate has something to catch.
pub open spec fn catalog_entry(class: ComponentClass) -> (Seq<char>, Seq<char>, PartLifecycle, Seq<char>) {
    match class {
        ComponentClass::Connector => ("USB4110-GF-A"@, "GCT"@, PartLifecycle::Active, "https://gct.co/usb4110"@),
        ComponentClass::Ic => ("STM32L010F4P6"@, "STMicroelectronics"@, PartLifecycle::Active, "https://st.com/stm32l0"@),
        ComponentClass::Regulator => ("LM1117-3.3"@, "Texas Instruments"@, PartLifecycle::Eol, "https://ti.com/lm1117"@),
        ComponentClass::Resistor => ("RC0402FR-0710KL"@, "Yageo"@, PartLifecycle::Active, "https://yageo.com/rc0402"@),
        ComponentClass::Capacitor => ("CL05A104KA5NNNC"@, "Samsung"@, PartLifecycle::Active, "https://samsung.com/cl05"@),
    }
}

/// Every catalog part number starts with a printable character, so none is blank.
pub proof fn lemma_catalog_mpn_not_blank(class: ComponentClass)
    ensures
        !crate::text::is_blank(catalog_entry(class).0),
{
    reveal_strlit("USB4110-GF-A");
    reveal_strlit("STM32L010F4P6");
    reveal_strlit("LM1117-3.3");
    reveal_strlit("RC0402FR-0710KL");
    reveal_strlit("CL05A104KA5NNNC");
    assert(!crate::text::is_white_space(catalog_entry(class).0[0]));
}

/// Maps a component class to a concrete catalog part: the same class always yields the
/// same part.
#[derive(Debug, Clone, Copy)]
pub struct PartCatalog;

impl PartCatalog {
    pub fn new() -> Self {
        PartCatalog
    }

    pub fn part_for(&self, class: ComponentClass) -> (p: CatalogPart)
        ensures
            (p.mpn@, p.manufacturer@, p.lifecycle, p.datasheet@) == catalog_entry(class),
    {
        match class {
            ComponentClass::Connector => CatalogPart {
                mpn: "USB4110-GF-A",
                manufacturer: "GCT",
                lifecycle: PartLifecycle::Active,
                datasheet: "https://gct.co/usb4110",
            },
            ComponentClass::Ic => CatalogPart {
                mpn: "STM32L010F4P6",
                manufacturer: "STMicroelectronics",
                lifecycle: PartLifecycle::Active,
                datasheet: "https://st.com/stm32l0",
            },
            ComponentClass::Regulator => CatalogPart {
                mpn: "LM1117-3.3",
                manufacturer: "Texas Instruments",
                lifecycle: PartLifecycle::Eol,
                datasheet: "https://ti.com/lm1117",
            },
            ComponentClass::Resistor => CatalogPart {
                mpn: "RC0402FR-0710KL",
                manufacturer: "Yageo",
                lifecycle: PartLifecycle::Active,
                datasheet: "https://yageo.com/rc0402",
            },
            ComponentClass::Capacitor => CatalogPart {
                mpn: "CL05A104KA5NNNC",
                manufacturer: "Samsung",
                lifecycle: PartLifecycle::Active,
                datasheet: "https://samsung.com/cl05",
            },
        }
    }
}

/// The read-only snapshot of the design a rule evaluates against.
pub struct VerificationContext<'a> {
    pub requirements: &'a [Requirement],
    pub constraints: &'a [Constraint],
    pub components: &'a [Component],
    pub pins: &'a [Pin],
    pub nets: &'a [Net],
    pub parts: &'a [Part],
    pub bom_line_items: &'a [BomLineItem],
    pub board: Option<&'a Board>,
    pub placements: &'a [Placement],
    pub tracks: &'a [Track],
}

/// A problem a rule detected: the engine's judgement, before the runtime mints a
/// violation from it.
#[derive(Debug, PartialEq)]
pub struct ViolationFinding {
    pub rule: String,
    pub severity: ViolationSeverity,
    /// The implicated entities, in a stable order.
    pub subjects: Vec<EntityId>,
    pub message: String,
}

pub struct FindingView {
    pub rule: Seq<char>,
    pub severity: ViolationSeverity,
    pub subjects: Seq<EntityId>,
    pub message: Seq<char>,
}

impl View for ViolationFinding {
    type V = FindingView;

    open spec fn view(&self) -> FindingView {
        FindingView {
            rule: self.rule@,
            severity: self.severity,
            subjects: self.subjects@,
            message: self.message@,
        }
    }
}

impl Clone for ViolationFinding {
    fn clone(&self) -> (r: Self)
        ensures
            r@ == self@,
    {
        let subjects = self.subjects.clone();
        assert(subjects@ =~= self.subjects@);
        ViolationFinding {
            rule: self.rule.clone(),
            severity: self.severity,
            subjects,
            message: self.message.clone(),
        }
    }
}

/// One verification check: an id, and the findings it reports over a design snapshot.
pub trait Rule {
    /// The rule's id.
    spec fn named(&self) -> Seq<char>;

    /// What the rule finds in a snapshot.
    spec fn found(&self, ctx: &VerificationContext) -> Seq<FindingView>;

    fn id(&self) -> (s: &str)
        ensures
            s@ == self.named(),
    ;

    fn evaluate(&self, ctx: &VerificationContext) -> (r: Vec<ViolationFinding>)
        ensures
            finding_views(r@) == self.found(ctx),
    ;
}

/// The pins a net's members name, in member order; a member naming no pin is skipped.
pub open spec fn resolved(members: Seq<EntityId>, pins: Seq<Pin>) -> Seq<Pin>
    decreases members.len(),
{
    if members.len() == 0 {
        Seq::empty()
    } else {
        let rest = resolved(members.drop_last(), pins);
        match by_id(pins, members.last()) {
            Some(p) => rest.push(p),
            None => rest,
        }
    }
}

/// Resolve a net's member pin ids against the pin list, preserving member order.
pub fn resolve_members<'a>(net: &Net, pins: &'a [Pin]) -> (r: Vec<&'a Pin>)
    ensures
        r@.map_values(|p: &Pin| *p) == resolved(net.members@, pins@),
{
    let mut out: Vec<&'a Pin> = Vec::new();
    let n = net.members.len();
    let mut i: usize = 0;
    while i < n
        invariant
            n == net.members@.len(),
            i <= n,
            out@.map_values(|p: &Pin| *p) == resolved(net.members@.take(i as int), pins@),
        decreases n - i,
    {
        let id = net.members[i];
        let found = find_pin(pins, id);
        proof {
            assert(net.members@.take(i + 1).drop_last() =~= net.members@.take(i as int));
            assert(net.members@.take(i + 1).last() == id);
        }
        match found {
            Some(p) => {
                out.push(p);
                assert(out@.map_values(|p: &Pin| *p) =~= resolved(net.members@.take(i as int), pins@).push(*p));
            },
            None => {
                assert(by_id(pins@, id) is None);
                assert(resolved(net.members@.take(i + 1), pins@) == resolved(
                    net.members@.take(i as int),
                    pins@,
                ));
            },
        }
        i = i + 1;
    }
    assert(net.members@.take(n as int) =~= net.members@);
    out
}

pub(crate) fn find_pin<'a>(pins: &'a [Pin], id: EntityId) -> (r: Option<&'a Pin>)
    ensures
        r matches Some(p) ==> by_id(pins@, id) == Some(*p),
        r is None ==> by_id(pins@, id) is None,
{
    let n = pins.len();
    let mut i: usize = 0;
    while i < n
        invariant
            n == pins@.len(),
            i <= n,
            forall|j: int| 0 <= j < i ==> (#[trigger] pins@[j]).id != id,
        decreases n - i,
    {
        if pins[i].id == id {
            proof {
                crate::lookup::lemma_by_id_at(pins@, id, i as int);
            }
            return Some(&pins[i]);
        }
        i = i + 1;
    }
    None
}

/// Whether some resolved pin has the electrical type `ty`.
pub open spec fn has_pin_type(ps: Seq<Pin>, ty: PinElectricalType) -> bool {
    exists|k: int| 0 <= k < ps.len() && (#[trigger] ps[k]).electrical_type == ty
}

fn any_pin_type(ps: &Vec<&Pin>, ty: PinElectricalType) -> (r: bool)
    ensures
        r == has_pin_type(ps@.map_values(|p: &Pin| *p), ty),
{
    let ghost s = ps@.map_values(|p: &Pin| *p);
    let n = ps.len();
    let mut i: usize = 0;
    while i < n
        invariant
            n == ps@.len(),
            s == ps@.map_values(|p: &Pin| *p),
            i <= n,
            forall|k: int| 0 <= k < i ==> (#[trigger] s[k]).electrical_type != ty,
        decreases n - i,
    {
        if ps[i].electrical_type == ty {
            assert(s[i as int].electrical_type == ty);
            return true;
        }
        i = i + 1;
    }
    false
}

/// The identity of the power-net-undriven rule.
pub open spec fn undriven_rule_id() -> Seq<char> {
    "erc-power-net-undriven"@
}

pub open spec fn undriven_message(net: Net) -> Seq<char> {
    "power net \""@ + net.name@ + "\" ("@ + short_hex(net.id)
        + ") has consumers but no driver (no PowerOut pin)"@
}

/// A power net with a consumer (`PowerIn`) but no source (`PowerOut`) is undriven.
pub open spec fn undriven(net: Net, pins: Seq<Pin>) -> bool {
    let ps = resolved(net.members@, pins);
    net.class == NetClass::Power && has_pin_type(ps, PinElectricalType::PowerIn) && !has_pin_type(
        ps,
        PinElectricalType::PowerOut,
    )
}

/// The undriven findings over `nets`, in net order.
pub open spec fn undriven_findings(nets: Seq<Net>, pins: Seq<Pin>) -> Seq<FindingView>
    decreases nets.len(),
{
    if nets.len() == 0 {
        Seq::empty()
    } else {
        let rest = undriven_findings(nets.drop_last(), pins);
        let net = nets.last();
        if undriven(net, pins) {
            rest.push(
                FindingView {
                    rule: undriven_rule_id(),
                    severity: ViolationSeverity::Error,
                    subjects: seq![net.id],
                    message: undriven_message(net),
                },
            )
        } else {
            rest
        }
    }
}

proof fn lemma_undriven_found(xs: Seq<Net>, ys: Seq<Pin>)
    ensures
        forall|k: int| 0 <= k < undriven_findings(xs, ys).len() ==> exists|i: int|
            0 <= i < xs.len() && undriven(xs[i], ys) && (#[trigger] undriven_findings(xs, ys)[k]).subjects
                == seq![xs[i].id] && undriven_findings(xs, ys)[k].rule == undriven_rule_id()
                && undriven_findings(xs, ys)[k].severity == ViolationSeverity::Error,
    decreases xs.len(),
{
    if xs.len() > 0 {
        let q = xs.drop_last();
        lemma_undriven_found(q, ys);
        let f = undriven_findings(xs, ys);
        let r = undriven_findings(q, ys);
        assert forall|k: int| 0 <= k < f.len() implies exists|i: int|
            0 <= i < xs.len() && undriven(xs[i], ys) && (#[trigger] f[k]).subjects == seq![xs[i].id]
                && f[k].rule == undriven_rule_id() && f[k].severity == ViolationSeverity::Error by {
            if k < r.len() {
                assert(f[k] == r[k]);
                let i = choose|i: int| 0 <= i < q.len() && undriven(q[i], ys) && (#[trigger] r[k]).subjects
                    == seq![q[i].id] && r[k].rule == undriven_rule_id() && r[k].severity == ViolationSeverity::Error;
                assert(xs[i] == q[i]);
            } else {
                assert(xs[xs.len() - 1] == xs.last());
            }
        }
    }
}

proof fn lemma_undriven_flagged(xs: Seq<Net>, ys: Seq<Pin>, i: int)
    requires
        0 <= i < xs.len(),
        undriven(xs[i], ys),
    ensures
        exists|k: int| 0 <= k < undriven_findings(xs, ys).len() && (#[trigger] undriven_findings(xs, ys)[k]).subjects
            == seq![xs[i].id] && undriven_findings(xs, ys)[k].rule == undriven_rule_id(),
    decreases xs.len(),
{
    let q = xs.drop_last();
    let f = undriven_findings(xs, ys);
    let r = undriven_findings(q, ys);
    if i < q.len() {
        assert(q[i] == xs[i]);
        lemma_undriven_flagged(q, ys, i);
        let k = choose|k: int| 0 <= k < r.len() && (#[trigger] r[k]).subjects == seq![q[i].id] && r[k].rule
            == undriven_rule_id();
        assert(f[k] == r[k]);
    } else {
        assert(xs[i] == xs.last());
        assert(f[r.len() as int].subjects == seq![xs[i].id]);
    }
}


/// Which nets the power-net-undriven rule flags (its `findings`, and so `evaluate`,
/// return exactly `undriven_findings`): every finding names one net of Power class whose
/// resolved pins include a `PowerIn` consumer and no `PowerOut` source; and every such
/// net is named by a finding, whatever other pins (passive, input, ...) it also holds.
pub proof fn lemma_power_net_undriven_law(nets: Seq<Net>, pins: Seq<Pin>)
    ensures
        forall|k: int| 0 <= k < undriven_findings(nets, pins).len() ==> exists|i: int|
            #![trigger nets[i]]
            0 <= i < nets.len() && (#[trigger] undriven_findings(nets, pins)[k]).subjects == seq![nets[i].id]
                && undriven_findings(nets, pins)[k].rule == "erc-power-net-undriven"@
                && undriven_findings(nets, pins)[k].severity == ViolationSeverity::Error
                && nets[i].class == NetClass::Power
                && (exists|a: int| 0 <= a < resolved(nets[i].members@, pins).len()
                    && (#[trigger] resolved(nets[i].members@, pins)[a]).electrical_type == PinElectricalType::PowerIn)
                && (forall|a: int| 0 <= a < resolved(nets[i].members@, pins).len()
                    ==> (#[trigger] resolved(nets[i].members@, pins)[a]).electrical_type != PinElectricalType::PowerOut),
        forall|i: int, a: int|
            0 <= i < nets.len() && nets[i].class == NetClass::Power && 0 <= a < resolved(nets[i].members@, pins).len()
                && (#[trigger] resolved(nets[i].members@, pins)[a]).electrical_type == PinElectricalType::PowerIn
                && (forall|b: int| 0 <= b < resolved(nets[i].members@, pins).len()
                    ==> (#[trigger] resolved(nets[i].members@, pins)[b]).electrical_type != PinElectricalType::PowerOut)
                ==> exists|k: int| 0 <= k < undriven_findings(nets, pins).len()
                    && (#[trigger] undriven_findings(nets, pins)[k]).subjects == seq![nets[i].id]
                    && undriven_findings(nets, pins)[k].rule == "erc-power-net-undriven"@,
{
    lemma_undriven_found(nets, pins);
    assert forall|i: int, a: int|
        0 <= i < nets.len() && nets[i].class == NetClass::Power && 0 <= a < resolved(nets[i].members@, pins).len()
            && (#[trigger] resolved(nets[i].members@, pins)[a]).electrical_type == PinElectricalType::PowerIn
            && (forall|b: int| 0 <= b < resolved(nets[i].members@, pins).len()
                ==> (#[trigger] resolved(nets[i].members@, pins)[b]).electrical_type != PinElectricalType::PowerOut)
        implies exists|k: int| 0 <= k < undriven_findings(nets, pins).len()
            && (#[trigger] undriven_findings(nets, pins)[k]).subjects == seq![nets[i].id]
            && undriven_findings(nets, pins)[k].rule == "erc-power-net-undriven"@ by {
        assert(undriven(nets[i], pins));
        lemma_undriven_flagged(nets, pins, i);
    }
}

/// The views of a list of findings.
pub open spec fn finding_views(fs: Seq<ViolationFinding>) -> Seq<FindingView> {
    fs.map_values(|f: ViolationFinding| f@)
}

pub(crate) fn single_id(id: EntityId) -> (v: Vec<EntityId>)
    ensures
        v@ == seq![id],
{
    let mut v: Vec<EntityId> = Vec::new();
    v.push(id);
    assert(v@ =~= seq![id]);
    v
}

/// ERC: a power net with consumers but no driver.
pub struct ErcPowerNetUndrivenRule;

impl ErcPowerNetUndrivenRule {
    pub fn new() -> Self {
        ErcPowerNetUndrivenRule
    }

    pub fn id_text() -> (s: &'static str)
        ensures
            s@ == undriven_rule_id(),
    {
        "erc-power-net-undriven"
    }

    pub fn findings(&self, ctx: &VerificationContext) -> (r: Vec<ViolationFinding>)
        ensures
            finding_views(r@) == undriven_findings(ctx.nets@, ctx.pins@),
    {
        let mut out: Vec<ViolationFinding> = Vec::new();
        let n = ctx.nets.len();
        let mut i: usize = 0;
        while i < n
            invariant
                n == ctx.nets@.len(),
                i <= n,
                finding_views(out@) == undriven_findings(ctx.nets@.take(i as int), ctx.pins@),
            decreases n - i,
        {
            let net = &ctx.nets[i];
            proof {
                assert(ctx.nets@.take(i + 1).drop_last() =~= ctx.nets@.take(i as int));
                assert(ctx.nets@.take(i + 1).last() == *net);
            }
            if net.class == NetClass::Power {
                let members = resolve_members(net, ctx.pins);
                let has_consumer = any_pin_type(&members, PinElectricalType::PowerIn);
                let has_source = any_pin_type(&members, PinElectricalType::PowerOut);
                if has_consumer && !has_source {
                    let message = String::from_str("power net \"").concat(net.name.as_str()).concat(
                        "\" (",
                    ).concat(net.id.short().as_str()).concat(
                        ") has consumers but no driver (no PowerOut pin)",
                    );
                    let f = ViolationFinding {
                        rule: String::from_str(Self::id_text()),
                        severity: ViolationSeverity::Error,
                        subjects: single_id(net.id),
                        message,
                    };
                    out.push(f);
                    assert(finding_views(out@) =~= undriven_findings(ctx.nets@.take(i as int), ctx.pins@).push(f@));
                }
            }
            i = i + 1;
        }
        assert(ctx.nets@.take(n as int) =~= ctx.nets@);
        out
    }
}

impl Rule for ErcPowerNetUndrivenRule {
    open spec fn named(&self) -> Seq<char> {
        undriven_rule_id()
    }

    open spec fn found(&self, ctx: &VerificationContext) -> Seq<FindingView> {
        undriven_findings(ctx.nets@, ctx.pins@)
    }

    fn id(&self) -> (s: &str) {
        Self::id_text()
    }

    fn evaluate(&self, ctx: &VerificationContext) -> (r: Vec<ViolationFinding>) {
        self.findings(ctx)
    }
}


/// The number of resolved pins that drive a net (`PowerOut` or `Output`).
pub open spec fn driver_count(ps: Seq<Pin>) -> nat
    decreases ps.len(),
{
    if ps.len() == 0 {
        0
    } else {
        driver_count(ps.drop_last()) + if ps.last().electrical_type == PinElectricalType::PowerOut
            || ps.last().electrical_type == PinElectricalType::Output {
            1nat
        } else {
            0nat
        }
    }
}

pub open spec fn drivers_rule_id() -> Seq<char> {
    "erc-multiple-drivers"@
}

pub open spec fn drivers_message(net: Net, count: nat) -> Seq<char> {
    "net \""@ + net.name@ + "\" ("@ + short_hex(net.id) + ") has "@ + decimal(count)
        + " drivers; only one is allowed"@
}

/// Nets with two or more drivers, in net order.
pub open spec fn drivers_findings(nets: Seq<Net>, pins: Seq<Pin>) -> Seq<FindingView>
    decreases nets.len(),
{
    if nets.len() == 0 {
        Seq::empty()
    } else {
        let rest = drivers_findings(nets.drop_last(), pins);
        let net = nets.last();
        let count = driver_count(resolved(net.members@, pins));
        if count >= 2 {
            rest.push(
                FindingView {
                    rule: drivers_rule_id(),
                    severity: ViolationSeverity::Error,
                    subjects: seq![net.id],
                    message: drivers_message(net, count),
                },
            )
        } else {
            rest
        }
    }
}

proof fn lemma_drivers_found(xs: Seq<Net>, ys: Seq<Pin>)
    ensures
        forall|k: int| 0 <= k < drivers_findings(xs, ys).len() ==> exists|i: int|
            0 <= i < xs.len() && (driver_count(resolved((xs[i]).members@, ys)) >= 2) && (#[trigger] drivers_findings(xs, ys)[k]).subjects
                == seq![xs[i].id] && drivers_findings(xs, ys)[k].rule == drivers_rule_id()
                && drivers_findings(xs, ys)[k].severity == ViolationSeverity::Error,
    decreases xs.len(),
{
    if xs.len() > 0 {
        let q = xs.drop_last();
        lemma_drivers_found(q, ys);
        let f = drivers_findings(xs, ys);
        let r = drivers_findings(q, ys);
        assert forall|k: int| 0 <= k < f.len() implies exists|i: int|
            0 <= i < xs.len() && (driver_count(resolved((xs[i]).members@, ys)) >= 2) && (#[trigger] f[k]).subjects == seq![xs[i].id]
                && f[k].rule == drivers_rule_id() && f[k].severity == ViolationSeverity::Error by {
            if k < r.len() {
                assert(f[k] == r[k]);
                let i = choose|i: int| 0 <= i < q.len() && (driver_count(resolved((q[i]).members@, ys)) >= 2) && (#[trigger] r[k]).subjects
                    == seq![q[i].id] && r[k].rule == drivers_rule_id() && r[k].severity == ViolationSeverity::Error;
                assert(xs[i] == q[i]);
            } else {
                assert(xs[xs.len() - 1] == xs.last());
            }
        }
    }
}

proof fn lemma_drivers_flagged(xs: Seq<Net>, ys: Seq<Pin>, i: int)
    requires
        0 <= i < xs.len(),
        (driver_count(resolved((xs[i]).members@, ys)) >= 2),
    ensures
        exists|k: int| 0 <= k < drivers_findings(xs, ys).len() && (#[trigger] drivers_findings(xs, ys)[k]).subjects
            == seq![xs[i].id] && drivers_findings(xs, ys)[k].rule == drivers_rule_id(),
    decreases xs.len(),
{
    let q = xs.drop_last();
    let f = drivers_findings(xs, ys);
    let r = drivers_findings(q, ys);
    if i < q.len() {
        assert(q[i] == xs[i]);
        lemma_drivers_flagged(q, ys, i);
        let k = choose|k: int| 0 <= k < r.len() && (#[trigger] r[k]).subjects == seq![q[i].id] && r[k].rule
            == drivers_rule_id();
        assert(f[k] == r[k]);
    } else {
        assert(xs[i] == xs.last());
        assert(f[r.len() as int].subjects == seq![xs[i].id]);
    }
}


fn count_drivers(ps: &Vec<&Pin>) -> (r: u64)
    ensures
        r as nat == driver_count(ps@.map_values(|p: &Pin| *p)),
{
    let ghost s = ps@.map_values(|p: &Pin| *p);
    let n = ps.len();
    let mut c: u64 = 0;
    let mut i: usize = 0;
    while i < n
        invariant
            n == ps@.len(),
            s == ps@.map_values(|p: &Pin| *p),
            i <= n,
            c as nat == driver_count(s.take(i as int)),
            c <= i,
        decreases n - i,
    {
        proof {
            assert(s.take(i + 1).drop_last() =~= s.take(i as int));
        }
        let t = ps[i].electrical_type;
        if t == PinElectricalType::PowerOut || t == PinElectricalType::Output {
            c = c + 1;
        }
        i = i + 1;
    }
    assert(s.take(n as int) =~= s);
    c
}

proof fn lemma_driver_count_pairs(ps: Seq<Pin>)
    ensures
        driver_count(ps) >= 1 <==> exists|a: int| 0 <= a < ps.len()
            && ((#[trigger] ps[a]).electrical_type == PinElectricalType::PowerOut
            || ps[a].electrical_type == PinElectricalType::Output),
        driver_count(ps) >= 2 <==> exists|a: int, b: int| 0 <= a < b < ps.len()
            && ((#[trigger] ps[a]).electrical_type == PinElectricalType::PowerOut
            || ps[a].electrical_type == PinElectricalType::Output)
            && ((#[trigger] ps[b]).electrical_type == PinElectricalType::PowerOut
            || ps[b].electrical_type == PinElectricalType::Output),
    decreases ps.len(),
{
    if ps.len() > 0 {
        let q = ps.drop_last();
        let n = ps.len() - 1;
        lemma_driver_count_pairs(q);
        let last_drives = ps[n].electrical_type == PinElectricalType::PowerOut
            || ps[n].electrical_type == PinElectricalType::Output;
        assert(ps.last() == ps[n]);
        assert forall|a: int| 0 <= a < n implies #[trigger] q[a] == ps[a] by {}
        if exists|a: int| 0 <= a < ps.len() && ((#[trigger] ps[a]).electrical_type == PinElectricalType::PowerOut
            || ps[a].electrical_type == PinElectricalType::Output) {
            let a = choose|a: int| 0 <= a < ps.len() && ((#[trigger] ps[a]).electrical_type == PinElectricalType::PowerOut
                || ps[a].electrical_type == PinElectricalType::Output);
            if a < n {
                assert(q[a] == ps[a]);
            }
        }
        if exists|a: int, b: int| 0 <= a < b < ps.len()
            && ((#[trigger] ps[a]).electrical_type == PinElectricalType::PowerOut
            || ps[a].electrical_type == PinElectricalType::Output)
            && ((#[trigger] ps[b]).electrical_type == PinElectricalType::PowerOut
            || ps[b].electrical_type == PinElectricalType::Output) {
            let (a, b) = choose|a: int, b: int| 0 <= a < b < ps.len()
                && ((#[trigger] ps[a]).electrical_type == PinElectricalType::PowerOut
                || ps[a].electrical_type == PinElectricalType::Output)
                && ((#[trigger] ps[b]).electrical_type == PinElectricalType::PowerOut
                || ps[b].electrical_type == PinElectricalType::Output);
            assert(q[a] == ps[a]);
            if b < n {
                assert(q[b] == ps[b]);
            }
        }
        if driver_count(ps) >= 2 {
            if last_drives {
                let a = choose|a: int| 0 <= a < q.len() && ((#[trigger] q[a]).electrical_type == PinElectricalType::PowerOut
                    || q[a].electrical_type == PinElectricalType::Output);
                assert(ps[a] == q[a]);
                assert(0 <= a < n < ps.len());
            } else {
                let (a, b) = choose|a: int, b: int| 0 <= a < b < q.len()
                    && ((#[trigger] q[a]).electrical_type == PinElectricalType::PowerOut
                    || q[a].electrical_type == PinElectricalType::Output)
                    && ((#[trigger] q[b]).electrical_type == PinElectricalType::PowerOut
                    || q[b].electrical_type == PinElectricalType::Output);
                assert(ps[a] == q[a] && ps[b] == q[b]);
            }
        }
        if driver_count(ps) >= 1 && !last_drives {
            let a = choose|a: int| 0 <= a < q.len() && ((#[trigger] q[a]).electrical_type == PinElectricalType::PowerOut
                || q[a].electrical_type == PinElectricalType::Output);
            assert(ps[a] == q[a]);
        }
    }
}

/// A count of two or more drivers is witnessed by two distinct driving pins.
proof fn lemma_two_drivers_witness(ps: Seq<Pin>)
    requires
        driver_count(ps) >= 2,
    ensures
        exists|a: int, b: int| 0 <= a < b < ps.len()
            && ((#[trigger] ps[a]).electrical_type == PinElectricalType::PowerOut
            || ps[a].electrical_type == PinElectricalType::Output)
            && ((#[trigger] ps[b]).electrical_type == PinElectricalType::PowerOut
            || ps[b].electrical_type == PinElectricalType::Output),
{
    lemma_driver_count_pairs(ps);
}

/// Which nets the multiple-drivers rule flags (its `findings`, and so `evaluate`, return
/// exactly `drivers_findings`): a net is flagged when two distinct resolved pins of it
/// drive it, a driver being a `PowerOut` or `Output` pin and nothing else; every finding
/// names such a net, so a net with at most one such pin is never flagged, whatever
/// input, passive or power-input pins it also holds.
#[verifier::rlimit(40)]
pub proof fn lemma_multiple_drivers_law(nets: Seq<Net>, pins: Seq<Pin>)
    ensures
        forall|k: int| #![trigger drivers_findings(nets, pins)[k]] 0 <= k < drivers_findings(nets, pins).len()
            ==> exists|i: int| #![trigger nets[i]] 0 <= i < nets.len()
                && drivers_findings(nets, pins)[k].subjects == seq![nets[i].id]
                && drivers_findings(nets, pins)[k].rule == "erc-multiple-drivers"@
                && drivers_findings(nets, pins)[k].severity == ViolationSeverity::Error
                && exists|a: int, b: int| #![trigger resolved(nets[i].members@, pins)[a], resolved(nets[i].members@, pins)[b]]
                    0 <= a < b < resolved(nets[i].members@, pins).len()
                    && (resolved(nets[i].members@, pins)[a].electrical_type == PinElectricalType::PowerOut
                        || resolved(nets[i].members@, pins)[a].electrical_type == PinElectricalType::Output)
                    && (resolved(nets[i].members@, pins)[b].electrical_type == PinElectricalType::PowerOut
                        || resolved(nets[i].members@, pins)[b].electrical_type == PinElectricalType::Output),
        forall|i: int, a: int, b: int| #![trigger resolved(nets[i].members@, pins)[a], resolved(nets[i].members@, pins)[b]]
            0 <= i < nets.len() && 0 <= a < b < resolved(nets[i].members@, pins).len()
                && (resolved(nets[i].members@, pins)[a].electrical_type == PinElectricalType::PowerOut
                    || resolved(nets[i].members@, pins)[a].electrical_type == PinElectricalType::Output)
                && (resolved(nets[i].members@, pins)[b].electrical_type == PinElectricalType::PowerOut
                    || resolved(nets[i].members@, pins)[b].electrical_type == PinElectricalType::Output)
                ==> exists|k: int| #![trigger drivers_findings(nets, pins)[k]] 0 <= k < drivers_findings(nets, pins).len()
                    && drivers_findings(nets, pins)[k].subjects == seq![nets[i].id]
                    && drivers_findings(nets, pins)[k].rule == "erc-multiple-drivers"@,
{
    let f = drivers_findings(nets, pins);
    assert forall|k: int| #![trigger f[k]] 0 <= k < f.len() implies exists|i: int| #![trigger nets[i]] 0 <= i < nets.len()
        && f[k].subjects == seq![nets[i].id] && f[k].rule == "erc-multiple-drivers"@
        && f[k].severity == ViolationSeverity::Error
        && exists|a: int, b: int| #![trigger resolved(nets[i].members@, pins)[a], resolved(nets[i].members@, pins)[b]]
            0 <= a < b < resolved(nets[i].members@, pins).len()
            && (resolved(nets[i].members@, pins)[a].electrical_type == PinElectricalType::PowerOut
                || resolved(nets[i].members@, pins)[a].electrical_type == PinElectricalType::Output)
            && (resolved(nets[i].members@, pins)[b].electrical_type == PinElectricalType::PowerOut
                || resolved(nets[i].members@, pins)[b].electrical_type == PinElectricalType::Output) by {
        lemma_drivers_found(nets, pins);
        let i = choose|i: int| 0 <= i < nets.len() && (driver_count(resolved((nets[i]).members@, pins)) >= 2)
            && (#[trigger] f[k]).subjects == seq![nets[i].id] && f[k].rule == drivers_rule_id()
            && f[k].severity == ViolationSeverity::Error;
        lemma_two_drivers_witness(resolved(nets[i].members@, pins));
    }
    assert forall|i: int, a: int, b: int| #![trigger resolved(nets[i].members@, pins)[a], resolved(nets[i].members@, pins)[b]]
        0 <= i < nets.len() && 0 <= a < b < resolved(nets[i].members@, pins).len()
            && (resolved(nets[i].members@, pins)[a].electrical_type == PinElectricalType::PowerOut
                || resolved(nets[i].members@, pins)[a].electrical_type == PinElectricalType::Output)
            && (resolved(nets[i].members@, pins)[b].electrical_type == PinElectricalType::PowerOut
                || resolved(nets[i].members@, pins)[b].electrical_type == PinElectricalType::Output)
        implies exists|k: int| #![trigger f[k]] 0 <= k < f.len() && f[k].subjects == seq![nets[i].id]
            && f[k].rule == "erc-multiple-drivers"@ by {
        lemma_driver_count_pairs(resolved(nets[i].members@, pins));
        assert(driver_count(resolved(nets[i].members@, pins)) >= 2);
        lemma_drivers_flagged(nets, pins, i);
    }
}

/// ERC: a net with two or more drivers has contending sources.
pub struct ErcMultipleDriversRule;

impl ErcMultipleDriversRule {
    pub fn new() -> Self {
        ErcMultipleDriversRule
    }

    pub fn id_text() -> (s: &'static str)
        ensures
            s@ == drivers_rule_id(),
    {
        "erc-multiple-drivers"
    }

    pub fn findings(&self, ctx: &VerificationContext) -> (r: Vec<ViolationFinding>)
        ensures
            finding_views(r@) == drivers_findings(ctx.nets@, ctx.pins@),
    {
        let mut out: Vec<ViolationFinding> = Vec::new();
        let n = ctx.nets.len();
        let mut i: usize = 0;
        while i < n
            invariant
                n == ctx.nets@.len(),
                i <= n,
                finding_views(out@) == drivers_findings(ctx.nets@.take(i as int), ctx.pins@),
            decreases n - i,
        {
            let net = &ctx.nets[i];
            proof {
                assert(ctx.nets@.take(i + 1).drop_last() =~= ctx.nets@.take(i as int));
                assert(ctx.nets@.take(i + 1).last() == *net);
            }
            let members = resolve_members(net, ctx.pins);
            let count = count_drivers(&members);
            if count >= 2 {
                let message = String::from_str("net \"").concat(net.name.as_str()).concat("\" (").concat(
                    net.id.short().as_str(),
                ).concat(") has ").concat(decimal_text(count).as_str()).concat(
                    " drivers; only one is allowed",
                );
                let f = ViolationFinding {
                    rule: String::from_str(Self::id_text()),
                    severity: ViolationSeverity::Error,
                    subjects: single_id(net.id),
                    message,
                };
                out.push(f);
                assert(finding_views(out@) =~= drivers_findings(ctx.nets@.take(i as int), ctx.pins@).push(f@));
            }
            i = i + 1;
        }
        assert(ctx.nets@.take(n as int) =~= ctx.nets@);
        out
    }
}

impl Rule for ErcMultipleDriversRule {
    open spec fn named(&self) -> Seq<char> {
        drivers_rule_id()
    }

    open spec fn found(&self, ctx: &VerificationContext) -> Seq<FindingView> {
        drivers_findings(ctx.nets@, ctx.pins@)
    }

    fn id(&self) -> (s: &str) {
        Self::id_text()
    }

    fn evaluate(&self, ctx: &VerificationContext) -> (r: Vec<ViolationFinding>) {
        self.findings(ctx)
    }
}

/// Some line item covers component `cid`.
pub open spec fn line_covers(items: Seq<BomLineItem>, cid: EntityId) -> bool {
    exists|l: int| 0 <= l < items.len() && (#[trigger] items[l]).components@.contains(cid)
}

pub(crate) fn any_line_covers(items: &[BomLineItem], cid: EntityId) -> (r: bool)
    ensures
        r == line_covers(items@, cid),
{
    let n = items.len();
    let mut i: usize = 0;
    while i < n
        invariant
            n == items@.len(),
            i <= n,
            forall|l: int| 0 <= l < i ==> !(#[trigger] items@[l]).components@.contains(cid),
        decreases n - i,
    {
        if ids_contain(&items[i].components, cid) {
            assert(items@[i as int].components@.contains(cid));
            return true;
        }
        i = i + 1;
    }
    false
}

pub open spec fn coverage_rule_id() -> Seq<char> {
    "bom-coverage"@
}

pub open spec fn coverage_message(c: Component) -> Seq<char> {
    "component \""@ + c.refdes@ + "\" ("@ + short_hex(c.id) + ") is not covered by any BOM line item"@
}

/// Components no line item covers, in component order.
pub open spec fn coverage_findings(components: Seq<Component>, items: Seq<BomLineItem>) -> Seq<FindingView>
    decreases components.len(),
{
    if components.len() == 0 {
        Seq::empty()
    } else {
        let rest = coverage_findings(components.drop_last(), items);
        let c = components.last();
        if !line_covers(items, c.id) {
            rest.push(
                FindingView {
                    rule: coverage_rule_id(),
                    severity: ViolationSeverity::Error,
                    subjects: seq![c.id],
                    message: coverage_message(c),
                },
            )
        } else {
            rest
        }
    }
}

proof fn lemma_coverage_found(xs: Seq<Component>, ys: Seq<BomLineItem>)
    ensures
        forall|k: int| 0 <= k < coverage_findings(xs, ys).len() ==> exists|i: int|
            0 <= i < xs.len() && !line_covers(ys, (xs[i]).id) && (#[trigger] coverage_findings(xs, ys)[k]).subjects
                == seq![xs[i].id] && coverage_findings(xs, ys)[k].rule == coverage_rule_id()
                && coverage_findings(xs, ys)[k].severity == ViolationSeverity::Error,
    decreases xs.len(),
{
    if xs.len() > 0 {
        let q = xs.drop_last();
        lemma_coverage_found(q, ys);
        let f = coverage_findings(xs, ys);
        let r = coverage_findings(q, ys);
        assert forall|k: int| 0 <= k < f.len() implies exists|i: int|
            0 <= i < xs.len() && !line_covers(ys, (xs[i]).id) && (#[trigger] f[k]).subjects == seq![xs[i].id]
                && f[k].rule == coverage_rule_id() && f[k].severity == ViolationSeverity::Error by {
            if k < r.len() {
                assert(f[k] == r[k]);
                let i = choose|i: int| 0 <= i < q.len() && !line_covers(ys, (q[i]).id) && (#[trigger] r[k]).subjects
                    == seq![q[i].id] && r[k].rule == coverage_rule_id() && r[k].severity == ViolationSeverity::Error;
                assert(xs[i] == q[i]);
            } else {
                assert(xs[xs.len() - 1] == xs.last());
            }
        }
    }
}

proof fn lemma_coverage_flagged(xs: Seq<Component>, ys: Seq<BomLineItem>, i: int)
    requires
        0 <= i < xs.len(),
        !line_covers(ys, (xs[i]).id),
    ensures
        exists|k: int| 0 <= k < coverage_findings(xs, ys).len() && (#[trigger] coverage_findings(xs, ys)[k]).subjects
            == seq![xs[i].id] && coverage_findings(xs, ys)[k].rule == coverage_rule_id(),
    decreases xs.len(),
{
    let q = xs.drop_last();
    let f = coverage_findings(xs, ys);
    let r = coverage_findings(q, ys);
    if i < q.len() {
        assert(q[i] == xs[i]);
        lemma_coverage_flagged(q, ys, i);
        let k = choose|k: int| 0 <= k < r.len() && (#[trigger] r[k]).subjects == seq![q[i].id] && r[k].rule
            == coverage_rule_id();
        assert(f[k] == r[k]);
    } else {
        assert(xs[i] == xs.last());
        assert(f[r.len() as int].subjects == seq![xs[i].id]);
    }
}


/// Which components the BOM-coverage rule flags (its `findings`, and so `evaluate`,
/// return exactly `coverage_findings`): a component is flagged exactly when no line item
/// lists its id, at any position of that item's component list; a component some line
/// item lists anywhere is never flagged.
pub proof fn lemma_bom_coverage_law(components: Seq<Component>, items: Seq<BomLineItem>)
    ensures
        forall|k: int| #![trigger coverage_findings(components, items)[k]]
            0 <= k < coverage_findings(components, items).len() ==> exists|i: int| #![trigger components[i]]
                0 <= i < components.len()
                && coverage_findings(components, items)[k].subjects == seq![components[i].id]
                && coverage_findings(components, items)[k].rule == "bom-coverage"@
                && coverage_findings(components, items)[k].severity == ViolationSeverity::Error
                && forall|l: int, j: int| #![trigger items[l].components@[j]]
                    0 <= l < items.len() && 0 <= j < items[l].components@.len()
                    ==> items[l].components@[j] != components[i].id,
        forall|i: int, l: int, j: int| #![trigger components[i], items[l].components@[j]]
            0 <= i < components.len() && 0 <= l < items.len() && 0 <= j < items[l].components@.len()
                && items[l].components@[j] == components[i].id
                ==> forall|k: int| #![trigger coverage_findings(components, items)[k]]
                    0 <= k < coverage_findings(components, items).len()
                    ==> coverage_findings(components, items)[k].subjects != seq![components[i].id],
        forall|i: int| #![trigger components[i]] 0 <= i < components.len()
            && (forall|l: int, j: int| #![trigger items[l].components@[j]]
                0 <= l < items.len() && 0 <= j < items[l].components@.len()
                ==> items[l].components@[j] != components[i].id)
            ==> exists|k: int| #![trigger coverage_findings(components, items)[k]]
                0 <= k < coverage_findings(components, items).len()
                && coverage_findings(components, items)[k].subjects == seq![components[i].id]
                && coverage_findings(components, items)[k].rule == "bom-coverage"@,
{
    let f = coverage_findings(components, items);
    assert forall|k: int| #![trigger f[k]] 0 <= k < f.len() implies exists|i: int| #![trigger components[i]]
        0 <= i < components.len() && f[k].subjects == seq![components[i].id] && f[k].rule == "bom-coverage"@
        && f[k].severity == ViolationSeverity::Error
        && forall|l: int, j: int| #![trigger items[l].components@[j]]
            0 <= l < items.len() && 0 <= j < items[l].components@.len()
            ==> items[l].components@[j] != components[i].id by {
        lemma_coverage_found(components, items);
        let i = choose|i: int| 0 <= i < components.len() && !line_covers(items, (components[i]).id)
            && (#[trigger] f[k]).subjects == seq![components[i].id] && f[k].rule == coverage_rule_id()
            && f[k].severity == ViolationSeverity::Error;
        assert forall|l: int, j: int| #![trigger items[l].components@[j]]
            0 <= l < items.len() && 0 <= j < items[l].components@.len()
            implies items[l].components@[j] != components[i].id by {
            if items[l].components@[j] == components[i].id {
                assert(items[l].components@.contains(components[i].id));
            }
        }
    }
    assert forall|i: int, l: int, j: int| #![trigger components[i], items[l].components@[j]]
        0 <= i < components.len() && 0 <= l < items.len() && 0 <= j < items[l].components@.len()
            && items[l].components@[j] == components[i].id
        implies forall|k: int| #![trigger f[k]] 0 <= k < f.len() ==> f[k].subjects != seq![components[i].id] by {
        assert forall|k: int| #![trigger f[k]] 0 <= k < f.len() implies f[k].subjects != seq![components[i].id] by {
            lemma_coverage_found(components, items);
            let i2 = choose|i2: int| 0 <= i2 < components.len() && !line_covers(items, (components[i2]).id)
                && (#[trigger] f[k]).subjects == seq![components[i2].id] && f[k].rule == coverage_rule_id()
                && f[k].severity == ViolationSeverity::Error;
            if f[k].subjects == seq![components[i].id] {
                assert(f[k].subjects[0] == components[i].id);
                assert(components[i2].id == components[i].id);
                assert(items[l].components@.contains(components[i].id));
                assert(line_covers(items, components[i2].id));
            }
        }
    }
    assert forall|i: int| #![trigger components[i]] 0 <= i < components.len()
        && (forall|l: int, j: int| #![trigger items[l].components@[j]]
            0 <= l < items.len() && 0 <= j < items[l].components@.len()
            ==> items[l].components@[j] != components[i].id)
        implies exists|k: int| #![trigger f[k]] 0 <= k < f.len() && f[k].subjects == seq![components[i].id]
            && f[k].rule == "bom-coverage"@ by {
        if line_covers(items, components[i].id) {
            let l = choose|l: int| 0 <= l < items.len() && (#[trigger] items[l]).components@.contains(components[i].id);
            let j = choose|j: int| 0 <= j < items[l].components@.len() && items[l].components@[j] == components[i].id;
            assert(items[l].components@[j] != components[i].id);
        }
        lemma_coverage_flagged(components, items, i);
    }
}

/// BOM: every component must be covered by at least one line item.
pub struct BomCoverageRule;

impl BomCoverageRule {
    pub fn new() -> Self {
        BomCoverageRule
    }

    pub fn id_text() -> (s: &'static str)
        ensures
            s@ == coverage_rule_id(),
    {
        "bom-coverage"
    }

    pub fn findings(&self, ctx: &VerificationContext) -> (r: Vec<ViolationFinding>)
        ensures
            finding_views(r@) == coverage_findings(ctx.components@, ctx.bom_line_items@),
    {
        let mut out: Vec<ViolationFinding> = Vec::new();
        let n = ctx.components.len();
        let mut i: usize = 0;
        while i < n
            invariant
                n == ctx.components@.len(),
                i <= n,
                finding_views(out@) == coverage_findings(
                    ctx.components@.take(i as int),
                    ctx.bom_line_items@,
                ),
            decreases n - i,
        {
            let c = &ctx.components[i];
            proof {
                assert(ctx.components@.take(i + 1).drop_last() =~= ctx.components@.take(i as int));
                assert(ctx.components@.take(i + 1).last() == *c);
            }
            if !any_line_covers(ctx.bom_line_items, c.id) {
                let message = String::from_str("component \"").concat(c.refdes.as_str()).concat(
                    "\" (",
                ).concat(c.id.short().as_str()).concat(") is not covered by any BOM line item");
                let f = ViolationFinding {
                    rule: String::from_str(Self::id_text()),
                    severity: ViolationSeverity::Error,
                    subjects: single_id(c.id),
                    message,
                };
                out.push(f);
                assert(finding_views(out@) =~= coverage_findings(
                    ctx.components@.take(i as int),
                    ctx.bom_line_items@,
                ).push(f@));
            }
            i = i + 1;
        }
        assert(ctx.components@.take(n as int) =~= ctx.components@);
        out
    }
}

impl Rule for BomCoverageRule {
    open spec fn named(&self) -> Seq<char> {
        coverage_rule_id()
    }

    open spec fn found(&self, ctx: &VerificationContext) -> Seq<FindingView> {
        coverage_findings(ctx.components@, ctx.bom_line_items@)
    }

    fn id(&self) -> (s: &str) {
        Self::id_text()
    }

    fn evaluate(&self, ctx: &VerificationContext) -> (r: Vec<ViolationFinding>) {
        self.findings(ctx)
    }
}

pub open spec fn lifecycle_rule_id() -> Seq<char> {
    "bom-lifecycle"@
}

pub open spec fn lifecycle_message(item: BomLineItem, part: Part, state: Seq<char>) -> Seq<char> {
    "BOM line "@ + short_hex(item.id) + " orders part \""@ + part.mpn@ + "\" which is "@ + state
}

/// Lines whose part is end-of-life (an error) or not recommended for new designs (a
/// warning), in line order; a line whose part is unknown is skipped.
pub open spec fn lifecycle_findings(items: Seq<BomLineItem>, parts: Seq<Part>) -> Seq<FindingView>
    decreases items.len(),
{
    if items.len() == 0 {
        Seq::empty()
    } else {
        let rest = lifecycle_findings(items.drop_last(), parts);
        let item = items.last();
        match by_id(parts, item.part) {
            Some(part) => match part.lifecycle {
                PartLifecycle::Eol => rest.push(
                    FindingView {
                        rule: lifecycle_rule_id(),
                        severity: ViolationSeverity::Error,
                        subjects: seq![item.id],
                        message: lifecycle_message(item, part, "end-of-life"@),
                    },
                ),
                PartLifecycle::Nrnd => rest.push(
                    FindingView {
                        rule: lifecycle_rule_id(),
                        severity: ViolationSeverity::Warning,
                        subjects: seq![item.id],
                        message: lifecycle_message(item, part, "not recommended for new designs"@),
                    },
                ),
                PartLifecycle::Active => rest,
            },
            None => rest,
        }
    }
}

fn find_part<'a>(parts: &'a [Part], id: EntityId) -> (r: Option<&'a Part>)
    ensures
        r matches Some(p) ==> by_id(parts@, id) == Some(*p),
        r is None ==> by_id(parts@, id) is None,
{
    let n = parts.len();
    let mut i: usize = 0;
    while i < n
        invariant
            n == parts@.len(),
            i <= n,
            forall|j: int| 0 <= j < i ==> (#[trigger] parts@[j]).id != id,
        decreases n - i,
    {
        if parts[i].id == id {
            proof {
                crate::lookup::lemma_by_id_at(parts@, id, i as int);
            }
            return Some(&parts[i]);
        }
        i = i + 1;
    }
    None
}

/// BOM: flags end-of-life (error) and not-recommended (warning) parts.
pub struct BomLifecycleRule;

impl BomLifecycleRule {
    pub fn new() -> Self {
        BomLifecycleRule
    }

    pub fn id_text() -> (s: &'static str)
        ensures
            s@ == lifecycle_rule_id(),
    {
        "bom-lifecycle"
    }

    pub fn findings(&self, ctx: &VerificationContext) -> (r: Vec<ViolationFinding>)
        ensures
            finding_views(r@) == lifecycle_findings(ctx.bom_line_items@, ctx.parts@),
    {
        let mut out: Vec<ViolationFinding> = Vec::new();
        let n = ctx.bom_line_items.len();
        let mut i: usize = 0;
        while i < n
            invariant
                n == ctx.bom_line_items@.len(),
                i <= n,
                finding_views(out@) == lifecycle_findings(
                    ctx.bom_line_items@.take(i as int),
                    ctx.parts@,
                ),
            decreases n - i,
        {
            let item = &ctx.bom_line_items[i];
            proof {
                assert(ctx.bom_line_items@.take(i + 1).drop_last() =~= ctx.bom_line_items@.take(
                    i as int,
                ));
                assert(ctx.bom_line_items@.take(i + 1).last() == *item);
            }
            match find_part(ctx.parts, item.part) {
                Some(part) => {
                    let label: Option<(ViolationSeverity, &str)> = match part.lifecycle {
                        PartLifecycle::Eol => Some((ViolationSeverity::Error, "end-of-life")),
                        PartLifecycle::Nrnd => Some(
                            (ViolationSeverity::Warning, "not recommended for new designs"),
                        ),
                        PartLifecycle::Active => None,
                    };
                    if let Some((severity, state)) = label {
                        let message = String::from_str("BOM line ").concat(item.id.short().as_str()).concat(
                            " orders part \"",
                        ).concat(part.mpn.as_str()).concat("\" which is ").concat(state);
                        let f = ViolationFinding {
                            rule: String::from_str(Self::id_text()),
                            severity,
                            subjects: single_id(item.id),
                            message,
                        };
                        out.push(f);
                        assert(finding_views(out@) =~= lifecycle_findings(
                            ctx.bom_line_items@.take(i as int),
                            ctx.parts@,
                        ).push(f@));
                    }
                },
                None => {},
            }
            i = i + 1;
        }
        assert(ctx.bom_line_items@.take(n as int) =~= ctx.bom_line_items@);
        out
    }
}

impl Rule for BomLifecycleRule {
    open spec fn named(&self) -> Seq<char> {
        lifecycle_rule_id()
    }

    open spec fn found(&self, ctx: &VerificationContext) -> Seq<FindingView> {
        lifecycle_findings(ctx.bom_line_items@, ctx.parts@)
    }

    fn id(&self) -> (s: &str) {
        Self::id_text()
    }

    fn evaluate(&self, ctx: &VerificationContext) -> (r: Vec<ViolationFinding>) {
        self.findings(ctx)
    }
}

/// Some track realizes net `nid`.
pub open spec fn net_routed(tracks: Seq<Track>, nid: EntityId) -> bool {
    exists|k: int| 0 <= k < tracks.len() && (#[trigger] tracks[k]).net == nid
}

pub(crate) fn any_track_on(tracks: &[Track], nid: EntityId) -> (r: bool)
    ensures
        r == net_routed(tracks@, nid),
{
    let n = tracks.len();
    let mut i: usize = 0;
    while i < n
        invariant
            n == tracks@.len(),
            i <= n,
            forall|k: int| 0 <= k < i ==> (#[trigger] tracks@[k]).net != nid,
        decreases n - i,
    {
        if tracks[i].net == nid {
            assert(tracks@[i as int].net == nid);
            return true;
        }
        i = i + 1;
    }
    false
}

pub open spec fn unrouted_rule_id() -> Seq<char> {
    "drc-unrouted-net"@
}

pub open spec fn unrouted_message(net: Net) -> Seq<char> {
    "net \""@ + net.name@ + "\" ("@ + short_hex(net.id) + ") is not realized by any routed track"@
}

/// Nets no track realizes, in net order.
pub open spec fn unrouted_findings(nets: Seq<Net>, tracks: Seq<Track>) -> Seq<FindingView>
    decreases nets.len(),
{
    if nets.len() == 0 {
        Seq::empty()
    } else {
        let rest = unrouted_findings(nets.drop_last(), tracks);
        let net = nets.last();
        if !net_routed(tracks, net.id) {
            rest.push(
                FindingView {
                    rule: unrouted_rule_id(),
                    severity: ViolationSeverity::Error,
                    subjects: seq![net.id],
                    message: unrouted_message(net),
                },
            )
        } else {
            rest
        }
    }
}

proof fn lemma_unrouted_found(xs: Seq<Net>, ys: Seq<Track>)
    ensures
        forall|k: int| 0 <= k < unrouted_findings(xs, ys).len() ==> exists|i: int|
            0 <= i < xs.len() && !net_routed(ys, (xs[i]).id) && (#[trigger] unrouted_findings(xs, ys)[k]).subjects
                == seq![xs[i].id] && unrouted_findings(xs, ys)[k].rule == unrouted_rule_id()
                && unrouted_findings(xs, ys)[k].severity == ViolationSeverity::Error,
    decreases xs.len(),
{
    if xs.len() > 0 {
        let q = xs.drop_last();
        lemma_unrouted_found(q, ys);
        let f = unrouted_findings(xs, ys);
        let r = unrouted_findings(q, ys);
        assert forall|k: int| 0 <= k < f.len() implies exists|i: int|
            0 <= i < xs.len() && !net_routed(ys, (xs[i]).id) && (#[trigger] f[k]).subjects == seq![xs[i].id]
                && f[k].rule == unrouted_rule_id() && f[k].severity == ViolationSeverity::Error by {
            if k < r.len() {
                assert(f[k] == r[k]);
                let i = choose|i: int| 0 <= i < q.len() && !net_routed(ys, (q[i]).id) && (#[trigger] r[k]).subjects
                    == seq![q[i].id] && r[k].rule == unrouted_rule_id() && r[k].severity == ViolationSeverity::Error;
                assert(xs[i] == q[i]);
            } else {
                assert(xs[xs.len() - 1] == xs.last());
            }
        }
    }
}

proof fn lemma_unrouted_flagged(xs: Seq<Net>, ys: Seq<Track>, i: int)
    requires
        0 <= i < xs.len(),
        !net_routed(ys, (xs[i]).id),
    ensures
        exists|k: int| 0 <= k < unrouted_findings(xs, ys).len() && (#[trigger] unrouted_findings(xs, ys)[k]).subjects
            == seq![xs[i].id] && unrouted_findings(xs, ys)[k].rule == unrouted_rule_id(),
    decreases xs.len(),
{
    let q = xs.drop_last();
    let f = unrouted_findings(xs, ys);
    let r = unrouted_findings(q, ys);
    if i < q.len() {
        assert(q[i] == xs[i]);
        lemma_unrouted_flagged(q, ys, i);
        let k = choose|k: int| 0 <= k < r.len() && (#[trigger] r[k]).subjects == seq![q[i].id] && r[k].rule
            == unrouted_rule_id();
        assert(f[k] == r[k]);
    } else {
        assert(xs[i] == xs.last());
        assert(f[r.len() as int].subjects == seq![xs[i].id]);
    }
}


/// Which nets the unrouted-net rule flags (its `findings`, and so `evaluate`, return
/// exactly `unrouted_findings`): a net is flagged exactly when no track of the snapshot
/// carries its id, on whichever layer; a net some track carries is never flagged.
pub proof fn lemma_unrouted_net_law(nets: Seq<Net>, tracks: Seq<Track>)
    ensures
        forall|k: int| #![trigger unrouted_findings(nets, tracks)[k]]
            0 <= k < unrouted_findings(nets, tracks).len() ==> exists|i: int| #![trigger nets[i]]
                0 <= i < nets.len()
                && unrouted_findings(nets, tracks)[k].subjects == seq![nets[i].id]
                && unrouted_findings(nets, tracks)[k].rule == "drc-unrouted-net"@
                && unrouted_findings(nets, tracks)[k].severity == ViolationSeverity::Error
                && forall|t: int| #![trigger tracks[t]] 0 <= t < tracks.len() ==> tracks[t].net != nets[i].id,
        forall|i: int, t: int| #![trigger nets[i], tracks[t]]
            0 <= i < nets.len() && 0 <= t < tracks.len() && tracks[t].net == nets[i].id
                ==> forall|k: int| #![trigger unrouted_findings(nets, tracks)[k]]
                    0 <= k < unrouted_findings(nets, tracks).len()
                    ==> unrouted_findings(nets, tracks)[k].subjects != seq![nets[i].id],
        forall|i: int| #![trigger nets[i]] 0 <= i < nets.len()
            && (forall|t: int| #![trigger tracks[t]] 0 <= t < tracks.len() ==> tracks[t].net != nets[i].id)
            ==> exists|k: int| #![trigger unrouted_findings(nets, tracks)[k]]
                0 <= k < unrouted_findings(nets, tracks).len()
                && unrouted_findings(nets, tracks)[k].subjects == seq![nets[i].id]
                && unrouted_findings(nets, tracks)[k].rule == "drc-unrouted-net"@,
{
    let f = unrouted_findings(nets, tracks);
    assert forall|k: int| #![trigger f[k]] 0 <= k < f.len() implies exists|i: int| #![trigger nets[i]]
        0 <= i < nets.len() && f[k].subjects == seq![nets[i].id] && f[k].rule == "drc-unrouted-net"@
        && f[k].severity == ViolationSeverity::Error
        && forall|t: int| #![trigger tracks[t]] 0 <= t < tracks.len() ==> tracks[t].net != nets[i].id by {
        lemma_unrouted_found(nets, tracks);
        let i = choose|i: int| 0 <= i < nets.len() && !net_routed(tracks, (nets[i]).id)
            && (#[trigger] f[k]).subjects == seq![nets[i].id] && f[k].rule == unrouted_rule_id()
            && f[k].severity == ViolationSeverity::Error;
    }
    assert forall|i: int, t: int| #![trigger nets[i], tracks[t]]
        0 <= i < nets.len() && 0 <= t < tracks.len() && tracks[t].net == nets[i].id
        implies forall|k: int| #![trigger f[k]] 0 <= k < f.len() ==> f[k].subjects != seq![nets[i].id] by {
        assert forall|k: int| #![trigger f[k]] 0 <= k < f.len() implies f[k].subjects != seq![nets[i].id] by {
            lemma_unrouted_found(nets, tracks);
            let i2 = choose|i2: int| 0 <= i2 < nets.len() && !net_routed(tracks, (nets[i2]).id)
                && (#[trigger] f[k]).subjects == seq![nets[i2].id] && f[k].rule == unrouted_rule_id()
                && f[k].severity == ViolationSeverity::Error;
            if f[k].subjects == seq![nets[i].id] {
                assert(f[k].subjects[0] == nets[i].id);
                assert(nets[i2].id == nets[i].id);
                assert(net_routed(tracks, nets[i2].id));
            }
        }
    }
    assert forall|i: int| #![trigger nets[i]] 0 <= i < nets.len()
        && (forall|t: int| #![trigger tracks[t]] 0 <= t < tracks.len() ==> tracks[t].net != nets[i].id)
        implies exists|k: int| #![trigger f[k]] 0 <= k < f.len() && f[k].subjects == seq![nets[i].id]
            && f[k].rule == "drc-unrouted-net"@ by {
        lemma_unrouted_flagged(nets, tracks, i);
    }
}

/// DRC: every net must be realized by at least one routed track.
pub struct DrcUnroutedNetRule;

impl DrcUnroutedNetRule {
    pub fn new() -> Self {
        DrcUnroutedNetRule
    }

    pub fn id_text() -> (s: &'static str)
        ensures
            s@ == unrouted_rule_id(),
    {
        "drc-unrouted-net"
    }

    pub fn findings(&self, ctx: &VerificationContext) -> (r: Vec<ViolationFinding>)
        ensures
            finding_views(r@) == unrouted_findings(ctx.nets@, ctx.tracks@),
    {
        let mut out: Vec<ViolationFinding> = Vec::new();
        let n = ctx.nets.len();
        let mut i: usize = 0;
        while i < n
            invariant
                n == ctx.nets@.len(),
                i <= n,
                finding_views(out@) == unrouted_findings(ctx.nets@.take(i as int), ctx.tracks@),
            decreases n - i,
        {
            let net = &ctx.nets[i];
            proof {
                assert(ctx.nets@.take(i + 1).drop_last() =~= ctx.nets@.take(i as int));
                assert(ctx.nets@.take(i + 1).last() == *net);
            }
            if !any_track_on(ctx.tracks, net.id) {
                let message = String::from_str("net \"").concat(net.name.as_str()).concat("\" (").concat(
                    net.id.short().as_str(),
                ).concat(") is not realized by any routed track");
                let f = ViolationFinding {
                    rule: String::from_str(Self::id_text()),
                    severity: ViolationSeverity::Error,
                    subjects: single_id(net.id),
                    message,
                };
                out.push(f);
                assert(finding_views(out@) =~= unrouted_findings(ctx.nets@.take(i as int), ctx.tracks@).push(f@));
            }
            i = i + 1;
        }
        assert(ctx.nets@.take(n as int) =~= ctx.nets@);
        out
    }
}

impl Rule for DrcUnroutedNetRule {
    open spec fn named(&self) -> Seq<char> {
        unrouted_rule_id()
    }

    open spec fn found(&self, ctx: &VerificationContext) -> Seq<FindingView> {
        unrouted_findings(ctx.nets@, ctx.tracks@)
    }

    fn id(&self) -> (s: &str) {
        Self::id_text()
    }

    fn evaluate(&self, ctx: &VerificationContext) -> (r: Vec<ViolationFinding>) {
        self.findings(ctx)
    }
}

} // verus!
