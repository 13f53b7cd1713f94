use eak::connectivity::{count_components, DisjointSet};
use eak::domain::{
    BomLineItem, Component, ComponentClass, EntityId, Net, NetClass, Part, PartLifecycle, Pin,
    PinElectricalType, ViolationSeverity,
};
use eak::engines::{
    BomCoverageRule, BomLifecycleRule, DrcUnroutedNetRule, ErcMultipleDriversRule,
    ErcPowerNetUndrivenRule, PartCatalog, PlanningEngine, Rule, VerificationContext,
};
use eak::layout::RoutingPlanningMachine;
use eak::rules::{distinct_sorted_ids, DrcNetOpenRule, KernelRule, VerificationEngine};
use eak::domain::{BoardSide, Placement, Track};
use eak::units::{Magnitude, PhysicalQuantity, Unit};

fn mm(v: f64) -> PhysicalQuantity {
    PhysicalQuantity::new(Magnitude(v.to_bits()), Unit::Millimetre)
}

fn pin(id: u128, ty: PinElectricalType) -> Pin {
    Pin {
        id: EntityId(id),
        component: EntityId(900 + id),
        designation: format!("P{id}"),
        electrical_type: ty,
    }
}

fn net(id: u128, class: NetClass, members: Vec<u128>) -> Net {
    Net {
        id: EntityId(id),
        name: format!("NET{id}"),
        class,
        members: members.into_iter().map(EntityId).collect(),
    }
}

fn ctx<'a>(
    components: &'a [Component],
    pins: &'a [Pin],
    nets: &'a [Net],
    parts: &'a [Part],
    bom_line_items: &'a [BomLineItem],
    placements: &'a [Placement],
    tracks: &'a [Track],
) -> VerificationContext<'a> {
    VerificationContext {
        requirements: &[],
        constraints: &[],
        components,
        pins,
        nets,
        parts,
        bom_line_items,
        board: None,
        placements,
        tracks,
    }
}

#[test]
fn plan_is_linear_and_nonempty() {
    let plan = PlanningEngine::new().elicitation_plan();
    assert_eq!(plan.len(), 3);
    assert_eq!(plan[0].name, "read_intent");
}

#[test]
fn undriven_power_net_is_flagged() {
    let pins = vec![pin(1, PinElectricalType::PowerIn), pin(2, PinElectricalType::PowerIn)];
    let nets = vec![net(10, NetClass::Power, vec![1, 2])];
    let findings = ErcPowerNetUndrivenRule::new().evaluate(&ctx(&[], &pins, &nets, &[], &[], &[], &[]));
    assert_eq!(findings.len(), 1);
    assert_eq!(findings[0].rule, ErcPowerNetUndrivenRule::id_text());
    assert_eq!(findings[0].severity, ViolationSeverity::Error);
    assert_eq!(findings[0].subjects, vec![EntityId(10)]);
    assert_eq!(
        findings[0].message,
        "power net \"NET10\" (0000000a) has consumers but no driver (no PowerOut pin)"
    );
}

#[test]
fn driven_power_net_passes_both_erc_rules() {
    let pins = vec![
        pin(1, PinElectricalType::PowerOut),
        pin(2, PinElectricalType::PowerIn),
        pin(3, PinElectricalType::PowerIn),
    ];
    let nets = vec![net(10, NetClass::Power, vec![1, 2, 3])];
    let c = ctx(&[], &pins, &nets, &[], &[], &[], &[]);
    assert!(ErcPowerNetUndrivenRule::new().evaluate(&c).is_empty());
    assert!(ErcMultipleDriversRule::new().evaluate(&c).is_empty());
}

#[test]
fn two_drivers_are_flagged() {
    let pins = vec![
        pin(1, PinElectricalType::PowerOut),
        pin(2, PinElectricalType::Output),
        pin(3, PinElectricalType::PowerIn),
    ];
    let nets = vec![net(10, NetClass::Signal, vec![1, 2, 3])];
    let findings = ErcMultipleDriversRule::new().evaluate(&ctx(&[], &pins, &nets, &[], &[], &[], &[]));
    assert_eq!(findings.len(), 1);
    assert_eq!(findings[0].rule, ErcMultipleDriversRule::id_text());
    assert_eq!(findings[0].severity, ViolationSeverity::Error);
    assert_eq!(findings[0].subjects, vec![EntityId(10)]);
}

#[test]
fn power_net_without_consumers_is_not_flagged_undriven() {
    let pins = vec![pin(1, PinElectricalType::PowerOut)];
    let nets = vec![net(10, NetClass::Power, vec![1])];
    assert!(ErcPowerNetUndrivenRule::new().evaluate(&ctx(&[], &pins, &nets, &[], &[], &[], &[])).is_empty());
}

fn component(id: u128, class: ComponentClass) -> Component {
    Component { id: EntityId(id), refdes: format!("U{id}"), class, value: None, from_block: EntityId(800 + id) }
}

fn part(id: u128, lifecycle: PartLifecycle) -> Part {
    Part {
        id: EntityId(id),
        mpn: format!("MPN-{id}"),
        manufacturer: "ACME".to_string(),
        lifecycle,
        datasheet: format!("https://acme/{id}"),
    }
}

fn line_item(id: u128, part_id: u128, components: Vec<u128>) -> BomLineItem {
    BomLineItem {
        id: EntityId(id),
        part: EntityId(part_id),
        components: components.into_iter().map(EntityId).collect(),
        quantity: 1,
    }
}

#[test]
fn catalog_regulator_is_deliberately_eol() {
    let cat = PartCatalog::new();
    let reg = cat.part_for(ComponentClass::Regulator);
    assert_eq!(reg.mpn, "LM1117-3.3");
    assert_eq!(reg.manufacturer, "Texas Instruments");
    assert_eq!(reg.lifecycle, PartLifecycle::Eol);
    assert_eq!(reg.datasheet, "https://ti.com/lm1117");
    assert_eq!(cat.part_for(ComponentClass::Connector).lifecycle, PartLifecycle::Active);
    assert_eq!(cat.part_for(ComponentClass::Ic).mpn, "STM32L010F4P6");
}

#[test]
fn coverage_rule_flags_uncovered_component() {
    let components = vec![component(1, ComponentClass::Resistor), component(2, ComponentClass::Capacitor)];
    let parts = vec![part(50, PartLifecycle::Active)];
    let items = vec![line_item(60, 50, vec![1])];
    let findings = BomCoverageRule::new().evaluate(&ctx(&components, &[], &[], &parts, &items, &[], &[]));
    assert_eq!(findings.len(), 1);
    assert_eq!(findings[0].rule, BomCoverageRule::id_text());
    assert_eq!(findings[0].severity, ViolationSeverity::Error);
    assert_eq!(findings[0].subjects, vec![EntityId(2)]);
}

#[test]
fn lifecycle_rule_flags_eol_line_item() {
    let components = vec![component(1, ComponentClass::Regulator)];
    let parts = vec![part(50, PartLifecycle::Eol)];
    let items = vec![line_item(60, 50, vec![1])];
    let findings = BomLifecycleRule::new().evaluate(&ctx(&components, &[], &[], &parts, &items, &[], &[]));
    assert_eq!(findings.len(), 1);
    assert_eq!(findings[0].rule, BomLifecycleRule::id_text());
    assert_eq!(findings[0].severity, ViolationSeverity::Error);
    assert_eq!(findings[0].subjects, vec![EntityId(60)]);
    assert!(findings[0].message.contains("MPN-50"));
}

#[test]
fn lifecycle_rule_passes_all_active_bom() {
    let components = vec![component(1, ComponentClass::Resistor)];
    let parts = vec![part(50, PartLifecycle::Active)];
    let items = vec![line_item(60, 50, vec![1])];
    assert!(BomLifecycleRule::new().evaluate(&ctx(&components, &[], &[], &parts, &items, &[], &[])).is_empty());
}

#[test]
fn lifecycle_rule_warns_on_nrnd() {
    let parts = vec![part(50, PartLifecycle::Nrnd)];
    let items = vec![line_item(60, 50, vec![1])];
    let findings = BomLifecycleRule::new().evaluate(&ctx(&[], &[], &[], &parts, &items, &[], &[]));
    assert_eq!(findings.len(), 1);
    assert_eq!(findings[0].severity, ViolationSeverity::Warning);
}

fn track_for_net(id: u128, net_id: u128) -> Track {
    Track {
        id: EntityId(id),
        net: EntityId(net_id),
        layer: BoardSide::Top,
        width: mm(0.25),
        x1: mm(1.0),
        y1: mm(1.0),
        x2: mm(9.0),
        y2: mm(1.0),
    }
}

#[test]
fn unrouted_net_is_flagged() {
    let nets = vec![net(10, NetClass::Power, vec![1]), net(11, NetClass::Signal, vec![2])];
    let tracks = vec![track_for_net(100, 10)];
    let findings = DrcUnroutedNetRule::new().evaluate(&ctx(&[], &[], &nets, &[], &[], &[], &tracks));
    assert_eq!(findings.len(), 1);
    assert_eq!(findings[0].rule, DrcUnroutedNetRule::id_text());
    assert_eq!(findings[0].severity, ViolationSeverity::Error);
    assert_eq!(findings[0].subjects, vec![EntityId(11)]);
}

#[test]
fn fully_routed_nets_pass() {
    let nets = vec![net(10, NetClass::Power, vec![1]), net(11, NetClass::Signal, vec![2])];
    let tracks = vec![track_for_net(100, 10), track_for_net(101, 11)];
    assert!(DrcUnroutedNetRule::new().evaluate(&ctx(&[], &[], &nets, &[], &[], &[], &tracks)).is_empty());
}

#[test]
fn unrouted_rule_is_silent_with_no_nets() {
    assert!(DrcUnroutedNetRule::new().evaluate(&ctx(&[], &[], &[], &[], &[], &[], &[])).is_empty());
}

fn placement(id: u128, component: u128, x: f64, y: f64, w: f64, h: f64) -> Placement {
    Placement {
        id: EntityId(id),
        component: EntityId(component),
        x: mm(x),
        y: mm(y),
        width: mm(w),
        height: mm(h),
        side: BoardSide::Top,
    }
}

fn seg(id: u128, net_id: u128, x1: f64, y1: f64, x2: f64, y2: f64) -> Track {
    Track {
        id: EntityId(id),
        net: EntityId(net_id),
        layer: BoardSide::Top,
        width: mm(0.25),
        x1: mm(x1),
        y1: mm(y1),
        x2: mm(x2),
        y2: mm(y2),
    }
}

fn three_pad_net() -> (Vec<Pin>, Vec<Net>, Vec<Placement>) {
    let pins = vec![
        pin(1, PinElectricalType::Passive),
        pin(2, PinElectricalType::Passive),
        pin(3, PinElectricalType::Passive),
    ];
    let nets = vec![net(50, NetClass::Signal, vec![1, 2, 3])];
    let placements = vec![
        placement(10, 901, 0.0, 0.0, 10.0, 10.0),
        placement(11, 902, 20.0, 0.0, 10.0, 10.0),
        placement(12, 903, 40.0, 0.0, 10.0, 10.0),
    ];
    (pins, nets, placements)
}

// The placements' courtyard centroids are (5,5), (25,5) and (45,5) mm; an endpoint at one
// of them resolves to that node's position in the net's node list.

#[test]
fn daisy_chained_net_is_connected() {
    let (pins, nets, placements) = three_pad_net();
    let tracks = vec![seg(100, 50, 5.0, 5.0, 25.0, 5.0), seg(101, 50, 25.0, 5.0, 45.0, 5.0)];
    let c = ctx(&[], &pins, &nets, &[], &[], &placements, &tracks);
    let rule = DrcNetOpenRule::new();
    assert_eq!(rule.node_ids(&c, &nets[0]), vec![EntityId(10), EntityId(11), EntityId(12)]);
    let edges = vec![(Some(0), Some(1)), (Some(1), Some(2))];
    assert!(rule.net_finding(&c, &nets[0], &edges).is_none());
}

#[test]
fn net_with_isolated_interior_pad_is_open() {
    let (pins, nets, placements) = three_pad_net();
    let tracks = vec![seg(100, 50, 5.0, 5.0, 45.0, 5.0)];
    let c = ctx(&[], &pins, &nets, &[], &[], &placements, &tracks);
    let f = DrcNetOpenRule::new().net_finding(&c, &nets[0], &vec![(Some(0), Some(2))]).unwrap();
    assert_eq!(f.rule, DrcNetOpenRule::id_text());
    assert_eq!(f.severity, ViolationSeverity::Error);
    assert_eq!(f.subjects, vec![EntityId(50)]);
    assert_eq!(
        f.message,
        "net \"NET50\" (00000032) is electrically open: member pads fall in 2 disconnected copper components"
    );
}

#[test]
fn net_with_no_track_is_deferred_to_unrouted_rule() {
    let (pins, nets, placements) = three_pad_net();
    let c = ctx(&[], &pins, &nets, &[], &[], &placements, &[]);
    assert!(DrcNetOpenRule::new().net_finding(&c, &nets[0], &vec![]).is_none());
}

#[test]
fn single_placement_net_is_trivially_connected() {
    let pins = [
        pin(1, PinElectricalType::Passive),
        Pin { component: EntityId(901), ..pin(2, PinElectricalType::Passive) },
    ];
    let nets = vec![net(50, NetClass::Signal, vec![1, 2])];
    let placements = vec![placement(10, 901, 0.0, 0.0, 10.0, 10.0)];
    let tracks = vec![seg(100, 50, 5.0, 5.0, 5.0, 5.0)];
    let c = ctx(&[], &pins, &nets, &[], &[], &placements, &tracks);
    let rule = DrcNetOpenRule::new();
    assert_eq!(rule.node_ids(&c, &nets[0]), vec![EntityId(10)]);
    assert!(rule.net_finding(&c, &nets[0], &vec![(Some(0), Some(0))]).is_none());
}

#[test]
fn daisy_chain_segment_count_is_max_k_minus_one_and_one() {
    assert_eq!(RoutingPlanningMachine::daisy_chain_segments(1).len(), 1);
    assert_eq!(RoutingPlanningMachine::daisy_chain_segments(2).len(), 1);
    let segs = RoutingPlanningMachine::daisy_chain_segments(3);
    assert_eq!(segs.len(), 2);
    assert_eq!(segs[0], (0, 1));
    assert_eq!(segs[1], (1, 2));
}

#[test]
fn single_pad_segment_is_degenerate() {
    let segs = RoutingPlanningMachine::daisy_chain_segments(1);
    assert_eq!(segs.len(), 1);
    assert_eq!(segs[0].0, segs[0].1);
}

#[test]
fn verification_engine_runs_registered_rules() {
    let engine = VerificationEngine::new()
        .with_rule(KernelRule::PowerNetUndriven(ErcPowerNetUndrivenRule::new()))
        .with_rule(KernelRule::MultipleDrivers(ErcMultipleDriversRule::new()));
    assert_eq!(engine.rule_count(), 2);
    assert_eq!(engine.rule_ids(), vec!["erc-power-net-undriven".to_string(), "erc-multiple-drivers".to_string()]);
    let pins = vec![pin(1, PinElectricalType::PowerIn)];
    let nets = vec![net(10, NetClass::Power, vec![1])];
    let c = ctx(&[], &pins, &nets, &[], &[], &[], &[]);
    assert_eq!(engine.run(&c).len(), 1);
    assert_eq!(engine.run(&c).len(), 1);
}

#[test]
fn disjoint_set_counts_components() {
    let mut d = DisjointSet::new(5);
    assert_eq!(d.component_count(), 5);
    d.union(0, 1);
    d.union(3, 4);
    assert_eq!(d.find(0), d.find(1));
    assert_ne!(d.find(0), d.find(2));
    assert_eq!(d.component_count(), 3);
    d.union(1, 4);
    assert_eq!(d.find(0), d.find(3));
    assert_eq!(d.component_count(), 2);
}

#[test]
fn edges_with_unresolved_ends_join_nothing() {
    assert_eq!(count_components(3, &vec![(Some(0), None), (None, Some(2)), (Some(0), Some(7))]), 3);
    assert_eq!(count_components(3, &vec![(Some(0), Some(2))]), 2);
    assert_eq!(count_components(0, &vec![]), 0);
}

#[test]
fn finding_subjects_are_distinct_and_increasing() {
    let ids = vec![EntityId(5), EntityId(2), EntityId(5), EntityId(9), EntityId(2)];
    let out = distinct_sorted_ids(&ids);
    assert_eq!(out, vec![EntityId(2), EntityId(5), EntityId(9)]);
    assert!(distinct_sorted_ids(&Vec::new()).is_empty());
}
