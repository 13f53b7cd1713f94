use eak::compiler::{
    BomIr, EngineeringIr, IrError, ManufacturingIr, PcbIr, RequirementIr, SchematicIr,
    BOM_IR_SCHEMA_VERSION, ENGINEERING_IR_SCHEMA_VERSION, MANUFACTURING_IR_SCHEMA_VERSION,
    PCB_IR_SCHEMA_VERSION, SCHEMATIC_IR_SCHEMA_VERSION,
};
use eak::domain::{
    Board, BoardSide, BomLineItem, Component, ComponentClass, DesignIntent, EntityId,
    FunctionalBlock, Layer, LayerRole, LayerStack, Net, NetClass, Part, PartLifecycle, Pin,
    PinElectricalType, Placement, Priority, Requirement, RequirementCategory, RequirementStatus,
    Track,
};
use eak::units::{Magnitude, PhysicalQuantity, Unit};

fn intent() -> DesignIntent {
    DesignIntent {
        id: EntityId(1),
        statement: "x".into(),
        structured_summary: "x".into(),
        source: "engineer".into(),
    }
}

fn req(id: u128, status: RequirementStatus, crit: &str, src: EntityId) -> Requirement {
    Requirement {
        id: EntityId(id),
        statement: "s".into(),
        category: RequirementCategory::Functional,
        priority: Priority::Medium,
        acceptance_criterion: crit.into(),
        status,
        source: src,
        targets: vec![],
    }
}

#[test]
fn project_rejects_orphan() {
    let r = req(2, RequirementStatus::Proposed, "", EntityId::null());
    assert!(matches!(
        RequirementIr::project(&intent(), &vec![r], &vec![]),
        Err(IrError::OrphanRequirement(_))
    ));
}

#[test]
fn project_rejects_untestable_accepted() {
    let r = req(2, RequirementStatus::Accepted, "", EntityId(1));
    assert!(matches!(
        RequirementIr::project(&intent(), &vec![r], &vec![]),
        Err(IrError::UntestableAccepted(_))
    ));
}

fn block(id: u128, reqs: Vec<EntityId>) -> FunctionalBlock {
    FunctionalBlock {
        id: EntityId(id),
        name: "regulation".into(),
        function: "step down 12V to 3V3".into(),
        requirements: reqs,
    }
}

fn component(id: u128, from_block: EntityId) -> Component {
    Component {
        id: EntityId(id),
        refdes: "U1".into(),
        class: ComponentClass::Regulator,
        value: None,
        from_block,
    }
}

fn pin(id: u128, comp: EntityId) -> Pin {
    Pin {
        id: EntityId(id),
        component: comp,
        designation: "1".into(),
        electrical_type: PinElectricalType::PowerOut,
    }
}

fn net(id: u128, members: Vec<EntityId>) -> Net {
    Net {
        id: EntityId(id),
        name: "VCC".into(),
        class: NetClass::Power,
        members,
    }
}

fn req_ir() -> RequirementIr {
    let r = req(2, RequirementStatus::Accepted, "crit", EntityId(1));
    RequirementIr::project(&intent(), &vec![r], &vec![]).unwrap()
}

#[test]
fn requirement_project_keeps_intent_and_requirements() {
    let ir = req_ir();
    assert_eq!(ir.intent.id, EntityId(1));
    assert_eq!(ir.requirements.len(), 1);
    assert!(ir.provenance.is_empty());
}

#[test]
fn engineering_project_traces_blocks_to_requirements() {
    let ir = req_ir();
    let eng = EngineeringIr::project(&ir, &vec![block(10, vec![EntityId(2)])], &vec![]).unwrap();
    assert_eq!(eng.schema_version, ENGINEERING_IR_SCHEMA_VERSION);
    assert_eq!(eng.requirement_ir_schema_version, ir.schema_version);
    assert_eq!(eng.blocks.len(), 1);
    assert_eq!(eng.blocks[0].requirements, vec![EntityId(2)]);
}

#[test]
fn engineering_project_rejects_block_without_requirement() {
    let ir = req_ir();
    assert!(matches!(
        EngineeringIr::project(&ir, &vec![block(10, vec![])], &vec![]),
        Err(IrError::BlockWithoutRequirement(_))
    ));
    assert!(matches!(
        EngineeringIr::project(&ir, &vec![block(10, vec![EntityId(999)])], &vec![]),
        Err(IrError::BlockWithoutRequirement(_))
    ));
}

fn eng_ir() -> EngineeringIr {
    EngineeringIr::project(&req_ir(), &vec![block(10, vec![EntityId(2)])], &vec![]).unwrap()
}

#[test]
fn schematic_project_links_components_and_nets() {
    let eng = eng_ir();
    let c = component(20, EntityId(10));
    let p = pin(30, EntityId(20));
    let n = net(40, vec![EntityId(30)]);
    let sch = SchematicIr::project(&eng, &vec![c], &vec![p], &vec![n]).unwrap();
    assert_eq!(sch.schema_version, SCHEMATIC_IR_SCHEMA_VERSION);
    assert_eq!(sch.engineering_ir_schema_version, eng.schema_version);
    assert_eq!(sch.components.len(), 1);
    assert_eq!(sch.nets[0].members, vec![EntityId(30)]);
}

#[test]
fn schematic_project_rejects_orphan_component() {
    let eng = eng_ir();
    let c = component(20, EntityId(99));
    assert!(matches!(
        SchematicIr::project(&eng, &vec![c], &vec![], &vec![]),
        Err(IrError::OrphanComponent(_))
    ));
}

#[test]
fn schematic_project_rejects_unknown_net_member() {
    let eng = eng_ir();
    let c = component(20, EntityId(10));
    let p = pin(30, EntityId(20));
    let n = net(40, vec![EntityId(31)]);
    assert!(matches!(
        SchematicIr::project(&eng, &vec![c], &vec![p], &vec![n]),
        Err(IrError::UnknownNetMember(_))
    ));
}

fn part(id: u128) -> Part {
    Part {
        id: EntityId(id),
        mpn: "LM1117-3.3".into(),
        manufacturer: "Texas Instruments".into(),
        lifecycle: PartLifecycle::Active,
        datasheet: "https://ti.com/lm1117".into(),
    }
}

fn line_item(id: u128, part: EntityId, components: Vec<EntityId>) -> BomLineItem {
    BomLineItem {
        id: EntityId(id),
        part,
        components,
        quantity: 1,
    }
}

fn schematic_ir() -> SchematicIr {
    let c = component(20, EntityId(10));
    SchematicIr::project(&eng_ir(), &vec![c], &vec![], &vec![]).unwrap()
}

#[test]
fn bom_project_links_parts_to_components() {
    let sch = schematic_ir();
    let item = line_item(60, EntityId(50), vec![EntityId(20)]);
    let bom = BomIr::project(&sch, &vec![part(50)], &vec![item]).unwrap();
    assert_eq!(bom.schema_version, BOM_IR_SCHEMA_VERSION);
    assert_eq!(bom.schematic_ir_schema_version, sch.schema_version);
    assert_eq!(bom.parts.len(), 1);
    assert_eq!(bom.line_items.len(), 1);
    assert_eq!(bom.components.len(), 1);
    assert_eq!(bom.line_items[0].components, vec![EntityId(20)]);
}

#[test]
fn bom_project_rejects_unknown_part() {
    let sch = schematic_ir();
    let item = line_item(60, EntityId(99), vec![EntityId(20)]);
    assert!(matches!(
        BomIr::project(&sch, &vec![part(50)], &vec![item]),
        Err(IrError::UnknownPart(_))
    ));
}

#[test]
fn bom_project_rejects_line_item_unknown_component() {
    let sch = schematic_ir();
    let item = line_item(60, EntityId(50), vec![EntityId(21)]);
    assert!(matches!(
        BomIr::project(&sch, &vec![part(50)], &vec![item]),
        Err(IrError::LineItemUnknownComponent(_))
    ));
}

#[test]
fn bom_project_rejects_uncovered_component() {
    let sch = schematic_ir();
    assert!(matches!(
        BomIr::project(&sch, &vec![], &vec![]),
        Err(IrError::UncoveredComponent(_))
    ));
}

fn mm_q(v: f64) -> PhysicalQuantity {
    qty(v)
}

fn qty(mm: f64) -> PhysicalQuantity {
    PhysicalQuantity::new(Magnitude(mm.to_bits()), Unit::Millimetre)
}

fn two_layer_stack() -> LayerStack {
    let layer = Layer {
        role: LayerRole::Signal,
        copper_thickness: mm_q(0.035),
        dielectric_height: qty(1.5),
        dielectric_er: Magnitude(4.5f64.to_bits()),
        loss_tangent: Magnitude(0.02f64.to_bits()),
    };
    LayerStack { layers: vec![layer, layer] }
}

fn board(id: u128) -> Board {
    Board {
        id: EntityId(id),
        width: qty(100.0),
        height: qty(80.0),
        stack: two_layer_stack(),
    }
}

fn placement(id: u128, component: EntityId) -> Placement {
    Placement {
        id: EntityId(id),
        component,
        x: qty(10.0),
        y: qty(10.0),
        width: qty(5.0),
        height: qty(5.0),
        side: BoardSide::Top,
    }
}

#[test]
fn pcb_project_links_board_and_placements() {
    let sch = schematic_ir();
    let b = board(80);
    let pcb = PcbIr::project(&sch, Some(&b), &vec![placement(70, EntityId(20))], &vec![]).unwrap();
    assert_eq!(pcb.schema_version, PCB_IR_SCHEMA_VERSION);
    assert_eq!(pcb.schematic_ir_schema_version, sch.schema_version);
    assert_eq!(pcb.board.id, EntityId(80));
    assert_eq!(pcb.placements.len(), 1);
    assert_eq!(pcb.placements[0].component, EntityId(20));
    assert!(pcb.tracks.is_empty());
    assert_eq!(pcb.components.len(), 1);
}

#[test]
fn pcb_project_rejects_no_board() {
    let sch = schematic_ir();
    assert!(matches!(
        PcbIr::project(&sch, None, &vec![placement(70, EntityId(20))], &vec![]),
        Err(IrError::NoBoard)
    ));
}

#[test]
fn pcb_project_rejects_placement_unknown_component() {
    let sch = schematic_ir();
    assert!(matches!(
        PcbIr::project(&sch, Some(&board(80)), &vec![placement(70, EntityId(99))], &vec![]),
        Err(IrError::PlacementUnknownComponent(_))
    ));
}

#[test]
fn pcb_project_rejects_unplaced_component() {
    let sch = schematic_ir();
    assert!(matches!(
        PcbIr::project(&sch, Some(&board(80)), &vec![], &vec![]),
        Err(IrError::UnplacedComponent(_))
    ));
}

fn track(id: u128, net: EntityId) -> Track {
    Track {
        id: EntityId(id),
        net,
        layer: BoardSide::Top,
        width: qty(0.25),
        x1: qty(1.0),
        y1: qty(1.0),
        x2: qty(9.0),
        y2: qty(1.0),
    }
}

fn routed_schematic() -> SchematicIr {
    let c = component(20, EntityId(10));
    let p = pin(30, EntityId(20));
    let n = net(40, vec![EntityId(30)]);
    SchematicIr::project(&eng_ir(), &vec![c], &vec![p], &vec![n]).unwrap()
}

#[test]
fn pcb_project_enriches_with_tracks() {
    let sch = routed_schematic();
    let pcb = PcbIr::project(
        &sch,
        Some(&board(80)),
        &vec![placement(70, EntityId(20))],
        &vec![track(90, EntityId(40))],
    )
    .unwrap();
    assert_eq!(pcb.tracks.len(), 1);
    assert_eq!(pcb.tracks[0].net, EntityId(40));
}

#[test]
fn pcb_project_rejects_track_unknown_net() {
    let sch = routed_schematic();
    assert!(matches!(
        PcbIr::project(
            &sch,
            Some(&board(80)),
            &vec![placement(70, EntityId(20))],
            &vec![track(90, EntityId(99))]
        ),
        Err(IrError::TrackUnknownNet(_))
    ));
}

#[test]
fn manufacturing_project_joins_layout_and_bom() {
    let sch = routed_schematic();
    let pcb = PcbIr::project(
        &sch,
        Some(&board(80)),
        &vec![placement(70, EntityId(20))],
        &vec![track(90, EntityId(40))],
    )
    .unwrap();
    let bom = BomIr::project(
        &sch,
        &vec![part(50)],
        &vec![line_item(60, EntityId(50), vec![EntityId(20)])],
    )
    .unwrap();
    let mfg = ManufacturingIr::project(&pcb, &bom).unwrap();
    assert_eq!(mfg.schema_version, MANUFACTURING_IR_SCHEMA_VERSION);
    assert_eq!(mfg.pcb_ir_schema_version, pcb.schema_version);
    assert_eq!(mfg.bom_ir_schema_version, bom.schema_version);
    assert_eq!(mfg.placements.len(), 1);
    assert_eq!(mfg.copper.len(), 1);
    assert_eq!(mfg.assignments.len(), 1);
    assert_eq!(mfg.assignments[0].component, EntityId(20));
    assert_eq!(mfg.assignments[0].refdes, "U1");
    assert_eq!(mfg.assignments[0].mpn, "LM1117-3.3");
}

#[test]
fn manufacturing_project_rejects_unsourced_placement() {
    let sch = routed_schematic();
    let pcb = PcbIr::project(&sch, Some(&board(80)), &vec![placement(70, EntityId(20))], &vec![])
        .unwrap();
    let bom = BomIr {
        schema_version: BOM_IR_SCHEMA_VERSION,
        schematic_ir_schema_version: sch.schema_version,
        parts: vec![part(50)],
        line_items: vec![line_item(60, EntityId(50), vec![EntityId(21)])],
        components: sch.components.clone(),
    };
    assert!(matches!(
        ManufacturingIr::project(&pcb, &bom),
        Err(IrError::UnsourcedPlacement(_))
    ));
}

#[test]
fn ir_error_messages_name_the_entity() {
    assert_eq!(
        IrError::NoBoard.message(),
        "pcb layout requires a board outline but none exists"
    );
    let m = IrError::UnknownPart(EntityId(0x63)).message();
    assert!(m.starts_with("bom line item orders unknown part "));
    assert!(m.ends_with(&EntityId(0x63).short()));
}
