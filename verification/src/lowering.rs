//! The lowering chain a phase runs at its boundary: canonical state projected through
//! the Requirement, Engineering and Schematic IRs, then into the BOM or PCB IR. A breach
//! anywhere along the chain stops it with the breach's message.

use vstd::prelude::*;
use crate::compiler::{
    bom_ir_error, engineering_ir_error, ir_error_text, pcb_ir_error, requirement_ir_error,
    schematic_ir_error, BomIr, EngineeringIr, PcbIr, RequirementIr, SchematicIr,
};
use crate::fsm::MachineError;
use crate::ports::ReasoningEngine;
use crate::runtime::RuntimeCore;
use crate::state::{views, StateModel};

verus! {

pub open spec fn no_intent_text() -> Seq<char> {
    "no intent for lowering"@
}

pub open spec fn stage_text(e: Option<crate::compiler::IrError>) -> Option<Seq<char>> {
    match e {
        Some(x) => Some(ir_error_text(x)),
        None => None,
    }
}

/// Why lowering to the Requirement IR fails, if it does.
pub open spec fn requirement_stage(s: StateModel) -> Option<Seq<char>> {
    if s.intent is None {
        Some(no_intent_text())
    } else {
        stage_text(requirement_ir_error(s.requirements))
    }
}

pub open spec fn engineering_stage(s: StateModel) -> Option<Seq<char>> {
    match requirement_stage(s) {
        Some(m) => Some(m),
        None => stage_text(engineering_ir_error(s.requirements, s.functional_blocks)),
    }
}

pub open spec fn schematic_stage(s: StateModel) -> Option<Seq<char>> {
    match engineering_stage(s) {
        Some(m) => Some(m),
        None => stage_text(schematic_ir_error(s.functional_blocks, s.components, s.pins, s.nets)),
    }
}

pub open spec fn bom_stage(s: StateModel) -> Option<Seq<char>> {
    match schematic_stage(s) {
        Some(m) => Some(m),
        None => stage_text(bom_ir_error(s.components, s.parts, s.bom_line_items)),
    }
}

pub open spec fn pcb_stage(s: StateModel) -> Option<Seq<char>> {
    match schematic_stage(s) {
        Some(m) => Some(m),
        None => stage_text(pcb_ir_error(s.components, s.nets, s.board, s.placements, s.tracks)),
    }
}

fn internal(e: crate::compiler::IrError) -> (m: MachineError)
    ensures
        m matches MachineError::Internal(t) && t@ == ir_error_text(e),
{
    MachineError::Internal(e.message())
}

/// Lowers the state to the Engineering IR.
pub fn lower_engineering<E: ReasoningEngine>(ctx: &RuntimeCore<E>) -> (r: Result<EngineeringIr, MachineError>)
    ensures
        match r {
            Ok(ir) => {
                &&& engineering_stage(ctx.state_value()@) is None
                &&& ir.schema_version == crate::compiler::ENGINEERING_IR_SCHEMA_VERSION
                &&& views(ir.blocks@) == ctx.state_value()@.functional_blocks
            },
            Err(MachineError::Internal(m)) => engineering_stage(ctx.state_value()@) == Some(m@),
        },
{
    let intent = match ctx.design_intent() {
        Some(i) => i,
        None => {
            return Err(MachineError::Internal(String::from_str("no intent for lowering")));
        },
    };
    let reqs = ctx.requirements();
    let links = ctx.provenance_links();
    let blocks = ctx.functional_blocks();
    let constraints = ctx.constraints();
    let req_ir = match RequirementIr::project(&intent, &reqs, &links) {
        Ok(ir) => ir,
        Err(e) => {
            return Err(internal(e));
        },
    };
    match EngineeringIr::project(&req_ir, &blocks, &constraints) {
        Ok(ir) => Ok(ir),
        Err(e) => Err(internal(e)),
    }
}

/// Lowers the state to the Schematic IR.
pub fn lower_schematic<E: ReasoningEngine>(ctx: &RuntimeCore<E>) -> (r: Result<SchematicIr, MachineError>)
    ensures
        match r {
            Ok(ir) => {
                &&& schematic_stage(ctx.state_value()@) is None
                &&& ir.schema_version == crate::compiler::SCHEMATIC_IR_SCHEMA_VERSION
                &&& ir.components@ == ctx.state_value()@.components
                &&& ir.pins@ == ctx.state_value()@.pins
                &&& views(ir.nets@) == ctx.state_value()@.nets
            },
            Err(MachineError::Internal(m)) => schematic_stage(ctx.state_value()@) == Some(m@),
        },
{
    let intent = match ctx.design_intent() {
        Some(i) => i,
        None => {
            return Err(MachineError::Internal(String::from_str("no intent for lowering")));
        },
    };
    let reqs = ctx.requirements();
    let links = ctx.provenance_links();
    let blocks = ctx.functional_blocks();
    let constraints = ctx.constraints();
    let components = ctx.components();
    let pins = ctx.pins();
    let nets = ctx.nets();
    let req_ir = match RequirementIr::project(&intent, &reqs, &links) {
        Ok(ir) => ir,
        Err(e) => {
            return Err(internal(e));
        },
    };
    let eng_ir = match EngineeringIr::project(&req_ir, &blocks, &constraints) {
        Ok(ir) => ir,
        Err(e) => {
            return Err(internal(e));
        },
    };
    match SchematicIr::project(&eng_ir, &components, &pins, &nets) {
        Ok(ir) => Ok(ir),
        Err(e) => Err(internal(e)),
    }
}

/// Lowers the state to the BOM IR.
pub fn lower_bom<E: ReasoningEngine>(ctx: &RuntimeCore<E>) -> (r: Result<BomIr, MachineError>)
    ensures
        match r {
            Ok(ir) => {
                &&& bom_stage(ctx.state_value()@) is None
                &&& ir.schema_version == crate::compiler::BOM_IR_SCHEMA_VERSION
                &&& views(ir.line_items@) == ctx.state_value()@.bom_line_items
                &&& ir.parts@ == ctx.state_value()@.parts
            },
            Err(MachineError::Internal(m)) => bom_stage(ctx.state_value()@) == Some(m@),
        },
{
    let sch = match lower_schematic(ctx) {
        Ok(ir) => ir,
        Err(e) => {
            return Err(e);
        },
    };
    let parts = ctx.parts();
    let items = ctx.bom_line_items();
    match BomIr::project(&sch, &parts, &items) {
        Ok(ir) => Ok(ir),
        Err(e) => Err(internal(e)),
    }
}

/// Lowers the state to the PCB IR.
pub fn lower_pcb<E: ReasoningEngine>(ctx: &RuntimeCore<E>) -> (r: Result<PcbIr, MachineError>)
    ensures
        match r {
            Ok(ir) => {
                &&& pcb_stage(ctx.state_value()@) is None
                &&& ir.schema_version == crate::compiler::PCB_IR_SCHEMA_VERSION
                &&& ir.components@ == ctx.state_value()@.components
                &&& ir.placements@ == ctx.state_value()@.placements
                &&& ir.tracks@ == ctx.state_value()@.tracks
            },
            Err(MachineError::Internal(m)) => pcb_stage(ctx.state_value()@) == Some(m@),
        },
{
    let sch = match lower_schematic(ctx) {
        Ok(ir) => ir,
        Err(e) => {
            return Err(e);
        },
    };
    let board = ctx.board();
    let placements = ctx.placements();
    let tracks = ctx.tracks();
    let r = match &board {
        Some(b) => PcbIr::project(&sch, Some(b), &placements, &tracks),
        None => PcbIr::project(&sch, None, &placements, &tracks),
    };
    match r {
        Ok(ir) => Ok(ir),
        Err(e) => Err(internal(e)),
    }
}

} // verus!
