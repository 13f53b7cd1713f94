//! Intermediate representations: typed projections of canonical state at phase
//! boundaries. An IR is never a rival source of truth: each projection copies state and
//! enforces the invariants of its boundary, failing with the first breach it meets.

use vstd::prelude::*;
use crate::domain::{
    short_hex, testable, Board, BoardView, BomLineItem, BomLineItemView, Component, Constraint,
    DesignIntent, EntityId, FunctionalBlock, FunctionalBlockView, Net, NetView, Part, Pin,
    Placement, ProvenanceLink, Requirement, RequirementStatus, RequirementView, Track,
};
use crate::lookup::{by_id, contains_id, find_by_id, has_id, ids_contain};
use crate::state::views;

verus! {

pub const REQUIREMENT_IR_SCHEMA_VERSION: u32 = 1;
pub const ENGINEERING_IR_SCHEMA_VERSION: u32 = 1;
pub const SCHEMATIC_IR_SCHEMA_VERSION: u32 = 1;
pub const BOM_IR_SCHEMA_VERSION: u32 = 1;
pub const PCB_IR_SCHEMA_VERSION: u32 = 1;
pub const MANUFACTURING_IR_SCHEMA_VERSION: u32 = 1;

/// The invariant a projection found breached, naming the offending entity.
#[derive(Debug, Clone, Copy, PartialEq, Eq, Structural)]
pub enum IrError {
    OrphanRequirement(EntityId),
    UntestableAccepted(EntityId),
    BlockWithoutRequirement(EntityId),
    OrphanComponent(EntityId),
    UnknownNetMember(EntityId),
    UnknownPart(EntityId),
    LineItemUnknownComponent(EntityId),
    UncoveredComponent(EntityId),
    NoBoard,
    PlacementUnknownComponent(EntityId),
    UnplacedComponent(EntityId),
    TrackUnknownNet(EntityId),
    UnsourcedPlacement(EntityId),
}

pub open spec fn ir_error_text(e: IrError) -> Seq<char> {
    match e {
        IrError::OrphanRequirement(id) => "requirement "@ + short_hex(id) + " is not rooted in a source"@,
        IrError::UntestableAccepted(id) => "accepted requirement "@ + short_hex(id)
            + " lacks an acceptance criterion"@,
        IrError::BlockWithoutRequirement(id) => "functional block "@ + short_hex(id)
            + " does not trace to a known requirement"@,
        IrError::OrphanComponent(id) => "component "@ + short_hex(id)
            + " is not minted from a known functional block"@,
        IrError::UnknownNetMember(id) => "net references unknown pin "@ + short_hex(id),
        IrError::UnknownPart(id) => "bom line item orders unknown part "@ + short_hex(id),
        IrError::LineItemUnknownComponent(id) => "bom line item covers unknown component "@ + short_hex(id),
        IrError::UncoveredComponent(id) => "schematic component "@ + short_hex(id)
            + " is not covered by any bom line item"@,
        IrError::NoBoard => "pcb layout requires a board outline but none exists"@,
        IrError::PlacementUnknownComponent(id) => "placement binds unknown component "@ + short_hex(id),
        IrError::UnplacedComponent(id) => "schematic component "@ + short_hex(id)
            + " is not placed on the board"@,
        IrError::TrackUnknownNet(id) => "track realizes unknown net "@ + short_hex(id),
        IrError::UnsourcedPlacement(id) => "placed component "@ + short_hex(id)
            + " is not sourced by any bom line item"@,
    }
}

fn id_message(prefix: &str, id: EntityId, suffix: &str) -> (s: String)
    ensures
        s@ == prefix@ + short_hex(id) + suffix@,
{
    String::from_str(prefix).concat(id.short().as_str()).concat(suffix)
}

fn id_tail(prefix: &str, id: EntityId) -> (s: String)
    ensures
        s@ == prefix@ + short_hex(id),
{
    String::from_str(prefix).concat(id.short().as_str())
}

impl IrError {
    /// The error's message.
    pub fn message(&self) -> (s: String)
        ensures
            s@ == ir_error_text(*self),
    {
        match *self {
            IrError::OrphanRequirement(id) => id_message("requirement ", id, " is not rooted in a source"),
            IrError::UntestableAccepted(id) => id_message(
                "accepted requirement ",
                id,
                " lacks an acceptance criterion",
            ),
            IrError::BlockWithoutRequirement(id) => id_message(
                "functional block ",
                id,
                " does not trace to a known requirement",
            ),
            IrError::OrphanComponent(id) => id_message(
                "component ",
                id,
                " is not minted from a known functional block",
            ),
            IrError::UnknownNetMember(id) => id_tail("net references unknown pin ", id),
            IrError::UnknownPart(id) => id_tail("bom line item orders unknown part ", id),
            IrError::LineItemUnknownComponent(id) => id_tail("bom line item covers unknown component ", id),
            IrError::UncoveredComponent(id) => id_message(
                "schematic component ",
                id,
                " is not covered by any bom line item",
            ),
            IrError::NoBoard => String::from_str("pcb layout requires a board outline but none exists"),
            IrError::PlacementUnknownComponent(id) => id_tail("placement binds unknown component ", id),
            IrError::UnplacedComponent(id) => id_message(
                "schematic component ",
                id,
                " is not placed on the board",
            ),
            IrError::TrackUnknownNet(id) => id_tail("track realizes unknown net ", id),
            IrError::UnsourcedPlacement(id) => id_message(
                "placed component ",
                id,
                " is not sourced by any bom line item",
            ),
        }
    }
}

/// The first breach met when checking `s` in order with `f`.
pub open spec fn first_error<T>(s: Seq<T>, f: spec_fn(T) -> Option<IrError>) -> Option<IrError>
    decreases s.len(),
{
    if s.len() == 0 {
        None
    } else {
        match first_error(s.drop_last(), f) {
            Some(e) => Some(e),
            None => f(s.last()),
        }
    }
}

proof fn lemma_first_error_step<T>(s: Seq<T>, f: spec_fn(T) -> Option<IrError>, i: int)
    requires
        0 <= i < s.len(),
    ensures
        first_error(s.take(i + 1), f) == match first_error(s.take(i), f) {
            Some(e) => Some(e),
            None => f(s[i]),
        },
{
    assert(s.take(i + 1).drop_last() =~= s.take(i));
}

proof fn lemma_first_error_prefix<T>(s: Seq<T>, f: spec_fn(T) -> Option<IrError>, k: int)
    requires
        0 <= k <= s.len(),
        first_error(s.take(k), f) is Some,
    ensures
        first_error(s, f) == first_error(s.take(k), f),
    decreases s.len() - k,
{
    if k == s.len() {
        assert(s.take(k) =~= s);
    } else {
        lemma_first_error_step(s, f, k);
        lemma_first_error_prefix(s, f, k + 1);
    }
}

proof fn lemma_first_error_all<T>(s: Seq<T>, f: spec_fn(T) -> Option<IrError>)
    ensures
        first_error(s.take(s.len() as int), f) == first_error(s, f),
{
    assert(s.take(s.len() as int) =~= s);
}

// ------------------------------------------------------------------------------------
// Requirement IR
// ------------------------------------------------------------------------------------

/// A requirement breaches the boundary when it is not rooted, or accepted yet untestable.
pub open spec fn requirement_breach(r: RequirementView) -> Option<IrError> {
    if r.source.0 == 0 {
        Some(IrError::OrphanRequirement(r.id))
    } else if r.status == RequirementStatus::Accepted && !testable(r) {
        Some(IrError::UntestableAccepted(r.id))
    } else {
        None
    }
}

pub open spec fn requirement_ir_error(reqs: Seq<RequirementView>) -> Option<IrError> {
    first_error(reqs, |r: RequirementView| requirement_breach(r))
}

/// The design's intent and requirements at the boundary out of Requirement Planning.
pub struct RequirementIr {
    pub schema_version: u32,
    pub intent: DesignIntent,
    pub requirements: Vec<Requirement>,
    pub provenance: Vec<ProvenanceLink>,
}

impl RequirementIr {
    /// Projects intent, requirements and provenance, failing at the first requirement
    /// that is not rooted in a source or is accepted without an acceptance criterion.
    pub fn project(intent: &DesignIntent, requirements: &Vec<Requirement>, links: &Vec<ProvenanceLink>) -> (r:
        Result<Self, IrError>)
        ensures
            match r {
                Ok(ir) => {
                    &&& requirement_ir_error(views(requirements@)) is None
                    &&& ir.schema_version == REQUIREMENT_IR_SCHEMA_VERSION
                    &&& ir.intent == *intent
                    &&& views(ir.requirements@) == views(requirements@)
                    &&& ir.provenance@ == links@
                },
                Err(e) => requirement_ir_error(views(requirements@)) == Some(e),
            },
    {
        let ghost f = |r: RequirementView| requirement_breach(r);
        let ghost s = views(requirements@);
        let n = requirements.len();
        let mut i: usize = 0;
        while i < n
            invariant
                n == requirements@.len(),
                s == views(requirements@),
                f == (|r: RequirementView| requirement_breach(r)),
                i <= n,
                first_error(s.take(i as int), f) is None,
            decreases n - i,
        {
            let r = &requirements[i];
            proof {
                lemma_first_error_step(s, f, i as int);
            }
            if r.source.is_null() {
                proof {
                    lemma_first_error_prefix(s, f, i + 1);
                }
                return Err(IrError::OrphanRequirement(r.id));
            }
            if r.status == RequirementStatus::Accepted && !r.is_testable() {
                proof {
                    lemma_first_error_prefix(s, f, i + 1);
                }
                return Err(IrError::UntestableAccepted(r.id));
            }
            i = i + 1;
        }
        proof {
            lemma_first_error_all(s, f);
        }
        let reqs = requirements.clone();
        let provenance = links.clone();
        proof {
            assert(views(reqs@) =~= views(requirements@));
            assert(provenance@ =~= links@);
        }
        Ok(
            RequirementIr {
                schema_version: REQUIREMENT_IR_SCHEMA_VERSION,
                intent: intent.clone(),
                requirements: reqs,
                provenance,
            },
        )
    }
}

// ------------------------------------------------------------------------------------
// Engineering IR
// ------------------------------------------------------------------------------------

/// A block breaches the boundary when it realizes no requirement, or names one the
/// requirement IR does not hold.
pub open spec fn has_requirement(reqs: Seq<RequirementView>, id: EntityId) -> bool {
    exists|i: int| 0 <= i < reqs.len() && (#[trigger] reqs[i]).id == id
}

pub open spec fn has_block(blocks: Seq<FunctionalBlockView>, id: EntityId) -> bool {
    exists|i: int| 0 <= i < blocks.len() && (#[trigger] blocks[i]).id == id
}

pub open spec fn has_net(nets: Seq<NetView>, id: EntityId) -> bool {
    exists|i: int| 0 <= i < nets.len() && (#[trigger] nets[i]).id == id
}

pub open spec fn line_sources(items: Seq<BomLineItemView>, cid: EntityId) -> bool {
    exists|i: int| 0 <= i < items.len() && (#[trigger] items[i]).components.contains(cid)
}

fn requirement_known(reqs: &Vec<Requirement>, id: EntityId) -> (r: bool)
    ensures
        r == has_requirement(views(reqs@), id),
{
    let ghost v = views(reqs@);
    let n = reqs.len();
    let mut i: usize = 0;
    while i < n
        invariant
            n == reqs@.len(),
            v == views(reqs@),
            i <= n,
            forall|k: int| 0 <= k < i ==> (#[trigger] v[k]).id != id,
        decreases n - i,
    {
        if reqs[i].id == id {
            assert(v[i as int].id == id);
            return true;
        }
        i = i + 1;
    }
    false
}

fn block_known(blocks: &Vec<FunctionalBlock>, id: EntityId) -> (r: bool)
    ensures
        r == has_block(views(blocks@), id),
{
    let ghost v = views(blocks@);
    let n = blocks.len();
    let mut i: usize = 0;
    while i < n
        invariant
            n == blocks@.len(),
            v == views(blocks@),
            i <= n,
            forall|k: int| 0 <= k < i ==> (#[trigger] v[k]).id != id,
        decreases n - i,
    {
        if blocks[i].id == id {
            assert(v[i as int].id == id);
            return true;
        }
        i = i + 1;
    }
    false
}

fn net_known(nets: &Vec<Net>, id: EntityId) -> (r: bool)
    ensures
        r == has_net(views(nets@), id),
{
    let ghost v = views(nets@);
    let n = nets.len();
    let mut i: usize = 0;
    while i < n
        invariant
            n == nets@.len(),
            v == views(nets@),
            i <= n,
            forall|k: int| 0 <= k < i ==> (#[trigger] v[k]).id != id,
        decreases n - i,
    {
        if nets[i].id == id {
            assert(v[i as int].id == id);
            return true;
        }
        i = i + 1;
    }
    false
}

fn line_known(items: &Vec<BomLineItem>, cid: EntityId) -> (r: bool)
    ensures
        r == line_sources(views(items@), cid),
{
    let ghost v = views(items@);
    let n = items.len();
    let mut i: usize = 0;
    while i < n
        invariant
            n == items@.len(),
            v == views(items@),
            i <= n,
            forall|k: int| 0 <= k < i ==> !(#[trigger] v[k]).components.contains(cid),
        decreases n - i,
    {
        if ids_contain(&items[i].components, cid) {
            assert(v[i as int].components.contains(cid));
            return true;
        }
        i = i + 1;
    }
    false
}

pub open spec fn block_breach(reqs: Seq<RequirementView>, b: FunctionalBlockView) -> Option<IrError> {
    if b.requirements.len() == 0 || exists|k: int|
        0 <= k < b.requirements.len() && !has_requirement(reqs, #[trigger] b.requirements[k]) {
        Some(IrError::BlockWithoutRequirement(b.id))
    } else {
        None
    }
}

pub open spec fn engineering_ir_error(reqs: Seq<RequirementView>, blocks: Seq<FunctionalBlockView>) -> Option<IrError> {
    first_error(blocks, |b: FunctionalBlockView| block_breach(reqs, b))
}

/// The functional blocks, constraints and requirements at the boundary out of
/// Engineering Analysis.
pub struct EngineeringIr {
    pub schema_version: u32,
    pub requirement_ir_schema_version: u32,
    pub blocks: Vec<FunctionalBlock>,
    pub constraints: Vec<Constraint>,
    pub requirements: Vec<Requirement>,
}

fn all_known(reqs: &Vec<Requirement>, ids: &Vec<EntityId>) -> (r: bool)
    ensures
        r == forall|k: int| 0 <= k < ids@.len() ==> has_requirement(views(reqs@), #[trigger] ids@[k]),
{
    let n = ids.len();
    let mut i: usize = 0;
    while i < n
        invariant
            n == ids@.len(),
            i <= n,
            forall|k: int| 0 <= k < i ==> has_requirement(views(reqs@), #[trigger] ids@[k]),
        decreases n - i,
    {
        if !requirement_known(reqs, ids[i]) {
            return false;
        }
        i = i + 1;
    }
    true
}

impl EngineeringIr {
    /// Projects the blocks and constraints, failing at the first block that realizes no
    /// requirement or names a requirement the requirement IR does not hold.
    pub fn project(req_ir: &RequirementIr, blocks: &Vec<FunctionalBlock>, constraints: &Vec<Constraint>) -> (r:
        Result<Self, IrError>)
        ensures
            match r {
                Ok(ir) => {
                    &&& engineering_ir_error(views(req_ir.requirements@), views(blocks@)) is None
                    &&& ir.schema_version == ENGINEERING_IR_SCHEMA_VERSION
                    &&& ir.requirement_ir_schema_version == req_ir.schema_version
                    &&& views(ir.blocks@) == views(blocks@)
                    &&& ir.constraints@ == constraints@
                    &&& views(ir.requirements@) == views(req_ir.requirements@)
                },
                Err(e) => engineering_ir_error(views(req_ir.requirements@), views(blocks@)) == Some(e),
            },
    {
        let ghost reqs = views(req_ir.requirements@);
        let ghost f = |b: FunctionalBlockView| block_breach(reqs, b);
        let ghost s = views(blocks@);
        let n = blocks.len();
        let mut i: usize = 0;
        while i < n
            invariant
                n == blocks@.len(),
                s == views(blocks@),
                reqs == views(req_ir.requirements@),
                f == (|b: FunctionalBlockView| block_breach(reqs, b)),
                i <= n,
                first_error(s.take(i as int), f) is None,
            decreases n - i,
        {
            let b = &blocks[i];
            proof {
                lemma_first_error_step(s, f, i as int);
            }
            if b.requirements.len() == 0 || !all_known(&req_ir.requirements, &b.requirements) {
                proof {
                    lemma_first_error_prefix(s, f, i + 1);
                }
                return Err(IrError::BlockWithoutRequirement(b.id));
            }
            i = i + 1;
        }
        proof {
            lemma_first_error_all(s, f);
        }
        let bs = blocks.clone();
        let cs = constraints.clone();
        let rs = req_ir.requirements.clone();
        proof {
            assert(views(bs@) =~= views(blocks@));
            assert(cs@ =~= constraints@);
            assert(views(rs@) =~= views(req_ir.requirements@));
        }
        Ok(
            EngineeringIr {
                schema_version: ENGINEERING_IR_SCHEMA_VERSION,
                requirement_ir_schema_version: req_ir.schema_version,
                blocks: bs,
                constraints: cs,
                requirements: rs,
            },
        )
    }
}

// ------------------------------------------------------------------------------------
// Schematic IR
// ------------------------------------------------------------------------------------

pub open spec fn component_breach(blocks: Seq<FunctionalBlockView>, c: Component) -> Option<IrError> {
    if !has_block(blocks, c.from_block) {
        Some(IrError::OrphanComponent(c.id))
    } else {
        None
    }
}

/// A member that names no pin breaches the boundary.
pub open spec fn member_breach(pins: Seq<Pin>, pid: EntityId) -> Option<IrError> {
    if !has_id(pins, pid) {
        Some(IrError::UnknownNetMember(pid))
    } else {
        None
    }
}

pub open spec fn net_breach(pins: Seq<Pin>, n: NetView) -> Option<IrError> {
    first_error(n.members, |pid: EntityId| member_breach(pins, pid))
}

pub open spec fn schematic_ir_error(
    blocks: Seq<FunctionalBlockView>,
    components: Seq<Component>,
    pins: Seq<Pin>,
    nets: Seq<NetView>,
) -> Option<IrError> {
    match first_error(components, |c: Component| component_breach(blocks, c)) {
        Some(e) => Some(e),
        None => first_error(nets, |n: NetView| net_breach(pins, n)),
    }
}

/// The components, pins and nets at the boundary out of Schematic Planning.
pub struct SchematicIr {
    pub schema_version: u32,
    pub engineering_ir_schema_version: u32,
    pub blocks: Vec<FunctionalBlock>,
    pub components: Vec<Component>,
    pub pins: Vec<Pin>,
    pub nets: Vec<Net>,
}

fn first_unknown_member(pins: &Vec<Pin>, members: &Vec<EntityId>) -> (r: Option<IrError>)
    ensures
        r == first_error(members@, |pid: EntityId| member_breach(pins@, pid)),
{
    let ghost f = |pid: EntityId| member_breach(pins@, pid);
    let n = members.len();
    let mut i: usize = 0;
    while i < n
        invariant
            n == members@.len(),
            f == (|pid: EntityId| member_breach(pins@, pid)),
            i <= n,
            first_error(members@.take(i as int), f) is None,
        decreases n - i,
    {
        proof {
            lemma_first_error_step(members@, f, i as int);
        }
        if !contains_id(pins, members[i]) {
            proof {
                lemma_first_error_prefix(members@, f, i + 1);
            }
            return Some(IrError::UnknownNetMember(members[i]));
        }
        i = i + 1;
    }
    proof {
        lemma_first_error_all(members@, f);
    }
    None
}

impl SchematicIr {
    /// Projects the schematic, failing at the first component not minted from a known
    /// block, then at the first net member that names no pin.
    pub fn project(eng_ir: &EngineeringIr, components: &Vec<Component>, pins: &Vec<Pin>, nets: &Vec<Net>) -> (r:
        Result<Self, IrError>)
        ensures
            match r {
                Ok(ir) => {
                    &&& schematic_ir_error(views(eng_ir.blocks@), components@, pins@, views(nets@)) is None
                    &&& ir.schema_version == SCHEMATIC_IR_SCHEMA_VERSION
                    &&& ir.engineering_ir_schema_version == eng_ir.schema_version
                    &&& views(ir.blocks@) == views(eng_ir.blocks@)
                    &&& ir.components@ == components@
                    &&& ir.pins@ == pins@
                    &&& views(ir.nets@) == views(nets@)
                },
                Err(e) => schematic_ir_error(views(eng_ir.blocks@), components@, pins@, views(nets@)) == Some(e),
            },
    {
        let ghost blocks = views(eng_ir.blocks@);
        let ghost fc = |c: Component| component_breach(blocks, c);
        let nc = components.len();
        let mut i: usize = 0;
        while i < nc
            invariant
                nc == components@.len(),
                blocks == views(eng_ir.blocks@),
                fc == (|c: Component| component_breach(blocks, c)),
                i <= nc,
                first_error(components@.take(i as int), fc) is None,
            decreases nc - i,
        {
            proof {
                lemma_first_error_step(components@, fc, i as int);
            }
            if !block_known(&eng_ir.blocks, components[i].from_block) {
                proof {
                    lemma_first_error_prefix(components@, fc, i + 1);
                }
                return Err(IrError::OrphanComponent(components[i].id));
            }
            i = i + 1;
        }
        proof {
            lemma_first_error_all(components@, fc);
        }
        let ghost sn = views(nets@);
        let ghost fnet = |n: NetView| net_breach(pins@, n);
        let nn = nets.len();
        let mut j: usize = 0;
        while j < nn
            invariant
                nn == nets@.len(),
                sn == views(nets@),
                fnet == (|n: NetView| net_breach(pins@, n)),
                first_error(components@, |c: Component| component_breach(views(eng_ir.blocks@), c)) is None,
                j <= nn,
                first_error(sn.take(j as int), fnet) is None,
            decreases nn - j,
        {
            proof {
                lemma_first_error_step(sn, fnet, j as int);
            }
            match first_unknown_member(pins, &nets[j].members) {
                Some(e) => {
                    proof {
                        lemma_first_error_prefix(sn, fnet, j + 1);
                    }
                    return Err(e);
                },
                None => {},
            }
            j = j + 1;
        }
        proof {
            lemma_first_error_all(sn, fnet);
        }
        let bs = eng_ir.blocks.clone();
        let cs = components.clone();
        let ps = pins.clone();
        let ns = nets.clone();
        proof {
            assert(views(bs@) =~= views(eng_ir.blocks@));
            assert(cs@ =~= components@);
            assert(ps@ =~= pins@);
            assert(views(ns@) =~= views(nets@));
        }
        Ok(
            SchematicIr {
                schema_version: SCHEMATIC_IR_SCHEMA_VERSION,
                engineering_ir_schema_version: eng_ir.schema_version,
                blocks: bs,
                components: cs,
                pins: ps,
                nets: ns,
            },
        )
    }
}

// ------------------------------------------------------------------------------------
// BOM IR
// ------------------------------------------------------------------------------------

pub open spec fn covered_breach(components: Seq<Component>, cid: EntityId) -> Option<IrError> {
    if !has_id(components, cid) {
        Some(IrError::LineItemUnknownComponent(cid))
    } else {
        None
    }
}

/// A line item breaches the boundary when it orders an unknown part, or covers a
/// component the schematic does not hold.
pub open spec fn line_breach(parts: Seq<Part>, components: Seq<Component>, item: BomLineItemView) -> Option<IrError> {
    if !has_id(parts, item.part) {
        Some(IrError::UnknownPart(item.part))
    } else {
        first_error(item.components, |cid: EntityId| covered_breach(components, cid))
    }
}

pub open spec fn uncovered_breach(items: Seq<BomLineItemView>, c: Component) -> Option<IrError> {
    if !line_sources(items, c.id) {
        Some(IrError::UncoveredComponent(c.id))
    } else {
        None
    }
}

pub open spec fn bom_ir_error(components: Seq<Component>, parts: Seq<Part>, items: Seq<BomLineItemView>) -> Option<IrError> {
    match first_error(items, |item: BomLineItemView| line_breach(parts, components, item)) {
        Some(e) => Some(e),
        None => first_error(components, |c: Component| uncovered_breach(items, c)),
    }
}

/// The parts and line items at the boundary out of BOM Planning.
pub struct BomIr {
    pub schema_version: u32,
    pub schematic_ir_schema_version: u32,
    pub parts: Vec<Part>,
    pub line_items: Vec<BomLineItem>,
    pub components: Vec<Component>,
}

fn first_unknown_covered(components: &Vec<Component>, ids: &Vec<EntityId>) -> (r: Option<IrError>)
    ensures
        r == first_error(ids@, |cid: EntityId| covered_breach(components@, cid)),
{
    let ghost f = |cid: EntityId| covered_breach(components@, cid);
    let n = ids.len();
    let mut i: usize = 0;
    while i < n
        invariant
            n == ids@.len(),
            f == (|cid: EntityId| covered_breach(components@, cid)),
            i <= n,
            first_error(ids@.take(i as int), f) is None,
        decreases n - i,
    {
        proof {
            lemma_first_error_step(ids@, f, i as int);
        }
        if !contains_id(components, ids[i]) {
            proof {
                lemma_first_error_prefix(ids@, f, i + 1);
            }
            return Some(IrError::LineItemUnknownComponent(ids[i]));
        }
        i = i + 1;
    }
    proof {
        lemma_first_error_all(ids@, f);
    }
    None
}

impl BomIr {
    /// Projects the bill of materials, failing at the first line item that orders an
    /// unknown part or covers an unknown component, then at the first schematic
    /// component no line item covers.
    pub fn project(schematic: &SchematicIr, parts: &Vec<Part>, line_items: &Vec<BomLineItem>) -> (r: Result<
        Self,
        IrError,
    >)
        ensures
            match r {
                Ok(ir) => {
                    &&& bom_ir_error(schematic.components@, parts@, views(line_items@)) is None
                    &&& ir.schema_version == BOM_IR_SCHEMA_VERSION
                    &&& ir.schematic_ir_schema_version == schematic.schema_version
                    &&& ir.parts@ == parts@
                    &&& views(ir.line_items@) == views(line_items@)
                    &&& ir.components@ == schematic.components@
                },
                Err(e) => bom_ir_error(schematic.components@, parts@, views(line_items@)) == Some(e),
            },
    {
        let ghost comps = schematic.components@;
        let ghost si = views(line_items@);
        let ghost fi = |item: BomLineItemView| line_breach(parts@, comps, item);
        let ni = line_items.len();
        let mut i: usize = 0;
        while i < ni
            invariant
                ni == line_items@.len(),
                si == views(line_items@),
                comps == schematic.components@,
                fi == (|item: BomLineItemView| line_breach(parts@, comps, item)),
                i <= ni,
                first_error(si.take(i as int), fi) is None,
            decreases ni - i,
        {
            proof {
                lemma_first_error_step(si, fi, i as int);
            }
            let item = &line_items[i];
            if !contains_id(parts, item.part) {
                proof {
                    lemma_first_error_prefix(si, fi, i + 1);
                }
                return Err(IrError::UnknownPart(item.part));
            }
            match first_unknown_covered(&schematic.components, &item.components) {
                Some(e) => {
                    proof {
                        lemma_first_error_prefix(si, fi, i + 1);
                    }
                    return Err(e);
                },
                None => {},
            }
            i = i + 1;
        }
        proof {
            lemma_first_error_all(si, fi);
        }
        let ghost fc = |c: Component| uncovered_breach(views(line_items@), c);
        let nc = schematic.components.len();
        let mut j: usize = 0;
        while j < nc
            invariant
                nc == comps.len(),
                comps == schematic.components@,
                fc == (|c: Component| uncovered_breach(views(line_items@), c)),
                first_error(views(line_items@), |item: BomLineItemView| line_breach(parts@, schematic.components@, item)) is None,
                j <= nc,
                first_error(comps.take(j as int), fc) is None,
            decreases nc - j,
        {
            proof {
                lemma_first_error_step(comps, fc, j as int);
            }
            let c = &schematic.components[j];
            if !line_known(line_items, c.id) {
                proof {
                    lemma_first_error_prefix(comps, fc, j + 1);
                }
                return Err(IrError::UncoveredComponent(c.id));
            }
            j = j + 1;
        }
        proof {
            lemma_first_error_all(comps, fc);
        }
        let ps = parts.clone();
        let ls = line_items.clone();
        let cs = schematic.components.clone();
        proof {
            assert(ps@ =~= parts@);
            assert(views(ls@) =~= views(line_items@));
            assert(cs@ =~= schematic.components@);
        }
        Ok(
            BomIr {
                schema_version: BOM_IR_SCHEMA_VERSION,
                schematic_ir_schema_version: schematic.schema_version,
                parts: ps,
                line_items: ls,
                components: cs,
            },
        )
    }
}


// ------------------------------------------------------------------------------------
// PCB IR
// ------------------------------------------------------------------------------------

pub open spec fn placed(placements: Seq<Placement>, cid: EntityId) -> bool {
    exists|i: int| 0 <= i < placements.len() && (#[trigger] placements[i]).component == cid
}

pub open spec fn placement_breach(components: Seq<Component>, p: Placement) -> Option<IrError> {
    if !has_id(components, p.component) {
        Some(IrError::PlacementUnknownComponent(p.component))
    } else {
        None
    }
}

pub open spec fn unplaced_breach(placements: Seq<Placement>, c: Component) -> Option<IrError> {
    if !placed(placements, c.id) {
        Some(IrError::UnplacedComponent(c.id))
    } else {
        None
    }
}

pub open spec fn track_breach(nets: Seq<NetView>, t: Track) -> Option<IrError> {
    if !has_net(nets, t.net) {
        Some(IrError::TrackUnknownNet(t.net))
    } else {
        None
    }
}

/// No board; else the first placement binding an unknown component; else the first
/// schematic component left unplaced; else the first track on an unknown net.
pub open spec fn pcb_ir_error(
    components: Seq<Component>,
    nets: Seq<NetView>,
    board: Option<BoardView>,
    placements: Seq<Placement>,
    tracks: Seq<Track>,
) -> Option<IrError> {
    if board is None {
        Some(IrError::NoBoard)
    } else {
        match first_error(placements, |p: Placement| placement_breach(components, p)) {
            Some(e) => Some(e),
            None => match first_error(components, |c: Component| unplaced_breach(placements, c)) {
                Some(e) => Some(e),
                None => first_error(tracks, |t: Track| track_breach(nets, t)),
            },
        }
    }
}

/// The board, placements and tracks at the boundary out of Component Placement, and
/// once routed, out of Routing Planning.
pub struct PcbIr {
    pub schema_version: u32,
    pub schematic_ir_schema_version: u32,
    pub board: Board,
    pub placements: Vec<Placement>,
    pub tracks: Vec<Track>,
    pub components: Vec<Component>,
}

fn any_placed(placements: &Vec<Placement>, cid: EntityId) -> (r: bool)
    ensures
        r == placed(placements@, cid),
{
    let n = placements.len();
    let mut i: usize = 0;
    while i < n
        invariant
            n == placements@.len(),
            i <= n,
            forall|k: int| 0 <= k < i ==> (#[trigger] placements@[k]).component != cid,
        decreases n - i,
    {
        if placements[i].component == cid {
            assert(placements@[i as int].component == cid);
            return true;
        }
        i = i + 1;
    }
    false
}

pub open spec fn board_views(b: Option<&Board>) -> Option<BoardView> {
    match b {
        Some(x) => Some(x@),
        None => None,
    }
}

impl PcbIr {
    /// Projects the layout, failing without a board, then at the first placement of an
    /// unknown component, then at the first unplaced schematic component, then at the
    /// first track on an unknown net. Unrouted nets are not a breach here.
    pub fn project(
        schematic: &SchematicIr,
        board: Option<&Board>,
        placements: &Vec<Placement>,
        tracks: &Vec<Track>,
    ) -> (r: Result<Self, IrError>)
        ensures
            match r {
                Ok(ir) => {
                    &&& pcb_ir_error(
                        schematic.components@,
                        views(schematic.nets@),
                        board_views(board),
                        placements@,
                        tracks@,
                    ) is None
                    &&& ir.schema_version == PCB_IR_SCHEMA_VERSION
                    &&& ir.schematic_ir_schema_version == schematic.schema_version
                    &&& Some(ir.board@) == board_views(board)
                    &&& ir.placements@ == placements@
                    &&& ir.tracks@ == tracks@
                    &&& ir.components@ == schematic.components@
                },
                Err(e) => pcb_ir_error(
                    schematic.components@,
                    views(schematic.nets@),
                    board_views(board),
                    placements@,
                    tracks@,
                ) == Some(e),
            },
    {
        let the_board = match board {
            Some(b) => b,
            None => {
                return Err(IrError::NoBoard);
            },
        };
        let ghost comps = schematic.components@;
        let ghost fp = |p: Placement| placement_breach(comps, p);
        let np = placements.len();
        let mut i: usize = 0;
        while i < np
            invariant
                np == placements@.len(),
                comps == schematic.components@,
                fp == (|p: Placement| placement_breach(comps, p)),
                board is Some,
                i <= np,
                first_error(placements@.take(i as int), fp) is None,
            decreases np - i,
        {
            proof {
                lemma_first_error_step(placements@, fp, i as int);
            }
            if !contains_id(&schematic.components, placements[i].component) {
                proof {
                    lemma_first_error_prefix(placements@, fp, i + 1);
                }
                return Err(IrError::PlacementUnknownComponent(placements[i].component));
            }
            i = i + 1;
        }
        proof {
            lemma_first_error_all(placements@, fp);
        }
        let ghost fc = |c: Component| unplaced_breach(placements@, c);
        let nc = schematic.components.len();
        let mut j: usize = 0;
        while j < nc
            invariant
                nc == comps.len(),
                comps == schematic.components@,
                fc == (|c: Component| unplaced_breach(placements@, c)),
                board is Some,
                first_error(placements@, |p: Placement| placement_breach(schematic.components@, p)) is None,
                j <= nc,
                first_error(comps.take(j as int), fc) is None,
            decreases nc - j,
        {
            proof {
                lemma_first_error_step(comps, fc, j as int);
            }
            if !any_placed(placements, schematic.components[j].id) {
                proof {
                    lemma_first_error_prefix(comps, fc, j + 1);
                }
                return Err(IrError::UnplacedComponent(schematic.components[j].id));
            }
            j = j + 1;
        }
        proof {
            lemma_first_error_all(comps, fc);
        }
        let ghost ft = |t: Track| track_breach(views(schematic.nets@), t);
        let nt = tracks.len();
        let mut k: usize = 0;
        while k < nt
            invariant
                nt == tracks@.len(),
                ft == (|t: Track| track_breach(views(schematic.nets@), t)),
                board is Some,
                first_error(placements@, |p: Placement| placement_breach(schematic.components@, p)) is None,
                first_error(schematic.components@, |c: Component| unplaced_breach(placements@, c)) is None,
                k <= nt,
                first_error(tracks@.take(k as int), ft) is None,
            decreases nt - k,
        {
            proof {
                lemma_first_error_step(tracks@, ft, k as int);
            }
            if !net_known(&schematic.nets, tracks[k].net) {
                proof {
                    lemma_first_error_prefix(tracks@, ft, k + 1);
                }
                return Err(IrError::TrackUnknownNet(tracks[k].net));
            }
            k = k + 1;
        }
        proof {
            lemma_first_error_all(tracks@, ft);
        }
        let ps = placements.clone();
        let ts = tracks.clone();
        let cs = schematic.components.clone();
        proof {
            assert(ps@ =~= placements@);
            assert(ts@ =~= tracks@);
            assert(cs@ =~= schematic.components@);
        }
        Ok(
            PcbIr {
                schema_version: PCB_IR_SCHEMA_VERSION,
                schematic_ir_schema_version: schematic.schema_version,
                board: the_board.clone(),
                placements: ps,
                tracks: ts,
                components: cs,
            },
        )
    }
}

// ------------------------------------------------------------------------------------
// Manufacturing IR
// ------------------------------------------------------------------------------------

/// One pick-and-place directive: a placed component's reference designator bound to the
/// manufacturer part number it is built from.
#[derive(Debug, Clone, PartialEq, Eq)]
pub struct PartAssignment {
    pub component: EntityId,
    pub refdes: String,
    pub mpn: String,
}

pub open spec fn covering(cid: EntityId) -> spec_fn(BomLineItemView) -> bool {
    |li: BomLineItemView| li.components.contains(cid)
}

/// The directive for one placement: its component, the first line item sourcing that
/// component, and the part that line orders; or the first of these that is missing.
pub open spec fn assignment(
    components: Seq<Component>,
    items: Seq<BomLineItemView>,
    parts: Seq<Part>,
    p: Placement,
) -> Result<PartAssignment, IrError> {
    match by_id(components, p.component) {
        None => Err(IrError::PlacementUnknownComponent(p.component)),
        Some(c) => match crate::lookup::first_where(items, covering(c.id)) {
            None => Err(IrError::UnsourcedPlacement(c.id)),
            Some(l) => match by_id(parts, items[l].part) {
                None => Err(IrError::UnknownPart(items[l].part)),
                Some(part) => Ok(PartAssignment { component: c.id, refdes: c.refdes, mpn: part.mpn }),
            },
        },
    }
}

pub open spec fn assignment_breach(
    components: Seq<Component>,
    items: Seq<BomLineItemView>,
    parts: Seq<Part>,
    p: Placement,
) -> Option<IrError> {
    match assignment(components, items, parts, p) {
        Ok(_) => None,
        Err(e) => Some(e),
    }
}

/// The manufacturing dataset: outline and copper, pick-and-place geometry with its
/// part bindings, and the procurement lines.
pub struct ManufacturingIr {
    pub schema_version: u32,
    pub pcb_ir_schema_version: u32,
    pub bom_ir_schema_version: u32,
    pub board: Board,
    pub placements: Vec<Placement>,
    pub assignments: Vec<PartAssignment>,
    pub copper: Vec<Track>,
    pub line_items: Vec<BomLineItem>,
}

fn first_line_covering(items: &Vec<BomLineItem>, cid: EntityId) -> (r: Option<usize>)
    ensures
        match r {
            Some(i) => crate::lookup::first_where(views(items@), covering(cid)) == Some(i as int) && i
                < items@.len(),
            None => crate::lookup::first_where(views(items@), covering(cid)) is None,
        },
{
    let ghost s = views(items@);
    let n = items.len();
    let mut i: usize = 0;
    while i < n
        invariant
            n == items@.len(),
            s == views(items@),
            i <= n,
            forall|j: int| 0 <= j < i ==> !covering(cid)(#[trigger] s[j]),
        decreases n - i,
    {
        if ids_contain(&items[i].components, cid) {
            proof {
                assert(covering(cid)(s[i as int]));
                crate::lookup::lemma_first_where_at(s, covering(cid), i as int);
            }
            return Some(i);
        }
        i = i + 1;
    }
    proof {
        crate::lookup::lemma_first_where_none(s, covering(cid));
    }
    None
}

impl ManufacturingIr {
    /// Joins the routed layout and the bill of materials: every placement, in order,
    /// becomes a directive carrying its component's reference designator and the part
    /// number of the first line item that sources it; the first placement that cannot be
    /// resolved fails the projection.
    pub fn project(pcb: &PcbIr, bom: &BomIr) -> (r: Result<Self, IrError>)
        ensures
            match r {
                Ok(ir) => {
                    &&& first_error(
                        pcb.placements@,
                        |p: Placement| assignment_breach(pcb.components@, views(bom.line_items@), bom.parts@, p),
                    ) is None
                    &&& ir.assignments@.len() == pcb.placements@.len()
                    &&& forall|i: int|
                        0 <= i < pcb.placements@.len() ==> assignment(
                            pcb.components@,
                            views(bom.line_items@),
                            bom.parts@,
                            #[trigger] pcb.placements@[i],
                        ) == Ok::<PartAssignment, IrError>(ir.assignments@[i])
                    &&& ir.schema_version == MANUFACTURING_IR_SCHEMA_VERSION
                    &&& ir.pcb_ir_schema_version == pcb.schema_version
                    &&& ir.bom_ir_schema_version == bom.schema_version
                    &&& ir.board@ == pcb.board@
                    &&& ir.placements@ == pcb.placements@
                    &&& ir.copper@ == pcb.tracks@
                    &&& views(ir.line_items@) == views(bom.line_items@)
                },
                Err(e) => first_error(
                    pcb.placements@,
                    |p: Placement| assignment_breach(pcb.components@, views(bom.line_items@), bom.parts@, p),
                ) == Some(e),
            },
    {
        let ghost items = views(bom.line_items@);
        let ghost f = |p: Placement| assignment_breach(pcb.components@, items, bom.parts@, p);
        let mut assignments: Vec<PartAssignment> = Vec::new();
        let n = pcb.placements.len();
        let mut i: usize = 0;
        while i < n
            invariant
                n == pcb.placements@.len(),
                items == views(bom.line_items@),
                f == (|p: Placement| assignment_breach(pcb.components@, items, bom.parts@, p)),
                i <= n,
                first_error(pcb.placements@.take(i as int), f) is None,
                assignments@.len() == i,
                forall|k: int|
                    0 <= k < i ==> assignment(pcb.components@, items, bom.parts@, #[trigger] pcb.placements@[k])
                        == Ok::<PartAssignment, IrError>(assignments@[k]),
            decreases n - i,
        {
            proof {
                lemma_first_error_step(pcb.placements@, f, i as int);
            }
            let pl = pcb.placements[i];
            let component = match find_by_id(&pcb.components, pl.component) {
                Some(c) => c,
                None => {
                    proof {
                        lemma_first_error_prefix(pcb.placements@, f, i + 1);
                    }
                    return Err(IrError::PlacementUnknownComponent(pl.component));
                },
            };
            let line = match first_line_covering(&bom.line_items, component.id) {
                Some(l) => l,
                None => {
                    proof {
                        lemma_first_error_prefix(pcb.placements@, f, i + 1);
                    }
                    return Err(IrError::UnsourcedPlacement(component.id));
                },
            };
            let part_id = bom.line_items[line].part;
            assert(items[line as int].part == part_id);
            let part = match find_by_id(&bom.parts, part_id) {
                Some(p) => p,
                None => {
                    proof {
                        lemma_first_error_prefix(pcb.placements@, f, i + 1);
                    }
                    return Err(IrError::UnknownPart(part_id));
                },
            };
            let a = PartAssignment {
                component: component.id,
                refdes: component.refdes.clone(),
                mpn: part.mpn.clone(),
            };
            assignments.push(a);
            i = i + 1;
        }
        proof {
            lemma_first_error_all(pcb.placements@, f);
        }
        let ps = pcb.placements.clone();
        let cu = pcb.tracks.clone();
        let ls = bom.line_items.clone();
        proof {
            assert(ps@ =~= pcb.placements@);
            assert(cu@ =~= pcb.tracks@);
            assert(views(ls@) =~= views(bom.line_items@));
        }
        Ok(
            ManufacturingIr {
                schema_version: MANUFACTURING_IR_SCHEMA_VERSION,
                pcb_ir_schema_version: pcb.schema_version,
                bom_ir_schema_version: bom.schema_version,
                board: pcb.board.clone(),
                placements: ps,
                assignments,
                copper: cu,
                line_items: ls,
            },
        )
    }
}

} // verus!
