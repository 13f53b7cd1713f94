//! The engineering domain model: identities, entities, and their intrinsic invariants.
//!
//! Entities that hold a list carry a view in which the list is a `Seq`, so that a copy
//! of an entity can be stated equal to the entity it was copied from.

use vstd::prelude::*;
use crate::text::{hex_digits, hex_text, is_blank, str_is_blank};
use crate::units::{Magnitude, PhysicalQuantity};

verus! {

/// Opaque, immutable identity. The value 0 is the reserved null sentinel.
#[derive(Debug, Clone, Copy, PartialEq, Eq, PartialOrd, Ord, Hash, Structural)]
pub struct EntityId(pub u128);

impl EntityId {
    /// The reserved null identity.
    pub fn null() -> (r: EntityId)
        ensures
            r.0 == 0,
    {
        EntityId(0)
    }

    pub fn is_null(self) -> (r: bool)
        ensures
            r == (self.0 == 0),
    {
        self.0 == 0
    }

    /// All 32 lower-case hexadecimal digits of the id.
    pub fn to_hex(self) -> (s: String)
        ensures
            s@ == hex_digits(self.0 as nat, 32),
    {
        hex_text(self.0, 32)
    }

    /// The short 8-digit form used in human-facing text: the low 32 bits in hexadecimal.
    pub fn short(self) -> (s: String)
        ensures
            s@ == short_hex(self),
    {
        hex_text(self.0, 8)
    }
}

/// The short form of an id.
/// Law (hexadecimal form): an id's hexadecimal form is exactly 32 lower-case hexadecimal
/// digits, and read back it gives the id.
pub proof fn lemma_to_hex_law(id: EntityId)
    ensures
        hex_digits(id.0 as nat, 32).len() == 32,
        forall|i: int| 0 <= i < 32 ==> crate::text::is_hex_char(#[trigger] hex_digits(id.0 as nat, 32)[i]),
        crate::text::parse_hex(hex_digits(id.0 as nat, 32)) == id.0,
{
    crate::text::lemma_hex_digits_law(id.0 as nat, 32);
    reveal_with_fuel(crate::text::pow16, 33);
    assert(crate::text::pow16(32) == 0x1_0000_0000_0000_0000_0000_0000_0000_0000int);
}

pub open spec fn short_hex(id: EntityId) -> Seq<char> {
    hex_digits(id.0 as nat, 8)
}

#[derive(Debug, Clone, Copy, PartialEq, Eq, Hash, Structural)]
pub enum RequirementCategory {
    Functional,
    Electrical,
    Mechanical,
    Thermal,
    Regulatory,
    /// Fabrication and assembly process limits (the process floors DRC reads).
    Fabrication,
    Cost,
    Schedule,
}

#[derive(Debug, Clone, Copy, PartialEq, Eq, Hash, Structural)]
pub enum RequirementStatus {
    Proposed,
    Accepted,
    Satisfied,
    Violated,
    Waived,
}

#[derive(Debug, Clone, Copy, PartialEq, Eq, Hash, Structural)]
pub enum Priority {
    High,
    Medium,
    Low,
}

#[derive(Debug, Clone, Copy, PartialEq, Eq, Hash, Structural)]
pub enum RelationType {
    DerivedFrom,
    JustifiedBy,
    BasedOnReasoning,
    Supports,
    TracesTo,
    Supersedes,
}

#[derive(Debug, Clone, Copy, PartialEq, Eq, Hash, Structural)]
pub enum EvidenceKind {
    DesignIntentSource,
    StandardClause,
    PriorDesign,
    DatasheetParameter,
    ReviewNote,
}

/// The originating goal, preserved verbatim.
#[derive(Debug, PartialEq)]
pub struct DesignIntent {
    pub id: EntityId,
    pub statement: String,
    pub structured_summary: String,
    pub source: String,
}

impl Clone for DesignIntent {
    fn clone(&self) -> (r: Self)
        ensures
            r == *self,
    {
        DesignIntent {
            id: self.id,
            statement: self.statement.clone(),
            structured_summary: self.structured_summary.clone(),
            source: self.source.clone(),
        }
    }
}

/// A single testable statement the design must satisfy.
#[derive(Debug, PartialEq)]
pub struct Requirement {
    pub id: EntityId,
    pub statement: String,
    pub category: RequirementCategory,
    pub priority: Priority,
    pub acceptance_criterion: String,
    pub status: RequirementStatus,
    /// The intent (or other entity) this requirement is rooted in.
    pub source: EntityId,
    /// Typed physical targets.
    pub targets: Vec<PhysicalQuantity>,
}

pub struct RequirementView {
    pub id: EntityId,
    pub statement: String,
    pub category: RequirementCategory,
    pub priority: Priority,
    pub acceptance_criterion: String,
    pub status: RequirementStatus,
    pub source: EntityId,
    pub targets: Seq<PhysicalQuantity>,
}

impl View for Requirement {
    type V = RequirementView;

    open spec fn view(&self) -> RequirementView {
        RequirementView {
            id: self.id,
            statement: self.statement,
            category: self.category,
            priority: self.priority,
            acceptance_criterion: self.acceptance_criterion,
            status: self.status,
            source: self.source,
            targets: self.targets@,
        }
    }
}

impl Clone for Requirement {
    fn clone(&self) -> (r: Self)
        ensures
            r@ == self@,
    {
        let targets = self.targets.clone();
        proof {
            assert(targets@ =~= self.targets@);
        }
        Requirement {
            id: self.id,
            statement: self.statement.clone(),
            category: self.category,
            priority: self.priority,
            acceptance_criterion: self.acceptance_criterion.clone(),
            status: self.status,
            source: self.source,
            targets,
        }
    }
}

/// The justification for a design-significant change.
#[derive(Debug, PartialEq)]
pub struct Decision {
    pub id: EntityId,
    pub subject: EntityId,
    pub rationale: String,
    pub decider: String,
    /// Sequence number of the recorded reasoning call this decision relied on.
    pub reasoning_call_seq: Option<u64>,
    pub evidence: Vec<EntityId>,
    pub confidence: Magnitude,
}

pub struct DecisionView {
    pub id: EntityId,
    pub subject: EntityId,
    pub rationale: String,
    pub decider: String,
    pub reasoning_call_seq: Option<u64>,
    pub evidence: Seq<EntityId>,
    pub confidence: Magnitude,
}

impl View for Decision {
    type V = DecisionView;

    open spec fn view(&self) -> DecisionView {
        DecisionView {
            id: self.id,
            subject: self.subject,
            rationale: self.rationale,
            decider: self.decider,
            reasoning_call_seq: self.reasoning_call_seq,
            evidence: self.evidence@,
            confidence: self.confidence,
        }
    }
}

impl Clone for Decision {
    fn clone(&self) -> (r: Self)
        ensures
            r@ == self@,
    {
        let evidence = self.evidence.clone();
        proof {
            assert(evidence@ =~= self.evidence@);
        }
        Decision {
            id: self.id,
            subject: self.subject,
            rationale: self.rationale.clone(),
            decider: self.decider.clone(),
            reasoning_call_seq: self.reasoning_call_seq,
            evidence,
            confidence: self.confidence,
        }
    }
}

/// A fact supporting a [`Decision`].
#[derive(Debug, PartialEq)]
pub struct Evidence {
    pub id: EntityId,
    pub kind: EvidenceKind,
    pub content_reference: String,
    pub source: String,
    pub reliability: Magnitude,
}

impl Clone for Evidence {
    fn clone(&self) -> (r: Self)
        ensures
            r == *self,
    {
        Evidence {
            id: self.id,
            kind: self.kind,
            content_reference: self.content_reference.clone(),
            source: self.source.clone(),
            reliability: self.reliability,
        }
    }
}

/// A first-class, addressed relationship: an edge of the provenance graph.
#[derive(Debug, Clone, Copy, PartialEq, Eq, Structural)]
pub struct ProvenanceLink {
    pub id: EntityId,
    pub from: EntityId,
    pub to: EntityId,
    pub relation: RelationType,
}

/// Comparison sense of a [`Constraint`]'s bound.
#[derive(Debug, Clone, Copy, PartialEq, Eq, Hash, Structural)]
pub enum ConstraintKind {
    Max,
    Min,
    Equal,
}

/// Lifecycle of a [`Constraint`]: never deleted, only superseded.
#[derive(Debug, Clone, Copy, PartialEq, Eq, Hash, Structural)]
pub enum ConstraintStatus {
    Active,
    Superseded,
}

/// A machine-checkable bound on a requirement's physical target.
#[derive(Debug, PartialEq)]
pub struct Constraint {
    pub id: EntityId,
    pub statement: String,
    pub subject_requirement: EntityId,
    pub kind: ConstraintKind,
    pub bound: PhysicalQuantity,
    pub source: EntityId,
    pub status: ConstraintStatus,
}

impl Clone for Constraint {
    fn clone(&self) -> (r: Self)
        ensures
            r == *self,
    {
        Constraint {
            id: self.id,
            statement: self.statement.clone(),
            subject_requirement: self.subject_requirement,
            kind: self.kind,
            bound: self.bound,
            source: self.source,
            status: self.status,
        }
    }
}

impl Constraint {
    pub fn is_active(&self) -> (r: bool)
        ensures
            r == (self.status == ConstraintStatus::Active),
    {
        self.status == ConstraintStatus::Active
    }

    /// A constraint carries a non-blank statement.
    pub fn validate(&self) -> (r: Result<(), DomainError>)
        ensures
            r == constraint_check(self),
    {
        if str_is_blank(self.statement.as_str()) {
            return Err(DomainError::EmptyStatement);
        }
        Ok(())
    }
}

pub open spec fn constraint_check(c: &Constraint) -> Result<(), DomainError> {
    if is_blank(c.statement@) {
        Err(DomainError::EmptyStatement)
    } else {
        Ok(())
    }
}

/// How serious a [`Violation`] is. Only `Error` can block a workflow.
#[derive(Debug, Clone, Copy, PartialEq, Eq, Hash, Structural)]
pub enum ViolationSeverity {
    Error,
    Warning,
    Info,
}

/// Lifecycle of a [`Violation`].
#[derive(Debug, Clone, Copy, PartialEq, Eq, Hash, Structural)]
pub enum ViolationStatus {
    Open,
    Waived,
    Resolved,
}

/// A detected breach of a verification rule, addressed and traceable via its subjects.
#[derive(Debug, PartialEq)]
pub struct Violation {
    pub id: EntityId,
    pub rule: String,
    pub severity: ViolationSeverity,
    pub subjects: Vec<EntityId>,
    pub message: String,
    pub status: ViolationStatus,
}

pub struct ViolationView {
    pub id: EntityId,
    pub rule: String,
    pub severity: ViolationSeverity,
    pub subjects: Seq<EntityId>,
    pub message: String,
    pub status: ViolationStatus,
}

impl View for Violation {
    type V = ViolationView;

    open spec fn view(&self) -> ViolationView {
        ViolationView {
            id: self.id,
            rule: self.rule,
            severity: self.severity,
            subjects: self.subjects@,
            message: self.message,
            status: self.status,
        }
    }
}

impl Clone for Violation {
    fn clone(&self) -> (r: Self)
        ensures
            r@ == self@,
    {
        let subjects = self.subjects.clone();
        proof {
            assert(subjects@ =~= self.subjects@);
        }
        Violation {
            id: self.id,
            rule: self.rule.clone(),
            severity: self.severity,
            subjects,
            message: self.message.clone(),
            status: self.status,
        }
    }
}

/// A violation blocks iff it is an open error.
pub open spec fn blocking(v: ViolationView) -> bool {
    v.severity == ViolationSeverity::Error && v.status == ViolationStatus::Open
}

impl Violation {
    pub fn is_blocking(&self) -> (r: bool)
        ensures
            r == blocking(self@),
    {
        self.severity == ViolationSeverity::Error && self.status == ViolationStatus::Open
    }
}

/// A recorded decision to accept a [`Violation`] rather than fix it.
#[derive(Debug, PartialEq)]
pub struct Waiver {
    pub id: EntityId,
    pub violation: EntityId,
    pub justification: String,
    pub decided_by: String,
}

impl Clone for Waiver {
    fn clone(&self) -> (r: Self)
        ensures
            r == *self,
    {
        Waiver {
            id: self.id,
            violation: self.violation,
            justification: self.justification.clone(),
            decided_by: self.decided_by.clone(),
        }
    }
}

/// A unit of design intent realized in the architecture.
#[derive(Debug, PartialEq)]
pub struct FunctionalBlock {
    pub id: EntityId,
    pub name: String,
    pub function: String,
    pub requirements: Vec<EntityId>,
}

pub struct FunctionalBlockView {
    pub id: EntityId,
    pub name: String,
    pub function: String,
    pub requirements: Seq<EntityId>,
}

impl View for FunctionalBlock {
    type V = FunctionalBlockView;

    open spec fn view(&self) -> FunctionalBlockView {
        FunctionalBlockView {
            id: self.id,
            name: self.name,
            function: self.function,
            requirements: self.requirements@,
        }
    }
}

impl Clone for FunctionalBlock {
    fn clone(&self) -> (r: Self)
        ensures
            r@ == self@,
    {
        let requirements = self.requirements.clone();
        proof {
            assert(requirements@ =~= self.requirements@);
        }
        FunctionalBlock {
            id: self.id,
            name: self.name.clone(),
            function: self.function.clone(),
            requirements,
        }
    }
}

impl FunctionalBlock {
    /// A block carries a non-blank name.
    pub fn validate(&self) -> (r: Result<(), DomainError>)
        ensures
            r == blank_field_check(self.name@, "functional block name"),
    {
        if str_is_blank(self.name.as_str()) {
            return Err(DomainError::EmptyField("functional block name"));
        }
        Ok(())
    }
}

/// `Err(EmptyField(label))` when `text` is blank, `Ok` otherwise.
pub open spec fn blank_field_check(text: Seq<char>, label: &'static str) -> Result<(), DomainError> {
    if is_blank(text) {
        Err(DomainError::EmptyField(label))
    } else {
        Ok(())
    }
}

#[derive(Debug, Clone, Copy, PartialEq, Eq, Hash, Structural)]
pub enum ComponentClass {
    Connector,
    Regulator,
    Ic,
    Resistor,
    Capacitor,
}

#[derive(Debug, Clone, Copy, PartialEq, Eq, Hash, Structural)]
pub enum PinElectricalType {
    PowerIn,
    PowerOut,
    Input,
    Output,
    Bidirectional,
    Passive,
    Ground,
    NoConnect,
}

#[derive(Debug, Clone, Copy, PartialEq, Eq, Hash, Structural)]
pub enum NetClass {
    Power,
    Ground,
    Signal,
}

/// A concrete part realizing some of a block's function.
#[derive(Debug, PartialEq)]
pub struct Component {
    pub id: EntityId,
    pub refdes: String,
    pub class: ComponentClass,
    pub value: Option<PhysicalQuantity>,
    pub from_block: EntityId,
}

impl Clone for Component {
    fn clone(&self) -> (r: Self)
        ensures
            r == *self,
    {
        Component {
            id: self.id,
            refdes: self.refdes.clone(),
            class: self.class,
            value: self.value,
            from_block: self.from_block,
        }
    }
}

impl Component {
    /// A component carries a non-blank reference designator.
    pub fn validate(&self) -> (r: Result<(), DomainError>)
        ensures
            r == blank_field_check(self.refdes@, "component reference designator"),
    {
        if str_is_blank(self.refdes.as_str()) {
            return Err(DomainError::EmptyField("component reference designator"));
        }
        Ok(())
    }
}

/// An addressed terminal of a component.
#[derive(Debug, PartialEq)]
pub struct Pin {
    pub id: EntityId,
    pub component: EntityId,
    pub designation: String,
    pub electrical_type: PinElectricalType,
}

impl Clone for Pin {
    fn clone(&self) -> (r: Self)
        ensures
            r == *self,
    {
        Pin {
            id: self.id,
            component: self.component,
            designation: self.designation.clone(),
            electrical_type: self.electrical_type,
        }
    }
}

/// A first-class electrical connection joining a set of pins.
#[derive(Debug, PartialEq)]
pub struct Net {
    pub id: EntityId,
    pub name: String,
    pub class: NetClass,
    pub members: Vec<EntityId>,
}

pub struct NetView {
    pub id: EntityId,
    pub name: String,
    pub class: NetClass,
    pub members: Seq<EntityId>,
}

impl View for Net {
    type V = NetView;

    open spec fn view(&self) -> NetView {
        NetView { id: self.id, name: self.name, class: self.class, members: self.members@ }
    }
}

impl Clone for Net {
    fn clone(&self) -> (r: Self)
        ensures
            r@ == self@,
    {
        let members = self.members.clone();
        proof {
            assert(members@ =~= self.members@);
        }
        Net { id: self.id, name: self.name.clone(), class: self.class, members }
    }
}

impl Net {
    /// A net carries a non-blank name.
    pub fn validate(&self) -> (r: Result<(), DomainError>)
        ensures
            r == blank_field_check(self.name@, "net name"),
    {
        if str_is_blank(self.name.as_str()) {
            return Err(DomainError::EmptyField("net name"));
        }
        Ok(())
    }
}

/// Procurement lifecycle of a [`Part`].
#[derive(Debug, Clone, Copy, PartialEq, Eq, Hash, Structural)]
pub enum PartLifecycle {
    Active,
    Nrnd,
    Eol,
}

/// A concrete, orderable part identified by its manufacturer part number.
#[derive(Debug, PartialEq)]
pub struct Part {
    pub id: EntityId,
    pub mpn: String,
    pub manufacturer: String,
    pub lifecycle: PartLifecycle,
    pub datasheet: String,
}

impl Clone for Part {
    fn clone(&self) -> (r: Self)
        ensures
            r == *self,
    {
        Part {
            id: self.id,
            mpn: self.mpn.clone(),
            manufacturer: self.manufacturer.clone(),
            lifecycle: self.lifecycle,
            datasheet: self.datasheet.clone(),
        }
    }
}

impl Part {
    /// A part carries a non-blank manufacturer part number.
    pub fn validate(&self) -> (r: Result<(), DomainError>)
        ensures
            r == blank_field_check(self.mpn@, "manufacturer part number"),
    {
        if str_is_blank(self.mpn.as_str()) {
            return Err(DomainError::EmptyField("manufacturer part number"));
        }
        Ok(())
    }
}

/// A binding of one [`Part`] to the components it realizes, with a build quantity.
#[derive(Debug, PartialEq)]
pub struct BomLineItem {
    pub id: EntityId,
    pub part: EntityId,
    pub components: Vec<EntityId>,
    pub quantity: u32,
}

pub struct BomLineItemView {
    pub id: EntityId,
    pub part: EntityId,
    pub components: Seq<EntityId>,
    pub quantity: u32,
}

impl View for BomLineItem {
    type V = BomLineItemView;

    open spec fn view(&self) -> BomLineItemView {
        BomLineItemView {
            id: self.id,
            part: self.part,
            components: self.components@,
            quantity: self.quantity,
        }
    }
}

impl Clone for BomLineItem {
    fn clone(&self) -> (r: Self)
        ensures
            r@ == self@,
    {
        let components = self.components.clone();
        proof {
            assert(components@ =~= self.components@);
        }
        BomLineItem { id: self.id, part: self.part, components, quantity: self.quantity }
    }
}

/// No value occurs twice.
pub open spec fn no_duplicates<T>(s: Seq<T>) -> bool {
    forall|i: int, j: int| 0 <= i < j < s.len() ==> s[i] != s[j]
}

pub open spec fn bom_line_item_check(item: BomLineItemView) -> Result<(), DomainError> {
    if item.components.len() == 0 {
        Err(DomainError::EmptyField("BOM line item components"))
    } else if item.quantity as int != item.components.len() {
        Err(DomainError::Inconsistent("BOM line item quantity must equal the number of components it covers"))
    } else if !no_duplicates(item.components) {
        Err(DomainError::Inconsistent("BOM line item lists a component more than once"))
    } else {
        Ok(())
    }
}

impl BomLineItem {
    /// A line covers at least one component, its quantity equals the number of
    /// components it covers, and it lists no component twice.
    pub fn validate(&self) -> (r: Result<(), DomainError>)
        ensures
            r == bom_line_item_check(self@),
    {
        if self.components.len() == 0 {
            return Err(DomainError::EmptyField("BOM line item components"));
        }
        if self.quantity as usize != self.components.len() {
            return Err(
                DomainError::Inconsistent(
                    "BOM line item quantity must equal the number of components it covers",
                ),
            );
        }
        let n = self.components.len();
        let mut i: usize = 0;
        while i < n
            invariant
                n == self.components@.len(),
                n > 0,
                self.quantity as int == n,
                i <= n,
                forall|a: int, b: int| 0 <= a < i && a < b < n ==> self.components@[a] != self.components@[b],
            decreases n - i,
        {
            let mut j: usize = i + 1;
            while j < n
                invariant
                    n == self.components@.len(),
                    self.quantity as int == n,
                    i < n,
                    i + 1 <= j <= n,
                    forall|b: int| i < b < j ==> self.components@[i as int] != self.components@[b],
                decreases n - j,
            {
                if self.components[i] == self.components[j] {
                    assert(!no_duplicates(self.components@)) by {
                        assert(self.components@[i as int] == self.components@[j as int]);
                    }
                    return Err(
                        DomainError::Inconsistent("BOM line item lists a component more than once"),
                    );
                }
                j = j + 1;
            }
            i = i + 1;
        }
        Ok(())
    }
}

/// Which copper side of the board a placement or track sits on.
#[derive(Debug, Clone, Copy, PartialEq, Eq, Hash, Structural)]
pub enum BoardSide {
    Top,
    Bottom,
}

/// The role a copper layer plays in the stack.
#[derive(Debug, Clone, Copy, PartialEq, Eq, Hash, Structural)]
pub enum LayerRole {
    Signal,
    Plane,
}

/// One copper layer plus the dielectric beneath it.
#[derive(Debug, Clone, Copy, PartialEq, Eq, Structural)]
pub struct Layer {
    pub role: LayerRole,
    pub copper_thickness: PhysicalQuantity,
    pub dielectric_height: PhysicalQuantity,
    /// Relative permittivity of the dielectric.
    pub dielectric_er: Magnitude,
    /// Loss tangent of the dielectric.
    pub loss_tangent: Magnitude,
}

/// The board's copper and dielectric build-up, ordered top to bottom.
#[derive(Debug, PartialEq)]
pub struct LayerStack {
    pub layers: Vec<Layer>,
}

impl Clone for LayerStack {
    fn clone(&self) -> (r: Self)
        ensures
            r.layers@ == self.layers@,
    {
        let layers = self.layers.clone();
        proof {
            assert(layers@ =~= self.layers@);
        }
        LayerStack { layers }
    }
}

/// The physical board outline the design must fit within.
#[derive(Debug, PartialEq)]
pub struct Board {
    pub id: EntityId,
    pub width: PhysicalQuantity,
    pub height: PhysicalQuantity,
    pub stack: LayerStack,
}

pub struct BoardView {
    pub id: EntityId,
    pub width: PhysicalQuantity,
    pub height: PhysicalQuantity,
    pub layers: Seq<Layer>,
}

impl View for Board {
    type V = BoardView;

    open spec fn view(&self) -> BoardView {
        BoardView { id: self.id, width: self.width, height: self.height, layers: self.stack.layers@ }
    }
}

impl Clone for Board {
    fn clone(&self) -> (r: Self)
        ensures
            r@ == self@,
    {
        Board { id: self.id, width: self.width, height: self.height, stack: self.stack.clone() }
    }
}

impl Board {
    /// The number of copper layers in the stack.
    pub fn layers(&self) -> (n: u32)
        ensures
            n == self.stack.layers@.len() as u32,
    {
        self.stack.layers.len() as u32
    }
}

/// The placement of one component on the board.
#[derive(Debug, Clone, Copy, PartialEq, Eq, Structural)]
pub struct Placement {
    pub id: EntityId,
    pub component: EntityId,
    pub x: PhysicalQuantity,
    pub y: PhysicalQuantity,
    pub width: PhysicalQuantity,
    pub height: PhysicalQuantity,
    pub side: BoardSide,
}

/// A copper realization of one net: a straight trace on one board side.
#[derive(Debug, Clone, Copy, PartialEq, Eq, Structural)]
pub struct Track {
    pub id: EntityId,
    pub net: EntityId,
    pub layer: BoardSide,
    pub width: PhysicalQuantity,
    pub x1: PhysicalQuantity,
    pub y1: PhysicalQuantity,
    pub x2: PhysicalQuantity,
    pub y2: PhysicalQuantity,
}

/// A violated domain invariant.
#[derive(Debug, Clone, Copy, PartialEq, Eq)]
pub enum DomainError {
    EmptyStatement,
    /// A named, required text field was blank.
    EmptyField(&'static str),
    /// An entity's fields are internally inconsistent.
    Inconsistent(&'static str),
    AcceptedRequirementNeedsCriterion,
    AcceptedRequirementNeedsSource,
}

/// The human-readable text of a domain error.
pub open spec fn domain_error_text(e: DomainError) -> Seq<char> {
    match e {
        DomainError::EmptyStatement => "requirement statement is empty"@,
        DomainError::EmptyField(field) => field@ + " must not be empty"@,
        DomainError::Inconsistent(msg) => msg@,
        DomainError::AcceptedRequirementNeedsCriterion => "accepted requirement lacks an acceptance criterion"@,
        DomainError::AcceptedRequirementNeedsSource => "accepted requirement lacks a source"@,
    }
}

impl DomainError {
    /// The error's message.
    pub fn message(&self) -> (s: String)
        ensures
            s@ == domain_error_text(*self),
    {
        match self {
            DomainError::EmptyStatement => String::from_str("requirement statement is empty"),
            DomainError::EmptyField(field) => String::from_str(field).concat(" must not be empty"),
            DomainError::Inconsistent(msg) => String::from_str(msg),
            DomainError::AcceptedRequirementNeedsCriterion => String::from_str(
                "accepted requirement lacks an acceptance criterion",
            ),
            DomainError::AcceptedRequirementNeedsSource => String::from_str(
                "accepted requirement lacks a source",
            ),
        }
    }
}

/// An accepted requirement is testable: its acceptance criterion is not blank.
pub open spec fn testable(r: RequirementView) -> bool {
    !is_blank(r.acceptance_criterion@)
}

pub open spec fn requirement_check(r: RequirementView) -> Result<(), DomainError> {
    if is_blank(r.statement@) {
        Err(DomainError::EmptyStatement)
    } else if r.status == RequirementStatus::Accepted && !testable(r) {
        Err(DomainError::AcceptedRequirementNeedsCriterion)
    } else if r.status == RequirementStatus::Accepted && r.source.0 == 0 {
        Err(DomainError::AcceptedRequirementNeedsSource)
    } else {
        Ok(())
    }
}

impl Requirement {
    pub fn is_testable(&self) -> (r: bool)
        ensures
            r == testable(self@),
    {
        !str_is_blank(self.acceptance_criterion.as_str())
    }

    /// An accepted requirement is testable and rooted in a source.
    pub fn validate(&self) -> (r: Result<(), DomainError>)
        ensures
            r == requirement_check(self@),
    {
        if str_is_blank(self.statement.as_str()) {
            return Err(DomainError::EmptyStatement);
        }
        if self.status == RequirementStatus::Accepted {
            if !self.is_testable() {
                return Err(DomainError::AcceptedRequirementNeedsCriterion);
            }
            if self.source.is_null() {
                return Err(DomainError::AcceptedRequirementNeedsSource);
            }
        }
        Ok(())
    }
}

} // verus!
