use eak::domain::{
    Component, ComponentClass, Constraint, ConstraintKind, ConstraintStatus, DomainError, EntityId,
    FunctionalBlock, Net, NetClass, Part, PartLifecycle, Priority, Requirement, RequirementCategory,
    RequirementStatus, Violation, ViolationSeverity, ViolationStatus,
};
use eak::units::{Magnitude, PhysicalQuantity, Unit};

fn q(v: f64, unit: Unit) -> PhysicalQuantity {
    PhysicalQuantity::new(Magnitude(v.to_bits()), unit)
}

fn req(status: RequirementStatus, crit: &str, source: EntityId) -> Requirement {
    Requirement {
        id: EntityId(1),
        statement: "Operating power shall not exceed 5 W".into(),
        category: RequirementCategory::Electrical,
        priority: Priority::High,
        acceptance_criterion: crit.into(),
        status,
        source,
        targets: vec![],
    }
}

#[test]
fn accepted_requirement_needs_criterion() {
    let r = req(RequirementStatus::Accepted, "", EntityId(2));
    assert_eq!(r.validate(), Err(DomainError::AcceptedRequirementNeedsCriterion));
}

#[test]
fn accepted_requirement_needs_source() {
    let r = req(RequirementStatus::Accepted, "measured power < 5 W", EntityId::null());
    assert_eq!(r.validate(), Err(DomainError::AcceptedRequirementNeedsSource));
}

#[test]
fn well_formed_accepted_requirement_validates() {
    let r = req(RequirementStatus::Accepted, "measured power < 5 W", EntityId(2));
    assert!(r.validate().is_ok());
    assert!(r.is_testable());
}

#[test]
fn proposed_requirement_may_lack_criterion() {
    let r = req(RequirementStatus::Proposed, "", EntityId(2));
    assert!(r.validate().is_ok());
}

#[test]
fn entity_id_null_is_reserved() {
    assert!(EntityId::null().is_null());
    assert!(!EntityId(1).is_null());
}

#[test]
fn constraint_rejects_empty_statement() {
    let c = Constraint {
        id: EntityId(1),
        statement: "   ".into(),
        subject_requirement: EntityId(2),
        kind: ConstraintKind::Max,
        bound: q(5.0, Unit::Watt),
        source: EntityId(2),
        status: ConstraintStatus::Active,
    };
    assert_eq!(c.validate(), Err(DomainError::EmptyStatement));
}

#[test]
fn well_formed_constraint_validates_and_is_active() {
    let c = Constraint {
        id: EntityId(1),
        statement: "power <= 5 W".into(),
        subject_requirement: EntityId(2),
        kind: ConstraintKind::Max,
        bound: q(5.0, Unit::Watt),
        source: EntityId(2),
        status: ConstraintStatus::Active,
    };
    assert!(c.validate().is_ok());
    assert!(c.is_active());
}

#[test]
fn only_open_error_violations_block() {
    let mut v = Violation {
        id: EntityId(1),
        rule: "constraint-consistency".into(),
        severity: ViolationSeverity::Error,
        subjects: vec![EntityId(2), EntityId(3)],
        message: "contradictory bounds".into(),
        status: ViolationStatus::Open,
    };
    assert!(v.is_blocking());
    v.status = ViolationStatus::Waived;
    assert!(!v.is_blocking());
    v.status = ViolationStatus::Open;
    v.severity = ViolationSeverity::Warning;
    assert!(!v.is_blocking());
}

#[test]
fn functional_block_rejects_blank_name() {
    let b = FunctionalBlock {
        id: EntityId(1),
        name: "   ".into(),
        function: "5 V rail".into(),
        requirements: vec![EntityId(2)],
    };
    assert_eq!(b.validate(), Err(DomainError::EmptyField("functional block name")));
}

#[test]
fn well_formed_functional_block_validates() {
    let b = FunctionalBlock {
        id: EntityId(1),
        name: "Power Supply".into(),
        function: "step 12 V down to 5 V".into(),
        requirements: vec![EntityId(2)],
    };
    assert!(b.validate().is_ok());
}

#[test]
fn component_rejects_blank_refdes() {
    let c = Component {
        id: EntityId(1),
        refdes: "  ".into(),
        class: ComponentClass::Regulator,
        value: None,
        from_block: EntityId(2),
    };
    assert_eq!(c.validate(), Err(DomainError::EmptyField("component reference designator")));
}

#[test]
fn well_formed_component_validates() {
    let c = Component {
        id: EntityId(1),
        refdes: "U1".into(),
        class: ComponentClass::Resistor,
        value: Some(q(10_000.0, Unit::Ohm)),
        from_block: EntityId(2),
    };
    assert!(c.validate().is_ok());
}

#[test]
fn net_rejects_blank_name() {
    let n = Net {
        id: EntityId(1),
        name: "".into(),
        class: NetClass::Power,
        members: vec![EntityId(2), EntityId(3)],
    };
    assert_eq!(n.validate(), Err(DomainError::EmptyField("net name")));
}

#[test]
fn well_formed_net_validates() {
    let n = Net {
        id: EntityId(1),
        name: "+5V".into(),
        class: NetClass::Power,
        members: vec![EntityId(2), EntityId(3)],
    };
    assert!(n.validate().is_ok());
}

#[test]
fn part_rejects_blank_mpn() {
    let p = Part {
        id: EntityId(1),
        mpn: "   ".into(),
        manufacturer: "Texas Instruments".into(),
        lifecycle: PartLifecycle::Active,
        datasheet: "https://ti.com/lm1117".into(),
    };
    assert_eq!(p.validate(), Err(DomainError::EmptyField("manufacturer part number")));
}

#[test]
fn well_formed_part_validates() {
    let p = Part {
        id: EntityId(1),
        mpn: "LM1117-3.3".into(),
        manufacturer: "Texas Instruments".into(),
        lifecycle: PartLifecycle::Eol,
        datasheet: "https://ti.com/lm1117".into(),
    };
    assert!(p.validate().is_ok());
}

#[test]
fn entity_id_renders_hex() {
    let id = EntityId(0xabc);
    assert_eq!(id.to_hex(), "00000000000000000000000000000abc");
    assert_eq!(id.short(), "00000abc");
}

#[test]
fn domain_error_messages_read_as_documented() {
    assert_eq!(DomainError::EmptyStatement.message(), "requirement statement is empty");
    assert_eq!(DomainError::EmptyField("net name").message(), "net name must not be empty");
}

#[test]
fn hex_form_is_32_lowercase_digits_that_read_back() {
    let id = EntityId(255);
    let s = id.to_hex();
    assert_eq!(s, format!("{}ff", "0".repeat(30)));
    let big = EntityId(u128::MAX - 5);
    let h = big.to_hex();
    assert_eq!(h.len(), 32);
    assert!(h.chars().all(|c| c.is_ascii_digit() || ('a'..='f').contains(&c)));
    assert_eq!(u128::from_str_radix(&h, 16), Ok(big.0));
}
