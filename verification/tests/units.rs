use eak::domain::{EntityId, Priority, Requirement, RequirementCategory, RequirementStatus};
use eak::rules::fabrication_length_targets;
use eak::units::{Dimension, Magnitude, PhysicalQuantity, Unit, UnitError};

fn q(v: f64, unit: Unit) -> PhysicalQuantity {
    PhysicalQuantity::new(Magnitude(v.to_bits()), unit)
}

fn req(id: u128, category: RequirementCategory, targets: Vec<PhysicalQuantity>) -> Requirement {
    Requirement {
        id: EntityId(id),
        statement: "s".into(),
        category,
        priority: Priority::Medium,
        acceptance_criterion: "c".into(),
        status: RequirementStatus::Accepted,
        source: EntityId(1),
        targets,
    }
}

#[test]
fn units_know_their_dimension_and_symbol() {
    assert_eq!(Unit::Millivolt.dimension(), Dimension::Voltage);
    assert_eq!(Unit::Mil.dimension(), Dimension::Length);
    assert_eq!(Unit::DegreeCelsius.dimension(), Dimension::Temperature);
    assert_eq!(Unit::Megahertz.symbol(), "MHz");
    assert_eq!(Unit::Unitless.symbol(), "");
    assert_eq!(q(5.0, Unit::Watt).dimension(), Dimension::Power);
}

#[test]
fn unit_errors_read_as_documented() {
    let e = UnitError::DimensionMismatch { left: Dimension::Power, right: Dimension::Length };
    assert_eq!(e.message(), "dimension mismatch: Power vs Length");
    assert_eq!(
        UnitError::NotComparable.message(),
        "physical quantity has a non-finite (NaN) magnitude"
    );
}

#[test]
fn fabrication_floors_come_from_fabrication_length_targets_in_order() {
    let reqs = vec![
        req(1, RequirementCategory::Mechanical, vec![q(50.0, Unit::Millimetre)]),
        req(2, RequirementCategory::Fabrication, vec![q(5.0, Unit::Watt), q(0.15, Unit::Millimetre)]),
        req(3, RequirementCategory::Fabrication, vec![q(1.0, Unit::Millimetre)]),
    ];
    let floors = fabrication_length_targets(&reqs);
    assert_eq!(floors, vec![q(0.15, Unit::Millimetre), q(1.0, Unit::Millimetre)]);
    assert!(fabrication_length_targets(&reqs[..1]).is_empty());
}
