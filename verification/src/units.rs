//! Physical dimensions and units. A quantity's magnitude is carried as the
//! binary64 encoding of a real number; the kernel only moves it, never computes on it,
//! so every check here is exact.

use vstd::prelude::*;

verus! {

/// A physical dimension.
#[derive(Debug, Clone, Copy, PartialEq, Eq, Hash, Structural)]
pub enum Dimension {
    Voltage,
    Current,
    Power,
    Length,
    Temperature,
    Frequency,
    Time,
    Resistance,
    Capacitance,
    Inductance,
    Dimensionless,
}

/// A concrete unit of measure.
#[derive(Debug, Clone, Copy, PartialEq, Eq, Hash, Structural)]
pub enum Unit {
    Volt,
    Millivolt,
    Ampere,
    Milliampere,
    Watt,
    Milliwatt,
    Metre,
    Millimetre,
    Mil,
    Kelvin,
    DegreeCelsius,
    Hertz,
    Kilohertz,
    Megahertz,
    Second,
    Millisecond,
    Microsecond,
    Ohm,
    Kilohm,
    Farad,
    Microfarad,
    Nanofarad,
    Picofarad,
    Henry,
    Microhenry,
    Nanohenry,
    Unitless,
}

/// The dimension a unit measures.
pub open spec fn unit_dimension(u: Unit) -> Dimension {
    match u {
        Unit::Volt | Unit::Millivolt => Dimension::Voltage,
        Unit::Ampere | Unit::Milliampere => Dimension::Current,
        Unit::Watt | Unit::Milliwatt => Dimension::Power,
        Unit::Metre | Unit::Millimetre | Unit::Mil => Dimension::Length,
        Unit::Kelvin | Unit::DegreeCelsius => Dimension::Temperature,
        Unit::Hertz | Unit::Kilohertz | Unit::Megahertz => Dimension::Frequency,
        Unit::Second | Unit::Millisecond | Unit::Microsecond => Dimension::Time,
        Unit::Ohm | Unit::Kilohm => Dimension::Resistance,
        Unit::Farad | Unit::Microfarad | Unit::Nanofarad | Unit::Picofarad => Dimension::Capacitance,
        Unit::Henry | Unit::Microhenry | Unit::Nanohenry => Dimension::Inductance,
        Unit::Unitless => Dimension::Dimensionless,
    }
}

/// The printed symbol of a unit.
pub open spec fn unit_symbol(u: Unit) -> Seq<char> {
    match u {
        Unit::Volt => "V"@,
        Unit::Millivolt => "mV"@,
        Unit::Ampere => "A"@,
        Unit::Milliampere => "mA"@,
        Unit::Watt => "W"@,
        Unit::Milliwatt => "mW"@,
        Unit::Metre => "m"@,
        Unit::Millimetre => "mm"@,
        Unit::Mil => "mil"@,
        Unit::Kelvin => "K"@,
        Unit::DegreeCelsius => "degC"@,
        Unit::Hertz => "Hz"@,
        Unit::Kilohertz => "kHz"@,
        Unit::Megahertz => "MHz"@,
        Unit::Second => "s"@,
        Unit::Millisecond => "ms"@,
        Unit::Microsecond => "us"@,
        Unit::Ohm => "ohm"@,
        Unit::Kilohm => "kohm"@,
        Unit::Farad => "F"@,
        Unit::Microfarad => "uF"@,
        Unit::Nanofarad => "nF"@,
        Unit::Picofarad => "pF"@,
        Unit::Henry => "H"@,
        Unit::Microhenry => "uH"@,
        Unit::Nanohenry => "nH"@,
        Unit::Unitless => ""@,
    }
}

impl Unit {
    pub fn dimension(self) -> (d: Dimension)
        ensures
            d == unit_dimension(self),
    {
        match self {
            Unit::Volt | Unit::Millivolt => Dimension::Voltage,
            Unit::Ampere | Unit::Milliampere => Dimension::Current,
            Unit::Watt | Unit::Milliwatt => Dimension::Power,
            Unit::Metre | Unit::Millimetre | Unit::Mil => Dimension::Length,
            Unit::Kelvin | Unit::DegreeCelsius => Dimension::Temperature,
            Unit::Hertz | Unit::Kilohertz | Unit::Megahertz => Dimension::Frequency,
            Unit::Second | Unit::Millisecond | Unit::Microsecond => Dimension::Time,
            Unit::Ohm | Unit::Kilohm => Dimension::Resistance,
            Unit::Farad | Unit::Microfarad | Unit::Nanofarad | Unit::Picofarad => {
                Dimension::Capacitance
            },
            Unit::Henry | Unit::Microhenry | Unit::Nanohenry => Dimension::Inductance,
            Unit::Unitless => Dimension::Dimensionless,
        }
    }

    pub fn symbol(self) -> (s: &'static str)
        ensures
            s@ == unit_symbol(self),
    {
        match self {
            Unit::Volt => "V",
            Unit::Millivolt => "mV",
            Unit::Ampere => "A",
            Unit::Milliampere => "mA",
            Unit::Watt => "W",
            Unit::Milliwatt => "mW",
            Unit::Metre => "m",
            Unit::Millimetre => "mm",
            Unit::Mil => "mil",
            Unit::Kelvin => "K",
            Unit::DegreeCelsius => "degC",
            Unit::Hertz => "Hz",
            Unit::Kilohertz => "kHz",
            Unit::Megahertz => "MHz",
            Unit::Second => "s",
            Unit::Millisecond => "ms",
            Unit::Microsecond => "us",
            Unit::Ohm => "ohm",
            Unit::Kilohm => "kohm",
            Unit::Farad => "F",
            Unit::Microfarad => "uF",
            Unit::Nanofarad => "nF",
            Unit::Picofarad => "pF",
            Unit::Henry => "H",
            Unit::Microhenry => "uH",
            Unit::Nanohenry => "nH",
            Unit::Unitless => "",
        }
    }
}

/// A real number in its IEEE-754 binary64 encoding. Arithmetic on it happens outside
/// the kernel; the kernel records and forwards it unchanged.
#[derive(Debug, Clone, Copy, PartialEq, Eq, Hash, Structural)]
pub struct Magnitude(pub u64);

/// Tolerance on a [`PhysicalQuantity`].
#[derive(Debug, Clone, Copy, PartialEq, Eq, Structural)]
pub enum Tolerance {
    /// No tolerance stated.
    NoTolerance,
    /// Relative fraction, e.g. 0.05 == +/-5%.
    Relative(Magnitude),
    /// Absolute bounds in the quantity's own unit.
    Absolute { plus: Magnitude, minus: Magnitude },
}

/// A typed physical value: a magnitude in a [`Unit`], with a [`Tolerance`].
#[derive(Debug, Clone, Copy, PartialEq, Eq, Structural)]
pub struct PhysicalQuantity {
    pub magnitude: Magnitude,
    pub unit: Unit,
    pub tolerance: Tolerance,
}

impl PhysicalQuantity {
    /// A quantity with no tolerance.
    pub fn new(magnitude: Magnitude, unit: Unit) -> (q: Self)
        ensures
            q.magnitude == magnitude,
            q.unit == unit,
            q.tolerance == Tolerance::NoTolerance,
    {
        PhysicalQuantity { magnitude, unit, tolerance: Tolerance::NoTolerance }
    }

    pub fn with_tolerance(magnitude: Magnitude, unit: Unit, tolerance: Tolerance) -> (q: Self)
        ensures
            q == (PhysicalQuantity { magnitude, unit, tolerance }),
    {
        PhysicalQuantity { magnitude, unit, tolerance }
    }

    pub fn dimension(&self) -> (d: Dimension)
        ensures
            d == unit_dimension(self.unit),
    {
        self.unit.dimension()
    }
}

/// Error from a dimensionally or numerically invalid comparison.
#[derive(Debug, Clone, Copy, PartialEq, Eq, Structural)]
pub enum UnitError {
    DimensionMismatch { left: Dimension, right: Dimension },
    NotComparable,
}

pub open spec fn dimension_name(d: Dimension) -> Seq<char> {
    match d {
        Dimension::Voltage => "Voltage"@,
        Dimension::Current => "Current"@,
        Dimension::Power => "Power"@,
        Dimension::Length => "Length"@,
        Dimension::Temperature => "Temperature"@,
        Dimension::Frequency => "Frequency"@,
        Dimension::Time => "Time"@,
        Dimension::Resistance => "Resistance"@,
        Dimension::Capacitance => "Capacitance"@,
        Dimension::Inductance => "Inductance"@,
        Dimension::Dimensionless => "Dimensionless"@,
    }
}

pub open spec fn unit_error_text(e: UnitError) -> Seq<char> {
    match e {
        UnitError::DimensionMismatch { left, right } => "dimension mismatch: "@ + dimension_name(left) + " vs "@
            + dimension_name(right),
        UnitError::NotComparable => "physical quantity has a non-finite (NaN) magnitude"@,
    }
}

impl Dimension {
    /// The dimension's name.
    pub fn name(self) -> (s: &'static str)
        ensures
            s@ == dimension_name(self),
    {
        match self {
            Dimension::Voltage => "Voltage",
            Dimension::Current => "Current",
            Dimension::Power => "Power",
            Dimension::Length => "Length",
            Dimension::Temperature => "Temperature",
            Dimension::Frequency => "Frequency",
            Dimension::Time => "Time",
            Dimension::Resistance => "Resistance",
            Dimension::Capacitance => "Capacitance",
            Dimension::Inductance => "Inductance",
            Dimension::Dimensionless => "Dimensionless",
        }
    }
}

impl UnitError {
    /// The error's message.
    pub fn message(&self) -> (s: String)
        ensures
            s@ == unit_error_text(*self),
    {
        match self {
            UnitError::DimensionMismatch { left, right } => String::from_str("dimension mismatch: ").concat(
                left.name(),
            ).concat(" vs ").concat(right.name()),
            UnitError::NotComparable => String::from_str("physical quantity has a non-finite (NaN) magnitude"),
        }
    }
}

} // verus!
