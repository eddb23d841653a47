//! The fixed catalogue of units, grouped into families; units of one
//! family convert to the family's canonical unit by an exact positive
//! rational factor, and units of different families never compare.

use vstd::prelude::*;

verus! {

#[derive(Clone, Copy, PartialEq, Eq, Structural, Debug)]
pub enum Unit {
    Px,
    Mm,
    In,
    Cm,
    Q,
    Pt,
    Pc,
    Deg,
    Grad,
    Turn,
    S,
    Ms,
    Hz,
    Khz,
    Dpi,
    Dpcm,
    Dppx,
    Percent,
    NoUnit,
}

#[derive(Clone, Copy, PartialEq, Eq, Structural, Debug)]
pub enum UnitFamily {
    Length,
    Angle,
    Time,
    Frequency,
    Resolution,
    Percentage,
    Scalar,
}

pub open spec fn unit_family(u: Unit) -> UnitFamily {
    match u {
        Unit::Px | Unit::Mm | Unit::In | Unit::Cm | Unit::Q | Unit::Pt | Unit::Pc => {
            UnitFamily::Length
        },
        Unit::Deg | Unit::Grad | Unit::Turn => UnitFamily::Angle,
        Unit::S | Unit::Ms => UnitFamily::Time,
        Unit::Hz | Unit::Khz => UnitFamily::Frequency,
        Unit::Dpi | Unit::Dpcm | Unit::Dppx => UnitFamily::Resolution,
        Unit::Percent => UnitFamily::Percentage,
        Unit::NoUnit => UnitFamily::Scalar,
    }
}

/// The exact factor carrying a unit to its family's canonical unit
/// (pixels, degrees, seconds, hertz, dots per inch), as a positive
/// fraction `(numerator, denominator)`.
pub open spec fn unit_factor(u: Unit) -> (int, int) {
    match u {
        Unit::Px => (1int, 1int),
        Unit::Mm => (480int, 127int),
        Unit::In => (96int, 1int),
        Unit::Cm => (4800int, 127int),
        Unit::Q => (120int, 127int),
        Unit::Pt => (4int, 3int),
        Unit::Pc => (16int, 1int),
        Unit::Deg => (1int, 1int),
        Unit::Grad => (9int, 10int),
        Unit::Turn => (360int, 1int),
        Unit::S => (1int, 1int),
        Unit::Ms => (1int, 1000int),
        Unit::Hz => (1int, 1int),
        Unit::Khz => (1000int, 1int),
        Unit::Dpi => (1int, 1int),
        Unit::Dpcm => (127int, 50int),
        Unit::Dppx => (96int, 1int),
        Unit::Percent => (1int, 1int),
        Unit::NoUnit => (1int, 1int),
    }
}

/// The unit as written after a number in source and output.
pub open spec fn unit_text(u: Unit) -> Seq<char> {
    match u {
        Unit::Px => "px"@,
        Unit::Mm => "mm"@,
        Unit::In => "in"@,
        Unit::Cm => "cm"@,
        Unit::Q => "q"@,
        Unit::Pt => "pt"@,
        Unit::Pc => "pc"@,
        Unit::Deg => "deg"@,
        Unit::Grad => "grad"@,
        Unit::Turn => "turn"@,
        Unit::S => "s"@,
        Unit::Ms => "ms"@,
        Unit::Hz => "Hz"@,
        Unit::Khz => "kHz"@,
        Unit::Dpi => "dpi"@,
        Unit::Dpcm => "dpcm"@,
        Unit::Dppx => "dppx"@,
        Unit::Percent => "%"@,
        Unit::NoUnit => ""@,
    }
}

impl Unit {
    pub fn family(self) -> (r: UnitFamily)
        ensures
            r == unit_family(self),
    {
        match self {
            Unit::Px | Unit::Mm | Unit::In | Unit::Cm | Unit::Q | Unit::Pt | Unit::Pc => {
                UnitFamily::Length
            },
            Unit::Deg | Unit::Grad | Unit::Turn => UnitFamily::Angle,
            Unit::S | Unit::Ms => UnitFamily::Time,
            Unit::Hz | Unit::Khz => UnitFamily::Frequency,
            Unit::Dpi | Unit::Dpcm | Unit::Dppx => UnitFamily::Resolution,
            Unit::Percent => UnitFamily::Percentage,
            Unit::NoUnit => UnitFamily::Scalar,
        }
    }

    /// Units compare exactly when they belong to one family.
    pub fn comparable(self, other: Unit) -> (r: bool)
        ensures
            r == (unit_family(self) == unit_family(other)),
    {
        self.family() == other.family()
    }

    pub fn factor(self) -> (r: (u64, u64))
        ensures
            r.0 as int == unit_factor(self).0,
            r.1 as int == unit_factor(self).1,
            r.0 > 0,
            r.1 > 0,
    {
        match self {
            Unit::Px => (1, 1),
            Unit::Mm => (480, 127),
            Unit::In => (96, 1),
            Unit::Cm => (4800, 127),
            Unit::Q => (120, 127),
            Unit::Pt => (4, 3),
            Unit::Pc => (16, 1),
            Unit::Deg => (1, 1),
            Unit::Grad => (9, 10),
            Unit::Turn => (360, 1),
            Unit::S => (1, 1),
            Unit::Ms => (1, 1000),
            Unit::Hz => (1, 1),
            Unit::Khz => (1000, 1),
            Unit::Dpi => (1, 1),
            Unit::Dpcm => (127, 50),
            Unit::Dppx => (96, 1),
            Unit::Percent => (1, 1),
            Unit::NoUnit => (1, 1),
        }
    }

    pub fn as_str(self) -> (r: &'static str)
        ensures
            r@ == unit_text(self),
    {
        match self {
            Unit::Px => "px",
            Unit::Mm => "mm",
            Unit::In => "in",
            Unit::Cm => "cm",
            Unit::Q => "q",
            Unit::Pt => "pt",
            Unit::Pc => "pc",
            Unit::Deg => "deg",
            Unit::Grad => "grad",
            Unit::Turn => "turn",
            Unit::S => "s",
            Unit::Ms => "ms",
            Unit::Hz => "Hz",
            Unit::Khz => "kHz",
            Unit::Dpi => "dpi",
            Unit::Dpcm => "dpcm",
            Unit::Dppx => "dppx",
            Unit::Percent => "%",
            Unit::NoUnit => "",
        }
    }
}

/// The unit written with the given name, if any.
pub open spec fn unit_of_name(s: Seq<char>) -> Option<Unit> {
    if s == "px"@ {
        Some(Unit::Px)
    } else if s == "mm"@ {
        Some(Unit::Mm)
    } else if s == "in"@ {
        Some(Unit::In)
    } else if s == "cm"@ {
        Some(Unit::Cm)
    } else if s == "q"@ {
        Some(Unit::Q)
    } else if s == "pt"@ {
        Some(Unit::Pt)
    } else if s == "pc"@ {
        Some(Unit::Pc)
    } else if s == "deg"@ {
        Some(Unit::Deg)
    } else if s == "grad"@ {
        Some(Unit::Grad)
    } else if s == "turn"@ {
        Some(Unit::Turn)
    } else if s == "s"@ {
        Some(Unit::S)
    } else if s == "ms"@ {
        Some(Unit::Ms)
    } else if s == "Hz"@ {
        Some(Unit::Hz)
    } else if s == "kHz"@ {
        Some(Unit::Khz)
    } else if s == "dpi"@ {
        Some(Unit::Dpi)
    } else if s == "dpcm"@ {
        Some(Unit::Dpcm)
    } else if s == "dppx"@ {
        Some(Unit::Dppx)
    } else if s == "%"@ {
        Some(Unit::Percent)
    } else {
        Option::<Unit>::None
    }
}

/// Look a unit up by its written name.
pub fn unit_from_name(name: &String) -> (r: Option<Unit>)
    ensures
        r == unit_of_name(name@),
{
    if crate::utils::string_is(name, "px") {
        Some(Unit::Px)
    } else if crate::utils::string_is(name, "mm") {
        Some(Unit::Mm)
    } else if crate::utils::string_is(name, "in") {
        Some(Unit::In)
    } else if crate::utils::string_is(name, "cm") {
        Some(Unit::Cm)
    } else if crate::utils::string_is(name, "q") {
        Some(Unit::Q)
    } else if crate::utils::string_is(name, "pt") {
        Some(Unit::Pt)
    } else if crate::utils::string_is(name, "pc") {
        Some(Unit::Pc)
    } else if crate::utils::string_is(name, "deg") {
        Some(Unit::Deg)
    } else if crate::utils::string_is(name, "grad") {
        Some(Unit::Grad)
    } else if crate::utils::string_is(name, "turn") {
        Some(Unit::Turn)
    } else if crate::utils::string_is(name, "s") {
        Some(Unit::S)
    } else if crate::utils::string_is(name, "ms") {
        Some(Unit::Ms)
    } else if crate::utils::string_is(name, "Hz") {
        Some(Unit::Hz)
    } else if crate::utils::string_is(name, "kHz") {
        Some(Unit::Khz)
    } else if crate::utils::string_is(name, "dpi") {
        Some(Unit::Dpi)
    } else if crate::utils::string_is(name, "dpcm") {
        Some(Unit::Dpcm)
    } else if crate::utils::string_is(name, "dppx") {
        Some(Unit::Dppx)
    } else if crate::utils::string_is(name, "%") {
        Some(Unit::Percent)
    } else {
        None
    }
}

} // verus!
