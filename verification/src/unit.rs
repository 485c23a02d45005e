//! Units of measure, and values that are converted to a unit when they are written.

use vstd::prelude::*;
use vstd::string::*;

use crate::float::Float;
use crate::value::Observation;

verus! {

/// A unit of measure.
#[non_exhaustive]
#[derive(Default, Clone, Copy, PartialEq, Eq, Hash, Debug)]
pub enum Unit {
    /// No unit.
    #[default]
    NoUnit,
    /// A number of things or events.
    Count,
    /// A part of a hundred.
    Percent,
    /// Time, in seconds or a part of a second.
    Second(NegativeScale),
    /// Data, in multiples of a byte.
    Byte(PositiveScale),
    /// A data rate, in multiples of a byte per second.
    BytePerSecond(PositiveScale),
    /// Data, in multiples of a bit.
    Bit(PositiveScale),
    /// A data rate, in multiples of a bit per second.
    BitPerSecond(PositiveScale),
    /// A unit given by its name.
    Custom(&'static str),
}

/// Decimal fractions of a base unit.
#[non_exhaustive]
#[derive(Debug, Default, Clone, Copy, PartialEq, Eq, PartialOrd, Ord, Hash)]
pub enum NegativeScale {
    /// 1/1,000,000
    Micro,
    /// 1/1,000
    Milli,
    /// The base unit itself.
    #[default]
    One,
}

/// Decimal multiples of a base unit.
#[non_exhaustive]
#[derive(Debug, Default, Clone, Copy, PartialEq, Eq, PartialOrd, Ord, Hash)]
pub enum PositiveScale {
    /// The base unit itself.
    #[default]
    One,
    /// 1,000
    Kilo,
    /// 1,000,000
    Mega,
    /// 1,000,000,000
    Giga,
    /// 1,000,000,000,000
    Tera,
}

/// The prefix that names a multiple.
pub open spec fn scale_prefix(scale: PositiveScale) -> Seq<char> {
    match scale {
        PositiveScale::One => Seq::empty(),
        PositiveScale::Kilo => "Kilo"@,
        PositiveScale::Mega => "Mega"@,
        PositiveScale::Giga => "Giga"@,
        PositiveScale::Tera => "Tera"@,
    }
}

/// The name of a multiple of a base unit: `base` for the unit itself, else the
/// prefix and `scaled`.
pub open spec fn scaled_name(scale: PositiveScale, base: Seq<char>, scaled: Seq<char>) -> Seq<
    char,
> {
    if scale == PositiveScale::One {
        base
    } else {
        scale_prefix(scale) + scaled
    }
}

/// The name of a unit.
pub open spec fn unit_name(unit: Unit) -> Seq<char> {
    match unit {
        Unit::NoUnit => "None"@,
        Unit::Count => "Count"@,
        Unit::Percent => "Percent"@,
        Unit::Second(NegativeScale::Micro) => "Microseconds"@,
        Unit::Second(NegativeScale::Milli) => "Milliseconds"@,
        Unit::Second(NegativeScale::One) => "Seconds"@,
        Unit::Byte(s) => scaled_name(s, "Bytes"@, "bytes"@),
        Unit::BytePerSecond(s) => scaled_name(s, "Bytes/Second"@, "bytes/Second"@),
        Unit::Bit(s) => scaled_name(s, "Bits"@, "bits"@),
        Unit::BitPerSecond(s) => scaled_name(s, "Bits/Second"@, "bits/Second"@),
        Unit::Custom(name) => name@,
    }
}

/// Whether two units are the same; units given by name are compared by name.
pub open spec fn same_unit(a: Unit, b: Unit) -> bool {
    match (a, b) {
        (Unit::Custom(x), Unit::Custom(y)) => x@ == y@,
        _ => a == b,
    }
}

/// How many of the fraction make up one base unit.
pub open spec fn reduction(scale: NegativeScale) -> u64 {
    match scale {
        NegativeScale::Micro => 1_000_000,
        NegativeScale::Milli => 1_000,
        NegativeScale::One => 1,
    }
}

/// How many base units make up the multiple.
pub open spec fn expansion(scale: PositiveScale) -> u64 {
    match scale {
        PositiveScale::One => 1,
        PositiveScale::Kilo => 1_000,
        PositiveScale::Mega => 1_000_000,
        PositiveScale::Giga => 1_000_000_000,
        PositiveScale::Tera => 1_000_000_000_000,
    }
}

impl NegativeScale {
    /// The ratio between the base unit and the fraction.
    pub fn reduction_factor(self) -> (n: u64)
        ensures
            n == reduction(self),
    {
        match self {
            NegativeScale::Micro => 1_000_000,
            NegativeScale::Milli => 1_000,
            NegativeScale::One => 1,
        }
    }
}

impl PositiveScale {
    /// The ratio between the multiple and the base unit.
    pub fn expansion_factor(self) -> (n: u64)
        ensures
            n == expansion(self),
    {
        match self {
            PositiveScale::One => 1,
            PositiveScale::Kilo => 1_000,
            PositiveScale::Mega => 1_000_000,
            PositiveScale::Giga => 1_000_000_000,
            PositiveScale::Tera => 1_000_000_000_000,
        }
    }
}

proof fn scaled_names()
    ensures
        "Kilobytes"@ == "Kilo"@ + "bytes"@,
        "Megabytes"@ == "Mega"@ + "bytes"@,
        "Gigabytes"@ == "Giga"@ + "bytes"@,
        "Terabytes"@ == "Tera"@ + "bytes"@,
        "Kilobits"@ == "Kilo"@ + "bits"@,
        "Megabits"@ == "Mega"@ + "bits"@,
        "Gigabits"@ == "Giga"@ + "bits"@,
        "Terabits"@ == "Tera"@ + "bits"@,
        "Kilobytes/Second"@ == "Kilo"@ + "bytes/Second"@,
        "Megabytes/Second"@ == "Mega"@ + "bytes/Second"@,
        "Gigabytes/Second"@ == "Giga"@ + "bytes/Second"@,
        "Terabytes/Second"@ == "Tera"@ + "bytes/Second"@,
        "Kilobits/Second"@ == "Kilo"@ + "bits/Second"@,
        "Megabits/Second"@ == "Mega"@ + "bits/Second"@,
        "Gigabits/Second"@ == "Giga"@ + "bits/Second"@,
        "Terabits/Second"@ == "Tera"@ + "bits/Second"@,
{
    reveal_strlit("Kilo");
    reveal_strlit("Mega");
    reveal_strlit("Giga");
    reveal_strlit("Tera");
    reveal_strlit("bytes");
    reveal_strlit("bits");
    reveal_strlit("bytes/Second");
    reveal_strlit("bits/Second");
    reveal_strlit("Kilobytes");
    reveal_strlit("Megabytes");
    reveal_strlit("Gigabytes");
    reveal_strlit("Terabytes");
    reveal_strlit("Kilobits");
    reveal_strlit("Megabits");
    reveal_strlit("Gigabits");
    reveal_strlit("Terabits");
    reveal_strlit("Kilobytes/Second");
    reveal_strlit("Megabytes/Second");
    reveal_strlit("Gigabytes/Second");
    reveal_strlit("Terabytes/Second");
    reveal_strlit("Kilobits/Second");
    reveal_strlit("Megabits/Second");
    reveal_strlit("Gigabits/Second");
    reveal_strlit("Terabits/Second");
    assert("Kilobytes"@ =~= "Kilo"@ + "bytes"@);
    assert("Megabytes"@ =~= "Mega"@ + "bytes"@);
    assert("Gigabytes"@ =~= "Giga"@ + "bytes"@);
    assert("Terabytes"@ =~= "Tera"@ + "bytes"@);
    assert("Kilobits"@ =~= "Kilo"@ + "bits"@);
    assert("Megabits"@ =~= "Mega"@ + "bits"@);
    assert("Gigabits"@ =~= "Giga"@ + "bits"@);
    assert("Terabits"@ =~= "Tera"@ + "bits"@);
    assert("Kilobytes/Second"@ =~= "Kilo"@ + "bytes/Second"@);
    assert("Megabytes/Second"@ =~= "Mega"@ + "bytes/Second"@);
    assert("Gigabytes/Second"@ =~= "Giga"@ + "bytes/Second"@);
    assert("Terabytes/Second"@ =~= "Tera"@ + "bytes/Second"@);
    assert("Kilobits/Second"@ =~= "Kilo"@ + "bits/Second"@);
    assert("Megabits/Second"@ =~= "Mega"@ + "bits/Second"@);
    assert("Gigabits/Second"@ =~= "Giga"@ + "bits/Second"@);
    assert("Terabits/Second"@ =~= "Tera"@ + "bits/Second"@);
}

impl Unit {
    /// The name of the unit.
    pub fn name(self) -> (name: &'static str)
        ensures
            name@ == unit_name(self),
    {
        proof {
            scaled_names();
        }
        match self {
            Unit::NoUnit => "None",
            Unit::Count => "Count",
            Unit::Percent => "Percent",
            Unit::Second(scale) => match scale {
                NegativeScale::Micro => "Microseconds",
                NegativeScale::Milli => "Milliseconds",
                NegativeScale::One => "Seconds",
            },
            Unit::Byte(scale) => match scale {
                PositiveScale::One => "Bytes",
                PositiveScale::Kilo => "Kilobytes",
                PositiveScale::Mega => "Megabytes",
                PositiveScale::Giga => "Gigabytes",
                PositiveScale::Tera => "Terabytes",
            },
            Unit::BytePerSecond(scale) => match scale {
                PositiveScale::One => "Bytes/Second",
                PositiveScale::Kilo => "Kilobytes/Second",
                PositiveScale::Mega => "Megabytes/Second",
                PositiveScale::Giga => "Gigabytes/Second",
                PositiveScale::Tera => "Terabytes/Second",
            },
            Unit::Bit(scale) => match scale {
                PositiveScale::One => "Bits",
                PositiveScale::Kilo => "Kilobits",
                PositiveScale::Mega => "Megabits",
                PositiveScale::Giga => "Gigabits",
                PositiveScale::Tera => "Terabits",
            },
            Unit::BitPerSecond(scale) => match scale {
                PositiveScale::One => "Bits/Second",
                PositiveScale::Kilo => "Kilobits/Second",
                PositiveScale::Mega => "Megabits/Second",
                PositiveScale::Giga => "Gigabits/Second",
                PositiveScale::Tera => "Terabits/Second",
            },
            Unit::Custom(name) => name,
        }
    }

    /// Whether this is the unit that says that there is none.
    pub fn is_none(self) -> (res: bool)
        ensures
            res == (self == Unit::NoUnit),
    {
        matches!(self, Unit::NoUnit)
    }

    /// Whether both are the same unit.
    pub fn same_as(self, other: Unit) -> (res: bool)
        ensures
            res == same_unit(self, other),
    {
        match (self, other) {
            (Unit::NoUnit, Unit::NoUnit) => true,
            (Unit::Count, Unit::Count) => true,
            (Unit::Percent, Unit::Percent) => true,
            (Unit::Second(a), Unit::Second(b)) => a.reduction_factor() == b.reduction_factor(),
            (Unit::Byte(a), Unit::Byte(b)) => a.expansion_factor() == b.expansion_factor(),
            (Unit::BytePerSecond(a), Unit::BytePerSecond(b)) => a.expansion_factor()
                == b.expansion_factor(),
            (Unit::Bit(a), Unit::Bit(b)) => a.expansion_factor() == b.expansion_factor(),
            (Unit::BitPerSecond(a), Unit::BitPerSecond(b)) => a.expansion_factor()
                == b.expansion_factor(),
            (Unit::Custom(a), Unit::Custom(b)) => a.to_owned() == b.to_owned(),
            _ => false,
        }
    }
}

// ---------------------------------------------------------------------------
// Units as types
// ---------------------------------------------------------------------------

/// A type that stands for a unit.
pub trait UnitTag {
    /// The unit.
    open spec fn tag() -> Unit {
        arbitrary()
    }

    /// The unit.
    fn unit() -> (u: Unit)
        ensures
            u == Self::tag(),
    ;
}

/// A ratio of two numbers.
#[derive(Clone, Copy, Debug, PartialEq, Eq, Structural)]
pub struct Ratio {
    pub numerator: u64,
    pub denominator: u64,
}

impl Ratio {
    /// Whether it is the ratio of a number to itself.
    pub open spec fn is_one(self) -> bool {
        self.numerator == self.denominator
    }
}

/// A floating-point operation.
#[derive(Clone, Copy, Debug, PartialEq, Eq, Structural)]
pub enum DoubleOp {
    /// A natural number times a ratio.
    ScaleInteger { value: u64, ratio: Ratio },
    /// A double, by its bits, times a ratio.
    ScaleDouble { bits: u64, ratio: Ratio },
    /// A double, by its bits, divided by a number that is not zero.
    Divide { bits: u64, by: u64 },
}

/// Whether `after` is `before` in a unit that is greater by the inverse of the ratio. Nothing
/// is computed where the ratio is one.
pub open spec fn is_converted<F: Fn(DoubleOp) -> Float>(
    compute: F,
    before: Observation,
    ratio: Ratio,
    after: Observation,
) -> bool {
    if ratio.is_one() {
        after == before
    } else {
        match before {
            Observation::Unsigned(value) => after matches Observation::Floating(f) && call_ensures(
                compute,
                (DoubleOp::ScaleInteger { value, ratio },),
                f,
            ),
            Observation::Floating(b) => after matches Observation::Floating(f) && call_ensures(
                compute,
                (DoubleOp::ScaleDouble { bits: b.bits, ratio },),
                f,
            ),
            Observation::Repeated { total, occurrences, .. } => after matches Observation::Repeated {
                total: t,
                occurrences: n,
                mean,
            } && n == occurrences && call_ensures(
                compute,
                (DoubleOp::ScaleDouble { bits: total.bits, ratio },),
                t,
            ) && (n > 0 ==> call_ensures(
                compute,
                (DoubleOp::Divide { bits: t.bits, by: n },),
                mean,
            )),
        }
    }
}

/// A unit that values can be converted from.
pub trait Convert<U: UnitTag>: UnitTag {
    /// What a value is multiplied by.
    open spec fn ratio_spec() -> Ratio {
        arbitrary()
    }

    /// What a value is multiplied by.
    fn ratio() -> (r: Ratio)
        ensures
            r == Self::ratio_spec(),
    ;

    /// Converts an observation. `compute` does the arithmetic.
    fn convert<F: Fn(DoubleOp) -> Float>(observation: Observation, compute: &F) -> (res: Observation)
        requires
            forall|op: DoubleOp| call_requires(compute, (op,)),
        ensures
            is_converted(*compute, observation, Self::ratio_spec(), res),
    {
        let ratio = Self::ratio();
        if ratio.numerator == ratio.denominator {
            return observation;
        }
        match observation {
            Observation::Unsigned(value) => Observation::Floating(
                compute(DoubleOp::ScaleInteger { value, ratio }),
            ),
            Observation::Floating(f) => Observation::Floating(
                compute(DoubleOp::ScaleDouble { bits: f.bits, ratio }),
            ),
            Observation::Repeated { total, occurrences, .. } => {
                let total = compute(DoubleOp::ScaleDouble { bits: total.bits, ratio });
                let mean = if occurrences == 0 {
                    total.duplicate()
                } else {
                    compute(DoubleOp::Divide { bits: total.bits, by: occurrences })
                };
                Observation::Repeated { total, occurrences, mean }
            },
        }
    }
}

/// A unit of time.
pub trait TimeTag: UnitTag {
    /// How many of the unit make up one second.
    spec fn from_seconds_spec() -> u64;

    /// How many of the unit make up one second.
    fn from_seconds() -> (n: u64)
        ensures
            n == Self::from_seconds_spec(),
    ;

    /// There is at least one in a second, and as many as the scale of the unit says.
    proof fn scale_fits()
        ensures
            Self::from_seconds_spec() > 0,
            Self::tag() matches Unit::Second(scale) && Self::from_seconds_spec() == reduction(
                scale,
            ),
    ;
}

/// A unit of data or of a data rate.
pub trait BitTag: UnitTag {
    /// How many bits make up the unit.
    spec fn from_bits_spec() -> u64;

    /// How many bits make up the unit.
    fn from_bits() -> (n: u64)
        ensures
            n == Self::from_bits_spec(),
    ;

    /// There is at least one bit in it, and as many as the scale of the unit says, eight times
    /// over for bytes.
    proof fn scale_fits()
        ensures
            Self::from_bits_spec() > 0,
            match Self::tag() {
                Unit::Byte(scale) => Self::from_bits_spec() == 8 * expansion(scale),
                Unit::BytePerSecond(scale) => Self::from_bits_spec() == 8 * expansion(scale),
                Unit::Bit(scale) => Self::from_bits_spec() == expansion(scale),
                Unit::BitPerSecond(scale) => Self::from_bits_spec() == expansion(scale),
                _ => false,
            },
    ;
}

/// What a time is multiplied by, from a unit of which that many make up one second to another.
pub open spec fn time_ratio(from: u64, to: u64) -> Ratio {
    Ratio { numerator: to, denominator: from }
}

/// What an amount of data is multiplied by, from a unit of that many bits to another.
pub open spec fn data_ratio(from: u64, to: u64) -> Ratio {
    Ratio { numerator: from, denominator: to }
}

/// Whether multiplying by one ratio and then by another is the same as multiplying by a third.
pub open spec fn composes(a: Ratio, b: Ratio, c: Ratio) -> bool {
    a.numerator * b.numerator * c.denominator == c.numerator * (a.denominator * b.denominator)
}

/// Converting a time to its own unit changes nothing; converting it to a unit and on to another
/// is the same as converting it directly; so converting it back gives what it was.
pub proof fn converting_times(a: u64, b: u64, c: u64)
    ensures
        time_ratio(a, a).is_one(),
        composes(time_ratio(a, b), time_ratio(b, c), time_ratio(a, c)),
        composes(time_ratio(a, b), time_ratio(b, a), time_ratio(a, a)),
{
    assert(b * c * a == c * (a * b)) by (nonlinear_arith);
    assert(b * a * a == a * (a * b)) by (nonlinear_arith);
}

/// The same holds of amounts of data.
pub proof fn converting_data(a: u64, b: u64, c: u64)
    ensures
        data_ratio(a, a).is_one(),
        composes(data_ratio(a, b), data_ratio(b, c), data_ratio(a, c)),
        composes(data_ratio(a, b), data_ratio(b, a), data_ratio(a, a)),
{
    assert(a * b * c == a * (b * c)) by (nonlinear_arith);
    assert(a * b * a == a * (b * a)) by (nonlinear_arith);
}

} // verus!
