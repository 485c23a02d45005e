//! What holds of all units and of all conversions between them.

use vstd::prelude::*;
use vstd::string::*;

use crate::float::Float;
use crate::unit::{
    expansion, is_converted, reduction, same_unit, unit_name, BitTag, Convert, DoubleOp,
    NegativeScale, PositiveScale, Ratio, TimeTag, Unit, UnitTag,
};
use crate::unit_tags::{
    Bit, BitPerSecond, Byte, BytePerSecond, Count, Gigabit, GigabitPerSecond, Gigabyte,
    GigabytePerSecond, Kilobit, KilobitPerSecond, Kilobyte, KilobytePerSecond, Megabit,
    MegabitPerSecond, Megabyte, MegabytePerSecond, Microsecond, Millisecond, NoUnit, Percent,
    Second, Terabit, TerabitPerSecond, Terabyte, TerabytePerSecond,
};
use crate::validate::plain_error;
use crate::value::{Observation, ValueModel, WrittenValue};
use crate::with_unit::is_written_in;

verus! {

// ---------------------------------------------------------------------------
// Ratios
// ---------------------------------------------------------------------------

/// How much one of a unit is: of time, how many microseconds; of data, how many bits; of a data
/// rate, how many bits a second.
pub open spec fn amount(unit: Unit) -> nat {
    match unit {
        Unit::Second(NegativeScale::One) => 1_000_000,
        Unit::Second(NegativeScale::Milli) => 1_000,
        Unit::Second(NegativeScale::Micro) => 1,
        Unit::Byte(scale) | Unit::BytePerSecond(scale) => 8 * multiple(scale),
        Unit::Bit(scale) | Unit::BitPerSecond(scale) => multiple(scale),
        _ => 1,
    }
}

/// A thousand to the power that a prefix stands for.
pub open spec fn multiple(scale: PositiveScale) -> nat {
    match scale {
        PositiveScale::One => 1,
        PositiveScale::Kilo => 1_000,
        PositiveScale::Mega => 1_000_000,
        PositiveScale::Giga => 1_000_000_000,
        PositiveScale::Tera => 1_000_000_000_000,
    }
}

/// Whether a number of one unit, times the ratio, is as much in the other unit.
pub open spec fn keeps_amount<A: Convert<B>, B: UnitTag>() -> bool {
    let ratio = A::ratio_spec();
    &&& ratio.numerator > 0
    &&& ratio.denominator > 0
    &&& ratio.numerator * amount(B::tag()) == ratio.denominator * amount(A::tag())
}

/// A time is as long after it was converted to another unit of time as it was before.
pub proof fn times_keep_their_length<U: TimeTag>()
    ensures
        U::tag() is Second,
        Second::tag() == Unit::Second(NegativeScale::One),
        Millisecond::tag() == Unit::Second(NegativeScale::Milli),
        Microsecond::tag() == Unit::Second(NegativeScale::Micro),
        keeps_amount::<Second, U>(),
        keeps_amount::<Millisecond, U>(),
        keeps_amount::<Microsecond, U>(),
{
    U::scale_fits();
}

proof fn amounts_in_bits<A: Convert<U>, U: BitTag>()
    requires
        A::ratio_spec().numerator == amount(A::tag()),
        A::ratio_spec().denominator == amount(U::tag()),
        amount(U::tag()) > 0,
        amount(A::tag()) > 0,
    ensures
        keeps_amount::<A, U>(),
{
    let a = amount(A::tag()) as int;
    let b = amount(U::tag()) as int;
    assert(a * b == b * a) by (nonlinear_arith);
}

/// An amount of data, or a data rate, is as much after it was converted to another unit as it was
/// before.
pub proof fn data_keeps_its_amount<U: BitTag>()
    ensures
        keeps_amount::<Byte, U>(),
        keeps_amount::<Kilobyte, U>(),
        keeps_amount::<Megabyte, U>(),
        keeps_amount::<Gigabyte, U>(),
        keeps_amount::<Terabyte, U>(),
        keeps_amount::<BytePerSecond, U>(),
        keeps_amount::<KilobytePerSecond, U>(),
        keeps_amount::<MegabytePerSecond, U>(),
        keeps_amount::<GigabytePerSecond, U>(),
        keeps_amount::<TerabytePerSecond, U>(),
        keeps_amount::<Bit, U>(),
        keeps_amount::<Kilobit, U>(),
        keeps_amount::<Megabit, U>(),
        keeps_amount::<Gigabit, U>(),
        keeps_amount::<Terabit, U>(),
        keeps_amount::<BitPerSecond, U>(),
        keeps_amount::<KilobitPerSecond, U>(),
        keeps_amount::<MegabitPerSecond, U>(),
        keeps_amount::<GigabitPerSecond, U>(),
        keeps_amount::<TerabitPerSecond, U>(),
{
    U::scale_fits();
    assert(amount(U::tag()) == U::from_bits_spec());
    amounts_in_bits::<Byte, U>();
    amounts_in_bits::<Kilobyte, U>();
    amounts_in_bits::<Megabyte, U>();
    amounts_in_bits::<Gigabyte, U>();
    amounts_in_bits::<Terabyte, U>();
    amounts_in_bits::<BytePerSecond, U>();
    amounts_in_bits::<KilobytePerSecond, U>();
    amounts_in_bits::<MegabytePerSecond, U>();
    amounts_in_bits::<GigabytePerSecond, U>();
    amounts_in_bits::<TerabytePerSecond, U>();
    amounts_in_bits::<Bit, U>();
    amounts_in_bits::<Kilobit, U>();
    amounts_in_bits::<Megabit, U>();
    amounts_in_bits::<Gigabit, U>();
    amounts_in_bits::<Terabit, U>();
    amounts_in_bits::<BitPerSecond, U>();
    amounts_in_bits::<KilobitPerSecond, U>();
    amounts_in_bits::<MegabitPerSecond, U>();
    amounts_in_bits::<GigabitPerSecond, U>();
    amounts_in_bits::<TerabitPerSecond, U>();
}

/// A number without a unit is taken to be in whatever unit is asked for.
pub proof fn plain_numbers_stay<U: UnitTag>()
    ensures
        <NoUnit as Convert<U>>::ratio_spec().numerator == 1,
        <NoUnit as Convert<U>>::ratio_spec().denominator == 1,
{
}

/// Numbers grow when they are converted to a smaller unit, shrink when they are converted to a
/// greater one, and stay where the units are equal.
pub proof fn smaller_units_give_greater_numbers<A: Convert<B>, B: UnitTag>()
    requires
        keeps_amount::<A, B>(),
    ensures
        amount(B::tag()) < amount(A::tag()) <==> A::ratio_spec().numerator
            > A::ratio_spec().denominator,
        amount(B::tag()) == amount(A::tag()) <==> A::ratio_spec().numerator
            == A::ratio_spec().denominator,
{
    let n = A::ratio_spec().numerator as int;
    let d = A::ratio_spec().denominator as int;
    let a = amount(A::tag()) as int;
    let b = amount(B::tag()) as int;
    assert(a > 0 && b > 0);
    assert(n * b == d * a && n > 0 && d > 0 && a > 0 && b > 0 ==> (b < a <==> n > d) && (b == a
        <==> n == d)) by (nonlinear_arith);
}

// ---------------------------------------------------------------------------
// Observations and values
// ---------------------------------------------------------------------------

/// A number that is converted is multiplied by the ratio, exactly where that is one. Of repeated
/// observations the total is, there are as many of them as before, and their mean is the new total
/// divided by that number.
pub proof fn observations_are_multiplied<F: Fn(DoubleOp) -> Float>(
    compute: F,
    before: Observation,
    ratio: Ratio,
    after: Observation,
)
    requires
        is_converted(compute, before, ratio, after),
    ensures
        ratio.numerator == ratio.denominator ==> after == before,
        ratio.numerator != ratio.denominator ==> {
            &&& before matches Observation::Unsigned(v) ==> after matches Observation::Floating(f)
                && call_ensures(compute, (DoubleOp::ScaleInteger { value: v, ratio },), f)
            &&& before matches Observation::Floating(b) ==> after matches Observation::Floating(f)
                && call_ensures(compute, (DoubleOp::ScaleDouble { bits: b.bits, ratio },), f)
            &&& before matches Observation::Repeated { total: b, occurrences: n, .. }
                ==> after matches Observation::Repeated { total: t, occurrences: k, mean: m } && k
                == n && call_ensures(compute, (DoubleOp::ScaleDouble { bits: b.bits, ratio },), t)
                && (n > 0 ==> call_ensures(compute, (DoubleOp::Divide { bits: t.bits, by: n },), m))
        },
{
}

/// What is written of a metric in the unit that it promised: as many observations as there were,
/// each of them converted, in the unit that was asked for, with all else as it was. A metric in
/// another unit is refused, and so are strings and lists.
pub proof fn values_are_converted<F: Fn(DoubleOp) -> Float>(
    compute: F,
    from: Unit,
    ratio: Ratio,
    to: Unit,
    before: WrittenValue,
    after: WrittenValue,
)
    requires
        is_written_in(compute, from, ratio, to, before, after),
    ensures
        before matches WrittenValue::Metric(m) ==> (same_unit(m.unit, from) ==> {
            &&& after matches WrittenValue::Metric(n)
            &&& n.unit == to
            &&& n.dimensions@ == m.dimensions@
            &&& n.flags == m.flags
            &&& n.distribution@.len() == m.distribution@.len()
            &&& forall|i: int|
                0 <= i < m.distribution@.len() ==> is_converted(
                    compute,
                    m.distribution@[i],
                    ratio,
                    #[trigger] n.distribution@[i],
                )
        }),
        before matches WrittenValue::Metric(m) ==> (!same_unit(m.unit, from) ==> after@
            == ValueModel::Error(
            plain_error(
                "value promised to write unit `"@ + unit_name(from) + "` but wrote `"@ + unit_name(
                    m.unit,
                ) + "` instead"@,
            ),
        )),
        before is Text || before is List ==> after@ == ValueModel::Error(
            plain_error("can't apply a unit to a string value"@),
        ),
        before is Nothing || before is Object || before is Error ==> after == before,
{
}

// ---------------------------------------------------------------------------
// Names
// ---------------------------------------------------------------------------

/// A few marks by which the names of units can be told apart: the length, and two characters.
spec fn marks(name: Seq<char>) -> (nat, char, char) {
    (name.len(), name[0], name[2])
}

/// The marks of the name of a unit that has no name of its own.
spec fn marks_of(unit: Unit) -> (nat, char, char) {
    match unit {
        Unit::NoUnit => (4, 'N', 'n'),
        Unit::Count => (5, 'C', 'u'),
        Unit::Percent => (7, 'P', 'r'),
        Unit::Second(NegativeScale::Micro) => (12, 'M', 'c'),
        Unit::Second(NegativeScale::Milli) => (12, 'M', 'l'),
        Unit::Second(NegativeScale::One) => (7, 'S', 'c'),
        Unit::Byte(PositiveScale::One) => (5, 'B', 't'),
        Unit::Byte(PositiveScale::Kilo) => (9, 'K', 'l'),
        Unit::Byte(PositiveScale::Mega) => (9, 'M', 'g'),
        Unit::Byte(PositiveScale::Giga) => (9, 'G', 'g'),
        Unit::Byte(PositiveScale::Tera) => (9, 'T', 'r'),
        Unit::BytePerSecond(PositiveScale::One) => (12, 'B', 't'),
        Unit::BytePerSecond(PositiveScale::Kilo) => (16, 'K', 'l'),
        Unit::BytePerSecond(PositiveScale::Mega) => (16, 'M', 'g'),
        Unit::BytePerSecond(PositiveScale::Giga) => (16, 'G', 'g'),
        Unit::BytePerSecond(PositiveScale::Tera) => (16, 'T', 'r'),
        Unit::Bit(PositiveScale::One) => (4, 'B', 't'),
        Unit::Bit(PositiveScale::Kilo) => (8, 'K', 'l'),
        Unit::Bit(PositiveScale::Mega) => (8, 'M', 'g'),
        Unit::Bit(PositiveScale::Giga) => (8, 'G', 'g'),
        Unit::Bit(PositiveScale::Tera) => (8, 'T', 'r'),
        Unit::BitPerSecond(PositiveScale::One) => (11, 'B', 't'),
        Unit::BitPerSecond(PositiveScale::Kilo) => (15, 'K', 'l'),
        Unit::BitPerSecond(PositiveScale::Mega) => (15, 'M', 'g'),
        Unit::BitPerSecond(PositiveScale::Giga) => (15, 'G', 'g'),
        Unit::BitPerSecond(PositiveScale::Tera) => (15, 'T', 'r'),
        Unit::Custom(_) => (0, ' ', ' '),
    }
}

proof fn marks_of_names(unit: Unit)
    requires
        !(unit is Custom),
    ensures
        marks(unit_name(unit)) == marks_of(unit),
{
    reveal_strlit("Bits");
    reveal_strlit("Bits/Second");
    reveal_strlit("Bytes");
    reveal_strlit("Bytes/Second");
    reveal_strlit("Count");
    reveal_strlit("Microseconds");
    reveal_strlit("Milliseconds");
    reveal_strlit("None");
    reveal_strlit("Percent");
    reveal_strlit("Seconds");
    reveal_strlit("Kilo");
    reveal_strlit("Mega");
    reveal_strlit("Giga");
    reveal_strlit("Tera");
    reveal_strlit("bytes");
    reveal_strlit("bits");
    reveal_strlit("bytes/Second");
    reveal_strlit("bits/Second");
}

/// The multiple whose prefix starts with a letter.
spec fn scale_with(letter: char) -> PositiveScale {
    if letter == 'K' {
        PositiveScale::Kilo
    } else if letter == 'M' {
        PositiveScale::Mega
    } else if letter == 'G' {
        PositiveScale::Giga
    } else {
        PositiveScale::Tera
    }
}

/// The unit whose name has the marks.
spec fn unit_with(marks: (nat, char, char)) -> Unit {
    let (n, first, third) = marks;
    if n == 4 {
        if first == 'N' {
            Unit::NoUnit
        } else {
            Unit::Bit(PositiveScale::One)
        }
    } else if n == 5 {
        if first == 'C' {
            Unit::Count
        } else {
            Unit::Byte(PositiveScale::One)
        }
    } else if n == 7 {
        if first == 'P' {
            Unit::Percent
        } else {
            Unit::Second(NegativeScale::One)
        }
    } else if n == 12 {
        if first == 'B' {
            Unit::BytePerSecond(PositiveScale::One)
        } else if third == 'c' {
            Unit::Second(NegativeScale::Micro)
        } else {
            Unit::Second(NegativeScale::Milli)
        }
    } else if n == 11 {
        Unit::BitPerSecond(PositiveScale::One)
    } else if n == 9 {
        Unit::Byte(scale_with(first))
    } else if n == 16 {
        Unit::BytePerSecond(scale_with(first))
    } else if n == 8 {
        Unit::Bit(scale_with(first))
    } else {
        Unit::BitPerSecond(scale_with(first))
    }
}

proof fn marks_tell_units(unit: Unit)
    requires
        !(unit is Custom),
    ensures
        unit_with(marks_of(unit)) == unit,
{
}

proof fn names_tell_units(a: Unit, b: Unit)
    requires
        !(a is Custom),
        !(b is Custom),
        unit_name(a) == unit_name(b),
    ensures
        a == b,
{
    assert(marks_of(a) == marks_of(b)) by {
        marks_of_names(a);
        marks_of_names(b);
    }
    marks_tell_units(a);
    marks_tell_units(b);
}

/// Units that are not given by a name of their own have different names, and they are taken for
/// each other only if they are the same. Units given by name are told apart by name.
pub proof fn units_are_told_apart(a: Unit, b: Unit)
    ensures
        !(a is Custom) && !(b is Custom) && unit_name(a) == unit_name(b) ==> a == b,
        same_unit(a, a),
        same_unit(a, b) == same_unit(b, a),
        same_unit(a, b) && !(a is Custom) ==> a == b,
        a is Custom && b is Custom ==> (same_unit(a, b) <==> unit_name(a) == unit_name(b)),
{
    if !(a is Custom) && !(b is Custom) && unit_name(a) == unit_name(b) {
        names_tell_units(a, b);
    }
}

/// The names of the units: the prefix for a multiple or a fraction, and the base unit.
pub proof fn names_of_units()
    ensures
        unit_name(Unit::NoUnit) == "None"@,
        unit_name(Unit::Count) == "Count"@,
        unit_name(Unit::Percent) == "Percent"@,
        unit_name(Unit::Second(NegativeScale::Micro)) == "Microseconds"@,
        unit_name(Unit::Second(NegativeScale::Milli)) == "Milliseconds"@,
        unit_name(Unit::Second(NegativeScale::One)) == "Seconds"@,
        unit_name(Unit::Byte(PositiveScale::One)) == "Bytes"@,
        unit_name(Unit::Byte(PositiveScale::Kilo)) == "Kilobytes"@,
        unit_name(Unit::Byte(PositiveScale::Mega)) == "Megabytes"@,
        unit_name(Unit::Byte(PositiveScale::Giga)) == "Gigabytes"@,
        unit_name(Unit::Byte(PositiveScale::Tera)) == "Terabytes"@,
        unit_name(Unit::BytePerSecond(PositiveScale::One)) == "Bytes/Second"@,
        unit_name(Unit::BytePerSecond(PositiveScale::Kilo)) == "Kilobytes/Second"@,
        unit_name(Unit::BytePerSecond(PositiveScale::Mega)) == "Megabytes/Second"@,
        unit_name(Unit::BytePerSecond(PositiveScale::Giga)) == "Gigabytes/Second"@,
        unit_name(Unit::BytePerSecond(PositiveScale::Tera)) == "Terabytes/Second"@,
        unit_name(Unit::Bit(PositiveScale::One)) == "Bits"@,
        unit_name(Unit::Bit(PositiveScale::Kilo)) == "Kilobits"@,
        unit_name(Unit::Bit(PositiveScale::Mega)) == "Megabits"@,
        unit_name(Unit::Bit(PositiveScale::Giga)) == "Gigabits"@,
        unit_name(Unit::Bit(PositiveScale::Tera)) == "Terabits"@,
        unit_name(Unit::BitPerSecond(PositiveScale::One)) == "Bits/Second"@,
        unit_name(Unit::BitPerSecond(PositiveScale::Kilo)) == "Kilobits/Second"@,
        unit_name(Unit::BitPerSecond(PositiveScale::Mega)) == "Megabits/Second"@,
        unit_name(Unit::BitPerSecond(PositiveScale::Giga)) == "Gigabits/Second"@,
        unit_name(Unit::BitPerSecond(PositiveScale::Tera)) == "Terabits/Second"@,
{
    reveal_strlit("Bits");
    reveal_strlit("Bits/Second");
    reveal_strlit("Bytes");
    reveal_strlit("Bytes/Second");
    reveal_strlit("Count");
    reveal_strlit("Giga");
    reveal_strlit("Gigabits");
    reveal_strlit("Gigabits/Second");
    reveal_strlit("Gigabytes");
    reveal_strlit("Gigabytes/Second");
    reveal_strlit("Kilo");
    reveal_strlit("Kilobits");
    reveal_strlit("Kilobits/Second");
    reveal_strlit("Kilobytes");
    reveal_strlit("Kilobytes/Second");
    reveal_strlit("Mega");
    reveal_strlit("Megabits");
    reveal_strlit("Megabits/Second");
    reveal_strlit("Megabytes");
    reveal_strlit("Megabytes/Second");
    reveal_strlit("Microseconds");
    reveal_strlit("Milliseconds");
    reveal_strlit("None");
    reveal_strlit("Percent");
    reveal_strlit("Seconds");
    reveal_strlit("Tera");
    reveal_strlit("Terabits");
    reveal_strlit("Terabits/Second");
    reveal_strlit("Terabytes");
    reveal_strlit("Terabytes/Second");
    reveal_strlit("bits");
    reveal_strlit("bits/Second");
    reveal_strlit("bytes");
    reveal_strlit("bytes/Second");
    assert(unit_name(Unit::Byte(PositiveScale::Kilo)) =~= "Kilobytes"@);
    assert(unit_name(Unit::Byte(PositiveScale::Mega)) =~= "Megabytes"@);
    assert(unit_name(Unit::Byte(PositiveScale::Giga)) =~= "Gigabytes"@);
    assert(unit_name(Unit::Byte(PositiveScale::Tera)) =~= "Terabytes"@);
    assert(unit_name(Unit::BytePerSecond(PositiveScale::Kilo)) =~= "Kilobytes/Second"@);
    assert(unit_name(Unit::BytePerSecond(PositiveScale::Mega)) =~= "Megabytes/Second"@);
    assert(unit_name(Unit::BytePerSecond(PositiveScale::Giga)) =~= "Gigabytes/Second"@);
    assert(unit_name(Unit::BytePerSecond(PositiveScale::Tera)) =~= "Terabytes/Second"@);
    assert(unit_name(Unit::Bit(PositiveScale::Kilo)) =~= "Kilobits"@);
    assert(unit_name(Unit::Bit(PositiveScale::Mega)) =~= "Megabits"@);
    assert(unit_name(Unit::Bit(PositiveScale::Giga)) =~= "Gigabits"@);
    assert(unit_name(Unit::Bit(PositiveScale::Tera)) =~= "Terabits"@);
    assert(unit_name(Unit::BitPerSecond(PositiveScale::Kilo)) =~= "Kilobits/Second"@);
    assert(unit_name(Unit::BitPerSecond(PositiveScale::Mega)) =~= "Megabits/Second"@);
    assert(unit_name(Unit::BitPerSecond(PositiveScale::Giga)) =~= "Gigabits/Second"@);
    assert(unit_name(Unit::BitPerSecond(PositiveScale::Tera)) =~= "Terabits/Second"@);
}

/// Each tag stands for the unit that it is named after.
pub proof fn tags_stand_for_units()
    ensures
        NoUnit::tag() == Unit::NoUnit,
        Count::tag() == Unit::Count,
        Percent::tag() == Unit::Percent,
        Second::tag() == Unit::Second(NegativeScale::One),
        Millisecond::tag() == Unit::Second(NegativeScale::Milli),
        Microsecond::tag() == Unit::Second(NegativeScale::Micro),
        Byte::tag() == Unit::Byte(PositiveScale::One),
        Kilobyte::tag() == Unit::Byte(PositiveScale::Kilo),
        Megabyte::tag() == Unit::Byte(PositiveScale::Mega),
        Gigabyte::tag() == Unit::Byte(PositiveScale::Giga),
        Terabyte::tag() == Unit::Byte(PositiveScale::Tera),
        BytePerSecond::tag() == Unit::BytePerSecond(PositiveScale::One),
        KilobytePerSecond::tag() == Unit::BytePerSecond(PositiveScale::Kilo),
        MegabytePerSecond::tag() == Unit::BytePerSecond(PositiveScale::Mega),
        GigabytePerSecond::tag() == Unit::BytePerSecond(PositiveScale::Giga),
        TerabytePerSecond::tag() == Unit::BytePerSecond(PositiveScale::Tera),
        Bit::tag() == Unit::Bit(PositiveScale::One),
        Kilobit::tag() == Unit::Bit(PositiveScale::Kilo),
        Megabit::tag() == Unit::Bit(PositiveScale::Mega),
        Gigabit::tag() == Unit::Bit(PositiveScale::Giga),
        Terabit::tag() == Unit::Bit(PositiveScale::Tera),
        BitPerSecond::tag() == Unit::BitPerSecond(PositiveScale::One),
        KilobitPerSecond::tag() == Unit::BitPerSecond(PositiveScale::Kilo),
        MegabitPerSecond::tag() == Unit::BitPerSecond(PositiveScale::Mega),
        GigabitPerSecond::tag() == Unit::BitPerSecond(PositiveScale::Giga),
        TerabitPerSecond::tag() == Unit::BitPerSecond(PositiveScale::Tera),
{
}

/// A unit that is given by its name has that name. A fraction of a second takes a thousand or a
/// million to make up a second, and a multiple is made up of a thousand, a million, a milliard or a
/// billion.
pub proof fn scales_of_units(name: &'static str)
    ensures
        unit_name(Unit::Custom(name)) == name@,
        reduction(NegativeScale::One) == 1,
        reduction(NegativeScale::Milli) == 1_000,
        reduction(NegativeScale::Micro) == 1_000_000,
        expansion(PositiveScale::One) == 1,
        expansion(PositiveScale::Kilo) == 1_000,
        expansion(PositiveScale::Mega) == 1_000_000,
        expansion(PositiveScale::Giga) == 1_000_000_000,
        expansion(PositiveScale::Tera) == 1_000_000_000_000,
{
}

} // verus!
