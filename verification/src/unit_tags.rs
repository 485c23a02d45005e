//! The units as types.

use vstd::prelude::*;

use crate::unit::{
    data_ratio, time_ratio, BitTag, Convert, NegativeScale, PositiveScale, Ratio, TimeTag, Unit,
    UnitTag,
};
use crate::with_unit::WithUnit;

verus! {

/// Tags a value with no unit.
pub struct NoUnit;

impl UnitTag for NoUnit {
    open spec fn tag() -> Unit {
        Unit::NoUnit
    }

    fn unit() -> (u: Unit) {
        Unit::NoUnit
    }
}

/// A value that is converted to no unit when it is written.
pub type AsNone<V> = WithUnit<V, NoUnit>;

impl<U: UnitTag> Convert<U> for NoUnit {
    open spec fn ratio_spec() -> Ratio {
        Ratio { numerator: 1, denominator: 1 }
    }

    fn ratio() -> (r: Ratio) {
        Ratio { numerator: 1, denominator: 1 }
    }
}

/// Tags a value with a count.
pub struct Count;

impl UnitTag for Count {
    open spec fn tag() -> Unit {
        Unit::Count
    }

    fn unit() -> (u: Unit) {
        Unit::Count
    }
}

/// A value that is converted to a count when it is written.
pub type AsCount<V> = WithUnit<V, Count>;

/// Tags a value with a percentage.
pub struct Percent;

impl UnitTag for Percent {
    open spec fn tag() -> Unit {
        Unit::Percent
    }

    fn unit() -> (u: Unit) {
        Unit::Percent
    }
}

/// A value that is converted to a percentage when it is written.
pub type AsPercent<V> = WithUnit<V, Percent>;

/// Tags a value with seconds.
pub struct Second;

impl UnitTag for Second {
    open spec fn tag() -> Unit {
        Unit::Second(NegativeScale::One)
    }

    fn unit() -> (u: Unit) {
        Unit::Second(NegativeScale::One)
    }
}

/// A value that is converted to seconds when it is written.
pub type AsSeconds<V> = WithUnit<V, Second>;

impl TimeTag for Second {
    open spec fn from_seconds_spec() -> u64 {
        1
    }

    fn from_seconds() -> (n: u64) {
        1
    }

    proof fn scale_fits() {
    }
}

impl<U: TimeTag> Convert<U> for Second {
    open spec fn ratio_spec() -> Ratio {
        time_ratio(Self::from_seconds_spec(), U::from_seconds_spec())
    }

    fn ratio() -> (r: Ratio) {
        Ratio { numerator: U::from_seconds(), denominator: Self::from_seconds() }
    }
}

/// Tags a value with milliseconds.
pub struct Millisecond;

impl UnitTag for Millisecond {
    open spec fn tag() -> Unit {
        Unit::Second(NegativeScale::Milli)
    }

    fn unit() -> (u: Unit) {
        Unit::Second(NegativeScale::Milli)
    }
}

/// A value that is converted to milliseconds when it is written.
pub type AsMilliseconds<V> = WithUnit<V, Millisecond>;

impl TimeTag for Millisecond {
    open spec fn from_seconds_spec() -> u64 {
        1_000
    }

    fn from_seconds() -> (n: u64) {
        1_000
    }

    proof fn scale_fits() {
    }
}

impl<U: TimeTag> Convert<U> for Millisecond {
    open spec fn ratio_spec() -> Ratio {
        time_ratio(Self::from_seconds_spec(), U::from_seconds_spec())
    }

    fn ratio() -> (r: Ratio) {
        Ratio { numerator: U::from_seconds(), denominator: Self::from_seconds() }
    }
}

/// Tags a value with microseconds.
pub struct Microsecond;

impl UnitTag for Microsecond {
    open spec fn tag() -> Unit {
        Unit::Second(NegativeScale::Micro)
    }

    fn unit() -> (u: Unit) {
        Unit::Second(NegativeScale::Micro)
    }
}

/// A value that is converted to microseconds when it is written.
pub type AsMicroseconds<V> = WithUnit<V, Microsecond>;

impl TimeTag for Microsecond {
    open spec fn from_seconds_spec() -> u64 {
        1_000_000
    }

    fn from_seconds() -> (n: u64) {
        1_000_000
    }

    proof fn scale_fits() {
    }
}

impl<U: TimeTag> Convert<U> for Microsecond {
    open spec fn ratio_spec() -> Ratio {
        time_ratio(Self::from_seconds_spec(), U::from_seconds_spec())
    }

    fn ratio() -> (r: Ratio) {
        Ratio { numerator: U::from_seconds(), denominator: Self::from_seconds() }
    }
}

/// Tags a value with bytes.
pub struct Byte;

impl UnitTag for Byte {
    open spec fn tag() -> Unit {
        Unit::Byte(PositiveScale::One)
    }

    fn unit() -> (u: Unit) {
        Unit::Byte(PositiveScale::One)
    }
}

/// A value that is converted to bytes when it is written.
pub type AsBytes<V> = WithUnit<V, Byte>;

impl BitTag for Byte {
    open spec fn from_bits_spec() -> u64 {
        8
    }

    fn from_bits() -> (n: u64) {
        8
    }

    proof fn scale_fits() {
    }
}

impl<U: BitTag> Convert<U> for Byte {
    open spec fn ratio_spec() -> Ratio {
        data_ratio(Self::from_bits_spec(), U::from_bits_spec())
    }

    fn ratio() -> (r: Ratio) {
        Ratio { numerator: Self::from_bits(), denominator: U::from_bits() }
    }
}

/// Tags a value with kilobytes.
pub struct Kilobyte;

impl UnitTag for Kilobyte {
    open spec fn tag() -> Unit {
        Unit::Byte(PositiveScale::Kilo)
    }

    fn unit() -> (u: Unit) {
        Unit::Byte(PositiveScale::Kilo)
    }
}

/// A value that is converted to kilobytes when it is written.
pub type AsKilobytes<V> = WithUnit<V, Kilobyte>;

impl BitTag for Kilobyte {
    open spec fn from_bits_spec() -> u64 {
        8_000
    }

    fn from_bits() -> (n: u64) {
        8_000
    }

    proof fn scale_fits() {
    }
}

impl<U: BitTag> Convert<U> for Kilobyte {
    open spec fn ratio_spec() -> Ratio {
        data_ratio(Self::from_bits_spec(), U::from_bits_spec())
    }

    fn ratio() -> (r: Ratio) {
        Ratio { numerator: Self::from_bits(), denominator: U::from_bits() }
    }
}

/// Tags a value with megabytes.
pub struct Megabyte;

impl UnitTag for Megabyte {
    open spec fn tag() -> Unit {
        Unit::Byte(PositiveScale::Mega)
    }

    fn unit() -> (u: Unit) {
        Unit::Byte(PositiveScale::Mega)
    }
}

/// A value that is converted to megabytes when it is written.
pub type AsMegabytes<V> = WithUnit<V, Megabyte>;

impl BitTag for Megabyte {
    open spec fn from_bits_spec() -> u64 {
        8_000_000
    }

    fn from_bits() -> (n: u64) {
        8_000_000
    }

    proof fn scale_fits() {
    }
}

impl<U: BitTag> Convert<U> for Megabyte {
    open spec fn ratio_spec() -> Ratio {
        data_ratio(Self::from_bits_spec(), U::from_bits_spec())
    }

    fn ratio() -> (r: Ratio) {
        Ratio { numerator: Self::from_bits(), denominator: U::from_bits() }
    }
}

/// Tags a value with gigabytes.
pub struct Gigabyte;

impl UnitTag for Gigabyte {
    open spec fn tag() -> Unit {
        Unit::Byte(PositiveScale::Giga)
    }

    fn unit() -> (u: Unit) {
        Unit::Byte(PositiveScale::Giga)
    }
}

/// A value that is converted to gigabytes when it is written.
pub type AsGigabytes<V> = WithUnit<V, Gigabyte>;

impl BitTag for Gigabyte {
    open spec fn from_bits_spec() -> u64 {
        8_000_000_000
    }

    fn from_bits() -> (n: u64) {
        8_000_000_000
    }

    proof fn scale_fits() {
    }
}

impl<U: BitTag> Convert<U> for Gigabyte {
    open spec fn ratio_spec() -> Ratio {
        data_ratio(Self::from_bits_spec(), U::from_bits_spec())
    }

    fn ratio() -> (r: Ratio) {
        Ratio { numerator: Self::from_bits(), denominator: U::from_bits() }
    }
}

/// Tags a value with terabytes.
pub struct Terabyte;

impl UnitTag for Terabyte {
    open spec fn tag() -> Unit {
        Unit::Byte(PositiveScale::Tera)
    }

    fn unit() -> (u: Unit) {
        Unit::Byte(PositiveScale::Tera)
    }
}

/// A value that is converted to terabytes when it is written.
pub type AsTerabytes<V> = WithUnit<V, Terabyte>;

impl BitTag for Terabyte {
    open spec fn from_bits_spec() -> u64 {
        8_000_000_000_000
    }

    fn from_bits() -> (n: u64) {
        8_000_000_000_000
    }

    proof fn scale_fits() {
    }
}

impl<U: BitTag> Convert<U> for Terabyte {
    open spec fn ratio_spec() -> Ratio {
        data_ratio(Self::from_bits_spec(), U::from_bits_spec())
    }

    fn ratio() -> (r: Ratio) {
        Ratio { numerator: Self::from_bits(), denominator: U::from_bits() }
    }
}

/// Tags a value with bits.
pub struct Bit;

impl UnitTag for Bit {
    open spec fn tag() -> Unit {
        Unit::Bit(PositiveScale::One)
    }

    fn unit() -> (u: Unit) {
        Unit::Bit(PositiveScale::One)
    }
}

/// A value that is converted to bits when it is written.
pub type AsBits<V> = WithUnit<V, Bit>;

impl BitTag for Bit {
    open spec fn from_bits_spec() -> u64 {
        1
    }

    fn from_bits() -> (n: u64) {
        1
    }

    proof fn scale_fits() {
    }
}

impl<U: BitTag> Convert<U> for Bit {
    open spec fn ratio_spec() -> Ratio {
        data_ratio(Self::from_bits_spec(), U::from_bits_spec())
    }

    fn ratio() -> (r: Ratio) {
        Ratio { numerator: Self::from_bits(), denominator: U::from_bits() }
    }
}

/// Tags a value with kilobits.
pub struct Kilobit;

impl UnitTag for Kilobit {
    open spec fn tag() -> Unit {
        Unit::Bit(PositiveScale::Kilo)
    }

    fn unit() -> (u: Unit) {
        Unit::Bit(PositiveScale::Kilo)
    }
}

/// A value that is converted to kilobits when it is written.
pub type AsKilobits<V> = WithUnit<V, Kilobit>;

impl BitTag for Kilobit {
    open spec fn from_bits_spec() -> u64 {
        1_000
    }

    fn from_bits() -> (n: u64) {
        1_000
    }

    proof fn scale_fits() {
    }
}

impl<U: BitTag> Convert<U> for Kilobit {
    open spec fn ratio_spec() -> Ratio {
        data_ratio(Self::from_bits_spec(), U::from_bits_spec())
    }

    fn ratio() -> (r: Ratio) {
        Ratio { numerator: Self::from_bits(), denominator: U::from_bits() }
    }
}

/// Tags a value with megabits.
pub struct Megabit;

impl UnitTag for Megabit {
    open spec fn tag() -> Unit {
        Unit::Bit(PositiveScale::Mega)
    }

    fn unit() -> (u: Unit) {
        Unit::Bit(PositiveScale::Mega)
    }
}

/// A value that is converted to megabits when it is written.
pub type AsMegabits<V> = WithUnit<V, Megabit>;

impl BitTag for Megabit {
    open spec fn from_bits_spec() -> u64 {
        1_000_000
    }

    fn from_bits() -> (n: u64) {
        1_000_000
    }

    proof fn scale_fits() {
    }
}

impl<U: BitTag> Convert<U> for Megabit {
    open spec fn ratio_spec() -> Ratio {
        data_ratio(Self::from_bits_spec(), U::from_bits_spec())
    }

    fn ratio() -> (r: Ratio) {
        Ratio { numerator: Self::from_bits(), denominator: U::from_bits() }
    }
}

/// Tags a value with gigabits.
pub struct Gigabit;

impl UnitTag for Gigabit {
    open spec fn tag() -> Unit {
        Unit::Bit(PositiveScale::Giga)
    }

    fn unit() -> (u: Unit) {
        Unit::Bit(PositiveScale::Giga)
    }
}

/// A value that is converted to gigabits when it is written.
pub type AsGigabits<V> = WithUnit<V, Gigabit>;

impl BitTag for Gigabit {
    open spec fn from_bits_spec() -> u64 {
        1_000_000_000
    }

    fn from_bits() -> (n: u64) {
        1_000_000_000
    }

    proof fn scale_fits() {
    }
}

impl<U: BitTag> Convert<U> for Gigabit {
    open spec fn ratio_spec() -> Ratio {
        data_ratio(Self::from_bits_spec(), U::from_bits_spec())
    }

    fn ratio() -> (r: Ratio) {
        Ratio { numerator: Self::from_bits(), denominator: U::from_bits() }
    }
}

/// Tags a value with terabits.
pub struct Terabit;

impl UnitTag for Terabit {
    open spec fn tag() -> Unit {
        Unit::Bit(PositiveScale::Tera)
    }

    fn unit() -> (u: Unit) {
        Unit::Bit(PositiveScale::Tera)
    }
}

/// A value that is converted to terabits when it is written.
pub type AsTerabits<V> = WithUnit<V, Terabit>;

impl BitTag for Terabit {
    open spec fn from_bits_spec() -> u64 {
        1_000_000_000_000
    }

    fn from_bits() -> (n: u64) {
        1_000_000_000_000
    }

    proof fn scale_fits() {
    }
}

impl<U: BitTag> Convert<U> for Terabit {
    open spec fn ratio_spec() -> Ratio {
        data_ratio(Self::from_bits_spec(), U::from_bits_spec())
    }

    fn ratio() -> (r: Ratio) {
        Ratio { numerator: Self::from_bits(), denominator: U::from_bits() }
    }
}

/// Tags a value with bytes per second.
pub struct BytePerSecond;

impl UnitTag for BytePerSecond {
    open spec fn tag() -> Unit {
        Unit::BytePerSecond(PositiveScale::One)
    }

    fn unit() -> (u: Unit) {
        Unit::BytePerSecond(PositiveScale::One)
    }
}

/// A value that is converted to bytes per second when it is written.
pub type AsBytesPerSecond<V> = WithUnit<V, BytePerSecond>;

impl BitTag for BytePerSecond {
    open spec fn from_bits_spec() -> u64 {
        8
    }

    fn from_bits() -> (n: u64) {
        8
    }

    proof fn scale_fits() {
    }
}

impl<U: BitTag> Convert<U> for BytePerSecond {
    open spec fn ratio_spec() -> Ratio {
        data_ratio(Self::from_bits_spec(), U::from_bits_spec())
    }

    fn ratio() -> (r: Ratio) {
        Ratio { numerator: Self::from_bits(), denominator: U::from_bits() }
    }
}

/// Tags a value with kilobytes per second.
pub struct KilobytePerSecond;

impl UnitTag for KilobytePerSecond {
    open spec fn tag() -> Unit {
        Unit::BytePerSecond(PositiveScale::Kilo)
    }

    fn unit() -> (u: Unit) {
        Unit::BytePerSecond(PositiveScale::Kilo)
    }
}

/// A value that is converted to kilobytes per second when it is written.
pub type AsKilobytesPerSecond<V> = WithUnit<V, KilobytePerSecond>;

impl BitTag for KilobytePerSecond {
    open spec fn from_bits_spec() -> u64 {
        8_000
    }

    fn from_bits() -> (n: u64) {
        8_000
    }

    proof fn scale_fits() {
    }
}

impl<U: BitTag> Convert<U> for KilobytePerSecond {
    open spec fn ratio_spec() -> Ratio {
        data_ratio(Self::from_bits_spec(), U::from_bits_spec())
    }

    fn ratio() -> (r: Ratio) {
        Ratio { numerator: Self::from_bits(), denominator: U::from_bits() }
    }
}

/// Tags a value with megabytes per second.
pub struct MegabytePerSecond;

impl UnitTag for MegabytePerSecond {
    open spec fn tag() -> Unit {
        Unit::BytePerSecond(PositiveScale::Mega)
    }

    fn unit() -> (u: Unit) {
        Unit::BytePerSecond(PositiveScale::Mega)
    }
}

/// A value that is converted to megabytes per second when it is written.
pub type AsMegabytesPerSecond<V> = WithUnit<V, MegabytePerSecond>;

impl BitTag for MegabytePerSecond {
    open spec fn from_bits_spec() -> u64 {
        8_000_000
    }

    fn from_bits() -> (n: u64) {
        8_000_000
    }

    proof fn scale_fits() {
    }
}

impl<U: BitTag> Convert<U> for MegabytePerSecond {
    open spec fn ratio_spec() -> Ratio {
        data_ratio(Self::from_bits_spec(), U::from_bits_spec())
    }

    fn ratio() -> (r: Ratio) {
        Ratio { numerator: Self::from_bits(), denominator: U::from_bits() }
    }
}

/// Tags a value with gigabytes per second.
pub struct GigabytePerSecond;

impl UnitTag for GigabytePerSecond {
    open spec fn tag() -> Unit {
        Unit::BytePerSecond(PositiveScale::Giga)
    }

    fn unit() -> (u: Unit) {
        Unit::BytePerSecond(PositiveScale::Giga)
    }
}

/// A value that is converted to gigabytes per second when it is written.
pub type AsGigabytesPerSecond<V> = WithUnit<V, GigabytePerSecond>;

impl BitTag for GigabytePerSecond {
    open spec fn from_bits_spec() -> u64 {
        8_000_000_000
    }

    fn from_bits() -> (n: u64) {
        8_000_000_000
    }

    proof fn scale_fits() {
    }
}

impl<U: BitTag> Convert<U> for GigabytePerSecond {
    open spec fn ratio_spec() -> Ratio {
        data_ratio(Self::from_bits_spec(), U::from_bits_spec())
    }

    fn ratio() -> (r: Ratio) {
        Ratio { numerator: Self::from_bits(), denominator: U::from_bits() }
    }
}

/// Tags a value with terabytes per second.
pub struct TerabytePerSecond;

impl UnitTag for TerabytePerSecond {
    open spec fn tag() -> Unit {
        Unit::BytePerSecond(PositiveScale::Tera)
    }

    fn unit() -> (u: Unit) {
        Unit::BytePerSecond(PositiveScale::Tera)
    }
}

/// A value that is converted to terabytes per second when it is written.
pub type AsTerabytesPerSecond<V> = WithUnit<V, TerabytePerSecond>;

impl BitTag for TerabytePerSecond {
    open spec fn from_bits_spec() -> u64 {
        8_000_000_000_000
    }

    fn from_bits() -> (n: u64) {
        8_000_000_000_000
    }

    proof fn scale_fits() {
    }
}

impl<U: BitTag> Convert<U> for TerabytePerSecond {
    open spec fn ratio_spec() -> Ratio {
        data_ratio(Self::from_bits_spec(), U::from_bits_spec())
    }

    fn ratio() -> (r: Ratio) {
        Ratio { numerator: Self::from_bits(), denominator: U::from_bits() }
    }
}

/// Tags a value with bits per second.
pub struct BitPerSecond;

impl UnitTag for BitPerSecond {
    open spec fn tag() -> Unit {
        Unit::BitPerSecond(PositiveScale::One)
    }

    fn unit() -> (u: Unit) {
        Unit::BitPerSecond(PositiveScale::One)
    }
}

/// A value that is converted to bits per second when it is written.
pub type AsBitsPerSecond<V> = WithUnit<V, BitPerSecond>;

impl BitTag for BitPerSecond {
    open spec fn from_bits_spec() -> u64 {
        1
    }

    fn from_bits() -> (n: u64) {
        1
    }

    proof fn scale_fits() {
    }
}

impl<U: BitTag> Convert<U> for BitPerSecond {
    open spec fn ratio_spec() -> Ratio {
        data_ratio(Self::from_bits_spec(), U::from_bits_spec())
    }

    fn ratio() -> (r: Ratio) {
        Ratio { numerator: Self::from_bits(), denominator: U::from_bits() }
    }
}

/// Tags a value with kilobits per second.
pub struct KilobitPerSecond;

impl UnitTag for KilobitPerSecond {
    open spec fn tag() -> Unit {
        Unit::BitPerSecond(PositiveScale::Kilo)
    }

    fn unit() -> (u: Unit) {
        Unit::BitPerSecond(PositiveScale::Kilo)
    }
}

/// A value that is converted to kilobits per second when it is written.
pub type AsKilobitsPerSecond<V> = WithUnit<V, KilobitPerSecond>;

impl BitTag for KilobitPerSecond {
    open spec fn from_bits_spec() -> u64 {
        1_000
    }

    fn from_bits() -> (n: u64) {
        1_000
    }

    proof fn scale_fits() {
    }
}

impl<U: BitTag> Convert<U> for KilobitPerSecond {
    open spec fn ratio_spec() -> Ratio {
        data_ratio(Self::from_bits_spec(), U::from_bits_spec())
    }

    fn ratio() -> (r: Ratio) {
        Ratio { numerator: Self::from_bits(), denominator: U::from_bits() }
    }
}

/// Tags a value with megabits per second.
pub struct MegabitPerSecond;

impl UnitTag for MegabitPerSecond {
    open spec fn tag() -> Unit {
        Unit::BitPerSecond(PositiveScale::Mega)
    }

    fn unit() -> (u: Unit) {
        Unit::BitPerSecond(PositiveScale::Mega)
    }
}

/// A value that is converted to megabits per second when it is written.
pub type AsMegabitsPerSecond<V> = WithUnit<V, MegabitPerSecond>;

impl BitTag for MegabitPerSecond {
    open spec fn from_bits_spec() -> u64 {
        1_000_000
    }

    fn from_bits() -> (n: u64) {
        1_000_000
    }

    proof fn scale_fits() {
    }
}

impl<U: BitTag> Convert<U> for MegabitPerSecond {
    open spec fn ratio_spec() -> Ratio {
        data_ratio(Self::from_bits_spec(), U::from_bits_spec())
    }

    fn ratio() -> (r: Ratio) {
        Ratio { numerator: Self::from_bits(), denominator: U::from_bits() }
    }
}

/// Tags a value with gigabits per second.
pub struct GigabitPerSecond;

impl UnitTag for GigabitPerSecond {
    open spec fn tag() -> Unit {
        Unit::BitPerSecond(PositiveScale::Giga)
    }

    fn unit() -> (u: Unit) {
        Unit::BitPerSecond(PositiveScale::Giga)
    }
}

/// A value that is converted to gigabits per second when it is written.
pub type AsGigabitsPerSecond<V> = WithUnit<V, GigabitPerSecond>;

impl BitTag for GigabitPerSecond {
    open spec fn from_bits_spec() -> u64 {
        1_000_000_000
    }

    fn from_bits() -> (n: u64) {
        1_000_000_000
    }

    proof fn scale_fits() {
    }
}

impl<U: BitTag> Convert<U> for GigabitPerSecond {
    open spec fn ratio_spec() -> Ratio {
        data_ratio(Self::from_bits_spec(), U::from_bits_spec())
    }

    fn ratio() -> (r: Ratio) {
        Ratio { numerator: Self::from_bits(), denominator: U::from_bits() }
    }
}

/// Tags a value with terabits per second.
pub struct TerabitPerSecond;

impl UnitTag for TerabitPerSecond {
    open spec fn tag() -> Unit {
        Unit::BitPerSecond(PositiveScale::Tera)
    }

    fn unit() -> (u: Unit) {
        Unit::BitPerSecond(PositiveScale::Tera)
    }
}

/// A value that is converted to terabits per second when it is written.
pub type AsTerabitsPerSecond<V> = WithUnit<V, TerabitPerSecond>;

impl BitTag for TerabitPerSecond {
    open spec fn from_bits_spec() -> u64 {
        1_000_000_000_000
    }

    fn from_bits() -> (n: u64) {
        1_000_000_000_000
    }

    proof fn scale_fits() {
    }
}

impl<U: BitTag> Convert<U> for TerabitPerSecond {
    open spec fn ratio_spec() -> Ratio {
        data_ratio(Self::from_bits_spec(), U::from_bits_spec())
    }

    fn ratio() -> (r: Ratio) {
        Ratio { numerator: Self::from_bits(), denominator: U::from_bits() }
    }
}

} // verus!
