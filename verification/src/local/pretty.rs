//! Values with units, in the form that is easiest to read.

use vstd::prelude::*;
use vstd::string::*;

use crate::float::{
    below_2_63, exponent_field, has_no_fraction, is_integral, is_nan, magnitude, truncate_to_i64,
    truncated,
};
use crate::local::percentile::ONE;
use crate::text::{decimal, itoa_u64};
use crate::unit::{expansion, reduction, unit_name, NegativeScale, PositiveScale, Unit};

verus! {

/// The arithmetic on doubles that the display of values needs.
pub struct DoubleMath<D, M, F> {
    /// The bits of a double divided by a number.
    pub divide: D,
    /// The bits of a double times a number.
    pub multiply: M,
    /// A double with that many digits after the point.
    pub fixed: F,
}

impl<D: Fn(u64, u64) -> u64, M: Fn(u64, u64) -> u64, F: Fn(u64, usize) -> String> DoubleMath<
    D,
    M,
    F,
> {
    /// Whether the arithmetic can be asked for any double.
    pub open spec fn total(self) -> bool {
        &&& forall|bits: u64, by: u64| by > 0 ==> call_requires(self.divide, (bits, by))
        &&& forall|bits: u64, by: u64| call_requires(self.multiply, (bits, by))
        &&& forall|bits: u64, digits: usize| call_requires(self.fixed, (bits, digits))
    }

    /// Whether `text` is the double with that many digits after the point, and `end`.
    pub open spec fn shows(self, bits: u64, digits: usize, end: Seq<char>, text: Seq<char>) -> bool {
        exists|shown: String|
            call_ensures(self.fixed, (bits, digits), shown) && text == #[trigger] shown@ + end
    }

    /// Whether `text` is the double times `by`, with that many digits after the point, and
    /// `end`.
    pub open spec fn shows_times(
        self,
        bits: u64,
        by: u64,
        digits: usize,
        end: Seq<char>,
        text: Seq<char>,
    ) -> bool {
        exists|product: u64| #[trigger]
            call_ensures(self.multiply, (bits, by), product) && self.shows(
                product,
                digits,
                end,
                text,
            )
    }

    /// Whether `text` is the double divided by `by`, with that many digits after the point,
    /// and `end`.
    pub open spec fn shows_part(
        self,
        bits: u64,
        by: u64,
        digits: usize,
        end: Seq<char>,
        text: Seq<char>,
    ) -> bool {
        exists|quotient: u64| #[trigger]
            call_ensures(self.divide, (bits, by), quotient) && self.shows(
                quotient,
                digits,
                end,
                text,
            )
    }

    /// Whether `text` shows a number of seconds: in seconds from one second on, in
    /// milliseconds from one millisecond on, else in microseconds.
    pub open spec fn shows_duration(self, seconds: u64, text: Seq<char>) -> bool {
        if magnitude(seconds) == 0 {
            text == "0s"@
        } else if at_least(seconds, ONE) {
            self.shows(seconds, 3, "s"@, text)
        } else if at_least(seconds, MILLI) {
            self.shows_times(seconds, 1_000, 3, "ms"@, text)
        } else {
            self.shows_times(seconds, 1_000_000, 3, "μs"@, text)
        }
    }

    /// Whether `text` shows a number of bytes, in the greatest unit of which there is at
    /// least one.
    pub open spec fn shows_bytes(self, bytes: u64, text: Seq<char>) -> bool {
        if magnitude(bytes) == 0 {
            text == "0B"@
        } else if at_least(bytes, BILLION) {
            self.shows_part(bytes, 1_000_000_000, 2, "GB"@, text)
        } else if at_least(bytes, MILLION) {
            self.shows_part(bytes, 1_000_000, 2, "MB"@, text)
        } else if at_least(bytes, THOUSAND) {
            self.shows_part(bytes, 1_000, 2, "KB"@, text)
        } else {
            self.shows(bytes, 0, "B"@, text)
        }
    }

    /// Whether `text` shows a value in a unit.
    pub open spec fn shows_value(self, value: u64, unit: Unit, text: Seq<char>) -> bool {
        match unit {
            Unit::Second(scale) => exists|seconds: u64| #[trigger]
                call_ensures(self.divide, (value, reduction(scale)), seconds)
                    && self.shows_duration(seconds, text),
            Unit::Byte(scale) => exists|bytes: u64| #[trigger]
                call_ensures(self.multiply, (value, expansion(scale)), bytes) && self.shows_bytes(
                    bytes,
                    text,
                ),
            Unit::Percent => self.shows(value, 1, "%"@, text),
            Unit::Count => if is_integral(value) {
                text == signed_decimal(truncated(value) as int)
            } else {
                self.shows(value, 2, ""@, text)
            },
            Unit::NoUnit => if is_integral(value) && below_2_63(value) {
                text == signed_decimal(truncated(value) as int)
            } else {
                self.shows(value, 3, ""@, text)
            },
            _ => self.shows(value, 3, " "@ + unit_name(unit), text),
        }
    }

    /// The double with that many digits after the point, and `end`.
    fn show(&self, bits: u64, digits: usize, end: &str) -> (text: String)
        requires
            self.total(),
        ensures
            self.shows(bits, digits, end@, text@),
    {
        let fixed = &self.fixed;
        let shown = fixed(bits, digits);
        let mut text = shown.clone();
        text.append(end);
        assert(text@ == shown@ + end@);
        text
    }

    /// Shows a number of seconds.
    pub fn format_duration_smart(&self, seconds: u64) -> (text: String)
        requires
            self.total(),
        ensures
            self.shows_duration(seconds, text@),
    {
        let multiply = &self.multiply;
        if seconds % 0x8000_0000_0000_0000 == 0 {
            "0s".to_owned()
        } else if is_at_least(seconds, ONE) {
            self.show(seconds, 3, "s")
        } else if is_at_least(seconds, MILLI) {
            let product: u64 = multiply(seconds, 1_000);
            self.show(product, 3, "ms")
        } else {
            let product: u64 = multiply(seconds, 1_000_000);
            self.show(product, 3, "μs")
        }
    }

    /// Shows a number of bytes.
    pub fn format_bytes_smart(&self, bytes: u64) -> (text: String)
        requires
            self.total(),
        ensures
            self.shows_bytes(bytes, text@),
    {
        let divide = &self.divide;
        if bytes % 0x8000_0000_0000_0000 == 0 {
            "0B".to_owned()
        } else if is_at_least(bytes, BILLION) {
            let quotient: u64 = divide(bytes, 1_000_000_000);
            self.show(quotient, 2, "GB")
        } else if is_at_least(bytes, MILLION) {
            let quotient: u64 = divide(bytes, 1_000_000);
            self.show(quotient, 2, "MB")
        } else if is_at_least(bytes, THOUSAND) {
            let quotient: u64 = divide(bytes, 1_000);
            self.show(quotient, 2, "KB")
        } else {
            self.show(bytes, 0, "B")
        }
    }

    /// Shows a value in a unit.
    pub fn format_pretty_value(&self, value: u64, unit: Unit) -> (text: String)
        requires
            self.total(),
        ensures
            self.shows_value(value, unit, text@),
    {
        match unit {
            Unit::Second(scale) => {
                let divide = &self.divide;
                let factor: u64 = scale.reduction_factor();
                let seconds: u64 = divide(value, factor);
                self.format_duration_smart(seconds)
            },
            Unit::Byte(scale) => {
                let multiply = &self.multiply;
                let factor: u64 = scale.expansion_factor();
                let bytes: u64 = multiply(value, factor);
                self.format_bytes_smart(bytes)
            },
            Unit::Percent => self.show(value, 1, "%"),
            Unit::Count => {
                if has_no_fraction(value) {
                    signed_text(truncate_to_i64(value))
                } else {
                    self.show(value, 2, "")
                }
            },
            Unit::NoUnit => {
                if has_no_fraction(value) && is_below_2_63(value) {
                    signed_text(truncate_to_i64(value))
                } else {
                    self.show(value, 3, "")
                }
            },
            _ => {
                let mut end = " ".to_owned();
                end.append(unit.name());
                self.show(value, 3, end.as_str())
            },
        }
    }
}

/// The bits of 0.001.
pub const MILLI: u64 = 0x3f50_624d_d2f1_a9fc;

/// The bits of 1,000.
pub const THOUSAND: u64 = 0x408f_4000_0000_0000;

/// The bits of 1,000,000.
pub const MILLION: u64 = 0x412e_8480_0000_0000;

/// The bits of 1,000,000,000.
pub const BILLION: u64 = 0x41cd_cd65_0000_0000;

/// Whether the absolute value of a double is at least that of a positive one.
pub open spec fn at_least(bits: u64, limit: u64) -> bool {
    !is_nan(bits) && magnitude(bits) >= limit
}

/// The decimal digits of an integer, after a minus if it is negative.
pub open spec fn signed_decimal(n: int) -> Seq<char> {
    if n < 0 {
        "-"@ + decimal((-n) as nat)
    } else {
        decimal(n as nat)
    }
}

/// Whether the absolute value of a double is at least that of a positive one.
fn is_at_least(bits: u64, limit: u64) -> (res: bool)
    ensures
        res == at_least(bits, limit),
{
    let m: u64 = bits % 0x8000_0000_0000_0000;
    m <= 0x7ff0_0000_0000_0000 && m >= limit
}

/// Whether the absolute value of a double is below 2^63.
pub fn is_below_2_63(bits: u64) -> (res: bool)
    ensures
        res == below_2_63(bits),
{
    (bits % 0x8000_0000_0000_0000) / 0x10_0000_0000_0000 < 1086
}

/// The decimal digits of an integer, after a minus if it is negative.
pub fn signed_text(n: i64) -> (text: String)
    ensures
        text@ == signed_decimal(n as int),
{
    if n < 0 {
        let mut text = "-".to_owned();
        let wide: i128 = n as i128;
        text.append(itoa_u64((-wide) as u64).as_str());
        text
    } else {
        itoa_u64(n as u64)
    }
}

// ---------------------------------------------------------------------------
// What holds of all values that are shown
// ---------------------------------------------------------------------------

/// How many of a unit of time make up one second.
pub open spec fn in_a_second(scale: NegativeScale) -> u64 {
    match scale {
        NegativeScale::One => 1,
        NegativeScale::Milli => 1_000,
        NegativeScale::Micro => 1_000_000,
    }
}

/// How many bytes make up a multiple of a byte.
pub open spec fn bytes_of(scale: PositiveScale) -> u64 {
    match scale {
        PositiveScale::One => 1,
        PositiveScale::Kilo => 1_000,
        PositiveScale::Mega => 1_000_000,
        PositiveScale::Giga => 1_000_000_000,
        PositiveScale::Tera => 1_000_000_000_000,
    }
}

/// Whether a number, with three digits after the point, and a unit of time after it stand for that
/// many seconds: the number is `seconds` times as many as there are of the unit in a second.
pub open spec fn is_duration<D, M: Fn(u64, u64) -> u64, F: Fn(u64, usize) -> String>(
    math: DoubleMath<D, M, F>,
    seconds: u64,
    number: String,
    end: Seq<char>,
) -> bool {
    ||| end == "s"@ && call_ensures(math.fixed, (seconds, 3usize), number)
    ||| end == "ms"@ && exists|n: u64| #[trigger]
        call_ensures(math.multiply, (seconds, 1_000u64), n) && call_ensures(
            math.fixed,
            (n, 3usize),
            number,
        )
    ||| end == "μs"@ && exists|n: u64| #[trigger]
        call_ensures(math.multiply, (seconds, 1_000_000u64), n) && call_ensures(
            math.fixed,
            (n, 3usize),
            number,
        )
}

/// A time is shown as a number and a unit of time that together stand for as many seconds as the
/// value in its own unit does: in seconds if there is at least one, in milliseconds if there is at
/// least one of them, else in microseconds. No time at all is shown as `0s`.
pub proof fn times_are_shown<
    D: Fn(u64, u64) -> u64,
    M: Fn(u64, u64) -> u64,
    F: Fn(u64, usize) -> String,
>(math: DoubleMath<D, M, F>, value: u64, scale: NegativeScale, text: Seq<char>)
    requires
        math.shows_value(value, Unit::Second(scale), text),
    ensures
        exists|seconds: u64| #[trigger]
            call_ensures(math.divide, (value, in_a_second(scale)), seconds) && {
                let size = seconds % 0x8000_0000_0000_0000;
                let is_one = 0x3ff0_0000_0000_0000 <= size <= 0x7ff0_0000_0000_0000;
                let is_milli = 0x3f50_624d_d2f1_a9fc <= size <= 0x7ff0_0000_0000_0000;
                &&& size == 0 ==> text == "0s"@
                &&& size > 0 ==> exists|number: String, end: Seq<char>| #[trigger]
                    is_duration(math, seconds, number, end) && text == number@ + end && end == (
                    if is_one {
                        "s"@
                    } else if is_milli {
                        "ms"@
                    } else {
                        "μs"@
                    })
            },
{
    let seconds = choose|seconds: u64| #[trigger]
        call_ensures(math.divide, (value, reduction(scale)), seconds) && math.shows_duration(
            seconds,
            text,
        );
    assert(reduction(scale) == in_a_second(scale));
    if magnitude(seconds) > 0 {
        if at_least(seconds, ONE) {
            let number = choose|shown: String|
                call_ensures(math.fixed, (seconds, 3usize), shown) && text == #[trigger] shown@
                    + "s"@;
            assert(is_duration(math, seconds, number, "s"@));
        } else {
            let by: u64 = if at_least(seconds, MILLI) {
                1_000
            } else {
                1_000_000
            };
            let end = if at_least(seconds, MILLI) {
                "ms"@
            } else {
                "μs"@
            };
            let n = choose|n: u64| #[trigger]
                call_ensures(math.multiply, (seconds, by), n) && math.shows(n, 3, end, text);
            let number = choose|shown: String|
                call_ensures(math.fixed, (n, 3usize), shown) && text == #[trigger] shown@ + end;
            assert(is_duration(math, seconds, number, end));
        }
    }
}

/// In which unit a time is given makes no difference to how it is shown: two values are shown alike
/// if each, divided by as many as there are of its unit in a second, is the same number of seconds.
pub proof fn times_are_shown_alike<
    D: Fn(u64, u64) -> u64,
    M: Fn(u64, u64) -> u64,
    F: Fn(u64, usize) -> String,
>(
    math: DoubleMath<D, M, F>,
    a: u64,
    x: NegativeScale,
    b: u64,
    y: NegativeScale,
    text: Seq<char>,
)
    requires
        forall|seconds: u64|
            call_ensures(math.divide, (a, in_a_second(x)), seconds) <==> call_ensures(
                math.divide,
                (b, in_a_second(y)),
                seconds,
            ),
    ensures
        math.shows_value(a, Unit::Second(x), text) <==> math.shows_value(b, Unit::Second(y), text),
{
    assert(reduction(x) == in_a_second(x));
    assert(reduction(y) == in_a_second(y));
}

/// An amount of data is shown as a number and a unit that together stand for as many bytes as the
/// value in its own unit does: in the greatest unit of which there is at least one, with two digits
/// after the point, and in bytes without any. Nothing at all is shown as `0B`.
pub proof fn amounts_of_data_are_shown<
    D: Fn(u64, u64) -> u64,
    M: Fn(u64, u64) -> u64,
    F: Fn(u64, usize) -> String,
>(math: DoubleMath<D, M, F>, value: u64, scale: PositiveScale, text: Seq<char>)
    requires
        math.shows_value(value, Unit::Byte(scale), text),
    ensures
        exists|bytes: u64| #[trigger]
            call_ensures(math.multiply, (value, bytes_of(scale)), bytes) && {
                let size = bytes % 0x8000_0000_0000_0000;
                let a_number = size <= 0x7ff0_0000_0000_0000;
                &&& size == 0 ==> text == "0B"@
                &&& a_number && size >= 0x41cd_cd65_0000_0000 ==> is_quotient(
                    math,
                    bytes,
                    1_000_000_000,
                    "GB"@,
                    text,
                )
                &&& 0x412e_8480_0000_0000 <= size < 0x41cd_cd65_0000_0000 ==> is_quotient(
                    math,
                    bytes,
                    1_000_000,
                    "MB"@,
                    text,
                )
                &&& 0x408f_4000_0000_0000 <= size < 0x412e_8480_0000_0000 ==> is_quotient(
                    math,
                    bytes,
                    1_000,
                    "KB"@,
                    text,
                )
                &&& 0 < size < 0x408f_4000_0000_0000 || !a_number ==> exists|number: String|
                    call_ensures(math.fixed, (bytes, 0usize), number) && text == #[trigger] number@
                        + "B"@
            },
{
    assert(expansion(scale) == bytes_of(scale));
    let bytes = choose|bytes: u64| #[trigger]
        call_ensures(math.multiply, (value, expansion(scale)), bytes) && math.shows_bytes(
            bytes,
            text,
        );
    if at_least(bytes, THOUSAND) {
        let (by, end): (u64, Seq<char>) = if at_least(bytes, BILLION) {
            (1_000_000_000, "GB"@)
        } else if at_least(bytes, MILLION) {
            (1_000_000, "MB"@)
        } else {
            (1_000, "KB"@)
        };
        let n = choose|n: u64| #[trigger]
            call_ensures(math.divide, (bytes, by), n) && math.shows(n, 2, end, text);
        let number = choose|shown: String|
            call_ensures(math.fixed, (n, 2usize), shown) && text == #[trigger] shown@ + end;
        assert(text == number@ + end);
        assert(is_quotient(math, bytes, by, end, text));
    }
}

/// Whether a text is a number divided by another, with two digits after the point, and an end.
pub open spec fn is_quotient<D: Fn(u64, u64) -> u64, M, F: Fn(u64, usize) -> String>(
    math: DoubleMath<D, M, F>,
    bits: u64,
    by: u64,
    end: Seq<char>,
    text: Seq<char>,
) -> bool {
    exists|n: u64, number: String| #[trigger]
        call_ensures(math.divide, (bits, by), n) && call_ensures(math.fixed, (n, 2usize), number)
            && text == #[trigger] number@ + end
}

/// In which unit an amount of data is given makes no difference to how it is shown.
pub proof fn amounts_of_data_are_shown_alike<
    D: Fn(u64, u64) -> u64,
    M: Fn(u64, u64) -> u64,
    F: Fn(u64, usize) -> String,
>(
    math: DoubleMath<D, M, F>,
    a: u64,
    x: PositiveScale,
    b: u64,
    y: PositiveScale,
    text: Seq<char>,
)
    requires
        forall|bytes: u64|
            call_ensures(math.multiply, (a, bytes_of(x)), bytes) <==> call_ensures(
                math.multiply,
                (b, bytes_of(y)),
                bytes,
            ),
    ensures
        math.shows_value(a, Unit::Byte(x), text) <==> math.shows_value(b, Unit::Byte(y), text),
{
    assert(expansion(x) == bytes_of(x));
    assert(expansion(y) == bytes_of(y));
}

/// Whether a value is shown as an integer: a whole number of things, or one without a unit that is
/// below 2^63.
pub open spec fn is_shown_whole(value: u64, unit: Unit) -> bool {
    is_integral(value) && (unit is Count || (unit is NoUnit && exponent_field(value) < 1086))
}

/// How many digits after the point are shown of a value that is neither a time nor an amount of
/// data, and what comes after it, depend on its unit alone. Whole numbers that have no unit or that
/// count things have no point at all.
pub proof fn other_values_are_shown<
    D: Fn(u64, u64) -> u64,
    M: Fn(u64, u64) -> u64,
    F: Fn(u64, usize) -> String,
>(math: DoubleMath<D, M, F>, value: u64, unit: Unit, text: Seq<char>)
    requires
        math.shows_value(value, unit, text),
        !(unit is Second),
        !(unit is Byte),
    ensures
        is_shown_whole(value, unit) ==> text == signed_decimal(truncated(value) as int),
        !is_shown_whole(value, unit) ==> exists|number: String|
            {
                &&& text == #[trigger] number@ + match unit {
                    Unit::Percent => "%"@,
                    Unit::Count | Unit::NoUnit => ""@,
                    _ => " "@ + unit_name(unit),
                }
                &&& call_ensures(
                    math.fixed,
                    (
                        value,
                        match unit {
                            Unit::Percent => 1usize,
                            Unit::Count => 2usize,
                            _ => 3usize,
                        },
                    ),
                    number,
                )
            },
{
    let end = match unit {
        Unit::Percent => "%"@,
        Unit::Count | Unit::NoUnit => ""@,
        _ => " "@ + unit_name(unit),
    };
    let digits: usize = match unit {
        Unit::Percent => 1usize,
        Unit::Count => 2usize,
        _ => 3usize,
    };
    if !is_shown_whole(value, unit) {
        assert(math.shows(value, digits, end, text));
        let number = choose|shown: String|
            call_ensures(math.fixed, (value, digits), shown) && text == #[trigger] shown@ + end;
        assert(text == number@ + end);
    }
}

} // verus!
