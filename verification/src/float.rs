//! Floating-point numbers as the formats see them: their bits, and the texts
//! that they are printed as. The arithmetic itself is the caller's.

use vstd::arithmetic::power2::{
    lemma2_to64, lemma2_to64_rest, lemma_pow2_adds, lemma_pow2_pos, lemma_pow2_strictly_increases,
    lemma_pow2_unfold, pow2,
};
use vstd::prelude::*;
use vstd::string::*;

verus! {

/// The bits of a double without its sign.
pub open spec fn magnitude(bits: u64) -> u64 {
    (bits % 0x8000_0000_0000_0000) as u64
}

/// Whether the bits are those of a double that is not a number.
pub open spec fn is_nan(bits: u64) -> bool {
    magnitude(bits) > 0x7ff0_0000_0000_0000
}

/// Whether the bits are those of a number that is not infinite.
pub open spec fn is_finite(bits: u64) -> bool {
    magnitude(bits) < 0x7ff0_0000_0000_0000
}

/// The bits of the nearest finite number: an infinity becomes the largest
/// double of its sign, any other number stays.
pub open spec fn clamped(bits: u64) -> u64 {
    if bits == 0x7ff0_0000_0000_0000 {
        0x7fef_ffff_ffff_ffff
    } else if bits == 0xfff0_0000_0000_0000 {
        0xffef_ffff_ffff_ffff
    } else {
        bits
    }
}

/// The bits of the number clamped to the finite range, if it is a number.
pub fn clamp_to_finite(bits: u64) -> (res: Option<u64>)
    ensures
        res == if is_nan(bits) {
            None
        } else {
            Some(clamped(bits))
        },
        res matches Some(b) ==> is_finite(b),
{
    if bits % 0x8000_0000_0000_0000 > 0x7ff0_0000_0000_0000 {
        None
    } else if bits == 0x7ff0_0000_0000_0000 {
        Some(0x7fef_ffff_ffff_ffff)
    } else if bits == 0xfff0_0000_0000_0000 {
        Some(0xffef_ffff_ffff_ffff)
    } else {
        Some(bits)
    }
}

/// A double, with the texts that it is printed as.
#[derive(Debug)]
pub struct Float {
    /// The bits of the number.
    pub bits: u64,
    /// The number in decimal notation, after clamping it to the finite range;
    /// empty if it is not a number.
    pub decimal: String,
    /// The number as it is displayed.
    pub display: String,
}

/// What the formats read of a double.
pub ghost struct FloatModel {
    pub bits: u64,
    pub decimal: Seq<char>,
    pub display: Seq<char>,
}

impl View for Float {
    type V = FloatModel;

    open spec fn view(&self) -> FloatModel {
        FloatModel { bits: self.bits, decimal: self.decimal@, display: self.display@ }
    }
}

/// The decimal text without a trailing `.0`; nothing if it is not a number.
pub open spec fn short_decimal(f: FloatModel) -> Seq<char> {
    let t = f.decimal;
    if t.len() >= 2 && t[t.len() - 2] == '.' && t[t.len() - 1] == '0' {
        t.take(t.len() - 2)
    } else {
        t
    }
}

impl Float {
    /// The double with the given bits. `decimal` prints a finite number in decimal
    /// notation, `display` prints any double.
    pub fn new<D: Fn(u64) -> String, E: Fn(u64) -> String>(
        bits: u64,
        decimal: D,
        display: E,
    ) -> (f: Float)
        requires
            forall|b: u64| is_finite(b) ==> call_requires(decimal, (b,)),
            forall|b: u64| call_requires(display, (b,)),
        ensures
            f.bits == bits,
            is_nan(bits) ==> f.decimal@ == Seq::<char>::empty(),
            !is_nan(bits) ==> call_ensures(decimal, (clamped(bits),), f.decimal),
            call_ensures(display, (bits,), f.display),
    {
        let decimal_text = match clamp_to_finite(bits) {
            Some(finite) => decimal(finite),
            None => String::new(),
        };
        Float { bits, decimal: decimal_text, display: display(bits) }
    }

    /// Whether the number is not a number.
    pub fn is_nan(&self) -> (res: bool)
        ensures
            res == is_nan(self.bits),
    {
        clamp_to_finite(self.bits).is_none()
    }

    /// The decimal text without a trailing `.0`.
    pub fn short_decimal(&self) -> (text: String)
        ensures
            text@ == short_decimal(self@),
    {
        let t = self.decimal.as_str();
        let n: usize = t.unicode_len();
        if n >= 2 && t.get_char(n - 2) == '.' && t.get_char(n - 1) == '0' {
            let short = t.substring_char(0, n - 2);
            assert(short@ =~= t@.take(n - 2));
            short.to_owned()
        } else {
            self.decimal.clone()
        }
    }

    /// A copy of the number.
    pub fn duplicate(&self) -> (f: Float)
        ensures
            f == *self,
    {
        Float { bits: self.bits, decimal: self.decimal.clone(), display: self.display.clone() }
    }
}

// ---------------------------------------------------------------------------
// Doubles and integers
// ---------------------------------------------------------------------------

/// The exponent of the largest power of two that is not above `v`.
pub open spec fn floor_log2(v: nat) -> nat
    decreases v,
{
    if v <= 1 {
        0
    } else {
        1 + floor_log2(v / 2)
    }
}

/// `v` divided by `d` and rounded to the nearest integer, halves to an even one.
pub open spec fn rounded_quotient(v: nat, d: nat) -> nat {
    let q = v / d;
    let r = v % d;
    if 2 * r > d || (2 * r == d && q % 2 == 1) {
        q + 1
    } else {
        q
    }
}

/// The bits of the double that is nearest to a natural number, halves to the one with an
/// even significand.
pub open spec fn nearest_double(v: u64) -> u64 {
    if v == 0 {
        0
    } else {
        let e = floor_log2(v as nat);
        let significand = if e <= 52 {
            v as nat * pow2((52 - e) as nat)
        } else {
            rounded_quotient(v as nat, pow2((e - 52) as nat))
        };
        ((e + 1022) * 0x10_0000_0000_0000 + significand) as u64
    }
}

/// The exponent field of a double.
pub open spec fn exponent_field(bits: u64) -> nat {
    (magnitude(bits) / 0x10_0000_0000_0000) as nat
}

/// The significand of a double with its leading bit; meant for doubles that are not less
/// than one.
pub open spec fn significand(bits: u64) -> nat {
    (0x10_0000_0000_0000 + magnitude(bits) % 0x10_0000_0000_0000) as nat
}

/// Whether the sign of a double is negative.
pub open spec fn is_negative(bits: u64) -> bool {
    bits >= 0x8000_0000_0000_0000
}

/// Whether a double is a number without a fractional part, or infinite.
pub open spec fn is_integral(bits: u64) -> bool {
    if is_nan(bits) {
        false
    } else if magnitude(bits) == 0 {
        true
    } else if exponent_field(bits) < 1023 {
        false
    } else if exponent_field(bits) >= 1075 {
        true
    } else {
        significand(bits) % pow2((1075 - exponent_field(bits)) as nat) == 0
    }
}

/// The integer part of the absolute value of a double below 2^63.
pub open spec fn integer_part(bits: u64) -> nat {
    if exponent_field(bits) < 1023 {
        0
    } else if exponent_field(bits) >= 1075 {
        significand(bits) * pow2((exponent_field(bits) - 1075) as nat)
    } else {
        significand(bits) / pow2((1075 - exponent_field(bits)) as nat)
    }
}

/// Whether the absolute value of a double is below 2^63.
pub open spec fn below_2_63(bits: u64) -> bool {
    exponent_field(bits) < 1086
}

/// The integer part of a double, or the nearest integer that has 64 bits; zero if it is
/// not a number.
pub open spec fn truncated(bits: u64) -> i64 {
    if is_nan(bits) {
        0
    } else if below_2_63(bits) {
        if is_negative(bits) {
            (-integer_part(bits)) as i64
        } else {
            integer_part(bits) as i64
        }
    } else if is_negative(bits) {
        i64::MIN
    } else {
        i64::MAX
    }
}

/// An integer that orders doubles as numbers: both zeros alike, and what is not a number
/// after all others.
pub open spec fn order_key(bits: u64) -> int {
    if is_nan(bits) {
        0x8000_0000_0000_0000
    } else if is_negative(bits) {
        -(magnitude(bits) as int)
    } else {
        magnitude(bits) as int
    }
}

/// Two to the power of `n`.
fn power_of_two(n: u64) -> (p: u64)
    requires
        n < 64,
    ensures
        p == pow2(n as nat),
{
    let mut p: u64 = 1;
    proof {
        lemma2_to64();
        lemma2_to64_rest();
    }
    for i in 0..n
        invariant
            n < 64,
            p == pow2(i as nat),
    {
        proof {
            lemma2_to64();
        lemma2_to64_rest();
            lemma_pow2_unfold((i + 1) as nat);
            if i + 1 < 63 {
                lemma_pow2_strictly_increases((i + 1) as nat, 63);
            }
        }
        p = p * 2;
    }
    p
}

pub(crate) proof fn floor_log2_bounds(v: nat)
    requires
        v > 0,
    ensures
        pow2(floor_log2(v)) <= v < pow2(floor_log2(v) + 1),
    decreases v,
{
    lemma2_to64();
        lemma2_to64_rest();
    if v > 1 {
        floor_log2_bounds(v / 2);
        lemma_pow2_unfold(floor_log2(v));
        lemma_pow2_unfold(floor_log2(v) + 1);
    }
}

/// The exponent of the largest power of two that is not above `v`.
fn log2(v: u64) -> (e: u64)
    requires
        v > 0,
    ensures
        e == floor_log2(v as nat),
        e < 64,
{
    let mut e: u64 = 0;
    let mut rest: u64 = v;
    proof {
        floor_log2_bounds(v as nat);
        lemma2_to64();
        lemma2_to64_rest();
        if floor_log2(v as nat) >= 64 {
            if floor_log2(v as nat) > 64 {
                lemma_pow2_strictly_increases(64, floor_log2(v as nat));
            }
        }
    }
    while rest > 1
        invariant
            floor_log2(v as nat) < 64,
            e + floor_log2(rest as nat) == floor_log2(v as nat),
        decreases rest,
    {
        rest = rest / 2;
        e = e + 1;
    }
    e
}

/// The bits of the double that is nearest to a natural number.
pub fn double_from(v: u64) -> (bits: u64)
    ensures
        bits == nearest_double(v),
{
    if v == 0 {
        return 0;
    }
    let e: u64 = log2(v);
    proof {
        lemma2_to64();
        lemma2_to64_rest();
        floor_log2_bounds(v as nat);
    }
    if e <= 52 {
        let p: u64 = power_of_two(52 - e);
        proof {
            lemma_pow2_pos((52 - e) as nat);
            lemma_pow2_adds((e + 1) as nat, (52 - e) as nat);
            assert(v * p < pow2((e + 1) as nat) * p) by (nonlinear_arith)
                requires
                    (v as int) < pow2((e + 1) as nat),
                    p > 0,
            {
            }
        }
        (e + 1022) * 0x10_0000_0000_0000 + v * p
    } else {
        let d: u64 = power_of_two(e - 52);
        proof {
            lemma_pow2_pos((e - 52) as nat);
            lemma_pow2_adds((e - 52) as nat, 53);
            assert(v as int / d as int <= 0x20_0000_0000_0000) by (nonlinear_arith)
                requires
                    (v as int) < d * 0x20_0000_0000_0000,
                    d > 0,
            {
            }
        }
        let q: u64 = v / d;
        let r: u64 = v % d;
        let up = r > d - r || (r == d - r && q % 2 == 1);
        let significand: u64 = if up {
            q + 1
        } else {
            q
        };
        (e + 1022) * 0x10_0000_0000_0000 + significand
    }
}

/// Whether a double is a number without a fractional part, or infinite.
pub fn has_no_fraction(bits: u64) -> (res: bool)
    ensures
        res == is_integral(bits),
{
    let m: u64 = bits % 0x8000_0000_0000_0000;
    if m > 0x7ff0_0000_0000_0000 {
        return false;
    }
    if m == 0 {
        return true;
    }
    let e: u64 = m / 0x10_0000_0000_0000;
    if e < 1023 {
        return false;
    }
    if e >= 1075 {
        return true;
    }
    let d: u64 = power_of_two(1075 - e);
    proof {
        lemma_pow2_pos((1075 - e) as nat);
    }
    let s: u64 = 0x10_0000_0000_0000 + m % 0x10_0000_0000_0000;
    s % d == 0
}

/// The integer part of the absolute value of a double below 2^63.
fn integer_part_of(bits: u64) -> (n: u64)
    requires
        below_2_63(bits),
    ensures
        n == integer_part(bits),
        n < 0x8000_0000_0000_0000,
{
    let m: u64 = bits % 0x8000_0000_0000_0000;
    let e: u64 = m / 0x10_0000_0000_0000;
    if e < 1023 {
        return 0;
    }
    let s: u64 = 0x10_0000_0000_0000 + m % 0x10_0000_0000_0000;
    if e >= 1075 {
        let p: u64 = power_of_two(e - 1075);
        proof {
            lemma2_to64();
            lemma2_to64_rest();
            if e - 1075 < 10 {
                lemma_pow2_strictly_increases((e - 1075) as nat, 10);
            }
            assert(s * p <= 0x1f_ffff_ffff_ffff * 0x400) by (nonlinear_arith)
                requires
                    s <= 0x1f_ffff_ffff_ffff,
                    p <= 0x400,
            {
            }
        }
        s * p
    } else {
        let d: u64 = power_of_two(1075 - e);
        proof {
            lemma_pow2_pos((1075 - e) as nat);
            assert(s as int / d as int <= s) by (nonlinear_arith)
                requires
                    d > 0,
            {
            }
        }
        s / d
    }
}

/// The integer part of a double, or the nearest integer that has 64 bits; zero if it is
/// not a number.
pub fn truncate_to_i64(bits: u64) -> (n: i64)
    ensures
        n == truncated(bits),
{
    let m: u64 = bits % 0x8000_0000_0000_0000;
    let negative = bits >= 0x8000_0000_0000_0000;
    if m > 0x7ff0_0000_0000_0000 {
        0
    } else if m / 0x10_0000_0000_0000 < 1086 {
        let n: i64 = integer_part_of(bits) as i64;
        if negative {
            -n
        } else {
            n
        }
    } else if negative {
        i64::MIN
    } else {
        i64::MAX
    }
}

/// An integer that orders doubles as numbers.
pub fn ordering_number(bits: u64) -> (key: i128)
    ensures
        key == order_key(bits),
{
    let m: u64 = bits % 0x8000_0000_0000_0000;
    if m > 0x7ff0_0000_0000_0000 {
        0x8000_0000_0000_0000
    } else if bits >= 0x8000_0000_0000_0000 {
        -(m as i128)
    } else {
        m as i128
    }
}

/// The integer part of a double, or the nearest natural number that has 64 bits; zero if it is
/// not a number.
pub open spec fn truncated_natural(bits: u64) -> u64 {
    if is_nan(bits) || is_negative(bits) {
        0
    } else if exponent_field(bits) < 1087 {
        integer_part(bits) as u64
    } else {
        u64::MAX
    }
}

/// The integer part of a double, or the nearest natural number that has 64 bits; zero if it is
/// not a number.
pub fn truncate_to_u64(bits: u64) -> (n: u64)
    ensures
        n == truncated_natural(bits),
{
    let m: u64 = bits % 0x8000_0000_0000_0000;
    let e: u64 = m / 0x10_0000_0000_0000;
    if m > 0x7ff0_0000_0000_0000 || bits >= 0x8000_0000_0000_0000 {
        0
    } else if e < 1086 {
        integer_part_of(bits)
    } else if e == 1086 {
        let s: u64 = 0x10_0000_0000_0000 + m % 0x10_0000_0000_0000;
        proof {
            lemma2_to64();
        }
        s * 2048
    } else {
        u64::MAX
    }
}

/// The first place in ordered doubles that is not before one.
pub open spec fn place_among(sorted: Seq<u64>, bits: u64) -> int
    decreases sorted.len(),
{
    if sorted.len() == 0 || order_key(sorted.last()) <= order_key(bits) {
        sorted.len() as int
    } else {
        place_among(sorted.drop_last(), bits)
    }
}

/// Doubles in order; equal ones stay in theirs.
pub open spec fn sorted_doubles(list: Seq<u64>) -> Seq<u64>
    decreases list.len(),
{
    if list.len() == 0 {
        Seq::empty()
    } else {
        let init = sorted_doubles(list.drop_last());
        init.insert(place_among(init, list.last()), list.last())
    }
}

/// Puts doubles in order; equal ones stay in theirs.
pub fn sort_doubles(list: &Vec<u64>) -> (sorted: Vec<u64>)
    ensures
        sorted@ == sorted_doubles(list@),
{
    let mut sorted: Vec<u64> = Vec::new();
    for i in 0..list.len()
        invariant
            sorted@ == sorted_doubles(list@.take(i as int)),
    {
        let bits: u64 = list[i];
        let key: i128 = ordering_number(bits);
        let mut place: usize = sorted.len();
        assert(sorted@.take(place as int) =~= sorted@);
        while place > 0 && ordering_number(sorted[place - 1]) > key
            invariant
                key == order_key(bits),
                0 <= place <= sorted@.len(),
                place_among(sorted@, bits) == place_among(sorted@.take(place as int), bits),
            decreases place,
        {
            assert(sorted@.take(place as int).drop_last() =~= sorted@.take(place - 1));
            place = place - 1;
        }
        assert(place_among(sorted@, bits) == place);
        sorted.insert(place, bits);
        assert(list@.take(i + 1).drop_last() =~= list@.take(i as int));
    }
    assert(list@.take(list@.len() as int) =~= list@);
    sorted
}

proof fn place_among_splits(sorted: Seq<u64>, bits: u64)
    requires
        forall|i: int, j: int|
            0 <= i <= j < sorted.len() ==> order_key(#[trigger] sorted[i]) <= order_key(
                #[trigger] sorted[j],
            ),
    ensures
        0 <= place_among(sorted, bits) <= sorted.len(),
        forall|k: int|
            0 <= k < place_among(sorted, bits) ==> order_key(#[trigger] sorted[k]) <= order_key(
                bits,
            ),
        forall|k: int|
            place_among(sorted, bits) <= k < sorted.len() ==> order_key(#[trigger] sorted[k])
                > order_key(bits),
    decreases sorted.len(),
{
    if sorted.len() > 0 {
        let last = sorted.len() - 1;
        if order_key(sorted[last]) > order_key(bits) {
            let init = sorted.drop_last();
            assert forall|i: int, j: int| 0 <= i <= j < init.len() implies order_key(
                #[trigger] init[i],
            ) <= order_key(#[trigger] init[j]) by {
                assert(sorted[i] == init[i] && sorted[j] == init[j]);
            }
            place_among_splits(init, bits);
            assert forall|k: int| 0 <= k < place_among(sorted, bits) implies order_key(
                #[trigger] sorted[k],
            ) <= order_key(bits) by {
                assert(init[k] == sorted[k]);
            }
            assert forall|k: int| place_among(sorted, bits) <= k < sorted.len() implies order_key(
                #[trigger] sorted[k],
            ) > order_key(bits) by {
                if k < init.len() {
                    assert(init[k] == sorted[k]);
                }
            }
        } else {
            assert forall|k: int| 0 <= k < sorted.len() implies order_key(#[trigger] sorted[k])
                <= order_key(bits) by {
                assert(order_key(sorted[k]) <= order_key(sorted[last]));
            }
        }
    }
}

/// Sorted doubles are the same doubles, each at least as great as those before it.
pub proof fn sorting_doubles(list: Seq<u64>)
    ensures
        sorted_doubles(list).to_multiset() == list.to_multiset(),
        forall|i: int, j: int|
            0 <= i <= j < sorted_doubles(list).len() ==> order_key(
                #[trigger] sorted_doubles(list)[i],
            ) <= order_key(#[trigger] sorted_doubles(list)[j]),
    decreases list.len(),
{
    if list.len() > 0 {
        let init = sorted_doubles(list.drop_last());
        let bits = list.last();
        let place = place_among(init, bits);
        let all = sorted_doubles(list);
        sorting_doubles(list.drop_last());
        place_among_splits(init, bits);
        vstd::seq_lib::to_multiset_insert(init, place, bits);
        vstd::seq_lib::to_multiset_build(list.drop_last(), bits);
        assert(list.drop_last().push(bits) =~= list);
        assert forall|i: int, j: int| 0 <= i <= j < all.len() implies order_key(#[trigger] all[i])
            <= order_key(#[trigger] all[j]) by {
            let a = if i < place {
                i
            } else {
                i - 1
            };
            let b = if j < place {
                j
            } else {
                j - 1
            };
            if i != place {
                assert(all[i] == init[a]);
            }
            if j != place {
                assert(all[j] == init[b]);
            }
            if i != place && j != place {
                assert(order_key(init[a]) <= order_key(init[b]));
            }
        }
    } else {
        assert(sorted_doubles(list) =~= list);
    }
}

/// A natural number up to 2^53 is a double: the double that is nearest to it has no fractional part,
/// and its integer part is the number.
pub proof fn natural_numbers_are_doubles(v: u64)
    requires
        v <= 0x20_0000_0000_0000,
    ensures
        is_integral(nearest_double(v)),
        below_2_63(nearest_double(v)),
        !is_negative(nearest_double(v)),
        truncated(nearest_double(v)) == v,
        truncated_natural(nearest_double(v)) == v,
{
    lemma2_to64();
    lemma2_to64_rest();
    if v > 0 {
        floor_log2_bounds(v as nat);
        let e = floor_log2(v as nat);
        if e > 53 {
            lemma_pow2_strictly_increases(53, e);
        }
        let bits = nearest_double(v);
        if e == 53 {
            assert(v == 0x20_0000_0000_0000);
            assert(v as nat / pow2(1) == 0x10_0000_0000_0000);
            assert(bits == (53 + 1022) * 0x10_0000_0000_0000 + 0x10_0000_0000_0000);
            assert(exponent_field(bits) == 1076);
            assert(significand(bits) == 0x10_0000_0000_0000);
            assert(significand(bits) * pow2(1) == 0x20_0000_0000_0000);
        } else {
            let k = (52 - e) as nat;
            let p = pow2(k);
            let s = v as nat * p;
            lemma_pow2_pos(k);
            lemma_pow2_adds(e, k);
            lemma_pow2_adds(e + 1, k);
            assert(pow2(e) * p <= s < pow2(e + 1) * p) by (nonlinear_arith)
                requires
                    pow2(e) <= v < pow2(e + 1),
                    p > 0,
                    s == v as nat * p,
            ;
            assert(0x10_0000_0000_0000 <= s < 0x20_0000_0000_0000);
            assert(bits == (e + 1022) * 0x10_0000_0000_0000 + s);
            let m = magnitude(bits);
            assert(m == bits);
            assert(m as int == (e + 1023) * 0x10_0000_0000_0000 + (s - 0x10_0000_0000_0000));
            assert(m / 0x10_0000_0000_0000 == e + 1023 && m % 0x10_0000_0000_0000 == s
                - 0x10_0000_0000_0000);
            assert(significand(bits) == s);
            assert((v as nat * p) / p == v && (v as nat * p) % p == 0) by (nonlinear_arith)
                requires
                    p > 0,
            ;
            if e == 52 {
                assert(v as nat * p == v) by (nonlinear_arith)
                    requires
                        p == 1,
                ;
            }
        }
    }
}

/// How doubles are ordered: a negative one before a positive one, positive ones by their size and
/// negative ones against it, both zeros alike, and what is not a number after all others.
pub proof fn order_of_doubles(a: u64, b: u64)
    ensures
        a < b <= 0x7ff0_0000_0000_0000 ==> order_key(a) < order_key(b),
        0x8000_0000_0000_0000 <= a < b <= 0xfff0_0000_0000_0000 ==> order_key(b) < order_key(a),
        0x8000_0000_0000_0000 < a <= 0xfff0_0000_0000_0000 && b <= 0x7ff0_0000_0000_0000
            ==> order_key(a) < order_key(b),
        order_key(0) == order_key(0x8000_0000_0000_0000),
        is_nan(a) && !is_nan(b) ==> order_key(b) < order_key(a),
        is_nan(a) && is_nan(b) ==> order_key(a) == order_key(b),
{
}

/// What is clamped to the finite range: an infinity becomes the greatest double of its sign, anything
/// else stays.
pub proof fn clamping(bits: u64)
    ensures
        is_finite(bits) ==> clamped(bits) == bits,
        bits == 0x7ff0_0000_0000_0000 ==> clamped(bits) == 0x7fef_ffff_ffff_ffff,
        bits == 0xfff0_0000_0000_0000 ==> clamped(bits) == 0xffef_ffff_ffff_ffff,
        !is_nan(bits) ==> is_finite(clamped(bits)) && is_negative(clamped(bits)) == is_negative(
            bits,
        ),
        is_nan(bits) <==> !is_finite(bits) && bits % 0x8000_0000_0000_0000
            != 0x7ff0_0000_0000_0000,
{
}

} // verus!
