//! What doubles are as numbers.

use vstd::arithmetic::div_mod::{
    lemma_fundamental_div_mod, lemma_fundamental_div_mod_converse, lemma_truncate_middle,
};
use vstd::arithmetic::power2::{
    lemma2_to64, lemma2_to64_rest, lemma_pow2_adds, lemma_pow2_pos, lemma_pow2_strictly_increases,
    pow2,
};
use vstd::prelude::*;

use crate::float::{
    exponent_field, floor_log2, floor_log2_bounds, integer_part, is_integral, is_nan, is_negative,
    magnitude, nearest_double, rounded_quotient, significand, truncated, truncated_natural,
};

verus! {

/// The size of a finite double, counted in the least double above zero, of which there are 2^1074 to
/// one: the significand, which has a leading bit unless the exponent is the least, at the place that
/// the exponent gives.
pub open spec fn size(bits: u64) -> nat {
    let exponent = bits % 0x8000_0000_0000_0000 / 0x10_0000_0000_0000;
    let fraction = bits % 0x10_0000_0000_0000;
    if exponent == 0 {
        fraction as nat
    } else {
        (0x10_0000_0000_0000 + fraction) as nat * pow2((exponent - 1) as nat)
    }
}

/// How often the least double above zero makes up one.
pub open spec fn one() -> nat {
    pow2(1074)
}

/// The parts of a double.
proof fn parts_of(bits: u64)
    ensures
        exponent_field(bits) == bits % 0x8000_0000_0000_0000 / 0x10_0000_0000_0000,
        significand(bits) == 0x10_0000_0000_0000 + bits % 0x10_0000_0000_0000,
        0x10_0000_0000_0000 <= significand(bits) < 0x20_0000_0000_0000,
        magnitude(bits) == exponent_field(bits) * 0x10_0000_0000_0000 + bits % 0x10_0000_0000_0000,
        exponent_field(bits) < 2048,
{
    assert(bits % 0x8000_0000_0000_0000 % 0x10_0000_0000_0000 == bits % 0x10_0000_0000_0000);
}

/// A double whose exponent is that of fractions is less than one.
proof fn small_sizes(bits: u64)
    requires
        exponent_field(bits) < 1023,
    ensures
        size(bits) < one(),
        magnitude(bits) > 0 ==> size(bits) > 0,
{
    parts_of(bits);
    lemma2_to64_rest();
    let e = exponent_field(bits);
    if e == 0 {
        lemma_pow2_strictly_increases(52, 1074);
    } else {
        let s = significand(bits);
        let p = pow2((e - 1) as nat);
        lemma_pow2_pos((e - 1) as nat);
        lemma_pow2_adds(53, (e - 1) as nat);
        assert(0 < s * p < 0x20_0000_0000_0000 * p) by (nonlinear_arith)
            requires
                0 < s < 0x20_0000_0000_0000,
                p > 0,
        ;
        if e + 52 < 1074 {
            lemma_pow2_strictly_increases((e + 52) as nat, 1074);
        }
    }
}

/// The integer part of a double that is not less than one.
proof fn large_sizes(bits: u64)
    requires
        1023 <= exponent_field(bits),
    ensures
        integer_part(bits) * one() <= size(bits) < (integer_part(bits) + 1) * one(),
        exponent_field(bits) < 1075 ==> (size(bits) % one() == 0 <==> significand(bits) % pow2(
            (1075 - exponent_field(bits)) as nat,
        ) == 0),
        exponent_field(bits) >= 1075 ==> size(bits) == integer_part(bits) * one(),
{
    parts_of(bits);
    let e = exponent_field(bits);
    let s = significand(bits);
    let p = pow2((e - 1) as nat);
    lemma_pow2_pos((e - 1) as nat);
    lemma_pow2_pos(1074);
    assert(size(bits) == s * p);
    if e < 1075 {
        let k = (1075 - e) as nat;
        let q = pow2(k);
        lemma_pow2_pos(k);
        lemma_pow2_adds((e - 1) as nat, k);
        assert(one() == p * q);
        let n = s / q;
        lemma_fundamental_div_mod(s as int, q as int);
        assert(n * q <= s < (n + 1) * q) by (nonlinear_arith)
            requires
                s == q * n + s % q,
                0 <= s % q < q,
        ;
        assert(n * (p * q) <= s * p < (n + 1) * (p * q)) by (nonlinear_arith)
            requires
                n * q <= s < (n + 1) * q,
                p > 0,
        ;
        lemma_truncate_middle(s as int, p as int, q as int);
        assert(s * p == p * s) by (nonlinear_arith);
        let r = s % q;
        assert(p * r == 0 <==> r == 0) by (nonlinear_arith)
            requires
                p > 0,
                r >= 0,
        ;
    } else {
        let k = (e - 1075) as nat;
        lemma_pow2_adds(k, 1074);
        let q = pow2(k);
        assert(s * (q * one()) == (s * q) * one()) by (nonlinear_arith);
        assert((s * q) * one() < (s * q + 1) * one()) by (nonlinear_arith)
            requires
                one() > 0,
        ;
    }
}

/// The integer part of a double.
proof fn integer_parts(bits: u64)
    ensures
        integer_part(bits) * one() <= size(bits) < (integer_part(bits) + 1) * one(),
{
    lemma_pow2_pos(1074);
    if exponent_field(bits) < 1023 {
        small_sizes(bits);
        assert(0 * one() == 0 && 1 * one() == one());
    } else {
        large_sizes(bits);
    }
}

/// The integer part of a double that has 64 bits.
proof fn integer_parts_fit(bits: u64)
    requires
        exponent_field(bits) < 1087,
    ensures
        integer_part(bits) <= u64::MAX,
        exponent_field(bits) < 1086 ==> integer_part(bits) <= i64::MAX,
{
    parts_of(bits);
    lemma2_to64();
    lemma2_to64_rest();
    let e = exponent_field(bits);
    let s = significand(bits);
    if 1023 <= e < 1075 {
        let q = pow2((1075 - e) as nat);
        lemma_pow2_pos((1075 - e) as nat);
        assert(s / q <= s) by (nonlinear_arith)
            requires
                q > 0,
                s >= 0,
        ;
    } else if e >= 1075 {
        let k = (e - 1075) as nat;
        let q = pow2(k);
        if k < 11 {
            lemma_pow2_strictly_increases(k, 11);
        }
        if k < 10 {
            lemma_pow2_strictly_increases(k, 10);
        }
        assert(s * q <= 0x1f_ffff_ffff_ffff * 2048) by (nonlinear_arith)
            requires
                0 <= s <= 0x1f_ffff_ffff_ffff,
                0 <= q <= 2048,
        ;
        if k <= 10 {
            assert(s * q <= 0x1f_ffff_ffff_ffff * 1024) by (nonlinear_arith)
                requires
                    0 <= s <= 0x1f_ffff_ffff_ffff,
                    0 <= q <= 1024,
            ;
        }
    }
}

/// A double that is cut down to a natural number becomes the greatest one that is not above it;
/// zero if it is negative or not a number, and the greatest that has 64 bits if it is too large.
pub proof fn doubles_are_cut_down(bits: u64)
    ensures
        is_nan(bits) || bits >= 0x8000_0000_0000_0000 ==> truncated_natural(bits) == 0,
        bits < 0x43f0_0000_0000_0000 ==> truncated_natural(bits) * one() <= size(bits) < (
        truncated_natural(bits) + 1) * one(),
        0x43f0_0000_0000_0000 <= bits <= 0x7ff0_0000_0000_0000 ==> truncated_natural(bits)
            == 0xffff_ffff_ffff_ffff,
{
    parts_of(bits);
    if bits < 0x43f0_0000_0000_0000 {
        integer_parts_fit(bits);
        integer_parts(bits);
        assert(truncated_natural(bits) == integer_part(bits));
    }
}

/// A double that is cut down to an integer keeps its sign, and becomes the greatest in size that is
/// not above it in size; zero if it is not a number, and the one furthest from zero that has 64 bits
/// if it is too large.
pub proof fn doubles_are_cut_down_to_integers(bits: u64)
    ensures
        is_nan(bits) ==> truncated(bits) == 0,
        bits < 0x43e0_0000_0000_0000 ==> 0 <= truncated(bits) && truncated(bits) * one() <= size(
            bits,
        ) < (truncated(bits) + 1) * one(),
        0x8000_0000_0000_0000 <= bits < 0xc3e0_0000_0000_0000 ==> truncated(bits) <= 0 && -truncated(
            bits,
        ) * one() <= size(bits) < (-truncated(bits) + 1) * one(),
        0x43e0_0000_0000_0000 <= bits <= 0x7ff0_0000_0000_0000 ==> truncated(bits)
            == 0x7fff_ffff_ffff_ffff,
        0xc3e0_0000_0000_0000 <= bits <= 0xfff0_0000_0000_0000 ==> truncated(bits)
            == -0x8000_0000_0000_0000,
{
    parts_of(bits);
    if exponent_field(bits) < 1086 {
        integer_parts_fit(bits);
        integer_parts(bits);
        if is_negative(bits) {
            assert(-truncated(bits) == integer_part(bits));
        } else {
            assert(truncated(bits) == integer_part(bits));
        }
    }
}

/// A finite double has no fraction if and only if it is made up of ones.
pub proof fn doubles_without_fraction(bits: u64)
    ensures
        bits % 0x8000_0000_0000_0000 < 0x7ff0_0000_0000_0000 ==> (is_integral(bits) <==> size(bits)
            % one() == 0),
        bits % 0x8000_0000_0000_0000 == 0x7ff0_0000_0000_0000 ==> is_integral(bits),
        bits % 0x8000_0000_0000_0000 > 0x7ff0_0000_0000_0000 ==> !is_integral(bits),
{
    parts_of(bits);
    lemma_pow2_pos(1074);
    if bits % 0x8000_0000_0000_0000 < 0x7ff0_0000_0000_0000 {
        if exponent_field(bits) < 1023 {
            small_sizes(bits);
            assert(size(bits) % one() == size(bits)) by (nonlinear_arith)
                requires
                    0 <= size(bits) < one(),
            ;
            if magnitude(bits) == 0 {
                assert(size(bits) == 0);
            }
        } else {
            large_sizes(bits);
            if exponent_field(bits) >= 1075 {
                let n = integer_part(bits) as int;
                lemma_fundamental_div_mod_converse(size(bits) as int, one() as int, n, 0);
            }
        }
    }
}

/// The size of the double with a significand at an exponent, where the significand may be the next
/// power of two.
proof fn size_of_significand(e: nat, s: nat)
    requires
        e < 64,
        0x10_0000_0000_0000 <= s <= 0x20_0000_0000_0000,
    ensures
        ({
            let bits = ((e + 1022) * 0x10_0000_0000_0000 + s) as u64;
            &&& bits == (e + 1022) * 0x10_0000_0000_0000 + s
            &&& size(bits) == s * pow2((e + 1022) as nat)
            &&& bits < 0x7ff0_0000_0000_0000
        }),
{
    let bits = ((e + 1022) * 0x10_0000_0000_0000 + s) as u64;
    assert(bits == (e + 1022) * 0x10_0000_0000_0000 + s);
    assert(bits % 0x8000_0000_0000_0000 == bits);
    if s < 0x20_0000_0000_0000 {
        assert(bits == (e + 1023) * 0x10_0000_0000_0000 + (s - 0x10_0000_0000_0000));
        assert(bits / 0x10_0000_0000_0000 == e + 1023);
        assert(bits % 0x10_0000_0000_0000 == s - 0x10_0000_0000_0000);
    } else {
        assert(bits == (e + 1024) * 0x10_0000_0000_0000);
        assert(bits / 0x10_0000_0000_0000 == e + 1024);
        assert(bits % 0x10_0000_0000_0000 == 0);
        let p = pow2((e + 1022) as nat);
        lemma2_to64();
        lemma_pow2_adds(1, (e + 1022) as nat);
        assert(pow2((e + 1023) as nat) == 2 * p);
        assert(0x10_0000_0000_0000 * (2 * p) == 0x20_0000_0000_0000 * p) by (nonlinear_arith);
    }
}

/// Numbers that are next to powers of two have those as their logarithm.
proof fn logarithms(v: nat, e: nat)
    requires
        pow2(e) <= v < pow2(e + 1),
    ensures
        floor_log2(v) == e,
{
    lemma_pow2_pos(e);
    floor_log2_bounds(v);
    let f = floor_log2(v);
    if f < e {
        if f + 1 < e {
            lemma_pow2_strictly_increases(f + 1, e);
        }
    } else if e < f {
        if e + 1 < f {
            lemma_pow2_strictly_increases(e + 1, f);
        }
    }
}

/// Whether a natural number is the nearest to `v` of those that are made up of parts of size `d`,
/// where one that is made up of an even number of parts is taken if two are as near.
pub open spec fn is_nearest(v: nat, d: nat, nearest: nat) -> bool {
    exists|parts: nat|
        {
            &&& nearest == #[trigger] (parts * d)
            &&& -(d as int) <= 2 * (v - nearest) <= d
            &&& 2 * (v - nearest) == d || 2 * (nearest - v) == d ==> parts % 2 == 0
        }
}

/// The double for a natural number has no sign and is finite. It is the number itself below 2^53; from
/// there on it is the nearest one of the numbers whose binary digits after the first 53 are zeros.
pub proof fn natural_numbers_are_rounded(v: u64, e: nat)
    requires
        pow2(e) <= v < pow2(e + 1),
    ensures
        nearest_double(0) == 0,
        nearest_double(v) < 0x7ff0_0000_0000_0000,
        e <= 52 ==> size(nearest_double(v)) == v * one(),
        e > 52 ==> exists|nearest: nat|
            size(nearest_double(v)) == #[trigger] (nearest * one()) && is_nearest(
                v as nat,
                pow2((e - 52) as nat),
                nearest,
            ),
{
    lemma2_to64();
    lemma2_to64_rest();
    lemma_pow2_pos(e);
    logarithms(v as nat, e);
    if e >= 64 {
        if e > 64 {
            lemma_pow2_strictly_increases(64, e);
        }
        assert(false);
    }
    let q = pow2((e + 1022) as nat);
    let n = v as nat;
    if e <= 52 {
        let k = (52 - e) as nat;
        let p = pow2(k);
        let s = n * p;
        lemma_pow2_pos(k);
        lemma_pow2_adds(e, k);
        lemma_pow2_adds(e + 1, k);
        assert(pow2(e) * p <= s < pow2(e + 1) * p) by (nonlinear_arith)
            requires
                pow2(e) <= n < pow2(e + 1),
                p > 0,
                s == n * p,
        ;
        size_of_significand(e, s);
        lemma_pow2_adds(k, (e + 1022) as nat);
        assert(s * q == n * (p * q)) by (nonlinear_arith)
            requires
                s == n * p,
        ;
    } else {
        let k = (e - 52) as nat;
        let d = pow2(k);
        lemma_pow2_pos(k);
        lemma_pow2_adds(52, k);
        lemma_pow2_adds(53, k);
        let s = rounded_quotient(n, d);
        let whole = n / d;
        let rest = n % d;
        lemma_fundamental_div_mod(n as int, d as int);
        assert(0x10_0000_0000_0000 <= whole < 0x20_0000_0000_0000) by (nonlinear_arith)
            requires
                0x10_0000_0000_0000 * d <= n < 0x20_0000_0000_0000 * d,
                n == d * whole + rest,
                0 <= rest < d,
        ;
        size_of_significand(e, s);
        lemma_pow2_adds(k, 1074);
        let nearest = s * d;
        assert(s * (d * one()) == nearest * one()) by (nonlinear_arith)
            requires
                nearest == s * d,
        ;
        assert(whole * d == d * whole && (whole + 1) * d == d * whole + d) by (nonlinear_arith);
        assert(2 * (n - nearest) == d || 2 * (nearest - n) == d ==> s % 2 == 0);
        assert(is_nearest(n, d, s * d));
        assert(size(nearest_double(v)) == nearest * one());
    }
}

} // verus!
