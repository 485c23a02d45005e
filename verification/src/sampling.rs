//! Entries that stand for others that were not kept.

use vstd::prelude::*;
use vstd::string::*;

use crate::emf::format::Emf;
use crate::emf::model;
use crate::entry::{Entry, ItemModel, Timestamp};
use crate::float::Float;
use crate::json::Json;
use crate::unit::DoubleOp;
use crate::validate::{error_models, is_result, plain_error, ValidationError};
use crate::weigh::are_weighed;

verus! {

/// Whether the bits of a single-precision number are those of a number above zero.
pub open spec fn is_positive_rate(rate: u32) -> bool {
    0 < rate <= 0x7f80_0000
}

/// The bits of the single-precision number below which the inverse does not count any more.
pub const LEAST_RATE: u32 = 0x2000_0000;

/// Whether a single-precision number, given by its bits, is below the least rate.
pub open spec fn is_below_least(rate: u32) -> bool {
    rate < LEAST_RATE || 0x8000_0000 <= rate <= 0xff80_0000
}

/// What chance picks of the two integers next to the inverse of a rate.
#[derive(Clone, Copy, Debug, PartialEq, Eq, Structural)]
pub struct Draw {
    /// The greatest integer that is not above the inverse of the rate.
    pub floor: u64,
    /// Whether it is picked, as opposed to the next one.
    pub lower: bool,
}

/// How often an entry counts that was kept at a rate.
pub open spec fn multiplicity(rate: u32, draw: Draw) -> u64 {
    if is_below_least(rate) {
        u64::MAX
    } else if draw.lower || draw.floor == u64::MAX {
        draw.floor
    } else {
        (draw.floor + 1) as u64
    }
}

/// How often an entry counts that was kept at a rate.
pub fn rate_to_n(rate: u32, draw: Draw) -> (n: u64)
    ensures
        n == multiplicity(rate, draw),
{
    if rate < LEAST_RATE || (0x8000_0000 <= rate && rate <= 0xff80_0000) {
        return u64::MAX;
    }
    if draw.lower || draw.floor == u64::MAX {
        draw.floor
    } else {
        draw.floor + 1
    }
}

/// The error for a rate that is not above zero.
fn rate_error() -> (errors: Vec<ValidationError>)
    ensures
        error_models(errors@) == seq![plain_error("format with non-positive sample rate"@)],
{
    let errors = vec![ValidationError::invalid("format with non-positive sample rate")];
    assert(error_models(errors@) =~= seq![plain_error("format with non-positive sample rate"@)]);
    errors
}

/// An EMF formatter for entries that stand for others; `rng` picks between two multiplicities.
pub struct SampledEmf<R> {
    pub emf: Emf,
    pub rng: R,
}

impl Emf {
    /// Lets entries stand for others.
    pub fn with_sampling_and_rng<R>(self, rng: R) -> (sampled: SampledEmf<R>)
        ensures
            sampled.emf == self,
            sampled.rng == rng,
    {
        SampledEmf { emf: self, rng }
    }
}

impl<R> SampledEmf<R> {
    /// Formats an entry that was kept at a rate, given by the bits of a single-precision number.
    pub fn format_with_sample_rate<E: Entry>(
        &self,
        entry: &E,
        now: Timestamp,
        rate: u32,
        draw: Draw,
    ) -> (res: Result<String, Vec<ValidationError>>)
        requires
            self.emf.wf(),
        ensures
            !is_positive_rate(rate) ==> is_result(
                res,
                Err(seq![plain_error("format with non-positive sample rate"@)]),
            ),
            is_positive_rate(rate) ==> is_result(
                res,
                model::formatted(
                    self.emf@,
                    entry.items(),
                    Some(multiplicity(rate, draw)),
                    now.nanos,
                ),
            ),
    {
        if rate == 0 || rate > 0x7f80_0000 {
            return Err(rate_error());
        }
        let n: u64 = rate_to_n(rate, draw);
        self.emf.format_with_multiplicity(entry, now, Some(n))
    }
}

/// A JSON formatter for entries that stand for others; `rng` picks between two multiplicities.
#[derive(Debug)]
pub struct SampledJson<R> {
    pub json: Json,
    pub rng: R,
}

impl Json {
    /// Lets entries stand for others.
    pub fn with_sampling_and_rng<R>(self, rng: R) -> (sampled: SampledJson<R>)
        ensures
            sampled.json == self,
            sampled.rng == rng,
    {
        SampledJson { json: self, rng }
    }
}

impl<R> SampledJson<R> {
    /// Formats an entry that was kept at a rate, given by the bits of a single-precision number.
    /// `compute` does the arithmetic.
    pub fn format_with_sample_rate<E: Entry, F: Fn(DoubleOp) -> Float>(
        &mut self,
        entry: &E,
        now: Timestamp,
        rate: u32,
        draw: Draw,
        compute: &F,
    ) -> (res: Result<String, Vec<ValidationError>>)
        requires
            forall|op: DoubleOp| call_requires(compute, (op,)),
        ensures
            !is_positive_rate(rate) ==> is_result(
                res,
                Err(seq![plain_error("format with non-positive sample rate"@)]),
            ),
            is_positive_rate(rate) ==> exists|items: Seq<ItemModel>| #[trigger]
                are_weighed(*compute, multiplicity(rate, draw), entry.items(), items)
                    && is_result(res, crate::json::formatted(items, now.nanos)),
            is_positive_rate(rate) ==> (res is Ok <==> crate::json::formatted(
                entry.items(),
                now.nanos,
            ) is Ok),
            final(self).rng == old(self).rng,
    {
        if rate == 0 || rate > 0x7f80_0000 {
            return Err(rate_error());
        }
        let n: u64 = rate_to_n(rate, draw);
        self.json.format_with_multiplicity(entry, now, Some(n), compute)
    }
}

/// Whether what chance picks makes a difference at a rate, given by the bits of a single-precision
/// number.
pub fn takes_chance(rate: u32) -> (res: bool)
    ensures
        res == (is_positive_rate(rate) && !is_below_least(rate)),
{
    LEAST_RATE <= rate && rate <= 0x7f80_0000
}

/// An entry that was kept at a rate above zero counts at least as often as the integer below the
/// inverse of the rate says, and at most once more; at the least rates it counts as often as can be.
pub proof fn multiplicities_are_next_to_the_inverse(rate: u32, draw: Draw)
    requires
        is_positive_rate(rate),
    ensures
        rate >= LEAST_RATE ==> draw.floor <= multiplicity(rate, draw) <= draw.floor + 1,
        rate < LEAST_RATE ==> multiplicity(rate, draw) == u64::MAX,
{
}

/// An entry that was kept at a rate that is not among the least counts as often as the integer below
/// the inverse of the rate says if chance picks that one, and once more if it picks the next one.
pub proof fn chance_picks_one_of_two(rate: u32, draw: Draw)
    requires
        0x2000_0000 <= rate <= 0x7f80_0000,
    ensures
        draw.lower ==> multiplicity(rate, draw) == draw.floor,
        !draw.lower && draw.floor < u64::MAX ==> multiplicity(rate, draw) == draw.floor + 1,
{
}

/// Rates are numbers above zero: neither zero nor anything negative, nor what is not a number.
pub proof fn positive_rates(rate: u32)
    ensures
        is_positive_rate(rate) <==> rate != 0 && rate < 0x8000_0000 && rate <= 0x7f80_0000,
{
}

/// Chance makes a difference at the rates that are neither among the least nor out of range.
pub proof fn chance_is_taken(rate: u32, res: bool)
    requires
        call_ensures(takes_chance, (rate,), res),
    ensures
        res <==> 0x2000_0000 <= rate <= 0x7f80_0000,
{
}

} // verus!
