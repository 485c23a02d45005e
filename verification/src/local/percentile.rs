//! Percentiles of weighted observations.

use vstd::prelude::*;
use vstd::string::*;

use crate::float::{
    has_no_fraction, is_integral, is_nan, order_key, ordering_number, truncate_to_i64, truncated,
};
use crate::local::tree::JsonTree;
use crate::text::{decimal, itoa_u64};

verus! {

/// The bits of one.
pub const ONE: u64 = 0x3ff0_0000_0000_0000;

/// A percentile to compute: how it is labelled, and the bits of the fraction of the
/// observations that it covers.
#[derive(Debug)]
pub struct Percentile {
    pub label: String,
    pub fraction: u64,
}

/// A double moved to the nearest one from zero to one; what is not a number stays.
pub open spec fn clamped_to_unit(bits: u64) -> u64 {
    if is_nan(bits) {
        bits
    } else if order_key(bits) < 0 {
        0
    } else if order_key(bits) > order_key(ONE) {
        ONE
    } else {
        bits
    }
}

impl Percentile {
    /// The percentile that covers a fraction. The label is `min` for zero, `max` for one,
    /// else a `p` and the percentage. `percentage` gives the bits of a double times one
    /// hundred, `display` prints a double.
    pub fn new<P: Fn(u64) -> u64, D: Fn(u64) -> String>(
        fraction: u64,
        percentage: P,
        display: D,
    ) -> (p: Percentile)
        requires
            forall|bits: u64| call_requires(percentage, (bits,)),
            forall|bits: u64| call_requires(display, (bits,)),
        ensures
            p.fraction == clamped_to_unit(fraction),
            order_key(p.fraction) == 0 ==> p.label@ == "min"@,
            order_key(p.fraction) == order_key(ONE) ==> p.label@ == "max"@,
            order_key(p.fraction) != 0 && order_key(p.fraction) != order_key(ONE) ==> exists|
                percent: u64,
            |
                call_ensures(percentage, (p.fraction,), percent) && (if is_integral(percent)
                    && truncated(percent) >= 0 {
                    p.label@ == "p"@ + decimal(truncated(percent) as nat)
                } else {
                    exists|shown: String|
                        call_ensures(display, (percent,), shown) && p.label@ == "p"@ + shown@
                }),
    {
        let key: i128 = ordering_number(fraction);
        let one: i128 = ordering_number(ONE);
        let nan: i128 = 0x8000_0000_0000_0000;
        let fraction: u64 = if key == nan {
            fraction
        } else if key < 0 {
            0
        } else if key > one {
            ONE
        } else {
            fraction
        };
        let key: i128 = ordering_number(fraction);
        let label = if key == 0 {
            "min".to_owned()
        } else if key == one {
            "max".to_owned()
        } else {
            let percent: u64 = percentage(fraction);
            let mut label = "p".to_owned();
            let whole: i64 = truncate_to_i64(percent);
            if has_no_fraction(percent) && whole >= 0 {
                label.append(itoa_u64(whole as u64).as_str());
            } else {
                label.append(display(percent).as_str());
            }
            label
        };
        Percentile { label, fraction }
    }
}

/// The bits of the doubles one half, 0.99 and 0.999.
pub const HALF: u64 = 0x3fe0_0000_0000_0000;

pub const P99: u64 = 0x3fef_ae14_7ae1_47ae;

pub const P999: u64 = 0x3fef_f7ce_d916_872b;

/// The labels and the fractions that are covered unless others are chosen, from the least to
/// the greatest observation.
pub open spec fn is_default(list: Seq<Percentile>) -> bool {
    &&& list.len() == 5
    &&& list[0].label@ == "min"@ && list[0].fraction == 0
    &&& list[1].label@ == "p50"@ && list[1].fraction == HALF
    &&& list[2].label@ == "p99"@ && list[2].fraction == P99
    &&& list[3].label@ == "p99.9"@ && list[3].fraction == P999
    &&& list[4].label@ == "max"@ && list[4].fraction == ONE
}

/// The percentiles that are shown unless others are chosen.
pub fn default_percentiles() -> (list: Vec<Percentile>)
    ensures
        is_default(list@),
{
    vec![
        Percentile { label: "min".to_owned(), fraction: 0 },
        Percentile { label: "p50".to_owned(), fraction: HALF },
        Percentile { label: "p99".to_owned(), fraction: P99 },
        Percentile { label: "p99.9".to_owned(), fraction: P999 },
        Percentile { label: "max".to_owned(), fraction: ONE },
    ]
}

/// An observation with the number of times that it counts, and with the text and the JSON
/// that it is shown as.
#[derive(Debug)]
pub struct WeightedObservation {
    /// The bits of the value.
    pub value: u64,
    pub weight: u64,
    pub text: String,
    pub json: JsonTree,
}

/// The sum of the weights.
pub open spec fn total_weight(observations: Seq<WeightedObservation>) -> nat
    decreases observations.len(),
{
    if observations.len() == 0 {
        0
    } else {
        total_weight(observations.drop_last()) + observations.last().weight as nat
    }
}

/// The total number of observations, with their weights.
pub fn total_count(observations: &Vec<WeightedObservation>) -> (n: u64)
    requires
        total_weight(observations@) <= u64::MAX,
    ensures
        n == total_weight(observations@),
{
    let mut n: u64 = 0;
    for i in 0..observations.len()
        invariant
            total_weight(observations@) <= u64::MAX,
            n == total_weight(observations@.take(i as int)),
    {
        proof {
            assert(observations@.take(i + 1).drop_last() =~= observations@.take(i as int));
            weight_of_prefix(observations@, i + 1);
        }
        n = n + observations[i].weight;
    }
    assert(observations@.take(observations@.len() as int) =~= observations@);
    n
}

proof fn weight_of_prefix(s: Seq<WeightedObservation>, n: int)
    requires
        0 <= n <= s.len(),
    ensures
        total_weight(s.take(n)) <= total_weight(s),
    decreases s.len(),
{
    if n < s.len() {
        weight_of_prefix(s.drop_last(), n);
        assert(s.drop_last().take(n) =~= s.take(n));
    } else {
        assert(s.take(n) =~= s);
    }
}

/// The positions of observations, as they are ordered.
pub open spec fn key_at(observations: Seq<WeightedObservation>, i: int) -> int {
    order_key(observations[i].value)
}

/// The first place in an ordered list of positions that is not before the value at `i`.
pub open spec fn place_for(observations: Seq<WeightedObservation>, sorted: Seq<usize>, i: int)
    -> int
    decreases sorted.len(),
{
    if sorted.len() == 0 || key_at(observations, sorted.last() as int) <= key_at(observations, i) {
        sorted.len() as int
    } else {
        place_for(observations, sorted.drop_last(), i)
    }
}

/// The positions of the first `n` observations, ordered by value; equal values in their
/// order.
pub open spec fn sorted_positions(observations: Seq<WeightedObservation>, n: nat) -> Seq<usize>
    decreases n,
{
    if n == 0 {
        Seq::empty()
    } else {
        let sorted = sorted_positions(observations, (n - 1) as nat);
        sorted.insert(place_for(observations, sorted, n - 1), (n - 1) as usize)
    }
}

/// The sum of the weights of the first `n` observations of an order.
pub open spec fn cumulative(observations: Seq<WeightedObservation>, sorted: Seq<usize>, n: nat)
    -> nat
    decreases n,
{
    if n == 0 {
        0
    } else {
        cumulative(observations, sorted, (n - 1) as nat)
            + observations[sorted[n - 1] as int].weight as nat
    }
}

/// The first position from `from` on, in an order, at which the sum of the weights reaches
/// the target; the last one if it is never reached.
pub open spec fn reaching(
    observations: Seq<WeightedObservation>,
    sorted: Seq<usize>,
    target: u64,
    from: nat,
) -> nat
    decreases sorted.len() - from,
{
    if from + 1 >= sorted.len() || cumulative(observations, sorted, from + 1) >= target {
        from
    } else {
        reaching(observations, sorted, target, from + 1)
    }
}

/// The position of the observation that a percentile with that target falls on.
pub open spec fn percentile_position(observations: Seq<WeightedObservation>, target: u64) -> usize {
    let sorted = sorted_positions(observations, observations.len());
    sorted[reaching(observations, sorted, target, 0) as int]
}

proof fn place_is_there(observations: Seq<WeightedObservation>, sorted: Seq<usize>, i: int)
    ensures
        0 <= place_for(observations, sorted, i) <= sorted.len(),
    decreases sorted.len(),
{
    if sorted.len() > 0 {
        place_is_there(observations, sorted.drop_last(), i);
    }
}

proof fn positions_are_there(observations: Seq<WeightedObservation>, n: nat)
    requires
        n <= observations.len() <= usize::MAX,
    ensures
        sorted_positions(observations, n).len() == n,
        forall|k: int| 0 <= k < n ==> (#[trigger] sorted_positions(observations, n)[k]) < n,
    decreases n,
{
    if n > 0 {
        let sorted = sorted_positions(observations, (n - 1) as nat);
        positions_are_there(observations, (n - 1) as nat);
        place_is_there(observations, sorted, n - 1);
        assert forall|k: int| 0 <= k < n implies (#[trigger] sorted_positions(observations, n)[k])
            < n by {
            let p = place_for(observations, sorted, n - 1);
            if k < p {
                assert(sorted[k] < n - 1);
            } else if k > p {
                assert(sorted[k - 1] < n - 1);
            }
        }
    }
}

/// Orders the observations by value.
fn sort_positions(observations: &Vec<WeightedObservation>) -> (sorted: Vec<usize>)
    ensures
        sorted@ == sorted_positions(observations@, observations@.len()),
        sorted@.len() == observations@.len(),
        forall|k: int| 0 <= k < sorted@.len() ==> (#[trigger] sorted@[k]) < observations@.len(),
{
    let mut sorted: Vec<usize> = Vec::new();
    for i in 0..observations.len()
        invariant
            sorted@ == sorted_positions(observations@, i as nat),
            sorted@.len() == i,
            forall|k: int| 0 <= k < sorted@.len() ==> (#[trigger] sorted@[k]) < i,
    {
        let key: i128 = ordering_number(observations[i].value);
        let mut place: usize = sorted.len();
        assert(sorted@.take(place as int) =~= sorted@);
        while place > 0 && ordering_number(observations[sorted[place - 1]].value) > key
            invariant
                0 <= i < observations@.len(),
                key == key_at(observations@, i as int),
                0 <= place <= sorted@.len(),
                forall|k: int| 0 <= k < sorted@.len() ==> (#[trigger] sorted@[k]) < i,
                place_for(observations@, sorted@, i as int) == place_for(
                    observations@,
                    sorted@.take(place as int),
                    i as int,
                ),
            decreases place,
        {
            assert(sorted@.take(place as int).drop_last() =~= sorted@.take(place - 1));
            place = place - 1;
        }
        assert(place_for(observations@, sorted@, i as int) == place);
        sorted.insert(place, i);
        proof {
            assert(observations@.len() == observations.len());
            positions_are_there(observations@, (i + 1) as nat);
        }
    }
    proof {
        assert(observations@.len() == observations.len());
    }
    sorted
}

/// The positions of the observations that percentiles with the given targets fall on; none
/// if there are no observations.
pub fn compute_percentiles(observations: &Vec<WeightedObservation>, targets: &Vec<u64>) -> (res:
    Vec<usize>)
    requires
        total_weight(observations@) <= u64::MAX,
    ensures
        res@.len() == if observations@.len() == 0 {
            0
        } else {
            targets@.len()
        },
        forall|k: int|
            0 <= k < res@.len() ==> (#[trigger] res@[k]) == percentile_position(
                observations@,
                targets@[k],
            ) && res@[k] < observations@.len(),
{
    let mut res: Vec<usize> = Vec::new();
    let count: usize = observations.len();
    if count == 0 {
        return res;
    }
    let sorted = sort_positions(observations);
    for k in 0..targets.len()
        invariant
            observations@.len() > 0,
            count == observations@.len(),
            total_weight(observations@) <= u64::MAX,
            sorted@ == sorted_positions(observations@, observations@.len()),
            sorted@.len() == observations@.len(),
            forall|j: int| 0 <= j < sorted@.len() ==> (#[trigger] sorted@[j]) < observations@.len(),
            res@.len() == k,
            forall|j: int|
                0 <= j < k ==> (#[trigger] res@[j]) == percentile_position(
                    observations@,
                    targets@[j],
                ) && res@[j] < observations@.len(),
    {
        let target: u64 = targets[k];
        let mut at: usize = 0;
        proof {
            cumulative_is_bounded(observations@, 1);
        }
        let mut sum: u64 = observations[sorted[0]].weight;
        assert(cumulative(observations@, sorted@, 1) == sum) by {
            reveal_with_fuel(cumulative, 2);
        }
        while at < count - 1 && sum < target
            invariant
                count == observations@.len(),
                total_weight(observations@) <= u64::MAX,
                sorted@ == sorted_positions(observations@, observations@.len()),
                sorted@.len() == observations@.len(),
                forall|j: int|
                    0 <= j < sorted@.len() ==> (#[trigger] sorted@[j]) < observations@.len(),
                0 <= at < sorted@.len(),
                sum == cumulative(observations@, sorted@, (at + 1) as nat),
                reaching(observations@, sorted@, target, 0) == reaching(
                    observations@,
                    sorted@,
                    target,
                    at as nat,
                ),
            decreases sorted@.len() - at,
        {
            proof {
                cumulative_is_bounded(observations@, (at + 2) as nat);
            }
            at = at + 1;
            sum = sum + observations[sorted[at]].weight;
        }
        res.push(sorted[at]);
    }
    res
}

/// The weights in an order never add up to more than all of them.
proof fn cumulative_is_bounded(observations: Seq<WeightedObservation>, n: nat)
    requires
        n <= observations.len() <= usize::MAX,
    ensures
        cumulative(
            observations,
            sorted_positions(observations, observations.len()),
            n,
        ) <= total_weight(observations),
{
    positions_are_there(observations, observations.len());
    cumulative_of_all(observations, observations.len());
    let sorted = sorted_positions(observations, observations.len());
    cumulative_grows(observations, sorted, n, observations.len());
    assert(observations.take(observations.len() as int) =~= observations);
}

proof fn cumulative_grows(
    observations: Seq<WeightedObservation>,
    sorted: Seq<usize>,
    m: nat,
    n: nat,
)
    requires
        m <= n,
    ensures
        cumulative(observations, sorted, m) <= cumulative(observations, sorted, n),
    decreases n,
{
    if m < n {
        cumulative_grows(observations, sorted, m, (n - 1) as nat);
    }
}

/// Inserting a position into an order adds its weight to the sum.
proof fn cumulative_of_insert(
    observations: Seq<WeightedObservation>,
    sorted: Seq<usize>,
    place: int,
    i: usize,
    n: nat,
)
    requires
        0 <= place <= sorted.len(),
        n <= sorted.len(),
    ensures
        n < place ==> cumulative(observations, sorted.insert(place, i), n) == cumulative(
            observations,
            sorted,
            n,
        ),
        n >= place ==> cumulative(observations, sorted.insert(place, i), n + 1) == cumulative(
            observations,
            sorted,
            n,
        ) + observations[i as int].weight,
    decreases n,
{
    let inserted = sorted.insert(place, i);
    if n > 0 {
        cumulative_of_insert(observations, sorted, place, i, (n - 1) as nat);
    }
    if n >= place {
        assert(inserted[n as int] == if n == place {
            i
        } else {
            sorted[n - 1]
        });
        if n == place {
            same_prefix(observations, sorted, inserted, n);
        }
    } else if n > 0 {
        assert(inserted[n - 1] == sorted[n - 1]);
    }
}

proof fn same_prefix(
    observations: Seq<WeightedObservation>,
    a: Seq<usize>,
    b: Seq<usize>,
    n: nat,
)
    requires
        forall|k: int| 0 <= k < n ==> a[k] == b[k],
    ensures
        cumulative(observations, a, n) == cumulative(observations, b, n),
    decreases n,
{
    if n > 0 {
        same_prefix(observations, a, b, (n - 1) as nat);
    }
}

proof fn cumulative_of_all(observations: Seq<WeightedObservation>, n: nat)
    requires
        n <= observations.len() <= usize::MAX,
    ensures
        cumulative(observations, sorted_positions(observations, n), n) == total_weight(
            observations.take(n as int),
        ),
    decreases n,
{
    if n > 0 {
        let sorted = sorted_positions(observations, (n - 1) as nat);
        cumulative_of_all(observations, (n - 1) as nat);
        positions_are_there(observations, (n - 1) as nat);
        place_is_there(observations, sorted, n - 1);
        cumulative_of_insert(
            observations,
            sorted,
            place_for(observations, sorted, n - 1),
            (n - 1) as usize,
            (n - 1) as nat,
        );
        assert(observations.take(n as int).drop_last() =~= observations.take(n - 1));
    }
}

/// Whether the values are in order along a list of positions.
pub open spec fn in_order(observations: Seq<WeightedObservation>, sorted: Seq<usize>) -> bool {
    forall|i: int, j: int|
        0 <= i <= j < sorted.len() ==> key_at(observations, #[trigger] sorted[i] as int) <= key_at(
            observations,
            #[trigger] sorted[j] as int,
        )
}

proof fn place_splits(observations: Seq<WeightedObservation>, sorted: Seq<usize>, i: int)
    requires
        in_order(observations, sorted),
    ensures
        forall|k: int|
            0 <= k < place_for(observations, sorted, i) ==> key_at(
                observations,
                #[trigger] sorted[k] as int,
            ) <= key_at(observations, i),
        forall|k: int|
            place_for(observations, sorted, i) <= k < sorted.len() ==> key_at(
                observations,
                #[trigger] sorted[k] as int,
            ) > key_at(observations, i),
    decreases sorted.len(),
{
    if sorted.len() > 0 {
        let last = sorted.last() as int;
        if key_at(observations, last) <= key_at(observations, i) {
            assert forall|k: int| 0 <= k < sorted.len() implies key_at(
                observations,
                #[trigger] sorted[k] as int,
            ) <= key_at(observations, i) by {
                assert(key_at(observations, sorted[k] as int) <= key_at(
                    observations,
                    sorted[sorted.len() - 1] as int,
                ));
            }
        } else {
            let init = sorted.drop_last();
            assert(in_order(observations, init)) by {
                assert forall|a: int, b: int| 0 <= a <= b < init.len() implies key_at(
                    observations,
                    #[trigger] init[a] as int,
                ) <= key_at(observations, #[trigger] init[b] as int) by {
                    assert(sorted[a] == init[a] && sorted[b] == init[b]);
                }
            }
            place_splits(observations, init, i);
            place_is_there(observations, init, i);
            assert forall|k: int|
                0 <= k < place_for(observations, sorted, i) implies key_at(
                observations,
                #[trigger] sorted[k] as int,
            ) <= key_at(observations, i) by {
                assert(sorted[k] == init[k]);
            }
            assert forall|k: int|
                place_for(observations, sorted, i) <= k < sorted.len() implies key_at(
                observations,
                #[trigger] sorted[k] as int,
            ) > key_at(observations, i) by {
                if k < init.len() {
                    assert(sorted[k] == init[k]);
                }
            }
        }
    }
}

/// The positions are ordered by value, and each of them occurs.
pub proof fn positions_are_sorted(observations: Seq<WeightedObservation>, n: nat)
    requires
        n <= observations.len() <= usize::MAX,
    ensures
        in_order(observations, sorted_positions(observations, n)),
        forall|i: usize| i < n ==> #[trigger] sorted_positions(observations, n).contains(i),
        sorted_positions(observations, n).len() == n,
    decreases n,
{
    positions_are_there(observations, n);
    if n > 0 {
        let init = sorted_positions(observations, (n - 1) as nat);
        let all = sorted_positions(observations, n);
        let place = place_for(observations, init, n - 1);
        positions_are_sorted(observations, (n - 1) as nat);
        place_is_there(observations, init, n - 1);
        place_splits(observations, init, n - 1);
        assert forall|i: int, j: int| 0 <= i <= j < all.len() implies key_at(
            observations,
            #[trigger] all[i] as int,
        ) <= key_at(observations, #[trigger] all[j] as int) by {
            let a = if i < place {
                i
            } else {
                i - 1
            };
            let b = if j < place {
                j
            } else {
                j - 1
            };
            if i != place {
                assert(all[i] == init[a]);
            }
            if j != place {
                assert(all[j] == init[b]);
            }
            if i != place && j != place {
                assert(key_at(observations, init[a] as int) <= key_at(
                    observations,
                    init[b] as int,
                ));
            }
        }
        assert forall|i: usize| i < n implies #[trigger] all.contains(i) by {
            if i == n - 1 {
                assert(all[place] == i);
            } else {
                assert(init.contains(i));
                let k = init.index_of(i);
                if k < place {
                    assert(all[k] == i);
                } else {
                    assert(all[k + 1] == i);
                }
            }
        }
    }
}

/// The percentile with a target of zero falls on a least observation.
pub proof fn least_percentile(observations: Seq<WeightedObservation>, i: int)
    requires
        0 <= i < observations.len() <= usize::MAX,
    ensures
        key_at(observations, percentile_position(observations, 0) as int) <= key_at(
            observations,
            i,
        ),
{
    let sorted = sorted_positions(observations, observations.len());
    positions_are_sorted(observations, observations.len());
    assert(sorted.contains(i as usize));
    let k = sorted.index_of(i as usize);
    assert(reaching(observations, sorted, 0, 0) == 0);
    assert(key_at(observations, sorted[0] as int) <= key_at(observations, sorted[k] as int));
}

proof fn reaching_is_there(
    observations: Seq<WeightedObservation>,
    sorted: Seq<usize>,
    target: u64,
    from: nat,
)
    requires
        from < sorted.len(),
    ensures
        from <= reaching(observations, sorted, target, from) < sorted.len(),
        reaching(observations, sorted, target, from) + 1 == sorted.len() || cumulative(
            observations,
            sorted,
            reaching(observations, sorted, target, from) + 1,
        ) >= target,
    decreases sorted.len() - from,
{
    if from + 1 < sorted.len() && cumulative(observations, sorted, from + 1) < target {
        reaching_is_there(observations, sorted, target, from + 1);
    }
}

proof fn reaching_grows(
    observations: Seq<WeightedObservation>,
    sorted: Seq<usize>,
    low: u64,
    high: u64,
    from: nat,
)
    requires
        from < sorted.len(),
        low <= high,
    ensures
        reaching(observations, sorted, low, from) <= reaching(observations, sorted, high, from),
    decreases sorted.len() - from,
{
    reaching_is_there(observations, sorted, high, from);
    if from + 1 < sorted.len() && cumulative(observations, sorted, from + 1) < low {
        reaching_grows(observations, sorted, low, high, from + 1);
    }
}

/// The higher the target of a percentile, the greater the observation that it falls on.
pub proof fn percentiles_grow(observations: Seq<WeightedObservation>, low: u64, high: u64)
    requires
        0 < observations.len() <= usize::MAX,
        low <= high,
    ensures
        key_at(observations, percentile_position(observations, low) as int) <= key_at(
            observations,
            percentile_position(observations, high) as int,
        ),
{
    let sorted = sorted_positions(observations, observations.len());
    positions_are_sorted(observations, observations.len());
    reaching_grows(observations, sorted, low, high, 0);
    reaching_is_there(observations, sorted, low, 0);
    reaching_is_there(observations, sorted, high, 0);
    let a = reaching(observations, sorted, low, 0) as int;
    let b = reaching(observations, sorted, high, 0) as int;
    assert(key_at(observations, sorted[a] as int) <= key_at(observations, sorted[b] as int));
}

/// The percentile whose target is all of the weight falls on a greatest observation, if
/// each observation has a weight.
pub proof fn greatest_percentile(observations: Seq<WeightedObservation>, total: u64, i: int)
    requires
        0 <= i < observations.len() <= usize::MAX,
        total == total_weight(observations),
        forall|k: int| 0 <= k < observations.len() ==> (#[trigger] observations[k]).weight > 0,
    ensures
        key_at(observations, percentile_position(observations, total) as int) >= key_at(
            observations,
            i,
        ),
{
    let n = observations.len();
    let sorted = sorted_positions(observations, n);
    positions_are_sorted(observations, n);
    positions_are_there(observations, n);
    cumulative_of_all(observations, n);
    assert(observations.take(n as int) =~= observations);
    reaching_is_there(observations, sorted, total, 0);
    let r = reaching(observations, sorted, total, 0);
    if r + 1 < n {
        cumulative_grows(observations, sorted, r + 1, (n - 1) as nat);
        let last = sorted[n - 1] as int;
        assert(last < n);
        assert(observations[last].weight > 0);
        assert(false);
    }
    assert(sorted.contains(i as usize));
    let k = sorted.index_of(i as usize);
    assert(key_at(observations, sorted[k] as int) <= key_at(observations, sorted[n - 1] as int));
}

/// The weight of an observation if its value is at most that of a key, else nothing.
pub open spec fn weight_below(observations: Seq<WeightedObservation>, key: int, i: int) -> nat {
    if key_at(observations, i) <= key {
        observations[i].weight as nat
    } else {
        0
    }
}

/// The sum of the weights of the first `n` observations whose values are at most that of a key.
pub open spec fn weight_at_most(observations: Seq<WeightedObservation>, key: int, n: nat) -> nat
    decreases n,
{
    if n == 0 {
        0
    } else {
        weight_at_most(observations, key, (n - 1) as nat) + weight_below(observations, key, n - 1)
    }
}

/// The same sum over the first `n` observations of an order.
spec fn ordered_weight(
    observations: Seq<WeightedObservation>,
    sorted: Seq<usize>,
    key: int,
    n: nat,
) -> nat
    decreases n,
{
    if n == 0 {
        0
    } else {
        ordered_weight(observations, sorted, key, (n - 1) as nat) + weight_below(
            observations,
            key,
            sorted[n - 1] as int,
        )
    }
}

proof fn same_weight(
    observations: Seq<WeightedObservation>,
    a: Seq<usize>,
    b: Seq<usize>,
    key: int,
    n: nat,
)
    requires
        forall|k: int| 0 <= k < n ==> a[k] == b[k],
    ensures
        ordered_weight(observations, a, key, n) == ordered_weight(observations, b, key, n),
    decreases n,
{
    if n > 0 {
        same_weight(observations, a, b, key, (n - 1) as nat);
    }
}

proof fn weight_of_insert(
    observations: Seq<WeightedObservation>,
    sorted: Seq<usize>,
    key: int,
    place: int,
    i: usize,
    n: nat,
)
    requires
        0 <= place <= n <= sorted.len(),
    ensures
        ordered_weight(observations, sorted.insert(place, i), key, n + 1) == ordered_weight(
            observations,
            sorted,
            key,
            n,
        ) + weight_below(observations, key, i as int),
    decreases n,
{
    let inserted = sorted.insert(place, i);
    if n == place {
        assert(inserted[n as int] == i);
        same_weight(observations, sorted, inserted, key, n);
    } else {
        weight_of_insert(observations, sorted, key, place, i, (n - 1) as nat);
        assert(inserted[n as int] == sorted[n - 1]);
    }
}

proof fn order_keeps_weight(observations: Seq<WeightedObservation>, key: int, n: nat)
    requires
        n <= observations.len() <= usize::MAX,
    ensures
        ordered_weight(observations, sorted_positions(observations, n), key, n) == weight_at_most(
            observations,
            key,
            n,
        ),
    decreases n,
{
    if n > 0 {
        let sorted = sorted_positions(observations, (n - 1) as nat);
        order_keeps_weight(observations, key, (n - 1) as nat);
        positions_are_there(observations, (n - 1) as nat);
        place_is_there(observations, sorted, n - 1);
        weight_of_insert(
            observations,
            sorted,
            key,
            place_for(observations, sorted, n - 1),
            (n - 1) as usize,
            (n - 1) as nat,
        );
    }
}

proof fn ordered_weight_grows(
    observations: Seq<WeightedObservation>,
    sorted: Seq<usize>,
    key: int,
    m: nat,
    n: nat,
)
    requires
        m <= n,
    ensures
        ordered_weight(observations, sorted, key, m) <= ordered_weight(observations, sorted, key, n),
    decreases n,
{
    if m < n {
        ordered_weight_grows(observations, sorted, key, m, (n - 1) as nat);
    }
}

/// All of the weight of observations up to a key counts.
proof fn weight_up_to(
    observations: Seq<WeightedObservation>,
    sorted: Seq<usize>,
    key: int,
    n: nat,
)
    requires
        n <= sorted.len(),
        forall|k: int| 0 <= k < n ==> key_at(observations, #[trigger] sorted[k] as int) <= key,
    ensures
        ordered_weight(observations, sorted, key, n) == cumulative(observations, sorted, n),
    decreases n,
{
    if n > 0 {
        weight_up_to(observations, sorted, key, (n - 1) as nat);
        assert(key_at(observations, sorted[n - 1] as int) <= key);
    }
}

/// None of the weight of observations from `m` on counts if their values are above the key.
proof fn no_weight_after(
    observations: Seq<WeightedObservation>,
    sorted: Seq<usize>,
    key: int,
    m: nat,
    n: nat,
)
    requires
        m <= n <= sorted.len(),
        forall|k: int| m <= k < n ==> key_at(observations, #[trigger] sorted[k] as int) > key,
    ensures
        ordered_weight(observations, sorted, key, n) <= cumulative(observations, sorted, m),
    decreases n,
{
    if m < n {
        no_weight_after(observations, sorted, key, m, (n - 1) as nat);
        assert(key_at(observations, sorted[n - 1] as int) > key);
    } else if n > 0 {
        weight_is_part(observations, sorted, key, n);
    }
}

proof fn weight_is_part(
    observations: Seq<WeightedObservation>,
    sorted: Seq<usize>,
    key: int,
    n: nat,
)
    ensures
        ordered_weight(observations, sorted, key, n) <= cumulative(observations, sorted, n),
    decreases n,
{
    if n > 0 {
        weight_is_part(observations, sorted, key, (n - 1) as nat);
    }
}

proof fn not_reached_before(
    observations: Seq<WeightedObservation>,
    sorted: Seq<usize>,
    target: u64,
    from: nat,
)
    requires
        from < sorted.len(),
        from == 0 || cumulative(observations, sorted, from) < target,
    ensures
        ({
            let r = reaching(observations, sorted, target, from);
            r == 0 || cumulative(observations, sorted, r) < target
        }),
    decreases sorted.len() - from,
{
    if from + 1 < sorted.len() && cumulative(observations, sorted, from + 1) < target {
        not_reached_before(observations, sorted, target, from + 1);
    }
}

/// A percentile falls on the least value such that the weights of the observations at or below it
/// reach the target: they do there, if all of the weight does, and at no lesser value. If not even
/// all of the weight reaches it, the percentile falls on a greatest value.
pub proof fn percentiles_are_the_least_that_reach(
    observations: Seq<WeightedObservation>,
    target: u64,
    i: int,
)
    requires
        0 <= i < observations.len() <= usize::MAX,
    ensures
        ({
            let key = key_at(observations, percentile_position(observations, target) as int);
            &&& target <= total_weight(observations) ==> weight_at_most(
                observations,
                key,
                observations.len(),
            ) >= target
            &&& key_at(observations, i) < key ==> weight_at_most(
                observations,
                key_at(observations, i),
                observations.len(),
            ) < target
            &&& target > total_weight(observations) ==> key_at(observations, i) <= key
        }),
{
    let n = observations.len();
    let sorted = sorted_positions(observations, n);
    positions_are_sorted(observations, n);
    reaching_is_there(observations, sorted, target, 0);
    not_reached_before(observations, sorted, target, 0);
    cumulative_of_all(observations, n);
    assert(observations.take(n as int) =~= observations);
    let r = reaching(observations, sorted, target, 0);
    let key = key_at(observations, sorted[r as int] as int);
    assert forall|k: int| 0 <= k < r + 1 implies key_at(observations, #[trigger] sorted[k] as int)
        <= key by {
        assert(key_at(observations, sorted[k] as int) <= key_at(
            observations,
            sorted[r as int] as int,
        ));
    }
    order_keeps_weight(observations, key, n);
    weight_up_to(observations, sorted, key, r + 1);
    ordered_weight_grows(observations, sorted, key, r + 1, n);
    if target > total_weight(observations) {
        cumulative_is_bounded(observations, r + 1);
        assert(sorted.contains(i as usize));
        let at = sorted.index_of(i as usize);
        assert(key_at(observations, sorted[at] as int) <= key_at(
            observations,
            sorted[r as int] as int,
        ));
    }
    if key_at(observations, i) < key {
        let low = key_at(observations, i);
        assert(sorted.contains(i as usize));
        let at = sorted.index_of(i as usize);
        if at >= r {
            assert(key_at(observations, sorted[r as int] as int) <= key_at(
                observations,
                sorted[at] as int,
            ));
        }
        assert forall|k: int| r <= k < n implies key_at(observations, #[trigger] sorted[k] as int)
            > low by {
            assert(key_at(observations, sorted[r as int] as int) <= key_at(
                observations,
                sorted[k] as int,
            ));
        }
        order_keeps_weight(observations, low, n);
        no_weight_after(observations, sorted, low, r, n);
    }
}

proof fn weight_of_same(
    a: Seq<WeightedObservation>,
    b: Seq<WeightedObservation>,
    key: int,
    n: nat,
)
    requires
        n <= a.len(),
        n <= b.len(),
        forall|i: int| 0 <= i < n ==> a[i] == b[i],
    ensures
        weight_at_most(a, key, n) == weight_at_most(b, key, n),
        total_weight(a.take(n as int)) == total_weight(b.take(n as int)),
    decreases n,
{
    assert(a.take(n as int) =~= b.take(n as int));
    if n > 0 {
        weight_of_same(a, b, key, (n - 1) as nat);
    }
}

/// What an observation adds to the weights.
proof fn weight_of_remove(s: Seq<WeightedObservation>, key: int, j: int)
    requires
        0 <= j < s.len(),
    ensures
        weight_at_most(s, key, s.len()) == weight_at_most(s.remove(j), key, (s.len() - 1) as nat)
            + weight_below(s, key, j),
        total_weight(s) == total_weight(s.remove(j)) + s[j].weight,
    decreases s.len(),
{
    let rest = s.remove(j);
    let init = s.drop_last();
    let n = s.len();
    if j == n - 1 {
        assert(rest =~= init);
        weight_of_same(s, rest, key, (n - 1) as nat);
    } else {
        weight_of_remove(init, key, j);
        assert(rest.drop_last() =~= init.remove(j));
        assert(rest.last() == s.last());
        weight_of_same(s, init, key, (n - 1) as nat);
        weight_of_same(rest, init.remove(j), key, (n - 2) as nat);
    }
}

proof fn weight_of_permutation(
    a: Seq<WeightedObservation>,
    b: Seq<WeightedObservation>,
    key: int,
)
    requires
        a.to_multiset() == b.to_multiset(),
    ensures
        weight_at_most(a, key, a.len()) == weight_at_most(b, key, b.len()),
        total_weight(a) == total_weight(b),
        a.len() == b.len(),
    decreases a.len(),
{
    broadcast use vstd::seq_lib::group_to_multiset_ensures;

    assert(a.len() == a.to_multiset().len());
    assert(b.len() == b.to_multiset().len());
    if a.len() > 0 {
        let n = a.len() as int;
        let last = a[n - 1];
        assert(a.contains(last));
        assert(a.to_multiset().count(last) > 0);
        assert(b.contains(last));
        let j = b.index_of(last);
        assert(b[j] == last);
        assert(a.remove(n - 1).to_multiset() == b.remove(j).to_multiset());
        weight_of_permutation(a.remove(n - 1), b.remove(j), key);
        weight_of_remove(a, key, n - 1);
        weight_of_remove(b, key, j);
    }
}

proof fn percentiles_do_not_fall_below(
    a: Seq<WeightedObservation>,
    b: Seq<WeightedObservation>,
    target: u64,
)
    requires
        0 < a.len() <= usize::MAX,
        a.to_multiset() == b.to_multiset(),
    ensures
        key_at(a, percentile_position(a, target) as int) >= key_at(
            b,
            percentile_position(b, target) as int,
        ),
{
    broadcast use vstd::seq_lib::group_to_multiset_ensures;

    weight_of_permutation(a, b, 0);
    let n = a.len();
    let sorted_a = sorted_positions(a, n);
    let sorted_b = sorted_positions(b, n);
    positions_are_there(a, n);
    positions_are_there(b, n);
    reaching_is_there(a, sorted_a, target, 0);
    reaching_is_there(b, sorted_b, target, 0);
    let p = percentile_position(a, target) as int;
    let q = percentile_position(b, target) as int;
    assert(0 <= p < n && 0 <= q < n);
    // What one percentile falls on is among the others too.
    assert(a.contains(a[p]));
    assert(a.to_multiset().count(a[p]) > 0);
    assert(b.contains(a[p]));
    let i = b.index_of(a[p]);
    assert(b[i] == a[p]);
    assert(b.contains(b[q]));
    assert(b.to_multiset().count(b[q]) > 0);
    assert(a.contains(b[q]));
    let j = a.index_of(b[q]);
    assert(a[j] == b[q]);
    percentiles_are_the_least_that_reach(b, target, i);
    percentiles_are_the_least_that_reach(a, target, j);
    weight_of_permutation(a, b, key_at(a, p));
}

/// In which order observations were made makes no difference to the value that a percentile falls
/// on.
pub proof fn order_makes_no_difference(
    a: Seq<WeightedObservation>,
    b: Seq<WeightedObservation>,
    target: u64,
)
    requires
        0 < a.len() <= usize::MAX,
        a.to_multiset() == b.to_multiset(),
    ensures
        key_at(a, percentile_position(a, target) as int) == key_at(
            b,
            percentile_position(b, target) as int,
        ),
{
    weight_of_permutation(a, b, 0);
    percentiles_do_not_fall_below(a, b, target);
    percentiles_do_not_fall_below(b, a, target);
}

/// A fraction from zero to one stays; one below becomes zero, one above becomes one, and what is not
/// a number stays as well.
pub proof fn fractions_are_clamped(bits: u64)
    ensures
        is_nan(bits) ==> clamped_to_unit(bits) == bits,
        !is_nan(bits) ==> {
            let key = order_key(clamped_to_unit(bits));
            &&& order_key(0) <= key <= order_key(0x3ff0_0000_0000_0000)
            &&& order_key(bits) < order_key(0) ==> clamped_to_unit(bits) == 0
            &&& order_key(bits) > order_key(0x3ff0_0000_0000_0000) ==> clamped_to_unit(bits)
                == 0x3ff0_0000_0000_0000
            &&& order_key(0) <= order_key(bits) <= order_key(0x3ff0_0000_0000_0000)
                ==> clamped_to_unit(bits) == bits
        },
{
}

} // verus!
