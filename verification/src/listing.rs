//! Lists that are made of some of the items of another list.

use vstd::prelude::*;

verus! {

/// Whether the positions are those below `n` that are chosen, all of them, in order.
pub open spec fn selects(at: Seq<int>, n: nat, chosen: spec_fn(int) -> bool) -> bool {
    &&& forall|k: int| 0 <= k < at.len() ==> 0 <= #[trigger] at[k] < n && chosen(at[k])
    &&& forall|j: int, k: int| 0 <= j < k < at.len() ==> #[trigger] at[j] < #[trigger] at[k]
    &&& forall|i: int| 0 <= i < n && #[trigger] chosen(i) ==> at.contains(i)
}

/// None are chosen of none.
pub proof fn selects_none(chosen: spec_fn(int) -> bool)
    ensures
        selects(Seq::empty(), 0, chosen),
{
}

/// Of one more, one more is chosen, or none more.
pub proof fn selects_more(
    at: Seq<int>,
    n: nat,
    before: spec_fn(int) -> bool,
    chosen: spec_fn(int) -> bool,
)
    requires
        selects(at, n, before),
        forall|i: int| 0 <= i < n ==> #[trigger] before(i) == chosen(i),
    ensures
        chosen(n as int) ==> selects(at.push(n as int), n + 1, chosen),
        !chosen(n as int) ==> selects(at, n + 1, chosen),
{
    let more = at.push(n as int);
    assert forall|i: int| 0 <= i < n && #[trigger] chosen(i) implies at.contains(i)
        && more.contains(i) by {
        assert(before(i));
        let k = choose|k: int| 0 <= k < at.len() && at[k] == i;
        assert(more[k] == i);
    }
    assert forall|k: int| 0 <= k < at.len() implies 0 <= #[trigger] at[k] < n && chosen(at[k]) by {
        assert(before(at[k]));
    }
    assert(more[at.len() as int] == n);
    if chosen(n as int) {
        assert forall|k: int| 0 <= k < more.len() implies 0 <= #[trigger] more[k] < n + 1 && chosen(
            more[k],
        ) by {
            if k < at.len() {
                assert(more[k] == at[k]);
            }
        }
        assert forall|j: int, k: int| 0 <= j < k < more.len() implies #[trigger] more[j]
            < #[trigger] more[k] by {
            assert(more[j] == at[j]);
            if k < at.len() {
                assert(more[k] == at[k]);
            }
        }
    }
}

/// Whether a text stands somewhere in another.
pub open spec fn stands_in(part: Seq<char>, text: Seq<char>) -> bool {
    exists|before: Seq<char>, after: Seq<char>| text == #[trigger] (before + part + after)
}

/// What stands in a part of a text stands in the text.
pub proof fn stands_further(part: Seq<char>, text: Seq<char>, before: Seq<char>, after: Seq<char>)
    requires
        stands_in(part, text),
    ensures
        stands_in(part, before + text + after),
{
    let (a, b) = choose|a: Seq<char>, b: Seq<char>| text == #[trigger] (a + part + b);
    assert(before + text + after =~= (before + a) + part + (b + after));
}

} // verus!
