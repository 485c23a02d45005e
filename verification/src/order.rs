//! The order of texts and of pairs of texts, and sorting by it.

use vstd::prelude::*;
use vstd::relations::{sorted_by, total_ordering};
use vstd::std_specs::iter::IteratorSpec;
use vstd::string::*;

use crate::value::pairs;

verus! {

/// Whether `a` comes before `b` in the lexicographic order of code points, or is
/// the same text.
pub open spec fn text_leq(a: Seq<char>, b: Seq<char>) -> bool
    decreases a.len(),
{
    if a.len() == 0 {
        true
    } else if b.len() == 0 {
        false
    } else if a[0] == b[0] {
        text_leq(a.drop_first(), b.drop_first())
    } else {
        (a[0] as int) < (b[0] as int)
    }
}

/// The order of pairs: by the first text, then by the second.
pub open spec fn pair_leq(a: (Seq<char>, Seq<char>), b: (Seq<char>, Seq<char>)) -> bool {
    if a.0 == b.0 {
        text_leq(a.1, b.1)
    } else {
        text_leq(a.0, b.0)
    }
}

/// The pairs in order.
pub open spec fn sorted_pairs(list: Seq<(Seq<char>, Seq<char>)>) -> Seq<(Seq<char>, Seq<char>)> {
    list.sort_by(|a: (Seq<char>, Seq<char>), b: (Seq<char>, Seq<char>)| pair_leq(a, b))
}

/// Every text comes before itself.
pub proof fn text_leq_reflexive(a: Seq<char>)
    ensures
        text_leq(a, a),
    decreases a.len(),
{
    if a.len() > 0 {
        text_leq_reflexive(a.drop_first());
    }
}

/// Two texts that come before each other are the same.
pub proof fn text_leq_antisymmetric(a: Seq<char>, b: Seq<char>)
    requires
        text_leq(a, b),
        text_leq(b, a),
    ensures
        a == b,
    decreases a.len(),
{
    if a.len() > 0 && b.len() > 0 {
        text_leq_antisymmetric(a.drop_first(), b.drop_first());
        assert(a =~= seq![a[0]] + a.drop_first());
        assert(b =~= seq![b[0]] + b.drop_first());
    } else {
        assert(a =~= b);
    }
}

/// The order of texts is transitive.
pub proof fn text_leq_transitive(a: Seq<char>, b: Seq<char>, c: Seq<char>)
    requires
        text_leq(a, b),
        text_leq(b, c),
    ensures
        text_leq(a, c),
    decreases a.len(),
{
    if a.len() > 0 && b.len() > 0 && c.len() > 0 && a[0] == b[0] && b[0] == c[0] {
        text_leq_transitive(a.drop_first(), b.drop_first(), c.drop_first());
    }
}

/// Of any two texts one comes before the other.
pub proof fn text_leq_total(a: Seq<char>, b: Seq<char>)
    ensures
        text_leq(a, b) || text_leq(b, a),
    decreases a.len(),
{
    if a.len() > 0 && b.len() > 0 && a[0] == b[0] {
        text_leq_total(a.drop_first(), b.drop_first());
    }
}

/// The order of pairs is a total order.
pub proof fn pair_order_is_total()
    ensures
        total_ordering(|a: (Seq<char>, Seq<char>), b: (Seq<char>, Seq<char>)| pair_leq(a, b)),
{
    assert forall|a: (Seq<char>, Seq<char>)| #[trigger] pair_leq(a, a) by {
        text_leq_reflexive(a.1);
    }
    assert forall|a: (Seq<char>, Seq<char>), b: (Seq<char>, Seq<char>)|
        #[trigger] pair_leq(a, b) && #[trigger] pair_leq(b, a) implies a == b by {
        if a.0 == b.0 {
            text_leq_antisymmetric(a.1, b.1);
        } else {
            text_leq_antisymmetric(a.0, b.0);
        }
    }
    assert forall|
        a: (Seq<char>, Seq<char>),
        b: (Seq<char>, Seq<char>),
        c: (Seq<char>, Seq<char>),
    | #[trigger] pair_leq(a, b) && #[trigger] pair_leq(b, c) implies pair_leq(a, c) by {
        if a.0 == b.0 && b.0 == c.0 {
            text_leq_transitive(a.1, b.1, c.1);
        } else if a.0 != b.0 && b.0 != c.0 {
            text_leq_transitive(a.0, b.0, c.0);
            if a.0 == c.0 {
                text_leq_antisymmetric(a.0, b.0);
            }
        }
    }
    assert forall|a: (Seq<char>, Seq<char>), b: (Seq<char>, Seq<char>)|
        #[trigger] pair_leq(a, b) || #[trigger] pair_leq(b, a) by {
        text_leq_total(a.0, b.0);
        text_leq_total(a.1, b.1);
    }
}

/// Whether `p` has the smaller code point.
fn char_lt(p: char, q: char) -> (res: bool)
    ensures
        res == ((p as int) < (q as int)),
{
    (p as u32) < (q as u32)
}

/// Whether `a` comes before `b` or is the same text.
pub fn text_le(a: &str, b: &str) -> (res: bool)
    ensures
        res == text_leq(a@, b@),
{
    let mut x = a.chars();
    let mut y = b.chars();
    loop
        invariant
            x.decrease() is Some,
            text_leq(a@, b@) == text_leq(x.remaining(), y.remaining()),
        decreases x.decrease()->0,
    {
        match (x.next(), y.next()) {
            (None, _) => {
                return true;
            },
            (_, None) => {
                return false;
            },
            (Some(p), Some(q)) => {
                if p != q {
                    return char_lt(p, q);
                }
            },
        }
    }
}

/// Whether the pair `a` comes before the pair `b` or is the same.
fn pair_le(a: &(String, String), b: &(String, String)) -> (res: bool)
    ensures
        res == pair_leq((a.0@, a.1@), (b.0@, b.1@)),
{
    if a.0 == b.0 {
        text_le(a.1.as_str(), b.1.as_str())
    } else {
        text_le(a.0.as_str(), b.0.as_str())
    }
}

/// Sorts pairs by their first text, then by their second.
pub fn sort_pairs(list: Vec<(String, String)>) -> (res: Vec<(String, String)>)
    ensures
        pairs(res@) == sorted_pairs(pairs(list@)),
{
    let ghost leq = |a: (Seq<char>, Seq<char>), b: (Seq<char>, Seq<char>)| pair_leq(a, b);
    let ghost all = pairs(list@);
    let mut rest = list;
    let mut res: Vec<(String, String)> = Vec::new();
    proof {
        pair_order_is_total();
        broadcast use vstd::multiset::group_multiset_axioms;

        assert(pairs(res@) =~= Seq::empty());
        assert(Seq::<(Seq<char>, Seq<char>)>::empty().to_multiset().len() == 0) by {
            vstd::seq_lib::to_multiset_len(Seq::<(Seq<char>, Seq<char>)>::empty());
        }
        assert(pairs(rest@).to_multiset().add(pairs(res@).to_multiset()) =~= all.to_multiset());
    }
    while rest.len() > 0
        invariant
            leq == |a: (Seq<char>, Seq<char>), b: (Seq<char>, Seq<char>)| pair_leq(a, b),
            total_ordering(leq),
            sorted_by(pairs(res@), leq),
            pairs(rest@).to_multiset().add(pairs(res@).to_multiset()) == all.to_multiset(),
        decreases rest.len(),
    {
        let ghost rest_before = pairs(rest@);
        let ghost res_before = pairs(res@);
        match rest.pop() {
            Some(item) => {
                let ghost it = (item.0@, item.1@);
                let mut pos: usize = res.len();
                while pos > 0 && !pair_le(&res[pos - 1], &item)
                    invariant
                        leq == |a: (Seq<char>, Seq<char>), b: (Seq<char>, Seq<char>)| pair_leq(a, b),
                        total_ordering(leq),
                        0 <= pos <= res.len(),
                        it == (item.0@, item.1@),
                        sorted_by(pairs(res@), leq),
                        forall|j: int| pos <= j < res.len() ==> #[trigger] leq(it, pairs(res@)[j]),
                    decreases pos,
                {
                    proof {
                        let last = pairs(res@)[pos - 1];
                        assert(!leq(last, it));
                        text_leq_total(last.0, it.0);
                        text_leq_total(last.1, it.1);
                        assert(leq(it, last));
                        assert forall|j: int| pos - 1 <= j < res.len() implies #[trigger] leq(
                            it,
                            pairs(res@)[j],
                        ) by {}
                    }
                    pos = pos - 1;
                }
                proof {
                    if pos > 0 {
                        assert(leq(pairs(res@)[pos - 1], it));
                    }
                }
                res.insert(pos, item);
                proof {
                    broadcast use vstd::multiset::group_multiset_axioms;

                    assert(pairs(res@) =~= res_before.insert(pos as int, it));
                    vstd::seq_lib::to_multiset_insert(res_before, pos as int, it);
                    assert(rest_before =~= pairs(rest@).push(it));
                    vstd::seq_lib::to_multiset_build(pairs(rest@), it);
                    assert(pairs(rest@).to_multiset().add(pairs(res@).to_multiset())
                        =~= rest_before.to_multiset().add(res_before.to_multiset()));
                    let after = pairs(res@);
                    assert forall|i: int, j: int| 0 <= i < j < after.len() implies #[trigger] leq(
                        after[i],
                        after[j],
                    ) by {
                        let a = if i < pos { i } else { i - 1 };
                        let b = if j < pos { j } else { j - 1 };
                        if i != pos && j != pos {
                            assert(leq(res_before[a], res_before[b]));
                        } else if j == pos {
                            assert(leq(res_before[pos - 1], it));
                            if i < pos - 1 {
                                assert(leq(res_before[i], res_before[pos - 1]));
                            }
                        }
                    }
                }
            },
            None => {},
        }
    }
    proof {
        broadcast use vstd::multiset::group_multiset_axioms;

        assert(pairs(rest@) =~= Seq::empty());
        vstd::seq_lib::to_multiset_len(Seq::<(Seq<char>, Seq<char>)>::empty());
        assert(pairs(res@).to_multiset() =~= all.to_multiset());
        all.lemma_sort_by_ensures(leq);
        vstd::seq_lib::lemma_sorted_unique(pairs(res@), sorted_pairs(all), leq);
    }
    res
}

/// Texts are ordered as in a dictionary: the first character in which they differ decides, and a
/// text comes before those that it is the start of.
pub proof fn texts_are_ordered_by_code_points(
    start: Seq<char>,
    a: char,
    b: char,
    x: Seq<char>,
    y: Seq<char>,
)
    ensures
        (a as int) < (b as int) ==> text_leq(start.push(a) + x, start.push(b) + y) && !text_leq(
            start.push(b) + y,
            start.push(a) + x,
        ),
        text_leq(start, start + x),
        x.len() > 0 ==> !text_leq(start + x, start),
    decreases start.len(),
{
    let p = start.push(a) + x;
    let q = start.push(b) + y;
    let s = start + x;
    if start.len() > 0 {
        let rest = start.drop_first();
        texts_are_ordered_by_code_points(rest, a, b, x, y);
        assert(p.drop_first() =~= rest.push(a) + x);
        assert(q.drop_first() =~= rest.push(b) + y);
        assert(s.drop_first() =~= rest + x);
        assert(p[0] == start[0] && q[0] == start[0] && s[0] == start[0]);
    } else {
        assert(p[0] == a && q[0] == b);
    }
}

/// Pairs are ordered by their first text, and where that is the same by their second.
pub proof fn pairs_are_ordered_by_both_texts(
    a: (Seq<char>, Seq<char>),
    b: (Seq<char>, Seq<char>),
)
    ensures
        a.0 != b.0 ==> pair_leq(a, b) == text_leq(a.0, b.0),
        a.0 == b.0 ==> pair_leq(a, b) == text_leq(a.1, b.1),
{
}

} // verus!
