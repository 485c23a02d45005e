//! The code that tells the sample group of an entry.

use vstd::prelude::*;

use crate::derive::field::{
    make_ns, namespace_of, MetricsField, MetricsFieldKind, NameStyle, Namespace,
};

verus! {

/// What a field adds to the sample group.
#[derive(Clone, Copy, Debug, PartialEq, Eq, Structural)]
pub enum SampleGroupSource {
    /// The sample group of an entry in a namespace.
    Inflected(Namespace),
    /// The sample group of an entry.
    Entry,
    /// The name and the value of the field.
    Value(Namespace),
}

/// What a field adds to the sample group, and whether that is compiled under the
/// conditions of the field.
#[derive(Clone, Copy, Debug, PartialEq, Eq, Structural)]
pub struct SampleGroupPlan {
    pub source: SampleGroupSource,
    pub gated: bool,
}

/// What a field adds to the sample group, if anything.
pub open spec fn sample_group_source(kind: MetricsFieldKind, style: NameStyle) -> Option<
    SampleGroupSource,
> {
    match kind {
        MetricsFieldKind::Flatten { .. } => Some(SampleGroupSource::Inflected(namespace_of(style))),
        MetricsFieldKind::FlattenEntry => Some(SampleGroupSource::Entry),
        MetricsFieldKind::Field { sample_group, .. } => if sample_group {
            Some(SampleGroupSource::Value(namespace_of(style)))
        } else {
            None
        },
        _ => None,
    }
}

/// Plans what a field adds to the sample group, if anything.
pub fn collect_field_sample_group(field: &MetricsField, rename_all: NameStyle) -> (res: Option<
    SampleGroupPlan,
>)
    ensures
        res == match sample_group_source(field.kind, rename_all) {
            Some(source) => Some(SampleGroupPlan { source, gated: field.gated }),
            None => None,
        },
{
    let source = match &field.kind {
        MetricsFieldKind::Flatten { .. } => SampleGroupSource::Inflected(make_ns(rename_all)),
        MetricsFieldKind::FlattenEntry => SampleGroupSource::Entry,
        MetricsFieldKind::Field { sample_group: true, .. } => SampleGroupSource::Value(
            make_ns(rename_all),
        ),
        MetricsFieldKind::Field { sample_group: false, .. }
        | MetricsFieldKind::Ignore
        | MetricsFieldKind::Timestamp => {
            return None;
        },
    };
    Some(SampleGroupPlan { source, gated: field.gated })
}

/// Iterators chained two by two.
#[derive(Debug)]
pub enum ChainTree {
    /// No iterator.
    Empty,
    /// The iterator with that number.
    Leaf(usize),
    /// The iterators of the first tree, then those of the second.
    Chain(Box<ChainTree>, Box<ChainTree>),
}

/// The numbers of the iterators, in the order in which they are chained.
pub open spec fn leaves(tree: ChainTree) -> Seq<usize>
    decreases tree,
{
    match tree {
        ChainTree::Empty => Seq::empty(),
        ChainTree::Leaf(i) => seq![i],
        ChainTree::Chain(a, b) => leaves(*a) + leaves(*b),
    }
}

/// How many chains an iterator is at most inside of.
pub open spec fn depth(tree: ChainTree) -> nat
    decreases tree,
{
    match tree {
        ChainTree::Chain(a, b) => 1 + if depth(*a) < depth(*b) {
            depth(*b)
        } else {
            depth(*a)
        },
        _ => 0,
    }
}

/// The least number of halvings that bring `n` down to one.
pub open spec fn halvings(n: nat) -> nat
    decreases n,
{
    if n <= 1 {
        0
    } else {
        1 + halvings((n - n / 2) as nat)
    }
}

proof fn halvings_grow(m: nat, n: nat)
    requires
        m <= n,
    ensures
        halvings(m) <= halvings(n),
    decreases n,
{
    if m > 1 {
        halvings_grow((m - m / 2) as nat, (n - n / 2) as nat);
    }
}

/// The numbers from `first` on.
pub open spec fn numbers_from(first: usize, n: nat) -> Seq<usize> {
    Seq::new(n, |i: int| (first + i) as usize)
}

/// Chains `n` iterators, numbered from `first`, in order. No iterator is inside more chains
/// than it takes to halve `n` down to one.
pub fn make_binary_tree_chain(first: usize, n: usize) -> (tree: ChainTree)
    requires
        first + n <= usize::MAX,
    ensures
        leaves(tree) == numbers_from(first, n as nat),
        depth(tree) == halvings(n as nat),
    decreases n,
{
    if n == 0 {
        assert(leaves(ChainTree::Empty) =~= numbers_from(first, 0));
        return ChainTree::Empty;
    }
    if n == 1 {
        assert(leaves(ChainTree::Leaf(first)) =~= numbers_from(first, 1));
        return ChainTree::Leaf(first);
    }
    let mid: usize = n / 2;
    let left = make_binary_tree_chain(first, mid);
    let right = make_binary_tree_chain(first + mid, n - mid);
    proof {
        halvings_grow(mid as nat, (n - mid) as nat);
        assert(numbers_from(first, mid as nat) + numbers_from(
            (first + mid) as usize,
            (n - mid) as nat,
        ) =~= numbers_from(first, n as nat));
    }
    ChainTree::Chain(Box::new(left), Box::new(right))
}

} // verus!
