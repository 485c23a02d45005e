//! What is known of each name while an entry is written: whether it stands for a
//! string, a metric, or a dimension that still has to be filled in.

use vstd::prelude::*;
use vstd::string::*;

use crate::index::{
    copy_name_index, name_position, name_positions, new_name_index, set_name_position, NameIndex,
};

verus! {

/// The bit sets of the `bit_set` crate.
#[verifier::external_type_specification]
#[verifier::external_body]
#[verifier::reject_recursive_types(B)]
pub struct ExBitSet<B>(bit_set::BitSet<B>);

/// The numbers that a bit set holds.
pub uninterp spec fn bits_of(set: bit_set::BitSet<u32>) -> Set<usize>;

/// `bit_set::BitSet::new` makes an empty set.
#[verifier::external_body]
fn new_bit_set() -> (set: bit_set::BitSet<u32>)
    ensures
        bits_of(set) == Set::<usize>::empty(),
{
    bit_set::BitSet::new()
}

/// `bit_set::BitSet::insert` adds a number and tells whether it was missing. It
/// panics if the number is the largest there is, since the set is as long as its
/// largest number plus one.
#[verifier::external_body]
fn insert_bit(set: &mut bit_set::BitSet<u32>, number: usize) -> (res: bool)
    requires
        number < usize::MAX,
    ensures
        bits_of(*final(set)) == bits_of(*old(set)).insert(number),
        res == !bits_of(*old(set)).contains(number),
{
    set.insert(number)
}

/// What a name stands for.
pub enum LineKind {
    /// A string.
    Text,
    /// A metric: whether it stands among those without dimensions of their own,
    /// and the sets of dimensions that it stands in.
    Metric { global: bool, sets: bit_set::BitSet<u32> },
    /// A dimension without a string as yet.
    UnfoundDimension,
}

/// What a name stands for.
pub ghost enum LineModel {
    Text,
    Metric { global: bool, sets: Set<usize> },
    UnfoundDimension,
}

impl View for LineKind {
    type V = LineModel;

    open spec fn view(&self) -> LineModel {
        match *self {
            LineKind::Text => LineModel::Text,
            LineKind::Metric { global, sets } => LineModel::Metric { global, sets: bits_of(sets) },
            LineKind::UnfoundDimension => LineModel::UnfoundDimension,
        }
    }
}

/// A name and what it stands for.
pub struct Line {
    pub name: String,
    pub kind: LineKind,
}

/// The names seen so far, in the order in which they came up, and what each
/// stands for.
pub ghost struct LinesModel {
    pub order: Seq<Seq<char>>,
    pub kinds: Map<Seq<char>, LineModel>,
}

/// No names.
pub open spec fn no_lines() -> LinesModel {
    LinesModel { order: Seq::empty(), kinds: Map::empty() }
}

/// The lines with `name` standing for `kind`; a name that is new comes last.
pub open spec fn set_line(lines: LinesModel, name: Seq<char>, kind: LineModel) -> LinesModel {
    LinesModel {
        order: if lines.kinds.contains_key(name) {
            lines.order
        } else {
            lines.order.push(name)
        },
        kinds: lines.kinds.insert(name, kind),
    }
}

/// The lines with `name` as a dimension to be filled in, unless the name is known.
pub open spec fn expect_dimension(lines: LinesModel, name: Seq<char>) -> LinesModel {
    if lines.kinds.contains_key(name) {
        lines
    } else {
        set_line(lines, name, LineModel::UnfoundDimension)
    }
}

/// Whether each name is a dimension to be filled in.
pub open spec fn all_unfound(lines: LinesModel) -> bool {
    forall|name: Seq<char>| #[trigger]
        lines.kinds.contains_key(name) ==> lines.kinds[name] is UnfoundDimension
}

/// Where a metric stands: among those without dimensions of their own, or in a
/// set of dimensions.
#[derive(Clone, Copy)]
pub enum Place {
    Global,
    Within(usize),
}

/// Whether a metric of that kind already stands in that place.
pub open spec fn stands_in(global: bool, sets: Set<usize>, place: Place) -> bool {
    match place {
        Place::Global => global,
        Place::Within(i) => sets.contains(i),
    }
}

/// The metric, standing in that place too.
pub open spec fn standing_in(global: bool, sets: Set<usize>, place: Place) -> LineModel {
    match place {
        Place::Global => LineModel::Metric { global: true, sets },
        Place::Within(i) => LineModel::Metric { global, sets: sets.insert(i) },
    }
}

/// How the note that a metric stands in a place was taken.
#[derive(Clone, Copy, Debug, PartialEq, Eq, Structural)]
pub enum MetricNote {
    /// The name was free there.
    Taken,
    /// The name is that of a dimension that wants a string.
    InDimension,
    /// The name already stands for something there.
    Duplicate,
}

/// How the note that `name` is a metric in `place` is taken.
pub open spec fn metric_note(lines: LinesModel, name: Seq<char>, place: Place) -> MetricNote {
    if !lines.kinds.contains_key(name) {
        MetricNote::Taken
    } else {
        match lines.kinds[name] {
            LineModel::UnfoundDimension => MetricNote::InDimension,
            LineModel::Text => MetricNote::Duplicate,
            LineModel::Metric { global, sets } => if stands_in(global, sets, place) {
                MetricNote::Duplicate
            } else {
                MetricNote::Taken
            },
        }
    }
}

/// The lines after the note that `name` is a metric in `place`.
pub open spec fn metric_noted(lines: LinesModel, name: Seq<char>, place: Place) -> LinesModel {
    if metric_note(lines, name, place) != MetricNote::Taken {
        lines
    } else {
        match lines.kinds[name] {
            LineModel::Metric { global, sets } if lines.kinds.contains_key(name) => set_line(
                lines,
                name,
                standing_in(global, sets, place),
            ),
            _ => set_line(lines, name, standing_in(false, Set::empty(), place)),
        }
    }
}

/// The names seen so far, with a hash index over them.
pub struct Lines {
    pub list: Vec<Line>,
    pub index: NameIndex,
}

impl View for Lines {
    type V = LinesModel;

    open spec fn view(&self) -> LinesModel {
        LinesModel {
            order: self.list@.map_values(|l: Line| l.name@),
            kinds: name_positions(self.index).map_values(|i: usize| self.list@[i as int].kind@),
        }
    }
}

impl Lines {
    /// The index holds the position of each name, and nothing else.
    pub open spec fn wf(self) -> bool {
        &&& forall|i: int|
            0 <= i < self.list@.len() ==> {
                &&& name_positions(self.index).contains_key(#[trigger] self.list@[i].name@)
                &&& name_positions(self.index)[self.list@[i].name@] == i
            }
        &&& forall|n: Seq<char>| #[trigger]
            name_positions(self.index).contains_key(n) ==> {
                &&& name_positions(self.index)[n] < self.list@.len()
                &&& self.list@[name_positions(self.index)[n] as int].name@ == n
            }
    }

    /// No names.
    pub fn new() -> (lines: Lines)
        ensures
            lines.wf(),
            lines@ == no_lines(),
    {
        let lines = Lines { list: Vec::new(), index: new_name_index() };
        assert(lines@.order =~= Seq::empty());
        assert(lines@.kinds =~= Map::empty());
        lines
    }

    /// The position of a name.
    pub fn find(&self, name: &str) -> (res: Option<usize>)
        requires
            self.wf(),
        ensures
            res is Some <==> self@.kinds.contains_key(name@),
            res matches Some(i) ==> i < self.list@.len() && self.list@[i as int].name@ == name@
                && self@.kinds[name@] == self.list@[i as int].kind@,
    {
        name_position(&self.index, name)
    }

    /// Adds a name that is new.
    fn add(&mut self, name: &str, kind: LineKind)
        requires
            old(self).wf(),
            !old(self)@.kinds.contains_key(name@),
        ensures
            final(self).wf(),
            final(self)@ == set_line(old(self)@, name@, kind@),
    {
        let position: usize = self.list.len();
        set_name_position(&mut self.index, name.to_owned(), position);
        self.list.push(Line { name: name.to_owned(), kind });
        proof {
            let goal = set_line(old(self)@, name@, kind@);
            assert(self@.order =~= goal.order);
            assert(self@.kinds =~= goal.kinds);
        }
    }

    /// Changes what the name at a position stands for.
    fn change(&mut self, position: usize, kind: LineKind)
        requires
            old(self).wf(),
            position < old(self).list@.len(),
        ensures
            final(self).wf(),
            final(self)@ == set_line(old(self)@, old(self).list@[position as int].name@, kind@),
    {
        self.list[position].kind = kind;
        proof {
            let goal = set_line(old(self)@, old(self).list@[position as int].name@, kind@);
            assert(self@.order =~= goal.order);
            assert(self@.kinds =~= goal.kinds);
        }
    }

    /// Takes note of a dimension that has to be filled in.
    pub fn expect(&mut self, name: &str)
        requires
            old(self).wf(),
        ensures
            final(self).wf(),
            final(self)@ == expect_dimension(old(self)@, name@),
    {
        if self.find(name).is_none() {
            self.add(name, LineKind::UnfoundDimension);
        }
    }

    /// Takes note of a string. Tells whether the name was free for it.
    pub fn note_text(&mut self, name: &str) -> (res: bool)
        requires
            old(self).wf(),
        ensures
            final(self).wf(),
            res == (!old(self)@.kinds.contains_key(name@)
                || old(self)@.kinds[name@] is UnfoundDimension),
            final(self)@ == if res {
                set_line(old(self)@, name@, LineModel::Text)
            } else {
                old(self)@
            },
    {
        match self.find(name) {
            Some(position) => {
                let free = matches!(self.list[position].kind, LineKind::UnfoundDimension);
                if free {
                    self.change(position, LineKind::Text);
                }
                free
            },
            None => {
                self.add(name, LineKind::Text);
                true
            },
        }
    }

    /// Takes note of a metric in a place.
    pub fn note_metric(&mut self, name: &str, place: Place) -> (res: MetricNote)
        requires
            old(self).wf(),
            place matches Place::Within(i) ==> i < usize::MAX,
        ensures
            final(self).wf(),
            res == metric_note(old(self)@, name@, place),
            final(self)@ == metric_noted(old(self)@, name@, place),
    {
        match self.find(name) {
            Some(position) => {
                let res = match &mut self.list[position].kind {
                    LineKind::UnfoundDimension => MetricNote::InDimension,
                    LineKind::Text => MetricNote::Duplicate,
                    LineKind::Metric { global, sets } => {
                        let fresh = match place {
                            Place::Global => {
                                let fresh = !*global;
                                *global = true;
                                fresh
                            },
                            Place::Within(i) => insert_bit(sets, i),
                        };
                        if fresh {
                            MetricNote::Taken
                        } else {
                            MetricNote::Duplicate
                        }
                    },
                };
                proof {
                    let goal = metric_noted(old(self)@, name@, place);
                    if let LineModel::Metric { sets, .. } = old(self)@.kinds[name@] {
                        if let Place::Within(i) = place {
                            assert(sets.contains(i) ==> sets.insert(i) =~= sets);
                        }
                    }
                    assert(self@.order =~= goal.order);
                    assert(self@.kinds =~= goal.kinds);
                }
                res
            },
            None => {
                let mut sets = new_bit_set();
                match place {
                    Place::Global => {
                        self.add(name, LineKind::Metric { global: true, sets });
                    },
                    Place::Within(i) => {
                        insert_bit(&mut sets, i);
                        self.add(name, LineKind::Metric { global: false, sets });
                    },
                }
                MetricNote::Taken
            },
        }
    }

    /// A copy of lines that are all dimensions to be filled in.
    pub fn duplicate(&self) -> (lines: Lines)
        requires
            self.wf(),
            all_unfound(self@),
        ensures
            lines.wf(),
            lines@ == self@,
    {
        let mut list: Vec<Line> = Vec::new();
        for i in 0..self.list.len()
            invariant
                self.wf(),
                all_unfound(self@),
                list@.len() == i,
                forall|j: int|
                    0 <= j < i ==> (#[trigger] list@[j]).name == self.list@[j].name
                        && list@[j].kind@ == self.list@[j].kind@,
        {
            assert(self@.kinds.contains_key(self.list@[i as int].name@));
            assert(self@.kinds[self.list@[i as int].name@] is UnfoundDimension);
            list.push(
                Line { name: self.list[i].name.clone(), kind: LineKind::UnfoundDimension },
            );
        }
        let lines = Lines { list, index: copy_name_index(&self.index) };
        assert(lines@.order =~= self@.order);
        assert(lines@.kinds =~= self@.kinds);
        lines
    }
}

} // verus!
