//! Descriptions of entries: which fields they write, under which names, with which
//! flags, shapes and units.

use core::marker::PhantomData;

use vstd::pervasive::unreached;
use vstd::prelude::*;
use vstd::string::*;

use crate::flags::{FlagConstructor, MetricFlags};
use crate::listing::{selects, selects_more, selects_none};
use crate::type_ids::{id_of_type, same_type_id};
use crate::unit::Unit;

verus! {

/// A way to spell names.
#[derive(Debug, Clone, Copy)]
#[non_exhaustive]
pub struct Style {
    /// The position of the style in lists of names.
    pub index: u8,
    /// What the style is called.
    pub name: &'static str,
}

/// The ways to spell names.
#[non_exhaustive]
pub struct Styles;

/// The number of styles.
pub const STYLE_COUNT: usize = 5;

impl Styles {
    /// As declared.
    pub fn preserve() -> (s: Style)
        ensures
            s.index == 0,
            s.name@ == "preserve"@,
    {
        Style { index: 0, name: "preserve" }
    }

    /// PascalCase.
    pub fn pascal() -> (s: Style)
        ensures
            s.index == 1,
            s.name@ == "PascalCase"@,
    {
        Style { index: 1, name: "PascalCase" }
    }

    /// snake_case.
    pub fn snake() -> (s: Style)
        ensures
            s.index == 2,
            s.name@ == "snake_case"@,
    {
        Style { index: 2, name: "snake_case" }
    }

    /// kebab-case.
    pub fn kebab() -> (s: Style)
        ensures
            s.index == 3,
            s.name@ == "kebab-case"@,
    {
        Style { index: 3, name: "kebab-case" }
    }

    /// SCREAMING_SNAKE_CASE.
    pub fn screaming_snake() -> (s: Style)
        ensures
            s.index == 4,
            s.name@ == "SCREAMING_SNAKE_CASE"@,
    {
        Style { index: 4, name: "SCREAMING_SNAKE_CASE" }
    }

    /// All styles, each at its position.
    pub fn all() -> (list: Vec<Style>)
        ensures
            list@.len() == STYLE_COUNT,
            forall|i: int| 0 <= i < list@.len() ==> (#[trigger] list@[i]).index == i,
            list@[0].name@ == "preserve"@,
            list@[1].name@ == "PascalCase"@,
            list@[2].name@ == "snake_case"@,
            list@[3].name@ == "kebab-case"@,
            list@[4].name@ == "SCREAMING_SNAKE_CASE"@,
    {
        vec![
            Styles::preserve(),
            Styles::pascal(),
            Styles::snake(),
            Styles::kebab(),
            Styles::screaming_snake(),
        ]
    }
}

/// A scalar.
#[non_exhaustive]
#[derive(Debug, Clone, Copy, PartialEq, Eq, Hash, Structural)]
pub enum KnownShape {
    /// A truth value.
    Bool,
    /// An unsigned 8-bit integer.
    U8,
    /// An unsigned 16-bit integer.
    U16,
    /// An unsigned 32-bit integer.
    U32,
    /// An unsigned 64-bit integer.
    U64,
    /// A signed 8-bit integer.
    I8,
    /// A signed 16-bit integer.
    I16,
    /// A signed 32-bit integer.
    I32,
    /// A signed 64-bit integer.
    I64,
    /// A 32-bit floating-point number.
    F32,
    /// A 64-bit floating-point number.
    F64,
    /// A string.
    String,
    /// Bytes.
    Bytes,
}

/// The key of a map.
#[non_exhaustive]
#[derive(Debug, Clone, Copy, PartialEq, Eq, Hash, Structural)]
pub enum StringShape {
    /// A string.
    String,
}

/// What a field is written as.
#[non_exhaustive]
#[derive(Debug, Clone, Copy, PartialEq, Eq)]
pub enum FieldShape<'a> {
    /// A scalar.
    Known(KnownShape),
    /// Something that may be missing.
    Optional(ShapeRef<'a>),
    /// A map whose keys are not known beforehand.
    Flex {
        /// The keys.
        key: StringShape,
        /// The values.
        value: ShapeRef<'a>,
    },
    /// A list.
    List(ShapeRef<'a>),
    /// A nested object.
    Object,
    /// Something that is not known beforehand.
    Opaque,
}

/// A shape inside another one.
#[derive(Debug, Clone, Copy, PartialEq, Eq)]
pub struct ShapeRef<'a> {
    inner: &'a FieldShape<'a>,
}

impl<'a> ShapeRef<'a> {
    /// The shape itself.
    pub closed spec fn shape(self) -> FieldShape<'a> {
        *self.inner
    }

    /// The shape itself.
    pub fn get(&self) -> (shape: &FieldShape<'a>)
        ensures
            *shape == self.shape(),
    {
        self.inner
    }

    /// A reference to a shape.
    pub fn new(inner: &'a FieldShape<'a>) -> (r: ShapeRef<'a>)
        ensures
            r.shape() == *inner,
    {
        ShapeRef { inner }
    }
}

/// Makes a flag whenever it is asked to.
pub trait FlagMaker: Send + Sync {
    /// The flag that is made.
    spec fn made(&self) -> MetricFlags;

    /// Makes the flag.
    fn make(&self) -> (flags: MetricFlags)
        ensures
            flags == self.made(),
    ;
}

impl<T: FlagConstructor + Send + Sync> FlagMaker for PhantomData<T> {
    open spec fn made(&self) -> MetricFlags {
        T::flags()
    }

    fn make(&self) -> (flags: MetricFlags) {
        T::construct()
    }
}

/// A flag of a field: the type that makes it, and what has it make the flag.
#[derive(Clone, Copy)]
pub struct FieldFlag {
    type_id: std::any::TypeId,
    maker: &'static dyn FlagMaker,
}

impl FieldFlag {
    /// The identifier of the type that makes the flag.
    pub closed spec fn id(self) -> std::any::TypeId {
        self.type_id
    }

    /// The flag that is made.
    pub closed spec fn made(self) -> MetricFlags {
        self.maker.made()
    }

    /// Whether it is the flag that `T` makes.
    pub open spec fn is_of<T: FlagConstructor>(self) -> bool {
        self.id() == id_of_type::<T>() && self.made() == T::flags()
    }

    /// The flag that `T` makes. It is made when it is asked for.
    pub fn new<T: FlagConstructor + Send + Sync + 'static>() -> (f: FieldFlag)
        ensures
            f.is_of::<T>(),
    {
        FieldFlag { type_id: std::any::TypeId::of::<T>(), maker: &PhantomData::<T> }
    }

    /// The identifier of the type that makes the flag.
    pub fn type_id(&self) -> (id: std::any::TypeId)
        ensures
            id == self.id(),
    {
        self.type_id
    }

    /// Whether `T` makes the flag.
    pub fn is<T: 'static>(&self) -> (res: bool)
        ensures
            res == (self.id() == id_of_type::<T>()),
    {
        same_type_id(self.type_id, std::any::TypeId::of::<T>())
    }

    /// Has the type make the flag.
    pub fn construct(&self) -> (flags: MetricFlags)
        ensures
            flags == self.made(),
    {
        self.maker.make()
    }
}

/// The flag that a type makes is told to be that of another type if and only if both types have the
/// same identifier, which each type has in common with itself; and it is always what the first one
/// makes.
pub proof fn flags_belong_to_types<T: FlagConstructor, U>(f: FieldFlag)
    requires
        f.is_of::<T>(),
    ensures
        f.id() == id_of_type::<U>() <==> id_of_type::<T>() == id_of_type::<U>(),
        f.id() == id_of_type::<T>(),
        f.made() == T::flags(),
{
}

/// The timestamp of an entry.
#[derive(Debug, Clone, Copy)]
pub struct TimestampDescriptor {
    name: &'static str,
}

impl View for TimestampDescriptor {
    type V = Seq<char>;

    closed spec fn view(&self) -> Seq<char> {
        self.name@
    }
}

impl TimestampDescriptor {
    /// A timestamp of the given name.
    pub fn new(name: &'static str) -> (t: TimestampDescriptor)
        ensures
            t@ == name@,
    {
        TimestampDescriptor { name }
    }

    /// The name of the timestamp.
    pub fn name(&self) -> (name: &str)
        ensures
            name@ == self@,
    {
        self.name
    }
}

/// What is known of a field.
pub ghost struct FieldModel {
    /// The name of the field in each style.
    pub names: Seq<&'static str>,
    pub flags: Seq<FieldFlag>,
    /// Flags that the field does without wherever it ends up.
    pub skipped_flags: Seq<FieldFlag>,
    pub shape: FieldShape<'static>,
    pub unit: Option<Unit>,
}

/// A field of an entry, with its name in each style.
pub struct FieldDescriptor {
    names: [&'static str; 5],
    flags: &'static [FieldFlag],
    skipped_flags: &'static [FieldFlag],
    shape: FieldShape<'static>,
    unit: Option<Unit>,
}

impl View for FieldDescriptor {
    type V = FieldModel;

    closed spec fn view(&self) -> FieldModel {
        FieldModel {
            names: self.names@,
            flags: self.flags@,
            skipped_flags: self.skipped_flags@,
            shape: self.shape,
            unit: self.unit,
        }
    }
}

impl FieldDescriptor {
    /// Starts the description of a field that has the same name in all styles.
    pub fn builder(name: &'static str) -> (b: FieldDescriptorBuilder)
        ensures
            b@ == (FieldModel {
                names: Seq::new(5, |i: int| name),
                flags: Seq::empty(),
                skipped_flags: Seq::empty(),
                shape: FieldShape::Opaque,
                unit: None,
            }),
    {
        let b = FieldDescriptorBuilder {
            names: [name, name, name, name, name],
            flags: &[],
            skipped_flags: &[],
            shape: FieldShape::Opaque,
            unit: None,
        };
        assert(b@.names =~= Seq::new(5, |i: int| name));
        assert(b@.flags =~= Seq::empty());
        assert(b@.skipped_flags =~= Seq::empty());
        b
    }
}

/// Builds a [`FieldDescriptor`].
pub struct FieldDescriptorBuilder {
    names: [&'static str; 5],
    flags: &'static [FieldFlag],
    skipped_flags: &'static [FieldFlag],
    shape: FieldShape<'static>,
    unit: Option<Unit>,
}

impl View for FieldDescriptorBuilder {
    type V = FieldModel;

    closed spec fn view(&self) -> FieldModel {
        FieldModel {
            names: self.names@,
            flags: self.flags@,
            skipped_flags: self.skipped_flags@,
            shape: self.shape,
            unit: self.unit,
        }
    }
}

impl FieldDescriptorBuilder {
    /// Sets the name in PascalCase.
    pub fn pascal(self, name: &'static str) -> (b: FieldDescriptorBuilder)
        ensures
            b@ == renamed(self@, 1, name),
    {
        let mut b = self;
        b.names[1] = name;
        b
    }

    /// Sets the name in snake_case.
    pub fn snake(self, name: &'static str) -> (b: FieldDescriptorBuilder)
        ensures
            b@ == renamed(self@, 2, name),
    {
        let mut b = self;
        b.names[2] = name;
        b
    }

    /// Sets the name in kebab-case.
    pub fn kebab(self, name: &'static str) -> (b: FieldDescriptorBuilder)
        ensures
            b@ == renamed(self@, 3, name),
    {
        let mut b = self;
        b.names[3] = name;
        b
    }

    /// Sets the name in SCREAMING_SNAKE_CASE.
    pub fn screaming_snake(self, name: &'static str) -> (b: FieldDescriptorBuilder)
        ensures
            b@ == renamed(self@, 4, name),
    {
        let mut b = self;
        b.names[4] = name;
        b
    }

    /// Sets the flags.
    pub fn flags(self, flags: &'static [FieldFlag]) -> (b: FieldDescriptorBuilder)
        ensures
            b@ == (FieldModel { flags: flags@, ..self@ }),
    {
        let mut b = self;
        b.flags = flags;
        b
    }

    /// Sets the flags that the field does without wherever it ends up.
    pub fn skipped_flags(self, flags: &'static [FieldFlag]) -> (b: FieldDescriptorBuilder)
        ensures
            b@ == (FieldModel { skipped_flags: flags@, ..self@ }),
    {
        let mut b = self;
        b.skipped_flags = flags;
        b
    }

    /// Sets the shape.
    pub fn shape(self, shape: FieldShape<'static>) -> (b: FieldDescriptorBuilder)
        ensures
            b@ == (FieldModel { shape, ..self@ }),
    {
        let mut b = self;
        b.shape = shape;
        b
    }

    /// Sets the unit.
    pub fn unit(self, unit: Unit) -> (b: FieldDescriptorBuilder)
        ensures
            b@ == (FieldModel { unit: Some(unit), ..self@ }),
    {
        let mut b = self;
        b.unit = Some(unit);
        b
    }

    /// Sets the unit, or that there is none.
    pub fn maybe_unit(self, unit: Option<Unit>) -> (b: FieldDescriptorBuilder)
        ensures
            b@ == (FieldModel { unit, ..self@ }),
    {
        let mut b = self;
        b.unit = unit;
        b
    }

    /// The description.
    pub fn build(self) -> (d: FieldDescriptor)
        ensures
            d@ == self@,
    {
        FieldDescriptor {
            names: self.names,
            flags: self.flags,
            skipped_flags: self.skipped_flags,
            shape: self.shape,
            unit: self.unit,
        }
    }
}

/// A field has a name in each style.
pub proof fn fields_have_a_name_in_each_style(d: FieldDescriptor)
    ensures
        d@.names.len() == STYLE_COUNT,
{
}

/// A field that is being described has a name in each style.
pub proof fn builders_have_a_name_in_each_style(b: FieldDescriptorBuilder)
    ensures
        b@.names.len() == STYLE_COUNT,
{
}

/// A field with another name in one style.
pub open spec fn renamed(field: FieldModel, style: int, name: &'static str) -> FieldModel {
    FieldModel { names: field.names.update(style, name), ..field }
}

/// Naming a field in one style leaves its names in the others as they are; in which order styles
/// are named makes no difference; of two names in one style the last counts.
pub proof fn naming_fields(
    b: FieldDescriptorBuilder,
    style: int,
    other: int,
    name: &'static str,
    other_name: &'static str,
)
    requires
        0 <= style < STYLE_COUNT,
        0 <= other < STYLE_COUNT,
        style != other,
    ensures
        renamed(b@, style, name).names.len() == STYLE_COUNT,
        renamed(b@, style, name).names[style] == name,
        renamed(b@, style, name).names[other] == b@.names[other],
        renamed(renamed(b@, style, name), other, other_name) == renamed(
            renamed(b@, other, other_name),
            style,
            name,
        ),
        renamed(renamed(b@, style, other_name), style, name) == renamed(b@, style, name),
{
    builders_have_a_name_in_each_style(b);
    assert(renamed(renamed(b@, style, name), other, other_name).names =~= renamed(
        renamed(b@, other, other_name),
        style,
        name,
    ).names);
    assert(renamed(renamed(b@, style, other_name), style, name).names =~= renamed(
        b@,
        style,
        name,
    ).names);
}

/// What is known of an entry.
pub ghost struct EntryModel {
    pub name: Seq<char>,
    pub fields: Seq<FieldModel>,
    pub timestamp: Option<Seq<char>>,
}

/// What is known of fields.
pub open spec fn field_models(fields: Seq<FieldDescriptor>) -> Seq<FieldModel> {
    fields.map_values(|f: FieldDescriptor| f@)
}

/// The name of a timestamp, if there is one.
pub open spec fn timestamp_name(t: Option<TimestampDescriptor>) -> Option<Seq<char>> {
    match t {
        Some(t) => Some(t@),
        None => None,
    }
}

/// An entry with its fields.
pub struct EntryDescriptor {
    name: &'static str,
    fields: &'static [FieldDescriptor],
    timestamp: Option<TimestampDescriptor>,
}

impl View for EntryDescriptor {
    type V = EntryModel;

    closed spec fn view(&self) -> EntryModel {
        EntryModel {
            name: self.name@,
            fields: field_models(self.fields@),
            timestamp: timestamp_name(self.timestamp),
        }
    }
}

impl EntryDescriptor {
    /// Starts the description of an entry.
    pub fn builder(name: &'static str, fields: &'static [FieldDescriptor]) -> (b:
        EntryDescriptorBuilder)
        ensures
            b@ == (EntryModel { name: name@, fields: field_models(fields@), timestamp: None }),
    {
        EntryDescriptorBuilder { name, fields, timestamp: None }
    }
}

/// Builds an [`EntryDescriptor`].
pub struct EntryDescriptorBuilder {
    name: &'static str,
    fields: &'static [FieldDescriptor],
    timestamp: Option<TimestampDescriptor>,
}

impl View for EntryDescriptorBuilder {
    type V = EntryModel;

    closed spec fn view(&self) -> EntryModel {
        EntryModel {
            name: self.name@,
            fields: field_models(self.fields@),
            timestamp: timestamp_name(self.timestamp),
        }
    }
}

impl EntryDescriptorBuilder {
    /// Sets the timestamp.
    pub fn timestamp(self, ts: TimestampDescriptor) -> (b: EntryDescriptorBuilder)
        ensures
            b@ == (EntryModel { timestamp: Some(ts@), ..self@ }),
    {
        let mut b = self;
        b.timestamp = Some(ts);
        b
    }

    /// Sets the timestamp, or that there is none.
    pub fn maybe_timestamp(self, ts: Option<TimestampDescriptor>) -> (b: EntryDescriptorBuilder)
        ensures
            b@ == (EntryModel { timestamp: timestamp_name(ts), ..self@ }),
    {
        let mut b = self;
        b.timestamp = ts;
        b
    }

    /// The description.
    pub fn build(self) -> (d: EntryDescriptor)
        ensures
            d@ == self@,
    {
        EntryDescriptor { name: self.name, fields: self.fields, timestamp: self.timestamp }
    }
}

// ---------------------------------------------------------------------------
// Identities
// ---------------------------------------------------------------------------

/// Tells descriptions apart within a process.
#[derive(Debug, Clone, Copy, PartialEq, Eq, Hash, Structural)]
pub struct DescriptorId {
    pub number: u64,
}

/// A number that stands for another one and an address.
pub open spec fn mixed(id: u64, address: u64) -> u64 {
    (((id * 31) % 0x1_0000_0000_0000_0000 + address) % 0x1_0000_0000_0000_0000) as u64
}

/// A number that stands for another one and several addresses.
pub open spec fn mixed_all(id: u64, addresses: Seq<u64>) -> u64
    decreases addresses.len(),
{
    if addresses.len() == 0 {
        id
    } else {
        mixed(mixed_all(id, addresses.drop_last()), addresses.last())
    }
}

/// The identity of the description at an address, with prefixes and flags at others.
pub open spec fn identity(descriptor: u64, prefixes: Seq<u64>, extra_flags: Seq<u64>) -> DescriptorId {
    DescriptorId { number: mixed_all(mixed_all(descriptor, prefixes), extra_flags) }
}

impl DescriptorId {
    /// The identity of the description at an address, with prefixes and flags at others.
    pub fn compute(descriptor: u64, prefixes: &Vec<u64>, extra_flags: &Vec<u64>) -> (id:
        DescriptorId)
        ensures
            id == identity(descriptor, prefixes@, extra_flags@),
    {
        let mut id: u64 = descriptor;
        for i in 0..prefixes.len()
            invariant
                id == mixed_all(descriptor, prefixes@.take(i as int)),
        {
            assert(prefixes@.take(i + 1).drop_last() =~= prefixes@.take(i as int));
            id = id.wrapping_mul(31).wrapping_add(prefixes[i]);
        }
        assert(prefixes@.take(prefixes@.len() as int) =~= prefixes@);
        let ghost start = id;
        for i in 0..extra_flags.len()
            invariant
                id == mixed_all(start, extra_flags@.take(i as int)),
        {
            assert(extra_flags@.take(i + 1).drop_last() =~= extra_flags@.take(i as int));
            id = id.wrapping_mul(31).wrapping_add(extra_flags[i]);
        }
        assert(extra_flags@.take(extra_flags@.len() as int) =~= extra_flags@);
        DescriptorId { number: id }
    }
}

// ---------------------------------------------------------------------------
// Segments
// ---------------------------------------------------------------------------

/// Prefixes with their addresses, in a small vector of the `smallvec` crate.
#[verifier::external_body]
#[derive(Debug)]
pub struct PrefixList {
    list: smallvec::SmallVec<[(&'static str, u64); 1]>,
}

/// The prefixes that a list holds.
pub uninterp spec fn prefix_items(list: PrefixList) -> Seq<(&'static str, u64)>;

/// `smallvec::SmallVec::new` makes an empty list.
#[verifier::external_body]
fn new_prefix_list() -> (res: PrefixList)
    ensures
        prefix_items(res).len() == 0,
{
    PrefixList { list: smallvec::SmallVec::new() }
}

/// `smallvec::SmallVec::insert` at position zero puts an item before all others.
#[verifier::external_body]
fn put_prefix_first(list: &mut PrefixList, prefix: &'static str, address: u64)
    ensures
        prefix_items(*final(list)) == prefix_items(*old(list)).insert(0, (prefix, address)),
{
    list.list.insert(0, (prefix, address));
}

/// `smallvec::SmallVec::as_slice` gives the items in order.
#[verifier::external_body]
fn prefix_slice(list: &PrefixList) -> (res: &[(&'static str, u64)])
    ensures
        res@ == prefix_items(*list),
{
    list.list.as_slice()
}

/// Lists of flags with their addresses, in a small vector of the `smallvec` crate.
#[verifier::external_body]
pub struct FlagLists {
    list: smallvec::SmallVec<[(&'static [FieldFlag], u64); 1]>,
}

/// The lists of flags that a list holds.
pub uninterp spec fn flag_items(list: FlagLists) -> Seq<(&'static [FieldFlag], u64)>;

/// `smallvec::SmallVec::new` makes an empty list.
#[verifier::external_body]
fn new_flag_lists() -> (res: FlagLists)
    ensures
        flag_items(res).len() == 0,
{
    FlagLists { list: smallvec::SmallVec::new() }
}

/// `smallvec::SmallVec::push` puts an item after all others.
#[verifier::external_body]
fn push_flags(list: &mut FlagLists, flags: &'static [FieldFlag], address: u64)
    ensures
        flag_items(*final(list)) == flag_items(*old(list)).push((flags, address)),
{
    list.list.push((flags, address));
}

/// `smallvec::SmallVec::as_slice` gives the items in order.
#[verifier::external_body]
fn flags_slice(list: &FlagLists) -> (res: &[(&'static [FieldFlag], u64)])
    ensures
        res@ == flag_items(*list),
{
    list.list.as_slice()
}

/// What is known of a group of fields: the description that they come from and where
/// it lies, the prefixes that are put before their names, outermost first, the style
/// of the names, and the flags that are added.
pub ghost struct SegmentModel {
    pub descriptor: EntryModel,
    pub address: u64,
    pub prefixes: Seq<(Seq<char>, u64)>,
    pub style_index: u8,
    pub extra_flags: Seq<(Seq<FieldFlag>, u64)>,
}

/// The texts and addresses of prefixes.
pub open spec fn prefix_models(items: Seq<(&'static str, u64)>) -> Seq<(Seq<char>, u64)> {
    items.map_values(|p: (&'static str, u64)| (p.0@, p.1))
}

/// The contents and addresses of lists of flags.
pub open spec fn flag_models(items: Seq<(&'static [FieldFlag], u64)>) -> Seq<
    (Seq<FieldFlag>, u64),
> {
    items.map_values(|f: (&'static [FieldFlag], u64)| (f.0@, f.1))
}

/// The identity of a group of fields.
pub open spec fn segment_id(m: SegmentModel) -> DescriptorId {
    identity(
        m.address,
        m.prefixes.map_values(|p: (Seq<char>, u64)| p.1),
        m.extra_flags.map_values(|f: (Seq<FieldFlag>, u64)| f.1),
    )
}

/// Describes a group of fields that are written one after the other.
pub struct DescriptorRef {
    descriptor: &'static EntryDescriptor,
    address: u64,
    id: DescriptorId,
    prefixes: PrefixList,
    style_index: u8,
    extra_flags: FlagLists,
}

impl View for DescriptorRef {
    type V = SegmentModel;

    closed spec fn view(&self) -> SegmentModel {
        SegmentModel {
            descriptor: self.descriptor@,
            address: self.address,
            prefixes: prefix_models(prefix_items(self.prefixes)),
            style_index: self.style_index,
            extra_flags: flag_models(flag_items(self.extra_flags)),
        }
    }
}

impl DescriptorRef {
    /// The identity is that of the description and what was added to it.
    pub closed spec fn wf(self) -> bool {
        self.id == segment_id(self@)
    }

    /// The fields of the description at `address`, with names in the given style.
    pub fn from_static(
        descriptor: &'static EntryDescriptor,
        address: u64,
        style_index: u8,
    ) -> (r: DescriptorRef)
        ensures
            r.wf(),
            r@ == (SegmentModel {
                descriptor: descriptor@,
                address,
                prefixes: Seq::empty(),
                style_index,
                extra_flags: Seq::empty(),
            }),
    {
        let id = DescriptorId::compute(address, &Vec::new(), &Vec::new());
        let r = DescriptorRef {
            descriptor,
            address,
            id,
            prefixes: new_prefix_list(),
            style_index,
            extra_flags: new_flag_lists(),
        };
        proof {
            assert(r@.prefixes =~= Seq::empty());
            assert(r@.extra_flags =~= Seq::empty());
            assert(r@.prefixes.map_values(|p: (Seq<char>, u64)| p.1) =~= Seq::<u64>::empty());
            assert(r@.extra_flags.map_values(|f: (Seq<FieldFlag>, u64)| f.1) =~= Seq::<
                u64,
            >::empty());
        }
        r
    }

    /// The identity of the description with what was added to it.
    fn compute_id(&self) -> (id: DescriptorId)
        ensures
            id == segment_id(self@),
    {
        let prefixes = prefix_slice(&self.prefixes);
        let flags = flags_slice(&self.extra_flags);
        let ghost wanted = self@.prefixes.map_values(|p: (Seq<char>, u64)| p.1);
        let ghost wanted_flags = self@.extra_flags.map_values(|f: (Seq<FieldFlag>, u64)| f.1);
        let mut prefix_addresses: Vec<u64> = Vec::new();
        for i in 0..prefixes.len()
            invariant
                prefix_addresses@.len() == i,
                forall|j: int| 0 <= j < i ==> prefix_addresses@[j] == (#[trigger] prefixes@[j]).1,
        {
            prefix_addresses.push(prefixes[i].1);
        }
        let mut flag_addresses: Vec<u64> = Vec::new();
        for i in 0..flags.len()
            invariant
                flag_addresses@.len() == i,
                forall|j: int| 0 <= j < i ==> flag_addresses@[j] == (#[trigger] flags@[j]).1,
        {
            flag_addresses.push(flags[i].1);
        }
        assert(prefix_addresses@ =~= wanted);
        assert(flag_addresses@ =~= wanted_flags);
        DescriptorId::compute(self.address, &prefix_addresses, &flag_addresses)
    }

    /// Puts a prefix before the names, and before the prefixes that they have already.
    pub fn with_prefix(self, prefix: &'static str, address: u64) -> (r: DescriptorRef)
        ensures
            r.wf(),
            r@ == (SegmentModel {
                prefixes: self@.prefixes.insert(0, (prefix@, address)),
                ..self@
            }),
    {
        let mut r = self;
        put_prefix_first(&mut r.prefixes, prefix, address);
        assert(r@.prefixes =~= self@.prefixes.insert(0, (prefix@, address)));
        r.id = r.compute_id();
        r
    }

    /// Adds flags to all of the fields, on top of those that were added already.
    pub fn with_extra_flags(self, flags: &'static [FieldFlag], address: u64) -> (r: DescriptorRef)
        ensures
            r.wf(),
            r@ == (SegmentModel {
                extra_flags: self@.extra_flags.push((flags@, address)),
                ..self@
            }),
    {
        let mut r = self;
        push_flags(&mut r.extra_flags, flags, address);
        assert(r@.extra_flags =~= self@.extra_flags.push((flags@, address)));
        r.id = r.compute_id();
        r
    }

    /// What tells the group of fields apart from others.
    pub fn id(&self) -> (id: DescriptorId)
        requires
            self.wf(),
        ensures
            id == segment_id(self@),
    {
        self.id
    }

    /// The name of the entry.
    pub fn name(&self) -> (name: &str)
        ensures
            name@ == self@.descriptor.name,
    {
        self.descriptor.name
    }

    /// The number of fields.
    pub fn fields_len(&self) -> (n: usize)
        ensures
            n == self@.descriptor.fields.len(),
    {
        self.descriptor.fields.len()
    }

    /// The timestamp, if the entry has one.
    pub fn timestamp(&self) -> (t: Option<&TimestampDescriptor>)
        ensures
            self@.descriptor.timestamp == match t {
                Some(t) => Some(t@),
                None => None,
            },
    {
        match &self.descriptor.timestamp {
            Some(t) => Some(t),
            None => None,
        }
    }

    /// The fields, in order.
    pub fn fields(&self) -> (list: Vec<FieldView<'_>>)
        ensures
            list@.len() == self@.descriptor.fields.len(),
            forall|i: int|
                0 <= i < list@.len() ==> (#[trigger] list@[i]).segment() == self@
                    && list@[i].index() == i,
    {
        let mut list: Vec<FieldView<'_>> = Vec::new();
        for i in 0..self.descriptor.fields.len()
            invariant
                list@.len() == i,
                forall|j: int|
                    0 <= j < i ==> (#[trigger] list@[j]).segment() == self@ && list@[j].index()
                        == j,
        {
            list.push(FieldView { desc: self, idx: i });
        }
        list
    }
}

/// A field of a group, with what was added to the group.
pub struct FieldView<'a> {
    desc: &'a DescriptorRef,
    idx: usize,
}

/// Whether one of the flags is made by that type.
pub open spec fn has_flag(flags: Seq<FieldFlag>, id: std::any::TypeId) -> bool {
    exists|i: int| 0 <= i < flags.len() && (#[trigger] flags[i]).id() == id
}

/// Those of the flags that are not left out.
pub open spec fn not_skipped(flags: Seq<FieldFlag>, skipped: Seq<FieldFlag>) -> Seq<FieldFlag>
    decreases flags.len(),
{
    if flags.len() == 0 {
        Seq::empty()
    } else {
        let init = not_skipped(flags.drop_last(), skipped);
        if has_flag(skipped, flags.last().id()) {
            init
        } else {
            init.push(flags.last())
        }
    }
}

/// Those of the added flags that are not left out.
pub open spec fn added_flags(lists: Seq<(Seq<FieldFlag>, u64)>, skipped: Seq<FieldFlag>) -> Seq<
    FieldFlag,
>
    decreases lists.len(),
{
    if lists.len() == 0 {
        Seq::empty()
    } else {
        added_flags(lists.drop_last(), skipped) + not_skipped(lists.last().0, skipped)
    }
}

/// The flags of a field in a group: its own, then those that were added, without those that it
/// leaves out.
pub open spec fn field_flags(field: FieldModel, extra: Seq<(Seq<FieldFlag>, u64)>) -> Seq<
    FieldFlag,
> {
    not_skipped(field.flags, field.skipped_flags) + added_flags(extra, field.skipped_flags)
}

/// The parts of the name of a field in a group: the prefixes, outermost first, and the
/// name itself.
pub open spec fn name_texts(m: SegmentModel, field: FieldModel) -> Seq<Seq<char>> {
    m.prefixes.map_values(|p: (Seq<char>, u64)| p.0).push(field.names[m.style_index as int]@)
}

impl<'a> FieldView<'a> {
    /// The group that the field is in.
    pub closed spec fn segment(self) -> SegmentModel {
        self.desc@
    }

    /// The position of the field in the group.
    pub closed spec fn index(self) -> int {
        self.idx as int
    }

    /// The field itself.
    pub open spec fn field(self) -> FieldModel {
        self.segment().descriptor.fields[self.index()]
    }

    /// Whether there is such a field.
    pub open spec fn exists_in_segment(self) -> bool {
        0 <= self.index() < self.segment().descriptor.fields.len()
    }

    /// The parts of the name, in order: the prefixes, outermost first, and the name
    /// itself. The style has to be one of those there are.
    pub fn name_parts(&self) -> (parts: Vec<&'static str>)
        requires
            self.exists_in_segment(),
            self.segment().style_index < STYLE_COUNT,
        ensures
            parts@.map_values(|s: &'static str| s@) == name_texts(self.segment(), self.field()),
    {
        let prefixes = prefix_slice(&self.desc.prefixes);
        let mut parts: Vec<&'static str> = Vec::new();
        for i in 0..prefixes.len()
            invariant
                parts@.len() == i,
                forall|j: int| 0 <= j < i ==> parts@[j]@ == (#[trigger] prefixes@[j]).0@,
        {
            parts.push(prefixes[i].0);
        }
        parts.push(self.base_name());
        assert(parts@.map_values(|s: &'static str| s@) =~= name_texts(
            self.segment(),
            self.field(),
        ));
        parts
    }

    /// The name without prefixes. The style has to be one of those there are.
    pub fn base_name(&self) -> (name: &'static str)
        requires
            self.exists_in_segment(),
            self.segment().style_index < STYLE_COUNT,
        ensures
            name@ == self.field().names[self.segment().style_index as int]@,
    {
        let names = &self.desc.descriptor.fields[self.idx].names;
        names[self.desc.style_index as usize]
    }

    /// The flags of the field, then those that were added to the group, without those that the
    /// field leaves out.
    pub fn flags(&self) -> (flags: Vec<FieldFlag>)
        requires
            self.exists_in_segment(),
        ensures
            flags@ == field_flags(self.field(), self.segment().extra_flags),
    {
        let field = &self.desc.descriptor.fields[self.idx];
        let skipped = field.skipped_flags;
        let extra = flags_slice(&self.desc.extra_flags);
        let ghost lists = flag_models(extra@);
        let mut flags: Vec<FieldFlag> = Vec::new();
        for i in 0..field.flags.len()
            invariant
                flags@ == not_skipped(field.flags@.take(i as int), skipped@),
        {
            assert(field.flags@.take(i + 1).drop_last() =~= field.flags@.take(i as int));
            if !contains_flag(skipped, field.flags[i].type_id()) {
                flags.push(field.flags[i]);
            }
        }
        let ghost own = flags@;
        assert(field.flags@.take(field.flags@.len() as int) =~= field.flags@);
        for i in 0..extra.len()
            invariant
                lists == flag_models(extra@),
                flags@ == own + added_flags(lists.take(i as int), skipped@),
        {
            let list = extra[i].0;
            let ghost before = flags@;
            for j in 0..list.len()
                invariant
                    flags@ == before + not_skipped(list@.take(j as int), skipped@),
            {
                assert(list@.take(j + 1).drop_last() =~= list@.take(j as int));
                if !contains_flag(skipped, list[j].type_id()) {
                    flags.push(list[j]);
                }
                assert(flags@ =~= before + not_skipped(list@.take(j + 1), skipped@));
            }
            proof {
                assert(list@.take(list@.len() as int) =~= list@);
                assert(lists.take(i + 1).drop_last() =~= lists.take(i as int));
                assert(lists.take(i + 1).last() == (list@, extra@[i as int].1));
                assert(flags@ =~= own + added_flags(lists.take(i + 1), skipped@));
            }
        }
        assert(lists.take(lists.len() as int) =~= lists);
        flags
    }

    /// What the field is written as.
    pub fn shape(&self) -> (shape: FieldShape<'a>)
        requires
            self.exists_in_segment(),
        ensures
            shape == self.field().shape,
    {
        self.desc.descriptor.fields[self.idx].shape
    }

    /// The unit of the field, if it has one.
    pub fn unit(&self) -> (unit: Option<Unit>)
        requires
            self.exists_in_segment(),
        ensures
            unit == self.field().unit,
    {
        self.desc.descriptor.fields[self.idx].unit
    }
}

/// Whether one of the flags is made by that type.
fn contains_flag(flags: &[FieldFlag], id: std::any::TypeId) -> (res: bool)
    ensures
        res == has_flag(flags@, id),
{
    for i in 0..flags.len()
        invariant
            forall|j: int| 0 <= j < i ==> (#[trigger] flags@[j]).id() != id,
    {
        if same_type_id(flags[i].type_id(), id) {
            return true;
        }
    }
    false
}

proof fn not_skipped_keeps(flags: Seq<FieldFlag>, skipped: Seq<FieldFlag>, k: int)
    requires
        0 <= k < not_skipped(flags, skipped).len(),
    ensures
        !has_flag(skipped, not_skipped(flags, skipped)[k].id()),
        flags.contains(not_skipped(flags, skipped)[k]),
    decreases flags.len(),
{
    let init = not_skipped(flags.drop_last(), skipped);
    if k < init.len() {
        not_skipped_keeps(flags.drop_last(), skipped, k);
        let i = flags.drop_last().index_of(init[k]);
        assert(flags[i] == init[k]);
    } else {
        assert(flags[flags.len() - 1] == flags.last());
    }
}

/// A flag that the field leaves out is never added to it.
pub proof fn skipped_flags_are_not_added(
    lists: Seq<(Seq<FieldFlag>, u64)>,
    skipped: Seq<FieldFlag>,
    k: int,
)
    requires
        0 <= k < added_flags(lists, skipped).len(),
    ensures
        !has_flag(skipped, added_flags(lists, skipped)[k].id()),
    decreases lists.len(),
{
    let init = added_flags(lists.drop_last(), skipped);
    if k < init.len() {
        skipped_flags_are_not_added(lists.drop_last(), skipped, k);
    } else {
        not_skipped_keeps(lists.last().0, skipped, k - init.len());
    }
}

proof fn not_skipped_has(flags: Seq<FieldFlag>, skipped: Seq<FieldFlag>, i: int)
    requires
        0 <= i < flags.len(),
        !has_flag(skipped, flags[i].id()),
    ensures
        not_skipped(flags, skipped).contains(flags[i]),
    decreases flags.len(),
{
    let init = not_skipped(flags.drop_last(), skipped);
    let all = not_skipped(flags, skipped);
    if i == flags.len() - 1 {
        assert(all[init.len() as int] == flags[i]);
    } else {
        not_skipped_has(flags.drop_last(), skipped, i);
        let k = init.index_of(flags[i]);
        assert(all[k] == flags[i]);
    }
}

/// Each flag that was added to a group reaches the field, unless the field leaves it out:
/// what is added later does not displace what was added before.
pub proof fn added_flags_accumulate(
    lists: Seq<(Seq<FieldFlag>, u64)>,
    skipped: Seq<FieldFlag>,
    l: int,
    i: int,
)
    requires
        0 <= l < lists.len(),
        0 <= i < lists[l].0.len(),
        !has_flag(skipped, lists[l].0[i].id()),
    ensures
        added_flags(lists, skipped).contains(lists[l].0[i]),
    decreases lists.len(),
{
    let init = added_flags(lists.drop_last(), skipped);
    let last = not_skipped(lists.last().0, skipped);
    let all = added_flags(lists, skipped);
    let flag = lists[l].0[i];
    if l == lists.len() - 1 {
        not_skipped_has(lists.last().0, skipped, i);
        let k = last.index_of(flag);
        assert(all[init.len() + k] == flag);
    } else {
        added_flags_accumulate(lists.drop_last(), skipped, l, i);
        let k = init.index_of(flag);
        assert(all[k] == flag);
    }
}

/// No flag that a field leaves out is among its flags, be it its own or added to its group.
pub proof fn skipped_flags_are_never_included(
    field: FieldModel,
    extra: Seq<(Seq<FieldFlag>, u64)>,
    k: int,
)
    requires
        0 <= k < field_flags(field, extra).len(),
    ensures
        !has_flag(field.skipped_flags, field_flags(field, extra)[k].id()),
{
    let own = not_skipped(field.flags, field.skipped_flags);
    if k < own.len() {
        not_skipped_keeps(field.flags, field.skipped_flags, k);
    } else {
        skipped_flags_are_not_added(extra, field.skipped_flags, k - own.len());
    }
}

/// Each flag of a field itself is among its flags, unless the field leaves it out, whatever was
/// added to its group.
pub proof fn own_flags_are_included(
    field: FieldModel,
    extra: Seq<(Seq<FieldFlag>, u64)>,
    i: int,
)
    requires
        0 <= i < field.flags.len(),
        !has_flag(field.skipped_flags, field.flags[i].id()),
    ensures
        field_flags(field, extra).contains(field.flags[i]),
{
    let own = not_skipped(field.flags, field.skipped_flags);
    not_skipped_has(field.flags, field.skipped_flags, i);
    let k = own.index_of(field.flags[i]);
    assert(field_flags(field, extra)[k] == field.flags[i]);
}

// ---------------------------------------------------------------------------
// Lists of segments
// ---------------------------------------------------------------------------

/// Segments, in a small vector of the `smallvec` crate.
#[verifier::external_body]
pub struct SegmentList {
    list: smallvec::SmallVec<[DescriptorRef; 2]>,
}

/// The segments that a list holds.
pub uninterp spec fn segment_items(list: SegmentList) -> Seq<DescriptorRef>;

/// `smallvec::SmallVec::from_vec` makes a list of the items of a vector.
#[verifier::external_body]
fn segments_from(items: Vec<DescriptorRef>) -> (res: SegmentList)
    ensures
        segment_items(res) == items@,
{
    SegmentList { list: smallvec::SmallVec::from_vec(items) }
}

/// `smallvec::SmallVec::as_slice` gives the items in order.
#[verifier::external_body]
fn segments_slice(list: &SegmentList) -> (res: &[DescriptorRef])
    ensures
        res@ == segment_items(*list),
{
    list.list.as_slice()
}

/// `smallvec::SmallVec::into_vec` gives the items in order.
#[verifier::external_body]
fn segments_into_vec(list: SegmentList) -> (res: Vec<DescriptorRef>)
    ensures
        res@ == segment_items(list),
{
    list.list.into_vec()
}

/// `smallvec::SmallVec::append` moves the items of another list to the end of this one.
#[verifier::external_body]
fn append_segments(list: &mut SegmentList, other: SegmentList)
    ensures
        segment_items(*final(list)) == segment_items(*old(list)) + segment_items(other),
{
    let mut other = other;
    list.list.append(&mut other.list);
}

/// Segments in the order in which they are written.
pub struct AvailableDescriptors {
    segments: SegmentList,
}

impl View for AvailableDescriptors {
    type V = Seq<DescriptorRef>;

    closed spec fn view(&self) -> Seq<DescriptorRef> {
        segment_items(self.segments)
    }
}

impl AvailableDescriptors {
    /// The segments, in order.
    pub fn iter(&self) -> (list: &[DescriptorRef])
        ensures
            list@ == self@,
    {
        segments_slice(&self.segments)
    }

    /// The number of segments.
    pub fn len(&self) -> (n: usize)
        ensures
            n == self@.len(),
    {
        segments_slice(&self.segments).len()
    }

    /// Whether there are no segments.
    pub fn is_empty(&self) -> (res: bool)
        ensures
            res == (self@.len() == 0),
    {
        segments_slice(&self.segments).len() == 0
    }

    /// The segment at a position.
    pub fn get(&self, index: usize) -> (segment: &DescriptorRef)
        requires
            index < self@.len(),
        ensures
            *segment == self@[index as int],
    {
        &segments_slice(&self.segments)[index]
    }

    /// The segments, in order.
    pub fn into_vec(self) -> (list: Vec<DescriptorRef>)
        ensures
            list@ == self@,
    {
        segments_into_vec(self.segments)
    }
}

/// What an entry says of its fields.
#[non_exhaustive]
pub enum Descriptors {
    /// The segments of the entry.
    Available(AvailableDescriptors),
    /// The entry does not describe its fields.
    Unavailable,
}

impl View for Descriptors {
    type V = Option<Seq<DescriptorRef>>;

    open spec fn view(&self) -> Option<Seq<DescriptorRef>> {
        match *self {
            Descriptors::Available(a) => Some(a@),
            Descriptors::Unavailable => None,
        }
    }
}

/// Segments one after the other, if both are there.
pub open spec fn chained(
    a: Option<Seq<DescriptorRef>>,
    b: Option<Seq<DescriptorRef>>,
) -> Option<Seq<DescriptorRef>> {
    match (a, b) {
        (Some(x), Some(y)) => Some(x + y),
        _ => None,
    }
}

impl Descriptors {
    /// The given segments.
    pub fn available(segments: Vec<DescriptorRef>) -> (d: Descriptors)
        ensures
            d@ == Some(segments@),
    {
        Descriptors::Available(AvailableDescriptors { segments: segments_from(segments) })
    }

    /// Whether there are segments, be it none at all.
    pub fn is_available(&self) -> (res: bool)
        ensures
            res == (self@ is Some),
    {
        matches!(self, Descriptors::Available(_))
    }

    /// The segments, which have to be there.
    pub fn unwrap(self) -> (a: AvailableDescriptors)
        requires
            self@ is Some,
        ensures
            Some(a@) == self@,
    {
        match self {
            Descriptors::Available(a) => a,
            Descriptors::Unavailable => unreached(),
        }
    }

    /// The segments, if they are there.
    pub fn into_available(self) -> (a: Option<AvailableDescriptors>)
        ensures
            self@ == match a {
                Some(a) => Some(a@),
                None => None,
            },
    {
        match self {
            Descriptors::Available(a) => Some(a),
            Descriptors::Unavailable => None,
        }
    }

    /// Puts each of the segments through `f`, if they are there.
    pub fn map_available<F: Fn(DescriptorRef) -> DescriptorRef>(self, f: F) -> (d: Descriptors)
        requires
            forall|s: DescriptorRef| call_requires(f, (s,)),
        ensures
            self@ is None ==> d@ is None,
            self@ matches Some(before) ==> (d@ matches Some(after) && after.len() == before.len()
                && forall|i: int|
                0 <= i < before.len() ==> call_ensures(f, (before[i],), #[trigger] after[i])),
    {
        match self {
            Descriptors::Available(a) => {
                let ghost before = a@;
                let mut rest = a.into_vec();
                let mut mapped: Vec<DescriptorRef> = Vec::new();
                while rest.len() > 0
                    invariant
                        forall|s: DescriptorRef| call_requires(f, (s,)),
                        mapped@.len() + rest@.len() == before.len(),
                        rest@ == before.skip(mapped@.len() as int),
                        forall|i: int|
                            0 <= i < mapped@.len() ==> call_ensures(
                                f,
                                (before[i],),
                                #[trigger] mapped@[i],
                            ),
                    decreases rest@.len(),
                {
                    let ghost done = mapped@.len() as int;
                    let segment = rest.remove(0);
                    assert(segment == before[done]);
                    mapped.push(f(segment));
                    assert(rest@ =~= before.skip(done + 1));
                }
                Descriptors::available(mapped)
            },
            Descriptors::Unavailable => Descriptors::Unavailable,
        }
    }

    /// The segments of both, if both are there.
    pub fn chain(self, other: Descriptors) -> (d: Descriptors)
        ensures
            d@ == chained(self@, other@),
    {
        match (self, other) {
            (Descriptors::Available(mut a), Descriptors::Available(b)) => {
                append_segments(&mut a.segments, b.segments);
                Descriptors::Available(a)
            },
            _ => Descriptors::Unavailable,
        }
    }
}

/// How chained descriptions are grouped makes no difference; one without segments adds
/// nothing, and one that is not there leaves nothing.
pub proof fn chaining(
    a: Option<Seq<DescriptorRef>>,
    b: Option<Seq<DescriptorRef>>,
    c: Option<Seq<DescriptorRef>>,
)
    ensures
        a is Some && b is Some ==> chained(a, b) == Some(a->0 + b->0),
        chained(chained(a, b), c) == chained(a, chained(b, c)),
        chained(a, Some(Seq::empty())) == a,
        chained(Some(Seq::empty()), a) == a,
        chained(a, None) is None,
        chained(None, a) is None,
{
    if let (Some(x), Some(y)) = (a, b) {
        if let Some(z) = c {
            assert((x + y) + z =~= x + (y + z));
        }
    }
    if let Some(x) = a {
        assert(x + Seq::empty() =~= x);
        assert(Seq::empty() + x =~= x);
    }
}

/// Groups of fields that come from the same description, with the same prefixes and flags
/// added, have the same identity.
pub proof fn same_modifiers_same_id(a: SegmentModel, b: SegmentModel)
    requires
        a.address == b.address,
        a.prefixes == b.prefixes,
        a.extra_flags == b.extra_flags,
    ensures
        segment_id(a) == segment_id(b),
{
}

// ---------------------------------------------------------------------------
// Laws
// ---------------------------------------------------------------------------

/// The identity of a description alone is its address. Each prefix, and after the prefixes each list
/// of flags, has the number so far taken times 31 and its own address added, where numbers go round
/// at 2 to the power of 64.
pub proof fn addresses_make_identities(
    descriptor: u64,
    prefixes: Seq<u64>,
    flags: Seq<u64>,
    address: u64,
)
    ensures
        identity(descriptor, Seq::empty(), Seq::empty()).number == descriptor,
        identity(descriptor, prefixes.push(address), Seq::empty()).number == (31 * identity(
            descriptor,
            prefixes,
            Seq::empty(),
        ).number + address) % 0x1_0000_0000_0000_0000,
        identity(descriptor, prefixes, flags.push(address)).number == (31 * identity(
            descriptor,
            prefixes,
            flags,
        ).number + address) % 0x1_0000_0000_0000_0000,
{
    assert(prefixes.push(address).drop_last() =~= prefixes);
    assert(flags.push(address).drop_last() =~= flags);
    mixing(mixed_all(descriptor, prefixes), address);
    mixing(mixed_all(mixed_all(descriptor, prefixes), flags), address);
}

proof fn mixing(id: u64, address: u64)
    ensures
        mixed(id, address) == (31 * id + address) % 0x1_0000_0000_0000_0000,
{
    let round = 0x1_0000_0000_0000_0000int;
    let q = (id * 31) / round;
    let r = (id * 31) % round;
    vstd::arithmetic::div_mod::lemma_fundamental_div_mod(id * 31, round);
    vstd::arithmetic::div_mod::lemma_mod_multiples_vanish(q, r + address, round);
    assert(round * q + (r + address) == 31 * id + address);
}

/// Groups of fields that differ in the address of their description alone, or in that of what was
/// added last, have different identities.
pub proof fn different_addresses_different_identities(
    a: u64,
    b: u64,
    descriptor: u64,
    prefixes: Seq<u64>,
    flags: Seq<u64>,
)
    requires
        a != b,
    ensures
        identity(a, prefixes, flags) != identity(b, prefixes, flags),
        identity(descriptor, prefixes.push(a), flags) != identity(
            descriptor,
            prefixes.push(b),
            flags,
        ),
        identity(descriptor, prefixes, flags.push(a)) != identity(
            descriptor,
            prefixes,
            flags.push(b),
        ),
{
    mixing_is_injective(a, b, prefixes);
    mixing_is_injective(mixed_all(a, prefixes), mixed_all(b, prefixes), flags);
    last_address_is_told(descriptor, prefixes, a, b);
    mixing_is_injective(
        mixed_all(descriptor, prefixes.push(a)),
        mixed_all(descriptor, prefixes.push(b)),
        flags,
    );
    last_address_is_told(mixed_all(descriptor, prefixes), flags, a, b);
}

proof fn last_address_is_told(id: u64, addresses: Seq<u64>, a: u64, b: u64)
    requires
        a != b,
    ensures
        mixed_all(id, addresses.push(a)) != mixed_all(id, addresses.push(b)),
{
    assert(addresses.push(a).drop_last() =~= addresses);
    assert(addresses.push(b).drop_last() =~= addresses);
    let before = mixed_all(id, addresses);
    let times = (before * 31) % 0x1_0000_0000_0000_0000;
    assert((times + a) % 0x1_0000_0000_0000_0000 != (times + b) % 0x1_0000_0000_0000_0000);
}

proof fn mixing_is_injective(a: u64, b: u64, addresses: Seq<u64>)
    requires
        a != b,
    ensures
        mixed_all(a, addresses) != mixed_all(b, addresses),
    decreases addresses.len(),
{
    if addresses.len() > 0 {
        let init = addresses.drop_last();
        mixing_is_injective(a, b, init);
        let x = mixed_all(a, init);
        let y = mixed_all(b, init);
        let address = addresses.last();
        multiples_differ(x, y);
        assert((x * 31) % 0x1_0000_0000_0000_0000 != (y * 31) % 0x1_0000_0000_0000_0000);
    }
}

/// Different numbers times 31 are different, though numbers go round: the difference of the multiples
/// is 31 times a difference that is too small to be a whole number of rounds.
proof fn multiples_differ(x: u64, y: u64)
    requires
        x != y,
    ensures
        (x * 31) % 0x1_0000_0000_0000_0000 != (y * 31) % 0x1_0000_0000_0000_0000,
{
    let round = 0x1_0000_0000_0000_0000int;
    if (x * 31) % round == (y * 31) % round {
        let p = (x * 31) / round;
        let q = (y * 31) / round;
        vstd::arithmetic::div_mod::lemma_fundamental_div_mod(x * 31, round);
        vstd::arithmetic::div_mod::lemma_fundamental_div_mod(y * 31, round);
        assert(31 * (x - y) == round * (p - q));
        let d = p - q;
        assert(-31 < d < 31);
        assert((round * d) % 31 == 0);
        assert(round % 31 == 16);
        assert(d == 0) by {
            assert(round == 31 * 595056260442243600 + 16);
            assert(round * d == 31 * (595056260442243600 * d) + 16 * d);
            assert((16 * d) % 31 == 0);
        }
    }
}

/// The name of a field is made of the prefixes in order and of its name in the style of the group.
pub proof fn names_follow_prefixes(m: SegmentModel, field: FieldModel)
    ensures
        name_texts(m, field).len() == m.prefixes.len() + 1,
        forall|i: int|
            0 <= i < m.prefixes.len() ==> #[trigger] name_texts(m, field)[i] == m.prefixes[i].0,
        name_texts(m, field)[m.prefixes.len() as int] == field.names[m.style_index as int]@,
{
}

proof fn flags_not_skipped(flags: Seq<FieldFlag>, skipped: Seq<FieldFlag>) -> (at: Seq<int>)
    ensures
        selects(at, flags.len(), |i: int| !has_flag(skipped, flags[i].id())),
        not_skipped(flags, skipped).len() == at.len(),
        forall|k: int|
            0 <= k < at.len() ==> #[trigger] not_skipped(flags, skipped)[k] == flags[at[k]],
    decreases flags.len(),
{
    if flags.len() == 0 {
        selects_none(|i: int| !has_flag(skipped, flags[i].id()));
        Seq::empty()
    } else {
        let init = flags.drop_last();
        let n = init.len();
        let before = flags_not_skipped(init, skipped);
        let f = |i: int| !has_flag(skipped, init[i].id());
        let g = |i: int| !has_flag(skipped, flags[i].id());
        assert forall|i: int| 0 <= i < n implies #[trigger] f(i) == g(i) by {
            assert(init[i] == flags[i]);
        }
        selects_more(before, n, f, g);
        let at = if g(n as int) {
            before.push(n as int)
        } else {
            before
        };
        assert forall|k: int| 0 <= k < at.len() implies #[trigger] not_skipped(flags, skipped)[k]
            == flags[at[k]] by {
            if k < before.len() {
                assert(at[k] == before[k]);
                assert(not_skipped(init, skipped)[k] == init[before[k]]);
            }
        }
        at
    }
}

proof fn not_skipped_of_both(a: Seq<FieldFlag>, b: Seq<FieldFlag>, skipped: Seq<FieldFlag>)
    ensures
        not_skipped(a + b, skipped) == not_skipped(a, skipped) + not_skipped(b, skipped),
    decreases b.len(),
{
    if b.len() == 0 {
        assert(a + b =~= a);
        assert(not_skipped(b, skipped) =~= Seq::empty());
    } else {
        not_skipped_of_both(a, b.drop_last(), skipped);
        assert((a + b).drop_last() =~= a + b.drop_last());
        assert((a + b).last() == b.last());
    }
}

/// The flags in lists of flags, one list after the other.
pub open spec fn all_flags(lists: Seq<(Seq<FieldFlag>, u64)>) -> Seq<FieldFlag> {
    lists.map_values(|l: (Seq<FieldFlag>, u64)| l.0).flatten()
}

proof fn added_flags_are(lists: Seq<(Seq<FieldFlag>, u64)>, skipped: Seq<FieldFlag>)
    ensures
        added_flags(lists, skipped) == not_skipped(all_flags(lists), skipped),
    decreases lists.len(),
{
    let inner = lists.map_values(|l: (Seq<FieldFlag>, u64)| l.0);
    inner.lemma_flatten_and_flatten_alt_are_equivalent();
    if lists.len() > 0 {
        let init = lists.drop_last();
        let inner_init = init.map_values(|l: (Seq<FieldFlag>, u64)| l.0);
        added_flags_are(init, skipped);
        inner_init.lemma_flatten_and_flatten_alt_are_equivalent();
        assert(inner.drop_last() =~= inner_init);
        assert(inner.last() == lists.last().0);
        not_skipped_of_both(all_flags(init), lists.last().0, skipped);
    }
}

/// The flags of a field are its own and those of the lists that were added, in that order, all but
/// those that it leaves out.
pub proof fn flags_come_in_order(field: FieldModel, extra: Seq<(Seq<FieldFlag>, u64)>) -> (at: Seq<
    int,
>)
    ensures
        ({
            let all = field.flags + all_flags(extra);
            &&& selects(
                at,
                all.len(),
                |i: int| !has_flag(field.skipped_flags, (field.flags + all_flags(extra))[i].id()),
            )
            &&& field_flags(field, extra).len() == at.len()
            &&& forall|k: int|
                0 <= k < at.len() ==> #[trigger] field_flags(field, extra)[k] == all[at[k]]
        }),
{
    added_flags_are(extra, field.skipped_flags);
    not_skipped_of_both(field.flags, all_flags(extra), field.skipped_flags);
    flags_not_skipped(field.flags + all_flags(extra), field.skipped_flags)
}

/// A prefix that is added comes before those that there are, and flags that are added after those that
/// there are; nothing else changes, and the identity is that of the group as it is then.
pub proof fn groups_are_changed_in_one_way(
    before: DescriptorRef,
    after: DescriptorRef,
    prefix: &'static str,
    flags: &'static [FieldFlag],
    address: u64,
)
    ensures
        call_ensures(DescriptorRef::with_prefix, (before, prefix, address), after) ==> {
            &&& after@.prefixes.len() == before@.prefixes.len() + 1
            &&& after@.prefixes[0] == (prefix@, address)
            &&& forall|i: int|
                0 <= i < before@.prefixes.len() ==> after@.prefixes[i + 1]
                    == #[trigger] before@.prefixes[i]
            &&& after@.extra_flags == before@.extra_flags
            &&& after@.style_index == before@.style_index
            &&& after@.descriptor == before@.descriptor && after@.address == before@.address
            &&& after.wf()
        },
        call_ensures(DescriptorRef::with_extra_flags, (before, flags, address), after) ==> {
            &&& after@.extra_flags.len() == before@.extra_flags.len() + 1
            &&& after@.extra_flags.last() == (flags@, address)
            &&& after@.extra_flags.drop_last() == before@.extra_flags
            &&& after@.prefixes == before@.prefixes
            &&& after@.style_index == before@.style_index
            &&& after@.descriptor == before@.descriptor && after@.address == before@.address
            &&& after.wf()
        },
{
    if call_ensures(DescriptorRef::with_extra_flags, (before, flags, address), after) {
        assert(after@.extra_flags.drop_last() =~= before@.extra_flags);
    }
}

} // verus!
