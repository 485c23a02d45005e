//! Entries in a form that tests can look into.

use vstd::pervasive::unreached;
use vstd::prelude::*;
use vstd::string::*;

use crate::aggregate::CloseValue;
use crate::assoc::{
    assoc, find_member, has_member, member_position, names_differ, put, put_is_found, put_member,
};
use crate::entry::{item_models, Entry, EntryItem, ItemModel, Timestamp};
use crate::flags::{FlagConstructor, MetricFlags};
use crate::float::{
    double_from, is_nan, nearest_double, order_key, ordering_number, sort_doubles, sorted_doubles,
    truncate_to_u64, truncated_natural,
};
use crate::format::Format;
use crate::guard::RootEntry;
use crate::nested::{captured, captured_text};
use crate::text::{joined, joined_push, texts};
use crate::unit::Unit;
use crate::validate::{error_models, ValidationError};
use crate::value::{
    member_models, nested_models, observations, pairs, value_models, MetricCall, MetricModel,
    Observation, ObservationModel, ValueModel, WrittenValue,
};

verus! {

/// The option that [`TestFlagCtor`] stands for.
#[derive(Debug)]
pub struct TestFlagOpt;

/// Makes a flag that tests can look for.
pub struct TestFlagCtor;

impl FlagConstructor for TestFlagCtor {
    open spec fn flags() -> MetricFlags {
        MetricFlags::TestFlag
    }

    fn construct() -> (flags: MetricFlags) {
        MetricFlags::TestFlag
    }
}

/// The text that Rust shows a list of strings as when it debugs.
pub uninterp spec fn debug_text(list: Seq<Seq<char>>) -> Seq<char>;

/// `std::fmt::Debug` of a list of strings.
#[verifier::external_body]
fn debug_list(list: &Vec<String>) -> (res: String)
    ensures
        res@ == debug_text(texts(list@)),
{
    format!("{list:?}")
}

/// Things by name.
#[derive(Debug)]
pub struct TestMap<T> {
    entries: Vec<(String, T)>,
}

impl<T: View> View for TestMap<T> {
    type V = Seq<(Seq<char>, T::V)>;

    closed spec fn view(&self) -> Seq<(Seq<char>, T::V)> {
        assoc(self.entries@)
    }
}

/// What is said of a name that is not there.
pub open spec fn missing_key_text(key: Seq<char>, names: Seq<Seq<char>>) -> Seq<char> {
    "key '"@ + key + "' not found. Available keys: "@ + debug_text(names)
}

/// The names.
pub open spec fn names_of<M>(members: Seq<(Seq<char>, M)>) -> Seq<Seq<char>> {
    members.map_values(|m: (Seq<char>, M)| m.0)
}

impl<T: View> TestMap<T> {
    /// Nothing.
    pub fn new() -> (map: TestMap<T>)
        ensures
            map@.len() == 0,
    {
        TestMap { entries: Vec::new() }
    }

    /// Sets what stands under a name.
    pub fn insert(&mut self, name: String, value: T)
        ensures
            final(self)@ == put(old(self)@, name@, value@),
    {
        put_member(&mut self.entries, name, value);
    }

    /// What stands under a name, if anything.
    pub fn get(&self, name: &str) -> (res: Option<&T>)
        ensures
            res is Some <==> has_member(self@, name@),
            res matches Some(value) ==> value@ == self@[member_position(self@, name@)].1,
    {
        match find_member(&self.entries, name) {
            Some(i) => {
                assert(assoc(self.entries@)[i as int] == (
                    self.entries@[i as int].0@,
                    self.entries@[i as int].1@,
                ));
                Some(&self.entries[i].1)
            },
            None => None,
        }
    }

    /// What stands under a name, which has to be there.
    pub fn index(&self, name: &str) -> (value: &T)
        requires
            has_member(self@, name@),
        ensures
            value@ == self@[member_position(self@, name@)].1,
    {
        match find_member(&self.entries, name) {
            Some(i) => {
                assert(assoc(self.entries@)[i as int] == (
                    self.entries@[i as int].0@,
                    self.entries@[i as int].1@,
                ));
                &self.entries[i].1
            },
            None => unreached(),
        }
    }

    /// The number of names.
    pub fn len(&self) -> (n: usize)
        ensures
            n == self@.len(),
    {
        self.entries.len()
    }

    /// What is said of a name that is not there.
    pub fn missing_key(&self, key: &str) -> (text: String)
        ensures
            text@ == missing_key_text(key@, names_of(self@)),
    {
        let mut names: Vec<String> = Vec::new();
        for i in 0..self.entries.len()
            invariant
                texts(names@) == names_of(self@).take(i as int),
        {
            let ghost before = names@;
            names.push(self.entries[i].0.clone());
            proof {
                let all = names_of(self@);
                assert(texts(names@) =~= texts(before).push(all[i as int]));
                assert(all.take(i + 1) =~= all.take(i as int).push(all[i as int]));
            }
        }
        assert(names_of(self@).take(self@.len() as int) =~= names_of(self@));
        let mut text = "key '".to_owned();
        text.append(key);
        text.append("' not found. Available keys: ");
        text.append(debug_list(&names).as_str());
        text
    }
}

/// A metric as it was written.
#[derive(Debug)]
#[non_exhaustive]
pub struct Metric {
    pub distribution: Vec<Observation>,
    pub unit: Unit,
    pub dimensions: Vec<(String, String)>,
    /// Whether the metric has the flag that tests look for.
    pub test_flag: bool,
}

/// What a metric says.
pub ghost struct TestMetricModel {
    pub distribution: Seq<ObservationModel>,
    pub unit: Unit,
    pub dimensions: Seq<(Seq<char>, Seq<char>)>,
    pub test_flag: bool,
}

impl View for Metric {
    type V = TestMetricModel;

    open spec fn view(&self) -> TestMetricModel {
        TestMetricModel {
            distribution: observations(self.distribution@),
            unit: self.unit,
            dimensions: pairs(self.dimensions@),
            test_flag: self.test_flag,
        }
    }
}

/// What a metric says to tests.
pub open spec fn test_metric_model(m: MetricModel) -> TestMetricModel {
    TestMetricModel {
        distribution: m.distribution,
        unit: m.unit,
        dimensions: m.dimensions,
        test_flag: m.flags == MetricFlags::TestFlag,
    }
}

/// The number of observations.
pub open spec fn observation_count(list: Seq<ObservationModel>) -> nat
    decreases list.len(),
{
    if list.len() == 0 {
        0
    } else {
        observation_count(list.drop_last()) + match list.last() {
            ObservationModel::Repeated { occurrences, .. } => occurrences as nat,
            _ => 1,
        }
    }
}

/// The values of all observations, repeated ones by their mean.
pub open spec fn flattened(list: Seq<ObservationModel>) -> Seq<u64>
    decreases list.len(),
{
    if list.len() == 0 {
        Seq::empty()
    } else {
        let init = flattened(list.drop_last());
        match list.last() {
            ObservationModel::Unsigned(v) => init.push(nearest_double(v)),
            ObservationModel::Floating(f) => init.push(f.bits),
            ObservationModel::Repeated { occurrences, mean, .. } => init + Seq::new(
                occurrences as nat,
                |i: int| mean.bits,
            ),
        }
    }
}

/// Whether there is just one observation, and one that was not repeated.
pub open spec fn is_single(list: Seq<ObservationModel>) -> bool {
    list.len() == 1 && !(list[0] is Repeated)
}

/// The only observation as a natural number.
pub open spec fn single_natural(list: Seq<ObservationModel>) -> u64 {
    match list[0] {
        ObservationModel::Unsigned(v) => v,
        ObservationModel::Floating(f) => truncated_natural(f.bits),
        ObservationModel::Repeated { .. } => 0,
    }
}

impl Metric {
    /// The only observation as a natural number.
    pub fn as_u64(&self) -> (n: u64)
        requires
            is_single(self@.distribution),
        ensures
            n == single_natural(self@.distribution),
    {
        assert(self@.distribution[0] == self.distribution@[0]@);
        match &self.distribution[0] {
            Observation::Unsigned(v) => *v,
            Observation::Floating(f) => truncate_to_u64(f.bits),
            Observation::Repeated { .. } => unreached(),
        }
    }

    /// Whether the only observation is above zero.
    pub fn as_bool(&self) -> (b: bool)
        requires
            is_single(self@.distribution),
        ensures
            b == match self@.distribution[0] {
                ObservationModel::Unsigned(v) => v > 0,
                ObservationModel::Floating(f) => !is_nan(f.bits) && order_key(f.bits) > 0,
                ObservationModel::Repeated { .. } => false,
            },
    {
        assert(self@.distribution[0] == self.distribution@[0]@);
        match &self.distribution[0] {
            Observation::Unsigned(v) => *v > 0,
            Observation::Floating(f) => !f.is_nan() && ordering_number(f.bits) > 0,
            Observation::Repeated { .. } => unreached(),
        }
    }

    /// The bits of the only observation as a double.
    pub fn as_double(&self) -> (bits: u64)
        requires
            is_single(self@.distribution),
        ensures
            bits == match self@.distribution[0] {
                ObservationModel::Unsigned(v) => nearest_double(v),
                ObservationModel::Floating(f) => f.bits,
                ObservationModel::Repeated { .. } => 0,
            },
    {
        assert(self@.distribution[0] == self.distribution@[0]@);
        match &self.distribution[0] {
            Observation::Unsigned(v) => double_from(*v),
            Observation::Floating(f) => f.bits,
            Observation::Repeated { .. } => unreached(),
        }
    }

    /// The number of observations, which has to fit in 64 bits.
    pub fn num_observations(&self) -> (n: u64)
        requires
            observation_count(self@.distribution) <= u64::MAX,
        ensures
            n == observation_count(self@.distribution),
    {
        let ghost all = self@.distribution;
        let mut n: u64 = 0;
        for i in 0..self.distribution.len()
            invariant
                all == self@.distribution,
                observation_count(all) <= u64::MAX,
                n == observation_count(all.take(i as int)),
        {
            proof {
                assert(all.take(i + 1).drop_last() =~= all.take(i as int));
                assert(all.take(i + 1).last() == self.distribution@[i as int]@);
                count_of_prefix(all, i + 1);
            }
            n = n + match &self.distribution[i] {
                Observation::Repeated { occurrences, .. } => *occurrences,
                _ => 1,
            };
        }
        assert(all.take(all.len() as int) =~= all);
        n
    }

    /// The bits of all observations as doubles, in order, repeated ones by their mean.
    pub fn flatten_and_sort(&self) -> (list: Vec<u64>)
        ensures
            list@ == sorted_doubles(flattened(self@.distribution)),
    {
        let ghost all = self@.distribution;
        let mut list: Vec<u64> = Vec::new();
        for i in 0..self.distribution.len()
            invariant
                all == self@.distribution,
                list@ == flattened(all.take(i as int)),
        {
            proof {
                assert(all.take(i + 1).drop_last() =~= all.take(i as int));
                assert(all.take(i + 1).last() == self.distribution@[i as int]@);
            }
            match &self.distribution[i] {
                Observation::Unsigned(v) => {
                    list.push(double_from(*v));
                },
                Observation::Floating(f) => {
                    list.push(f.bits);
                },
                Observation::Repeated { occurrences, mean, .. } => {
                    let ghost before = list@;
                    let bits: u64 = mean.bits;
                    assert(list@ =~= before + Seq::new(0, |i: int| bits));
                    for k in 0..*occurrences
                        invariant
                            list@ == before + Seq::new(k as nat, |i: int| bits),
                    {
                        list.push(bits);
                        assert(list@ =~= before + Seq::new((k + 1) as nat, |i: int| bits));
                    }
                },
            }
        }
        assert(all.take(all.len() as int) =~= all);
        sort_doubles(&list)
    }
}

proof fn count_of_prefix(list: Seq<ObservationModel>, n: int)
    requires
        0 <= n <= list.len(),
    ensures
        observation_count(list.take(n)) <= observation_count(list),
    decreases list.len(),
{
    if n < list.len() {
        count_of_prefix(list.drop_last(), n);
        assert(list.drop_last().take(n) =~= list.take(n));
    } else {
        assert(list.take(n) =~= list);
    }
}

/// A member of an object, as it was written.
#[derive(Debug)]
#[non_exhaustive]
pub enum TestObjectValue {
    String(String),
    Metric(Metric),
    Array(Vec<TestObjectValue>),
    Object(TestObject),
}

/// An object, as it was written.
#[derive(Debug)]
pub struct TestObject {
    fields: TestMap<TestObjectValue>,
}

/// What a member of an object says.
pub ghost enum TestModel {
    Text(Seq<char>),
    Metric(TestMetricModel),
    Array(Seq<TestModel>),
    Object(Seq<(Seq<char>, TestModel)>),
}

/// What a member of an object says.
pub closed spec fn test_model(value: TestObjectValue) -> TestModel
    decreases value,
{
    match value {
        TestObjectValue::String(s) => TestModel::Text(s@),
        TestObjectValue::Metric(m) => TestModel::Metric(m@),
        TestObjectValue::Array(items) => TestModel::Array(
            Seq::new(
                items@.len(),
                |i: int|
                    if 0 <= i < items@.len() {
                        test_model(items@[i])
                    } else {
                        TestModel::Text(Seq::empty())
                    },
            ),
        ),
        TestObjectValue::Object(object) => TestModel::Object(
            Seq::new(
                object.fields.entries@.len(),
                |i: int|
                    if 0 <= i < object.fields.entries@.len() {
                        (
                            object.fields.entries@[i].0@,
                            test_model(object.fields.entries@[i].1),
                        )
                    } else {
                        (Seq::empty(), TestModel::Text(Seq::empty()))
                    },
            ),
        ),
    }
}

impl View for TestObjectValue {
    type V = TestModel;

    closed spec fn view(&self) -> TestModel {
        test_model(*self)
    }
}

impl View for TestObject {
    type V = Seq<(Seq<char>, TestModel)>;

    closed spec fn view(&self) -> Seq<(Seq<char>, TestModel)> {
        self.fields@
    }
}

/// What several members say.
pub open spec fn test_models(items: Seq<TestObjectValue>) -> Seq<TestModel> {
    items.map_values(|v: TestObjectValue| v@)
}

proof fn nested_test_models(value: TestObjectValue)
    ensures
        value@ == match value {
            TestObjectValue::String(s) => TestModel::Text(s@),
            TestObjectValue::Metric(m) => TestModel::Metric(m@),
            TestObjectValue::Array(items) => TestModel::Array(test_models(items@)),
            TestObjectValue::Object(object) => TestModel::Object(object@),
        },
{
    match value {
        TestObjectValue::Array(items) => {
            assert(test_model(value)->Array_0 =~= test_models(items@));
        },
        TestObjectValue::Object(object) => {
            assert(test_model(value)->Object_0 =~= object@);
        },
        _ => {},
    }
}

impl TestObjectValue {
    /// The object, if it is one.
    pub fn as_object(&self) -> (res: Option<&TestObject>)
        ensures
            match res {
                Some(object) => self@ == TestModel::Object(object@),
                None => !(self@ is Object),
            },
    {
        proof {
            nested_test_models(*self);
        }
        match self {
            TestObjectValue::Object(object) => Some(object),
            _ => None,
        }
    }

    /// The elements, if it is a list.
    pub fn as_array(&self) -> (res: Option<&[TestObjectValue]>)
        ensures
            match res {
                Some(items) => self@ == TestModel::Array(test_models(items@)),
                None => !(self@ is Array),
            },
    {
        proof {
            nested_test_models(*self);
        }
        match self {
            TestObjectValue::Array(items) => Some(items.as_slice()),
            _ => None,
        }
    }
}

impl TestObject {
    /// The member of a name, if there is one.
    pub fn get(&self, name: &str) -> (res: Option<&TestObjectValue>)
        ensures
            res is Some <==> has_member(self@, name@),
            res matches Some(value) ==> value@ == self@[member_position(self@, name@)].1,
    {
        self.fields.get(name)
    }
}

// ---------------------------------------------------------------------------
// Capturing entries
// ---------------------------------------------------------------------------

/// Whether there is no error in place of a value, nor in place of a member of an object.
pub open spec fn error_free(value: ValueModel) -> bool
    decreases value,
{
    match value {
        ValueModel::Error(_) => false,
        ValueModel::List(items) => all_error_free(items),
        ValueModel::Object(fields) => members_error_free(fields),
        _ => true,
    }
}

/// Whether there are no errors in place of values.
pub open spec fn all_error_free(items: Seq<ValueModel>) -> bool
    decreases items,
{
    items.len() == 0 || (all_error_free(items.drop_last()) && error_free(items.last()))
}

/// Whether there are no errors in place of members.
pub open spec fn members_error_free(fields: Seq<(Seq<char>, ValueModel)>) -> bool
    decreases fields,
{
    fields.len() == 0 || (members_error_free(fields.drop_last()) && error_free(fields.last().1))
}

/// What is captured of a member of an object.
pub open spec fn nested_test(value: ValueModel) -> Option<TestModel>
    decreases value,
{
    match value {
        ValueModel::Text(s) => Some(TestModel::Text(s)),
        ValueModel::Metric(m) => Some(TestModel::Metric(test_metric_model(m))),
        ValueModel::List(items) => Some(TestModel::Array(nested_tests(items))),
        ValueModel::Object(fields) => Some(TestModel::Object(test_members(fields))),
        _ => None,
    }
}

/// What is captured of the elements of a list; those that write nothing are left out.
pub open spec fn nested_tests(items: Seq<ValueModel>) -> Seq<TestModel>
    decreases items,
{
    if items.len() == 0 {
        Seq::empty()
    } else {
        let init = nested_tests(items.drop_last());
        match nested_test(items.last()) {
            Some(t) => init.push(t),
            None => init,
        }
    }
}

/// What is captured of the members of an object; those that write nothing are left out.
pub open spec fn test_members(fields: Seq<(Seq<char>, ValueModel)>) -> Seq<(Seq<char>, TestModel)>
    decreases fields,
{
    if fields.len() == 0 {
        Seq::empty()
    } else {
        let init = test_members(fields.drop_last());
        match nested_test(fields.last().1) {
            Some(t) => put(init, fields.last().0, t),
            None => init,
        }
    }
}

/// A metric as it was written.
fn capture_metric(m: &MetricCall) -> (metric: Metric)
    ensures
        metric@ == test_metric_model(m@),
{
    let mut distribution: Vec<Observation> = Vec::new();
    for i in 0..m.distribution.len()
        invariant
            distribution@ == m.distribution@.take(i as int),
    {
        distribution.push(m.distribution[i].duplicate());
        assert(distribution@ =~= m.distribution@.take(i + 1));
    }
    assert(distribution@ =~= m.distribution@);
    let mut dimensions: Vec<(String, String)> = Vec::new();
    for i in 0..m.dimensions.len()
        invariant
            dimensions@ == m.dimensions@.take(i as int),
    {
        dimensions.push((m.dimensions[i].0.clone(), m.dimensions[i].1.clone()));
        assert(dimensions@ =~= m.dimensions@.take(i + 1));
    }
    assert(dimensions@ =~= m.dimensions@);
    Metric {
        distribution,
        unit: m.unit,
        dimensions,
        test_flag: m.flags == MetricFlags::TestFlag,
    }
}

/// What is captured of a member of an object.
fn capture_nested_object_value(value: &WrittenValue) -> (res: Option<TestObjectValue>)
    ensures
        nested_test(value@) == match res {
            Some(v) => Some(v@),
            None => None,
        },
    decreases value, 0nat,
{
    broadcast use nested_models;

    match value {
        WrittenValue::Text(s) => {
            let v = TestObjectValue::String(s.clone());
            proof {
                nested_test_models(v);
            }
            Some(v)
        },
        WrittenValue::Metric(m) => {
            let v = TestObjectValue::Metric(capture_metric(m));
            proof {
                nested_test_models(v);
            }
            Some(v)
        },
        WrittenValue::List(items) => {
            let ghost all = value_models(items@);
            let mut list: Vec<TestObjectValue> = Vec::new();
            assert(test_models(list@) =~= nested_tests(all.take(0)));
            for i in 0..items.len()
                invariant
                    value == WrittenValue::List(*items),
                    all == value_models(items@),
                    test_models(list@) == nested_tests(all.take(i as int)),
            {
                let ghost before = list@;
                proof {
                    assert(all.take(i + 1).drop_last() =~= all.take(i as int));
                    assert(all.take(i + 1).last() == items@[i as int]@);
                    assert(decreases_to!(value => value->List_0));
                }
                if let Some(v) = capture_nested_object_value(&items[i]) {
                    let ghost model = v@;
                    list.push(v);
                    assert(test_models(list@) =~= test_models(before).push(model));
                }
            }
            assert(all.take(all.len() as int) =~= all);
            let v = TestObjectValue::Array(list);
            proof {
                nested_test_models(v);
            }
            Some(v)
        },
        WrittenValue::Object(fields) => {
            let v = TestObjectValue::Object(capture_object(fields));
            proof {
                nested_test_models(v);
            }
            Some(v)
        },
        _ => None,
    }
}

/// What is captured of an object.
fn capture_object(fields: &Vec<(String, WrittenValue)>) -> (object: TestObject)
    ensures
        object@ == test_members(member_models(fields@)),
    decreases fields, 0nat,
{
    let ghost all = member_models(fields@);
    let mut map: TestMap<TestObjectValue> = TestMap::new();
    assert(map@ =~= test_members(all.take(0)));
    for i in 0..fields.len()
        invariant
            all == member_models(fields@),
            map@ == test_members(all.take(i as int)),
    {
        proof {
            assert(all.take(i + 1).drop_last() =~= all.take(i as int));
            assert(all.take(i + 1).last() == (fields@[i as int].0@, fields@[i as int].1@));
        }
        if let Some(v) = capture_nested_object_value(&fields[i].1) {
            map.insert(fields[i].0.clone(), v);
        }
    }
    assert(all.take(all.len() as int) =~= all);
    TestObject { fields: map }
}

/// What was captured of an entry.
#[derive(Debug)]
pub struct TestEntry {
    /// The timestamp in nanoseconds since the epoch.
    pub timestamp: Option<i128>,
    /// Strings, with lists as strings.
    pub values: TestMap<String>,
    pub objects: TestMap<TestObject>,
    pub metrics: TestMap<Metric>,
}

/// What was captured of an entry.
pub ghost struct TestEntryModel {
    pub timestamp: Option<i128>,
    pub values: Seq<(Seq<char>, Seq<char>)>,
    pub objects: Seq<(Seq<char>, Seq<(Seq<char>, TestModel)>)>,
    pub metrics: Seq<(Seq<char>, TestMetricModel)>,
}

impl View for TestEntry {
    type V = TestEntryModel;

    open spec fn view(&self) -> TestEntryModel {
        TestEntryModel {
            timestamp: self.timestamp,
            values: self.values@,
            objects: self.objects@,
            metrics: self.metrics@,
        }
    }
}

/// What is captured of the items of an entry: under each name the last of its kind.
pub open spec fn captured_entry(items: Seq<ItemModel>) -> TestEntryModel
    decreases items.len(),
{
    if items.len() == 0 {
        TestEntryModel {
            timestamp: None,
            values: Seq::empty(),
            objects: Seq::empty(),
            metrics: Seq::empty(),
        }
    } else {
        let e = captured_entry(items.drop_last());
        match items.last() {
            ItemModel::Timestamp(nanos) => TestEntryModel { timestamp: Some(nanos), ..e },
            ItemModel::Value(name, value) => match value {
                ValueModel::Text(_) | ValueModel::List(_) => TestEntryModel {
                    values: put(e.values, name, captured(value)),
                    ..e
                },
                ValueModel::Object(fields) => TestEntryModel {
                    objects: put(e.objects, name, test_members(fields)),
                    ..e
                },
                ValueModel::Metric(m) => TestEntryModel {
                    metrics: put(e.metrics, name, test_metric_model(m)),
                    ..e
                },
                _ => e,
            },
            ItemModel::Config(_) => e,
        }
    }
}

/// Whether no item of an entry has an error in place of a value. Errors inside a list that is not
/// itself inside an object do not count, as such a list is captured as a string.
pub open spec fn items_error_free(items: Seq<ItemModel>) -> bool {
    forall|i: int|
        0 <= i < items.len() ==> (#[trigger] items[i] matches ItemModel::Value(_, value) ==> (value
            is List || error_free(value)))
}

/// Captures an entry that has no errors.
pub fn to_test_entry<E: Entry>(e: &E) -> (entry: TestEntry)
    requires
        items_error_free(e.items()),
    ensures
        entry@ == captured_entry(e.items()),
{
    broadcast use nested_models;

    let items = e.write();
    let ghost all = item_models(items@);
    let mut entry = TestEntry {
        timestamp: None,
        values: TestMap::new(),
        objects: TestMap::new(),
        metrics: TestMap::new(),
    };
    proof {
        assert(entry@.values =~= Seq::empty());
        assert(entry@.objects =~= Seq::empty());
        assert(entry@.metrics =~= Seq::empty());
    }
    for i in 0..items.len()
        invariant
            all == item_models(items@),
            entry@ == captured_entry(all.take(i as int)),
    {
        proof {
            assert(all.take(i + 1).drop_last() =~= all.take(i as int));
            assert(all.take(i + 1).last() == items@[i as int]@);
        }
        match &items[i] {
            EntryItem::Timestamp(t) => {
                entry.timestamp = Some(t.nanos);
            },
            EntryItem::Value(name, value) => {
                proof {
                    nested_models(*value);
                }
                match value {
                    WrittenValue::Text(_) | WrittenValue::List(_) => {
                        entry.values.insert(name.clone(), captured_text(value));
                    },
                    WrittenValue::Object(fields) => {
                        entry.objects.insert(name.clone(), capture_object(fields));
                    },
                    WrittenValue::Metric(m) => {
                        entry.metrics.insert(name.clone(), capture_metric(m));
                    },
                    _ => {},
                }
            },
            EntryItem::Config(_) => {},
        }
    }
    assert(all.take(all.len() as int) =~= all);
    entry
}

/// Keeps what was captured of entries, in order.
#[derive(Debug)]
pub struct Inspector {
    entries: Vec<TestEntry>,
}

impl View for Inspector {
    type V = Seq<TestEntryModel>;

    closed spec fn view(&self) -> Seq<TestEntryModel> {
        self.entries@.map_values(|e: TestEntry| e@)
    }
}

impl Inspector {
    /// Nothing captured yet.
    pub fn new() -> (inspector: Inspector)
        ensures
            inspector@.len() == 0,
    {
        Inspector { entries: Vec::new() }
    }

    /// Captures an entry that has no errors.
    pub fn append<E: Entry>(&mut self, entry: &E)
        requires
            items_error_free(entry.items()),
        ensures
            final(self)@ == old(self)@.push(captured_entry(entry.items())),
    {
        let captured = to_test_entry(entry);
        self.entries.push(captured);
        assert(self@ =~= old(self)@.push(captured_entry(entry.items())));
    }

    /// What was captured, in order.
    pub fn entries(&self) -> (list: &[TestEntry])
        ensures
            list@.map_values(|e: TestEntry| e@) == self@,
    {
        self.entries.as_slice()
    }

    /// What was captured of the entry with that number.
    pub fn get(&self, index: usize) -> (entry: &TestEntry)
        requires
            index < self@.len(),
        ensures
            entry@ == self@[index as int],
    {
        &self.entries[index]
    }
}

/// Captures what something is closed to, if it has no errors.
pub fn test_metric<C: CloseValue>(e: C) -> (entry: TestEntry) where C::Closed: Entry
    requires
        items_error_free(e.closed().items()),
    ensures
        entry@ == captured_entry(e.closed().items()),
{
    to_test_entry(&RootEntry::new(e.close()))
}

/// Keeps the texts of entries, in order.
#[derive(Debug)]
pub struct RenderQueue<F> {
    format: F,
    entries: Vec<String>,
}

impl<F: Format> RenderQueue<F> {
    /// The format that entries are written in.
    pub closed spec fn format(self) -> F {
        self.format
    }

    /// The texts, in order.
    pub closed spec fn texts(self) -> Seq<Seq<char>> {
        texts(self.entries@)
    }

    /// Writes an entry and keeps its text; hands out its errors if it has any.
    pub fn try_append<E: Entry>(&mut self, entry: &E, now: Timestamp) -> (res: Result<
        (),
        Vec<ValidationError>,
    >)
        requires
            old(self).format().ready(),
        ensures
            final(self).format().ready(),
            forall|items: Seq<ItemModel>, t: i128|
                final(self).format().rendered(items, t) == #[trigger] old(
                    self,
                ).format().rendered(items, t),
            match old(self).format().rendered(entry.items(), now.nanos) {
                Ok(text) => res is Ok && final(self).texts() == old(self).texts().push(text),
                Err(errors) => res matches Err(list) && error_models(list@) == errors
                    && final(self).texts() == old(self).texts(),
            },
    {
        match self.format.format(entry, now) {
            Ok(text) => {
                self.entries.push(text);
                assert(self.texts() =~= old(self).texts().push(text@));
                Ok(())
            },
            Err(errors) => Err(errors),
        }
    }

    /// Writes an entry, which has to have no errors, and keeps its text.
    pub fn append<E: Entry>(&mut self, entry: &E, now: Timestamp)
        requires
            old(self).format().ready(),
            old(self).format().rendered(entry.items(), now.nanos) is Ok,
        ensures
            is_appended(*old(self), *final(self), entry.items(), now.nanos),
    {
        match self.try_append(entry, now) {
            Ok(_) => {},
            Err(_) => unreached(),
        }
    }

    /// The texts, in order.
    pub fn entries(&self) -> (list: &[String])
        ensures
            texts(list@) == self.texts(),
    {
        self.entries.as_slice()
    }

    /// The texts in one, with line breaks between them.
    pub fn display(&self) -> (text: String)
        ensures
            text@ == joined(self.texts(), "\n"@),
    {
        let ghost all = self.texts();
        let mut text = String::new();
        for i in 0..self.entries.len()
            invariant
                all == self.texts(),
                text@ == joined(all.take(i as int), "\n"@),
        {
            let ghost before = text@;
            if i > 0 {
                text.append("\n");
            }
            text.append(self.entries[i].as_str());
            proof {
                joined_push(all.take(i as int), all[i as int], "\n"@);
                assert(all.take(i + 1) =~= all.take(i as int).push(all[i as int]));
                assert(text@ =~= joined(all.take(i + 1), "\n"@));
            }
        }
        assert(all.take(all.len() as int) =~= all);
        text
    }
}

/// Whether appending an entry without errors takes a queue from one state to another: its text comes
/// last, and entries are written as before.
pub open spec fn is_appended<F: Format>(
    before: RenderQueue<F>,
    after: RenderQueue<F>,
    items: Seq<ItemModel>,
    now: i128,
) -> bool {
    &&& after.format().ready()
    &&& forall|i: Seq<ItemModel>, t: i128|
        after.format().rendered(i, t) == #[trigger] before.format().rendered(i, t)
    &&& after.texts() == before.texts().push(before.format().rendered(items, now)->Ok_0)
}

/// The texts of entries, each written by itself.
pub open spec fn rendered_texts<F: Format>(format: F, entries: Seq<(Seq<ItemModel>, i128)>) -> Seq<
    Seq<char>,
> {
    entries.map_values(|e: (Seq<ItemModel>, i128)| format.rendered(e.0, e.1)->Ok_0)
}

/// After any number of entries were appended to a queue that was empty, it holds their texts, in
/// order, each as the format writes the entry by itself. `states` are the states of the queue before
/// and after each entry.
pub proof fn queues_hold_the_texts_of_entries<F: Format>(
    states: Seq<RenderQueue<F>>,
    entries: Seq<(Seq<ItemModel>, i128)>,
)
    requires
        states.len() == entries.len() + 1,
        states[0].texts().len() == 0,
        forall|i: int|
            0 <= i < entries.len() ==> is_appended(
                #[trigger] states[i],
                states[i + 1],
                entries[i].0,
                entries[i].1,
            ),
    ensures
        states.last().texts() == rendered_texts(states[0].format(), entries),
        forall|items: Seq<ItemModel>, t: i128|
            states.last().format().rendered(items, t) == #[trigger] states[0].format().rendered(
                items,
                t,
            ),
    decreases entries.len(),
{
    let goal = rendered_texts(states[0].format(), entries);
    if entries.len() == 0 {
        assert(states.last().texts() =~= goal);
    } else {
        let n = entries.len() - 1;
        let init = states.drop_last();
        let earlier = entries.drop_last();
        assert forall|i: int| 0 <= i < earlier.len() implies is_appended(
            #[trigger] init[i],
            init[i + 1],
            earlier[i].0,
            earlier[i].1,
        ) by {
            assert(init[i] == states[i] && init[i + 1] == states[i + 1]);
        }
        queues_hold_the_texts_of_entries(init, earlier);
        assert(init.last() == states[n]);
        assert(states[n + 1] == states.last());
        assert(is_appended(states[n], states[n + 1], entries[n].0, entries[n].1));
        assert(goal =~= rendered_texts(states[0].format(), earlier).push(goal[n]));
    }
}

/// A queue that keeps the texts of entries in a format.
pub fn render_entry_sink<F: Format>(format: F) -> (queue: RenderQueue<F>)
    ensures
        queue.format() == format,
        queue.texts().len() == 0,
{
    RenderQueue { format, entries: Vec::new() }
}

// ---------------------------------------------------------------------------
// What holds of all that is captured
// ---------------------------------------------------------------------------

/// What is captured of an entry with one more item: a metric with its observations, its unit, its
/// dimensions and whether it has the flag that tests look for; a string as it is and a list as a
/// string; an object by its members; a timestamp. It takes the place of what stood under its name,
/// and all else stays.
pub proof fn items_are_captured(items: Seq<ItemModel>, other: Seq<char>)
    requires
        items.len() > 0,
    ensures
        ({
            let before = captured_entry(items.drop_last());
            let after = captured_entry(items);
            &&& (items.last() matches ItemModel::Timestamp(t) ==> after.timestamp == Some(t)
                && after.values == before.values && after.objects == before.objects
                && after.metrics == before.metrics)
            &&& (items.last() matches ItemModel::Value(name, ValueModel::Metric(m)) ==> {
                &&& found(after.metrics, name) matches Some(t) && t.distribution == m.distribution
                    && t.unit == m.unit && t.dimensions == m.dimensions && (t.test_flag <==> m.flags
                    == MetricFlags::TestFlag)
                &&& other != name ==> found(after.metrics, other) == found(before.metrics, other)
                &&& after.values == before.values
                &&& after.objects == before.objects
                &&& after.timestamp == before.timestamp
            })
            &&& (items.last() matches ItemModel::Value(name, ValueModel::Text(text)) ==> {
                &&& found(after.values, name) == Some(text)
                &&& other != name ==> found(after.values, other) == found(before.values, other)
                &&& after.metrics == before.metrics
                &&& after.objects == before.objects
                &&& after.timestamp == before.timestamp
            })
            &&& (items.last() matches ItemModel::Value(name, ValueModel::List(list)) ==> {
                &&& found(after.values, name) == Some(captured(ValueModel::List(list)))
                &&& other != name ==> found(after.values, other) == found(before.values, other)
                &&& after.metrics == before.metrics
                &&& after.objects == before.objects
                &&& after.timestamp == before.timestamp
            })
            &&& (items.last() matches ItemModel::Value(name, ValueModel::Object(fields)) ==> {
                &&& found(after.objects, name) == Some(test_members(fields))
                &&& other != name ==> found(after.objects, other) == found(before.objects, other)
                &&& after.metrics == before.metrics
                &&& after.values == before.values
                &&& after.timestamp == before.timestamp
            })
            &&& items.last() is Config || (items.last() matches ItemModel::Value(_, v) && (v
                is Nothing || v is Error)) ==> after == before
        }),
{
    let before = captured_entry(items.drop_last());
    captured_names_differ(items.drop_last());
    if let ItemModel::Value(name, value) = items.last() {
        match value {
            ValueModel::Metric(m) => {
                put_is_found(before.metrics, name, test_metric_model(m), other);
            },
            ValueModel::Text(_) | ValueModel::List(_) => {
                put_is_found(before.values, name, captured(value), other);
            },
            ValueModel::Object(fields) => {
                put_is_found(before.objects, name, test_members(fields), other);
            },
            _ => {},
        }
    }
}

/// What stands under a name, if anything.
pub open spec fn found<M>(members: Seq<(Seq<char>, M)>, name: Seq<char>) -> Option<M> {
    if has_member(members, name) {
        Some(members[member_position(members, name)].1)
    } else {
        None
    }
}

/// No name is captured twice, and nothing is captured of no items.
pub proof fn captured_names_differ(items: Seq<ItemModel>)
    ensures
        names_differ(captured_entry(items).metrics),
        names_differ(captured_entry(items).values),
        names_differ(captured_entry(items).objects),
        items.len() == 0 ==> captured_entry(items).metrics.len() == 0 && captured_entry(
            items,
        ).values.len() == 0 && captured_entry(items).objects.len() == 0 && captured_entry(
            items,
        ).timestamp is None,
    decreases items.len(),
{
    if items.len() > 0 {
        captured_names_differ(items.drop_last());
        let before = captured_entry(items.drop_last());
        if let ItemModel::Value(name, value) = items.last() {
            match value {
                ValueModel::Metric(m) => {
                    put_is_found(before.metrics, name, test_metric_model(m), name);
                },
                ValueModel::Text(_) | ValueModel::List(_) => {
                    put_is_found(before.values, name, captured(value), name);
                },
                ValueModel::Object(fields) => {
                    put_is_found(before.objects, name, test_members(fields), name);
                },
                _ => {},
            }
        }
    }
}

/// What is captured of a member of an object: a string as it is, a metric with all that it says, a
/// list by its elements, an object by its members, and nothing where nothing is written.
pub proof fn members_are_captured(value: ValueModel)
    ensures
        nested_test(value) is Some <==> !(value is Nothing || value is Error),
        value matches ValueModel::Text(s) ==> nested_test(value) == Some(TestModel::Text(s)),
        value matches ValueModel::Metric(m) ==> (nested_test(value) matches Some(
            TestModel::Metric(t),
        ) && t.distribution == m.distribution && t.unit == m.unit && t.dimensions == m.dimensions
            && (t.test_flag <==> m.flags == MetricFlags::TestFlag)),
        value matches ValueModel::List(items) ==> nested_test(value) == Some(
            TestModel::Array(nested_tests(items)),
        ),
        value matches ValueModel::Object(fields) ==> nested_test(value) == Some(
            TestModel::Object(test_members(fields)),
        ),
{
}

/// The elements of a list are captured in order, those that are written and no others; the members of
/// an object each under its name, the last of a name.
pub proof fn lists_and_objects_are_captured(
    items: Seq<ValueModel>,
    fields: Seq<(Seq<char>, ValueModel)>,
    value: ValueModel,
    name: Seq<char>,
    other: Seq<char>,
)
    ensures
        nested_tests(Seq::empty()) == Seq::<TestModel>::empty(),
        nested_tests(items.push(value)) == match nested_test(value) {
            Some(t) => nested_tests(items).push(t),
            None => nested_tests(items),
        },
        names_differ(test_members(fields)),
        test_members(Seq::empty()) == Seq::<(Seq<char>, TestModel)>::empty(),
        found(test_members(fields.push((name, value))), name) == match nested_test(value) {
            Some(t) => Some(t),
            None => found(test_members(fields), name),
        },
        other != name ==> found(test_members(fields.push((name, value))), other) == found(
            test_members(fields),
            other,
        ),
{
    assert(items.push(value).drop_last() =~= items);
    assert(fields.push((name, value)).drop_last() =~= fields);
    object_names_differ(fields);
    if let Some(t) = nested_test(value) {
        put_is_found(test_members(fields), name, t, other);
    }
}

proof fn object_names_differ(fields: Seq<(Seq<char>, ValueModel)>)
    ensures
        names_differ(test_members(fields)),
    decreases fields.len(),
{
    if fields.len() > 0 {
        object_names_differ(fields.drop_last());
        if let Some(t) = nested_test(fields.last().1) {
            put_is_found(test_members(fields.drop_last()), fields.last().0, t, fields.last().0);
        }
    }
}

/// The values of a metric are as many as its observations, and those of several observations are the
/// values of the first ones and then of the others: a number as it is, and repeated observations as
/// often as they occurred, each by the mean.
pub proof fn observations_are_flattened(
    list: Seq<ObservationModel>,
    o: ObservationModel,
)
    ensures
        observation_count(Seq::<ObservationModel>::empty()) == 0,
        flattened(Seq::<ObservationModel>::empty()).len() == 0,
        flattened(list).len() == observation_count(list),
        ({
            let before = flattened(list);
            let after = flattened(list.push(o));
            &&& forall|i: int| 0 <= i < before.len() ==> #[trigger] after[i] == before[i]
            &&& o matches ObservationModel::Unsigned(v) ==> after.len() == before.len() + 1
                && after.last() == nearest_double(v)
            &&& o matches ObservationModel::Floating(f) ==> after.len() == before.len() + 1
                && after.last() == f.bits
            &&& o matches ObservationModel::Repeated { occurrences, mean, .. } ==> after.len()
                == before.len() + occurrences && forall|i: int|
                before.len() <= i < after.len() ==> #[trigger] after[i] == mean.bits
        }),
    decreases list.len(),
{
    assert(list.push(o).drop_last() =~= list);
    if list.len() > 0 {
        observations_are_flattened(list.drop_last(), list.last());
        assert(list.drop_last().push(list.last()) =~= list);
    }
}

/// The only observation of a metric as a natural number: the number itself, or a floating-point number
/// cut down to one. A name that was not captured is told, with those that were.
pub proof fn single_observations_are_numbers(
    list: Seq<ObservationModel>,
    key: Seq<char>,
    names: Seq<Seq<char>>,
)
    requires
        list.len() == 1,
    ensures
        list[0] matches ObservationModel::Unsigned(v) ==> is_single(list) && single_natural(list)
            == v,
        list[0] matches ObservationModel::Floating(f) ==> is_single(list) && single_natural(list)
            == truncated_natural(f.bits),
        list[0] is Repeated ==> !is_single(list),
        missing_key_text(key, names) == "key '"@ + key + "' not found. Available keys: "@
            + debug_text(names),
{
}

} // verus!
