use metrique::dimension::{WithDimension, WithDimensions};
use metrique::emf::format::Emf;
use metrique::entry::{Entry, EntryConfig, EntryItem, Timestamp};
use metrique::flags::{EmfOptions, MetricFlags, StorageMode};
use metrique::float::Float;
use metrique::formatter::{
    AsObject, Each, FormattedShape, FormattedValue, Lifted, NotLifted, ToString, ValueFormatter,
};
use metrique::test_util::to_test_entry;
use metrique::traits::{MetricValue, ObjectValue, Value};
use metrique::unit::{Convert, DoubleOp, NegativeScale, PositiveScale, Ratio, Unit, UnitTag};
use metrique::unit_tags::{
    AsMilliseconds, AsSeconds, Bit, BitPerSecond, Byte, BytePerSecond, Count, Gigabit,
    GigabitPerSecond, Megabyte, MegabytePerSecond, Millisecond, NoUnit, Second,
};
use metrique::value::{MetricCall, Observation, WrittenValue};
use metrique::with_unit::WithUnit;
use std::sync::Arc;

fn float(v: f64) -> Float {
    Float::new(
        v.to_bits(),
        |bits: u64| dtoa::Buffer::new().format_finite(f64::from_bits(bits)).to_owned(),
        |bits: u64| format!("{}", f64::from_bits(bits)),
    )
}

fn compute(op: DoubleOp) -> Float {
    let times = |v: f64, r: Ratio| float(v * (r.numerator as f64 / r.denominator as f64));
    match op {
        DoubleOp::ScaleInteger { value, ratio } => times(value as f64, ratio),
        DoubleOp::ScaleDouble { bits, ratio } => times(f64::from_bits(bits), ratio),
        DoubleOp::Divide { bits, by } => float(f64::from_bits(bits) / by as f64),
    }
}

fn ratio<From: Convert<To>, To: UnitTag>() -> f64 {
    let ratio = From::ratio();
    ratio.numerator as f64 / ratio.denominator as f64
}

#[test]
fn conversion_ratios() {
    // None to anything should always be 1
    assert_eq!(ratio::<NoUnit, Millisecond>(), 1.0);
    assert_eq!(ratio::<NoUnit, Bit>(), 1.0);
    assert_eq!(ratio::<NoUnit, MegabytePerSecond>(), 1.0);
    assert_eq!(ratio::<NoUnit, Count>(), 1.0);
    assert_eq!(ratio::<NoUnit, NoUnit>(), 1.0);

    // Time conversions
    assert_eq!(ratio::<Second, Millisecond>(), 1_000.0);
    assert_eq!(ratio::<Millisecond, Second>(), 1.0 / 1_000.0);

    // Bit conversions
    assert_eq!(ratio::<Byte, Bit>(), 8.0);
    assert_eq!(ratio::<Bit, Byte>(), 1.0 / 8.0);
    assert_eq!(ratio::<Megabyte, Gigabit>(), 8.0 / 1_000.0);
    assert_eq!(ratio::<Gigabit, Megabyte>(), 1_000.0 / 8.0);

    // Bps conversions
    assert_eq!(ratio::<BytePerSecond, BitPerSecond>(), 8.0);
    assert_eq!(ratio::<BitPerSecond, BytePerSecond>(), 1.0 / 8.0);
    assert_eq!(ratio::<MegabytePerSecond, GigabitPerSecond>(), 8.0 / 1_000.0);
    assert_eq!(ratio::<GigabitPerSecond, MegabytePerSecond>(), 1_000.0 / 8.0);
}

#[test]
fn names_and_factors_of_units() {
    assert_eq!(Unit::NoUnit.name(), "None");
    assert_eq!(Unit::Second(NegativeScale::Milli).name(), "Milliseconds");
    assert_eq!(Unit::BytePerSecond(PositiveScale::Giga).name(), "Gigabytes/Second");
    assert_eq!(Unit::Bit(PositiveScale::Tera).name(), "Terabits");
    assert_eq!(NegativeScale::Micro.reduction_factor(), 1_000_000);
    assert_eq!(PositiveScale::Kilo.expansion_factor(), 1_000);
}

/// A value that promises seconds and writes bytes.
struct BadValue;

impl MetricValue for BadValue {
    type Unit = Second;
}

impl Value for BadValue {
    fn write(&self) -> WrittenValue {
        WrittenValue::Metric(MetricCall {
            distribution: vec![],
            unit: Byte::unit(),
            dimensions: vec![],
            flags: MetricFlags::Empty,
        })
    }
}

#[test]
fn fail_if_value_didnt_write_expected_unit() {
    match AsMilliseconds::from(BadValue).write(&compute) {
        WrittenValue::Text(value) => panic!("shouldn't have written {value}"),
        WrittenValue::Error(error) => assert!(error
            .message()
            .contains("value promised to write unit `Seconds` but wrote `Bytes` instead")),
        _ => panic!("shouldn't have emitted metric"),
    }
}

/// A time in milliseconds.
struct Millis(f64);

impl MetricValue for Millis {
    type Unit = Millisecond;
}

impl Value for Millis {
    fn write(&self) -> WrittenValue {
        WrittenValue::Metric(MetricCall {
            distribution: vec![Observation::Floating(float(self.0))],
            unit: Millisecond::unit(),
            dimensions: vec![],
            flags: MetricFlags::Empty,
        })
    }
}

fn pair(name: &str, instance: &str) -> (String, String) {
    (name.to_owned(), instance.to_owned())
}

/// Asserts that a metric of one number was written.
fn assert_metric(written: WrittenValue, number: f64, unit: Unit, dimensions: &[(String, String)]) {
    match written {
        WrittenValue::Metric(m) => {
            assert_eq!(m.distribution.len(), 1);
            match &m.distribution[0] {
                Observation::Floating(f) => assert_eq!(f64::from_bits(f.bits), number),
                other => panic!("unexpected {other:?}"),
            }
            assert_eq!(m.unit, unit);
            assert_eq!(m.dimensions, dimensions);
        }
        other => panic!("unexpected {other:?}"),
    }
}

#[test]
fn converts_observations_and_passes_through_rest() {
    let value: AsSeconds<_> =
        WithUnit::new(WithDimension::new(Millis(42.0), "foo".to_owned(), "bar".to_owned()));
    assert_metric(value.write(&compute), 0.042, Second::unit(), &[pair("foo", "bar")]);
}

struct Named;

impl MetricValue for Named {
    type Unit = NoUnit;
}

impl Value for Named {
    fn write(&self) -> WrittenValue {
        WrittenValue::Text("name".to_owned())
    }
}

#[test]
fn strings_have_no_unit() {
    match AsSeconds::new(Named).write(&compute) {
        WrittenValue::Error(error) => {
            assert_eq!(error.message(), "can't apply a unit to a string value")
        }
        other => panic!("unexpected {other:?}"),
    }
}

#[test]
fn observations_are_converted_one_by_one() {
    // counts become doubles; repeated observations keep their number
    match <Second as Convert<Millisecond>>::convert(Observation::Unsigned(3), &compute) {
        Observation::Floating(f) => assert_eq!(f64::from_bits(f.bits), 3000.0),
        other => panic!("unexpected {other:?}"),
    }
    let repeated = Observation::Repeated { total: float(6.0), occurrences: 3, mean: float(2.0) };
    match <Second as Convert<Millisecond>>::convert(repeated, &compute) {
        Observation::Repeated { total, occurrences, mean } => {
            assert_eq!(f64::from_bits(total.bits), 6000.0);
            assert_eq!(occurrences, 3);
            assert_eq!(f64::from_bits(mean.bits), 2000.0);
        }
        other => panic!("unexpected {other:?}"),
    }
    // nothing is computed in the unit itself
    match <Second as Convert<Second>>::convert(Observation::Unsigned(u64::MAX), &compute) {
        Observation::Unsigned(n) => assert_eq!(n, u64::MAX),
        other => panic!("unexpected {other:?}"),
    }
}

#[test]
fn adds_dimensions() {
    assert_metric(
        WithDimension::new(Millis(42.0), "foo".to_owned(), "bar".to_owned()).write(),
        42.0,
        Millisecond::unit(),
        &[pair("foo", "bar")],
    );
}

#[test]
fn appends_after_existing_dimensions() {
    let existing = WithDimension::new(Millis(42.0), "foo".to_owned(), "bar".to_owned());
    assert_metric(
        WithDimension::new_with_dimensions(existing, vec![pair("a", "b"), pair("c", "d")])
            .write(),
        42.0,
        Millisecond::unit(),
        &[pair("foo", "bar"), pair("a", "b"), pair("c", "d")],
    );
}

#[test]
fn test_const_with_dimensions() {
    let empty: WithDimensions<u64, 1> = WithDimensions::new_const(19);
    let from: WithDimensions<u64, 1> = WithDimensions::from(19);
    assert_eq!(empty.as_inner(), from.as_inner());
    assert_eq!(empty.dimensions(), from.dimensions());
    assert_eq!(empty.dimensions(), []);
}

#[test]
fn dimensions_stay_when_the_value_is_mapped() {
    let mut value = WithDimension::new(20u64, "foo".to_owned(), "bar".to_owned());
    value.add_dimension("a".to_owned(), "b".to_owned());
    let mut value = value.map_value(|v: u64| v + 1);
    assert_eq!(*value.as_inner(), 21);
    assert_eq!(value.dimensions(), [pair("foo", "bar"), pair("a", "b")]);
    value.clear_dimensions();
    assert_eq!(value.dimensions(), []);
}

struct TwoTimes {
    timestamp: Timestamp,
    f1: Millis,
    f2: Millis,
}

impl Entry for TwoTimes {
    fn write(&self) -> Vec<EntryItem> {
        vec![
            EntryItem::Timestamp(self.timestamp),
            EntryItem::Config(EntryConfig::Other(1)),
            EntryItem::Value("f1".to_owned(), self.f1.write()),
            EntryItem::Value("f2".to_owned(), self.f2.write()),
        ]
    }
}

#[test]
fn runs_on_entries() {
    let entry = WithDimension::new(
        TwoTimes { timestamp: Timestamp { nanos: 0 }, f1: Millis(42.0), f2: Millis(43.0) },
        "foo".to_owned(),
        "bar".to_owned(),
    );
    let entry = to_test_entry(&entry);
    assert_eq!(entry.metrics.index("f1").as_u64(), 42);
    assert_eq!(entry.metrics.index("f1").dimensions, vec![pair("foo", "bar")]);
    assert_eq!(entry.metrics.index("f2").as_u64(), 43);
    assert_eq!(entry.metrics.index("f2").dimensions, vec![pair("foo", "bar")]);
    assert!(entry.timestamp.is_some());
}

/// Writes points in time as whole seconds since the epoch.
struct AsEpochSeconds;

impl ValueFormatter<Timestamp> for AsEpochSeconds {
    fn format_value(value: &Timestamp) -> WrittenValue {
        WrittenValue::Text((value.nanos / 1_000_000_000).to_string())
    }

    fn shape() -> FormattedShape {
        FormattedShape::Opaque
    }
}

struct MyMetric {
    timestamp: Timestamp,
    other_time: Option<Box<Timestamp>>,
    other_time_arc: Arc<Timestamp>,
    other_time_2: Option<Box<Timestamp>>,
    cow: &'static str,
}

fn formatted<V, F: ValueFormatter<V>>(name: &str, value: &V) -> EntryItem {
    EntryItem::Value(name.to_owned(), FormattedValue::<V, F, Lifted>::new(value).write())
}

impl Entry for MyMetric {
    fn write(&self) -> Vec<EntryItem> {
        vec![
            EntryItem::Timestamp(self.timestamp),
            formatted::<_, AsEpochSeconds>("other_time", &self.other_time),
            formatted::<_, AsEpochSeconds>("other_time_arc", &self.other_time_arc),
            formatted::<_, AsEpochSeconds>("other_time_2", &self.other_time_2),
            EntryItem::Value(
                "cow".to_owned(),
                FormattedValue::<&str, ToString, NotLifted>::new(&self.cow).write(),
            ),
        ]
    }
}

fn seconds(s: i128) -> Timestamp {
    Timestamp { nanos: s * 1_000_000_000 }
}

#[test]
fn test_format_mymetric() {
    let emf = Emf::no_validations("MyNS".to_owned(), vec![vec![]]);
    let entry = MyMetric {
        timestamp: seconds(1),
        other_time: Some(Box::new(seconds(2))),
        other_time_arc: Arc::new(seconds(3)),
        other_time_2: None,
        cow: "string",
    };
    let output: serde_json::Value = emf.format(&entry, seconds(9)).unwrap().parse().unwrap();
    let expected: serde_json::Value = serde_json::from_str(
        r#"{
            "_aws": {
                "CloudWatchMetrics": [
                    {
                        "Namespace": "MyNS",
                        "Dimensions": [[]],
                        "Metrics": []
                    }
                ],
                "Timestamp": 1000
            },
            "other_time": "2",
            "other_time_arc": "3",
            "cow": "string"
        }"#,
    )
    .unwrap();
    assert_eq!(output, expected);
}

#[test]
fn each_element_is_formatted() {
    let list = vec![seconds(7), seconds(8)];
    match <Each<AsEpochSeconds> as ValueFormatter<Vec<Timestamp>>>::format_value(&list) {
        WrittenValue::List(items) => {
            let texts: Vec<String> = items
                .into_iter()
                .map(|i| match i {
                    WrittenValue::Text(s) => s,
                    other => panic!("unexpected {other:?}"),
                })
                .collect();
            assert_eq!(texts, ["7", "8"]);
        }
        other => panic!("unexpected {other:?}"),
    }
    assert!(matches!(
        <Each<AsEpochSeconds> as ValueFormatter<Vec<Timestamp>>>::shape(),
        FormattedShape::List(inner) if matches!(*inner, FormattedShape::Opaque)
    ));
    assert!(matches!(
        <AsEpochSeconds as ValueFormatter<Option<Timestamp>>>::shape(),
        FormattedShape::Optional(_)
    ));
}

struct Detail;

impl ObjectValue for Detail {
    fn write_object(&self) -> Vec<EntryItem> {
        vec![
            EntryItem::Timestamp(seconds(1)),
            EntryItem::Value("a".to_owned(), WrittenValue::Text("b".to_owned())),
            EntryItem::Config(EntryConfig::AllowSplitEntries),
        ]
    }
}

#[test]
fn objects_consist_of_values_alone() {
    match AsObject::format_object(&Detail) {
        WrittenValue::Object(members) => {
            assert_eq!(members.len(), 1);
            assert_eq!(members[0].0, "a");
        }
        other => panic!("unexpected {other:?}"),
    }
}

#[test]
fn metrics_that_are_not_published_stay_so() {
    let high = EmfOptions { storage_mode: StorageMode::HighStorageResolution };
    let none = EmfOptions { storage_mode: StorageMode::NoMetric };
    assert_eq!(
        high.try_merge(MetricFlags::Emf(StorageMode::NoMetric)),
        Some(MetricFlags::Emf(StorageMode::NoMetric))
    );
    assert_eq!(
        none.try_merge(MetricFlags::Emf(StorageMode::HighStorageResolution)),
        Some(MetricFlags::Emf(StorageMode::NoMetric))
    );
    assert_eq!(
        high.try_merge(MetricFlags::Emf(StorageMode::HighStorageResolution)),
        Some(MetricFlags::Emf(StorageMode::HighStorageResolution))
    );
    assert_eq!(high.try_merge(MetricFlags::Distribution), None);
}

#[test]
fn doubles_outside_the_range_are_clamped_when_written() {
    assert_eq!(float(f64::INFINITY).decimal, float(f64::MAX).decimal);
    assert_eq!(float(f64::NEG_INFINITY).decimal, float(f64::MIN).decimal);
    assert!(float(f64::NAN).is_nan());
    assert!(!float(0.5).is_nan());
    assert_eq!(float(0.5).short_decimal(), "0.5");
    assert_eq!(float(42.0).short_decimal(), "42");
}
