use std::cell::RefCell;

use metrique::dimension::WithDimension;
use metrique::emf::format::{Emf, MetricDefinition, MetricDirective, StorageResolution};
use metrique::entry::{Entry, EntryConfig, EntryItem, Timestamp};
use metrique::flags::{
    EmfOptions, FlagConstructor, HighStorageResolutionCtor, MetricFlags, NoMetricCtor, StorageMode,
};
use metrique::float::Float;
use metrique::sampling::{rate_to_n, Draw};
use metrique::traits::Value;
use metrique::unit::{NegativeScale, PositiveScale, Unit};
use metrique::validate::ValidationError;
use metrique::value::{MetricCall, Observation, WrittenValue};
use rand::Rng;
use rand::SeedableRng;

fn float(v: f64) -> Float {
    Float::new(
        v.to_bits(),
        |bits: u64| dtoa::Buffer::new().format_finite(f64::from_bits(bits)).to_owned(),
        |bits: u64| format!("{}", f64::from_bits(bits)),
    )
}

fn floating(v: f64) -> Observation {
    Observation::Floating(float(v))
}

fn repeated(total: f64, occurrences: u64) -> Observation {
    Observation::repeated(float(total), occurrences, |bits: u64, n: u64| {
        float(f64::from_bits(bits) / n as f64)
    })
}

fn metric_in(distribution: Vec<Observation>, unit: Unit) -> MetricCall {
    MetricCall { distribution, unit, dimensions: vec![], flags: MetricFlags::Empty }
}

fn metric(distribution: Vec<Observation>, unit: Unit) -> WrittenValue {
    WrittenValue::Metric(metric_in(distribution, unit))
}

fn count(v: u64) -> WrittenValue {
    metric(vec![Observation::Unsigned(v)], Unit::NoUnit)
}

fn number(v: f64) -> WrittenValue {
    metric(vec![floating(v)], Unit::NoUnit)
}

fn millis(v: f64) -> WrittenValue {
    metric(vec![floating(v)], Unit::Second(NegativeScale::Milli))
}

fn text(s: &str) -> WrittenValue {
    WrittenValue::Text(s.to_owned())
}

fn value(name: &str, value: WrittenValue) -> EntryItem {
    EntryItem::Value(name.to_owned(), value)
}

fn with_dimensions(written: WrittenValue, dimensions: &[(&str, &str)]) -> WrittenValue {
    let mut added: Vec<(String, String)> = vec![];
    for (k, v) in dimensions {
        added.push((k.to_string(), v.to_string()));
    }
    WithDimension::new_with_dimensions(Written(RefCell::new(Some(written))), added).write()
}

/// A value that writes what it is given, once.
struct Written(RefCell<Option<WrittenValue>>);

impl Value for Written {
    fn write(&self) -> WrittenValue {
        self.0.borrow_mut().take().unwrap()
    }
}

/// An entry that hands over what a function builds.
struct Items(fn() -> Vec<EntryItem>);

impl Entry for Items {
    fn write(&self) -> Vec<EntryItem> {
        (self.0)()
    }
}

fn at(nanos: i128) -> EntryItem {
    EntryItem::Timestamp(Timestamp { nanos })
}

const EPOCH: Timestamp = Timestamp { nanos: 0 };

const JUNE: i128 = 1_749_475_336_015_781_900;

fn mean(values: &[u64], unit: Unit) -> WrittenValue {
    metric(vec![repeated(values.iter().sum::<u64>() as f64, values.len() as u64)], unit)
}

const SECONDS: Unit = Unit::Second(NegativeScale::One);
const MILLISECONDS: Unit = Unit::Second(NegativeScale::Milli);

fn flagged(written: WrittenValue, flags: MetricFlags) -> WrittenValue {
    match written {
        WrittenValue::Metric(mut m) => {
            m.flags = flags;
            WrittenValue::Metric(m)
        }
        other => other,
    }
}

fn empty_value() -> WrittenValue {
    metric(vec![], Unit::Count)
}

fn sets(names: &[&[&str]]) -> Vec<Vec<String>> {
    names.iter().map(|set| set.iter().map(|n| n.to_string()).collect()).collect()
}

fn messages(errors: Vec<ValidationError>) -> String {
    errors.iter().map(|e| e.message()).collect::<Vec<_>>().join("\n")
}

fn refused(emf: &Emf, items: fn() -> Vec<EntryItem>) -> String {
    messages(emf.format(&Items(items), EPOCH).unwrap_err())
}

fn parsed(text: &str) -> serde_json::Value {
    serde_json::from_str(text).unwrap()
}

/// Splits output into its lines, sorted.
fn lines(output: &str) -> Vec<String> {
    let mut lines: Vec<String> = output.split('\n').map(|l| l.to_owned()).collect();
    assert_eq!(lines.pop().unwrap(), "");
    lines.sort();
    lines
}

#[test]
fn test_rate_to_n() {
    // check that we get the right distribution. Use a fixed rng to make sure the
    // test is not flaky.
    let mut rng = rand_chacha::ChaChaRng::seed_from_u64(0);
    let mut total = 0;
    const SAMPLES: usize = 10_000;
    const RATE: f32 = 0.4;
    for _ in 0..SAMPLES {
        // sample with probability RATE
        if rng.random::<f64>() >= RATE as f64 {
            continue;
        }
        let inverse = 1.0 / RATE as f64;
        let floor = inverse as u64;
        let lower = rng.random::<f64>() < (floor + 1) as f64 - inverse;
        match rate_to_n(RATE.to_bits(), Draw { floor, lower }) {
            // each sample counts as n
            n @ (2 | 3) => total += n,
            n => panic!("must be 2 or 3, found {n}"),
        }
    }
    // check that we get approximately SAMPLES samples
    assert!(((total as f64) / (SAMPLES as f64) - 1.0).abs() < 0.01);
}

#[test]
fn multiplicities_at_the_limits() {
    // the inverse of the least rate does not fit in 64 bits
    assert_eq!(rate_to_n(1e-30f32.to_bits(), Draw { floor: 7, lower: true }), u64::MAX);
    assert_eq!(rate_to_n((2.0f32.powi(-63)).to_bits(), Draw { floor: 7, lower: true }), 7);
    assert_eq!(rate_to_n(0.5f32.to_bits(), Draw { floor: 7, lower: false }), 8);
    assert_eq!(rate_to_n(0.5f32.to_bits(), Draw { floor: u64::MAX, lower: false }), u64::MAX);
    assert_eq!(rate_to_n((-0.5f32).to_bits(), Draw { floor: 7, lower: true }), u64::MAX);
    assert_eq!(rate_to_n(f32::NEG_INFINITY.to_bits(), Draw { floor: 7, lower: true }), u64::MAX);
}

#[test]
fn test_validation_errors() {
    fn items() -> Vec<EntryItem> {
        vec![
            at(JUNE),
            at(JUNE),
            EntryItem::Config(EntryConfig::EntryDimensions(vec![])),
            value("AWSAccountId", text("012345678901")),
            value("AWSAccountId", text("012345678901")),
            value("WithDimension", with_dimensions(number(2.0), &[("Dim", "Val")])),
            value("_aws", text("some string value")),
            value("", text("some string value")),
            value("MyDimension", count(2)),
            value("Metric", count(2)),
            value("Metric", count(3)),
            // check that metrics can't be duplicated even if they are NAN
            value("NaNMetric", number(f64::NAN)),
            value("NaNMetric", number(1.0)),
            EntryItem::Config(EntryConfig::EntryDimensions(vec![vec![]])),
        ]
    }

    let emf = Emf::builder(
        "TestNS".to_string(),
        sets(&[&[], &["MyDimension", "MyOtherDimension"]]),
    )
    .skip_all_validations(false)
    .build();
    let errors = refused(&emf, items);
    assert!(errors.contains("multiple timestamps written"));
    assert!(errors.contains("for `AWSAccountId`: duplicate field"));
    assert!(errors.contains("for `_aws`: name can't be `_aws`"));
    assert!(errors.contains("for ``: name can't be empty"));
    assert!(errors.contains("for `Metric`: duplicate field"));
    assert!(errors.contains("for `NaNMetric`: duplicate field"));
    assert!(errors.contains("for `MyDimension`: can't use metric in dimension field"));
    assert!(errors.contains("for `MyOtherDimension`: missing dimension"));
    assert!(errors.contains("entry dimensions cannot be empty"));
    assert!(errors.contains(
        "entry dimensions must be configured before emitting a metric with custom dimensions"
    ));
    assert!(errors.contains("multiple timestamps written"));
}

#[test]
fn test_allow_dimensions_with_no_data() {
    fn success() -> Vec<EntryItem> {
        vec![at(0), value("Region", text("us-east-1")), value("MyMetric", count(42))]
    }

    // "AZ" is declared in the dimension set but never written by the entry.
    // With allow_dimensions_with_no_data, this should succeed.
    let emf = Emf::builder("TestNS".to_string(), sets(&[&["Region", "AZ"]]))
        .skip_all_validations(false)
        .allow_dimensions_with_no_data(true)
        .build();
    emf.format(&Items(success), EPOCH).unwrap();

    // Other validations are still active:
    // duplicate fields & naming conventions should still error.
    fn other() -> Vec<EntryItem> {
        vec![
            at(0),
            value("Region", text("us-east-1")),
            value("MyMetric", count(1)),
            value("MyMetric", count(2)),
            value("_aws", text("bad")),
        ]
    }
    let errors = refused(&emf, other);
    assert!(errors.contains("for `MyMetric`: duplicate field"));
    assert!(errors.contains("for `_aws`: name can't be `_aws`"));
}

#[test]
fn test_validation_errors_multiple_config() {
    fn items() -> Vec<EntryItem> {
        vec![
            value("Metric", count(2)),
            EntryItem::Config(EntryConfig::EntryDimensions(sets(&[&["Metric"]]))),
            EntryItem::Config(EntryConfig::EntryDimensions(sets(&[&["Metric"]]))),
        ]
    }

    let emf = Emf::builder(
        "TestNS".to_string(),
        sets(&[&[], &["MyDimension", "MyOtherDimension"]]),
    )
    .skip_all_validations(true) // emitted even with no validations
    .build();
    let errors = refused(&emf, items);
    assert!(errors.contains("entry dimensions cannot be set twice"));

    let emf = Emf::builder(
        "TestNS".to_string(),
        sets(&[&[], &["MyDimension", "MyOtherDimension"]]),
    )
    .skip_all_validations(false)
    .build();
    let errors = refused(&emf, items);
    assert!(errors.contains("for `Metric`: duplicate field"));
    assert!(errors.contains("entry dimensions cannot be set twice"));
}

#[test]
fn test_validation_errors_dimensions() {
    fn two() -> WrittenValue {
        with_dimensions(number(2.0), &[("Dim", "Val")])
    }

    fn empty() -> WrittenValue {
        with_dimensions(empty_value(), &[("Dim", "Val")])
    }

    fn items() -> Vec<EntryItem> {
        vec![
            at(JUNE),
            value("WithDimension1", text("012345678901")),
            value("WithDimension1", two()),
            value("WithDimension2", two()),
            value("WithDimension2", text("012345678901")),
            value("MyOtherDimension", text("foo")),
            value("_aws", two()),
            value("", two()),
            value("WithDimension3", two()),
            value("WithDimension3", two()),
            value("WithDimensionOK", number(2.0)),
            value("WithDimensionOK", two()),
            value("WithDimension4", number(2.0)),
            value("WithDimension4", two()),
            value("WithDimension4", number(2.0)),
            // duplicate empty value, illegal
            value("WithDimension5", empty()),
            value("WithDimension5", empty()),
            // duplicate empty + non-empty value, illegal as well
            value("WithDimension6", empty()),
            value("WithDimension6", two()),
            value("MyDimension", two()),
        ]
    }

    for allow_ignored in [false, true] {
        let emf = Emf::builder(
            "TestNS".to_string(),
            sets(&[&[], &["MyDimension", "MyOtherDimension"]]),
        )
        .skip_all_validations(false)
        .allow_ignored_dimensions(allow_ignored)
        .build();
        let errors = refused(&emf, items);
        assert!(errors.contains("for `WithDimension1`: duplicate field"));
        assert!(errors.contains("for `WithDimension2`: duplicate field"));
        assert!(errors.contains("for `WithDimension3`: duplicate field"));
        assert!(errors.contains("for `WithDimension4`: duplicate field"));
        assert!(errors.contains("for `WithDimension5`: duplicate field"));
        assert!(errors.contains("for `WithDimension6`: duplicate field"));
        assert_eq!(errors.contains("for `WithDimensionOK`: duplicate field"), allow_ignored);
        assert!(errors.contains("for `_aws`: name can't be `_aws`"));
        assert!(errors.contains("for ``: name can't be empty"));
        assert!(errors.contains("for `MyDimension`: can't use metric in dimension field"));
        assert!(errors.contains("for `MyDimension`: missing dimension"));
    }
}

#[test]
fn test_validation_errors_dimensions_no_split() {
    fn items() -> Vec<EntryItem> {
        vec![
            at(JUNE),
            value("Normal", number(1.0)),
            value("WithDimension", with_dimensions(number(2.0), &[("Dim", "Val")])),
        ]
    }

    fn split() -> Vec<EntryItem> {
        vec![EntryItem::Config(EntryConfig::AllowSplitEntries)]
    }

    for preset_split_entries in [false, true] {
        for skip_validations in [false, true] {
            let emf = Emf::builder("TestNS".to_string(), vec![vec![]])
                .skip_all_validations(skip_validations)
                .build();
            if preset_split_entries {
                emf.format(&Items(split), EPOCH).unwrap();
            }
            let errors = refused(&emf, items);
            assert!(errors.contains("for `WithDimension`: can't use per-metric dimensions without split entries - you probably want to remove WithDimensions<>"));
            assert!(!errors.contains("Normal"));
        }
    }
}

#[test]
fn test_sampling_bad_rate() {
    fn items() -> Vec<EntryItem> {
        vec![at(0), value("SomeRepeatedDuration", mean(&[1, 2, 3], MILLISECONDS))]
    }
    let format = Emf::no_validations("MyNS".into(), vec![vec![]]).with_sampling_and_rng(());
    let at_rate = |rate: f32| {
        let draw = Draw { floor: (1.0 / rate as f64) as u64, lower: true };
        format.format_with_sample_rate(&Items(items), EPOCH, rate.to_bits(), draw)
    };
    assert!(at_rate(1.0).is_ok());
    assert!(at_rate(0.0015).is_ok());
    let infty = at_rate(1e-30).unwrap();
    // check that we handle values above u64::MAX in a sane enough way
    assert!(infty
        .contains(r#""SomeRepeatedDuration":{"Values":[2],"Counts":[18446744073709551615]}"#));
    assert!(at_rate(f32::NAN).is_err());
    assert!(at_rate(0.0).is_err());
    assert!(at_rate(-1.0).is_err());
    assert_eq!(
        messages(at_rate(0.0).unwrap_err()),
        "format with non-positive sample rate"
    );
}

#[test]
fn test_missing_timestamp() {
    fn items() -> Vec<EntryItem> {
        vec![value("Metric", count(2))]
    }

    let emf = Emf::all_validations("TestNS".to_string(), vec![vec![]]);
    let now = Timestamp { nanos: JUNE };
    let json = parsed(&emf.format(&Items(items), now).unwrap());
    assert_eq!(json["_aws"]["Timestamp"].as_i64().unwrap(), 1749475336015);
}

fn mean_directive() -> MetricDirective<'static> {
    MetricDirective {
        dimensions: vec![vec!["API"]],
        metrics: vec![MetricDefinition {
            name: "MeanValue",
            unit: SECONDS,
            storage_resolution: Some(StorageResolution::Second),
        }],
        namespace: "TestNS",
    }
}

const MEAN_DIRECTIVE: &str = r#",{ "Namespace": "TestNS", "Dimensions": [["API"]], "Metrics": [{"Name": "MeanValue", "Unit": "Seconds", "StorageResolution": 1}]}"#;

#[test]
fn formats_all_features() {
    fn items() -> Vec<EntryItem> {
        vec![
            at(JUNE),
            // test that a NaN works even if it's the first field
            value("NaN", number(f64::NAN)),
            value("AWSAccountId", text("012345678901")),
            value("API", text("MyAPI")),
            value("StringProp", text("some string value")),
            value("HighResCount", flagged(count(1234), HighStorageResolutionCtor::construct())),
            value("BasicIntCount", count(1234)),
            value("NoMetric", flagged(count(1235), NoMetricCtor::construct())),
            value("BasicFloatCount", number(5.4321)),
            value("SomeDuration", millis(12345.678)),
            value("SomeRepeatedDuration", mean(&[1, 2, 3], MILLISECONDS)),
            value("Nothing", metric(vec![repeated(0.0, 0)], Unit::NoUnit)),
            value("RepeatedDuration", metric(vec![floating(0.01), floating(0.17)], MILLISECONDS)),
            value(
                "CounterWithUnit",
                metric(vec![Observation::Unsigned(99)], Unit::Byte(PositiveScale::Kilo)),
            ),
            value("MeanValue", with_dimensions(mean(&[1, 2, 3], SECONDS), &[("Ignored", "X")])),
            value(
                "DistributionWithNonFinite",
                metric(
                    vec![
                        floating(f64::NAN),
                        floating(f64::INFINITY),
                        floating(-f64::INFINITY),
                        floating(f64::NAN),
                        floating(1.0),
                        floating(f64::NAN),
                    ],
                    Unit::NoUnit,
                ),
            ),
            value("OtherNaN", number(f64::NAN)),
            value(
                "DistributionWithOnlyNaN",
                metric(vec![floating(f64::NAN), floating(f64::NAN)], Unit::NoUnit),
            ),
            value(
                "ComplexDistribution",
                metric(
                    vec![
                        Observation::Unsigned(456),
                        Observation::Unsigned(789),
                        Observation::Unsigned(123),
                    ],
                    Unit::BitPerSecond(PositiveScale::One),
                ),
            ),
            value("NoObservations", metric(vec![], Unit::NoUnit)),
        ]
    }

    for skip in [true, false] {
        let emf = Emf::builder("TestNS".to_string(), sets(&[&[], &["AWSAccountId"]]))
            .directive(mean_directive())
            .allow_ignored_dimensions(true)
            .skip_all_validations(skip)
            .build();
        for multiplicity in [None, Some(1), Some(2)] {
            for _ in 0..3 {
                let output =
                    emf.format_with_multiplicity(&Items(items), EPOCH, multiplicity).unwrap();
                let values = match multiplicity {
                    None => {
                        r#"
            {
                "BasicFloatCount": 5.4321,
                "BasicIntCount": 1234,
                "NoMetric": 1235,
                "HighResCount": 1234,
                "ComplexDistribution": {"Values": [456,789,123], "Counts": [1,1,1]},
                "CounterWithUnit": 99,
                "MeanValue": {"Values":[2], "Counts":[3]},
                "RepeatedDuration": {"Values":[0.01, 0.17], "Counts": [1, 1]},
                "SomeDuration": 12345.678,
                "SomeRepeatedDuration": {"Values":[2], "Counts":[3]},
                "Nothing": {"Values":[0], "Counts":[0]},
                "DistributionWithNonFinite": {"Values":[1.7976931348623157e308,-1.7976931348623157e308,1], "Counts":[1,1,1]},"#
                    }
                    Some(1) => {
                        r#"
            {
                "BasicFloatCount": {"Values": [5.4321], "Counts": [1]},
                "BasicIntCount": {"Values": [1234], "Counts": [1]},
                "NoMetric": {"Values": [1235], "Counts": [1]},
                "HighResCount": {"Values": [1234], "Counts": [1]},
                "ComplexDistribution": {"Values": [456,789,123], "Counts": [1,1,1]},
                "CounterWithUnit": {"Values": [99], "Counts": [1]},
                "MeanValue": {"Values": [2], "Counts": [3]},
                "RepeatedDuration": {"Values": [0.01, 0.17], "Counts": [1, 1]},
                "SomeDuration": {"Values": [12345.678], "Counts": [1]},
                "SomeRepeatedDuration": {"Values": [2], "Counts": [3]},
                "Nothing": {"Values": [0], "Counts": [0]},
                "DistributionWithNonFinite": {"Values":[1.7976931348623157e308,-1.7976931348623157e308,1], "Counts":[1,1,1]},"#
                    }
                    _ => {
                        r#"
            {
                "BasicFloatCount": {"Values": [5.4321], "Counts": [2]},
                "BasicIntCount": {"Values": [1234], "Counts": [2]},
                "NoMetric": {"Values": [1235], "Counts": [2]},
                "HighResCount": {"Values": [1234], "Counts": [2]},
                "ComplexDistribution": {"Values": [456,789,123], "Counts": [2,2,2]},
                "CounterWithUnit": {"Values": [99], "Counts": [2]},
                "MeanValue": {"Values": [2], "Counts": [6]},
                "RepeatedDuration": {"Values": [0.01, 0.17], "Counts": [2, 2]},
                "SomeDuration": {"Values": [12345.678], "Counts": [2]},
                "SomeRepeatedDuration": {"Values": [2], "Counts": [6]},
                "Nothing": {"Values": [0], "Counts": [0]},
                "DistributionWithNonFinite": {"Values":[1.7976931348623157e308,-1.7976931348623157e308,1], "Counts":[2,2,2]},"#
                    }
                };
                let expected = format!(
                    "{}{}{}{}",
                    values,
                    r#"
                "API": "MyAPI",
                "AWSAccountId": "012345678901",
                "StringProp": "some string value",
                "_aws": {
                    "CloudWatchMetrics": [
                        {
                            "Namespace": "TestNS",
                            "Dimensions": [[], ["AWSAccountId"]],
                            "Metrics": [
                                {"Name": "HighResCount", "StorageResolution": 1},
                                {"Name": "BasicIntCount"},
                                {"Name": "BasicFloatCount"},
                                {"Name": "SomeDuration", "Unit": "Milliseconds"},
                                {"Name": "SomeRepeatedDuration", "Unit": "Milliseconds"},
                                {"Name": "Nothing"},
                                {"Name": "RepeatedDuration", "Unit": "Milliseconds"},
                                {"Name": "CounterWithUnit", "Unit": "Kilobytes"},
                                {"Name": "MeanValue", "Unit": "Seconds"},
                                {"Name": "DistributionWithNonFinite"},
                                {"Name": "ComplexDistribution", "Unit": "Bits/Second"}
                            ]
                        }"#,
                    MEAN_DIRECTIVE,
                    r#"
                    ],
                    "Timestamp": 1749475336015
                }
            }"#
                );
                assert_eq!(parsed(&output), parsed(&expected));
            }
        }
    }
}

#[test]
fn formats_all_features_dimensions() {
    fn items() -> Vec<EntryItem> {
        vec![
            at(JUNE),
            EntryItem::Config(EntryConfig::AllowSplitEntries),
            value("AWSAccountId", text("012345678901")),
            value("API", text("MyAPI")),
            value("StringProp", text("some string value")),
            value("BasicIntCount", count(1234)),
            value("NoMetric", flagged(count(1235), NoMetricCtor::construct())),
            value("DimensionedIntCount", with_dimensions(count(1235), &[("Kind", "Bar")])),
            value("MeanValue", mean(&[1, 2, 3, 4, 5, 6], SECONDS)),
            value("MeanValue", with_dimensions(mean(&[1, 2, 3], SECONDS), &[("Kind", "Foo")])),
            value("MeanValue", with_dimensions(empty_value(), &[("Kind", "Empty")])),
            value("MeanValue", with_dimensions(mean(&[4, 5, 6], SECONDS), &[("Kind", "Bar")])),
            value(
                "MeanValue",
                with_dimensions(mean(&[4, 5, 6], SECONDS), &[("Kind", "Bar"), ("Type", "Baz")]),
            ),
        ]
    }

    fn check(emf: Emf, extra: &str) {
        for _ in 0..3 {
            let output = lines(&emf.format(&Items(items), EPOCH).unwrap());
            assert_eq!(output.len(), 4);
            assert_eq!(
                parsed(&output[0]),
                parsed(
                    r#"
                {
                    "API": "MyAPI",
                    "AWSAccountId": "012345678901",
                    "StringProp": "some string value",
                    "Kind": "Bar",
                    "Type": "Baz",
                    "MeanValue": {"Values":[5], "Counts":[3]},
                    "_aws": {
                        "CloudWatchMetrics": [
                            {
                                "Namespace": "TestNS",
                                "Dimensions": [["Kind", "Type"], ["AWSAccountId", "Kind", "Type"]],
                                "Metrics": [{"Name": "MeanValue", "Unit": "Seconds"}]
                            }
                        ],
                        "Timestamp": 1749475336015
                    }
                }"#
                )
            );
            assert_eq!(
                parsed(&output[1]),
                parsed(
                    r#"
                {
                    "API": "MyAPI",
                    "AWSAccountId": "012345678901",
                    "StringProp": "some string value",
                    "Kind": "Bar",
                    "MeanValue": {"Values":[5], "Counts":[3]},
                    "DimensionedIntCount": 1235,
                    "_aws": {
                        "CloudWatchMetrics": [
                            {
                                "Namespace": "TestNS",
                                "Dimensions": [["Kind"], ["AWSAccountId", "Kind"]],
                                "Metrics": [
                                    {"Name": "DimensionedIntCount"},
                                    {"Name": "MeanValue", "Unit": "Seconds"}
                                ]
                            }
                        ],
                        "Timestamp": 1749475336015
                    }
                }"#
                )
            );
            assert_eq!(
                parsed(&output[2]),
                parsed(
                    r#"
                {
                    "API": "MyAPI",
                    "AWSAccountId": "012345678901",
                    "StringProp": "some string value",
                    "Kind": "Foo",
                    "MeanValue": {"Values":[2], "Counts":[3]},
                    "_aws": {
                        "CloudWatchMetrics": [
                            {
                                "Namespace": "TestNS",
                                "Dimensions": [["Kind"], ["AWSAccountId", "Kind"]],
                                "Metrics": [{"Name": "MeanValue", "Unit": "Seconds"}]
                            }
                        ],
                        "Timestamp": 1749475336015
                    }
                }"#
                )
            );
            let expected = format!(
                "{}{}{}",
                r#"
                {
                    "API": "MyAPI",
                    "AWSAccountId": "012345678901",
                    "StringProp": "some string value",
                    "MeanValue": {"Values":[3.5], "Counts":[6]},
                    "BasicIntCount": 1234,
                    "NoMetric": 1235,
                    "_aws": {
                        "CloudWatchMetrics": [
                            {
                                "Namespace": "TestNS",
                                "Dimensions": [[], ["AWSAccountId"]],
                                "Metrics": [
                                    {"Name": "BasicIntCount"},
                                    {"Name": "MeanValue", "Unit": "Seconds"}
                                ]
                            }"#,
                extra,
                r#"
                        ],
                        "Timestamp": 1749475336015
                    }
                }"#
            );
            assert_eq!(parsed(&output[3]), parsed(&expected));
        }
    }

    for skip in [true, false] {
        check(
            Emf::builder("TestNS".to_string(), sets(&[&[], &["AWSAccountId"]]))
                .directive(mean_directive())
                .skip_all_validations(skip)
                .build(),
            MEAN_DIRECTIVE,
        );
    }
    check(Emf::no_validations("TestNS".to_string(), sets(&[&[], &["AWSAccountId"]])), "");
    check(Emf::all_validations("TestNS".to_string(), sets(&[&[], &["AWSAccountId"]])), "");
}

#[test]
fn formats_all_features_dimensions_per_entry() {
    fn items() -> Vec<EntryItem> {
        vec![
            at(JUNE),
            EntryItem::Config(EntryConfig::AllowSplitEntries),
            value("AWSAccountId", text("012345678901")),
            value("API", text("MyAPI")),
            value("BasicIntCount", count(1234)),
            EntryItem::Config(EntryConfig::EntryDimensions(sets(&[
                &["API"],
                &["API", "StringProp"],
            ]))),
            // put the StringProp after the config, to check that validation path as well
            value("StringProp", text("some string value")),
            value("MeanValue", mean(&[1, 2, 3, 4, 5, 6], SECONDS)),
            value("MeanValue", with_dimensions(mean(&[1, 2, 3], SECONDS), &[("Kind", "Foo")])),
        ]
    }

    fn check(emf: Emf, log_group_name: &str, extra: &str) {
        for _ in 0..3 {
            let output = lines(&emf.format(&Items(items), EPOCH).unwrap());
            assert_eq!(output.len(), 2);
            let expected = format!(
                "{}{}{}",
                r#"
            {
                "API": "MyAPI",
                "AWSAccountId": "012345678901",
                "StringProp": "some string value",
                "Kind": "Foo",
                "MeanValue": {"Values":[2], "Counts":[3]},
                "_aws": {
                    "CloudWatchMetrics": [
                        {
                            "Namespace": "TestNS",
                            "Dimensions": [
                                ["API", "Kind"],
                                ["API", "StringProp", "Kind"],
                                ["AWSAccountId", "API", "Kind"],
                                ["AWSAccountId", "API", "StringProp", "Kind"]
                            ],
                            "Metrics": [{"Name": "MeanValue", "Unit": "Seconds"}]
                        }
                    ],"#,
                log_group_name,
                r#"
                    "Timestamp": 1749475336015
                }
            }"#
            );
            assert_eq!(parsed(&output[0]), parsed(&expected));
            let expected = format!(
                "{}{}{}{}{}",
                r#"
            {
                "API": "MyAPI",
                "AWSAccountId": "012345678901",
                "StringProp": "some string value",
                "MeanValue": {"Values":[3.5], "Counts":[6]},
                "BasicIntCount": 1234,
                "_aws": {
                    "CloudWatchMetrics": [
                        {
                            "Namespace": "TestNS",
                            "Dimensions": [
                                ["API"],
                                ["API", "StringProp"],
                                ["AWSAccountId", "API"],
                                ["AWSAccountId", "API", "StringProp"]
                            ],
                            "Metrics": [
                                {"Name": "BasicIntCount"},
                                {"Name": "MeanValue", "Unit": "Seconds"}
                            ]
                        }"#,
                extra,
                r"],",
                log_group_name,
                r#""Timestamp": 1749475336015
                }
            }"#
            );
            assert_eq!(parsed(&output[1]), parsed(&expected));
        }
    }

    for skip in [true, false] {
        check(
            Emf::builder("TestNS".to_string(), sets(&[&[], &["AWSAccountId"]]))
                .directive(mean_directive())
                .skip_all_validations(skip)
                .build(),
            "",
            MEAN_DIRECTIVE,
        );
    }
    check(Emf::no_validations("TestNS".to_string(), sets(&[&[], &["AWSAccountId"]])), "", "");
    check(Emf::all_validations("TestNS".to_string(), sets(&[&[], &["AWSAccountId"]])), "", "");
    check(
        Emf::builder("TestNS".to_string(), sets(&[&[], &["AWSAccountId"]])).build(),
        "",
        "",
    );
    check(
        Emf::builder("TestNS".to_string(), sets(&[&[], &["AWSAccountId"]]))
            .log_group_name("Bar".to_string())
            .build(),
        r#""LogGroupName": "Bar","#,
        "",
    );
}

#[test]
fn test_multiple_namespaces() {
    fn plain() -> Vec<EntryItem> {
        vec![
            at(JUNE),
            value("AWSAccountId", text("012345678901")),
            value("BasicIntCount", count(1234)),
        ]
    }

    fn split() -> Vec<EntryItem> {
        vec![
            at(JUNE),
            EntryItem::Config(EntryConfig::AllowSplitEntries),
            value("AWSAccountId", text("012345678901")),
            value("BasicIntCount", count(1234)),
            value("MeanValue", with_dimensions(mean(&[1, 2, 3], SECONDS), &[("Kind", "Foo")])),
        ]
    }

    fn check(emf: Emf, extra: &str, split_entries: bool) {
        let items: fn() -> Vec<EntryItem> = if split_entries { split } else { plain };
        for _ in 0..3 {
            let mut output = lines(&emf.format(&Items(items), EPOCH).unwrap());
            assert_eq!(output.len(), if split_entries { 2 } else { 1 });
            if split_entries {
                assert_eq!(
                    parsed(&output.remove(0)),
                    parsed(
                        r#"
            {
                "AWSAccountId": "012345678901",
                "Kind": "Foo",
                "MeanValue": {"Counts": [3], "Values": [2]},
                "_aws": {
                    "CloudWatchMetrics": [
                        {
                            "Dimensions": [["Kind"], ["AWSAccountId", "Kind"]],
                            "Metrics": [{"Name": "MeanValue", "Unit": "Seconds"}],
                            "Namespace": "TestNS"
                        },
                        {
                            "Dimensions": [["Kind"], ["AWSAccountId", "Kind"]],
                            "Metrics": [{"Name": "MeanValue", "Unit": "Seconds"}],
                            "Namespace": "OtherNS"
                        },
                        {
                            "Dimensions": [["Kind"], ["AWSAccountId", "Kind"]],
                            "Metrics": [{"Name": "MeanValue", "Unit": "Seconds"}],
                            "Namespace": "ThirdNS"
                        }
                    ],
                    "Timestamp": 1749475336015
                }
            }"#
                    )
                );
            }
            let expected = format!(
                "{}{}{}",
                r#"
            {
                "BasicIntCount": 1234,
                "AWSAccountId": "012345678901",
                "_aws": {
                    "CloudWatchMetrics": [
                        {
                            "Namespace": "TestNS",
                            "Dimensions": [[], ["AWSAccountId"]],
                            "Metrics": [{ "Name": "BasicIntCount" }]
                        },
                        {
                            "Namespace": "OtherNS",
                            "Dimensions": [[], ["AWSAccountId"]],
                            "Metrics": [{ "Name": "BasicIntCount" }]
                        },
                        {
                            "Namespace": "ThirdNS",
                            "Dimensions": [[], ["AWSAccountId"]],
                            "Metrics": [{ "Name": "BasicIntCount" }]
                        }
                    "#,
                extra,
                r#"
                    ],
                    "Timestamp": 1749475336015
                }
            }"#
            );
            assert_eq!(parsed(&output[0]), parsed(&expected));
        }
    }

    for split_entries in [false, true] {
        for skip in [false, true] {
            check(
                Emf::builder("TestNS".to_string(), sets(&[&[], &["AWSAccountId"]]))
                    .skip_all_validations(skip)
                    .add_namespace("OtherNS".to_string())
                    .add_namespace("ThirdNS".to_string())
                    .build(),
                "",
                split_entries,
            );
        }
        check(
            Emf::builder("TestNS".to_string(), sets(&[&[], &["AWSAccountId"]]))
                .add_namespace("OtherNS".to_string())
                .add_namespace("ThirdNS".to_string())
                .directive(mean_directive())
                .skip_all_validations(false)
                .build(),
            MEAN_DIRECTIVE,
            split_entries,
        );
    }
}

#[test]
fn formats_dimensions_only() {
    fn items() -> Vec<EntryItem> {
        vec![
            at(JUNE),
            EntryItem::Config(EntryConfig::AllowSplitEntries),
            value("AWSAccountId", text("012345678901")),
            value("MeanValue", with_dimensions(mean(&[1, 2, 3], SECONDS), &[("Kind", "Foo")])),
        ]
    }

    for emf in [
        Emf::no_validations("TestNS".to_string(), sets(&[&[], &["AWSAccountId"]])),
        Emf::all_validations("TestNS".to_string(), sets(&[&[], &["AWSAccountId"]])),
    ] {
        for _ in 0..3 {
            let output = lines(&emf.format(&Items(items), EPOCH).unwrap());
            assert_eq!(output.len(), 1);
            assert_eq!(
                parsed(&output[0]),
                parsed(
                    r#"
                {
                    "AWSAccountId": "012345678901",
                    "Kind": "Foo",
                    "MeanValue": {"Values":[2], "Counts":[3]},
                    "_aws": {
                        "CloudWatchMetrics": [
                            {
                                "Namespace": "TestNS",
                                "Dimensions": [["Kind"], ["AWSAccountId", "Kind"]],
                                "Metrics": [{"Name": "MeanValue", "Unit": "Seconds"}]
                            }
                        ],
                        "Timestamp": 1749475336015
                    }
                }"#
                )
            );
        }
    }
}

#[test]
fn formats_dimensions_only_no_metric() {
    // check that if a dimension only contains NoMetric metrics, it is still emitted correctly
    fn items() -> Vec<EntryItem> {
        vec![
            at(JUNE),
            EntryItem::Config(EntryConfig::AllowSplitEntries),
            value("AWSAccountId", text("012345678901")),
            value(
                "MeanValue",
                flagged(
                    with_dimensions(mean(&[1, 2, 3], SECONDS), &[("Kind", "Foo")]),
                    NoMetricCtor::construct(),
                ),
            ),
        ]
    }

    for emf in [
        Emf::no_validations("TestNS".to_string(), sets(&[&[], &["AWSAccountId"]])),
        Emf::all_validations("TestNS".to_string(), sets(&[&[], &["AWSAccountId"]])),
    ] {
        for _ in 0..3 {
            let output = lines(&emf.format(&Items(items), EPOCH).unwrap());
            assert_eq!(output.len(), 1);
            assert_eq!(
                parsed(&output[0]),
                parsed(
                    r#"
                {
                    "AWSAccountId": "012345678901",
                    "Kind": "Foo",
                    "MeanValue": {"Values":[2], "Counts":[3]},
                    "_aws": {
                        "CloudWatchMetrics": [
                            {
                                "Namespace": "TestNS",
                                "Dimensions": [["Kind"], ["AWSAccountId", "Kind"]],
                                "Metrics": []
                            }
                        ],
                        "Timestamp": 1749475336015
                    }
                }"#
                )
            );
        }
    }
}

#[test]
fn formats_empty() {
    // check that a metric entry with only a timestamp still produces a metric entry
    fn items() -> Vec<EntryItem> {
        vec![at(JUNE)]
    }

    for emf in [
        Emf::no_validations("TestNS".to_string(), vec![vec![]]),
        Emf::all_validations("TestNS".to_string(), vec![vec![]]),
    ] {
        for _ in 0..3 {
            let output = lines(&emf.format(&Items(items), EPOCH).unwrap());
            assert_eq!(output.len(), 1);
            assert_eq!(
                parsed(&output[0]),
                parsed(
                    r#"
                {
                    "_aws": {
                        "CloudWatchMetrics": [
                            {"Namespace": "TestNS", "Dimensions": [[]], "Metrics": []}
                        ],
                        "Timestamp": 1749475336015
                    }
                }"#
                )
            );
        }
    }
}

#[test]
fn test_try_merge() {
    let high = StorageMode::HighStorageResolution;
    let no_metric = StorageMode::NoMetric;
    for (lhs, rhs, result) in [
        (high, high, high),
        (high, no_metric, no_metric),
        (no_metric, high, no_metric),
    ] {
        let merged = EmfOptions { storage_mode: lhs }.try_merge(MetricFlags::Emf(rhs)).unwrap();
        assert_eq!(merged, MetricFlags::Emf(result));
    }
    assert_eq!(
        EmfOptions { storage_mode: no_metric }.try_merge(MetricFlags::Distribution),
        None
    );
}

#[test]
fn test_force_storage_resolution_emf() {
    fn high(written: WrittenValue) -> WrittenValue {
        match written {
            WrittenValue::Metric(mut m) => {
                let options = EmfOptions { storage_mode: StorageMode::HighStorageResolution };
                m.flags = match options.try_merge(m.flags) {
                    Some(merged) => merged,
                    None => HighStorageResolutionCtor::construct(),
                };
                WrittenValue::Metric(m)
            }
            other => other,
        }
    }

    fn items() -> Vec<EntryItem> {
        vec![
            at(12_345_678_900_000),
            value("Time", high(millis(42.0))),
            value("Operation", high(text("Foo"))),
            value("BasicIntCount", high(count(1234))),
            value("BasicFloatCount", high(number(5.4321))),
            value("SomeDuration", high(millis(12345.678))),
            value("SomeRepeatedDuration", high(mean(&[1, 2, 3], MILLISECONDS))),
            value(
                "RepeatedDuration",
                high(metric(vec![floating(0.01), floating(0.17)], MILLISECONDS)),
            ),
            // also check nested HighStorageResolution
            value(
                "CounterWithUnit",
                high(high(metric(vec![Observation::Unsigned(99)], Unit::Byte(PositiveScale::Kilo)))),
            ),
            value("MeanValue", high(mean(&[1, 2, 3], SECONDS))),
        ]
    }

    let emf = Emf::all_validations("MyNS".to_owned(), vec![vec![]]);
    let json = parsed(&emf.format(&Items(items), EPOCH).unwrap());
    let expected = r#"
{
    "_aws": {
        "CloudWatchMetrics": [
            {
                "Namespace": "MyNS",
                "Dimensions": [[]],
                "Metrics": [
                    {"Name": "Time", "Unit": "Milliseconds", "StorageResolution": 1},
                    {"Name": "BasicIntCount", "StorageResolution": 1},
                    {"Name": "BasicFloatCount", "StorageResolution": 1},
                    {"Name": "SomeDuration", "Unit": "Milliseconds", "StorageResolution": 1},
                    {"Name": "SomeRepeatedDuration", "Unit": "Milliseconds", "StorageResolution": 1},
                    {"Name": "RepeatedDuration", "Unit": "Milliseconds", "StorageResolution": 1},
                    {"Name": "CounterWithUnit", "Unit": "Kilobytes", "StorageResolution": 1},
                    {"Name": "MeanValue", "Unit": "Seconds", "StorageResolution": 1}
                ]
            }
        ],
        "Timestamp": 12345678
    },
    "Time": 42,
    "BasicIntCount": 1234,
    "BasicFloatCount": 5.4321,
    "SomeDuration": 12345.678,
    "SomeRepeatedDuration": {"Values": [2], "Counts": [3]},
    "RepeatedDuration": {"Values": [0.01, 0.17], "Counts": [1, 1]},
    "CounterWithUnit": 99,
    "MeanValue": {"Values": [2], "Counts": [3]},
    "Operation": "Foo"
}"#;
    assert_eq!(json, parsed(expected));
}

/// A distribution ending with NaN should not produce trailing commas in the Values/Counts arrays
#[test]
fn trailing_nan_in_distribution_produces_valid_json() {
    fn items() -> Vec<EntryItem> {
        vec![
            at(1_700_000_000_000_000_000),
            value(
                "MetricWithTrailingNaN",
                metric(vec![floating(1.0), floating(2.0), floating(f64::NAN)], Unit::NoUnit),
            ),
        ]
    }

    let emf = Emf::builder("TestNS".to_string(), vec![vec![]]).build();
    let output = emf.format(&Items(items), EPOCH).unwrap();
    // Serde will fail validation if there's trailing commas
    let json = parsed(&output);
    assert_eq!(
        json["MetricWithTrailingNaN"],
        parsed(r#"{"Values": [1, 2], "Counts": [1, 1]}"#)
    );
}

#[test]
fn exact_text_of_a_line() {
    fn items() -> Vec<EntryItem> {
        vec![
            at(-5),
            value("quo\"te", text("line\nbreak \u{8}\u{c}\u{1}\\")),
            value("n", metric(vec![Observation::Unsigned(7)], Unit::Count)),
        ]
    }

    let emf = Emf::builder("NS".to_string(), sets(&[&["quo\"te"]]))
        .log_group_name("lg".to_string())
        .build();
    assert_eq!(
        emf.format(&Items(items), EPOCH).unwrap(),
        "{\"_aws\":{\"CloudWatchMetrics\":[{\"Namespace\":\"NS\",\"Dimensions\":[[\"quo\\\"te\"]],\"Metrics\":[{\"Name\":\"n\",\"Unit\":\"Count\"}]}],\"LogGroupName\":\"lg\",\"Timestamp\":0},\"n\":7,\"quo\\\"te\":\"line\\nbreak \\b\\f\\u0001\\\\\"}\n"
    );
}

#[test]
fn errors_come_in_order() {
    fn items() -> Vec<EntryItem> {
        vec![
            value("bad", WrittenValue::Error(ValidationError::invalid("no good"))),
            value("d2", count(1)),
            EntryItem::Config(EntryConfig::Other(3)),
        ]
    }

    let emf = Emf::all_validations("NS".to_string(), sets(&[&["d1", "d2"], &["d1"]]));
    assert_eq!(
        refused(&emf, items),
        "for `bad`: no good\nfor `d2`: can't use metric in dimension field\nfor `d1`: missing dimension\nfor `d2`: missing dimension"
    );

    fn unroutable() -> Vec<EntryItem> {
        vec![EntryItem::Config(EntryConfig::AllowUnroutableEntries), value("d2", count(1))]
    }
    assert!(emf.format(&Items(unroutable), EPOCH).is_ok());
}

#[test]
fn dimensions_in_any_order_share_a_line() {
    fn items() -> Vec<EntryItem> {
        vec![
            EntryItem::Config(EntryConfig::AllowSplitEntries),
            value("a", with_dimensions(count(1), &[("x", "1"), ("y", "2")])),
            value("b", with_dimensions(count(2), &[("y", "2"), ("x", "1")])),
        ]
    }

    let emf = Emf::all_validations("NS".to_string(), vec![vec![]]);
    assert_eq!(
        emf.format(&Items(items), EPOCH).unwrap(),
        "{\"_aws\":{\"CloudWatchMetrics\":[{\"Namespace\":\"NS\",\"Dimensions\":[[\"x\",\"y\"]],\"Metrics\":[{\"Name\":\"a\"},{\"Name\":\"b\"}]}],\"Timestamp\":0},\"x\":\"1\",\"y\":\"2\",\"a\":1,\"b\":2}\n"
    );
}

#[test]
fn dimensions_that_are_written_are_found() {
    // names may come twice, dimensions have to exist
    let emf = Emf::builder("NS".into(), sets(&[&["Region"]]))
        .skip_all_validations(true)
        .allow_dimensions_with_no_data(false)
        .build();
    let found = Items(|| {
        vec![
            at(0),
            value("Region", text("us-east-1")),
            value("Region", text("us-east-2")),
            value("M", count(1)),
        ]
    });
    assert!(emf.format(&found, EPOCH).is_ok());
    assert_eq!(
        refused(&emf, || vec![at(0), value("M", count(1))]),
        "for `Region`: missing dimension"
    );
}

#[test]
fn metrics_without_some_of_their_numbers_are_named() {
    let emf = Emf::all_validations("NS".into(), vec![vec![]]);
    let entry = Items(|| {
        vec![
            value("good", number(1.0)),
            value("nan", number(f64::NAN)),
            value("", number(f64::NAN)),
            value("part", metric(vec![floating(1.0), floating(f64::NAN)], Unit::NoUnit)),
            value("text", text("NaN")),
            value("infinite", number(f64::INFINITY)),
        ]
    });
    assert_eq!(emf.skipped_metrics(&entry), ["nan", "part"]);
    let emf = Emf::no_validations("NS".into(), vec![vec![]]);
    assert_eq!(emf.skipped_metrics(&entry), ["nan", "", "part"]);
    assert!(emf.accepts_name("_aws"));
    assert!(!Emf::all_validations("NS".into(), vec![vec![]]).accepts_name("_aws"));
}

#[test]
fn checks_depend_on_the_build() {
    let twice = Items(|| vec![at(0), value("A", text("1")), value("A", text("2"))]);
    let checked = Emf::builder_for_build("NS".into(), vec![vec![]], true).build();
    assert!(checked.format(&twice, EPOCH).is_err());
    let unchecked = Emf::builder_for_build("NS".into(), vec![vec![]], false).build();
    assert!(unchecked.format(&twice, EPOCH).is_ok());
}

#[test]
fn multiplicities_do_not_decide_what_is_accepted() {
    let emf = Emf::all_validations("NS".into(), vec![vec![]]);
    let good = Items(|| vec![at(0), value("A", number(1.0)), value("B", text("2"))]);
    let twice = Items(|| vec![at(0), value("A", number(1.0)), value("A", number(2.0))]);
    let nameless = Items(|| vec![at(0), value("", number(1.0))]);
    for multiplicity in [None, Some(0), Some(1), Some(7)] {
        assert!(emf.format_with_multiplicity(&good, EPOCH, multiplicity).is_ok());
        assert!(emf.format_with_multiplicity(&twice, EPOCH, multiplicity).is_err());
        assert!(emf.format_with_multiplicity(&nameless, EPOCH, multiplicity).is_err());
    }
}
