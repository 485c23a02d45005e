use metrique::dimension::WithDimension;
use metrique::emf::format::Emf;
use metrique::entry::{Entry, EntryItem, Timestamp};
use metrique::flags::MetricFlags;
use metrique::float::Float;
use metrique::format::Format;
use metrique::json::Json;
use metrique::sampling::{takes_chance, Draw};
use metrique::traits::{object_value, ObjectValue, Value};
use metrique::unit::{DoubleOp, NegativeScale, Ratio, Unit};
use metrique::validate::ValidationError;
use metrique::value::{MetricCall, Observation, WrittenValue};
use rand::Rng;
use rand::SeedableRng;

fn float(v: f64) -> Float {
    Float::new(
        v.to_bits(),
        |bits: u64| dtoa::Buffer::new().format_finite(f64::from_bits(bits)).to_owned(),
        |bits: u64| format!("{}", f64::from_bits(bits)),
    )
}

fn floating(v: f64) -> Observation {
    Observation::Floating(float(v))
}

fn repeated(total: f64, occurrences: u64) -> Observation {
    Observation::repeated(float(total), occurrences, |bits: u64, n: u64| {
        float(f64::from_bits(bits) / n as f64)
    })
}

fn compute(op: DoubleOp) -> Float {
    let times = |v: f64, r: Ratio| float(v * (r.numerator as f64 / r.denominator as f64));
    match op {
        DoubleOp::ScaleInteger { value, ratio } => times(value as f64, ratio),
        DoubleOp::ScaleDouble { bits, ratio } => times(f64::from_bits(bits), ratio),
        DoubleOp::Divide { bits, by } => float(f64::from_bits(bits) / by as f64),
    }
}

fn metric(distribution: Vec<Observation>, unit: Unit, flags: MetricFlags) -> WrittenValue {
    WrittenValue::Metric(MetricCall { distribution, unit, dimensions: vec![], flags })
}

fn counts(values: &[u64]) -> WrittenValue {
    metric(
        values.iter().map(|v| Observation::Unsigned(*v)).collect(),
        Unit::NoUnit,
        MetricFlags::Empty,
    )
}

fn number(v: f64) -> WrittenValue {
    metric(vec![floating(v)], Unit::NoUnit, MetricFlags::Empty)
}

fn text(s: &str) -> WrittenValue {
    WrittenValue::Text(s.to_owned())
}

fn value(name: &str, value: WrittenValue) -> EntryItem {
    EntryItem::Value(name.to_owned(), value)
}

fn at_seconds(seconds: i128) -> EntryItem {
    EntryItem::Timestamp(Timestamp { nanos: seconds * 1_000_000_000 })
}

const NOW: Timestamp = Timestamp { nanos: 5_999_999 };

/// An entry that hands over what a function builds.
struct Items(fn() -> Vec<EntryItem>);

impl Entry for Items {
    fn write(&self) -> Vec<EntryItem> {
        (self.0)()
    }
}

const SIMPLE: Items = Items(|| {
    vec![
        at_seconds(1705312800),
        value("Latency", number(42.5)),
        value("Count", counts(&[10])),
        value("Operation", text("GetItem")),
    ]
});

const REPEATED: Items = Items(|| {
    vec![at_seconds(1705312800), value("AvgLatency", repeated(150.0, 3).write())]
});

fn parsed(json: &str) -> serde_json::Value {
    serde_json::from_str(json).unwrap()
}

fn formatted(items: fn() -> Vec<EntryItem>) -> serde_json::Value {
    parsed(&Json::new().format(&Items(items), NOW).unwrap())
}

#[test]
fn test_simple_entry() {
    let output = Json::new().format(&SIMPLE, NOW).unwrap();
    assert_eq!(
        parsed(&output),
        parsed(
            r#"{
            "timestamp": 1705312800000,
            "metrics": {
                "Latency": { "value": 42.5 },
                "Count": { "value": 10 }
            },
            "properties": { "Operation": "GetItem" }
        }"#
        ),
    );
    // members come in the order in which they were written
    assert_eq!(
        output,
        "{\"timestamp\":1705312800000,\
         \"metrics\":{\"Latency\":{\"value\":42.5},\"Count\":{\"value\":10}},\
         \"properties\":{\"Operation\":\"GetItem\"}}\n"
    );
}

#[test]
fn test_repeated_total_and_count() {
    assert_eq!(
        parsed(&Json::new().format(&REPEATED, NOW).unwrap()),
        parsed(
            r#"{
            "timestamp": 1705312800000,
            "metrics": {
                "AvgLatency": { "value": { "total": 150, "count": 3 } }
            }
        }"#
        ),
    );
}

#[test]
fn test_repeated_with_multiplicity() {
    assert_eq!(
        parsed(&Json::new().format_with_multiplicity(&REPEATED, NOW, Some(5), &compute).unwrap()),
        parsed(
            r#"{
            "timestamp": 1705312800000,
            "metrics": {
                "AvgLatency": { "value": { "total": 150, "count": 15 } }
            }
        }"#
        ),
    );
}

#[test]
fn test_distribution_array() {
    assert_eq!(
        formatted(|| vec![
            at_seconds(0),
            value(
                "ResponseTimes",
                metric(
                    vec![floating(1.0), floating(2.0), floating(3.0)],
                    Unit::Second(NegativeScale::Milli),
                    MetricFlags::Empty,
                ),
            ),
        ]),
        parsed(
            r#"{
            "timestamp": 0,
            "metrics": {
                "ResponseTimes": { "values": [1, 2, 3], "unit": "Milliseconds" }
            }
        }"#
        ),
    );
}

#[test]
fn test_dimensions_are_ignored_in_json() {
    assert_eq!(
        formatted(|| vec![
            at_seconds(0),
            value(
                "Count",
                WithDimension::new(
                    Observation::Unsigned(10),
                    "Region".to_owned(),
                    "us-east-1".to_owned(),
                )
                .write(),
            ),
        ]),
        parsed(
            r#"{
            "timestamp": 0,
            "metrics": {
                "Count": { "value": 10 }
            }
        }"#
        ),
    );
}

#[test]
fn test_flags_are_ignored_in_json() {
    assert_eq!(
        formatted(|| vec![
            at_seconds(0),
            value(
                "Count",
                metric(vec![Observation::Unsigned(10)], Unit::NoUnit, MetricFlags::TestFlag),
            ),
        ]),
        parsed(
            r#"{
            "timestamp": 0,
            "metrics": {
                "Count": { "value": 10 }
            }
        }"#
        ),
    );
}

#[test]
fn test_empty_entry() {
    let json = formatted(|| vec![]);
    assert!(json["timestamp"].is_number());
    assert!(json.get("metrics").is_none());
    assert!(json.get("properties").is_none());
    // an entry without a timestamp is written at the time it is formatted
    assert_eq!(json["timestamp"], 5);
}

#[test]
fn test_json_string_escaping() {
    let json = formatted(|| {
        vec![at_seconds(0), value("msg", text("hello \"world\"\nnewline"))]
    });
    assert_eq!(json["properties"]["msg"], "hello \"world\"\nnewline");
}

#[test]
fn test_json_string_escaping_stress_roundtrip() {
    let json = formatted(|| {
        vec![
            at_seconds(0),
            value(
                "msg",
                text("quote:\" slash:\\ tab:\t newline:\n null:\u{0000} unit-sep:\u{001f} unicode:α"),
            ),
        ]
    });
    assert_eq!(
        json["properties"]["msg"],
        "quote:\" slash:\\ tab:\t newline:\n null:\u{0000} unit-sep:\u{001f} unicode:α"
    );
}

#[test]
fn test_output_is_single_line() {
    let s = Json::new().format(&SIMPLE, NOW).unwrap();
    assert_eq!(s.lines().count(), 1);
    assert!(s.ends_with('\n'));
}

#[test]
fn test_nan_and_infinity() {
    let json = formatted(|| {
        vec![
            value("nan_val", number(f64::NAN)),
            value("inf_val", number(f64::INFINITY)),
            value("neg_inf_val", number(f64::NEG_INFINITY)),
        ]
    });
    assert!(json["metrics"]["nan_val"]["value"].is_null());
    assert!(json["metrics"]["inf_val"]["value"].as_f64().unwrap() > 1e300);
    assert!(json["metrics"]["neg_inf_val"]["value"].as_f64().unwrap() < -1e300);
}

#[test]
fn test_buffer_reuse() {
    let mut format = Json::new();
    let output1 = format.format(&SIMPLE, NOW).unwrap();
    let output2 = format.format(&SIMPLE, NOW).unwrap();
    assert_eq!(output1, output2);
    // nothing is left over from an entry that was refused either
    let refused = Items(|| vec![value("Kept", counts(&[1])), value("", counts(&[1]))]);
    assert!(format.format(&refused, NOW).is_err());
    assert_eq!(format.format(&SIMPLE, NOW).unwrap(), output1);
}

/// Picks the lower of the two whole numbers next to the inverse of a rate as often as their mean
/// asks for.
fn draw(rate: f32, rng: &mut rand_chacha::ChaChaRng) -> Draw {
    let inverse = 1.0 / rate as f64;
    let floor = inverse as u64;
    let alpha = floor.saturating_add(1) as f64 - inverse;
    Draw { floor, lower: rng.random::<f64>() < alpha }
}

/// Formats an entry that was kept at a rate.
fn sampled(entry: &Items, rate: f32) -> Result<String, Vec<ValidationError>> {
    let mut format =
        Json::new().with_sampling_and_rng(rand_chacha::ChaChaRng::seed_from_u64(0));
    let picked = draw(rate, &mut format.rng);
    format.format_with_sample_rate(entry, NOW, rate.to_bits(), picked, &compute)
}

#[test]
fn test_sampled_format_trait() {
    let output = sampled(&REPEATED, 0.1).unwrap();

    // With sampling at 0.1, multiplicity should be ~10 (either 10 or 11),
    // so count = occurrences (3) * multiplicity > 3
    let json = parsed(&output);
    let count = json["metrics"]["AvgLatency"]["value"]["count"].as_u64().unwrap();
    assert!(count >= 30, "expected count >= 30, got {count}");
}

#[test]
fn test_sampled_rate_1_0() {
    let output = sampled(&REPEATED, 1.0).unwrap();

    // At rate 1.0 (no sampling), multiplicity should be 1,
    // so count == occurrences (3), not scaled up.
    assert_eq!(
        parsed(&output),
        parsed(
            r#"{
            "timestamp": 1705312800000,
            "metrics": {
                "AvgLatency": { "value": { "total": 150, "count": 3 } }
            }
        }"#
        ),
    );
}

#[test]
fn every_observation_carries_the_multiplicity() {
    let entry = Items(|| {
        vec![
            at_seconds(0),
            value("Count", counts(&[10])),
            value("Latency", number(1.5)),
            value("Many", counts(&[1, 2])),
            value("Mean", repeated(6.0, 3).write()),
            value("None", number(f64::NAN)),
            value("List", WrittenValue::List(vec![counts(&[7])])),
        ]
    });
    assert_eq!(
        parsed(&sampled(&entry, 0.5).unwrap()),
        parsed(
            r#"{
            "timestamp": 0,
            "metrics": {
                "Count": { "value": { "total": 20, "count": 2 } },
                "Latency": { "value": { "total": 3, "count": 2 } },
                "Many": { "values": [{ "total": 2, "count": 2 }, { "total": 4, "count": 2 }] },
                "Mean": { "value": { "total": 6, "count": 6 } },
                "None": { "value": { "total": null, "count": 2 } }
            },
            "properties": { "List": [7] }
        }"#
        ),
    );
    // at rate one an entry stands for itself alone
    let plain = Json::new().format(&entry, NOW).unwrap();
    assert_eq!(sampled(&entry, 1.0).unwrap(), plain);
    assert_eq!(parsed(&plain)["metrics"]["Count"], parsed(r#"{ "value": 10 }"#));
}

#[test]
fn rates_that_chance_matters_at() {
    assert!(takes_chance(0.4f32.to_bits()));
    assert!(takes_chance(1.0f32.to_bits()));
    assert!(!takes_chance(0.0f32.to_bits()));
    assert!(!takes_chance((-0.5f32).to_bits()));
    assert!(!takes_chance(f32::NAN.to_bits()));
    assert!(!takes_chance(1e-30f32.to_bits()));
}

#[test]
fn entries_that_are_not_sampled_stand_for_themselves() {
    let mut format = Json::new().with_sampling_and_rng(());
    let text = Format::format(&mut format, &SIMPLE, NOW).unwrap();
    assert_eq!(text, Json::new().format(&SIMPLE, NOW).unwrap());
    let emf = || Emf::all_validations("NS".to_owned(), vec![vec![]]);
    let mut format = emf().with_sampling_and_rng(());
    let text = Format::format(&mut format, &SIMPLE, NOW).unwrap();
    assert_eq!(text, emf().format(&SIMPLE, NOW).unwrap());
}

#[test]
fn test_sampled_invalid_rate() {
    assert!(sampled(&SIMPLE, -0.5).is_err());
    assert!(sampled(&SIMPLE, f32::NAN).is_err());
}

#[test]
fn test_vec_emits_json_array() {
    let json = formatted(|| {
        vec![
            at_seconds(0),
            value("Plugins", WrittenValue::List(vec![text("auth"), text("cache")])),
        ]
    });
    assert_eq!(json["properties"]["Plugins"], parsed(r#"["auth", "cache"]"#));
}

#[test]
fn test_single_element_vec_in_json() {
    let json = formatted(|| {
        vec![at_seconds(0), value("Plugins", WrittenValue::List(vec![text("only")]))]
    });
    assert_eq!(json["properties"]["Plugins"], parsed(r#"["only"]"#));
}

#[test]
fn test_empty_vec_in_json() {
    let json =
        formatted(|| vec![at_seconds(0), value("Plugins", WrittenValue::List(vec![]))]);
    assert_eq!(json["properties"]["Plugins"], parsed("[]"));
}

#[test]
fn test_vec_with_none_elements_in_json() {
    let json = formatted(|| {
        vec![
            at_seconds(0),
            value(
                "Tags",
                WrittenValue::List(vec![text("a"), WrittenValue::Nothing, text("c")]),
            ),
        ]
    });
    assert_eq!(json["properties"]["Tags"], parsed(r#"["a", "c"]"#));
}

#[test]
fn test_vec_u64_emits_json_array() {
    let json = formatted(|| {
        vec![
            at_seconds(0),
            value(
                "Counts",
                WrittenValue::List(vec![counts(&[10]), counts(&[20]), counts(&[30])]),
            ),
        ]
    });
    assert_eq!(json["properties"]["Counts"], parsed("[10, 20, 30]"));
}

#[test]
fn test_vec_multi_observation_nests_sub_arrays_in_json() {
    let json = formatted(|| {
        vec![
            at_seconds(0),
            value("Data", WrittenValue::List(vec![counts(&[1, 2, 3]), counts(&[4, 5])])),
        ]
    });
    assert_eq!(json["properties"]["Data"], parsed("[[1, 2, 3], [4, 5]]"));
}

struct NestedObject;

impl Value for NestedObject {
    fn write(&self) -> WrittenValue {
        object_value(self.write_object())
    }
}

impl ObjectValue for NestedObject {
    fn write_object(&self) -> Vec<EntryItem> {
        vec![value("count", counts(&[2])), value("label", text("inner"))]
    }
}

#[test]
fn test_object_properties_emit_as_native_json() {
    let json = formatted(|| {
        vec![
            at_seconds(0),
            value("Context", NestedObject.write()),
            value("List", WrittenValue::List(vec![NestedObject.write()])),
        ]
    });
    assert_eq!(json["properties"]["Context"], parsed(r#"{"count": 2, "label": "inner"}"#));
    assert_eq!(json["properties"]["List"], parsed(r#"[{"count": 2, "label": "inner"}]"#));
}

fn messages(errors: Vec<ValidationError>) -> Vec<String> {
    errors.iter().map(|e| e.message()).collect()
}

#[test]
fn what_json_refuses() {
    let refused = Items(|| {
        vec![
            at_seconds(0),
            value("", counts(&[1])),
            value("bad", WrittenValue::Error(ValidationError::invalid("no value"))),
            at_seconds(1),
        ]
    });
    assert_eq!(
        messages(Json::new().format(&refused, NOW).unwrap_err()),
        ["for ``: name can't be empty", "for `bad`: no value", "timestamp set more than once"]
    );
    // a name may come twice, and a metric without numbers leaves no trace
    let accepted = Items(|| {
        vec![
            at_seconds(-1),
            value("n", counts(&[1])),
            value("n", counts(&[2])),
            value("none", counts(&[])),
        ]
    });
    assert_eq!(
        Json::new().format(&accepted, NOW).unwrap(),
        "{\"timestamp\":0,\"metrics\":{\"n\":{\"value\":1},\"n\":{\"value\":2}}}\n"
    );
}
