use metrique::entry::{Entry, EntryItem, Timestamp};
use metrique::flags::MetricFlags;
use metrique::float::Float;
use metrique::local::collect::LocalOps;
use metrique::local::format::{LocalFormat, OutputStyle};
use metrique::local::percentile::{
    compute_percentiles, default_percentiles, total_count, Percentile, WeightedObservation,
};
use metrique::local::pretty::{signed_text, DoubleMath};
use metrique::local::tree::{object_to_text, sort_json_keys, JsonTree};
use metrique::unit::{NegativeScale, PositiveScale, Unit};
use metrique::validate::ValidationError;
use metrique::value::{MetricCall, Observation, WrittenValue};

fn float(v: f64) -> Float {
    Float::new(
        v.to_bits(),
        |bits: u64| dtoa::Buffer::new().format_finite(f64::from_bits(bits)).to_owned(),
        |bits: u64| format!("{}", f64::from_bits(bits)),
    )
}

fn floating(v: f64) -> Observation {
    Observation::Floating(float(v))
}

fn repeated(total: f64, occurrences: u64) -> Observation {
    Observation::repeated(float(total), occurrences, |bits: u64, n: u64| {
        float(f64::from_bits(bits) / n as f64)
    })
}

fn metric(distribution: Vec<Observation>, unit: Unit, flags: MetricFlags) -> WrittenValue {
    WrittenValue::Metric(MetricCall { distribution, unit, dimensions: vec![], flags })
}

fn value(name: &str, value: WrittenValue) -> EntryItem {
    EntryItem::Value(name.to_owned(), value)
}

fn text(s: &str) -> WrittenValue {
    WrittenValue::Text(s.to_owned())
}

/// An entry that hands over what a function builds.
struct Items(fn() -> Vec<EntryItem>);

impl Entry for Items {
    fn write(&self) -> Vec<EntryItem> {
        (self.0)()
    }
}

fn divide(bits: u64, by: u64) -> u64 {
    (f64::from_bits(bits) / by as f64).to_bits()
}

fn multiply(bits: u64, by: u64) -> u64 {
    (f64::from_bits(bits) * by as f64).to_bits()
}

fn fixed(bits: u64, digits: usize) -> String {
    format!("{:.*}", digits, f64::from_bits(bits))
}

fn pretty_value(v: f64, unit: Unit) -> String {
    DoubleMath { divide, multiply, fixed }.format_pretty_value(v.to_bits(), unit)
}

fn show(format: &LocalFormat, entry: &impl Entry) -> String {
    let ops = LocalOps {
        pretty: |bits: u64, unit: Unit| pretty_value(f64::from_bits(bits), unit),
        rank: |count: u64, fraction: u64| {
            (count as f64 * f64::from_bits(fraction)).ceil() as u64
        },
        seconds: |nanos: i128| (nanos as f64 / 1e9).to_bits(),
        number: |bits: u64| serde_json::Number::from_f64(f64::from_bits(bits)),
        time: |nanos: i128| format!("{nanos}ns"),
    };
    format.format(entry, &ops)
}

const SIMPLE: Items = Items(|| {
    vec![
        value("operation", text("GetUser")),
        value(
            "latency",
            metric(vec![floating(42.5)], Unit::Second(NegativeScale::Milli), MetricFlags::Empty),
        ),
    ]
});

#[test]
fn test_pretty_single_value() {
    let output = show(&LocalFormat::new(OutputStyle::Pretty), &SIMPLE);
    assert!(output.contains("operation: GetUser"));
    assert!(output.contains("latency: 42.500ms"));
    assert_eq!(output, "---\n  operation: GetUser\n  latency: 42.500ms\n");
}

#[test]
fn test_json_output() {
    let output = show(&LocalFormat::json(), &SIMPLE);
    let parsed: serde_json::Value = serde_json::from_str(output.trim()).unwrap();
    assert_eq!(parsed["operation"], "GetUser");
    assert_eq!(parsed["latency_unit"], "Milliseconds");
    assert_eq!(parsed["latency"], 42.5);
}

#[test]
fn test_markdown_table() {
    let output = show(&LocalFormat::new(OutputStyle::MarkdownTable), &SIMPLE);
    assert!(output.contains("| Name"));
    assert!(output.contains("operation"));
    assert_eq!(
        output,
        "| Name      | Value    |\n\
         | --------- | -------- |\n\
         | operation | GetUser  |\n\
         | latency   | 42.500ms |\n"
    );
}

#[test]
fn test_histogram_percentiles() {
    let entry = Items(|| {
        vec![value(
            "latency",
            metric(
                (1..=10).map(|v| floating(v as f64)).collect(),
                Unit::NoUnit,
                MetricFlags::Empty,
            ),
        )]
    });
    let output = show(&LocalFormat::new(OutputStyle::Pretty), &entry);
    assert!(output.contains("10 samples"));
    assert!(output.contains("min:"));
    assert!(output.contains("max:"));
    assert!(output.contains("p50:"));
    assert!(output.contains("p99:"));
    assert_eq!(
        output,
        "---\n  latency (10 samples):\n    min: 1\n    p50: 5\n    p99: 10\n    p99.9: 10\n    \
         max: 10\n"
    );
}

#[test]
fn test_smart_duration_display() {
    let math = DoubleMath { divide, multiply, fixed };
    let format_duration_smart = |v: f64| math.format_duration_smart(v.to_bits());
    assert_eq!(format_duration_smart(0.0), "0s");
    assert_eq!(format_duration_smart(1.5), "1.500s");
    assert_eq!(format_duration_smart(0.042), "42.000ms");
    assert_eq!(format_duration_smart(0.000_042), "42.000μs");
    assert_eq!(format_duration_smart(-0.0), "0s");
    assert_eq!(format_duration_smart(-1.5), "-1.500s");
    assert_eq!(format_duration_smart(0.001), "1.000ms");
    assert_eq!(format_duration_smart(f64::NAN), "NaNμs");
}

#[test]
fn test_smart_bytes_display() {
    let math = DoubleMath { divide, multiply, fixed };
    let format_bytes_smart = |v: f64| math.format_bytes_smart(v.to_bits());
    assert_eq!(format_bytes_smart(0.0), "0B");
    assert_eq!(format_bytes_smart(512.0), "512B");
    assert_eq!(format_bytes_smart(1_500.0), "1.50KB");
    assert_eq!(format_bytes_smart(2_500_000.0), "2.50MB");
    assert_eq!(format_bytes_smart(3_000_000_000.0), "3.00GB");
    assert_eq!(format_bytes_smart(-1_000.0), "-1.00KB");
}

#[test]
fn values_in_units() {
    assert_eq!(pretty_value(2.0, Unit::Byte(PositiveScale::Mega)), "2.00MB");
    assert_eq!(pretty_value(12.34, Unit::Percent), "12.3%");
    assert_eq!(pretty_value(7.0, Unit::Count), "7");
    assert_eq!(pretty_value(-7.0, Unit::Count), "-7");
    assert_eq!(pretty_value(7.25, Unit::Count), "7.25");
    assert_eq!(pretty_value(1e30, Unit::Count), "9223372036854775807");
    assert_eq!(pretty_value(1e30, Unit::NoUnit), "1000000000000000019884624838656.000");
    assert_eq!(pretty_value(0.5, Unit::NoUnit), "0.500");
    assert_eq!(pretty_value(3.0, Unit::Bit(PositiveScale::Kilo)), "3.000 Kilobits");
    assert_eq!(signed_text(i64::MIN), "-9223372036854775808");
}

fn observation(v: f64, weight: u64) -> WeightedObservation {
    WeightedObservation {
        value: v.to_bits(),
        weight,
        text: format!("{v}"),
        json: JsonTree::Null,
    }
}

#[test]
fn test_percentile_computation() {
    let data: Vec<WeightedObservation> = (1..=100).map(|i| observation(i as f64, 1)).collect();
    let percentiles = default_percentiles();
    let count = total_count(&data);
    let targets: Vec<u64> = percentiles
        .iter()
        .map(|p| match f64::from_bits(p.fraction) {
            f if f <= 0.0 => 0,
            f if f >= 1.0 => count,
            f => (count as f64 * f).ceil() as u64,
        })
        .collect();
    let pcts: Vec<(&str, f64)> = compute_percentiles(&data, &targets)
        .into_iter()
        .zip(&percentiles)
        .map(|(i, p)| (p.label.as_str(), f64::from_bits(data[i].value)))
        .collect();
    assert_eq!(pcts[0], ("min", 1.0));
    assert_eq!(pcts[4], ("max", 100.0));
    // p50 should be around 50
    assert!((pcts[1].1 - 50.0).abs() <= 1.0);
}

#[test]
fn weights_count() {
    let data = vec![observation(3.0, 5), observation(1.0, 1), observation(2.0, 4)];
    assert_eq!(total_count(&data), 10);
    let values: Vec<f64> = compute_percentiles(&data, &vec![0, 1, 2, 5, 6, 10])
        .into_iter()
        .map(|i| f64::from_bits(data[i].value))
        .collect();
    assert_eq!(values, [1.0, 1.0, 2.0, 2.0, 3.0, 3.0]);
    assert!(compute_percentiles(&vec![], &vec![0, 1]).is_empty());
}

#[test]
fn percentiles_do_not_depend_on_the_order_of_observations() {
    let targets = vec![0, 1, 2, 3, 6, 7, 11, 12, 50];
    let made = [(3.0, 5), (1.0, 1), (2.0, 4), (1.0, 1)];
    for order in [[0, 1, 2, 3], [3, 2, 1, 0], [1, 3, 0, 2], [2, 0, 3, 1]] {
        let data: Vec<WeightedObservation> =
            order.iter().map(|i| observation(made[*i as usize].0, made[*i as usize].1)).collect();
        let values: Vec<f64> = compute_percentiles(&data, &targets)
            .into_iter()
            .map(|i| f64::from_bits(data[i].value))
            .collect();
        assert_eq!(values, [1.0, 1.0, 1.0, 2.0, 2.0, 3.0, 3.0, 3.0, 3.0]);
    }
}

#[test]
fn labels_of_percentiles() {
    let label = |f: f64| {
        Percentile::new(
            f.to_bits(),
            |bits: u64| {
                let v = f64::from_bits(bits);
                format!("{v}e2").parse::<f64>().unwrap_or(v * 100.0).to_bits()
            },
            |bits: u64| format!("{}", f64::from_bits(bits)),
        )
        .label
    };
    assert_eq!(label(0.0), "min");
    assert_eq!(label(-3.0), "min");
    assert_eq!(label(1.0), "max");
    assert_eq!(label(7.0), "max");
    assert_eq!(label(0.5), "p50");
    assert_eq!(label(0.99), "p99");
    assert_eq!(label(0.999), "p99.9");
    assert_eq!(label(0.29), "p29");
    assert_eq!(label(f64::NAN), "pNaN");
    // the default ones are what their fractions give
    for p in default_percentiles() {
        assert_eq!(label(f64::from_bits(p.fraction)), p.label);
    }
}

/// A single repeated observation with the flag for distributions, which is what a histogram
/// writes when all of its samples are in one bucket.
#[test]
fn distribution_flag_forces_histogram_display() {
    let entry = Items(|| {
        vec![value(
            "latency",
            metric(vec![repeated(5000.0, 1000)], Unit::NoUnit, MetricFlags::Distribution),
        )]
    });
    let output = show(&LocalFormat::new(OutputStyle::Pretty), &entry);
    assert!(output.contains("1000 samples"), "output was: {output}");
    assert!(output.contains("min:"));
    assert!(output.contains("max:"));
}

const FULL: Items = Items(|| {
    vec![
        EntryItem::Timestamp(Timestamp { nanos: 1_500_000_000 }),
        value("z", text("last")),
        value("missing", WrittenValue::Nothing),
        value("bad", WrittenValue::Error(ValidationError::invalid("no value"))),
        value(
            "m",
            WrittenValue::Metric(MetricCall {
                distribution: vec![repeated(6.0, 3), repeated(1.0, 0), floating(1.0)],
                unit: Unit::Count,
                dimensions: vec![
                    ("b".to_owned(), "2".to_owned()),
                    ("a".to_owned(), "1".to_owned()),
                ],
                flags: MetricFlags::Empty,
            }),
        ),
        value("list", WrittenValue::List(vec![text("x"), text("y")])),
    ]
});

#[test]
fn everything_in_one_entry() {
    assert_eq!(
        show(&LocalFormat::new(OutputStyle::Pretty), &FULL),
        "---\n  timestamp: 1970-01-01T00:00:01.5Z\n  z: last\n  bad: ERROR: no value\n  \
         m [b=2, a=1]:\n    (4 samples):\n    min: 1\n    p50: 2\n    p99: 2\n    p99.9: 2\n    \
         max: 2\n  list: x,y\n"
    );
    assert_eq!(
        show(&LocalFormat::compact_json(), &FULL),
        "{\"bad\":\"ERROR: no value\",\"list\":\"x,y\",\
         \"m\":{\"count\":4,\"max\":2,\"min\":1,\"p50\":2,\"p99\":2,\"p99.9\":2},\
         \"m_dimensions\":{\"a\":\"1\",\"b\":\"2\"},\"m_unit\":\"Count\",\"timestamp\":1.5,\
         \"timestamp_iso\":\"1970-01-01T00:00:01.5Z\",\"z\":\"last\"}\n"
    );
    assert_eq!(
        show(&LocalFormat::new(OutputStyle::markdown_table()), &FULL)
            .lines()
            .map(|l| l.split('|').map(str::trim).collect::<Vec<_>>().join("|"))
            .collect::<Vec<_>>()[2..],
        [
            "|timestamp|1970-01-01T00:00:01.5Z|",
            "|z|last|",
            "|bad|ERROR: no value|",
            "|m.b|2|",
            "|m.a|1|",
            "|m.min|1|",
            "|m.p50|2|",
            "|m.p99|2|",
            "|m.p99.9|2|",
            "|m.max|2|",
            "|m.count|4|",
            "|list|x,y|",
        ]
    );
}

#[test]
fn numbers_in_json() {
    let entry = Items(|| {
        vec![
            value("nan", metric(vec![floating(f64::NAN)], Unit::NoUnit, MetricFlags::Empty)),
            value("half", metric(vec![floating(-0.5)], Unit::NoUnit, MetricFlags::Empty)),
            value("huge", metric(vec![floating(1e30)], Unit::NoUnit, MetricFlags::Empty)),
            value("none", metric(vec![], Unit::NoUnit, MetricFlags::Empty)),
            value(
                "many",
                metric(vec![floating(1.25), floating(0.25)], Unit::NoUnit, MetricFlags::Empty),
            ),
        ]
    });
    assert_eq!(
        show(&LocalFormat::compact_json(), &entry),
        "{\"half\":-0.5,\"huge\":1e+30,\
         \"many\":{\"count\":2,\"max\":1.25,\"min\":0.25,\"p50\":0.25,\"p99\":1.25,\
         \"p99.9\":1.25},\"nan\":null,\"none\":0}\n"
    );
}

#[test]
fn times_outside_the_range_of_dates() {
    let entry = Items(|| vec![EntryItem::Timestamp(Timestamp { nanos: i128::MAX })]);
    assert_eq!(
        show(&LocalFormat::new(OutputStyle::Pretty), &entry),
        format!("---\n  timestamp: {}ns\n", i128::MAX)
    );
    // nothing before the epoch is shown in JSON
    let entry = Items(|| vec![EntryItem::Timestamp(Timestamp { nanos: -1 })]);
    assert_eq!(show(&LocalFormat::compact_json(), &entry), "{}\n");
}

#[test]
fn percentiles_can_be_chosen() {
    let format = LocalFormat::new(OutputStyle::pretty()).percentiles(vec![Percentile {
        label: "p75".to_owned(),
        fraction: 0.75f64.to_bits(),
    }]);
    let entry = Items(|| {
        vec![value(
            "m",
            metric((1..=4).map(|v| floating(v as f64)).collect(), Unit::Count, MetricFlags::Empty),
        )]
    });
    assert_eq!(show(&format, &entry), "---\n  m (4 samples):\n    p75: 3\n");
}

#[test]
fn keys_are_sorted_at_every_level() {
    let members = || {
        vec![
            ("b".to_owned(), JsonTree::Int(-1)),
            (
                "a".to_owned(),
                JsonTree::Object(vec![
                    ("y".to_owned(), JsonTree::Count(2)),
                    ("x".to_owned(), JsonTree::Text("t".to_owned())),
                ]),
            ),
        ]
    };
    let sorted = sort_json_keys(members());
    assert_eq!(sorted[0].0, "a");
    assert_eq!(sorted[1].0, "b");
    assert_eq!(
        object_to_text(sorted, true),
        "{\"a\":{\"x\":\"t\",\"y\":2},\"b\":-1}"
    );
    assert_eq!(
        object_to_text(sort_json_keys(members()), false),
        "{\n  \"a\": {\n    \"x\": \"t\",\n    \"y\": 2\n  },\n  \"b\": -1\n}"
    );
}
