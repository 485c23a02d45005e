use metrique::dimension::WithGlobalDimensions;
use metrique::emf::format::Emf;
use metrique::entry::{Entry, EntryConfig, EntryItem, Timestamp};
use metrique::flags::MetricFlags;
use metrique::float::Float;
use metrique::traits::{object_value, ObjectValue};
use metrique::unit::{NegativeScale, Unit};
use metrique::value::{MetricCall, Observation, WrittenValue};

fn float(v: f64) -> Float {
    Float::new(
        v.to_bits(),
        |bits: u64| dtoa::Buffer::new().format_finite(f64::from_bits(bits)).to_owned(),
        |bits: u64| format!("{}", f64::from_bits(bits)),
    )
}

fn metric(distribution: Vec<Observation>, unit: Unit) -> WrittenValue {
    WrittenValue::Metric(MetricCall {
        distribution,
        unit,
        dimensions: vec![],
        flags: MetricFlags::Empty,
    })
}

fn counts(values: &[u64]) -> WrittenValue {
    metric(values.iter().map(|v| Observation::Unsigned(*v)).collect(), Unit::NoUnit)
}

fn millis(v: f64) -> WrittenValue {
    metric(vec![Observation::Floating(float(v))], Unit::Second(NegativeScale::Milli))
}

fn text(s: &str) -> WrittenValue {
    WrittenValue::Text(s.to_owned())
}

fn value(name: &str, value: WrittenValue) -> EntryItem {
    EntryItem::Value(name.to_owned(), value)
}

fn pair(name: &str, instance: &str) -> (String, String) {
    (name.to_owned(), instance.to_owned())
}

fn at_one_second() -> EntryItem {
    EntryItem::Timestamp(Timestamp { nanos: 1_000_000_000 })
}

const EPOCH: Timestamp = Timestamp { nanos: 0 };

fn parsed(text: &str) -> serde_json::Value {
    serde_json::from_str(text).unwrap()
}

/// What an entry is written as in the namespace `MyApp`, line by line, parsed.
fn written_in(namespace: &str, entry: &impl Entry) -> Vec<serde_json::Value> {
    let output = Emf::all_validations(namespace.to_owned(), vec![vec![]])
        .format(entry, EPOCH)
        .unwrap();
    assert!(output.ends_with('\n'));
    output.lines().map(parsed).collect()
}

struct Empty;

impl Entry for Empty {
    fn write(&self) -> Vec<EntryItem> {
        panic!("Not to be called in this test!");
    }
}

#[test]
fn test_global_dimensions_denylist() {
    let mut entry = WithGlobalDimensions::<_, 1>::new_with_global_dimensions(
        Empty,
        vec![],
        vec!["NonDimMetric".to_owned()],
    );
    assert!(entry.global_dimensions_denylist().contains("NonDimMetric"));
    assert!(!entry.global_dimensions_denylist().contains("Metric"));

    entry.clear_global_dimensions_denylist();
    assert!(!entry.global_dimensions_denylist().contains("NonDimMetric"));
    assert!(entry.global_dimensions_denylist().is_empty());

    let entry: WithGlobalDimensions<Empty, 1> = Empty.into();
    assert!(entry.global_dimensions_denylist().is_empty());
    assert_eq!(entry.global_dimensions(), []);
}

#[test]
fn test_deref_and_deref_mut_for_global_dimensions() {
    let mut entry = WithGlobalDimensions::<_, 1>::new_with_global_dimensions(
        Empty,
        vec![pair("AZ", "us-east-1a")],
        vec![],
    );
    assert_eq!(entry.global_dimensions(), [pair("AZ", "us-east-1a")]);
    entry.clear_global_dimensions();
    assert_eq!(entry.global_dimensions(), []);
}

#[test]
fn test_global_dimensions() {
    let mut entry = WithGlobalDimensions::<_, 2>::new_with_global_dimensions(
        Empty,
        vec![pair("AZ", "us-east-1a")],
        vec![],
    );
    entry.add_global_dimension("cell".to_owned(), "cell1".to_owned());
    assert_eq!(entry.global_dimensions(), [pair("AZ", "us-east-1a"), pair("cell", "cell1")]);

    entry.clear_global_dimensions();
    assert_eq!(entry.global_dimensions(), []);
}

struct SplitEntry;

impl Entry for SplitEntry {
    fn write(&self) -> Vec<EntryItem> {
        vec![
            EntryItem::Config(EntryConfig::AllowSplitEntries),
            EntryItem::Timestamp(Timestamp { nanos: 12_345_678_900_000 }),
            value("Time", millis(42.0)),
            value("Operation", text("Foo")),
            value("BasicIntCount", counts(&[1234])),
            value("NonDimMetric", counts(&[1235])),
        ]
    }
}

fn assert_global_dimensions(entry: &impl Entry) {
    let lines = written_in("MyApp", entry);
    assert_eq!(
        lines,
        vec![
            parsed(
                r#"{
                "_aws": {
                    "CloudWatchMetrics": [
                        {
                            "Namespace": "MyApp",
                            "Dimensions": [["AZ"]],
                            "Metrics": [
                                {"Name":"Time","Unit":"Milliseconds"},
                                {"Name":"BasicIntCount"}
                            ]
                        }
                    ],
                    "Timestamp":12345678
                },
                "AZ": "us-east-1a",
                "Time": 42,
                "BasicIntCount": 1234,
                "Operation": "Foo"
            }"#
            ),
            parsed(
                r#"{
                "_aws": {
                    "CloudWatchMetrics": [
                        {
                            "Namespace": "MyApp",
                            "Dimensions": [[]],
                            "Metrics" :[{"Name": "NonDimMetric"}]
                        }
                    ],
                    "Timestamp": 12345678
                },
                "NonDimMetric": 1235,
                "Operation": "Foo"
            }"#
            ),
        ]
    );
}

#[test]
fn test_adds_global_dimensions_emf() {
    let entry = WithGlobalDimensions::<_, 1>::new_with_global_dimensions(
        SplitEntry,
        vec![pair("AZ", "us-east-1a")],
        vec!["NonDimMetric".to_owned()],
    );
    assert_global_dimensions(&entry);
}

#[test]
fn test_merge_global_dimensions_emf() {
    // dimensions that come one by one, as a stream adds them to each entry
    let mut entry = WithGlobalDimensions::<_, 1>::new_with_global_dimensions(
        SplitEntry,
        vec![],
        vec!["NonDimMetric".to_owned()],
    );
    entry.add_global_dimension("AZ".to_owned(), "us-east-1a".to_owned());
    assert_global_dimensions(&entry);
}

/// An entry after values that all entries share.
struct Merged<G, E>(G, E);

impl<G: Entry, E: Entry> Entry for Merged<G, E> {
    fn write(&self) -> Vec<EntryItem> {
        let mut items = self.0.write();
        items.extend(self.1.write());
        items
    }
}

struct Globals {
    version: String,
}

impl Entry for Globals {
    fn write(&self) -> Vec<EntryItem> {
        vec![value("Version", text(&self.version))]
    }
}

#[test]
fn test_merge_globals_and_merge_global_dimensions() {
    let entry = Merged(
        Globals { version: "1.0.0".to_owned() },
        WithGlobalDimensions::<_, 2>::new_with_global_dimensions(
            SplitEntry,
            vec![pair("AZ", "us-east-1a")],
            vec!["Time".to_owned(), "NonDimMetric".to_owned()],
        ),
    );
    assert_eq!(
        written_in("MyApp", &entry),
        vec![
            parsed(
                r#"{
                "_aws": {
                    "CloudWatchMetrics": [
                        {
                            "Namespace": "MyApp",
                            "Dimensions": [["AZ"]],
                            "Metrics": [
                                {"Name":"BasicIntCount"}
                            ]
                        }
                    ],
                    "Timestamp":12345678
                },
                "AZ": "us-east-1a",
                "BasicIntCount": 1234,
                "Version": "1.0.0",
                "Operation": "Foo"
            }"#
            ),
            parsed(
                r#"{
                "_aws": {
                    "CloudWatchMetrics": [
                        {
                            "Namespace": "MyApp",
                            "Dimensions": [[]],
                            "Metrics" :[{"Name": "Time", "Unit": "Milliseconds"}, {"Name": "NonDimMetric"}]
                        }
                    ],
                    "Timestamp": 12345678
                },
                "Time": 42,
                "NonDimMetric": 1235,
                "Version": "1.0.0",
                "Operation": "Foo"
            }"#
            ),
        ]
    );
}

struct Detail;

impl ObjectValue for Detail {
    fn write_object(&self) -> Vec<EntryItem> {
        vec![value("shard", text("blue")), value("attempt", counts(&[3]))]
    }
}

struct ContextEntry;

impl Entry for ContextEntry {
    fn write(&self) -> Vec<EntryItem> {
        vec![value("context", object_value(Detail.write_object()))]
    }
}

// Objects stay objects under dimensions; they do not become strings.
#[test]
fn test_object_values_preserved_through_global_dimensions() {
    let entry = WithGlobalDimensions::<_, 1>::new_with_global_dimensions(
        ContextEntry,
        vec![pair("AZ", "us-east-1a")],
        vec![],
    );
    let json = &written_in("MyApp", &entry)[0];
    assert_eq!(json["context"], parsed(r#"{"shard": "blue", "attempt": 3}"#));
}

struct CountEntry {
    count: u64,
}

impl Entry for CountEntry {
    fn write(&self) -> Vec<EntryItem> {
        vec![
            EntryItem::Timestamp(Timestamp { nanos: 12_345_678_900_000 }),
            value("Time", millis(42.0)),
            value("Operation", text("Foo")),
            value("BasicIntCount", counts(&[self.count])),
        ]
    }
}

#[test]
fn test_output_to_make_writer() {
    let emf = Emf::all_validations("MyApp".to_owned(), vec![vec![]]);
    // 2 entries to make sure both are written in full
    let output = [
        emf.format(&CountEntry { count: 1 }, EPOCH).unwrap(),
        emf.format(&CountEntry { count: 2 }, EPOCH).unwrap(),
    ];
    assert_eq!(output.len(), 2);
    assert_eq!(
        parsed(&output[0]),
        parsed(
            r#"{
            "_aws": {
                "CloudWatchMetrics": [{
                    "Namespace": "MyApp",
                    "Dimensions": [[]],
                    "Metrics": [
                        {"Name": "Time", "Unit": "Milliseconds"},
                        {"Name":"BasicIntCount"}
                    ]
                }],
                "Timestamp": 12345678
            },
            "Time": 42,
            "BasicIntCount": 1,
            "Operation":"Foo"
        }"#
        )
    );
    assert_eq!(
        parsed(&output[1]),
        parsed(
            r#"{
            "_aws": {
                "CloudWatchMetrics": [{
                    "Namespace": "MyApp",
                    "Dimensions": [[]],
                    "Metrics": [
                        {"Name": "Time", "Unit": "Milliseconds"},
                        {"Name":"BasicIntCount"}
                    ]
                }],
                "Timestamp": 12345678
            },
            "Time": 42,
            "BasicIntCount": 2,
            "Operation":"Foo"
        }"#
        )
    );
}

/// An entry with one list, at one second after the epoch.
struct ListEntry {
    name: &'static str,
    list: fn() -> Vec<WrittenValue>,
}

impl Entry for ListEntry {
    fn write(&self) -> Vec<EntryItem> {
        vec![at_one_second(), value(self.name, WrittenValue::List((self.list)()))]
    }
}

fn list_in_emf(name: &'static str, list: fn() -> Vec<WrittenValue>) -> serde_json::Value {
    written_in("App", &ListEntry { name, list })[0][name].clone()
}

#[test]
fn test_vec_emits_json_array_in_emf() {
    assert_eq!(
        list_in_emf("Plugins", || vec![text("auth"), text("logging"), text("cache")]),
        parsed(r#"["auth", "logging", "cache"]"#)
    );
}

#[test]
fn test_empty_vec_emits_empty_array_in_emf() {
    assert_eq!(list_in_emf("Plugins", || vec![]), parsed("[]"));
}

#[test]
fn test_vec_with_none_elements_skips_them_in_emf() {
    assert_eq!(
        list_in_emf("Tags", || vec![text("a"), WrittenValue::Nothing, text("c")]),
        parsed(r#"["a", "c"]"#)
    );
}

#[test]
fn test_single_element_vec_in_emf() {
    assert_eq!(list_in_emf("Plugins", || vec![text("only")]), parsed(r#"["only"]"#));
}

#[test]
fn test_vec_u64_emits_json_array_in_emf() {
    assert_eq!(
        list_in_emf("Counts", || vec![counts(&[10]), counts(&[20]), counts(&[30])]),
        parsed("[10, 20, 30]")
    );
}

#[test]
fn test_single_u64_vec_in_emf() {
    assert_eq!(list_in_emf("Counts", || vec![counts(&[42])]), parsed("[42]"));
}

#[test]
fn test_empty_u64_vec_in_emf() {
    assert_eq!(list_in_emf("Counts", || vec![]), parsed("[]"));
}

#[test]
fn test_vec_multi_observation_nests_sub_arrays_in_emf() {
    assert_eq!(
        list_in_emf("Data", || vec![counts(&[1, 2, 3]), counts(&[4, 5])]),
        parsed("[[1, 2, 3], [4, 5]]")
    );
}

#[test]
fn test_vec_single_observation_stays_scalar_in_emf() {
    assert_eq!(
        list_in_emf("Data", || vec![counts(&[10]), counts(&[20])]),
        parsed("[10, 20]")
    );
}

/// A phase and its parts.
struct Phase {
    phase_type: &'static str,
    duration: u64,
    children: Vec<Phase>,
}

fn phases(list: &[Phase]) -> WrittenValue {
    WrittenValue::List(list.iter().map(|p| object_value(p.write_object())).collect())
}

impl ObjectValue for Phase {
    fn write_object(&self) -> Vec<EntryItem> {
        let mut items = vec![
            value("Type", text(self.phase_type)),
            value("Duration", counts(&[self.duration])),
        ];
        if !self.children.is_empty() {
            items.push(value("Phases", phases(&self.children)));
        }
        items
    }
}

struct ObjectEntry {
    phase: Phase,
}

impl Entry for ObjectEntry {
    fn write(&self) -> Vec<EntryItem> {
        vec![
            at_one_second(),
            value("RequestId", text("abc-123")),
            value("RootPhase", object_value(self.phase.write_object())),
        ]
    }
}

#[test]
fn test_object_renders_as_native_json_in_emf() {
    let entry = ObjectEntry {
        phase: Phase { phase_type: "parse_expr", duration: 11, children: vec![] },
    };
    let output = &written_in("App", &entry)[0];

    // The object should appear as a native JSON object in the body
    assert_eq!(output["RootPhase"], parsed(r#"{"Type": "parse_expr", "Duration": 11}"#));

    // The object fields must NOT appear in _aws CloudWatchMetrics
    let metrics = output["_aws"]["CloudWatchMetrics"][0]["Metrics"].as_array().unwrap();
    for m in metrics {
        let name = m["Name"].as_str().unwrap();
        assert_ne!(name, "Type");
        assert_ne!(name, "Duration");
        assert_ne!(name, "RootPhase");
    }
}

struct TreeEntry {
    phases: Vec<Phase>,
}

impl Entry for TreeEntry {
    fn write(&self) -> Vec<EntryItem> {
        vec![
            at_one_second(),
            value("RequestId", text("xyz-789")),
            value("Phases", phases(&self.phases)),
        ]
    }
}

fn phase(phase_type: &'static str, duration: u64, children: Vec<Phase>) -> Phase {
    Phase { phase_type, duration, children }
}

#[test]
fn test_recursive_object_tree_in_emf() {
    let entry = TreeEntry {
        phases: vec![
            phase("parse_expr", 11, vec![]),
            phase(
                "eval",
                22,
                vec![phase(
                    "multiply",
                    33,
                    vec![phase("add", 44, vec![]), phase("sub", 55, vec![])],
                )],
            ),
        ],
    };
    let output = &written_in("App", &entry)[0];

    // Verify the recursive structure
    assert_eq!(
        output["Phases"],
        parsed(
            r#"[
            {"Type": "parse_expr", "Duration": 11},
            {
                "Type": "eval",
                "Duration": 22,
                "Phases": [
                    {
                        "Type": "multiply",
                        "Duration": 33,
                        "Phases": [
                            {"Type": "add", "Duration": 44},
                            {"Type": "sub", "Duration": 55}
                        ]
                    }
                ]
            }
        ]"#
        )
    );

    // Verify no _aws metric directives reference any object fields
    assert_eq!(output["_aws"]["CloudWatchMetrics"][0]["Metrics"], parsed("[]"));
}

/// A phase with a metric in a unit, which is a bare number inside an object.
struct PhaseWithMetric {
    name: &'static str,
    latency_ms: u64,
}

impl ObjectValue for PhaseWithMetric {
    fn write_object(&self) -> Vec<EntryItem> {
        vec![
            value("Name", text(self.name)),
            value(
                "Latency",
                metric(
                    vec![Observation::Unsigned(self.latency_ms)],
                    Unit::Second(NegativeScale::Milli),
                ),
            ),
        ]
    }
}

struct MetricInObjectEntry {
    phase: PhaseWithMetric,
}

impl Entry for MetricInObjectEntry {
    fn write(&self) -> Vec<EntryItem> {
        vec![at_one_second(), value("Phase", object_value(self.phase.write_object()))]
    }
}

#[test]
fn test_metric_inside_object_renders_as_bare_number() {
    let entry =
        MetricInObjectEntry { phase: PhaseWithMetric { name: "db_query", latency_ms: 42 } };
    let output = &written_in("App", &entry)[0];

    // The metric should appear as a bare number inside the object
    assert_eq!(output["Phase"], parsed(r#"{"Name": "db_query", "Latency": 42}"#));

    // No _aws metric for "Latency" or "Phase"
    let metrics = output["_aws"]["CloudWatchMetrics"][0]["Metrics"].as_array().unwrap();
    for m in metrics {
        let name = m["Name"].as_str().unwrap();
        assert_ne!(name, "Latency");
        assert_ne!(name, "Phase");
    }
}

struct Nested;

impl Entry for Nested {
    fn write(&self) -> Vec<EntryItem> {
        vec![
            at_one_second(),
            value("List", WrittenValue::List(vec![text("a\"b"), counts(&[1, 2])])),
        ]
    }
}

// A list stays a list where dimensions are added to it.
#[test]
fn lists_under_dimensions_stay_lists() {
    let entry = WithGlobalDimensions::<_, 1>::new_with_global_dimensions(
        Nested,
        vec![pair("AZ", "us-east-1a")],
        vec![],
    );
    assert_eq!(written_in("App", &Nested)[0]["List"], parsed(r#"["a\"b",[1,2]]"#));
    assert_eq!(written_in("App", &entry)[0]["List"], parsed(r#"["a\"b",[1,2]]"#));
}
