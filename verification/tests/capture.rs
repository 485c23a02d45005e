use metrique::aggregate::CloseValue;
use metrique::emf::format::Emf;
use metrique::entry::{Entry, EntryConfig, EntryItem, Timestamp};
use metrique::flags::{FlagConstructor, MetricFlags};
use metrique::float::Float;
use metrique::formatter::{AsObject, Each, FormattedShape, ValueFormatter};
use metrique::guard::{
    append_and_close, close_shared, AttachUnit, NoAllocAppendOnDrop, RootEntry, SharedChild,
};
use metrique::test_util::{
    render_entry_sink, to_test_entry, Inspector, Metric, TestFlagCtor, TestObject, TestObjectValue,
};
use metrique::traits::{object_value, ObjectValue, Value};
use metrique::unit::Unit;
use metrique::unit_tags::Second;
use metrique::value::{MetricCall, Observation, WrittenValue};
use std::sync::Arc;

fn float(v: f64) -> Float {
    Float::new(
        v.to_bits(),
        |bits: u64| dtoa::Buffer::new().format_finite(f64::from_bits(bits)).to_owned(),
        |bits: u64| format!("{}", f64::from_bits(bits)),
    )
}

fn metric(distribution: Vec<Observation>) -> WrittenValue {
    WrittenValue::Metric(MetricCall {
        distribution,
        unit: Unit::NoUnit,
        dimensions: vec![],
        flags: MetricFlags::Empty,
    })
}

fn count(v: u64) -> WrittenValue {
    metric(vec![Observation::Unsigned(v)])
}

fn text(s: &str) -> WrittenValue {
    WrittenValue::Text(s.to_owned())
}

fn value(name: &str, value: WrittenValue) -> EntryItem {
    EntryItem::Value(name.to_owned(), value)
}

/// An entry that hands over what a function builds.
struct Items(fn() -> Vec<EntryItem>);

impl Entry for Items {
    fn write(&self) -> Vec<EntryItem> {
        (self.0)()
    }
}

const NOW: Timestamp = Timestamp { nanos: 1_000_000_000 };

fn double(metric: &Metric) -> f64 {
    f64::from_bits(metric.as_double())
}

#[test]
fn test_sink_records_entries() {
    let mut handle = Inspector::new();
    handle.append(&Items(|| {
        vec![
            EntryItem::Config(EntryConfig::Other(1)),
            value("a", count(1)),
            value("b", metric(vec![Observation::Floating(float(2.5))])),
            value("c", text("label")),
        ]
    }));

    assert_eq!(handle.entries().len(), 1);
    let metrics = &handle.get(0).metrics;
    assert_eq!(metrics.index("a").as_u64(), 1);
    assert_eq!(metrics.index("a").as_bool(), true);
    assert!(metrics.index("a").as_u64() > 0);

    assert_eq!(double(metrics.index("a")), 1.0);
    assert!(double(metrics.index("a")) > 0.0);
    assert_eq!(double(metrics.index("b")), 2.5);
    assert_eq!(metrics.index("b").as_u64(), 2);
    assert_eq!(metrics.index("b").as_bool(), true);
    assert_eq!(handle.get(0).values.index("c"), "label");
}

#[test]
fn all_values_above_zero_are_true() {
    let entry = to_test_entry(&Items(|| {
        [0.5, 0.0, -0.0, -1.5, f64::NAN, f64::INFINITY, 5e-324]
            .into_iter()
            .enumerate()
            .map(|(i, v)| value(&i.to_string(), metric(vec![Observation::Floating(float(v))])))
            .chain([value("zero", count(0))])
            .collect()
    }));
    let of = |name: &str| entry.metrics.index(name).as_bool();
    assert!(of("0") && of("5") && of("6"));
    assert!(!of("1") && !of("2") && !of("3") && !of("4") && !of("zero"));
}

#[test]
fn repeated_observations_are_counted_and_flattened() {
    let entry = to_test_entry(&Items(|| {
        vec![value(
            "a",
            metric(vec![
                Observation::Repeated { total: float(12.0), occurrences: 4, mean: float(3.0) },
                Observation::Unsigned(1),
                Observation::Floating(float(-0.5)),
            ]),
        )]
    }));
    let metric = entry.metrics.index("a");
    assert_eq!(metric.num_observations(), 6);
    let flat: Vec<f64> = metric.flatten_and_sort().into_iter().map(f64::from_bits).collect();
    assert_eq!(flat, [-0.5, 1.0, 3.0, 3.0, 3.0, 3.0]);
}

#[test]
fn names_that_are_missing() {
    let entry = to_test_entry(&Items(|| {
        vec![value("operation", text("test")), value("request_count", count(42))]
    }));
    assert!(entry.metrics.get("wrong_name").is_none());
    assert_eq!(
        entry.metrics.missing_key("wrong_name"),
        "key 'wrong_name' not found. Available keys: [\"request_count\"]"
    );
    assert!(entry.values.get("wrong_name").is_none());
    assert_eq!(
        entry.values.missing_key("wrong_name"),
        "key 'wrong_name' not found. Available keys: [\"operation\"]"
    );
}

#[test]
fn the_last_value_of_a_name_is_kept() {
    let entry = to_test_entry(&Items(|| {
        vec![
            EntryItem::Timestamp(Timestamp { nanos: 1 }),
            value("a", count(1)),
            value("b", count(5)),
            value("a", count(2)),
            EntryItem::Timestamp(Timestamp { nanos: 2 }),
            value("c", WrittenValue::Nothing),
        ]
    }));
    assert_eq!(entry.metrics.len(), 2);
    assert_eq!(entry.metrics.index("a").as_u64(), 2);
    assert_eq!(entry.metrics.index("b").as_u64(), 5);
    assert_eq!(entry.timestamp, Some(2));
    assert_eq!(entry.values.len(), 0);
}

#[test]
fn test_flags_are_captured() {
    let entry = to_test_entry(&Items(|| {
        vec![
            value(
                "flagged",
                WrittenValue::Metric(MetricCall {
                    distribution: vec![Observation::Unsigned(1)],
                    unit: Unit::Count,
                    dimensions: vec![],
                    flags: TestFlagCtor::construct(),
                }),
            ),
            value("plain", count(1)),
        ]
    }));
    assert!(entry.metrics.index("flagged").test_flag);
    assert_eq!(entry.metrics.index("flagged").unit, Unit::Count);
    assert!(!entry.metrics.index("plain").test_flag);
}

struct MyMetrics {
    request_count: u64,
}

impl Entry for MyMetrics {
    fn write(&self) -> Vec<EntryItem> {
        vec![value("RequestCount", count(self.request_count))]
    }
}

#[test]
fn render_queue_captures_emf_output() {
    let mut queue =
        render_entry_sink(Emf::all_validations("MyNamespace".to_owned(), vec![vec![]]));

    // entries() returns empty vec before first entry
    assert!(queue.entries().is_empty());

    queue.append(&MyMetrics { request_count: 7 }, NOW);

    let entries = queue.entries();
    assert_eq!(entries.len(), 1);
    assert!(entries[0].contains("\"MyNamespace\""));
    assert!(entries[0].contains("\"RequestCount\""));

    // multiple appends
    queue.append(&MyMetrics { request_count: 42 }, NOW);
    queue.append(&MyMetrics { request_count: 99 }, NOW);

    let entries = queue.entries();
    assert_eq!(entries.len(), 3);
    assert!(entries[1].contains("\"RequestCount\""));
    assert!(entries[2].contains("\"RequestCount\""));

    let display = queue.display();
    assert!(!display.is_empty());
    assert_eq!(
        display.matches("\"MyNamespace\"").count(),
        3,
        "each appended entry should appear in the display"
    );
    assert_eq!(display, entries.join("\n"));
}

fn string(value: Option<&TestObjectValue>) -> &str {
    match value {
        Some(TestObjectValue::String(s)) => s,
        other => panic!("not a string: {other:?}"),
    }
}

fn natural(value: Option<&TestObjectValue>) -> u64 {
    match value {
        Some(TestObjectValue::Metric(m)) => m.as_u64(),
        other => panic!("not a metric: {other:?}"),
    }
}

struct NestedObject;

impl Value for NestedObject {
    fn write(&self) -> WrittenValue {
        object_value(self.write_object())
    }
}

impl ObjectValue for NestedObject {
    fn write_object(&self) -> Vec<EntryItem> {
        vec![
            value("count", count(2)),
            value("label", text("inner")),
            value("items", WrittenValue::List(vec![text("a"), text("b")])),
        ]
    }
}

#[test]
fn test_sink_records_object_properties() {
    let entry = to_test_entry(&Items(|| vec![value("Context", NestedObject.write())]));
    let context: &TestObject = entry.objects.index("Context");
    assert_eq!(string(context.get("label")), "inner");
    assert_eq!(natural(context.get("count")), 2);
    let items = context.get("items").unwrap().as_array().unwrap();
    assert_eq!(items.len(), 2);
    assert_eq!(string(Some(&items[0])), "a");
    assert_eq!(string(Some(&items[1])), "b");
    assert!(context.get("label").unwrap().as_array().is_none());
    assert!(context.get("items").unwrap().as_object().is_none());
}

// ---------------------------------------------------------------------------
// Objects
// ---------------------------------------------------------------------------

struct RequestDetail {
    shard: &'static str,
    attempt: u64,
}

impl ObjectValue for RequestDetail {
    fn write_object(&self) -> Vec<EntryItem> {
        vec![value("shard", text(self.shard)), value("attempt", count(self.attempt))]
    }
}

struct RequestContext {
    request_id: &'static str,
    retries: u64,
    detail: RequestDetail,
    maybe_detail: Option<RequestDetail>,
}

impl ObjectValue for RequestContext {
    fn write_object(&self) -> Vec<EntryItem> {
        let maybe_detail = match &self.maybe_detail {
            Some(detail) => object_value(detail.write_object()),
            None => WrittenValue::Nothing,
        };
        vec![
            value("request_id", text(self.request_id)),
            value("retries", count(self.retries)),
            value("detail", object_value(self.detail.write_object())),
            value("maybe_detail", maybe_detail),
        ]
    }
}

struct SingleFieldObject {
    count: u64,
}

impl ObjectValue for SingleFieldObject {
    fn write_object(&self) -> Vec<EntryItem> {
        vec![value("count", count(self.count))]
    }
}

struct Metrics {
    context: RequestContext,
    single: SingleFieldObject,
}

impl Entry for Metrics {
    fn write(&self) -> Vec<EntryItem> {
        vec![
            value("context", object_value(self.context.write_object())),
            value("single", AsObject::format_object(&self.single)),
        ]
    }
}

fn first_request() -> Metrics {
    Metrics {
        context: RequestContext {
            request_id: "req-1",
            retries: 2,
            detail: RequestDetail { shard: "blue", attempt: 3 },
            maybe_detail: None,
        },
        single: SingleFieldObject { count: 7 },
    }
}

#[test]
fn value_object_struct_captures_as_object_in_test_util() {
    let entry = to_test_entry(&RootEntry::new(first_request()));

    let context = entry.objects.index("context");
    assert_eq!(string(context.get("request_id")), "req-1");
    assert_eq!(natural(context.get("retries")), 2);
    let detail = context.get("detail").unwrap().as_object().unwrap();
    assert_eq!(string(detail.get("shard")), "blue");
    assert_eq!(natural(detail.get("attempt")), 3);
    assert!(context.get("maybe_detail").is_none());
    assert_eq!(natural(entry.objects.index("single").get("count")), 7);
}

#[test]
fn value_object_option_some_captures_nested_fields() {
    let entry = to_test_entry(&RootEntry::new(Metrics {
        context: RequestContext {
            request_id: "req-2",
            retries: 1,
            detail: RequestDetail { shard: "green", attempt: 5 },
            maybe_detail: Some(RequestDetail { shard: "red", attempt: 1 }),
        },
        single: SingleFieldObject { count: 9 },
    }));

    let context = entry.objects.index("context");
    assert_eq!(string(context.get("request_id")), "req-2");
    assert_eq!(natural(context.get("retries")), 1);
    // Verify the Some path of the optional nested object
    let maybe = context.get("maybe_detail").unwrap().as_object().unwrap();
    assert_eq!(string(maybe.get("shard")), "red");
    assert_eq!(natural(maybe.get("attempt")), 1);
}

fn parsed(text: &str) -> serde_json::Value {
    serde_json::from_str(text).unwrap()
}

#[test]
fn value_object_struct_emits_as_native_emf_object() {
    let emf = Emf::all_validations("MyApp".to_string(), vec![vec![]]);
    let json = parsed(&emf.format(&RootEntry::new(first_request()), NOW).unwrap());
    assert_eq!(
        json["context"],
        parsed(
            r#"{
            "request_id": "req-1",
            "retries": 2,
            "detail": {
                "shard": "blue",
                "attempt": 3
            }
        }"#
        )
    );
    assert_eq!(json["single"], parsed(r#"{ "count": 7 }"#));
}

#[test]
fn shared_objects_are_objects() {
    let shared: Arc<Box<SingleFieldObject>> = Arc::new(Box::new(SingleFieldObject { count: 1 }));
    match AsObject::format_object(&shared) {
        WrittenValue::Object(members) => assert_eq!(members[0].0, "count"),
        other => panic!("unexpected {other:?}"),
    }
}

/// A phase of a request, and the phases inside it.
struct Phase {
    name_of_kind: &'static str,
    kind: &'static str,
    duration_ms: u64,
    children: Vec<Phase>,
}

impl ObjectValue for Phase {
    fn write_object(&self) -> Vec<EntryItem> {
        vec![
            value(self.name_of_kind, text(self.kind)),
            value("DurationMs", count(self.duration_ms)),
            value("Children", <Each<AsObject> as ValueFormatter<Vec<Phase>>>::format_value(&self.children)),
        ]
    }
}

impl ValueFormatter<Phase> for AsObject {
    fn format_value(value: &Phase) -> WrittenValue {
        AsObject::format_object(value)
    }

    fn shape() -> FormattedShape {
        FormattedShape::Object
    }
}

fn phase(kind: &'static str, duration_ms: u64) -> Phase {
    Phase { name_of_kind: "Kind", kind, duration_ms, children: vec![] }
}

fn tree(name: &'static str, duration_ms: u64, children: Vec<Phase>) -> Phase {
    Phase { name_of_kind: "Name", kind: name, duration_ms, children }
}

struct RequestMetrics {
    request_id: &'static str,
    timestamp: Timestamp,
    root_phase: Phase,
    phases: Vec<Phase>,
}

impl Entry for RequestMetrics {
    fn write(&self) -> Vec<EntryItem> {
        vec![
            EntryItem::Timestamp(self.timestamp),
            value("RequestId", text(self.request_id)),
            value("RootPhase", <AsObject as ValueFormatter<Phase>>::format_value(&self.root_phase)),
            value(
                "Phases",
                <Each<AsObject> as ValueFormatter<Vec<Phase>>>::format_value(&self.phases),
            ),
        ]
    }
}

fn in_emf(entry: &impl Entry) -> serde_json::Value {
    parsed(&Emf::no_validations("App".to_owned(), vec![vec![]]).format(entry, NOW).unwrap())
}

#[test]
fn object_value_compiles_and_formats_emf() {
    let json = in_emf(&RootEntry::new(RequestMetrics {
        request_id: "abc-123",
        timestamp: NOW,
        root_phase: phase("parse", 42),
        phases: vec![phase("lex", 10), phase("codegen", 32)],
    }));

    // RootPhase should be a nested JSON object
    assert_eq!(json["RootPhase"]["Kind"], "parse");
    assert_eq!(json["RootPhase"]["DurationMs"], 42);

    // Phases should be a JSON array of objects
    let phases = json["Phases"].as_array().unwrap();
    assert_eq!(phases.len(), 2);
    assert_eq!(phases[0]["Kind"], "lex");
    assert_eq!(phases[0]["DurationMs"], 10);
    assert_eq!(phases[1]["Kind"], "codegen");
    assert_eq!(phases[1]["DurationMs"], 32);

    // RequestId should be a string property
    assert_eq!(json["RequestId"], "abc-123");
}

impl Entry for Phase {
    fn write(&self) -> Vec<EntryItem> {
        self.write_object()
    }
}

#[test]
fn recursive_object_tree() {
    let json = in_emf(&RootEntry::new(tree(
        "root",
        100,
        vec![
            tree("child1", 40, vec![]),
            tree("child2", 60, vec![tree("grandchild", 30, vec![])]),
        ],
    )));

    assert_eq!(json["Name"], "root");
    assert_eq!(json["DurationMs"], 100);

    let children = json["Children"].as_array().unwrap();
    assert_eq!(children.len(), 2);
    assert_eq!(children[0]["Name"], "child1");
    assert_eq!(children[1]["Name"], "child2");

    let grandchildren = children[1]["Children"].as_array().unwrap();
    assert_eq!(grandchildren.len(), 1);
    assert_eq!(grandchildren[0]["Name"], "grandchild");
}

struct OptionalObjectMetrics {
    timestamp: Timestamp,
    maybe_phase: Option<Phase>,
}

impl Entry for OptionalObjectMetrics {
    fn write(&self) -> Vec<EntryItem> {
        vec![
            EntryItem::Timestamp(self.timestamp),
            value(
                "MaybePhase",
                <AsObject as ValueFormatter<Option<Phase>>>::format_value(&self.maybe_phase),
            ),
        ]
    }
}

#[test]
fn option_object_auto_lifts() {
    // Some case: object renders
    let json = in_emf(&RootEntry::new(OptionalObjectMetrics {
        timestamp: NOW,
        maybe_phase: Some(phase("parse", 42)),
    }));
    assert_eq!(json["MaybePhase"]["Kind"], "parse");
    assert_eq!(json["MaybePhase"]["DurationMs"], 42);

    // None case: field omitted
    let json =
        in_emf(&RootEntry::new(OptionalObjectMetrics { timestamp: NOW, maybe_phase: None }));
    assert!(json.get("MaybePhase").is_none());
}

#[test]
fn shapes_of_objects() {
    assert!(matches!(<AsObject as ValueFormatter<Phase>>::shape(), FormattedShape::Object));
    assert!(matches!(
        <Each<AsObject> as ValueFormatter<Vec<Phase>>>::shape(),
        FormattedShape::List(inner) if matches!(*inner, FormattedShape::Object)
    ));
}

// ---------------------------------------------------------------------------
// Guards
// ---------------------------------------------------------------------------

#[derive(Default, Clone, Debug, PartialEq)]
struct Simple {
    value: u64,
    name: &'static str,
}

impl Entry for Simple {
    fn write(&self) -> Vec<EntryItem> {
        vec![value("value", count(self.value)), value("name", text(self.name))]
    }
}

impl CloseValue for Simple {
    type Closed = Simple;

    fn close(self) -> Simple {
        self
    }
}

fn append(inspector: &mut Inspector, emitted: Option<Simple>) {
    if let Some(entry) = emitted {
        inspector.append(&RootEntry::new(entry));
    }
}

#[test]
fn drop_appends_entry() {
    let mut inspector = Inspector::new();
    let mut guard = NoAllocAppendOnDrop::new(Simple { value: 42, name: "test" });
    guard.set(Simple { value: 99, ..guard.get().clone() });
    append(&mut inspector, guard.emit());

    assert_eq!(inspector.entries().len(), 1);
    assert_eq!(inspector.get(0).metrics.index("value").as_u64(), 99);
    assert_eq!(inspector.get(0).values.index("name"), "test");
}

#[test]
fn discard_does_not_emit() {
    let mut inspector = Inspector::new();
    let mut guard = NoAllocAppendOnDrop::new(Simple { value: 1, name: "discarded" });
    guard.discard();
    append(&mut inspector, guard.emit());
    assert!(inspector.entries().is_empty());
}

#[test]
fn emit_appends_and_drop_does_not_double_emit() {
    let mut inspector = Inspector::new();
    let mut guard = NoAllocAppendOnDrop::new(Simple { value: 7, name: "emitted" });
    guard.set(Simple { value: 77, ..guard.get().clone() });
    append(&mut inspector, guard.emit());
    append(&mut inspector, guard.emit());

    assert_eq!(inspector.entries().len(), 1);
    assert_eq!(inspector.get(0).metrics.index("value").as_u64(), 77);
}

#[test]
fn deref_mut_mutations_reflected() {
    let mut inspector = Inspector::new();
    let mut guard = NoAllocAppendOnDrop::new(Simple::default());
    guard.set(Simple { value: 123, name: "mutated" });
    append(&mut inspector, guard.emit());

    assert_eq!(inspector.get(0).metrics.index("value").as_u64(), 123);
    assert_eq!(inspector.get(0).values.index("name"), "mutated");
}

#[test]
fn entries_wait_for_flush_guards() {
    let entry = || Simple { value: 1, name: "held" };
    // without guards the entry goes with its owner
    let mut guard = append_and_close(entry());
    assert_eq!(guard.drop_owner(), Some(entry()));

    // with flush guards it goes with the last of them
    let mut guard = append_and_close(entry());
    guard.flush_guard();
    guard.flush_guard();
    assert_eq!(guard.drop_flush_guard(), None);
    assert_eq!(guard.drop_owner(), None);
    assert_eq!(guard.drop_flush_guard(), Some(entry()));

    // a force-flush guard does not wait for them, but for the owner
    let mut guard = append_and_close(entry());
    guard.flush_guard();
    guard.force_flush_guard();
    assert_eq!(guard.drop_force_flush_guard(), None);
    guard.flush_guard();
    assert_eq!(guard.drop_owner(), Some(entry()));
    assert_eq!(guard.drop_flush_guard(), None);

    let mut guard = append_and_close(entry());
    guard.flush_guard();
    guard.force_flush_guard();
    guard.force_flush_guard();
    assert_eq!(guard.drop_owner(), None);
    assert_eq!(guard.drop_force_flush_guard(), Some(entry()));
    assert_eq!(guard.drop_force_flush_guard(), None);

    // all handles have to go
    let mut guard = append_and_close(entry());
    guard.handle();
    assert_eq!(guard.drop_owner(), None);
    guard.set(Simple { value: guard.get().value + 1, name: "changed" });
    assert_eq!(guard.drop_owner(), Some(Simple { value: 2, name: "changed" }));
}

#[test]
fn shared_parts_are_closed_with_the_last_reference() {
    let child = SharedChild::new(Simple { value: 5, name: "shared" });
    let other = child.share();
    assert_eq!(other.get().value, 5);
    assert_eq!(child.close(), None);
    assert_eq!(other.close(), Some(Simple { value: 5, name: "shared" }));
    assert_eq!(close_shared::<Simple>(None), None);
}

#[test]
fn units_are_attached() {
    let value = AttachUnit::make::<Second>(Observation::Unsigned(3));
    assert!(matches!(value.as_inner(), Observation::Unsigned(3)));
    assert!(matches!(value.into_inner(), Observation::Unsigned(3)));
}
