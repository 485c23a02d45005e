use metrique::entry::{Entry, EntryItem, Timestamp};
use metrique::flags::{InstrumentKind, MetricFlags};
use metrique::otel::WriterBufs;
use metrique::unit::Unit;
use metrique::validate::ValidationError;
use metrique::value::{MetricCall, Observation, WrittenValue};

fn value(name: &str, value: WrittenValue) -> EntryItem {
    EntryItem::Value(name.to_owned(), value)
}

fn text(s: &str) -> WrittenValue {
    WrittenValue::Text(s.to_owned())
}

fn pair(name: &str, instance: &str) -> (String, String) {
    (name.to_owned(), instance.to_owned())
}

fn metric(flags: MetricFlags, dimensions: Vec<(String, String)>) -> WrittenValue {
    WrittenValue::Metric(MetricCall {
        distribution: vec![Observation::Unsigned(1)],
        unit: Unit::Count,
        dimensions,
        flags,
    })
}

struct Items(fn() -> Vec<EntryItem>);

impl Entry for Items {
    fn write(&self) -> Vec<EntryItem> {
        (self.0)()
    }
}

const REQUEST: Items = Items(|| {
    vec![
        EntryItem::Timestamp(Timestamp { nanos: 0 }),
        value(
            "requests",
            metric(MetricFlags::Otel(InstrumentKind::Counter), vec![pair("az", "a")]),
        ),
        value("operation", text("Get")),
        value("unflagged", metric(MetricFlags::Empty, vec![])),
        value("latency", metric(MetricFlags::Distribution, vec![])),
        value("bad", WrittenValue::Error(ValidationError::invalid("no value"))),
        value("plugins", WrittenValue::List(vec![text("x"), text("y")])),
    ]
});

#[test]
fn metrics_are_recorded_with_all_attributes() {
    let mut bufs = WriterBufs::new();
    let records = bufs.run(&REQUEST);
    assert_eq!(records.len(), 2);
    // from the last to the first
    assert_eq!(records[0].name, "latency");
    assert_eq!(records[0].kind, InstrumentKind::Histogram);
    assert_eq!(records[0].attributes, [pair("operation", "Get"), pair("plugins", "x,y")]);
    assert_eq!(records[1].name, "requests");
    assert_eq!(records[1].kind, InstrumentKind::Counter);
    assert_eq!(records[1].unit, Unit::Count);
    assert!(matches!(records[1].observations[..], [Observation::Unsigned(1)]));
    assert_eq!(
        records[1].attributes,
        [pair("az", "a"), pair("operation", "Get"), pair("plugins", "x,y")]
    );
}

#[test]
fn buffers_are_used_again() {
    let mut bufs = WriterBufs::new();
    bufs.run(&REQUEST);
    let records = bufs.run(&Items(|| {
        vec![value("depth", metric(MetricFlags::Otel(InstrumentKind::Gauge), vec![]))]
    }));
    assert_eq!(records.len(), 1);
    assert_eq!(records[0].name, "depth");
    assert!(records[0].attributes.is_empty());
    assert!(bufs.run(&Items(|| vec![])).is_empty());
}
