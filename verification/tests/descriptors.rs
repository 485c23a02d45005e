use std::any::TypeId;
use std::sync::atomic::{AtomicU64, Ordering};

use metrique::descriptor::{
    DescriptorRef, Descriptors, EntryDescriptor, FieldDescriptor, FieldFlag, FieldShape,
    KnownShape, ShapeRef, Styles, TimestampDescriptor,
};
use metrique::flags::{FlagConstructor, MetricFlags};
use metrique::unit::Unit;

fn leak<T>(value: T) -> &'static T {
    Box::leak(Box::new(value))
}

fn fields(list: Vec<FieldDescriptor>) -> &'static [FieldDescriptor] {
    Box::leak(list.into_boxed_slice())
}

/// The address that a value is told apart by.
fn address<T>(value: &'static T) -> u64 {
    u64::from_str_radix(format!("{value:p}").trim_start_matches("0x"), 16).unwrap()
}

fn from_static(descriptor: &'static EntryDescriptor) -> DescriptorRef {
    DescriptorRef::from_static(descriptor, address(descriptor), 0)
}

#[test]
fn descriptor_ref_stable_id() {
    let desc = leak(EntryDescriptor::builder("Test", &[]).build());
    let r1 = from_static(desc);
    let r2 = from_static(desc);
    assert_eq!(r1.id(), r2.id());
    assert_eq!(r1.name(), "Test");
}

#[test]
fn different_descriptors_different_ids() {
    let a = leak(EntryDescriptor::builder("A", &[]).build());
    let b = leak(EntryDescriptor::builder("B", &[]).build());
    assert_ne!(from_static(a).id(), from_static(b).id());
}

#[test]
fn prefix_changes_id() {
    let desc = leak(EntryDescriptor::builder("T", &[]).build());
    let plain = from_static(desc);
    let prefixed = from_static(desc).with_prefix("Api", address(&"Api".as_bytes()[0]));
    assert_ne!(plain.id(), prefixed.id());
}

struct FlagA;

impl FlagConstructor for FlagA {
    fn construct() -> MetricFlags {
        MetricFlags::Other(100)
    }
}

struct FlagB;

impl FlagConstructor for FlagB {
    fn construct() -> MetricFlags {
        MetricFlags::Other(101)
    }
}

fn flag<T: FlagConstructor + Send + Sync + 'static>() -> &'static [FieldFlag] {
    Box::leak(vec![FieldFlag::new::<T>()].into_boxed_slice())
}

#[test]
fn extra_flags_accumulate_and_change_id() {
    let a_flags = flag::<FlagA>();
    let b_flags = flag::<FlagB>();
    let list = fields(vec![FieldDescriptor::builder("F").build()]);
    let desc = leak(EntryDescriptor::builder("T", list).build());

    // Inner flatten site applies B, outer applies A: both must survive.
    let plain = from_static(desc);
    let stacked = from_static(desc)
        .with_extra_flags(b_flags, address(&b_flags[0]))
        .with_extra_flags(a_flags, address(&a_flags[0]));
    let flags = stacked.fields()[0].flags();
    assert!(flags.iter().any(|f| f.is::<FlagA>()));
    assert!(flags.iter().any(|f| f.is::<FlagB>()));

    assert_ne!(plain.id(), stacked.id());
    assert_ne!(
        from_static(desc).with_extra_flags(b_flags, address(&b_flags[0])).id(),
        stacked.id()
    );
}

/// A flag whose constructor counts its calls.
struct Counted;

static CALLS: AtomicU64 = AtomicU64::new(0);

impl FlagConstructor for Counted {
    fn construct() -> MetricFlags {
        MetricFlags::Other(CALLS.fetch_add(1, Ordering::SeqCst))
    }
}

#[test]
fn flags_are_made_when_they_are_asked_for() {
    let flag = FieldFlag::new::<Counted>();
    assert_eq!(CALLS.load(Ordering::SeqCst), 0);
    assert_eq!(flag.construct(), MetricFlags::Other(0));
    assert_eq!(flag.construct(), MetricFlags::Other(1));
    assert_eq!(CALLS.load(Ordering::SeqCst), 2);
}

#[test]
fn flags_belong_to_their_types() {
    let flag = FieldFlag::new::<FlagA>();
    assert!(flag.is::<FlagA>());
    assert!(!flag.is::<FlagB>());
    assert!(!flag.is::<u64>());
    assert_eq!(flag.type_id(), TypeId::of::<FlagA>());
    assert_ne!(flag.type_id(), TypeId::of::<FlagB>());
}

#[test]
fn skipped_flags_are_not_added() {
    let a_flags = flag::<FlagA>();
    let b_flags = flag::<FlagB>();
    let list = fields(vec![
        FieldDescriptor::builder("F").flags(b_flags).skipped_flags(a_flags).build(),
        FieldDescriptor::builder("G").build(),
    ]);
    let desc = leak(EntryDescriptor::builder("T", list).build());
    let d = from_static(desc).with_extra_flags(a_flags, address(&a_flags[0]));
    let views = d.fields();
    let made: Vec<MetricFlags> = views[0].flags().iter().map(|f| f.construct()).collect();
    assert_eq!(made, [MetricFlags::Other(101)]);
    let made: Vec<MetricFlags> = views[1].flags().iter().map(|f| f.construct()).collect();
    assert_eq!(made, [MetricFlags::Other(100)]);
}

#[test]
fn skipped_flags_of_the_field_itself_are_left_out() {
    let both: &'static [FieldFlag] = Box::leak(
        vec![FieldFlag::new::<FlagA>(), FieldFlag::new::<FlagB>()].into_boxed_slice(),
    );
    let list = fields(vec![
        FieldDescriptor::builder("F").flags(both).skipped_flags(flag::<FlagA>()).build(),
    ]);
    let desc = leak(EntryDescriptor::builder("T", list).build());
    let d = from_static(desc);
    let made: Vec<MetricFlags> = d.fields()[0].flags().iter().map(|f| f.construct()).collect();
    assert_eq!(made, [MetricFlags::Other(101)]);
}

#[test]
fn field_name_no_prefix() {
    let list = fields(vec![FieldDescriptor::builder("MyField").build()]);
    let desc = leak(EntryDescriptor::builder("T", list).build());
    assert_eq!(from_static(desc).fields()[0].base_name(), "MyField");
}

#[test]
fn field_name_with_prefix() {
    let list = fields(vec![FieldDescriptor::builder("Latency").build()]);
    let desc = leak(EntryDescriptor::builder("T", list).build());
    let d = from_static(desc).with_prefix("Api", address(&"Api".as_bytes()[0]));
    assert_eq!(d.fields()[0].name_parts(), vec!["Api", "Latency"]);
}

#[test]
fn field_name_with_nested_prefixes() {
    let list = fields(vec![FieldDescriptor::builder("Latency").build()]);
    let desc = leak(EntryDescriptor::builder("T", list).build());

    // Simulates: inner child applies "Api", then outer parent applies "Http"
    let d = from_static(desc)
        .with_prefix("Api", address(&"Api".as_bytes()[0]))
        .with_prefix("Http", address(&"Http".as_bytes()[0]));
    assert_eq!(d.fields()[0].name_parts(), vec!["Http", "Api", "Latency"]);
}

#[test]
fn field_view_iteration() {
    let list = fields(vec![
        FieldDescriptor::builder("Alpha").build(),
        FieldDescriptor::builder("Beta").unit(Unit::Count).build(),
    ]);
    let desc = leak(EntryDescriptor::builder("T", list).build());
    let d = from_static(desc);
    let views = d.fields();
    assert_eq!(views.len(), 2);
    assert_eq!(views[0].base_name(), "Alpha");
    assert_eq!(views[1].base_name(), "Beta");
    assert_eq!(views[1].unit(), Some(Unit::Count));
}

#[test]
fn timestamp() {
    let desc = leak(
        EntryDescriptor::builder("E", &[]).timestamp(TimestampDescriptor::new("ts")).build(),
    );
    let d = from_static(desc);
    assert_eq!(d.timestamp().unwrap().name(), "ts");
}

#[test]
fn object_shape_in_descriptors() {
    let object: &'static FieldShape<'static> = leak(FieldShape::Object);
    let list = fields(vec![
        FieldDescriptor::builder("request_id")
            .pascal("RequestId")
            .shape(FieldShape::Known(KnownShape::String))
            .build(),
        FieldDescriptor::builder("root_phase")
            .pascal("RootPhase")
            .shape(FieldShape::Object)
            .build(),
        FieldDescriptor::builder("phases")
            .pascal("Phases")
            .shape(FieldShape::List(ShapeRef::new(object)))
            .build(),
    ]);
    let desc = leak(EntryDescriptor::builder("RequestMetrics", list).build());
    let descs = Descriptors::available(vec![DescriptorRef::from_static(
        desc,
        address(desc),
        Styles::pascal().index,
    )])
    .unwrap();
    let views: Vec<_> = descs.iter().iter().flat_map(|d| d.fields()).collect();

    // Fields: RequestId, RootPhase, Phases
    assert_eq!(views.len(), 3);

    // RequestId should have a string shape
    assert_eq!(views[0].base_name(), "RequestId");

    // RootPhase should have Object shape
    assert_eq!(views[1].base_name(), "RootPhase");
    assert_eq!(views[1].shape(), FieldShape::Object);

    // Phases should have List(Object) shape
    assert_eq!(views[2].base_name(), "Phases");
    assert!(
        matches!(views[2].shape(), FieldShape::List(inner) if *inner.get() == FieldShape::Object)
    );
}

#[test]
fn names_in_each_style() {
    let list = fields(vec![FieldDescriptor::builder("my_field")
        .pascal("MyField")
        .snake("my_field")
        .kebab("my-field")
        .screaming_snake("MY_FIELD")
        .build()]);
    let desc = leak(EntryDescriptor::builder("T", list).build());
    let names: Vec<&str> = Styles::all()
        .iter()
        .map(|style| {
            DescriptorRef::from_static(desc, address(desc), style.index).fields()[0].base_name()
        })
        .collect();
    assert_eq!(names, ["my_field", "MyField", "my_field", "my-field", "MY_FIELD"]);
}

#[test]
fn segments_are_chained_if_all_are_known() {
    let a = leak(EntryDescriptor::builder("A", &[]).build());
    let b = leak(EntryDescriptor::builder("B", &[]).build());
    let prefix: &'static str = "P";
    let at: u64 = address(&prefix.as_bytes()[0]);
    let chained = Descriptors::available(vec![from_static(a)])
        .chain(Descriptors::available(vec![from_static(b)]))
        .map_available(|d: DescriptorRef| d.with_prefix(prefix, at));
    assert!(chained.is_available());
    let segments = chained.into_available().unwrap();
    assert_eq!(segments.len(), 2);
    assert_eq!(segments.get(0).name(), "A");
    assert_eq!(segments.get(1).name(), "B");
    assert_eq!(segments.get(1).id(), from_static(b).with_prefix(prefix, at).id());

    // one side that is not known makes the whole unknown
    let unknown =
        Descriptors::available(vec![from_static(a)]).chain(Descriptors::Unavailable);
    assert!(!unknown.is_available());
    assert!(Descriptors::Unavailable
        .chain(Descriptors::available(vec![]))
        .into_available()
        .is_none());
}
