use metrique::derive::descriptor::{
    build_descriptors_chain, descriptor_method_ident, flatten_descriptors_expr,
    format_shape_expr, generate_descriptor_impl, generate_style_matched_descriptor, shape_expr,
    unit_expr, ChainPlan, DescriptorFieldMeta, FlattenPlan, FormatShape, FormatType, ShapeSource,
    UnitSource,
};
use metrique::derive::field::{
    make_ns, FieldTagAttr, MetricsField, MetricsFieldKind, NameStyle, Namespace,
};
use metrique::derive::flags::{resolve_field_flags, FlagSource};
use metrique::derive::names::{make_exact_prefix, make_inflect_base};
use metrique::derive::sample::{
    collect_field_sample_group, make_binary_tree_chain, ChainTree, SampleGroupPlan,
    SampleGroupSource,
};
use metrique::derive::structs::{
    closes_by_reference, entry_struct_ident, generate_metrics_for_struct, InnerImpl,
};
use metrique::derive::value::{
    generate_value_impl_for_enum, generate_value_impl_for_struct, validate_value_impl_for_struct,
    MetricMode, RootAttributes, ValueError, ValuePlan,
};
use metrique::derive::writes::{
    generate_field_writes, wrapper_ident, FieldWrite, WrapperBinding, WriterRef,
};

fn tag(path: &str, skip: bool) -> FieldTagAttr {
    FieldTagAttr { path: path.to_owned(), skip }
}

fn field(kind: MetricsFieldKind, flags: Vec<FieldTagAttr>, gated: bool) -> MetricsField {
    MetricsField { kind, flags, gated, named: true }
}

fn plain() -> MetricsFieldKind {
    MetricsFieldKind::Field { sample_group: false, name: false, format: false }
}

#[test]
fn capitals_share_the_namespace_of_snake_case() {
    assert_eq!(make_ns(NameStyle::PascalCase), Namespace::PascalCase);
    assert_eq!(make_ns(NameStyle::SnakeCase), Namespace::SnakeCase);
    assert_eq!(make_ns(NameStyle::ScreamingSnakeCase), Namespace::SnakeCase);
    assert_eq!(make_ns(NameStyle::KebabCase), Namespace::KebabCase);
    assert_eq!(make_ns(NameStyle::Preserve), Namespace::Inherited);
}

#[test]
fn own_flags_come_first_and_hide_default_ones() {
    let own = vec![tag("a", false), tag("b", true), tag("c", false)];
    let default = vec![tag("b", false), tag("d", false), tag("a", false)];
    let resolved = resolve_field_flags(&own, &default);
    assert_eq!(
        resolved.flags,
        [FlagSource::Field(0), FlagSource::Field(2), FlagSource::Default(1)]
    );
    assert_eq!(resolved.skipped_flags, [1]);
}

#[test]
fn fields_are_written_in_order() {
    let fields = vec![
        field(MetricsFieldKind::Timestamp, vec![], false),
        field(MetricsFieldKind::Ignore, vec![], false),
        field(plain(), vec![tag("a", false)], true),
        field(
            MetricsFieldKind::Flatten {
                prefix: true,
                default_flags: vec![tag("x", false), tag("y", false)],
            },
            vec![],
            false,
        ),
        field(MetricsFieldKind::FlattenEntry, vec![], false),
    ];
    let writes =
        generate_field_writes(&fields, NameStyle::ScreamingSnakeCase, &vec![tag("d", false)]);
    let positions: Vec<(usize, bool)> = writes.iter().map(|w| (w.field, w.gated)).collect();
    assert_eq!(positions, [(0, false), (2, true), (3, false), (4, false)]);
    assert!(matches!(writes[0].write, FieldWrite::Timestamp));
    match &writes[1].write {
        FieldWrite::Value { namespace, formatted, flags } => {
            assert_eq!(*namespace, Namespace::SnakeCase);
            assert!(!formatted);
            assert_eq!(flags, &[FlagSource::Field(0), FlagSource::Default(0)]);
        }
        other => panic!("unexpected {other:?}"),
    }
    match &writes[2].write {
        FieldWrite::Inflected { namespace, prefixed, wrappers, target } => {
            assert_eq!(*namespace, Namespace::SnakeCase);
            assert!(prefixed);
            assert_eq!(
                wrappers,
                &[
                    WrapperBinding { flag: 0, inner: WriterRef::Writer },
                    WrapperBinding { flag: 1, inner: WriterRef::Wrapper(0) },
                ]
            );
            assert_eq!(*target, WriterRef::Wrapper(1));
        }
        other => panic!("unexpected {other:?}"),
    }
    assert!(matches!(writes[3].write, FieldWrite::Entry));
    assert_eq!(wrapper_ident(12), "__metrique_fw_12");
}

fn root(mode: MetricMode) -> RootAttributes {
    RootAttributes {
        mode,
        sample_group: false,
        emf_dimensions: false,
        prefix: false,
        rename_all: NameStyle::Preserve,
        default_flags: vec![],
    }
}

#[test]
fn structs_that_are_values() {
    let fields =
        vec![field(MetricsFieldKind::Ignore, vec![], false), field(plain(), vec![], false)];
    let attributes = RootAttributes { sample_group: true, ..root(MetricMode::Value) };
    assert_eq!(validate_value_impl_for_struct(&attributes, &fields), Ok(()));
    assert_eq!(
        generate_value_impl_for_struct(&attributes, &fields),
        Ok(ValuePlan { field: Some(1), formatted: false, sample_group: true })
    );
    // a struct without fields is a value that writes nothing
    assert_eq!(
        generate_value_impl_for_struct(&root(MetricMode::Value), &vec![]),
        Ok(ValuePlan { field: None, formatted: false, sample_group: false })
    );
}

#[test]
fn structs_that_are_no_values() {
    let two = vec![field(plain(), vec![], false), field(plain(), vec![], false)];
    let error = |attributes: &RootAttributes, fields: &Vec<MetricsField>| {
        let e = validate_value_impl_for_struct(attributes, fields).unwrap_err();
        (e, e.field(), e.message())
    };
    let value = root(MetricMode::Value);
    assert_eq!(
        error(&value, &two),
        (
            ValueError::MultipleFields(1),
            Some(1),
            "multiple non-ignored fields for #[metrics(value)]"
        )
    );
    let one = |sample_group: bool, name: bool| {
        vec![field(MetricsFieldKind::Field { sample_group, name, format: false }, vec![], false)]
    };
    assert_eq!(error(&value, &one(true, true)).0, ValueError::FieldSampleGroup(0));
    assert_eq!(
        error(&value, &one(false, true)),
        (
            ValueError::FieldName(0),
            Some(0),
            "`name` does not make sense with #[metrics(value)]"
        )
    );
    let with = |f: fn(&mut RootAttributes)| {
        let mut attributes = root(MetricMode::Value);
        f(&mut attributes);
        error(&attributes, &vec![])
    };
    assert_eq!(with(|r| r.sample_group = true).0, ValueError::NoSampleGroupField);
    assert_eq!(with(|r| r.emf_dimensions = true).0, ValueError::EmfDimensions);
    assert_eq!(with(|r| r.prefix = true).0, ValueError::Prefix);
    assert_eq!(
        with(|r| r.rename_all = NameStyle::SnakeCase),
        (ValueError::NameStyle, None, "NameStyle is not supported for #[metrics(value)]")
    );
    let timestamp = vec![field(MetricsFieldKind::Timestamp, vec![], false)];
    assert_eq!(
        generate_value_impl_for_struct(&value, &timestamp),
        Err(ValueError::NotPlain(0))
    );
    assert_eq!(generate_value_impl_for_enum(0), Ok(()));
    assert!(generate_value_impl_for_enum(1).is_err());
}

#[test]
fn what_is_generated_for_a_struct() {
    let fields = vec![field(MetricsFieldKind::Ignore, vec![], false), field(plain(), vec![], false)];
    let plan = generate_metrics_for_struct(&root(MetricMode::RootEntry), "Foo", &fields).unwrap();
    assert_eq!(
        (plan.entry_name.as_str(), plan.guard_name.as_str(), plan.handle_name.as_str()),
        ("FooEntry", "FooGuard", "FooHandle")
    );
    assert!(plan.named && plan.object_value && plan.on_drop_wrapper);
    assert_eq!(plan.inner, InnerImpl::Entry);
    assert_eq!(plan.closed, [1]);

    let plan = generate_metrics_for_struct(&root(MetricMode::Subfield), "Foo", &fields).unwrap();
    assert!(plan.object_value && !plan.on_drop_wrapper);

    let plan = generate_metrics_for_struct(&root(MetricMode::Value), "Foo", &fields).unwrap();
    assert_eq!(plan.entry_name, "FooValue");
    assert!(!plan.object_value && !plan.on_drop_wrapper);
    assert!(matches!(plan.inner, InnerImpl::Value(p) if p.field == Some(1)));

    let two = vec![field(plain(), vec![], false), field(plain(), vec![], false)];
    assert_eq!(
        generate_metrics_for_struct(&root(MetricMode::Value), "Foo", &two).unwrap_err(),
        ValueError::MultipleFields(1)
    );
    assert_eq!(entry_struct_ident("Bar", MetricMode::ValueString), "BarEntry");
    assert!(closes_by_reference(MetricMode::Subfield));
    assert!(!closes_by_reference(MetricMode::SubfieldOwned));
    assert!(!closes_by_reference(MetricMode::RootEntry));
}

#[test]
fn sample_groups() {
    let of = |kind: MetricsFieldKind, gated: bool| {
        collect_field_sample_group(&field(kind, vec![], gated), NameStyle::KebabCase)
    };
    assert_eq!(
        of(MetricsFieldKind::Field { sample_group: true, name: false, format: false }, true),
        Some(SampleGroupPlan {
            source: SampleGroupSource::Value(Namespace::KebabCase),
            gated: true
        })
    );
    assert_eq!(of(plain(), false), None);
    assert_eq!(of(MetricsFieldKind::Timestamp, false), None);
    assert_eq!(
        of(MetricsFieldKind::FlattenEntry, false),
        Some(SampleGroupPlan { source: SampleGroupSource::Entry, gated: false })
    );
}

fn leaves(tree: &ChainTree, list: &mut Vec<usize>) -> usize {
    match tree {
        ChainTree::Empty => 0,
        ChainTree::Leaf(i) => {
            list.push(*i);
            0
        }
        ChainTree::Chain(a, b) => 1 + leaves(a, list).max(leaves(b, list)),
    }
}

#[test]
fn chains_are_shallow_and_in_order() {
    let mut list = vec![];
    let depth = leaves(&make_binary_tree_chain(3, 9), &mut list);
    assert_eq!(list, [3, 4, 5, 6, 7, 8, 9, 10, 11]);
    assert_eq!(depth, 4);
    assert!(matches!(make_binary_tree_chain(0, 0), ChainTree::Empty));
}

fn format_type(segment: &str, argument: Option<FormatType>) -> FormatType {
    FormatType { segment: Some(segment.to_owned()), argument: argument.map(Box::new) }
}

#[test]
fn shapes_of_known_formatters() {
    assert!(matches!(format_shape_expr(&format_type("AsObject", None)), FormatShape::Object));
    assert!(matches!(format_shape_expr(&format_type("ToString", None)), FormatShape::Text));
    assert!(matches!(format_shape_expr(&format_type("Other", None)), FormatShape::Opaque));
    assert!(matches!(format_shape_expr(&format_type("Each", None)), FormatShape::Opaque));
    assert!(matches!(
        format_shape_expr(&format_type("Each", Some(format_type("AsObject", None)))),
        FormatShape::List(inner) if matches!(*inner, FormatShape::Object)
    ));
}

fn meta(close: bool, explicit_unit: bool, format: Option<FormatType>) -> DescriptorFieldMeta {
    DescriptorFieldMeta {
        names: ["my_field", "MyField", "my_field", "my-field", "MY_FIELD"]
            .iter()
            .map(|n| n.to_string())
            .collect(),
        flags: 2,
        skipped_flags: 1,
        explicit_unit,
        close,
        format,
    }
}

#[test]
fn descriptions_of_fields() {
    assert!(matches!(shape_expr(&meta(true, false, None)), ShapeSource::Closed));
    assert!(matches!(shape_expr(&meta(false, false, None)), ShapeSource::Direct));
    assert_eq!(unit_expr(&meta(true, true, None)), UnitSource::Explicit);
    assert_eq!(
        unit_expr(&meta(true, false, Some(format_type("ToString", None)))),
        UnitSource::Unknown
    );
    assert_eq!(unit_expr(&meta(true, false, None)), UnitSource::Closed);
    assert_eq!(unit_expr(&meta(false, false, None)), UnitSource::Direct);

    let plan = generate_style_matched_descriptor(
        &vec![meta(true, false, None), meta(false, true, None)],
        "FOO",
    );
    assert_eq!(plan.fields_ident, "__METRIQUE_FOO_FIELDS");
    assert_eq!(plan.desc_ident, "__METRIQUE_FOO_DESC");
    let f = &plan.fields[1];
    assert_eq!(f.flags_ident, "__METRIQUE_FOO_FLAGS_1");
    assert_eq!(f.skipped_ident, "__METRIQUE_FOO_SKIPPED_1");
    assert_eq!((f.num_flags, f.num_skipped), (2, 1));
    assert_eq!(
        [&f.preserve, &f.pascal, &f.snake, &f.kebab, &f.screaming_snake],
        ["my_field", "MyField", "my_field", "my-field", "MY_FIELD"]
    );
}

#[test]
fn descriptions_of_runs() {
    let runs: Vec<(usize, String, bool)> = generate_descriptor_impl(&vec![0, 2, 0, 1])
        .into_iter()
        .map(|p| (p.run, p.method_ident, p.timestamp))
        .collect();
    assert_eq!(
        runs,
        [
            (0, "__metrique_descriptor_run_0".to_owned(), true),
            (1, "__metrique_descriptor_run_1".to_owned(), false),
            (3, "__metrique_descriptor_run_3".to_owned(), false),
        ]
    );
    assert_eq!(descriptor_method_ident(10), "__metrique_descriptor_run_10");
}

#[test]
fn descriptions_of_flattened_entries() {
    let plain = flatten_descriptors_expr(&MetricsFieldKind::FlattenEntry);
    assert!(matches!(plain, FlattenPlan::Entry));
    assert!(!plain.is_mapped());
    let flat = |prefix: bool, n: usize| {
        flatten_descriptors_expr(&MetricsFieldKind::Flatten {
            prefix,
            default_flags: (0..n).map(|_| tag("f", false)).collect(),
        })
        .is_mapped()
    };
    assert!(!flat(false, 0));
    assert!(flat(true, 0));
    assert!(flat(false, 1));
    assert!(matches!(build_descriptors_chain(&vec![]), ChainPlan::Base));
    assert!(matches!(build_descriptors_chain(&vec![false, false]), ChainPlan::Linear(2)));
    assert!(matches!(
        build_descriptors_chain(&vec![false, true]),
        ChainPlan::Rebinding(steps) if steps == [false, true]
    ));
}

#[test]
fn names_of_constants() {
    let plan = make_inflect_base(
        "My_Fi-eld1é",
        "my field".to_owned(),
        "MyField".to_owned(),
        "my_field".to_owned(),
        "my-field".to_owned(),
    );
    assert_eq!(plan.pascal.ident, "MyField1éPascal");
    assert_eq!(plan.pascal.value, "MyField");
    assert_eq!(plan.preserve.ident, "MyField1éPreserve");
    assert_eq!(plan.preserve.value, "my field");
    assert_eq!((plan.snake.ident.as_str(), plan.snake.value.as_str()), ("MyField1éSnake", "my_field"));
    assert_eq!((plan.kebab.ident.as_str(), plan.kebab.value.as_str()), ("MyField1éKebab", "my-field"));
    let exact = make_exact_prefix("Api_", "api:".to_owned());
    assert_eq!((exact.ident.as_str(), exact.value.as_str()), ("ApiPreserve", "api:"));
}
