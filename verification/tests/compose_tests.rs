use oasgen::compose::compose_fields;
use oasgen::{ComposeError, FieldAttributes, FieldDescriptor, RefOr, Schema, SchemaKind};

fn plain_attrs() -> FieldAttributes {
    FieldAttributes { skip: false, skip_serializing_if: None, inline: false }
}

fn field(name: &str, schema: Schema) -> FieldDescriptor {
    let schema_ref = RefOr::Item(schema_copy(&schema));
    FieldDescriptor { name: name.to_string(), schema, schema_ref, flatten: false, attrs: plain_attrs() }
}

fn schema_copy(s: &Schema) -> Schema {
    match s.kind {
        SchemaKind::Text => Schema::new_string(),
        SchemaKind::Integer => Schema::new_integer(),
        SchemaKind::Boolean => Schema::new_bool(),
        _ => panic!("only primitive schemas are copied here"),
    }
}

#[test]
fn test_send_code_composition() {
    // A composite `SendCode { mobile: string }` with no flags composes to
    // an object with exactly the `mobile` string property, required.
    let fields = vec![field("mobile", Schema::new_string())];
    let s = compose_fields(fields, None).unwrap();
    let SchemaKind::Object(o) = s.kind else { panic!() };
    assert_eq!(o.properties.len(), 1);
    assert_eq!(o.properties[0].0, "mobile");
    assert_eq!(o.properties[0].1, RefOr::Item(Schema::new_string()));
    assert_eq!(o.required, vec!["mobile".to_string()]);
    assert!(o.additional_properties.is_none());
    assert!(!s.nullable);
    assert!(s.description.is_none());
}

#[test]
fn test_skip_and_skip_if_absent() {
    // Mirrors a composite with one required field, one nullable field, one
    // field marked skip-if-absent and two skipped fields.
    let mut nullable_string = Schema::new_string();
    nullable_string.nullable = true;
    let mut fields = vec![
        field("is_required", Schema::new_string()),
        field("is_nullable", nullable_string),
        field("is_not_required", Schema::new_string()),
        field("is_not_on_schema", Schema::new_string()),
        field("is_also_not_on_schema", Schema::new_string()),
    ];
    fields[2].attrs.skip_serializing_if = Some("Option::is_none".to_string());
    fields[3].attrs.skip = true;
    fields[4].attrs.skip = true;
    let s = compose_fields(fields, None).unwrap();
    let SchemaKind::Object(o) = s.kind else { panic!() };
    let names: Vec<&str> = o.properties.iter().map(|p| p.0.as_str()).collect();
    assert_eq!(names, vec!["is_required", "is_nullable", "is_not_required"]);
    assert_eq!(o.required, vec!["is_required".to_string(), "is_nullable".to_string()]);
}

#[test]
fn test_property_counts() {
    // With two required fields and two skip-if-absent fields the composed
    // object has four properties and exactly the two required names, in
    // declaration order.
    let mut fields = vec![
        field("a", Schema::new_string()),
        field("b", Schema::new_integer()),
        field("c", Schema::new_string()),
        field("d", Schema::new_bool()),
    ];
    fields[1].attrs.skip_serializing_if = Some("Option::is_none".to_string());
    fields[3].attrs.skip_serializing_if = Some("Option::is_none".to_string());
    let s = compose_fields(fields, None).unwrap();
    let SchemaKind::Object(o) = s.kind else { panic!() };
    assert_eq!(o.properties.len(), 4);
    assert_eq!(o.required, vec!["a".to_string(), "c".to_string()]);
}

#[test]
fn test_inline_flag_inlines_schema() {
    let mut f = FieldDescriptor {
        name: "inner".to_string(),
        schema: Schema::new_integer(),
        schema_ref: RefOr::Reference("Inner".to_string()),
        flatten: false,
        attrs: plain_attrs(),
    };
    f.attrs.inline = true;
    let s = compose_fields(vec![f], None).unwrap();
    let SchemaKind::Object(o) = s.kind else { panic!() };
    assert_eq!(o.properties[0].1, RefOr::Item(Schema::new_integer()));

    let f2 = FieldDescriptor {
        name: "inner".to_string(),
        schema: Schema::new_integer(),
        schema_ref: RefOr::Reference("Inner".to_string()),
        flatten: false,
        attrs: plain_attrs(),
    };
    let s2 = compose_fields(vec![f2], None).unwrap();
    let SchemaKind::Object(o2) = s2.kind else { panic!() };
    assert_eq!(o2.properties[0].1, RefOr::Reference("Inner".to_string()));
}

fn bar_schema() -> Schema {
    let fields = vec![field("x", Schema::new_string()), field("y", Schema::new_integer())];
    compose_fields(fields, None).unwrap()
}

#[test]
fn test_flatten_merges_properties_and_required() {
    // `Foo { #[flatten] bar: Bar { x, y }, z }` composes to properties
    // x, y, z with required(Bar) plus z.
    let bar = FieldDescriptor {
        name: "bar".to_string(),
        schema: bar_schema(),
        schema_ref: RefOr::Reference("Bar".to_string()),
        flatten: true,
        attrs: plain_attrs(),
    };
    let z = field("z", Schema::new_bool());
    let s = compose_fields(vec![bar, z], None).unwrap();
    let SchemaKind::Object(o) = s.kind else { panic!() };
    let names: Vec<&str> = o.properties.iter().map(|p| p.0.as_str()).collect();
    assert_eq!(names, vec!["x", "y", "z"]);
    assert_eq!(o.required, vec!["x".to_string(), "y".to_string(), "z".to_string()]);
}

#[test]
fn test_invalid_flatten_is_an_error() {
    // A flatten-marked field whose schema is not an object is fatal, and
    // the error names the field.
    let bad = FieldDescriptor {
        name: "bad".to_string(),
        schema: Schema::new_string(),
        schema_ref: RefOr::Item(Schema::new_string()),
        flatten: true,
        attrs: plain_attrs(),
    };
    let err = compose_fields(vec![bad], None).unwrap_err();
    let ComposeError::InvalidFlatten { field } = err;
    assert_eq!(field, "bad");
}

#[test]
fn test_skip_wins_over_flatten() {
    let mut bad = FieldDescriptor {
        name: "bad".to_string(),
        schema: Schema::new_string(),
        schema_ref: RefOr::Item(Schema::new_string()),
        flatten: true,
        attrs: plain_attrs(),
    };
    bad.attrs.skip = true;
    let s = compose_fields(vec![bad], None).unwrap();
    let SchemaKind::Object(o) = s.kind else { panic!() };
    assert!(o.properties.is_empty());
}

#[test]
fn test_merge_with() {
    let mut a = FieldAttributes { skip: false, skip_serializing_if: None, inline: true };
    let b = FieldAttributes {
        skip: true,
        skip_serializing_if: Some("Option::is_none".to_string()),
        inline: false,
    };
    a.merge_with(&b);
    assert!(a.skip);
    assert!(a.inline);
    assert_eq!(a.skip_serializing_if, Some("Option::is_none".to_string()));
}

#[test]
fn test_description_is_kept() {
    let s = compose_fields(vec![field("a", Schema::new_string())], Some("Docs.".to_string()))
        .unwrap();
    assert_eq!(s.description, Some("Docs.".to_string()));
}
