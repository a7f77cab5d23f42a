use oasgen::tagging::compose_enum;
use oasgen::{
    FieldAttributes, FieldDescriptor, RefOr, Schema, SchemaKind, TagType, VariantDescriptor,
    VariantShape,
};

fn unit(name: &str) -> VariantDescriptor {
    VariantDescriptor { name: name.to_string(), skip: false, shape: VariantShape::Unit }
}

fn newtype(name: &str, inner: Schema) -> VariantDescriptor {
    VariantDescriptor { name: name.to_string(), skip: false, shape: VariantShape::Newtype(Box::new(inner)) }
}

fn struct_variant(name: &str, fields: Vec<FieldDescriptor>) -> VariantDescriptor {
    VariantDescriptor { name: name.to_string(), skip: false, shape: VariantShape::Fields(fields) }
}

fn field(name: &str, schema: Schema) -> FieldDescriptor {
    let schema_ref = match schema.kind {
        SchemaKind::Integer => RefOr::Item(Schema::new_integer()),
        SchemaKind::Text => RefOr::Item(Schema::new_string()),
        _ => panic!("only primitive fields here"),
    };
    FieldDescriptor {
        name: name.to_string(),
        schema,
        schema_ref,
        flatten: false,
        attrs: FieldAttributes { skip: false, skip_serializing_if: None, inline: false },
    }
}

fn str_enum_values(s: &Schema) -> Vec<String> {
    match &s.kind {
        SchemaKind::StrEnum(v) => v.clone(),
        _ => panic!("expected a string enumeration"),
    }
}

#[test]
fn test_unit_enum_is_string_enumeration() {
    // A sum type of only unit variants A, B, C composes to a string
    // enumeration with values exactly ["A", "B", "C"] in that order.
    let s = compose_enum(vec![unit("A"), unit("B"), unit("C")], &TagType::External).unwrap();
    assert_eq!(str_enum_values(&s), vec!["A".to_string(), "B".to_string(), "C".to_string()]);
}

#[test]
fn test_skipped_unit_variant_is_absent() {
    let mut year = unit("Year");
    year.skip = true;
    let s = compose_enum(
        vec![unit("Day"), unit("Week"), unit("Month"), year],
        &TagType::External,
    )
    .unwrap();
    assert_eq!(
        str_enum_values(&s),
        vec!["Day".to_string(), "Week".to_string(), "Month".to_string()]
    );
}

#[test]
fn test_duration() {
    // Days(u32) | Months(u32) composes to a one-of over `{Days: integer}`
    // and `{Months: integer}`, each wrapper requiring its variant name.
    let s = compose_enum(
        vec![newtype("Days", Schema::new_integer()), newtype("Months", Schema::new_integer())],
        &TagType::External,
    )
    .unwrap();
    let SchemaKind::OneOf(branches) = s.kind else { panic!() };
    assert_eq!(branches.len(), 2);
    let RefOr::Item(first) = &branches[0] else { panic!() };
    let SchemaKind::Object(o) = &first.kind else { panic!() };
    assert_eq!(o.properties.len(), 1);
    assert_eq!(o.properties[0].0, "Days");
    assert_eq!(o.properties[0].1, RefOr::Item(Schema::new_integer()));
    assert_eq!(o.required, vec!["Days".to_string()]);
    let RefOr::Item(second) = &branches[1] else { panic!() };
    let SchemaKind::Object(o2) = &second.kind else { panic!() };
    assert_eq!(o2.properties[0].0, "Months");
}

#[test]
fn test_internally_tagged_struct_variant() {
    // Tag "type", one struct-shaped variant V { f: integer }: the composed
    // object holds the properties f and type, both required.
    let s = compose_enum(
        vec![struct_variant("V", vec![field("f", Schema::new_integer())])],
        &TagType::Internal { tag: "type".to_string() },
    )
    .unwrap();
    let SchemaKind::Object(o) = s.kind else { panic!() };
    let names: Vec<&str> = o.properties.iter().map(|p| p.0.as_str()).collect();
    assert_eq!(names, vec!["f", "type"]);
    let RefOr::Item(tag_schema) = &o.properties[1].1 else { panic!() };
    assert_eq!(str_enum_values(tag_schema), vec!["V".to_string()]);
    assert_eq!(o.required, vec!["f".to_string(), "type".to_string()]);
}

#[test]
fn test_internally_tagged_non_object_uses_all_of() {
    // A newtype variant whose inner schema is not an object combines the
    // tag object and the inner schema with an all-of.
    let inner = Schema::new_one_of(vec![RefOr::Item(Schema::new_integer())]);
    let inner_copy = Schema::new_one_of(vec![RefOr::Item(Schema::new_integer())]);
    let s = compose_enum(
        vec![newtype("D", inner)],
        &TagType::Internal { tag: "type".to_string() },
    )
    .unwrap();
    let SchemaKind::AllOf(parts) = s.kind else { panic!() };
    assert_eq!(parts.len(), 2);
    let RefOr::Item(tag_part) = &parts[0] else { panic!() };
    let SchemaKind::Object(o) = &tag_part.kind else { panic!() };
    assert_eq!(o.properties[0].0, "type");
    assert_eq!(parts[1], RefOr::Item(inner_copy));
}

#[test]
fn test_adjacently_tagged_newtype() {
    // Tag "t", content "c", variant A(integer): the composed object is
    // `{t: enum["A"], c: integer}` with both required.
    let s = compose_enum(
        vec![newtype("A", Schema::new_integer())],
        &TagType::Adjacent { tag: "t".to_string(), content: "c".to_string() },
    )
    .unwrap();
    let SchemaKind::Object(o) = s.kind else { panic!() };
    assert_eq!(o.properties.len(), 2);
    assert_eq!(o.properties[0].0, "t");
    let RefOr::Item(tag_schema) = &o.properties[0].1 else { panic!() };
    assert_eq!(str_enum_values(tag_schema), vec!["A".to_string()]);
    assert_eq!(o.properties[1].0, "c");
    assert_eq!(o.properties[1].1, RefOr::Item(Schema::new_integer()));
    assert_eq!(o.required, vec!["t".to_string(), "c".to_string()]);
}

#[test]
fn test_untagged_uses_inner_schema() {
    let s = compose_enum(vec![newtype("A", Schema::new_integer())], &TagType::Untagged).unwrap();
    assert_eq!(s, Schema::new_integer());
}

#[test]
fn test_mixed_enum_puts_units_last() {
    // A(integer) | B | C { test: integer } | E, externally tagged: the
    // complex branches come first in declaration order and the collapsed
    // unit enumeration comes last.
    let s = compose_enum(
        vec![
            newtype("A", Schema::new_integer()),
            unit("B"),
            struct_variant("C", vec![field("test", Schema::new_integer())]),
            unit("E"),
        ],
        &TagType::External,
    )
    .unwrap();
    let SchemaKind::OneOf(branches) = s.kind else { panic!() };
    assert_eq!(branches.len(), 3);
    let RefOr::Item(last) = &branches[2] else { panic!() };
    assert_eq!(str_enum_values(last), vec!["B".to_string(), "E".to_string()]);
    let RefOr::Item(first) = &branches[0] else { panic!() };
    let SchemaKind::Object(o) = &first.kind else { panic!() };
    assert_eq!(o.properties[0].0, "A");
}

#[test]
fn test_internal_tag_units_become_tag_object() {
    // Unit variants under an internal tag collapse into a tag-only object.
    let s = compose_enum(
        vec![unit("B"), unit("E")],
        &TagType::Internal { tag: "type".to_string() },
    )
    .unwrap();
    let SchemaKind::Object(o) = s.kind else { panic!() };
    assert_eq!(o.properties.len(), 1);
    assert_eq!(o.properties[0].0, "type");
    let RefOr::Item(values) = &o.properties[0].1 else { panic!() };
    assert_eq!(str_enum_values(values), vec!["B".to_string(), "E".to_string()]);
    assert_eq!(o.required, vec!["type".to_string()]);
}
