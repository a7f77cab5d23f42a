use oasgen::{OaSchema, ObjectType, RefOr, Schema, SchemaKind};

#[test]
#[allow(non_snake_case)]
fn test_String_schema() {
    let s = <String as OaSchema>::schema();
    let SchemaKind::Text = s.kind else { panic!() };
}

#[test]
fn test_primitive_schemas() {
    assert_eq!(<bool as OaSchema>::schema().kind, SchemaKind::Boolean);
    assert_eq!(<u8 as OaSchema>::schema().kind, SchemaKind::Integer);
    assert_eq!(<i64 as OaSchema>::schema().kind, SchemaKind::Integer);
    assert_eq!(<usize as OaSchema>::schema().kind, SchemaKind::Integer);
    assert!(!<u32 as OaSchema>::schema().nullable);
}

#[test]
fn test_vec_schema_is_array() {
    let s = <Vec<String> as OaSchema>::schema();
    let SchemaKind::Array(item) = s.kind else { panic!() };
    let RefOr::Item(inner) = *item else { panic!() };
    assert_eq!(inner.kind, SchemaKind::Text);
}

#[test]
fn test_option_schema_is_nullable() {
    let s = <Option<String> as OaSchema>::schema();
    assert_eq!(s.kind, SchemaKind::Text);
    assert!(s.nullable);

    let r = <Option<u32> as OaSchema>::schema_ref();
    let RefOr::Item(inner) = r else { panic!() };
    assert!(inner.nullable);
}

#[test]
fn test_object_insert_appends_in_order() {
    let mut o = ObjectType::new();
    o.insert("a".to_string(), RefOr::Item(Schema::new_string()));
    o.insert("b".to_string(), RefOr::Item(Schema::new_integer()));
    assert_eq!(o.properties.len(), 2);
    assert_eq!(o.properties[0].0, "a");
    assert_eq!(o.properties[1].0, "b");
}

#[test]
fn test_object_insert_replaces_in_place() {
    let mut o = ObjectType::new();
    o.insert("a".to_string(), RefOr::Item(Schema::new_string()));
    o.insert("b".to_string(), RefOr::Item(Schema::new_integer()));
    o.insert("a".to_string(), RefOr::Item(Schema::new_bool()));
    assert_eq!(o.properties.len(), 2);
    assert_eq!(o.properties[0].0, "a");
    assert_eq!(o.properties[0].1, RefOr::Item(Schema::new_bool()));
    assert_eq!(o.properties[1].0, "b");
}

#[test]
fn test_map_schema_sets_additional_properties() {
    let s = Schema::new_map(RefOr::Item(Schema::new_integer()));
    let SchemaKind::Object(o) = s.kind else { panic!() };
    assert!(o.properties.is_empty());
    assert_eq!(*o.additional_properties.unwrap(), RefOr::Item(Schema::new_integer()));
}
