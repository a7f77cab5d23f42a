use oasgen::document::build_document;
use oasgen::{RefOr, Registry, Schema, SchemaKind};

#[test]
fn test_registry_is_write_once() {
    let mut reg: Registry<Schema> = Registry::new();
    reg.register("A".to_string(), Schema::new_string());
    reg.register("A".to_string(), Schema::new_integer());
    assert_eq!(reg.entries.len(), 1);
    assert_eq!(reg.entries[0].1, Schema::new_string());
}

#[test]
fn test_registry_determinism() {
    // Registering "B" then "A" and registering "A" then "B" build the very
    // same document, with "A" sorted before "B".
    let mut first: Registry<Schema> = Registry::new();
    first.register("B".to_string(), Schema::new_integer());
    first.register("A".to_string(), Schema::new_string());
    let mut second: Registry<Schema> = Registry::new();
    second.register("A".to_string(), Schema::new_string());
    second.register("B".to_string(), Schema::new_integer());

    let d1 = build_document(first).unwrap();
    let d2 = build_document(second).unwrap();
    assert_eq!(d1, d2);
    assert_eq!(d1.schemas[0].0, "A");
    assert_eq!(d1.schemas[1].0, "B");
}

#[test]
fn test_sorted_output_is_lexicographic() {
    let mut reg: Registry<Schema> = Registry::new();
    reg.register("Zebra".to_string(), Schema::new_string());
    reg.register("Apple".to_string(), Schema::new_string());
    reg.register("Mango".to_string(), Schema::new_string());
    let d = build_document(reg).unwrap();
    let names: Vec<&str> = d.schemas.iter().map(|e| e.0.as_str()).collect();
    assert_eq!(names, vec!["Apple", "Mango", "Zebra"]);
}

#[test]
fn test_dangling_reference_is_fatal() {
    // A registered schema holding a reference to a name absent from the
    // registry fails the build with a resolution error naming it.
    let mut reg: Registry<Schema> = Registry::new();
    reg.register(
        "Holder".to_string(),
        Schema::new_array(RefOr::Reference("Missing".to_string())),
    );
    let err = build_document(reg).unwrap_err();
    let oasgen::BuildError::SchemaResolutionError { name } = err else { panic!() };
    assert_eq!(name, "Missing");
}

#[test]
fn test_resolving_reference_builds() {
    let mut reg: Registry<Schema> = Registry::new();
    reg.register("Item".to_string(), Schema::new_string());
    reg.register(
        "Holder".to_string(),
        Schema::new_array(RefOr::Reference("Item".to_string())),
    );
    let d = build_document(reg).unwrap();
    assert_eq!(d.schemas.len(), 2);
    assert!(d.paths.is_empty());
}

#[test]
fn test_nested_dangling_reference_is_found() {
    // The resolution check walks nested object properties too.
    let mut inner = oasgen::ObjectType {
        properties: Vec::new(),
        required: Vec::new(),
        additional_properties: None,
    };
    inner.properties.push(("deep".to_string(), RefOr::Reference("Nowhere".to_string())));
    let nested = Schema {
        kind: SchemaKind::Object(inner),
        nullable: false,
        description: None,
    };
    let mut reg: Registry<Schema> = Registry::new();
    reg.register("Outer".to_string(), nested);
    let err = build_document(reg).unwrap_err();
    let oasgen::BuildError::SchemaResolutionError { name } = err else { panic!() };
    assert_eq!(name, "Nowhere");
}
