use oasgen::operation::{
    aggregate_errors, assemble_operation, fn_path_to_op_id, path_parameters, query_parameters,
};
use oasgen::{
    AssembleError, BodyPolicy, ObjectType, Operation, OperationAttributes, ParameterLocation,
    ParameterSource, RefOr, Schema, SchemaKind,
};

fn empty_attrs() -> OperationAttributes {
    OperationAttributes {
        summary: None,
        description: None,
        tags: Vec::new(),
        operation_id: None,
        deprecated: false,
    }
}

fn object_of(props: Vec<(&str, Schema)>) -> Schema {
    let mut o = ObjectType {
        properties: Vec::new(),
        required: Vec::new(),
        additional_properties: None,
    };
    for (name, schema) in props {
        o.properties.push((name.to_string(), RefOr::Item(schema)));
    }
    Schema { kind: SchemaKind::Object(o), nullable: false, description: None }
}

#[test]
fn test_error_aggregation_joins_messages() {
    // Two failure facts for status 404 yield one response entry whose
    // description holds both messages.
    let errors = vec![
        (404u16, "not found A".to_string()),
        (404u16, "not found B".to_string()),
    ];
    let responses = aggregate_errors(errors);
    assert_eq!(responses.len(), 1);
    assert_eq!(responses[0].0, 404);
    assert_eq!(responses[0].1, "Possible reasons:\n- not found A\n- not found B");
    assert!(responses[0].1.contains("not found A"));
    assert!(responses[0].1.contains("not found B"));
}

#[test]
fn test_single_error_message_stands_alone() {
    let responses = aggregate_errors(vec![(500u16, "boom".to_string())]);
    assert_eq!(responses, vec![(500u16, "boom".to_string())]);
}

#[test]
fn test_statuses_keep_first_occurrence_order() {
    let responses = aggregate_errors(vec![
        (500u16, "a".to_string()),
        (404u16, "b".to_string()),
        (500u16, "c".to_string()),
    ]);
    assert_eq!(responses.len(), 2);
    assert_eq!(responses[0].0, 500);
    assert_eq!(responses[0].1, "Possible reasons:\n- a\n- c");
    assert_eq!(responses[1].0, 404);
    assert_eq!(responses[1].1, "b");
}

#[test]
fn test_fn_path_to_op_id() {
    assert_eq!(
        fn_path_to_op_id("my_app::handlers::send_code"),
        Some("handlers_send_code".to_string())
    );
    assert_eq!(fn_path_to_op_id("my_app::send_code"), Some("send_code".to_string()));
    assert_eq!(fn_path_to_op_id("send_code"), Some("".to_string()));
}

#[test]
fn test_path_parameters_from_object() {
    let params = path_parameters(vec![object_of(vec![
        ("id", Schema::new_integer()),
        ("sub", Schema::new_string()),
    ])]);
    assert_eq!(params.len(), 2);
    let RefOr::Item(p0) = &params[0] else { panic!() };
    assert_eq!(p0.name, "id");
    assert_eq!(p0.location, ParameterLocation::Path);
    assert!(p0.required);
    let RefOr::Item(p1) = &params[1] else { panic!() };
    assert_eq!(p1.name, "sub");
}

#[test]
fn test_path_parameters_positional_names() {
    let params = path_parameters(vec![Schema::new_integer(), Schema::new_string()]);
    assert_eq!(params.len(), 2);
    let RefOr::Item(p0) = &params[0] else { panic!() };
    assert_eq!(p0.name, "path0");
    let RefOr::Item(p1) = &params[1] else { panic!() };
    assert_eq!(p1.name, "path1");
}

#[test]
fn test_query_parameters_ignore_non_objects() {
    let params = query_parameters(vec![
        Schema::new_integer(),
        object_of(vec![("q", Schema::new_string())]),
    ]);
    assert_eq!(params.len(), 1);
    let RefOr::Item(p) = &params[0] else { panic!() };
    assert_eq!(p.name, "q");
    assert_eq!(p.location, ParameterLocation::Query);
    assert!(!p.required);
}

#[test]
fn test_assemble_takes_last_body() {
    let sources = vec![
        ParameterSource::Query(vec![object_of(vec![("q", Schema::new_string())])]),
        ParameterSource::Body(RefOr::Reference("SendCode".to_string())),
    ];
    let op = assemble_operation(
        empty_attrs(),
        "app::send_code",
        sources,
        Some(RefOr::Reference("SendCodeResponse".to_string())),
        Vec::new(),
        BodyPolicy::PreferLast,
    )
    .unwrap();
    assert_eq!(op.request_body, Some(RefOr::Reference("SendCode".to_string())));
    assert_eq!(op.success_response, Some(RefOr::Reference("SendCodeResponse".to_string())));
    assert_eq!(op.parameters.len(), 1);
    assert_eq!(op.operation_id, Some("send_code".to_string()));
}

#[test]
fn test_earlier_body_is_silently_ignored_by_default() {
    let sources = vec![
        ParameterSource::Body(RefOr::Reference("First".to_string())),
        ParameterSource::Header,
    ];
    let op = assemble_operation(
        empty_attrs(),
        "app::h",
        sources,
        None,
        Vec::new(),
        BodyPolicy::PreferLast,
    )
    .unwrap();
    assert_eq!(op.request_body, None);
}

#[test]
fn test_ambiguous_bodies_can_be_rejected() {
    let sources = vec![
        ParameterSource::Body(RefOr::Reference("First".to_string())),
        ParameterSource::Body(RefOr::Reference("Second".to_string())),
    ];
    let err = assemble_operation(
        empty_attrs(),
        "app::h",
        sources,
        None,
        Vec::new(),
        BodyPolicy::RejectAmbiguous,
    )
    .unwrap_err();
    assert_eq!(err, AssembleError::AmbiguousBodyParameter);
}

#[test]
fn test_explicit_operation_id_wins() {
    let mut attrs = empty_attrs();
    attrs.operation_id = Some("custom".to_string());
    let op = assemble_operation(
        attrs,
        "app::h",
        Vec::new(),
        None,
        Vec::new(),
        BodyPolicy::PreferLast,
    )
    .unwrap();
    assert_eq!(op.operation_id, Some("custom".to_string()));
}

#[test]
fn test_docstring_becomes_description() {
    let mut attrs = empty_attrs();
    attrs.merge_attributes(Some("Sends a code.".to_string()));
    let op = assemble_operation(
        attrs,
        "app::h",
        Vec::new(),
        None,
        Vec::new(),
        BodyPolicy::PreferLast,
    )
    .unwrap();
    assert_eq!(op.description, Some("Sends a code.".to_string()));
}

#[test]
fn test_default_operation_is_empty() {
    let op = Operation::default();
    assert!(op.operation_id.is_none());
    assert!(op.parameters.is_empty());
    assert!(op.request_body.is_none());
    assert!(op.success_response.is_none());
    assert!(op.responses.is_empty());
    assert!(!op.deprecated);
}

#[test]
fn test_normalize_docstring() {
    let lines = vec![" Sends a code. ".to_string(), "  Second line.\n Third.".to_string()];
    let d = oasgen::normalize_docstring(lines).unwrap();
    assert_eq!(d, "Sends a code.\nSecond line.\nThird.");
}

#[test]
fn test_normalize_docstring_empty() {
    assert_eq!(oasgen::normalize_docstring(Vec::new()), None);
}

#[test]
fn test_scoped_path_joins_with_one_slash() {
    assert_eq!(oasgen::scoped_path("/api/", "/pets"), "/api/pets");
    assert_eq!(oasgen::scoped_path("/api/", "pets"), "/api/pets");
    assert_eq!(oasgen::scoped_path("/api", "/pets"), "/api/pets");
    assert_eq!(oasgen::scoped_path("/api", "pets"), "/api/pets");
}

#[test]
fn test_open_api_attributes_merge() {
    let mut a = oasgen::OpenApiAttributes { skip: false, skip_serializing_if: None };
    let b = oasgen::OpenApiAttributes {
        skip: true,
        skip_serializing_if: Some("Option::is_none".to_string()),
    };
    a.merge_with(&b);
    assert!(a.skip);
    assert_eq!(a.skip_serializing_if, Some("Option::is_none".to_string()));
}
