use oasgen::document::{modify_parameter_names, replace_path_params};
use oasgen::{
    BuildError, Format, Method, Operation, Parameter, PathItem, RefOr, Registry, Schema, Server,
};

fn op_with_params(params: Vec<RefOr<Parameter>>) -> Operation {
    let mut op = Operation::default();
    op.parameters = params;
    op
}

#[test]
fn test_modify_parameter_names() {
    let path = "/api/v1/pet/{id}/";
    let mut operation = Operation::default();
    operation.parameters.push(RefOr::Item(Parameter::path(
        "path".to_string(),
        RefOr::Item(Schema::new_number()),
    )));
    operation.parameters.push(RefOr::Item(Parameter::query(
        "query".to_string(),
        RefOr::Item(Schema::new_number()),
    )));
    modify_parameter_names(&mut operation, path);
    let RefOr::Item(p0) = &operation.parameters[0] else { panic!() };
    assert_eq!(p0.name, "id", "path param name is updated");
    let RefOr::Item(p1) = &operation.parameters[1] else { panic!() };
    assert_eq!(p1.name, "query", "leave query param alone");
}

#[test]
fn test_replace_path_params() {
    let path = "/api/v1/pet/:id/";
    let path = replace_path_params(path);
    assert_eq!(path, "/api/v1/pet/{id}/");

    let path = "/api/v1/pet/:id";
    let path = replace_path_params(path);
    assert_eq!(path, "/api/v1/pet/{id}");
}

#[test]
fn test_replace_path_params_leaves_plain_paths() {
    assert_eq!(replace_path_params("/hello"), "/hello");
    assert_eq!(replace_path_params(""), "");
}

#[test]
fn test_path_reconciliation_two_tokens() {
    // Two positional path parameters mounted at /x/{id}/{sub} take the
    // names id and sub, in order.
    let mut op = op_with_params(vec![
        RefOr::Item(Parameter::path("path0".to_string(), RefOr::Item(Schema::new_integer()))),
        RefOr::Item(Parameter::path("path1".to_string(), RefOr::Item(Schema::new_string()))),
    ]);
    modify_parameter_names(&mut op, "/x/{id}/{sub}");
    let RefOr::Item(p0) = &op.parameters[0] else { panic!() };
    let RefOr::Item(p1) = &op.parameters[1] else { panic!() };
    assert_eq!(p0.name, "id");
    assert_eq!(p1.name, "sub");
}

fn server_with_one_operation(key: &str) -> Server {
    let mut schemas: Registry<Schema> = Registry::new();
    schemas.register("SendCode".to_string(), Schema::new_string());
    let mut operations: Registry<Operation> = Registry::new();
    let mut op = Operation::default();
    op.request_body = Some(RefOr::Reference("SendCode".to_string()));
    operations.register(key.to_string(), op);
    Server::new(schemas, operations).unwrap()
}

#[test]
fn test_server_mounts_handler() {
    let server = server_with_one_operation("app::send_code");
    let server = server.get("/hello", "app::send_code").unwrap();
    assert_eq!(server.openapi.paths.len(), 1);
    assert_eq!(server.openapi.paths[0].0, "/hello");
    let RefOr::Item(item) = &server.openapi.paths[0].1 else { panic!() };
    assert!(item.get.is_some());
    assert!(item.post.is_none());
}

#[test]
fn test_server_rewrites_colon_paths() {
    let mut schemas: Registry<Schema> = Registry::new();
    schemas.register("Pet".to_string(), Schema::new_string());
    let mut operations: Registry<Operation> = Registry::new();
    operations.register(
        "app::get_pet".to_string(),
        op_with_params(vec![RefOr::Item(Parameter::path(
            "path0".to_string(),
            RefOr::Item(Schema::new_integer()),
        ))]),
    );
    let server = Server::new(schemas, operations).unwrap();
    let server = server.get("/pet/:id", "app::get_pet").unwrap();
    assert_eq!(server.openapi.paths[0].0, "/pet/{id}");
    let RefOr::Item(item) = &server.openapi.paths[0].1 else { panic!() };
    let op = item.get.as_ref().unwrap();
    let RefOr::Item(p) = &op.parameters[0] else { panic!() };
    assert_eq!(p.name, "id");
}

#[test]
fn test_unknown_operation_key_is_an_error() {
    let server = server_with_one_operation("app::send_code");
    let err = server.get("/hello", "app::missing").unwrap_err();
    let BuildError::OperationNotFound { key } = err else { panic!() };
    assert_eq!(key, "app::missing");
}

#[test]
fn test_operation_with_dangling_reference_is_an_error() {
    let schemas: Registry<Schema> = Registry::new();
    let mut operations: Registry<Operation> = Registry::new();
    let mut op = Operation::default();
    op.request_body = Some(RefOr::Reference("Nowhere".to_string()));
    operations.register("app::h".to_string(), op);
    let server = Server::new(schemas, operations).unwrap();
    let err = server.post("/x", "app::h").unwrap_err();
    let BuildError::SchemaResolutionError { name } = err else { panic!() };
    assert_eq!(name, "Nowhere");
}

#[test]
fn test_reference_path_item_is_unsupported() {
    let mut doc = oasgen::Document { schemas: Vec::new(), paths: Vec::new() };
    doc.paths.push(("/x".to_string(), RefOr::Reference("elsewhere".to_string())));
    let err = doc.add_operation("/x".to_string(), Method::Get, Operation::default()).unwrap_err();
    let BuildError::UnsupportedPathItemReference { path } = err else { panic!() };
    assert_eq!(path, "/x");
}

#[test]
fn test_two_verbs_share_one_path_item() {
    let mut doc = oasgen::Document { schemas: Vec::new(), paths: Vec::new() };
    doc.add_operation("/x".to_string(), Method::Get, Operation::default()).unwrap();
    doc.add_operation("/x".to_string(), Method::Post, Operation::default()).unwrap();
    assert_eq!(doc.paths.len(), 1);
    let RefOr::Item(item) = &doc.paths[0].1 else { panic!() };
    assert!(item.get.is_some());
    assert!(item.post.is_some());
}

#[test]
fn test_route_builders() {
    let server = server_with_one_operation("app::h")
        .route_json_spec("/openapi.json")
        .route_yaml_spec("/openapi.yaml")
        .prefix("/api");
    assert_eq!(server.json_route.as_deref(), Some("/openapi.json"));
    assert_eq!(server.yaml_route.as_deref(), Some("/openapi.yaml"));
    assert_eq!(server.prefix.as_deref(), Some("/api"));
}

#[test]
fn test_swagger_ui_route_points_at_spec() {
    let server = server_with_one_operation("app::h")
        .route_yaml_spec("/docs/openapi.yaml")
        .route_json_spec("/docs/openapi.json")
        .swagger_ui("/docs/");
    assert_eq!(server.swagger_ui_route.as_deref(), Some("/docs/"));
    let ui = server.swagger_ui.unwrap();
    assert_eq!(ui.prefix, "/docs");
    assert_eq!(ui.config.urls.len(), 1);
    assert_eq!(ui.config.urls[0].url, "/docs/openapi.json");
}

#[test]
fn test_format_decision() {
    assert_eq!(Format::sync_from_req("/spec.json", None), Format::Json);
    assert_eq!(Format::sync_from_req("/spec.yaml", None), Format::Yaml);
    assert_eq!(Format::sync_from_req("/spec", Some("text/html,application/json")), Format::Html);
    assert_eq!(Format::sync_from_req("/spec", Some("application/json")), Format::Json);
    assert_eq!(Format::sync_from_req("/spec", Some("image/png")), Format::Plain);
    assert_eq!(Format::sync_from_req("/spec", None), Format::Plain);
}

#[test]
fn test_spec_file_extension_choice() {
    assert!(Server::spec_file_wants_json("target/openapi.json"));
    assert!(!Server::spec_file_wants_json("target/openapi.yaml"));
}

#[test]
fn test_fresh_path_item_is_empty() {
    let item = PathItem::new();
    assert!(item.get.is_none());
    assert!(item.trace.is_none());
}

#[test]
fn test_inspect_passes_the_document_through() {
    let server = server_with_one_operation("app::h");
    let server = server.inspect(|doc| {
        assert_eq!(doc.schemas.len(), 1);
    });
    assert_eq!(server.openapi.schemas.len(), 1);
}
