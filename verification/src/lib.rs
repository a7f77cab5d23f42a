//! Composition of OpenAPI-style documents from statically declared data
//! shapes and endpoint signatures.
//!
//! The crate turns descriptions of composite types (field lists with
//! per-field policy), sum types (variant lists with a tagging strategy) and
//! endpoint signatures (ordered parameter sources, a success type and a table
//! of failure facts) into a normalized document: named schemas, per-path
//! operations with ordered parameters, request and response bodies and an
//! aggregated error table.

pub mod compose;
pub mod descriptor;
pub mod document;
pub mod format;
pub mod operation;
pub mod registry;
pub mod schema;
pub mod server;
pub mod swagger;
pub mod tagging;
pub mod text;

pub use compose::{ComposeError, FieldAttributes, FieldDescriptor, OpenApiAttributes};
pub use descriptor::{OaParameter, OaSchema};
pub use document::{generate_openapi, scoped_path, BuildError, Document, Method, PathItem};
pub use format::Format;
pub use operation::{
    AssembleError, BodyPolicy, Operation, OperationAttributes, Parameter, ParameterLocation,
    ParameterSource,
};
pub use registry::Registry;
pub use schema::{ObjectType, RefOr, Schema, SchemaKind};
pub use server::Server;
pub use text::normalize_docstring;
pub use swagger::{Config, MimeKind, SwaggerUi, UiAsset, Url};
pub use tagging::{TagType, TypeShape, VariantDescriptor, VariantShape};
