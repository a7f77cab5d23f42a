//! The server-side assembly: the built document, the operation table, and
//! the routes the document and its browser are served under.

use vstd::prelude::*;

use crate::document::{
    braced_path, build_document, mounted, operation_refs_ok, registry_refs_ok, renamed_for_path,
    replace_path_params, BuildError, Document, Method,
};
use crate::operation::Operation;
use crate::registry::{entry_index, entry_names, has_entry, Registry};
use crate::schema::Schema;
use crate::swagger::{SwaggerUi, Url};
use crate::text::str_ends_with;

verus! {

/// The spec-serving state: the assembled document, the not-yet-mounted
/// operations, and the configured routes.
#[derive(Debug, PartialEq)]
pub struct Server {
    pub openapi: Document,
    pub operations: Registry<Operation>,
    pub prefix: Option<String>,
    pub json_route: Option<String>,
    pub yaml_route: Option<String>,
    pub swagger_ui_route: Option<String>,
    pub swagger_ui: Option<SwaggerUi>,
}

/// The parts of a server that mounting a handler leaves alone.
pub open spec fn server_routes(s: Server) -> (
    Option<String>,
    Option<String>,
    Option<String>,
    Option<String>,
    Option<SwaggerUi>,
) {
    (s.prefix, s.json_route, s.yaml_route, s.swagger_ui_route, s.swagger_ui)
}

/// One handler mounted: the operation registered under the key leaves the
/// table, is renamed against the braced mount path, and fills the verb
/// slot of that path's item.
pub open spec fn handler_added(
    s0: Server,
    s1: Server,
    path: Seq<char>,
    m: Method,
    key: Seq<char>,
) -> bool {
    &&& has_entry(s0.operations.entries@, key)
    &&& s1.operations.entries@ =~= s0.operations.entries@.remove(
        entry_index(s0.operations.entries@, key),
    )
    &&& s1.openapi.schemas == s0.openapi.schemas
    &&& server_routes(s1) == server_routes(s0)
    &&& exists|renamed: Operation|
        {
            &&& #[trigger] renamed_for_path(
                s0.operations.entries@[entry_index(s0.operations.entries@, key)].1,
                renamed,
                braced_path(path),
            )
            &&& mounted(s0.openapi.paths@, s1.openapi.paths@, braced_path(path), m, renamed)
        }
}

impl Server {
    /// Build a server over a schema registry and an operation table: the
    /// document is assembled with the registry's schemas in stable order,
    /// every reference resolved, and no routes configured yet.
    pub fn new(schemas: Registry<Schema>, operations: Registry<Operation>) -> (r: Result<
        Server,
        BuildError,
    >)
        ensures
            r is Ok <==> registry_refs_ok(schemas.entries@),
            r matches Ok(s) ==> {
                &&& crate::registry::entries_sorted(s.openapi.schemas@)
                &&& s.openapi.schemas@.to_multiset() == schemas.entries@.to_multiset()
                &&& s.openapi.paths@ =~= Seq::<(String, crate::schema::RefOr<
                    crate::document::PathItem,
                >)>::empty()
                &&& s.operations == operations
                &&& s.prefix is None
                &&& s.json_route is None
                &&& s.yaml_route is None
                &&& s.swagger_ui_route is None
                &&& s.swagger_ui is None
            },
            r matches Err(e) ==> e matches BuildError::SchemaResolutionError { name }
                && !entry_names(schemas.entries@).contains(name@),
    {
        let openapi = match build_document(schemas) {
            Ok(d) => d,
            Err(e) => {
                return Err(e);
            },
        };
        Ok(
            Server {
                openapi,
                operations,
                prefix: None,
                json_route: None,
                yaml_route: None,
                swagger_ui_route: None,
                swagger_ui: None,
            },
        )
    }

    /// Mount the operation registered under a key at a path and verb. The
    /// path may carry `/:name` placeholders; they are rewritten to braces
    /// and reconciled against the operation's path parameters.
    pub fn add_handler_to_spec(&mut self, path: &str, method: Method, key: &str) -> (r: Result<
        (),
        BuildError,
    >)
        ensures
            ({
                let ops = old(self).operations.entries@;
                let names = entry_names(old(self).openapi.schemas@);
                let registered = ops[entry_index(ops, key@)].1;
                let mount = braced_path(path@);
                let paths0 = old(self).openapi.paths@;
                &&& (r is Ok <==> has_entry(ops, key@) && operation_refs_ok(registered, names)
                    && !(has_entry(paths0, mount) && paths0[entry_index(paths0, mount)].1
                    is Reference))
                &&& (r is Ok ==> handler_added(*old(self), *final(self), path@, method, key@))
                &&& final(self).openapi.schemas == old(self).openapi.schemas
                &&& (r matches Err(e) ==> final(self).openapi.paths@
                    == old(self).openapi.paths@ && server_routes(*final(self)) == server_routes(
                    *old(self),
                ) && {
                    ||| (e matches BuildError::OperationNotFound { key: k } && k@ == key@
                        && !has_entry(ops, key@) && *final(self) == *old(self))
                    ||| (e is SchemaResolutionError && has_entry(ops, key@)
                        && !operation_refs_ok(registered, names))
                    ||| (e matches BuildError::UnsupportedPathItemReference { path: p } && p@
                        == mount && operation_refs_ok(registered, names))
                })
            }),
    {
        let braced = replace_path_params(path);
        let key_string = String::from_str(key);
        let taken = self.operations.take(&key_string);
        let mut op = match taken {
            Some(op) => op,
            None => {
                return Err(BuildError::OperationNotFound { key: key_string });
            },
        };
        let ghost registered = op;
        crate::document::modify_parameter_names(&mut op, braced.as_str());
        let ghost renamed = op;
        proof {
            assert(renamed_for_path(registered, renamed, braced_path(path@)));
            crate::document::lemma_rename_preserves_refs(
                registered,
                renamed,
                braced_path(path@),
                entry_names(old(self).openapi.schemas@),
            );
        }
        let outcome = self.openapi.add_operation(braced, method, op);
        match outcome {
            Ok(()) => {
                proof {
                    assert(handler_added(*old(self), *self, path@, method, key@));
                }
                Ok(())
            },
            Err(e) => Err(e),
        }
    }

    /// Mount a handler's operation with the get verb.
    pub fn get(self, path: &str, key: &str) -> (r: Result<Server, BuildError>)
        ensures
            r is Ok <==> ({
                let ops = self.operations.entries@;
                let paths0 = self.openapi.paths@;
                has_entry(ops, key@) && operation_refs_ok(
                    ops[entry_index(ops, key@)].1,
                    entry_names(self.openapi.schemas@),
                ) && !(has_entry(paths0, braced_path(path@)) && paths0[entry_index(
                    paths0,
                    braced_path(path@),
                )].1 is Reference)
            }),
            r matches Ok(s) ==> handler_added(self, s, path@, Method::Get, key@),
    {
        let mut this = self;
        match this.add_handler_to_spec(path, Method::Get, key) {
            Ok(()) => Ok(this),
            Err(e) => Err(e),
        }
    }

    /// Mount a handler's operation with the post verb.
    pub fn post(self, path: &str, key: &str) -> (r: Result<Server, BuildError>)
        ensures
            r is Ok <==> ({
                let ops = self.operations.entries@;
                let paths0 = self.openapi.paths@;
                has_entry(ops, key@) && operation_refs_ok(
                    ops[entry_index(ops, key@)].1,
                    entry_names(self.openapi.schemas@),
                ) && !(has_entry(paths0, braced_path(path@)) && paths0[entry_index(
                    paths0,
                    braced_path(path@),
                )].1 is Reference)
            }),
            r matches Ok(s) ==> handler_added(self, s, path@, Method::Post, key@),
    {
        let mut this = self;
        match this.add_handler_to_spec(path, Method::Post, key) {
            Ok(()) => Ok(this),
            Err(e) => Err(e),
        }
    }

    /// Mount a handler's operation with the put verb.
    pub fn put(self, path: &str, key: &str) -> (r: Result<Server, BuildError>)
        ensures
            r is Ok <==> ({
                let ops = self.operations.entries@;
                let paths0 = self.openapi.paths@;
                has_entry(ops, key@) && operation_refs_ok(
                    ops[entry_index(ops, key@)].1,
                    entry_names(self.openapi.schemas@),
                ) && !(has_entry(paths0, braced_path(path@)) && paths0[entry_index(
                    paths0,
                    braced_path(path@),
                )].1 is Reference)
            }),
            r matches Ok(s) ==> handler_added(self, s, path@, Method::Put, key@),
    {
        let mut this = self;
        match this.add_handler_to_spec(path, Method::Put, key) {
            Ok(()) => Ok(this),
            Err(e) => Err(e),
        }
    }

    /// Mount a handler's operation with the delete verb.
    pub fn delete(self, path: &str, key: &str) -> (r: Result<Server, BuildError>)
        ensures
            r is Ok <==> ({
                let ops = self.operations.entries@;
                let paths0 = self.openapi.paths@;
                has_entry(ops, key@) && operation_refs_ok(
                    ops[entry_index(ops, key@)].1,
                    entry_names(self.openapi.schemas@),
                ) && !(has_entry(paths0, braced_path(path@)) && paths0[entry_index(
                    paths0,
                    braced_path(path@),
                )].1 is Reference)
            }),
            r matches Ok(s) ==> handler_added(self, s, path@, Method::Delete, key@),
    {
        let mut this = self;
        match this.add_handler_to_spec(path, Method::Delete, key) {
            Ok(()) => Ok(this),
            Err(e) => Err(e),
        }
    }

    /// Mount a handler's operation with the patch verb.
    pub fn patch(self, path: &str, key: &str) -> (r: Result<Server, BuildError>)
        ensures
            r is Ok <==> ({
                let ops = self.operations.entries@;
                let paths0 = self.openapi.paths@;
                has_entry(ops, key@) && operation_refs_ok(
                    ops[entry_index(ops, key@)].1,
                    entry_names(self.openapi.schemas@),
                ) && !(has_entry(paths0, braced_path(path@)) && paths0[entry_index(
                    paths0,
                    braced_path(path@),
                )].1 is Reference)
            }),
            r matches Ok(s) ==> handler_added(self, s, path@, Method::Patch, key@),
    {
        let mut this = self;
        match this.add_handler_to_spec(path, Method::Patch, key) {
            Ok(()) => Ok(this),
            Err(e) => Err(e),
        }
    }

    /// Serve the document as JSON under the given route.
    pub fn route_json_spec(self, path: &str) -> (r: Server)
        ensures
            r.json_route matches Some(p) && p@ == path@,
            r.openapi == self.openapi,
            r.operations == self.operations,
            r.prefix == self.prefix,
            r.yaml_route == self.yaml_route,
            r.swagger_ui_route == self.swagger_ui_route,
            r.swagger_ui == self.swagger_ui,
    {
        let mut this = self;
        this.json_route = Some(String::from_str(path));
        this
    }

    /// Serve the document as YAML under the given route.
    pub fn route_yaml_spec(self, path: &str) -> (r: Server)
        ensures
            r.yaml_route matches Some(p) && p@ == path@,
            r.openapi == self.openapi,
            r.operations == self.operations,
            r.prefix == self.prefix,
            r.json_route == self.json_route,
            r.swagger_ui_route == self.swagger_ui_route,
            r.swagger_ui == self.swagger_ui,
    {
        let mut this = self;
        this.yaml_route = Some(String::from_str(path));
        this
    }

    /// Mount every route under a path prefix.
    pub fn prefix(self, prefix: &str) -> (r: Server)
        ensures
            r.prefix matches Some(p) && p@ == prefix@,
            r.openapi == self.openapi,
            r.operations == self.operations,
            r.json_route == self.json_route,
            r.yaml_route == self.yaml_route,
            r.swagger_ui_route == self.swagger_ui_route,
            r.swagger_ui == self.swagger_ui,
    {
        let mut this = self;
        this.prefix = Some(String::from_str(prefix));
        this
    }

    /// Serve the documentation browser under the given route, which must
    /// end with a slash; the browser points at the JSON route when one is
    /// set, else at the YAML route, one of which must be.
    pub fn swagger_ui(self, swagger_ui_route: &str) -> (r: Server)
        requires
            swagger_ui_route@.len() > 0,
            swagger_ui_route@.last() == '/',
            self.json_route is Some || self.yaml_route is Some,
        ensures
            r.swagger_ui_route matches Some(p) && p@ == swagger_ui_route@,
            r.swagger_ui matches Some(ui) && {
                &&& ui.prefix@ == swagger_ui_route@.take(swagger_ui_route@.len() - 1)
                &&& ui.config.urls@.len() == 1
                &&& ui.config.urls@[0].url@ == (if self.json_route is Some {
                    self.json_route->0@
                } else {
                    self.yaml_route->0@
                })
            },
            r.openapi == self.openapi,
            r.operations == self.operations,
            r.prefix == self.prefix,
            r.json_route == self.json_route,
            r.yaml_route == self.yaml_route,
    {
        let n = swagger_ui_route.unicode_len();
        let without_trailing = swagger_ui_route.substring_char(0, n - 1);
        proof {
            assert(without_trailing@ =~= swagger_ui_route@.take(swagger_ui_route@.len() - 1));
        }
        let target: String = match &self.json_route {
            Some(p) => p.clone(),
            None => {
                match &self.yaml_route {
                    Some(p) => p.clone(),
                    None => {
                        proof {
                            assert(false);
                        }
                        String::new()
                    },
                }
            },
        };
        let ui = SwaggerUi::default().prefix(without_trailing).url(Url::of_url(target));
        proof {
            assert(ui.config.urls@.len() == 1);
        }
        let mut this = self;
        this.swagger_ui_route = Some(String::from_str(swagger_ui_route));
        this.swagger_ui = Some(ui);
        this
    }

    /// Run a closure over the assembled document, for a look at it while
    /// building.
    pub fn inspect<F: Fn(&Document)>(self, closure: F) -> (r: Server)
        requires
            closure.requires((&self.openapi,)),
        ensures
            r == self,
    {
        closure(&self.openapi);
        self
    }

    /// Whether a spec file path asks for JSON by its extension; any other
    /// extension is served as YAML.
    pub fn spec_file_wants_json(path: &str) -> (r: bool)
        ensures
            r == crate::text::is_suffix_of(".json"@, path@),
    {
        str_ends_with(path, ".json")
    }
}

} // verus!
