//! The textual format a served document takes, decided from the request
//! path and the accept header.

use vstd::prelude::*;

use crate::text::{has_substring, is_suffix_of, str_contains, str_ends_with};

verus! {

/// The encoding an output document is served in.
#[derive(Clone, Copy, PartialEq, Eq, Structural, Debug)]
pub enum Format {
    Json,
    Yaml,
    Html,
    Plain,
}

/// The format a request asks for: by path suffix first, then by the accept
/// header, else plain.
pub open spec fn format_decision(path: Seq<char>, accept: Option<Seq<char>>) -> Format {
    if is_suffix_of(".json"@, path) {
        Format::Json
    } else if is_suffix_of(".yaml"@, path) {
        Format::Yaml
    } else if accept matches Some(a) && has_substring(a, "text/html"@) {
        Format::Html
    } else if accept matches Some(a) && has_substring(a, "application/json"@) {
        Format::Json
    } else {
        Format::Plain
    }
}

impl Format {
    /// Decide the format from a request's path and accept header.
    pub fn sync_from_req(path: &str, accept: Option<&str>) -> (r: Format)
        ensures
            r == format_decision(path@, match accept {
                Some(a) => Some(a@),
                None => None,
            }),
    {
        if str_ends_with(path, ".json") {
            return Format::Json;
        }
        if str_ends_with(path, ".yaml") {
            return Format::Yaml;
        }
        match accept {
            Some(a) => {
                if str_contains(a, "text/html") {
                    Format::Html
                } else if str_contains(a, "application/json") {
                    Format::Json
                } else {
                    Format::Plain
                }
            },
            None => Format::Plain,
        }
    }
}

} // verus!
