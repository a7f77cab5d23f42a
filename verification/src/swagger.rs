//! Configuration of the bundled documentation browser, and the dispatch of
//! its asset requests.

use vstd::prelude::*;

use crate::text::{str_eq, str_is_prefix};

verus! {

/// One document location the browser offers.
#[derive(Debug, Clone, PartialEq)]
pub struct Url {
    pub name: String,
    pub url: String,
    pub primary: bool,
}

impl Url {
    /// A location with the given address and no display name.
    pub fn of_url(url: String) -> (r: Url)
        ensures
            r.name@ == Seq::<char>::empty(),
            r.url@ == url@,
            !r.primary,
    {
        let name = String::new();
        Url { name, url, primary: false }
    }
}

impl Default for Url {
    fn default() -> (r: Url)
        ensures
            r.name@ == Seq::<char>::empty(),
            r.url@ == Seq::<char>::empty(),
            !r.primary,
    {
        Url { name: String::new(), url: String::new(), primary: false }
    }
}

impl From<&str> for Url {
    fn from(url: &str) -> (r: Url) {
        Url::of_url(String::from_str(url))
    }
}

impl vstd::std_specs::convert::FromSpecImpl<&str> for Url {
    open spec fn obeys_from_spec() -> bool {
        false
    }

    open spec fn from_spec(v: &str) -> Url {
        arbitrary()
    }
}

impl From<String> for Url {
    fn from(url: String) -> (r: Url) {
        Url::of_url(url)
    }
}

impl vstd::std_specs::convert::FromSpecImpl<String> for Url {
    open spec fn obeys_from_spec() -> bool {
        false
    }

    open spec fn from_spec(v: String) -> Url {
        arbitrary()
    }
}

impl From<&String> for Url {
    fn from(url: &String) -> (r: Url) {
        Url::of_url(url.clone())
    }
}

impl vstd::std_specs::convert::FromSpecImpl<&String> for Url {
    open spec fn obeys_from_spec() -> bool {
        false
    }

    open spec fn from_spec(v: &String) -> Url {
        arbitrary()
    }
}

/// The browser's configuration.
#[derive(Debug, Clone, PartialEq)]
pub struct Config {
    pub config_url: Option<String>,
    pub dom_id: Option<String>,
    pub url: Option<String>,
    pub urls_primary_name: Option<String>,
    pub urls: Vec<Url>,
    pub query_config_enabled: Option<bool>,
    pub deep_linking: Option<bool>,
    pub display_operation_id: Option<bool>,
    pub default_models_expand_depth: Option<i64>,
    pub default_model_expand_depth: Option<i64>,
    pub default_model_rendering: Option<String>,
    pub display_request_duration: Option<bool>,
    pub doc_expansion: Option<String>,
    pub filter: Option<bool>,
    pub max_displayed_tags: Option<u64>,
    pub show_extensions: Option<bool>,
    pub show_common_extensions: Option<bool>,
    pub try_it_out_enabled: Option<bool>,
    pub request_snippets_enabled: Option<bool>,
    pub oauth2_redirect_url: Option<String>,
    pub show_mutated_request: Option<bool>,
    pub supported_submit_methods: Option<Vec<String>>,
    pub validator_url: Option<String>,
    pub with_credentials: Option<bool>,
    pub persist_authorization: Option<bool>,
    pub layout: String,
}

/// Everything of a configuration but its location list.
pub open spec fn config_rest(c: Config) -> (
    Option<String>,
    Option<String>,
    Option<String>,
    Option<String>,
    Option<bool>,
    Option<bool>,
    Option<bool>,
    Option<i64>,
    Option<i64>,
    Option<String>,
    Option<bool>,
    Option<String>,
    Option<bool>,
    Option<u64>,
    Option<bool>,
    Option<bool>,
    Option<bool>,
    Option<bool>,
    Option<String>,
    Option<bool>,
    Option<Vec<String>>,
    Option<String>,
    Option<bool>,
    Option<bool>,
    String,
) {
    (
        c.config_url,
        c.dom_id,
        c.url,
        c.urls_primary_name,
        c.query_config_enabled,
        c.deep_linking,
        c.display_operation_id,
        c.default_models_expand_depth,
        c.default_model_expand_depth,
        c.default_model_rendering,
        c.display_request_duration,
        c.doc_expansion,
        c.filter,
        c.max_displayed_tags,
        c.show_extensions,
        c.show_common_extensions,
        c.try_it_out_enabled,
        c.request_snippets_enabled,
        c.oauth2_redirect_url,
        c.show_mutated_request,
        c.supported_submit_methods,
        c.validator_url,
        c.with_credentials,
        c.persist_authorization,
        c.layout,
    )
}

impl Config {
    /// Offer one more document location.
    pub fn url(&mut self, u: Url)
        ensures
            final(self).urls@ =~= old(self).urls@.push(u),
            config_rest(*final(self)) == config_rest(*old(self)),
    {
        self.urls.push(u);
    }
}

impl Default for Config {
    /// The default configuration: the standard layout, the usual mount
    /// element, deep linking on, everything else unset.
    fn default() -> (r: Config)
        ensures
            r.config_url is None,
            r.dom_id matches Some(d) && d@ == "#swagger-ui"@,
            r.url is None,
            r.urls_primary_name is None,
            r.urls@ =~= Seq::<Url>::empty(),
            r.query_config_enabled is None,
            r.deep_linking == Some(true),
            r.display_operation_id is None,
            r.default_models_expand_depth is None,
            r.default_model_expand_depth is None,
            r.default_model_rendering is None,
            r.display_request_duration is None,
            r.doc_expansion is None,
            r.filter is None,
            r.max_displayed_tags is None,
            r.show_extensions is None,
            r.show_common_extensions is None,
            r.try_it_out_enabled is None,
            r.request_snippets_enabled is None,
            r.oauth2_redirect_url is None,
            r.show_mutated_request is None,
            r.supported_submit_methods is None,
            r.validator_url is None,
            r.with_credentials is None,
            r.persist_authorization is None,
            r.layout@ == "StandaloneLayout"@,
    {
        Config {
            config_url: None,
            dom_id: Some(String::from_str("#swagger-ui")),
            url: None,
            urls_primary_name: None,
            urls: Vec::new(),
            query_config_enabled: None,
            deep_linking: Some(true),
            display_operation_id: None,
            default_models_expand_depth: None,
            default_model_expand_depth: None,
            default_model_rendering: None,
            display_request_duration: None,
            doc_expansion: None,
            filter: None,
            max_displayed_tags: None,
            show_extensions: None,
            show_common_extensions: None,
            try_it_out_enabled: None,
            request_snippets_enabled: None,
            oauth2_redirect_url: None,
            show_mutated_request: None,
            supported_submit_methods: None,
            validator_url: None,
            with_credentials: None,
            persist_authorization: None,
            layout: String::from_str("StandaloneLayout"),
        }
    }
}

/// The kinds of content the browser's assets come in.
#[derive(Clone, Copy, PartialEq, Eq, Structural, Debug)]
pub enum MimeKind {
    Html,
    Js,
    Css,
    Png,
    Other,
}

impl MimeKind {
    /// The content-type header value for this kind.
    pub fn content_type(&self) -> (r: String)
        ensures
            *self is Html ==> r@ == "text/html; charset=utf-8"@,
            *self is Js ==> r@ == "application/javascript; charset=utf-8"@,
            *self is Css ==> r@ == "text/css; charset=utf-8"@,
            *self is Png ==> r@ == "image/png"@,
            *self is Other ==> r@ == "application/octet-stream"@,
    {
        match self {
            MimeKind::Html => String::from_str("text/html; charset=utf-8"),
            MimeKind::Js => String::from_str("application/javascript; charset=utf-8"),
            MimeKind::Css => String::from_str("text/css; charset=utf-8"),
            MimeKind::Png => String::from_str("image/png"),
            MimeKind::Other => String::from_str("application/octet-stream"),
        }
    }
}

/// Whether the text holds a dot.
pub open spec fn has_dot(s: Seq<char>) -> bool
    decreases s.len(),
{
    if s.len() == 0 {
        false
    } else {
        s.last() == '.' || has_dot(s.drop_last())
    }
}

/// The text after the last dot.
pub open spec fn after_last_dot(s: Seq<char>) -> Seq<char>
    decreases s.len(),
{
    if s.len() == 0 {
        Seq::empty()
    } else if s.last() == '.' {
        Seq::empty()
    } else {
        after_last_dot(s.drop_last()).push(s.last())
    }
}

/// The file extension: the text after the last dot, when there is one.
#[verifier::loop_isolation(false)]
fn extension_suffix(s: &str) -> (r: Option<String>)
    ensures
        has_dot(s@) ==> (r matches Some(e) && e@ == after_last_dot(s@)),
        !has_dot(s@) ==> r is None,
{
    let n = s.unicode_len();
    let mut j: usize = n;
    proof {
        assert(s@.take(n as int) =~= s@);
        assert(s@.subrange(j as int, n as int) =~= Seq::<char>::empty());
        assert(after_last_dot(s@.take(j as int)) + s@.subrange(j as int, n as int)
            =~= after_last_dot(s@));
    }
    while j > 0
        invariant
            n == s@.len(),
            0 <= j <= n,
            after_last_dot(s@) == after_last_dot(s@.take(j as int)) + s@.subrange(
                j as int,
                n as int,
            ),
            has_dot(s@) == has_dot(s@.take(j as int)),
        decreases j,
    {
        let c = s.get_char(j - 1);
        proof {
            assert(s@.take(j as int).last() == s@[j - 1]);
            assert(s@.take(j as int).drop_last() =~= s@.take(j - 1));
        }
        if c == '.' {
            proof {
                assert(has_dot(s@.take(j as int)));
                assert(after_last_dot(s@.take(j as int)) == Seq::<char>::empty());
                assert(Seq::<char>::empty() + s@.subrange(j as int, n as int) =~= s@.subrange(
                    j as int,
                    n as int,
                ));
            }
            let ext = String::from_str(s.substring_char(j, n));
            proof {
                assert(ext@ =~= s@.subrange(j as int, n as int));
            }
            return Some(ext);
        }
        proof {
            assert(after_last_dot(s@.take(j as int)) == after_last_dot(s@.take(j - 1)).push(
                s@[j - 1],
            ));
            assert(after_last_dot(s@.take(j - 1)) + s@.subrange(j - 1, n as int)
                =~= after_last_dot(s@.take(j as int)) + s@.subrange(j as int, n as int)) by {
                assert(s@.subrange(j - 1, n as int) =~= seq![s@[j - 1]] + s@.subrange(
                    j as int,
                    n as int,
                ));
            }
            assert(has_dot(s@.take(j as int)) == has_dot(s@.take(j - 1)));
        }
        j -= 1;
    }
    proof {
        assert(s@.take(0) =~= Seq::<char>::empty());
        assert(!has_dot(s@.take(0)));
        assert(!has_dot(s@));
    }
    None
}

/// The content kind a file is served as, by its extension.
pub open spec fn mime_of(file: Seq<char>) -> MimeKind {
    if !has_dot(file) {
        MimeKind::Other
    } else if after_last_dot(file) == "html"@ {
        MimeKind::Html
    } else if after_last_dot(file) == "js"@ {
        MimeKind::Js
    } else if after_last_dot(file) == "css"@ {
        MimeKind::Css
    } else if after_last_dot(file) == "png"@ {
        MimeKind::Png
    } else {
        MimeKind::Other
    }
}

/// What an asset request under the browser's prefix resolves to.
#[derive(Debug, PartialEq)]
pub enum UiAsset {
    /// The landing page.
    Index,
    /// The boot script, served with the configuration substituted in.
    Initializer,
    /// A bundled file, served by name with its extension's content kind.
    Asset { file: String, mime: MimeKind },
}

/// The documentation browser: its configuration and the path prefix it is
/// mounted under.
#[derive(Debug, Clone, PartialEq)]
pub struct SwaggerUi {
    pub config: Config,
    pub prefix: String,
}

impl Default for SwaggerUi {
    fn default() -> (r: SwaggerUi)
        ensures
            r.prefix@ == Seq::<char>::empty(),
            r.config.urls@ =~= Seq::<Url>::empty(),
    {
        SwaggerUi { config: Config::default(), prefix: String::new() }
    }
}

impl SwaggerUi {
    /// Offer one more document location.
    pub fn url(self, u: Url) -> (r: SwaggerUi)
        ensures
            r.config.urls@ =~= self.config.urls@.push(u),
            config_rest(r.config) == config_rest(self.config),
            r.prefix == self.prefix,
    {
        let mut this = self;
        this.config.url(u);
        this
    }

    /// Mount the browser under a path prefix.
    pub fn prefix(self, prefix: &str) -> (r: SwaggerUi)
        ensures
            r.prefix@ == prefix@,
            r.config == self.config,
    {
        let mut this = self;
        this.prefix = String::from_str(prefix);
        this
    }

    /// Resolve an asset request: the request path, stripped of the mount
    /// prefix, names the landing page, the boot script, or a bundled file
    /// served by its extension's content kind.
    pub fn resolve_asset(&self, path: &str) -> (r: UiAsset)
        requires
            crate::text::is_prefix_of(self.prefix@, path@),
        ensures
            ({
                let rest = path@.skip(self.prefix@.len() as int);
                &&& (rest == Seq::<char>::empty() || rest == "/"@) <==> r is Index
                &&& (rest == "/swagger-initializer.js"@) <==> r is Initializer
                &&& r matches UiAsset::Asset { file, mime } ==> rest.len() > 0 && file@
                    == rest.skip(1) && mime == mime_of(rest.skip(1))
            }),
    {
        let plen = self.prefix.as_str().unicode_len();
        let n = path.unicode_len();
        let rest = path.substring_char(plen, n);
        proof {
            assert(rest@ =~= path@.skip(self.prefix@.len() as int));
        }
        if rest.unicode_len() == 0 {
            proof {
                assert(rest@ =~= Seq::<char>::empty());
                assert(rest@ != "/"@ || rest@ == Seq::<char>::empty());
                assert("/swagger-initializer.js"@.len() > 0) by {
                    reveal_strlit("/swagger-initializer.js");
                }
            }
            return UiAsset::Index;
        }
        if str_eq(rest, "/") {
            proof {
                assert("/swagger-initializer.js"@ != "/"@) by {
                    reveal_strlit("/swagger-initializer.js");
                    reveal_strlit("/");
                }
            }
            return UiAsset::Index;
        }
        if str_eq(rest, "/swagger-initializer.js") {
            proof {
                assert("/swagger-initializer.js"@.len() > 0) by {
                    reveal_strlit("/swagger-initializer.js");
                }
            }
            return UiAsset::Initializer;
        }
        let file = String::from_str(rest.substring_char(1, rest.unicode_len()));
        proof {
            assert(file@ =~= rest@.skip(1));
        }
        let mime = match extension_suffix(file.as_str()) {
            Some(ext) => {
                if str_eq(ext.as_str(), "html") {
                    MimeKind::Html
                } else if str_eq(ext.as_str(), "js") {
                    MimeKind::Js
                } else if str_eq(ext.as_str(), "css") {
                    MimeKind::Css
                } else if str_eq(ext.as_str(), "png") {
                    MimeKind::Png
                } else {
                    MimeKind::Other
                }
            },
            None => MimeKind::Other,
        };
        proof {
            assert(mime == mime_of(rest@.skip(1)));
        }
        UiAsset::Asset { file, mime }
    }
}

} // verus!
