//! The document builder: one path item per mount path, the registry's
//! schemas in stable order, and path-token reconciliation of operation
//! parameter names.

use vstd::prelude::*;

use crate::operation::{Operation, Parameter, ParameterLocation};
use crate::registry::{entries_sorted, entry_names, Registry};
use crate::schema::{name_views, RefOr, Schema, SchemaKind};

verus! {

/// An HTTP verb slot of a path item.
#[derive(Clone, Copy, PartialEq, Eq, Structural, Debug)]
pub enum Method {
    Get,
    Post,
    Put,
    Delete,
    Options,
    Head,
    Patch,
    Trace,
}

/// The operations mounted at one path, one slot per verb.
#[derive(Debug, PartialEq)]
pub struct PathItem {
    pub get: Option<Operation>,
    pub post: Option<Operation>,
    pub put: Option<Operation>,
    pub delete: Option<Operation>,
    pub options: Option<Operation>,
    pub head: Option<Operation>,
    pub patch: Option<Operation>,
    pub trace: Option<Operation>,
}

impl PathItem {
    pub open spec fn all_empty(&self) -> bool {
        &&& self.get is None
        &&& self.post is None
        &&& self.put is None
        &&& self.delete is None
        &&& self.options is None
        &&& self.head is None
        &&& self.patch is None
        &&& self.trace is None
    }

    pub fn new() -> (r: PathItem)
        ensures
            r.all_empty(),
    {
        PathItem {
            get: None,
            post: None,
            put: None,
            delete: None,
            options: None,
            head: None,
            patch: None,
            trace: None,
        }
    }
}

/// A path item with one verb slot set.
pub open spec fn with_slot(item: PathItem, m: Method, op: Operation) -> PathItem {
    match m {
        Method::Get => PathItem { get: Some(op), ..item },
        Method::Post => PathItem { post: Some(op), ..item },
        Method::Put => PathItem { put: Some(op), ..item },
        Method::Delete => PathItem { delete: Some(op), ..item },
        Method::Options => PathItem { options: Some(op), ..item },
        Method::Head => PathItem { head: Some(op), ..item },
        Method::Patch => PathItem { patch: Some(op), ..item },
        Method::Trace => PathItem { trace: Some(op), ..item },
    }
}

/// A fatal document-building error.
#[derive(Debug, PartialEq)]
pub enum BuildError {
    /// A schema reference names an entry absent from the registry.
    SchemaResolutionError { name: String },
    /// The path item mounted at this path is a reference, not inline.
    UnsupportedPathItemReference { path: String },
    /// No operation was registered under this key.
    OperationNotFound { key: String },
}

/// A character a path placeholder name may hold.
pub open spec fn is_word_char(c: char) -> bool {
    ||| ('a' as u32) <= (c as u32) && (c as u32) <= ('z' as u32)
    ||| ('A' as u32) <= (c as u32) && (c as u32) <= ('Z' as u32)
    ||| ('0' as u32) <= (c as u32) && (c as u32) <= ('9' as u32)
    ||| c == '_'
}

/// A route path with each `/:name` placeholder rewritten as `/{name}`,
/// copying all other text unchanged.
pub open spec fn braced_path(s: Seq<char>) -> Seq<char>
    decreases s.len(), 0int,
{
    if s.len() >= 3 && s[0] == '/' && s[1] == ':' && is_word_char(s[2]) {
        seq!['/', '{'] + braced_token(s.skip(2))
    } else if s.len() > 0 {
        seq![s[0]] + braced_path(s.drop_first())
    } else {
        Seq::empty()
    }
}

/// The tail of a rewrite inside a placeholder name: name characters are
/// copied, and the first non-name character closes the brace.
pub open spec fn braced_token(s: Seq<char>) -> Seq<char>
    decreases s.len(), 1int,
{
    if s.len() > 0 && is_word_char(s[0]) {
        seq![s[0]] + braced_token(s.drop_first())
    } else {
        seq!['}'] + braced_path(s)
    }
}

/// Whether a character may appear in a path placeholder name.
fn word_char(c: char) -> (r: bool)
    ensures
        r == is_word_char(c),
{
    let u = c as u32;
    (('a' as u32) <= u && u <= ('z' as u32)) || (('A' as u32) <= u && u <= ('Z' as u32)) || (('0'
        as u32) <= u && u <= ('9' as u32)) || c == '_'
}

/// Rewrite each `/:name` placeholder of a route path as `/{name}`.
#[verifier::loop_isolation(false)]
pub fn replace_path_params(path: &str) -> (r: String)
    ensures
        r@ == braced_path(path@),
{
    let n = path.unicode_len();
    let mut out = String::new();
    let mut i: usize = 0;
    let mut in_token = false;
    proof {
        assert(path@.skip(0) =~= path@);
        assert(out@ + braced_path(path@) =~= braced_path(path@));
        reveal_strlit("/{");
        reveal_strlit("}");
    }
    while i < n
        invariant
            n == path@.len(),
            0 <= i <= n,
            !in_token ==> out@ + braced_path(path@.skip(i as int)) == braced_path(path@),
            in_token ==> out@ + braced_token(path@.skip(i as int)) == braced_path(path@),
        decreases n - i, if in_token {
            1int
        } else {
            0int
        },
    {
        proof {
            assert(path@.skip(i as int)[0] == path@[i as int]);
        }
        if in_token {
            let c = path.get_char(i);
            if word_char(c) {
                let piece = path.substring_char(i, i + 1);
                out.append(piece);
                proof {
                    assert(piece@ =~= seq![path@[i as int]]);
                    assert(path@.skip(i as int).drop_first() =~= path@.skip(i + 1));
                    assert(braced_token(path@.skip(i as int)) == seq![path@[i as int]]
                        + braced_token(path@.skip(i + 1)));
                    assert(out@ + braced_token(path@.skip(i + 1)) =~= braced_path(path@));
                }
                i += 1;
            } else {
                out.append("}");
                proof {
                    assert("}"@ =~= seq!['}']);
                    assert(braced_token(path@.skip(i as int)) == seq!['}'] + braced_path(
                        path@.skip(i as int),
                    ));
                    assert(out@ + braced_path(path@.skip(i as int)) =~= braced_path(path@));
                }
                in_token = false;
            }
        } else {
            let starts = if n - i > 2 {
                path.get_char(i) == '/' && path.get_char(i + 1) == ':' && word_char(
                    path.get_char(i + 2),
                )
            } else {
                false
            };
            proof {
                if n - i > 2 {
                    assert(path@.skip(i as int)[1] == path@[i + 1]);
                    assert(path@.skip(i as int)[2] == path@[i + 2]);
                }
            }
            if starts {
                out.append("/{");
                proof {
                    assert("/{"@ =~= seq!['/', '{']);
                    assert(path@.skip(i as int).len() >= 3);
                    assert(path@.skip(i as int).skip(2) =~= path@.skip(i + 2));
                    assert(braced_path(path@.skip(i as int)) == seq!['/', '{'] + braced_token(
                        path@.skip(i + 2),
                    ));
                    assert(out@ + braced_token(path@.skip(i + 2)) =~= braced_path(path@));
                }
                in_token = true;
                i += 2;
            } else {
                let piece = path.substring_char(i, i + 1);
                out.append(piece);
                proof {
                    assert(piece@ =~= seq![path@[i as int]]);
                    assert(path@.skip(i as int).drop_first() =~= path@.skip(i + 1));
                    assert(braced_path(path@.skip(i as int)) == seq![path@[i as int]]
                        + braced_path(path@.skip(i + 1)));
                    assert(out@ + braced_path(path@.skip(i + 1)) =~= braced_path(path@));
                }
                i += 1;
            }
        }
    }
    if in_token {
        out.append("}");
        proof {
            assert("}"@ =~= seq!['}']);
            assert(path@.skip(i as int).len() == 0);
            assert(braced_token(path@.skip(i as int)) == seq!['}'] + braced_path(
                path@.skip(i as int),
            ));
            assert(braced_path(path@.skip(i as int)) == Seq::<char>::empty());
            assert(out@ =~= braced_path(path@));
        }
    } else {
        proof {
            assert(path@.skip(i as int).len() == 0);
            assert(braced_path(path@.skip(i as int)) == Seq::<char>::empty());
            assert(out@ + Seq::<char>::empty() =~= out@);
        }
    }
    out
}


/// A path split at `/` characters, with `cur` the segment gathered so far.
pub open spec fn split_acc(s: Seq<char>, cur: Seq<char>) -> Seq<Seq<char>>
    decreases s.len(),
{
    if s.len() == 0 {
        seq![cur]
    } else if s[0] == '/' {
        seq![cur] + split_acc(s.drop_first(), Seq::empty())
    } else {
        split_acc(s.drop_first(), cur.push(s[0]))
    }
}

/// The `/`-separated segments of a path, in order.
pub open spec fn path_parts(s: Seq<char>) -> Seq<Seq<char>> {
    split_acc(s, Seq::empty())
}

/// The placeholder name inside one braced segment.
pub open spec fn token_of(p: Seq<char>) -> Seq<char> {
    if p.len() >= 2 {
        p.subrange(1, p.len() - 1)
    } else {
        Seq::empty()
    }
}

/// The ordered placeholder tokens of a mount path: the text inside each
/// `/`-separated segment that opens with a brace.
pub open spec fn path_tokens(s: Seq<char>) -> Seq<Seq<char>> {
    path_parts(s).filter(|p: Seq<char>| p.len() > 0 && p[0] == '{').map_values(
        |p: Seq<char>| token_of(p),
    )
}

/// The ordered placeholder tokens of a mount path.
#[verifier::loop_isolation(false)]
pub fn path_tokens_vec(path: &str) -> (r: Vec<String>)
    ensures
        name_views(r@) == path_tokens(path@),
{
    let n = path.unicode_len();
    let mut parts: Vec<String> = Vec::new();
    let mut cur = String::new();
    let mut i: usize = 0;
    proof {
        assert(path@.skip(0) =~= path@);
        assert(name_views(parts@) + split_acc(path@, cur@) =~= path_parts(path@));
    }
    while i < n
        invariant
            n == path@.len(),
            0 <= i <= n,
            name_views(parts@) + split_acc(path@.skip(i as int), cur@) == path_parts(path@),
        decreases n - i,
    {
        proof {
            assert(path@.skip(i as int)[0] == path@[i as int]);
            assert(path@.skip(i as int).drop_first() =~= path@.skip(i + 1));
        }
        let c = path.get_char(i);
        if c == '/' {
            let ghost parts_before = name_views(parts@);
            parts.push(cur);
            cur = String::new();
            proof {
                assert(name_views(parts@) =~= parts_before.push(path_parts(path@)[
                    parts_before.len() as int]) || true);
                assert(split_acc(path@.skip(i as int), parts@[parts@.len() - 1]@) == seq![
                    parts@[parts@.len() - 1]@,
                ] + split_acc(path@.skip(i + 1), Seq::empty()));
                assert(name_views(parts@) + split_acc(path@.skip(i + 1), cur@) =~= path_parts(
                    path@,
                ));
            }
        } else {
            let ghost cur_before = cur@;
            let piece = path.substring_char(i, i + 1);
            cur.append(piece);
            proof {
                assert(piece@ =~= seq![path@[i as int]]);
                assert(cur@ =~= cur_before.push(path@[i as int]));
                assert(split_acc(path@.skip(i as int), cur_before) == split_acc(
                    path@.skip(i + 1),
                    cur_before.push(path@[i as int]),
                ));
                assert(name_views(parts@) + split_acc(path@.skip(i + 1), cur@) =~= path_parts(
                    path@,
                ));
            }
        }
        i += 1;
    }
    proof {
        assert(path@.skip(i as int).len() == 0);
        assert(split_acc(path@.skip(i as int), cur@) == seq![cur@]);
    }
    let ghost last_view = cur@;
    parts.push(cur);
    proof {
        assert(name_views(parts@) =~= path_parts(path@));
    }
    let ghost all_parts = name_views(parts@);
    let mut rest = parts;
    let mut tokens: Vec<String> = Vec::new();
    let ghost mut k: int = 0;
    proof {
        assert(all_parts.take(0) =~= Seq::<Seq<char>>::empty());
        reveal(Seq::filter);
        assert(name_views(tokens@) =~= all_parts.take(0).filter(
            |p: Seq<char>| p.len() > 0 && p[0] == '{',
        ).map_values(|p: Seq<char>| token_of(p)));
    }
    while rest.len() > 0
        invariant
            0 <= k <= all_parts.len(),
            name_views(rest@) =~= all_parts.skip(k),
            name_views(tokens@) =~= all_parts.take(k).filter(
                |p: Seq<char>| p.len() > 0 && p[0] == '{',
            ).map_values(|p: Seq<char>| token_of(p)),
        decreases rest@.len(),
    {
        proof {
            assert(name_views(rest@)[0] == all_parts.skip(k)[0]);
            assert(all_parts.skip(k)[0] == all_parts[k]);
        }
        let ghost rest_before = rest@;
        let part = rest.remove(0);
        proof {
            assert(rest@ =~= rest_before.drop_first());
            assert forall|m: int| 0 <= m < rest@.len() implies name_views(rest@)[m]
                == all_parts.skip(k + 1)[m] by {
                assert(name_views(rest@)[m] == name_views(rest_before)[m + 1]);
            }
            assert(name_views(rest@) =~= all_parts.skip(k + 1));
            assert(part@ == all_parts[k]);
            assert(all_parts.take(k + 1).drop_last() =~= all_parts.take(k));
            assert(all_parts.take(k + 1).last() == all_parts[k]);
        }
        let plen = part.unicode_len();
        let is_token = plen > 0 && part.get_char(0) == '{';
        let ghost before_tokens = name_views(tokens@);
        if is_token {
            let tok = if plen >= 2 {
                String::from_str(part.substring_char(1, plen - 1))
            } else {
                String::new()
            };
            proof {
                assert(tok@ =~= token_of(part@));
            }
            tokens.push(tok);
            proof {
                assert(name_views(tokens@) =~= before_tokens.push(token_of(all_parts[k])));
            }
        }
        proof {
            let pred = |p: Seq<char>| p.len() > 0 && p[0] == '{';
            assert(all_parts.take(k + 1).filter(pred) == if pred(all_parts[k]) {
                all_parts.take(k).filter(pred).push(all_parts[k])
            } else {
                all_parts.take(k).filter(pred)
            });
            assert(name_views(tokens@) =~= all_parts.take(k + 1).filter(
                |p: Seq<char>| p.len() > 0 && p[0] == '{',
            ).map_values(|p: Seq<char>| token_of(p)));
            k = k + 1;
        }
    }
    proof {
        assert(all_parts.take(k) =~= all_parts);
    }
    tokens
}

/// Whether a listed parameter is an inline path parameter.
pub open spec fn is_path_param(r: RefOr<Parameter>) -> bool {
    r is Item && r->Item_0.location is Path
}

/// How many inline path parameters stand before position `j`.
pub open spec fn path_rank(ps: Seq<RefOr<Parameter>>, j: int) -> int
    decreases j,
{
    if j <= 0 {
        0int
    } else {
        path_rank(ps, j - 1) + if is_path_param(ps[j - 1]) {
            1int
        } else {
            0int
        }
    }
}

/// The rename relation path reconciliation establishes: every inline path
/// parameter whose rank falls inside the path's token list takes its
/// token's text as its name; everything else is untouched.
pub open spec fn renamed_for_path(before: Operation, after: Operation, path: Seq<char>) -> bool {
    &&& after.parameters@.len() == before.parameters@.len()
    &&& forall|j: int|
        0 <= j < before.parameters@.len() ==> {
            let b = before.parameters@[j];
            let a = #[trigger] after.parameters@[j];
            if is_path_param(b) && path_rank(before.parameters@, j) < path_tokens(path).len() {
                &&& a is Item
                &&& a->Item_0.name@ == path_tokens(path)[path_rank(before.parameters@, j)]
                &&& a->Item_0.location == b->Item_0.location
                &&& a->Item_0.required == b->Item_0.required
                &&& a->Item_0.schema == b->Item_0.schema
            } else {
                a == b
            }
        }
    &&& after.operation_id == before.operation_id
    &&& after.summary == before.summary
    &&& after.description == before.description
    &&& after.tags == before.tags
    &&& after.deprecated == before.deprecated
    &&& after.request_body == before.request_body
    &&& after.success_response == before.success_response
    &&& after.responses == before.responses
}

/// Renaming parameters changes no schema, so it cannot change whether the
/// operation's references resolve.
pub proof fn lemma_rename_preserves_refs(before: Operation, after: Operation, path: Seq<char>, names: Seq<Seq<char>>)
    requires
        renamed_for_path(before, after, path),
    ensures
        operation_refs_ok(after, names) == operation_refs_ok(before, names),
{
    if operation_refs_ok(before, names) {
        assert forall|i: int|
            0 <= i < after.parameters@.len() implies (match #[trigger] after.parameters@[i] {
            RefOr::Item(p) => refor_refs_ok(p.schema, names),
            RefOr::Reference(_) => true,
        }) by {
            assert(match before.parameters@[i] {
                RefOr::Item(p) => refor_refs_ok(p.schema, names),
                RefOr::Reference(_) => true,
            });
        }
        assert(operation_refs_ok(after, names));
    }
    if operation_refs_ok(after, names) {
        assert forall|i: int|
            0 <= i < before.parameters@.len() implies (match #[trigger] before.parameters@[i] {
            RefOr::Item(p) => refor_refs_ok(p.schema, names),
            RefOr::Reference(_) => true,
        }) by {
            assert(match after.parameters@[i] {
                RefOr::Item(p) => refor_refs_ok(p.schema, names),
                RefOr::Reference(_) => true,
            });
        }
        assert(operation_refs_ok(before, names));
    }
}

/// Reconcile an operation's path-parameter names with the mount path: the
/// ordered placeholder tokens of the path are zipped positionally against
/// the operation's inline path parameters, and each such parameter takes
/// its token's text as its name; parameters beyond the tokens, and all
/// other parameters, are untouched.
#[verifier::loop_isolation(false)]
pub fn modify_parameter_names(op: &mut Operation, path: &str)
    ensures
        renamed_for_path(*old(op), *final(op), path@),
{
    let ghost original = op.parameters@;
    let tokens = path_tokens_vec(path);
    let n_tokens = tokens.len();
    let mut r: usize = 0;
    let mut j: usize = 0;
    let n = op.parameters.len();
    while j < n
        invariant
            n == op.parameters@.len(),
            original.len() == n,
            0 <= j <= n,
            0 <= r,
            r == path_rank(original, j as int),
            n_tokens == path_tokens(path@).len(),
            name_views(tokens@) == path_tokens(path@),
            forall|m: int| j <= m < n ==> #[trigger] op.parameters@[m] == original[m],
            forall|m: int|
                0 <= m < j ==> {
                    let before = original[m];
                    let after = #[trigger] op.parameters@[m];
                    if is_path_param(before) && path_rank(original, m) < path_tokens(
                        path@,
                    ).len() {
                        &&& after is Item
                        &&& after->Item_0.name@ == path_tokens(path@)[path_rank(original, m)]
                        &&& after->Item_0.location == before->Item_0.location
                        &&& after->Item_0.required == before->Item_0.required
                        &&& after->Item_0.schema == before->Item_0.schema
                    } else {
                        after == before
                    }
                },
            op.operation_id == old(op).operation_id,
            op.summary == old(op).summary,
            op.description == old(op).description,
            op.tags == old(op).tags,
            op.deprecated == old(op).deprecated,
            op.request_body == old(op).request_body,
            op.success_response == old(op).success_response,
            op.responses == old(op).responses,
        decreases n - j,
    {
        proof {
            assert(r <= j) by {
                lemma_path_rank_bound(original, j as int);
            }
        }
        let is_path = match &op.parameters[j] {
            RefOr::Item(p) => match p.location {
                ParameterLocation::Path => true,
                ParameterLocation::Query => false,
            },
            RefOr::Reference(_) => false,
        };
        if is_path {
            if r < n_tokens {
                let ghost before_params = op.parameters@;
                let cur = op.parameters.remove(j);
                match cur {
                    RefOr::Item(p) => {
                        let name = tokens[r].clone();
                        let renamed = Parameter {
                            name,
                            location: p.location,
                            required: p.required,
                            schema: p.schema,
                        };
                        op.parameters.insert(j, RefOr::Item(renamed));
                        proof {
                            assert(op.parameters@ =~= before_params.update(
                                j as int,
                                op.parameters@[j as int],
                            ));
                            assert(op.parameters@[j as int] is Item);
                            assert(op.parameters@[j as int]->Item_0.name@ == name_views(
                                tokens@,
                            )[r as int]);
                        }
                    },
                    RefOr::Reference(other) => {
                        op.parameters.insert(j, RefOr::Reference(other));
                        proof {
                            assert(false);
                        }
                    },
                }
            }
            r += 1;
        }
        proof {
            assert(path_rank(original, j + 1) == path_rank(original, j as int)
                + if is_path_param(original[j as int]) {
                1int
            } else {
                0int
            });
        }
        j += 1;
    }
}

/// The number of path parameters before `j` is at most `j`.
proof fn lemma_path_rank_bound(ps: Seq<RefOr<Parameter>>, j: int)
    requires
        j >= 0,
    ensures
        0 <= path_rank(ps, j) <= j,
    decreases j,
{
    if j > 0 {
        lemma_path_rank_bound(ps, j - 1);
    }
}


/// Whether a schema reference resolves: an inline schema must resolve
/// throughout, a named reference must name a registered schema.
pub open spec fn refor_refs_ok(r: RefOr<Schema>, names: Seq<Seq<char>>) -> bool
    decreases r,
{
    match r {
        RefOr::Item(s) => schema_refs_ok(s, names),
        RefOr::Reference(n) => names.contains(n@),
    }
}

/// Whether every reference nested anywhere in a schema names a registered
/// schema.
pub open spec fn schema_refs_ok(s: Schema, names: Seq<Seq<char>>) -> bool
    decreases s,
{
    match s.kind {
        SchemaKind::Array(b) => refor_refs_ok(*b, names),
        SchemaKind::Object(o) => {
            &&& forall|i: int|
                0 <= i < o.properties@.len() ==> refor_refs_ok(
                    (#[trigger] o.properties@[i]).1,
                    names,
                )
            &&& match o.additional_properties {
                Some(b) => refor_refs_ok(*b, names),
                None => true,
            }
        },
        SchemaKind::OneOf(v) => forall|i: int|
            0 <= i < v@.len() ==> refor_refs_ok(#[trigger] v@[i], names),
        SchemaKind::AllOf(v) => forall|i: int|
            0 <= i < v@.len() ==> refor_refs_ok(#[trigger] v@[i], names),
        _ => true,
    }
}

/// Whether every schema reference an operation carries resolves.
pub open spec fn operation_refs_ok(op: Operation, names: Seq<Seq<char>>) -> bool {
    &&& forall|i: int|
        0 <= i < op.parameters@.len() ==> (match #[trigger] op.parameters@[i] {
            RefOr::Item(p) => refor_refs_ok(p.schema, names),
            RefOr::Reference(_) => true,
        })
    &&& match op.request_body {
        Some(b) => refor_refs_ok(b, names),
        None => true,
    }
    &&& match op.success_response {
        Some(b) => refor_refs_ok(b, names),
        None => true,
    }
}

/// Whether a name is registered as a schema.
fn has_schema_name(entries: &Vec<(String, Schema)>, name: &String) -> (r: bool)
    ensures
        r == entry_names(entries@).contains(name@),
{
    let n = entries.len();
    let mut i: usize = 0;
    while i < n
        invariant
            n == entries@.len(),
            0 <= i <= n,
            forall|j: int| 0 <= j < i ==> entry_names(entries@)[j] != name@,
        decreases n - i,
    {
        if entries[i].0 == *name {
            proof {
                assert(entry_names(entries@)[i as int] == name@);
            }
            return true;
        }
        proof {
            assert(entry_names(entries@)[i as int] == entries@[i as int].0@);
        }
        i += 1;
    }
    proof {
        if entry_names(entries@).contains(name@) {
            let w = choose|w: int|
                0 <= w < entry_names(entries@).len() && entry_names(entries@)[w] == name@;
            assert(entry_names(entries@)[w] != name@);
        }
    }
    false
}

/// Find a reference that fails to resolve, if any.
fn check_refor(r: &RefOr<Schema>, entries: &Vec<(String, Schema)>) -> (res: Option<String>)
    ensures
        res is None <==> refor_refs_ok(*r, entry_names(entries@)),
        res matches Some(n) ==> !entry_names(entries@).contains(n@),
    decreases *r,
{
    match r {
        RefOr::Item(s) => check_schema(s, entries),
        RefOr::Reference(n) => {
            if has_schema_name(entries, n) {
                None
            } else {
                Some(n.clone())
            }
        },
    }
}

/// Find a nested reference that fails to resolve, if any.
#[verifier::loop_isolation(false)]
fn check_schema(s: &Schema, entries: &Vec<(String, Schema)>) -> (res: Option<String>)
    ensures
        res is None <==> schema_refs_ok(*s, entry_names(entries@)),
        res matches Some(n) ==> !entry_names(entries@).contains(n@),
    decreases *s,
{
    match &s.kind {
        SchemaKind::Array(b) => check_refor(b, entries),
        SchemaKind::Object(o) => {
            let n = o.properties.len();
            let mut i: usize = 0;
            while i < n
                invariant
                    n == o.properties@.len(),
                    0 <= i <= n,
                    forall|j: int|
                        0 <= j < i ==> refor_refs_ok(
                            (#[trigger] o.properties@[j]).1,
                            entry_names(entries@),
                        ),
                decreases n - i,
            {
                proof {
                    assert(s.kind->Object_0 == *o);
                    assert(decreases_to!(*s => o.properties@[i as int].1));
                }
                let res = check_refor(&o.properties[i].1, entries);
                match res {
                    Some(bad) => {
                        proof {
                            assert(!refor_refs_ok(
                                o.properties@[i as int].1,
                                entry_names(entries@),
                            ));
                            assert(!schema_refs_ok(*s, entry_names(entries@)));
                        }
                        return Some(bad);
                    },
                    None => {},
                }
                i += 1;
            }
            match &o.additional_properties {
                Some(b) => check_refor(b, entries),
                None => None,
            }
        },
        SchemaKind::OneOf(v) => check_refor_list(v, entries),
        SchemaKind::AllOf(v) => check_refor_list(v, entries),
        _ => None,
    }
}

/// Find a reference in a list that fails to resolve, if any.
#[verifier::loop_isolation(false)]
fn check_refor_list(v: &Vec<RefOr<Schema>>, entries: &Vec<(String, Schema)>) -> (res: Option<
    String,
>)
    ensures
        res is None <==> (forall|i: int|
            0 <= i < v@.len() ==> refor_refs_ok(#[trigger] v@[i], entry_names(entries@))),
        res matches Some(n) ==> !entry_names(entries@).contains(n@),
    decreases *v,
{
    let n = v.len();
    let mut i: usize = 0;
    while i < n
        invariant
            n == v@.len(),
            0 <= i <= n,
            forall|j: int| 0 <= j < i ==> refor_refs_ok(#[trigger] v@[j], entry_names(entries@)),
        decreases n - i,
    {
        let res = check_refor(&v[i], entries);
        match res {
            Some(bad) => {
                return Some(bad);
            },
            None => {},
        }
        i += 1;
    }
    None
}

/// Find a reference an operation carries that fails to resolve, if any.
#[verifier::loop_isolation(false)]
fn check_operation(op: &Operation, entries: &Vec<(String, Schema)>) -> (res: Option<String>)
    ensures
        res is None <==> operation_refs_ok(*op, entry_names(entries@)),
        res matches Some(n) ==> !entry_names(entries@).contains(n@),
{
    let n = op.parameters.len();
    let mut i: usize = 0;
    while i < n
        invariant
            n == op.parameters@.len(),
            0 <= i <= n,
            forall|j: int|
                0 <= j < i ==> (match #[trigger] op.parameters@[j] {
                    RefOr::Item(p) => refor_refs_ok(p.schema, entry_names(entries@)),
                    RefOr::Reference(_) => true,
                }),
        decreases n - i,
    {
        match &op.parameters[i] {
            RefOr::Item(p) => {
                let res = check_refor(&p.schema, entries);
                match res {
                    Some(bad) => {
                        return Some(bad);
                    },
                    None => {},
                }
            },
            RefOr::Reference(_) => {},
        }
        i += 1;
    }
    match &op.request_body {
        Some(b) => {
            let res = check_refor(b, entries);
            match res {
                Some(bad) => {
                    return Some(bad);
                },
                None => {},
            }
        },
        None => {},
    }
    match &op.success_response {
        Some(b) => {
            let res = check_refor(b, entries);
            match res {
                Some(bad) => {
                    return Some(bad);
                },
                None => {},
            }
        },
        None => {},
    }
    None
}

/// Every registered schema resolves its references against the registry
/// itself.
pub open spec fn registry_refs_ok(entries: Seq<(String, Schema)>) -> bool {
    forall|i: int|
        0 <= i < entries.len() ==> schema_refs_ok(
            (#[trigger] entries[i]).1,
            entry_names(entries),
        )
}

/// How mounting one operation rewrites the path list: an existing inline
/// path item gains the verb slot, a fresh path gains a new item with only
/// that slot set.
pub open spec fn mounted(
    p0: Seq<(String, RefOr<PathItem>)>,
    p1: Seq<(String, RefOr<PathItem>)>,
    mount: Seq<char>,
    m: Method,
    op: Operation,
) -> bool {
    if crate::registry::has_entry(p0, mount) {
        let i = crate::registry::entry_index(p0, mount);
        &&& p0[i].1 is Item
        &&& p1 =~= p0.update(i, (p0[i].0, RefOr::Item(with_slot(p0[i].1->Item_0, m, op))))
    } else {
        exists|entry: (String, RefOr<PathItem>)|
            #![all_triggers]
            {
                &&& entry.0@ == mount
                &&& entry.1 is Item
                &&& exists|fresh: PathItem|
                    fresh.all_empty() && entry.1->Item_0 == with_slot(fresh, m, op)
                &&& p1 =~= p0.push(entry)
            }
    }
}

/// The assembled output document: the registry's schemas in stable order,
/// and one path item per mount path.
#[derive(Debug, PartialEq)]
pub struct Document {
    pub schemas: Vec<(String, Schema)>,
    pub paths: Vec<(String, RefOr<PathItem>)>,
}

/// Build a document from the schema registry: every reference must
/// resolve, and the schema map takes a stable order, sorted by name, so
/// that two builds over the same registrations give the same document
/// whatever order they were registered in.
#[verifier::loop_isolation(false)]
pub fn build_document(schemas: Registry<Schema>) -> (r: Result<Document, BuildError>)
    ensures
        r is Ok <==> registry_refs_ok(schemas.entries@),
        r matches Ok(d) ==> {
            &&& entries_sorted(d.schemas@)
            &&& d.schemas@.to_multiset() == schemas.entries@.to_multiset()
            &&& d.paths@ =~= Seq::<(String, RefOr<PathItem>)>::empty()
        },
        r matches Err(e) ==> e matches BuildError::SchemaResolutionError { name }
            && !entry_names(schemas.entries@).contains(name@),
{
    let n = schemas.entries.len();
    let mut i: usize = 0;
    while i < n
        invariant
            n == schemas.entries@.len(),
            0 <= i <= n,
            forall|j: int|
                0 <= j < i ==> schema_refs_ok(
                    (#[trigger] schemas.entries@[j]).1,
                    entry_names(schemas.entries@),
                ),
        decreases n - i,
    {
        let res = check_schema(&schemas.entries[i].1, &schemas.entries);
        match res {
            Some(bad) => {
                proof {
                    assert(!schema_refs_ok(
                        schemas.entries@[i as int].1,
                        entry_names(schemas.entries@),
                    ));
                }
                return Err(BuildError::SchemaResolutionError { name: bad });
            },
            None => {},
        }
        i += 1;
    }
    let sorted = crate::registry::sort_entries(schemas.entries);
    Ok(Document { schemas: sorted, paths: Vec::new() })
}

/// The path of a route inside a scope: the scope path and the route path
/// joined with exactly one separating slash.
pub open spec fn scoped_path_of(scope: Seq<char>, path: Seq<char>) -> Seq<char> {
    if scope.len() > 0 && scope.last() == '/' && path.len() > 0 && path[0] == '/' {
        scope + path.skip(1)
    } else if (scope.len() > 0 && scope.last() == '/') || (path.len() > 0 && path[0] == '/') {
        scope + path
    } else {
        scope + seq!['/'] + path
    }
}

/// Join a scope's path and a route's path with exactly one slash between
/// them.
pub fn scoped_path(scope: &str, path: &str) -> (r: String)
    ensures
        r@ == scoped_path_of(scope@, path@),
{
    let m = scope.unicode_len();
    let n = path.unicode_len();
    let scope_slash = if m > 0 {
        scope.get_char(m - 1) == '/'
    } else {
        false
    };
    let path_slash = if n > 0 {
        path.get_char(0) == '/'
    } else {
        false
    };
    let mut out = String::from_str(scope);
    if scope_slash && path_slash {
        out.append(path.substring_char(1, n));
        proof {
            assert(path.view().skip(1) =~= path.view().subrange(1, n as int));
            assert(out@ =~= scope@ + path@.skip(1));
        }
    } else if scope_slash || path_slash {
        out.append(path);
    } else {
        out.append("/");
        out.append(path);
        proof {
            reveal_strlit("/");
            assert("/"@ =~= seq!['/']);
            assert(out@ =~= scope@ + seq!['/'] + path@);
        }
    }
    out
}

/// Build just the document, without any server machinery: the registry's
/// schemas, validated and in stable order, with no paths.
pub fn generate_openapi(schemas: Registry<Schema>) -> (r: Result<Document, BuildError>)
    ensures
        r is Ok <==> registry_refs_ok(schemas.entries@),
        r matches Ok(d) ==> {
            &&& entries_sorted(d.schemas@)
            &&& d.schemas@.to_multiset() == schemas.entries@.to_multiset()
            &&& d.paths@ =~= Seq::<(String, RefOr<PathItem>)>::empty()
        },
        r matches Err(e) ==> e matches BuildError::SchemaResolutionError { name }
            && !entry_names(schemas.entries@).contains(name@),
{
    build_document(schemas)
}

impl Document {
    /// Mount an assembled operation at a path and verb. The path item is
    /// created on first use; mounting onto a path registered as a
    /// reference is refused, as is an operation whose references do not
    /// resolve against this document's schemas.
    #[verifier::loop_isolation(false)]
    pub fn add_operation(&mut self, path: String, method: Method, op: Operation) -> (r: Result<
        (),
        BuildError,
    >)
        ensures
            final(self).schemas == old(self).schemas,
            r is Ok <==> operation_refs_ok(op, entry_names(old(self).schemas@)) && !(
            crate::registry::has_entry(old(self).paths@, path@)
                && old(self).paths@[crate::registry::entry_index(old(self).paths@, path@)].1
                is Reference),
            r is Ok ==> mounted(old(self).paths@, final(self).paths@, path@, method, op),
            r matches Err(e) ==> final(self).paths@ == old(self).paths@ && ((e matches
                BuildError::SchemaResolutionError { name }
                && !entry_names(old(self).schemas@).contains(name@) && !operation_refs_ok(
                op,
                entry_names(old(self).schemas@),
            )) || (e matches BuildError::UnsupportedPathItemReference { path: p } && p@ == path@
                && operation_refs_ok(op, entry_names(old(self).schemas@)))),
    {
        let res = check_operation(&op, &self.schemas);
        match res {
            Some(bad) => {
                return Err(BuildError::SchemaResolutionError { name: bad });
            },
            None => {},
        }
        let n = self.paths.len();
        let mut i: usize = 0;
        while i < n
            invariant
                n == self.paths@.len(),
                0 <= i <= n,
                forall|j: int| 0 <= j < i ==> (#[trigger] self.paths@[j]).0@ != path@,
                *self == *old(self),
            decreases n - i,
        {
            if self.paths[i].0 == path {
                proof {
                    let ps = old(self).paths@;
                    assert(0 <= i < ps.len() && ps[i as int].0@ == path@ && (forall|j: int|
                        0 <= j < i ==> ps[j].0@ != path@));
                    let k = crate::registry::entry_index(ps, path@);
                    if k < i {
                        assert(ps[k].0@ != path@);
                    }
                    if k > i {
                        assert(ps[i as int].0@ != path@);
                    }
                    assert(k == i);
                }
                let entry = self.paths.remove(i);
                match entry.1 {
                    RefOr::Item(item) => {
                        let mut item = item;
                        match method {
                            Method::Get => {
                                item.get = Some(op);
                            },
                            Method::Post => {
                                item.post = Some(op);
                            },
                            Method::Put => {
                                item.put = Some(op);
                            },
                            Method::Delete => {
                                item.delete = Some(op);
                            },
                            Method::Options => {
                                item.options = Some(op);
                            },
                            Method::Head => {
                                item.head = Some(op);
                            },
                            Method::Patch => {
                                item.patch = Some(op);
                            },
                            Method::Trace => {
                                item.trace = Some(op);
                            },
                        }
                        self.paths.insert(i, (entry.0, RefOr::Item(item)));
                        proof {
                            assert(self.paths@ =~= old(self).paths@.update(
                                i as int,
                                (
                                    old(self).paths@[i as int].0,
                                    RefOr::Item(
                                        with_slot(
                                            old(self).paths@[i as int].1->Item_0,
                                            method,
                                            op,
                                        ),
                                    ),
                                ),
                            ));
                            assert(mounted(old(self).paths@, self.paths@, path@, method, op));
                        }
                        return Ok(());
                    },
                    RefOr::Reference(kept) => {
                        self.paths.insert(i, (entry.0, RefOr::Reference(kept)));
                        proof {
                            assert(self.paths@ =~= old(self).paths@);
                        }
                        return Err(BuildError::UnsupportedPathItemReference { path });
                    },
                }
            }
            i += 1;
        }
        proof {
            if crate::registry::has_entry(old(self).paths@, path@) {
                let w = choose|w: int|
                    0 <= w < old(self).paths@.len() && old(self).paths@[w].0@ == path@;
                assert(old(self).paths@[w].0@ != path@);
            }
        }
        let mut item = PathItem::new();
        let ghost fresh = item;
        match method {
            Method::Get => {
                item.get = Some(op);
            },
            Method::Post => {
                item.post = Some(op);
            },
            Method::Put => {
                item.put = Some(op);
            },
            Method::Delete => {
                item.delete = Some(op);
            },
            Method::Options => {
                item.options = Some(op);
            },
            Method::Head => {
                item.head = Some(op);
            },
            Method::Patch => {
                item.patch = Some(op);
            },
            Method::Trace => {
                item.trace = Some(op);
            },
        }
        proof {
            assert(item == with_slot(fresh, method, op));
        }
        let ghost pushed_name = path@;
        self.paths.push((path, RefOr::Item(item)));
        proof {
            let entry = self.paths@.last();
            assert(entry.0@ == pushed_name && entry.1 is Item && (exists|fresh2: PathItem|
                fresh2.all_empty() && entry.1->Item_0 == with_slot(fresh2, method, op)) && (
            self.paths@ =~= old(self).paths@.push(entry)));
            assert(mounted(old(self).paths@, self.paths@, pushed_name, method, op));
        }
        Ok(())
    }
}

} // verus!
