//! The operation assembler: turns one endpoint's ordered parameter sources,
//! success type and failure facts into an operation record with ordered
//! call parameters, a request body, a success response and an aggregated
//! error table.

use vstd::prelude::*;

use crate::schema::{RefOr, Schema};
use crate::text::dec_digits;

verus! {

/// Where a call parameter is taken from.
#[derive(Clone, Copy, PartialEq, Eq, Structural, Debug)]
pub enum ParameterLocation {
    Path,
    Query,
}

/// One call parameter of an operation.
#[derive(Debug, PartialEq)]
pub struct Parameter {
    pub name: String,
    pub location: ParameterLocation,
    pub required: bool,
    pub schema: RefOr<Schema>,
}

/// The model of a parameter: its name by view, the rest by value.
pub open spec fn param_model(p: Parameter) -> (Seq<char>, ParameterLocation, bool, RefOr<Schema>) {
    (p.name@, p.location, p.required, p.schema)
}

impl Parameter {
    /// A path parameter; always required.
    pub fn path(name: String, schema: RefOr<Schema>) -> (r: Parameter)
        ensures
            param_model(r) == (name@, ParameterLocation::Path, true, schema),
    {
        Parameter { name, location: ParameterLocation::Path, required: true, schema }
    }

    /// A query parameter; optional by default.
    pub fn query(name: String, schema: RefOr<Schema>) -> (r: Parameter)
        ensures
            param_model(r) == (name@, ParameterLocation::Query, false, schema),
    {
        Parameter { name, location: ParameterLocation::Query, required: false, schema }
    }
}

/// What one endpoint argument contributes, as a closed set of sources: a
/// path extraction over the listed schemas, a query extraction, a request
/// body, or nothing (headers, state and the like).
#[derive(Debug, PartialEq)]
pub enum ParameterSource {
    Path(Vec<Schema>),
    Query(Vec<Schema>),
    Body(RefOr<Schema>),
    Header,
    Extension,
}

/// The schema-level description of one endpoint.
#[derive(Debug, PartialEq)]
pub struct Operation {
    pub operation_id: Option<String>,
    pub summary: Option<String>,
    pub description: Option<String>,
    pub tags: Vec<String>,
    pub deprecated: bool,
    pub parameters: Vec<RefOr<Parameter>>,
    pub request_body: Option<RefOr<Schema>>,
    pub success_response: Option<RefOr<Schema>>,
    pub responses: Vec<(u16, String)>,
}

/// The parameters one path-extracted schema contributes: an object's
/// properties become named path parameters; any other schema becomes one
/// positional parameter named `path` followed by its position.
pub open spec fn path_params_of_schema(s: Schema, i: int) -> Seq<
    (Seq<char>, ParameterLocation, bool, RefOr<Schema>),
> {
    if s.kind is Object {
        s.kind->Object_0.props().map_values(
            |p: (Seq<char>, RefOr<Schema>)| (p.0, ParameterLocation::Path, true, p.1),
        )
    } else {
        seq![("path"@ + dec_digits(i as nat), ParameterLocation::Path, true, RefOr::Item(s))]
    }
}

/// The path parameters a schema list contributes, in order, positions
/// counted from `i`.
pub open spec fn path_params_from(schemas: Seq<Schema>, i: int) -> Seq<
    (Seq<char>, ParameterLocation, bool, RefOr<Schema>),
>
    decreases schemas.len(),
{
    if schemas.len() == 0 {
        Seq::empty()
    } else {
        path_params_of_schema(schemas[0], i) + path_params_from(schemas.drop_first(), i + 1)
    }
}

/// The parameters one query-extracted schema contributes: an object's
/// properties become query parameters; any other schema contributes none.
pub open spec fn query_params_of_schema(s: Schema) -> Seq<
    (Seq<char>, ParameterLocation, bool, RefOr<Schema>),
> {
    if s.kind is Object {
        s.kind->Object_0.props().map_values(
            |p: (Seq<char>, RefOr<Schema>)| (p.0, ParameterLocation::Query, false, p.1),
        )
    } else {
        Seq::empty()
    }
}

/// The query parameters a schema list contributes, in order.
pub open spec fn query_params_of(schemas: Seq<Schema>) -> Seq<
    (Seq<char>, ParameterLocation, bool, RefOr<Schema>),
>
    decreases schemas.len(),
{
    if schemas.len() == 0 {
        Seq::empty()
    } else {
        query_params_of_schema(schemas[0]) + query_params_of(schemas.drop_first())
    }
}

/// The parameters one source contributes.
pub open spec fn params_of_source(s: ParameterSource) -> Seq<
    (Seq<char>, ParameterLocation, bool, RefOr<Schema>),
> {
    match s {
        ParameterSource::Path(schemas) => path_params_from(schemas@, 0),
        ParameterSource::Query(schemas) => query_params_of(schemas@),
        _ => Seq::empty(),
    }
}

/// The request body one source contributes.
pub open spec fn body_of_source(s: ParameterSource) -> Option<RefOr<Schema>> {
    match s {
        ParameterSource::Body(r) => Some(r),
        _ => None,
    }
}

/// The parameters all sources contribute, in declaration order.
pub open spec fn params_of_sources(sources: Seq<ParameterSource>) -> Seq<
    (Seq<char>, ParameterLocation, bool, RefOr<Schema>),
>
    decreases sources.len(),
{
    if sources.len() == 0 {
        Seq::empty()
    } else {
        params_of_source(sources[0]) + params_of_sources(sources.drop_first())
    }
}

/// Every listed parameter is inline, and the models match in order.
pub open spec fn params_match(
    ps: Seq<RefOr<Parameter>>,
    expected: Seq<(Seq<char>, ParameterLocation, bool, RefOr<Schema>)>,
) -> bool {
    &&& ps.len() == expected.len()
    &&& forall|i: int|
        0 <= i < ps.len() ==> (#[trigger] ps[i]) is Item && param_model(ps[i]->Item_0)
            == expected[i]
}

/// Derive the path parameters of a list of path-extracted schemas.
#[verifier::loop_isolation(false)]
pub fn path_parameters(schemas: Vec<Schema>) -> (r: Vec<RefOr<Parameter>>)
    ensures
        params_match(r@, path_params_from(schemas@, 0)),
{
    let ghost all = schemas@;
    let n = schemas.len();
    let mut rest = schemas;
    let mut out: Vec<RefOr<Parameter>> = Vec::new();
    let mut i: usize = 0;
    proof {
        assert(all.take(0) =~= Seq::<Schema>::empty());
        assert(all.skip(0) =~= all);
        assert(path_params_from(Seq::<Schema>::empty(), 0) + path_params_from(all, 0)
            =~= path_params_from(all, 0));
        assert(params_match(out@, path_params_from(all.take(0), 0)));
    }
    while rest.len() > 0
        invariant
            n == all.len(),
            0 <= i <= n,
            rest@ =~= all.skip(i as int),
            params_match(out@, path_params_from(all.take(i as int), 0)),
            path_params_from(all, 0) == path_params_from(all.take(i as int), 0)
                + path_params_from(all.skip(i as int), i as int),
        decreases rest@.len(),
    {
        proof {
            assert(all.skip(i as int)[0] == all[i as int]);
        }
        let s = rest.remove(0);
        let ghost ssnap = s;
        proof {
            assert(rest@ =~= all.skip(i + 1));
            assert(ssnap == all[i as int]);
            assert(all.skip(i as int).drop_first() =~= all.skip(i + 1));
        }
        let ghost added = path_params_of_schema(ssnap, i as int);
        let ghost out_before = out@;
        match s {
            Schema { kind: crate::schema::SchemaKind::Object(o), nullable: _, description: _ } => {
                let mut props = o.properties;
                let ghost inner = crate::schema::props_model(props@);
                let ghost mut m: int = 0;
                while props.len() > 0
                    invariant
                        0 <= m <= inner.len(),
                        crate::schema::props_model(props@) =~= inner.skip(m),
                        out@.len() == out_before.len() + m,
                        forall|j: int| 0 <= j < out_before.len() ==> out@[j] == out_before[j],
                        forall|j: int|
                            0 <= j < m ==> (#[trigger] out@[out_before.len() + j]) is Item
                                && param_model(out@[out_before.len() + j]->Item_0) == added[j],
                    decreases props@.len(),
                {
                    proof {
                        assert(crate::schema::props_model(props@)[0] == inner[m]);
                    }
                    let ghost props_before = props@;
                    let p = props.remove(0);
                    proof {
                        assert(props@ =~= props_before.drop_first());
                        assert forall|n: int|
                            0 <= n < props@.len() implies crate::schema::props_model(props@)[n]
                            == inner.skip(m + 1)[n] by {
                            assert(crate::schema::props_model(props@)[n]
                                == crate::schema::props_model(props_before)[n + 1]);
                        }
                        assert(crate::schema::props_model(props@) =~= inner.skip(m + 1));
                        assert((p.0@, p.1) == inner[m]);
                    }
                    let param = Parameter::path(p.0, p.1);
                    proof {
                        assert(added[m] == (inner[m].0, ParameterLocation::Path, true, inner[m].1));
                    }
                    out.push(RefOr::Item(param));
                    proof {
                        m = m + 1;
                    }
                }
                proof {
                    assert(ssnap.kind is Object);
                    assert(inner == ssnap.kind->Object_0.props());
                    assert(inner.skip(m).len() == 0);
                    assert(m == inner.len());
                    assert(added.len() == inner.len());
                }
            },
            other => {
                let mut name = String::from_str("path");
                let digits = crate::text::usize_to_string(i);
                name.append(digits.as_str());
                let ghost name_view = name@;
                let param = Parameter::path(name, RefOr::Item(other));
                out.push(RefOr::Item(param));
                proof {
                    assert(!(ssnap.kind is Object));
                    assert(name_view == "path"@ + dec_digits(i as nat));
                    assert(added =~= seq![
                        (
                            "path"@ + dec_digits(i as nat),
                            ParameterLocation::Path,
                            true,
                            RefOr::Item(ssnap),
                        ),
                    ]);
                    assert(out@.last() is Item && param_model(out@.last()->Item_0) == added[0]);
                }
            },
        }
        proof {
            assert(out@.len() == out_before.len() + added.len());
            assert(all.take(i + 1).drop_last() =~= all.take(i as int));
            assert(all.take(i + 1).last() == all[i as int]);
            lemma_path_params_take_step(all, i as int);
            assert(path_params_from(all.take(i + 1), 0) == path_params_from(all.take(i as int), 0)
                + added);
            assert forall|j: int|
                0 <= j < out@.len() implies (#[trigger] out@[j]) is Item && param_model(
                out@[j]->Item_0,
            ) == path_params_from(all.take(i + 1), 0)[j] by {
                if j < out_before.len() {
                    assert(out@[j] == out_before[j]);
                    assert(path_params_from(all.take(i + 1), 0)[j] == path_params_from(
                        all.take(i as int),
                        0,
                    )[j]);
                } else {
                    let jj = j - out_before.len();
                    assert(out@[out_before.len() + jj] is Item && param_model(
                        out@[out_before.len() + jj]->Item_0,
                    ) == added[jj]);
                    assert(path_params_from(all.take(i + 1), 0)[j] == added[jj]);
                }
            }
            assert(params_match(out@, path_params_from(all.take(i + 1), 0)));
            assert(all.skip(i + 1) =~= all.skip(i as int).drop_first());
            lemma_path_params_split(all, 0, i + 1);
        }
        i += 1;
    }
    proof {
        assert(all.take(i as int) =~= all);
    }
    out
}

/// Splitting the path parameters of a prefix one schema later.
proof fn lemma_path_params_take_step(schemas: Seq<Schema>, i: int)
    requires
        0 <= i < schemas.len(),
    ensures
        path_params_from(schemas.take(i + 1), 0) == path_params_from(schemas.take(i), 0)
            + path_params_of_schema(schemas[i], i),
{
    lemma_path_params_split(schemas.take(i + 1), 0, i);
    assert(schemas.take(i + 1).take(i) =~= schemas.take(i));
    assert(schemas.take(i + 1)[i] == schemas[i]);
    assert(schemas.take(i + 1).skip(i) =~= seq![schemas[i]]);
    assert(seq![schemas[i]].drop_first() =~= Seq::<Schema>::empty());
    assert(path_params_from(seq![schemas[i]], i) == path_params_of_schema(schemas[i], i)
        + path_params_from(Seq::<Schema>::empty(), i + 1));
    assert(path_params_of_schema(schemas[i], i) + Seq::<(Seq<char>,
        ParameterLocation,
        bool,
        RefOr<Schema>,
    )>::empty() =~= path_params_of_schema(schemas[i], i));
}

/// The path parameters of a schema list split at any point.
proof fn lemma_path_params_split(schemas: Seq<Schema>, base: int, k: int)
    requires
        0 <= k <= schemas.len(),
    ensures
        path_params_from(schemas, base) == path_params_from(schemas.take(k), base)
            + path_params_from(schemas.skip(k), base + k),
    decreases k,
{
    if k == 0 {
        assert(schemas.take(0) =~= Seq::<Schema>::empty());
        assert(schemas.skip(0) =~= schemas);
        assert(path_params_from(Seq::<Schema>::empty(), base) + path_params_from(schemas, base)
            =~= path_params_from(schemas, base));
    } else {
        assert(schemas.len() > 0);
        lemma_path_params_split(schemas.drop_first(), base + 1, k - 1);
        assert(schemas.drop_first().take(k - 1) =~= schemas.take(k).drop_first());
        assert(schemas.drop_first().skip(k - 1) =~= schemas.skip(k));
        assert(schemas.take(k)[0] == schemas[0]);
        assert(schemas.take(k).len() > 0);
        assert(path_params_from(schemas.take(k), base) == path_params_of_schema(schemas[0], base)
            + path_params_from(schemas.take(k).drop_first(), base + 1));
        assert(path_params_from(schemas, base) == path_params_of_schema(schemas[0], base)
            + path_params_from(schemas.drop_first(), base + 1));
        assert(path_params_of_schema(schemas[0], base) + (path_params_from(
            schemas.take(k).drop_first(),
            base + 1,
        ) + path_params_from(schemas.skip(k), base + k)) =~= (path_params_of_schema(
            schemas[0],
            base,
        ) + path_params_from(schemas.take(k).drop_first(), base + 1)) + path_params_from(
            schemas.skip(k),
            base + k,
        ));
    }
}

/// Derive the query parameters of a list of query-extracted schemas.
#[verifier::loop_isolation(false)]
pub fn query_parameters(schemas: Vec<Schema>) -> (r: Vec<RefOr<Parameter>>)
    ensures
        params_match(r@, query_params_of(schemas@)),
{
    let ghost all = schemas@;
    let mut rest = schemas;
    let mut out: Vec<RefOr<Parameter>> = Vec::new();
    let ghost mut k: int = 0;
    while rest.len() > 0
        invariant
            0 <= k <= all.len(),
            rest@ =~= all.skip(k),
            params_match(out@, query_params_of(all.take(k))),
        decreases rest@.len(),
    {
        proof {
            assert(all.skip(k)[0] == all[k]);
        }
        let s = rest.remove(0);
        let ghost ssnap = s;
        proof {
            assert(rest@ =~= all.skip(k + 1));
            assert(ssnap == all[k]);
        }
        let ghost added = query_params_of_schema(ssnap);
        let ghost out_before = out@;
        match s {
            Schema { kind: crate::schema::SchemaKind::Object(o), nullable: _, description: _ } => {
                let mut props = o.properties;
                let ghost inner = crate::schema::props_model(props@);
                let ghost mut m: int = 0;
                while props.len() > 0
                    invariant
                        0 <= m <= inner.len(),
                        crate::schema::props_model(props@) =~= inner.skip(m),
                        out@.len() == out_before.len() + m,
                        forall|j: int| 0 <= j < out_before.len() ==> out@[j] == out_before[j],
                        forall|j: int|
                            0 <= j < m ==> (#[trigger] out@[out_before.len() + j]) is Item
                                && param_model(out@[out_before.len() + j]->Item_0) == added[j],
                    decreases props@.len(),
                {
                    proof {
                        assert(crate::schema::props_model(props@)[0] == inner[m]);
                    }
                    let ghost props_before = props@;
                    let p = props.remove(0);
                    proof {
                        assert(props@ =~= props_before.drop_first());
                        assert forall|n: int|
                            0 <= n < props@.len() implies crate::schema::props_model(props@)[n]
                            == inner.skip(m + 1)[n] by {
                            assert(crate::schema::props_model(props@)[n]
                                == crate::schema::props_model(props_before)[n + 1]);
                        }
                        assert(crate::schema::props_model(props@) =~= inner.skip(m + 1));
                        assert((p.0@, p.1) == inner[m]);
                    }
                    let param = Parameter::query(p.0, p.1);
                    proof {
                        assert(added[m] == (
                            inner[m].0,
                            ParameterLocation::Query,
                            false,
                            inner[m].1,
                        ));
                    }
                    out.push(RefOr::Item(param));
                    proof {
                        m = m + 1;
                    }
                }
                proof {
                    assert(ssnap.kind is Object);
                    assert(inner == ssnap.kind->Object_0.props());
                    assert(inner.skip(m).len() == 0);
                    assert(m == inner.len());
                    assert(added.len() == inner.len());
                }
            },
            _ => {
                proof {
                    assert(added =~= Seq::<(
                        Seq<char>,
                        ParameterLocation,
                        bool,
                        RefOr<Schema>,
                    )>::empty());
                }
            },
        }
        proof {
            assert(out@.len() == out_before.len() + added.len());
            assert(all.take(k + 1).drop_last() =~= all.take(k));
            assert(all.take(k + 1).last() == all[k]);
            lemma_query_params_step(all, k);
            assert(query_params_of(all.take(k + 1)) == query_params_of(all.take(k)) + added);
            assert forall|j: int|
                0 <= j < out@.len() implies (#[trigger] out@[j]) is Item && param_model(
                out@[j]->Item_0,
            ) == query_params_of(all.take(k + 1))[j] by {
                if j < out_before.len() {
                    assert(out@[j] == out_before[j]);
                    assert(query_params_of(all.take(k + 1))[j] == query_params_of(
                        all.take(k),
                    )[j]);
                } else {
                    let jj = j - out_before.len();
                    assert(out@[out_before.len() + jj] is Item && param_model(
                        out@[out_before.len() + jj]->Item_0,
                    ) == added[jj]);
                    assert(query_params_of(all.take(k + 1))[j] == added[jj]);
                }
            }
            assert(params_match(out@, query_params_of(all.take(k + 1))));
            k = k + 1;
        }
    }
    proof {
        assert(all.take(k) =~= all);
    }
    out
}

/// Splitting the query parameters of a prefix one schema later.
proof fn lemma_query_params_step(schemas: Seq<Schema>, k: int)
    requires
        0 <= k < schemas.len(),
    ensures
        query_params_of(schemas.take(k + 1)) == query_params_of(schemas.take(k))
            + query_params_of_schema(schemas[k]),
    decreases k,
{
    if k == 0 {
        assert(schemas.take(1)[0] == schemas[0]);
        assert(schemas.take(1).len() == 1);
        assert(schemas.take(1).drop_first() =~= Seq::<Schema>::empty());
        assert(schemas.take(0) =~= Seq::<Schema>::empty());
        assert(query_params_of(schemas.take(1)) == query_params_of_schema(schemas[0])
            + query_params_of(Seq::<Schema>::empty()));
        assert(query_params_of_schema(schemas[0]) + Seq::<(Seq<char>,
            ParameterLocation,
            bool,
            RefOr<Schema>,
        )>::empty() =~= query_params_of_schema(schemas[0]));
        assert(Seq::<(Seq<char>, ParameterLocation, bool, RefOr<Schema>)>::empty()
            + query_params_of_schema(schemas[0]) =~= query_params_of_schema(schemas[0]));
    } else {
        lemma_query_params_step(schemas.drop_first(), k - 1);
        assert(schemas.drop_first().take(k) =~= schemas.take(k + 1).drop_first());
        assert(schemas.drop_first().take(k - 1) =~= schemas.take(k).drop_first());
        assert(schemas.drop_first()[k - 1] == schemas[k]);
        assert(schemas.take(k + 1)[0] == schemas[0]);
        assert(schemas.take(k)[0] == schemas[0]);
        assert(query_params_of(schemas.take(k + 1)) == query_params_of_schema(schemas[0])
            + query_params_of(schemas.drop_first().take(k)));
        assert(query_params_of(schemas.take(k)) == query_params_of_schema(schemas[0])
            + query_params_of(schemas.drop_first().take(k - 1)));
        assert(query_params_of_schema(schemas[0]) + (query_params_of(
            schemas.drop_first().take(k - 1),
        ) + query_params_of_schema(schemas[k])) =~= (query_params_of_schema(schemas[0])
            + query_params_of(schemas.drop_first().take(k - 1))) + query_params_of_schema(
            schemas[k],
        ));
    }
}


/// The distinct status codes of an error-fact list, in first-occurrence
/// order.
pub open spec fn distinct_statuses(errs: Seq<(u16, String)>) -> Seq<u16>
    decreases errs.len(),
{
    if errs.len() == 0 {
        Seq::empty()
    } else {
        let d = distinct_statuses(errs.drop_last());
        if d.contains(errs.last().0) {
            d
        } else {
            d.push(errs.last().0)
        }
    }
}

/// The messages recorded for one status code, in order.
pub open spec fn msgs_for(errs: Seq<(u16, String)>, st: u16) -> Seq<Seq<char>> {
    errs.filter(|e: (u16, String)| e.0 == st).map_values(|e: (u16, String)| e.1@)
}

/// Messages rendered as a bulleted list.
pub open spec fn bulleted(msgs: Seq<Seq<char>>) -> Seq<char>
    decreases msgs.len(),
{
    if msgs.len() == 0 {
        Seq::empty()
    } else {
        "\n- "@ + msgs[0] + bulleted(msgs.drop_first())
    }
}

/// One response description: a single message stands alone; several are
/// joined under one bulleted heading.
pub open spec fn joined_description(msgs: Seq<Seq<char>>) -> Seq<char> {
    if msgs.len() == 1 {
        msgs[0]
    } else {
        "Possible reasons:"@ + bulleted(msgs)
    }
}

/// The aggregated error table: one entry per distinct status, in
/// first-occurrence order, each describing all messages for that status.
pub open spec fn aggregated(errs: Seq<(u16, String)>) -> Seq<(u16, Seq<char>)> {
    distinct_statuses(errs).map_values(|st: u16| (st, joined_description(msgs_for(errs, st))))
}

/// The model of a response list: status by value, description by view.
pub open spec fn responses_model(rs: Seq<(u16, String)>) -> Seq<(u16, Seq<char>)> {
    rs.map_values(|r: (u16, String)| (r.0, r.1@))
}

/// Join several messages under one bulleted heading; a single message
/// stands alone.
#[verifier::loop_isolation(false)]
fn join_messages(msgs: Vec<String>) -> (r: String)
    requires
        msgs@.len() > 0,
    ensures
        r@ == joined_description(crate::schema::name_views(msgs@)),
{
    let ghost all = crate::schema::name_views(msgs@);
    let mut rest = msgs;
    if rest.len() == 1 {
        let m = rest.remove(0);
        proof {
            assert(m@ == all[0]);
        }
        m
    } else {
        let mut out = String::from_str("Possible reasons:");
        let ghost mut k: int = 0;
        proof {
            assert(all.skip(0) =~= all);
        }
        while rest.len() > 0
            invariant
                0 <= k <= all.len(),
                crate::schema::name_views(rest@) =~= all.skip(k),
                out@ == "Possible reasons:"@ + bulleted(all.take(k)) || (k < all.len() && out@
                    + bulleted(all.skip(k)) == "Possible reasons:"@ + bulleted(all)),
                out@ + bulleted(all.skip(k)) == "Possible reasons:"@ + bulleted(all),
            decreases rest@.len(),
        {
            proof {
                assert(crate::schema::name_views(rest@)[0] == all.skip(k)[0]);
                assert(all.skip(k)[0] == all[k]);
            }
            let ghost rest_before = rest@;
            let m = rest.remove(0);
            proof {
                assert(rest@ =~= rest_before.drop_first());
                assert forall|n: int|
                    0 <= n < rest@.len() implies crate::schema::name_views(rest@)[n] == all.skip(
                    k + 1,
                )[n] by {
                    assert(crate::schema::name_views(rest@)[n] == crate::schema::name_views(
                        rest_before,
                    )[n + 1]);
                }
                assert(crate::schema::name_views(rest@) =~= all.skip(k + 1));
                assert(m@ == all[k]);
                assert(all.skip(k).drop_first() =~= all.skip(k + 1));
                assert(bulleted(all.skip(k)) == "\n- "@ + all[k] + bulleted(all.skip(k + 1)));
            }
            out.append("\n- ");
            out.append(m.as_str());
            proof {
                k = k + 1;
            }
        }
        proof {
            assert(all.skip(k).len() == 0);
            assert(bulleted(all.skip(k)) == Seq::<char>::empty());
            assert(out@ + Seq::<char>::empty() =~= out@);
            assert(all.len() != 1);
        }
        out
    }
}

/// Aggregate error facts into the response table: group by status code in
/// first-occurrence order, and join several messages for one status into a
/// single bulleted description.
#[verifier::loop_isolation(false)]
pub fn aggregate_errors(errors: Vec<(u16, String)>) -> (r: Vec<(u16, String)>)
    ensures
        responses_model(r@) == aggregated(errors@),
{
    let ghost all = errors@;
    let mut rest = errors;
    let mut groups: Vec<(u16, Vec<String>)> = Vec::new();
    let ghost mut k: int = 0;
    proof {
        assert(all.take(0) =~= Seq::<(u16, String)>::empty());
        reveal(Seq::filter);
    }
    while rest.len() > 0
        invariant
            0 <= k <= all.len(),
            rest@ =~= all.skip(k),
            groups@.map_values(|g: (u16, Vec<String>)| g.0) =~= distinct_statuses(all.take(k)),
            forall|i: int, j: int| 0 <= i < j < groups@.len() ==> groups@[i].0 != groups@[j].0,
            forall|i: int|
                0 <= i < groups@.len() ==> crate::schema::name_views(
                    (#[trigger] groups@[i]).1@,
                ) == msgs_for(all.take(k), groups@[i].0),
            forall|i: int| 0 <= i < groups@.len() ==> (#[trigger] groups@[i]).1@.len() > 0,
        decreases rest@.len(),
    {
        proof {
            assert(all.skip(k)[0] == all[k]);
        }
        let e = rest.remove(0);
        let ghost esnap = e;
        proof {
            assert(rest@ =~= all.skip(k + 1));
            assert(all.take(k + 1).drop_last() =~= all.take(k));
            assert(all.take(k + 1).last() == all[k]);
        }
        let st = e.0;
        let mut idx: usize = 0;
        let mut found = false;
        while idx < groups.len() && !found
            invariant
                0 <= idx <= groups@.len(),
                !found ==> forall|j: int| 0 <= j < idx ==> (#[trigger] groups@[j]).0 != st,
                found ==> idx < groups@.len() && groups@[idx as int].0 == st,
            decreases groups@.len() - idx + if found {
                0int
            } else {
                1int
            },
        {
            if groups[idx].0 == st {
                found = true;
            } else {
                idx += 1;
            }
        }
        let ghost d = distinct_statuses(all.take(k));
        proof {
            if found {
                assert(d[idx as int] == st);
                assert(d.contains(st));
            } else {
                if d.contains(st) {
                    let w = choose|w: int| 0 <= w < d.len() && d[w] == st;
                    assert(groups@[w].0 == st);
                }
                assert(!d.contains(st));
            }
            assert(distinct_statuses(all.take(k + 1)) == if d.contains(st) {
                d
            } else {
                d.push(st)
            });
        }
        let ghost groups_before = groups@;
        if found {
            let mut g = groups.remove(idx);
            g.1.push(e.1);
            groups.insert(idx, g);
            proof {
                assert(groups@ =~= groups_before.update(
                    idx as int,
                    (st, groups@[idx as int].1),
                ));
            }
        } else {
            let mut msgs: Vec<String> = Vec::new();
            msgs.push(e.1);
            groups.push((st, msgs));
        }
        proof {
            assert(groups@.map_values(|g: (u16, Vec<String>)| g.0) =~= distinct_statuses(
                all.take(k + 1),
            ));
            assert forall|i: int|
                0 <= i < groups@.len() implies crate::schema::name_views(
                (#[trigger] groups@[i]).1@,
            ) == msgs_for(all.take(k + 1), groups@[i].0) by {
                let stI = groups@[i].0;
                assert(all.take(k + 1).filter(|x: (u16, String)| x.0 == stI)
                    == if esnap.0 == stI {
                    all.take(k).filter(|x: (u16, String)| x.0 == stI).push(all[k])
                } else {
                    all.take(k).filter(|x: (u16, String)| x.0 == stI)
                });
                if i < groups_before.len() {
                    if found && i == idx as int {
                        assert(stI == esnap.0);
                        assert(groups@[i].1@ =~= groups_before[i].1@.push(esnap.1));
                        assert(crate::schema::name_views(groups@[i].1@)
                            =~= crate::schema::name_views(groups_before[i].1@).push(esnap.1@));
                        assert(msgs_for(all.take(k + 1), stI) =~= msgs_for(
                            all.take(k),
                            stI,
                        ).push(esnap.1@));
                    } else {
                        assert(groups@[i] == groups_before[i]);
                        assert(groups@[i].0 != esnap.0);
                        assert(msgs_for(all.take(k + 1), stI) =~= msgs_for(all.take(k), stI));
                    }
                } else {
                    assert(!found);
                    assert(stI == esnap.0);
                    assert(crate::schema::name_views(groups@[i].1@) =~= seq![esnap.1@]);
                    lemma_absent_status_no_msgs(all.take(k), stI);
                    assert(msgs_for(all.take(k), stI) =~= Seq::<Seq<char>>::empty());
                    assert(msgs_for(all.take(k + 1), stI) =~= seq![esnap.1@]);
                }
            }
            k = k + 1;
        }
    }
    proof {
        assert(all.take(k) =~= all);
    }
    let ghost gfinal = groups@;
    proof {
        assert(gfinal.map_values(|g: (u16, Vec<String>)| g.0) == distinct_statuses(all));
        assert(aggregated(all).len() == gfinal.len());
        assert(forall|i: int|
            0 <= i < gfinal.len() ==> crate::schema::name_views((#[trigger] gfinal[i]).1@)
                == msgs_for(all, gfinal[i].0));
        assert(forall|i: int| 0 <= i < gfinal.len() ==> (#[trigger] gfinal[i]).1@.len() > 0);
    }
    let mut out: Vec<(u16, String)> = Vec::new();
    let ghost mut m: int = 0;
    while groups.len() > 0
        invariant
            0 <= m <= gfinal.len(),
            groups@ =~= gfinal.skip(m),
            out@.len() == m,
            forall|i: int|
                0 <= i < m ==> (#[trigger] responses_model(out@)[i]) == aggregated(all)[i],
        decreases groups@.len(),
    {
        proof {
            assert(gfinal.skip(m)[0] == gfinal[m]);
        }
        let ghost groups_now = groups@;
        let g = groups.remove(0);
        proof {
            assert(groups@ =~= gfinal.skip(m + 1));
            assert(g == gfinal[m]);
        }
        proof {
            assert(crate::schema::name_views(g.1@) == msgs_for(all, gfinal[m].0));
        }
        let desc = join_messages(g.1);
        let ghost out_before = out@;
        out.push((g.0, desc));
        proof {
            assert(aggregated(all)[m] == (
                gfinal[m].0,
                joined_description(msgs_for(all, gfinal[m].0)),
            ));
            assert(desc@ == joined_description(msgs_for(all, gfinal[m].0)));
            assert forall|i: int| 0 <= i < m + 1 implies (#[trigger] responses_model(out@)[i])
                == aggregated(all)[i] by {
                if i < m {
                    assert(out@[i] == out_before[i]);
                    assert(responses_model(out_before)[i] == aggregated(all)[i]);
                    assert(responses_model(out@)[i] == responses_model(out_before)[i]);
                } else {
                    assert(out@[i] == (gfinal[m].0, desc));
                    assert(responses_model(out@)[i] == (gfinal[m].0, desc@));
                }
            }
            m = m + 1;
        }
    }
    proof {
        assert(responses_model(out@) =~= aggregated(all));
    }
    out
}

/// Every status that occurs in the list is among its distinct statuses.
pub proof fn lemma_distinct_statuses_complete(errs: Seq<(u16, String)>, i: int)
    requires
        0 <= i < errs.len(),
    ensures
        distinct_statuses(errs).contains(errs[i].0),
    decreases errs.len(),
{
    let d = distinct_statuses(errs.drop_last());
    if i == errs.len() - 1 {
        if !d.contains(errs.last().0) {
            assert(distinct_statuses(errs) == d.push(errs.last().0));
            assert(distinct_statuses(errs)[d.len() as int] == errs.last().0);
        }
    } else {
        lemma_distinct_statuses_complete(errs.drop_last(), i);
        assert(errs.drop_last()[i] == errs[i]);
        let w = choose|w: int| 0 <= w < d.len() && d[w] == errs[i].0;
        assert(distinct_statuses(errs)[w] == errs[i].0);
    }
}

/// A status that is not among the distinct statuses has no messages.
proof fn lemma_absent_status_no_msgs(errs: Seq<(u16, String)>, st: u16)
    requires
        !distinct_statuses(errs).contains(st),
    ensures
        msgs_for(errs, st) =~= Seq::<Seq<char>>::empty(),
{
    if msgs_for(errs, st).len() > 0 {
        lemma_msgs_member(errs, st);
        let w = choose|w: int| 0 <= w < errs.len() && (#[trigger] errs[w]).0 == st;
        lemma_distinct_statuses_complete(errs, w);
        assert(false);
    }
}

/// A status with at least one message occurs in the error list.
proof fn lemma_msgs_member(errs: Seq<(u16, String)>, st: u16)
    requires
        msgs_for(errs, st).len() > 0,
    ensures
        exists|i: int| 0 <= i < errs.len() && (#[trigger] errs[i]).0 == st,
    decreases errs.len(),
{
    reveal(Seq::filter);
    if errs.len() == 0 {
        assert(msgs_for(errs, st).len() == 0);
    } else {
        if errs.last().0 == st {
            assert(errs[errs.len() - 1].0 == st);
        } else {
            assert(msgs_for(errs, st).len() == msgs_for(errs.drop_last(), st).len());
            lemma_msgs_member(errs.drop_last(), st);
            let i = choose|i: int|
                0 <= i < errs.drop_last().len() && (#[trigger] errs.drop_last()[i]).0 == st;
            assert(errs[i].0 == st);
        }
    }
}


impl Default for Operation {
    /// An empty operation: no identifier, no parameters, no bodies, no
    /// responses.
    fn default() -> (r: Operation)
        ensures
            r.operation_id is None,
            r.summary is None,
            r.description is None,
            r.tags@ =~= Seq::<String>::empty(),
            !r.deprecated,
            r.parameters@ =~= Seq::<RefOr<Parameter>>::empty(),
            r.request_body is None,
            r.success_response is None,
            r.responses@ =~= Seq::<(u16, String)>::empty(),
    {
        Operation {
            operation_id: None,
            summary: None,
            description: None,
            tags: Vec::new(),
            deprecated: false,
            parameters: Vec::new(),
            request_body: None,
            success_response: None,
            responses: Vec::new(),
        }
    }
}

/// The declared annotations of one endpoint.
#[derive(Debug, PartialEq)]
pub struct OperationAttributes {
    pub summary: Option<String>,
    pub description: Option<String>,
    pub tags: Vec<String>,
    pub operation_id: Option<String>,
    pub deprecated: bool,
}

impl OperationAttributes {
    /// Take the endpoint's doc comment, when present, as the description.
    pub fn merge_attributes(&mut self, docstring: Option<String>)
        ensures
            docstring is Some ==> final(self).description == docstring,
            docstring is None ==> final(self).description == old(self).description,
            final(self).summary == old(self).summary,
            final(self).tags == old(self).tags,
            final(self).operation_id == old(self).operation_id,
            final(self).deprecated == old(self).deprecated,
    {
        match docstring {
            Some(d) => {
                self.description = Some(d);
            },
            None => {},
        }
    }
}

/// Whether the text holds a path separator pair.
pub open spec fn contains_sep(s: Seq<char>) -> bool
    decreases s.len(),
{
    if s.len() >= 2 && s[0] == ':' && s[1] == ':' {
        true
    } else if s.len() > 0 {
        contains_sep(s.drop_first())
    } else {
        false
    }
}

/// The text after the first path separator pair.
pub open spec fn after_first_sep(s: Seq<char>) -> Seq<char>
    decreases s.len(),
{
    if s.len() >= 2 && s[0] == ':' && s[1] == ':' {
        s.skip(2)
    } else if s.len() > 0 {
        after_first_sep(s.drop_first())
    } else {
        Seq::empty()
    }
}

/// The text with each path separator pair turned into an underscore,
/// leftmost first.
pub open spec fn seps_to_underscores(s: Seq<char>) -> Seq<char>
    decreases s.len(),
{
    if s.len() >= 2 && s[0] == ':' && s[1] == ':' {
        seq!['_'] + seps_to_underscores(s.skip(2))
    } else if s.len() > 0 {
        seq![s[0]] + seps_to_underscores(s.drop_first())
    } else {
        Seq::empty()
    }
}

/// The default operation id of a handler's qualified name: everything
/// after the leading module segment, with the separators turned into
/// underscores; empty when the name has no separator.
pub open spec fn op_id_of(s: Seq<char>) -> Seq<char> {
    if contains_sep(s) {
        seps_to_underscores(after_first_sep(s))
    } else {
        Seq::empty()
    }
}

/// Turn every path separator pair into an underscore, leftmost first.
#[verifier::loop_isolation(false)]
fn underscore_separators(s: &str) -> (r: String)
    ensures
        r@ == seps_to_underscores(s@),
{
    let n = s.unicode_len();
    let mut out = String::new();
    let mut i: usize = 0;
    proof {
        assert(s@.skip(0) =~= s@);
        assert(out@ + seps_to_underscores(s@) =~= seps_to_underscores(s@));
        reveal_strlit("_");
    }
    while i < n
        invariant
            n == s@.len(),
            0 <= i <= n,
            out@ + seps_to_underscores(s@.skip(i as int)) == seps_to_underscores(s@),
        decreases n - i,
    {
        let is_sep = if i + 1 < n {
            s.get_char(i) == ':' && s.get_char(i + 1) == ':'
        } else {
            false
        };
        proof {
            assert(s@.skip(i as int)[0] == s@[i as int]);
            if i + 1 < n {
                assert(s@.skip(i as int)[1] == s@[i + 1]);
            }
        }
        if is_sep {
            out.append("_");
            proof {
                assert(s@.skip(i as int).len() >= 2);
                assert(s@.skip(i as int).skip(2) =~= s@.skip(i + 2));
                assert(seps_to_underscores(s@.skip(i as int)) == seq!['_']
                    + seps_to_underscores(s@.skip(i + 2)));
                assert("_"@ =~= seq!['_']);
                assert(out@ + seps_to_underscores(s@.skip(i + 2)) =~= seps_to_underscores(s@));
            }
            i += 2;
        } else {
            let piece = s.substring_char(i, i + 1);
            out.append(piece);
            proof {
                assert(piece@ =~= seq![s@[i as int]]);
                assert(s@.skip(i as int).drop_first() =~= s@.skip(i + 1));
                if i + 1 < n {
                    assert(seps_to_underscores(s@.skip(i as int)) == seq![s@[i as int]]
                        + seps_to_underscores(s@.skip(i + 1)));
                } else {
                    assert(s@.skip(i as int).len() == 1);
                    assert(seps_to_underscores(s@.skip(i as int)) == seq![s@[i as int]]
                        + seps_to_underscores(s@.skip(i + 1)));
                }
                assert(out@ + seps_to_underscores(s@.skip(i + 1)) =~= seps_to_underscores(s@));
            }
            i += 1;
        }
    }
    proof {
        assert(s@.skip(i as int).len() == 0);
        assert(seps_to_underscores(s@.skip(i as int)) == Seq::<char>::empty());
        assert(out@ + Seq::<char>::empty() =~= out@);
    }
    out
}

/// The default operation id for a handler's qualified name: the segments
/// after the leading module, joined by underscores.
#[verifier::loop_isolation(false)]
pub fn fn_path_to_op_id(path: &str) -> (r: Option<String>)
    ensures
        r matches Some(id) && id@ == op_id_of(path@),
{
    let n = path.unicode_len();
    let mut i: usize = 0;
    proof {
        assert(path@.skip(0) =~= path@);
    }
    while n > 0 && i < n - 1
        invariant
            n == path@.len(),
            0 <= i <= n,
            contains_sep(path@) == contains_sep(path@.skip(i as int)),
            after_first_sep(path@) == after_first_sep(path@.skip(i as int)),
        decreases n - i,
    {
        let c0 = path.get_char(i);
        let c1 = path.get_char(i + 1);
        proof {
            assert(path@.skip(i as int)[0] == path@[i as int]);
            assert(path@.skip(i as int)[1] == path@[i + 1]);
        }
        if c0 == ':' && c1 == ':' {
            proof {
                assert(path@.skip(i as int).len() >= 2);
                assert(contains_sep(path@.skip(i as int)));
                assert(path@.skip(i as int).skip(2) =~= path@.skip(i + 2));
                assert(after_first_sep(path@.skip(i as int)) == path@.skip(i + 2));
            }
            let rest = path.substring_char(i + 2, n);
            proof {
                assert(rest@ =~= path@.skip(i + 2));
            }
            let id = underscore_separators(rest);
            return Some(id);
        }
        proof {
            assert(path@.skip(i as int).drop_first() =~= path@.skip(i + 1));
            assert(contains_sep(path@.skip(i as int)) == contains_sep(path@.skip(i + 1)));
            assert(after_first_sep(path@.skip(i as int)) == after_first_sep(path@.skip(i + 1)));
        }
        i += 1;
    }
    proof {
        assert(path@.skip(i as int).len() <= 1);
        assert(!contains_sep(Seq::<char>::empty()));
        if path@.skip(i as int).len() == 1 {
            assert(path@.skip(i as int).drop_first() =~= Seq::<char>::empty());
            assert(!contains_sep(path@.skip(i as int)));
        } else {
            assert(path@.skip(i as int) =~= Seq::<char>::empty());
        }
        assert(!contains_sep(path@));
    }
    let id = String::new();
    Some(id)
}

/// How an operation with more than one body-supplying argument is handled:
/// keep the last argument's body and silently ignore the others, or refuse
/// the operation.
#[derive(Debug, PartialEq)]
pub enum BodyPolicy {
    PreferLast,
    RejectAmbiguous,
}

/// A fatal assembly error.
#[derive(Debug, PartialEq)]
pub enum AssembleError {
    /// More than one argument could supply the request body.
    AmbiguousBodyParameter,
}

/// How many sources supply a request body.
pub open spec fn body_sources_count(sources: Seq<ParameterSource>) -> int
    decreases sources.len(),
{
    if sources.len() == 0 {
        0int
    } else {
        body_sources_count(sources.drop_last()) + if body_of_source(sources.last()) is Some {
            1int
        } else {
            0int
        }
    }
}

/// The body the last source supplies, if any: only the last argument of an
/// endpoint may supply the request body.
pub open spec fn last_body(sources: Seq<ParameterSource>) -> Option<RefOr<Schema>> {
    if sources.len() == 0 {
        None
    } else {
        body_of_source(sources.last())
    }
}

/// Splitting the parameters of a source prefix one source later.
proof fn lemma_params_of_sources_step(sources: Seq<ParameterSource>, k: int)
    requires
        0 <= k < sources.len(),
    ensures
        params_of_sources(sources.take(k + 1)) == params_of_sources(sources.take(k))
            + params_of_source(sources[k]),
    decreases k,
{
    if k == 0 {
        assert(sources.take(1)[0] == sources[0]);
        assert(sources.take(1).len() == 1);
        assert(sources.take(1).drop_first() =~= Seq::<ParameterSource>::empty());
        assert(sources.take(0) =~= Seq::<ParameterSource>::empty());
        assert(params_of_sources(sources.take(1)) == params_of_source(sources[0])
            + params_of_sources(Seq::<ParameterSource>::empty()));
        assert(params_of_source(sources[0]) + Seq::<(Seq<char>,
            ParameterLocation,
            bool,
            RefOr<Schema>,
        )>::empty() =~= params_of_source(sources[0]));
        assert(Seq::<(Seq<char>, ParameterLocation, bool, RefOr<Schema>)>::empty()
            + params_of_source(sources[0]) =~= params_of_source(sources[0]));
    } else {
        lemma_params_of_sources_step(sources.drop_first(), k - 1);
        assert(sources.drop_first().take(k) =~= sources.take(k + 1).drop_first());
        assert(sources.drop_first().take(k - 1) =~= sources.take(k).drop_first());
        assert(sources.drop_first()[k - 1] == sources[k]);
        assert(sources.take(k + 1)[0] == sources[0]);
        assert(sources.take(k)[0] == sources[0]);
        assert(params_of_sources(sources.take(k + 1)) == params_of_source(sources[0])
            + params_of_sources(sources.drop_first().take(k)));
        assert(params_of_sources(sources.take(k)) == params_of_source(sources[0])
            + params_of_sources(sources.drop_first().take(k - 1)));
        assert(params_of_source(sources[0]) + (params_of_sources(
            sources.drop_first().take(k - 1),
        ) + params_of_source(sources[k])) =~= (params_of_source(sources[0]) + params_of_sources(
            sources.drop_first().take(k - 1),
        )) + params_of_source(sources[k]));
    }
}

/// Assemble one endpoint's operation record.
///
/// Each source contributes its call parameters, in declaration order. Only
/// the last source may supply the request body; when several could, the
/// policy decides between keeping the last and refusing. The success type's
/// body becomes the success response, and the failure facts are aggregated
/// into one response entry per distinct status. The operation id defaults
/// to the normalized qualified handler name unless overridden.
#[verifier::loop_isolation(false)]
pub fn assemble_operation(
    attrs: OperationAttributes,
    qualified_name: &str,
    sources: Vec<ParameterSource>,
    success: Option<RefOr<Schema>>,
    errors: Vec<(u16, String)>,
    policy: BodyPolicy,
) -> (r: Result<Operation, AssembleError>)
    ensures
        r is Ok <==> !(policy is RejectAmbiguous && body_sources_count(sources@) > 1),
        r matches Ok(op) ==> {
            &&& params_match(op.parameters@, params_of_sources(sources@))
            &&& op.request_body == last_body(sources@)
            &&& op.success_response == success
            &&& responses_model(op.responses@) == aggregated(errors@)
            &&& op.summary == attrs.summary
            &&& op.description == attrs.description
            &&& op.tags == attrs.tags
            &&& op.deprecated == attrs.deprecated
            &&& (attrs.operation_id is Some ==> op.operation_id == attrs.operation_id)
            &&& (attrs.operation_id is None ==> (op.operation_id matches Some(id) && id@
                == op_id_of(qualified_name@)))
        },
        r matches Err(e) ==> e is AmbiguousBodyParameter,
{
    let ghost all = sources@;
    let mut rest = sources;
    let n_src = rest.len();
    let mut parameters: Vec<RefOr<Parameter>> = Vec::new();
    let mut request_body: Option<RefOr<Schema>> = None;
    let mut n_bodies: usize = 0;
    let ghost mut k: int = 0;
    proof {
        assert(all.take(0) =~= Seq::<ParameterSource>::empty());
        assert(params_match(parameters@, params_of_sources(all.take(0))));
    }
    while rest.len() > 0
        invariant
            0 <= k <= all.len(),
            rest@ =~= all.skip(k),
            all.len() == n_src,
            params_match(parameters@, params_of_sources(all.take(k))),
            request_body == last_body(all.take(k)),
            n_bodies == body_sources_count(all.take(k)),
            n_bodies <= k,
        decreases rest@.len(),
    {
        proof {
            assert(all.skip(k)[0] == all[k]);
        }
        let s = rest.remove(0);
        let ghost ssnap = s;
        proof {
            assert(rest@ =~= all.skip(k + 1));
            assert(ssnap == all[k]);
            assert(all.take(k + 1).drop_last() =~= all.take(k));
            assert(all.take(k + 1).last() == all[k]);
            lemma_params_of_sources_step(all, k);
        }
        let ghost params_before = parameters@;
        let ghost added = params_of_source(ssnap);
        match s {
            ParameterSource::Path(schemas) => {
                let mut ps = path_parameters(schemas);
                let ghost ps_snap = ps@;
                parameters.append(&mut ps);
                request_body = None;
                proof {
                    assert(parameters@ =~= params_before + ps_snap);
                }
            },
            ParameterSource::Query(schemas) => {
                let mut ps = query_parameters(schemas);
                let ghost ps_snap = ps@;
                parameters.append(&mut ps);
                request_body = None;
                proof {
                    assert(parameters@ =~= params_before + ps_snap);
                }
            },
            ParameterSource::Body(b) => {
                request_body = Some(b);
                n_bodies += 1;
            },
            ParameterSource::Header => {
                request_body = None;
            },
            ParameterSource::Extension => {
                request_body = None;
            },
        }
        proof {
            assert(params_of_sources(all.take(k + 1)) == params_of_sources(all.take(k)) + added);
            assert(params_match(parameters@, params_of_sources(all.take(k + 1)))) by {
                assert forall|j: int|
                    0 <= j < parameters@.len() implies (#[trigger] parameters@[j]) is Item
                    && param_model(parameters@[j]->Item_0) == params_of_sources(
                    all.take(k + 1),
                )[j] by {
                    if j < params_before.len() {
                        assert(parameters@[j] == params_before[j]);
                        assert(params_of_sources(all.take(k + 1))[j] == params_of_sources(
                            all.take(k),
                        )[j]);
                    } else {
                        let jj = j - params_before.len();
                        assert(params_of_sources(all.take(k + 1))[j] == added[jj]);
                    }
                }
            }
            assert(request_body == last_body(all.take(k + 1)));
            assert(n_bodies == body_sources_count(all.take(k + 1)));
            k = k + 1;
        }
    }
    proof {
        assert(all.take(k) =~= all);
    }
    let reject = match policy {
        BodyPolicy::PreferLast => false,
        BodyPolicy::RejectAmbiguous => n_bodies > 1,
    };
    if reject {
        return Err(AssembleError::AmbiguousBodyParameter);
    }
    let operation_id = match attrs.operation_id {
        Some(id) => Some(id),
        None => fn_path_to_op_id(qualified_name),
    };
    let responses = aggregate_errors(errors);
    Ok(
        Operation {
            operation_id,
            summary: attrs.summary,
            description: attrs.description,
            tags: attrs.tags,
            deprecated: attrs.deprecated,
            parameters,
            request_body,
            success_response: success,
            responses,
        },
    )
}

} // verus!
