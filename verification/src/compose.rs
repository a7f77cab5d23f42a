//! The schema composer: builds an object schema for a composite type from
//! its ordered field list and per-field policy (skip, skip-if-absent,
//! flatten, inline).

use vstd::prelude::*;

use crate::schema::{
    distinct_keys, has_key, insert_prop, key_index, name_views, props_model, ObjectType, RefOr,
    Schema, SchemaKind,
};

verus! {

/// Per-field policy flags. `skip` drops the field entirely;
/// `skip_serializing_if` (a predicate path, kept as text) makes the field
/// optional; `inline` inlines the field's schema instead of referencing it.
#[derive(Debug, PartialEq)]
pub struct FieldAttributes {
    pub skip: bool,
    pub skip_serializing_if: Option<String>,
    pub inline: bool,
}

impl FieldAttributes {
    /// Combine with a second set of flags for the same field: boolean flags
    /// are or-ed, and a present `skip_serializing_if` overrides.
    pub fn merge_with(&mut self, other: &FieldAttributes)
        ensures
            final(self).skip == (old(self).skip || other.skip),
            final(self).inline == (old(self).inline || other.inline),
            other.skip_serializing_if is Some ==> (final(self).skip_serializing_if matches Some(s)
                && s@ == other.skip_serializing_if->0@),
            other.skip_serializing_if is None ==> final(self).skip_serializing_if
                == old(self).skip_serializing_if,
    {
        if other.skip {
            self.skip = true;
        }
        if other.inline {
            self.inline = true;
        }
        match &other.skip_serializing_if {
            Some(s) => {
                self.skip_serializing_if = Some(s.clone());
            },
            None => {},
        }
    }
}

/// The declared per-field annotations a composite's author may put on a
/// field directly, before they are folded into the full policy flags.
#[derive(Debug, PartialEq)]
pub struct OpenApiAttributes {
    pub skip: bool,
    pub skip_serializing_if: Option<String>,
}

impl OpenApiAttributes {
    /// Combine with a second set of annotations for the same field: skip
    /// is or-ed, and a present skip-if-absent predicate overrides.
    pub fn merge_with(&mut self, other: &OpenApiAttributes)
        ensures
            final(self).skip == (old(self).skip || other.skip),
            other.skip_serializing_if is Some ==> (final(self).skip_serializing_if matches Some(s)
                && s@ == other.skip_serializing_if->0@),
            other.skip_serializing_if is None ==> final(self).skip_serializing_if
                == old(self).skip_serializing_if,
    {
        if other.skip {
            self.skip = true;
        }
        match &other.skip_serializing_if {
            Some(s) => {
                self.skip_serializing_if = Some(s.clone());
            },
            None => {},
        }
    }
}

/// One field of a composite type, as the composer sees it: the field name
/// (after any rename), the field type's full schema, the field type's
/// reference form, the flatten marker and the policy flags.
#[derive(Debug, PartialEq)]
pub struct FieldDescriptor {
    pub name: String,
    pub schema: Schema,
    pub schema_ref: RefOr<Schema>,
    pub flatten: bool,
    pub attrs: FieldAttributes,
}

/// A fatal composition error.
#[derive(Debug, PartialEq)]
pub enum ComposeError {
    /// A flatten-marked field whose schema does not resolve to an inline
    /// object; carries the offending field's name.
    InvalidFlatten { field: String },
}

/// The reference a plain field contributes: its inline schema when the
/// `inline` flag is set, else the field type's reference form.
pub open spec fn ref_of(f: FieldDescriptor) -> RefOr<Schema> {
    if f.attrs.inline {
        RefOr::Item(f.schema)
    } else {
        f.schema_ref
    }
}

/// A flatten-marked field is valid when its schema is an inline object all
/// of whose property values are themselves inline.
pub open spec fn flatten_ok(f: FieldDescriptor) -> bool {
    &&& f.schema.kind is Object
    &&& forall|i: int|
        0 <= i < f.schema.kind->Object_0.props().len()
            ==> (#[trigger] f.schema.kind->Object_0.props()[i]).1 is Item
}

/// A field passes composition: it is skipped, plain, or a valid flatten.
pub open spec fn field_ok(f: FieldDescriptor) -> bool {
    f.attrs.skip || !f.flatten || flatten_ok(f)
}

/// Every field passes composition.
pub open spec fn compose_ok(fields: Seq<FieldDescriptor>) -> bool {
    forall|i: int| 0 <= i < fields.len() ==> field_ok(#[trigger] fields[i])
}

/// The index of the first field that fails composition.
pub open spec fn first_invalid(fields: Seq<FieldDescriptor>) -> int {
    choose|i: int|
        0 <= i < fields.len() && !field_ok(fields[i]) && (forall|j: int|
            0 <= j < i ==> field_ok(fields[j]))
}

/// A modelled property list with every property of `new` inserted in order.
pub open spec fn insert_all(
    props: Seq<(Seq<char>, RefOr<Schema>)>,
    new: Seq<(Seq<char>, RefOr<Schema>)>,
) -> Seq<(Seq<char>, RefOr<Schema>)>
    decreases new.len(),
{
    if new.len() == 0 {
        props
    } else {
        insert_all(insert_prop(props, new[0].0, new[0].1), new.drop_first())
    }
}

/// One field's effect on the property list.
pub open spec fn apply_field_props(
    props: Seq<(Seq<char>, RefOr<Schema>)>,
    f: FieldDescriptor,
) -> Seq<(Seq<char>, RefOr<Schema>)> {
    if f.attrs.skip {
        props
    } else if f.flatten {
        insert_all(props, f.schema.kind->Object_0.props())
    } else {
        insert_prop(props, f.name@, ref_of(f))
    }
}

/// One field's effect on the required-name list.
pub open spec fn apply_field_req(req: Seq<Seq<char>>, f: FieldDescriptor) -> Seq<Seq<char>> {
    if f.attrs.skip {
        req
    } else if f.flatten {
        req + f.schema.kind->Object_0.req()
    } else if f.attrs.skip_serializing_if is Some {
        req
    } else {
        req.push(f.name@)
    }
}

/// The property list composed from a field list, in declaration order.
pub open spec fn composed_props(fields: Seq<FieldDescriptor>) -> Seq<(Seq<char>, RefOr<Schema>)>
    decreases fields.len(),
{
    if fields.len() == 0 {
        Seq::empty()
    } else {
        apply_field_props(composed_props(fields.drop_last()), fields.last())
    }
}

/// The required-name list composed from a field list, in declaration order.
pub open spec fn composed_req(fields: Seq<FieldDescriptor>) -> Seq<Seq<char>>
    decreases fields.len(),
{
    if fields.len() == 0 {
        Seq::empty()
    } else {
        apply_field_req(composed_req(fields.drop_last()), fields.last())
    }
}

/// The object schema a field list composes to.
pub open spec fn composed_object_ok(
    fields: Seq<FieldDescriptor>,
    description: Option<String>,
    s: Schema,
) -> bool {
    &&& s.kind is Object
    &&& s.kind->Object_0.props() == composed_props(fields)
    &&& s.kind->Object_0.req() == composed_req(fields)
    &&& s.kind->Object_0.additional_properties is None
    &&& !s.nullable
    &&& s.description == description
}

/// The error a failing field list composes to: it names the first field
/// whose flatten target does not resolve to an inline object.
pub open spec fn invalid_flatten_err(fields: Seq<FieldDescriptor>, e: ComposeError) -> bool {
    e matches ComposeError::InvalidFlatten { field } && field@ == fields[first_invalid(
        fields,
    )].name@
}

/// Compose an object schema from an ordered field list.
///
/// Fields are handled in declaration order: a skipped field contributes
/// nothing; a flatten-marked field must resolve to an inline object, whose
/// properties and required names are merged into the parent; any other field
/// contributes one property (inline or referenced) and, unless marked
/// skip-if-absent, one required name.
#[verifier::loop_isolation(false)]
pub fn compose_fields(fields: Vec<FieldDescriptor>, description: Option<String>) -> (r: Result<
    Schema,
    ComposeError,
>)
    ensures
        r is Ok <==> compose_ok(fields@),
        r matches Ok(s) ==> composed_object_ok(fields@, description, s),
        r matches Err(e) ==> invalid_flatten_err(fields@, e),
{
    let ghost all = fields@;
    let mut rest = fields;
    let mut o = ObjectType::new();
    let ghost mut k: int = 0;
    while rest.len() > 0
        invariant
            0 <= k <= all.len(),
            rest@ =~= all.skip(k),
            compose_ok(all.take(k)),
            o.props() == composed_props(all.take(k)),
            o.req() == composed_req(all.take(k)),
            o.additional_properties is None,
        decreases rest@.len(),
    {
        proof {
            assert(all.skip(k).len() > 0);
            assert(all.skip(k)[0] == all[k]);
        }
        let f = rest.remove(0);
        let ghost fsnap = f;
        proof {
            assert(rest@ =~= all.skip(k + 1));
            assert(fsnap == all[k]);
            assert(all.take(k + 1).drop_last() =~= all.take(k));
            assert(all.take(k + 1).last() == all[k]);
        }
        if f.attrs.skip {
            // contributes nothing
        } else if f.flatten {
            match f.schema.kind {
                SchemaKind::Object(obj) => {
                    let ghost inner = obj.props();
                    let ghost inner_req_vec = obj.required@;
                    let ghost inner_req = obj.req();
                    let mut obj = obj;
                    let ghost mut m: int = 0;
                    while obj.properties.len() > 0
                        invariant
                            0 <= m <= inner.len(),
                            props_model(obj.properties@) =~= inner.skip(m),
                            obj.required@ == inner_req_vec,
                            forall|i: int| 0 <= i < m ==> (#[trigger] inner[i]).1 is Item,
                            o.props() == insert_all(composed_props(all.take(k)), inner.take(m)),
                            o.req() == composed_req(all.take(k)),
                            o.additional_properties is None,
                        decreases obj.properties@.len(),
                    {
                        let ghost before = obj.properties@;
                        proof {
                            assert(props_model(before).len() == before.len());
                            assert(inner.skip(m).len() == inner.len() - m);
                            assert(m < inner.len());
                            assert(inner.skip(m) =~= inner.subrange(m, inner.len() as int));
                            assert(props_model(before)[0] == inner.skip(m)[0]);
                            assert(inner.skip(m)[0] == inner[m]);
                        }
                        let p = obj.properties.remove(0);
                        proof {
                            assert(obj.properties@ =~= before.drop_first());
                            assert forall|i: int| 0 <= i < obj.properties@.len() implies
                                props_model(obj.properties@)[i] == inner.skip(m + 1)[i] by {
                                assert(props_model(obj.properties@)[i] == props_model(before)[
                                    i + 1]);
                            }
                            assert(props_model(obj.properties@) =~= inner.skip(m + 1));
                            assert((p.0@, p.1) == props_model(before)[0]);
                            assert((p.0@, p.1) == inner[m]);
                        }
                        match p.1 {
                            RefOr::Item(_) => {
                                proof {
                                    lemma_insert_all_step(composed_props(all.take(k)), inner, m);
                                    assert(inner.take(m + 1) =~= inner.take(m).push(inner[m]));
                                }
                                o.insert(p.0, p.1);
                                proof {
                                    m = m + 1;
                                }
                            },
                            RefOr::Reference(_) => {
                                proof {
                                    assert(inner[m].1 is Reference);
                                    assert(fsnap.schema.kind->Object_0.props() == inner);
                                    assert(0 <= m < inner.len());
                                    assert(!flatten_ok(fsnap)) by {
                                        assert(fsnap.schema.kind->Object_0.props()[m].1
                                            is Reference);
                                    }
                                    assert(!field_ok(all[k]));
                                    lemma_first_invalid_is(all, k);
                                    assert(!compose_ok(all)) by {
                                        assert(0 <= k < all.len() && !field_ok(all[k]));
                                    }
                                    assert(f.name@ == all[k].name@);
                                }
                                return Err(ComposeError::InvalidFlatten { field: f.name });
                            },
                        }
                    }
                    proof {
                        assert(inner.skip(m).len() == 0);
                        assert(m == inner.len());
                        assert(inner.take(m) =~= inner);
                        assert(flatten_ok(fsnap));
                        assert(field_ok(all[k]));
                        assert(compose_ok(all.take(k + 1))) by {
                            assert(forall|j: int|
                                0 <= j < k + 1 ==> field_ok(#[trigger] all.take(k + 1)[j]))
                                by {
                                assert(forall|j: int|
                                    0 <= j < k ==> all.take(k + 1)[j] == all.take(k)[j]);
                            }
                        }
                    }
                    let mut req = obj.required;
                    o.required.append(&mut req);
                    proof {
                        assert(o.req() =~= composed_req(all.take(k)) + inner_req);
                        assert(o.props() == apply_field_props(composed_props(all.take(k)), fsnap));
                        assert(o.req() == apply_field_req(composed_req(all.take(k)), fsnap));
                    }
                },
                _ => {
                    proof {
                        assert(!flatten_ok(fsnap));
                        assert(!field_ok(all[k]));
                        lemma_first_invalid_is(all, k);
                        assert(!compose_ok(all)) by {
                            assert(0 <= k < all.len() && !field_ok(all[k]));
                        }
                        assert(f.name@ == all[k].name@);
                    }
                    return Err(ComposeError::InvalidFlatten { field: f.name });
                },
            }
        } else {
            let required = f.attrs.skip_serializing_if.is_none();
            let reference = if f.attrs.inline {
                RefOr::Item(f.schema)
            } else {
                f.schema_ref
            };
            proof {
                assert(reference == ref_of(fsnap));
            }
            if required {
                let name = f.name.clone();
                o.insert(f.name, reference);
                o.require(name);
            } else {
                o.insert(f.name, reference);
            }
            proof {
                assert(o.props() == apply_field_props(composed_props(all.take(k)), fsnap));
                assert(o.req() == apply_field_req(composed_req(all.take(k)), fsnap));
            }
        }
        proof {
            assert(field_ok(fsnap));
            assert(compose_ok(all.take(k + 1))) by {
                assert(forall|j: int|
                    0 <= j < k + 1 ==> field_ok(#[trigger] all.take(k + 1)[j])) by {
                    assert(forall|j: int| 0 <= j < k ==> all.take(k + 1)[j] == all.take(k)[j]);
                }
            }
            assert(composed_props(all.take(k + 1)) == apply_field_props(
                composed_props(all.take(k)),
                fsnap,
            ));
            assert(composed_req(all.take(k + 1)) == apply_field_req(
                composed_req(all.take(k)),
                fsnap,
            ));
            k = k + 1;
        }
    }
    proof {
        assert(all.take(k) =~= all);
    }
    Ok(Schema { kind: SchemaKind::Object(o), nullable: false, description })
}

/// Unfolding step for `insert_all`: inserting the first `m + 1` properties
/// equals inserting the first `m` and then one more.
proof fn lemma_insert_all_step(
    props: Seq<(Seq<char>, RefOr<Schema>)>,
    new: Seq<(Seq<char>, RefOr<Schema>)>,
    m: int,
)
    requires
        0 <= m < new.len(),
    ensures
        insert_all(props, new.take(m + 1)) == insert_prop(
            insert_all(props, new.take(m)),
            new[m].0,
            new[m].1,
        ),
    decreases m,
{
    let stepped = insert_prop(props, new[0].0, new[0].1);
    if m == 0 {
        let s1 = new.take(1);
        assert(s1.len() == 1);
        assert(s1[0] == new[0]);
        assert(s1.drop_first() =~= Seq::<(Seq<char>, RefOr<Schema>)>::empty());
        assert(insert_all(props, s1) == insert_all(stepped, s1.drop_first()));
        assert(insert_all(stepped, s1.drop_first()) == stepped);
        assert(new.take(0).len() == 0);
        assert(insert_all(props, new.take(0)) == props);
    } else {
        let s = new.take(m + 1);
        let t = new.take(m);
        assert(s.len() == m + 1 && t.len() == m);
        assert(s[0] == new[0]);
        assert(t[0] == new[0]);
        assert(s.drop_first() =~= new.drop_first().take(m));
        assert(t.drop_first() =~= new.drop_first().take(m - 1));
        assert(insert_all(props, s) == insert_all(stepped, s.drop_first()));
        assert(insert_all(props, t) == insert_all(stepped, t.drop_first()));
        lemma_insert_all_step(stepped, new.drop_first(), m - 1);
        assert(new.drop_first()[m - 1] == new[m]);
    }
}

/// If every field before `k` passes composition and field `k` fails, then
/// `k` is the first failing index.
proof fn lemma_first_invalid_is(fields: Seq<FieldDescriptor>, k: int)
    requires
        0 <= k < fields.len(),
        !field_ok(fields[k]),
        compose_ok(fields.take(k)),
    ensures
        first_invalid(fields) == k,
{
    assert(forall|j: int| 0 <= j < k ==> field_ok(#[trigger] fields[j])) by {
        assert(forall|j: int|
            0 <= j < k ==> fields.take(k)[j] == #[trigger] fields[j]);
    }
    let i = first_invalid(fields);
    assert(0 <= i < fields.len() && !field_ok(fields[i]) && (forall|j: int|
        0 <= j < i ==> field_ok(fields[j])));
    if i < k {
        assert(field_ok(fields[i]));
    }
    if i > k {
        assert(field_ok(fields[k]));
    }
}

/// Inserting properties whose names are pairwise distinct and all absent
/// from the accumulator appends them in order.
pub proof fn lemma_insert_all_append(
    acc: Seq<(Seq<char>, RefOr<Schema>)>,
    new: Seq<(Seq<char>, RefOr<Schema>)>,
)
    requires
        distinct_keys(new),
        forall|i: int| 0 <= i < new.len() ==> !has_key(acc, (#[trigger] new[i]).0),
    ensures
        insert_all(acc, new) == acc + new,
    decreases new.len(),
{
    if new.len() == 0 {
        assert(acc + new =~= acc);
    } else {
        assert(!has_key(acc, new[0].0));
        let stepped = acc.push(new[0]);
        assert(insert_prop(acc, new[0].0, new[0].1) == stepped.update(
            stepped.len() - 1,
            (new[0].0, new[0].1),
        ) || insert_prop(acc, new[0].0, new[0].1) == stepped);
        assert(insert_prop(acc, new[0].0, new[0].1) =~= stepped);
        let tail = new.drop_first();
        assert(distinct_keys(tail)) by {
            assert(forall|i: int, j: int|
                0 <= i < j < tail.len() ==> tail[i] == new[i + 1] && tail[j] == new[j + 1]);
        }
        assert forall|i: int| 0 <= i < tail.len() implies !has_key(stepped, (#[trigger] tail[i]).0)
            by {
            assert(tail[i] == new[i + 1]);
            if has_key(stepped, tail[i].0) {
                let w = key_index(stepped, tail[i].0);
                assert(stepped[w].0 == tail[i].0);
                if w < acc.len() {
                    assert(has_key(acc, new[i + 1].0)) by {
                        assert(acc[w].0 == new[i + 1].0);
                    }
                } else {
                    assert(stepped[w] == new[0]);
                    assert(new[0].0 == new[i + 1].0);
                }
            }
        }
        lemma_insert_all_append(stepped, tail);
        assert(insert_all(acc, new) == insert_all(stepped, tail));
        assert(stepped + tail =~= acc + new);
    }
}

/// Law: a composite with no skipped and no flattened fields, with pairwise
/// distinct field names, composes to exactly one property per field, in
/// declaration order, and its required names are exactly the names of the
/// fields not marked skip-if-absent, in declaration order.
pub proof fn lemma_plain_composition(fields: Seq<FieldDescriptor>)
    requires
        forall|i: int|
            0 <= i < fields.len() ==> !(#[trigger] fields[i]).attrs.skip && !fields[i].flatten,
        forall|i: int, j: int| 0 <= i < j < fields.len() ==> fields[i].name@ != fields[j].name@,
    ensures
        composed_props(fields) =~= fields.map_values(
            |f: FieldDescriptor| (f.name@, ref_of(f)),
        ),
        composed_req(fields) =~= fields.filter(
            |f: FieldDescriptor| f.attrs.skip_serializing_if is None,
        ).map_values(|f: FieldDescriptor| f.name@),
    decreases fields.len(),
{
    reveal(Seq::filter);
    let pred = |f: FieldDescriptor| f.attrs.skip_serializing_if is None;
    let toname = |f: FieldDescriptor| f.name@;
    let tofull = |f: FieldDescriptor| (f.name@, ref_of(f));
    if fields.len() == 0 {
        assert(composed_props(fields) =~= fields.map_values(tofull));
        assert(composed_req(fields) =~= fields.filter(pred).map_values(toname));
    } else {
        let dl = fields.drop_last();
        let last = fields.last();
        lemma_plain_composition(dl);
        assert(composed_props(fields) == insert_prop(
            composed_props(dl),
            last.name@,
            ref_of(last),
        ));
        assert(!has_key(composed_props(dl), last.name@)) by {
            if has_key(composed_props(dl), last.name@) {
                let w = key_index(composed_props(dl), last.name@);
                assert(composed_props(dl)[w] == dl.map_values(tofull)[w]);
                assert(dl[w].name@ == last.name@);
                assert(fields[w].name@ != fields[fields.len() - 1].name@);
            }
        }
        assert(composed_props(fields) =~= fields.map_values(tofull)) by {
            assert(composed_props(dl) =~= dl.map_values(tofull));
            assert(forall|i: int|
                0 <= i < dl.len() ==> fields.map_values(tofull)[i] == dl.map_values(tofull)[i]);
        }
        if pred(last) {
            assert(fields.filter(pred) == dl.filter(pred).push(last));
            assert(composed_req(fields) == composed_req(dl).push(last.name@));
            assert(composed_req(fields) =~= fields.filter(pred).map_values(toname));
        } else {
            assert(fields.filter(pred) == dl.filter(pred));
            assert(composed_req(fields) == composed_req(dl));
            assert(composed_req(fields) =~= fields.filter(pred).map_values(toname));
        }
    }
}

/// Law: a composite of a flatten-marked field followed by a plain required
/// field composes to the flattened object's properties followed by the plain
/// property, with the flattened object's required names followed by the
/// plain field's name.
pub proof fn lemma_flatten_composition(bar: FieldDescriptor, z: FieldDescriptor)
    requires
        !bar.attrs.skip,
        bar.flatten,
        flatten_ok(bar),
        !z.attrs.skip,
        !z.flatten,
        z.attrs.skip_serializing_if is None,
        distinct_keys(bar.schema.kind->Object_0.props()),
        !has_key(bar.schema.kind->Object_0.props(), z.name@),
    ensures
        composed_props(seq![bar, z]) =~= bar.schema.kind->Object_0.props().push(
            (z.name@, ref_of(z)),
        ),
        composed_req(seq![bar, z]) =~= bar.schema.kind->Object_0.req().push(z.name@),
{
    let bp = bar.schema.kind->Object_0.props();
    let fields = seq![bar, z];
    assert(fields.drop_last() =~= seq![bar]);
    assert(fields.last() == z);
    assert(seq![bar].drop_last() =~= Seq::<FieldDescriptor>::empty());
    assert(composed_props(Seq::<FieldDescriptor>::empty()) == Seq::<(Seq<char>,
        RefOr<Schema>,
    )>::empty());
    assert(composed_props(seq![bar]) == insert_all(Seq::empty(), bp));
    assert(forall|i: int| 0 <= i < bp.len() ==> !has_key(Seq::empty(), (#[trigger] bp[i]).0));
    lemma_insert_all_append(Seq::empty(), bp);
    assert(composed_props(seq![bar]) =~= bp);
    assert(composed_props(fields) == insert_prop(composed_props(seq![bar]), z.name@, ref_of(z)));
    assert(!has_key(composed_props(seq![bar]), z.name@)) by {
        if has_key(composed_props(seq![bar]), z.name@) {
            let w = key_index(composed_props(seq![bar]), z.name@);
            assert(bp[w].0 == z.name@);
        }
    }
    assert(composed_req(Seq::<FieldDescriptor>::empty()) == Seq::<Seq<char>>::empty());
    assert(composed_req(seq![bar]) == Seq::<Seq<char>>::empty()
        + bar.schema.kind->Object_0.req());
    assert(composed_req(seq![bar]) =~= bar.schema.kind->Object_0.req());
}


/// A present name has a first index, and the index spec function returns
/// it.
proof fn lemma_first_key_exists(props: Seq<(Seq<char>, RefOr<Schema>)>, name: Seq<char>)
    requires
        has_key(props, name),
    ensures
        ({
            let i = key_index(props, name);
            0 <= i < props.len() && props[i].0 == name && (forall|j: int|
                0 <= j < i ==> props[j].0 != name)
        }),
    decreases props.len(),
{
    assert(props.len() > 0) by {
        let w = choose|w: int| 0 <= w < props.len() && props[w].0 == name;
    }
    if props[0].0 == name {
        assert(0 <= 0 < props.len() && props[0].0 == name && (forall|j: int|
            0 <= j < 0 ==> props[j].0 != name));
    } else {
        assert(has_key(props.drop_first(), name)) by {
            let w = choose|w: int| 0 <= w < props.len() && props[w].0 == name;
            assert(w > 0);
            assert(props.drop_first()[w - 1].0 == name);
        }
        lemma_first_key_exists(props.drop_first(), name);
        let m = key_index(props.drop_first(), name);
        assert(props[m + 1].0 == name && (forall|j: int|
            0 <= j < m + 1 ==> props[j].0 != name)) by {
            assert(props[m + 1] == props.drop_first()[m]);
            assert(forall|j: int| 0 < j < m + 1 ==> props[j] == props.drop_first()[j - 1]);
        }
    }
}

/// Inserting a property keeps every present name present, and makes the
/// inserted name present.
proof fn lemma_insert_prop_keys(
    props: Seq<(Seq<char>, RefOr<Schema>)>,
    name: Seq<char>,
    schema: RefOr<Schema>,
)
    ensures
        has_key(insert_prop(props, name, schema), name),
        forall|k: Seq<char>| has_key(props, k) ==> #[trigger] has_key(
            insert_prop(props, name, schema),
            k,
        ),
{
    let out = insert_prop(props, name, schema);
    if has_key(props, name) {
        lemma_first_key_exists(props, name);
        let i = key_index(props, name);
        assert(out[i].0 == name);
        assert(has_key(out, name));
        assert forall|k: Seq<char>| has_key(props, k) implies #[trigger] has_key(out, k) by {
            let w = choose|w: int| 0 <= w < props.len() && props[w].0 == k;
            if w == i {
                assert(out[i].0 == name && props[i].0 == name);
                assert(out[w].0 == k);
            } else {
                assert(out[w].0 == k);
            }
        }
    } else {
        assert(out[props.len() as int].0 == name);
        assert(has_key(out, name));
        assert forall|k: Seq<char>| has_key(props, k) implies #[trigger] has_key(out, k) by {
            let w = choose|w: int| 0 <= w < props.len() && props[w].0 == k;
            assert(out[w].0 == k);
        }
    }
}

/// Inserting a batch of properties keeps every present name present, and
/// makes every inserted name present.
proof fn lemma_insert_all_keys(
    props: Seq<(Seq<char>, RefOr<Schema>)>,
    new: Seq<(Seq<char>, RefOr<Schema>)>,
)
    ensures
        forall|k: Seq<char>| has_key(props, k) ==> #[trigger] has_key(insert_all(props, new), k),
        forall|i: int| 0 <= i < new.len() ==> has_key(insert_all(props, new), (#[trigger] new[i]).0),
    decreases new.len(),
{
    if new.len() > 0 {
        let stepped = insert_prop(props, new[0].0, new[0].1);
        lemma_insert_prop_keys(props, new[0].0, new[0].1);
        lemma_insert_all_keys(stepped, new.drop_first());
        assert(insert_all(props, new) == insert_all(stepped, new.drop_first()));
        assert forall|i: int|
            0 <= i < new.len() implies has_key(insert_all(props, new), (#[trigger] new[i]).0) by {
            if i == 0 {
                assert(has_key(stepped, new[0].0));
            } else {
                assert(new.drop_first()[i - 1] == new[i]);
                assert(has_key(insert_all(stepped, new.drop_first()), new[i].0));
            }
        }
    }
}

/// A flatten target whose own required names all stand among its property
/// names.
pub open spec fn flatten_target_wf(f: FieldDescriptor) -> bool {
    forall|i: int|
        0 <= i < f.schema.kind->Object_0.req().len() ==> has_key(
            f.schema.kind->Object_0.props(),
            #[trigger] f.schema.kind->Object_0.req()[i],
        )
}

/// Law: every required name of a composed object stands among its property
/// names, provided each flatten target has that shape itself.
pub proof fn lemma_required_in_properties(fields: Seq<FieldDescriptor>)
    requires
        compose_ok(fields),
        forall|i: int|
            0 <= i < fields.len() ==> ((#[trigger] fields[i]).attrs.skip || !fields[i].flatten
                || flatten_target_wf(fields[i])),
    ensures
        forall|i: int|
            0 <= i < composed_req(fields).len() ==> has_key(
                composed_props(fields),
                #[trigger] composed_req(fields)[i],
            ),
    decreases fields.len(),
{
    if fields.len() > 0 {
        let dl = fields.drop_last();
        let last = fields.last();
        assert(compose_ok(dl) && (forall|i: int|
            0 <= i < dl.len() ==> ((#[trigger] dl[i]).attrs.skip || !dl[i].flatten
                || flatten_target_wf(dl[i])))) by {
            assert(forall|i: int| 0 <= i < dl.len() ==> dl[i] == #[trigger] fields[i]);
        }
        lemma_required_in_properties(dl);
        let props0 = composed_props(dl);
        let req0 = composed_req(dl);
        assert(last == fields[fields.len() - 1]);
        if last.attrs.skip {
        } else if last.flatten {
            let inner = last.schema.kind->Object_0;
            lemma_insert_all_keys(props0, inner.props());
            assert(flatten_target_wf(last));
            assert forall|i: int|
                0 <= i < composed_req(fields).len() implies has_key(
                composed_props(fields),
                #[trigger] composed_req(fields)[i],
            ) by {
                if i < req0.len() {
                    assert(composed_req(fields)[i] == req0[i]);
                    assert(has_key(props0, req0[i]));
                } else {
                    let j = i - req0.len();
                    assert(composed_req(fields)[i] == inner.req()[j]);
                    assert(has_key(inner.props(), inner.req()[j]));
                    let w = choose|w: int|
                        0 <= w < inner.props().len() && inner.props()[w].0 == inner.req()[j];
                    assert(has_key(composed_props(fields), inner.props()[w].0));
                }
            }
        } else {
            lemma_insert_prop_keys(props0, last.name@, ref_of(last));
            assert forall|i: int|
                0 <= i < composed_req(fields).len() implies has_key(
                composed_props(fields),
                #[trigger] composed_req(fields)[i],
            ) by {
                if i < req0.len() {
                    assert(composed_req(fields)[i] == req0[i]);
                    assert(has_key(props0, req0[i]));
                } else {
                    assert(composed_req(fields)[i] == last.name@);
                }
            }
        }
    }
}

} // verus!
