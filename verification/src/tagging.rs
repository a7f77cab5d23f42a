//! The variant tagging resolver: builds the schema of a sum type from its
//! variant list and one of four tagging strategies.

use vstd::prelude::*;

use crate::compose::{
    compose_fields, compose_ok, composed_props, composed_req, first_invalid, ComposeError,
    FieldDescriptor,
};
use crate::schema::{has_key, insert_prop, key_index, name_views, ObjectType, RefOr, Schema, SchemaKind};

verus! {

/// How a sum type's serialized form encodes which variant a value is.
#[derive(Debug, PartialEq)]
pub enum TagType {
    /// `{ variantName: innerSchema }`.
    External,
    /// The tag is a property injected into the variant's own object.
    Internal { tag: String },
    /// Tag and content sit side by side in a wrapping object.
    Adjacent { tag: String, content: String },
    /// The variant's schema is used unchanged.
    Untagged,
}

/// The shape of one variant of a sum type.
#[derive(Debug, PartialEq)]
pub enum VariantShape {
    /// No fields: the variant is encoded as its name.
    Unit,
    /// One unnamed field: the inner type's schema is used directly.
    Newtype(Box<Schema>),
    /// Named fields: composed to an object schema.
    Fields(Vec<FieldDescriptor>),
}

/// One variant of a sum type.
#[derive(Debug, PartialEq)]
pub struct VariantDescriptor {
    pub name: String,
    pub skip: bool,
    pub shape: VariantShape,
}

/// A string-enumeration schema over exactly the given values.
pub open spec fn is_str_enum_of(s: Schema, values: Seq<Seq<char>>) -> bool {
    &&& s.kind is StrEnum
    &&& name_views(s.kind->StrEnum_0@) == values
    &&& !s.nullable
    &&& s.description is None
}

/// An object schema with a single tag property restricted to the given
/// values, the tag required.
pub open spec fn is_tag_object(s: Schema, tag: Seq<char>, values: Seq<Seq<char>>) -> bool {
    &&& s.kind is Object
    &&& s.kind->Object_0.props().len() == 1
    &&& s.kind->Object_0.props()[0].0 == tag
    &&& s.kind->Object_0.props()[0].1 is Item
    &&& is_str_enum_of(s.kind->Object_0.props()[0].1->Item_0, values)
    &&& s.kind->Object_0.req() == seq![tag]
    &&& s.kind->Object_0.additional_properties is None
    &&& !s.nullable
    &&& s.description is None
}

/// The inner schema of a complex variant: a newtype variant's is its single
/// field's schema, a fields variant's is the object composed from its
/// fields.
pub open spec fn variant_inner_ok(v: VariantDescriptor, inner: Schema) -> bool {
    match v.shape {
        VariantShape::Unit => false,
        VariantShape::Newtype(b) => inner == *b,
        VariantShape::Fields(fs) => {
            &&& compose_ok(fs@)
            &&& inner.kind is Object
            &&& inner.kind->Object_0.props() == composed_props(fs@)
            &&& inner.kind->Object_0.req() == composed_req(fs@)
            &&& inner.kind->Object_0.additional_properties is None
            &&& !inner.nullable
            &&& inner.description is None
        },
    }
}

/// How a tagging strategy wraps one complex variant's inner schema.
pub open spec fn wrap_ok(t: TagType, name: Seq<char>, inner: Schema, w: Schema) -> bool {
    match t {
        TagType::External => {
            &&& w.kind is Object
            &&& w.kind->Object_0.props() == seq![(name, RefOr::Item(inner))]
            &&& w.kind->Object_0.req() == seq![name]
            &&& w.kind->Object_0.additional_properties is None
            &&& !w.nullable
            &&& w.description is None
        },
        TagType::Internal { tag } => {
            if inner.kind is Object {
                &&& w.kind is Object
                &&& exists|te: Schema|
                    is_str_enum_of(te, seq![name]) && w.kind->Object_0.props() == insert_prop(
                        inner.kind->Object_0.props(),
                        tag@,
                        RefOr::Item(te),
                    )
                &&& w.kind->Object_0.req() == inner.kind->Object_0.req().push(tag@)
                &&& w.kind->Object_0.additional_properties
                    == inner.kind->Object_0.additional_properties
                &&& w.nullable == inner.nullable
                &&& w.description == inner.description
            } else {
                &&& w.kind is AllOf
                &&& w.kind->AllOf_0@.len() == 2
                &&& w.kind->AllOf_0@[0] is Item
                &&& is_tag_object(w.kind->AllOf_0@[0]->Item_0, tag@, seq![name])
                &&& w.kind->AllOf_0@[1] == RefOr::Item(inner)
                &&& !w.nullable
                &&& w.description is None
            }
        },
        TagType::Adjacent { tag, content } => {
            &&& w.kind is Object
            &&& exists|te: Schema|
                is_str_enum_of(te, seq![name]) && w.kind->Object_0.props() == insert_prop(
                    insert_prop(Seq::empty(), tag@, RefOr::Item(te)),
                    content@,
                    RefOr::Item(inner),
                )
            &&& w.kind->Object_0.req() == seq![tag@, content@]
            &&& w.kind->Object_0.additional_properties is None
            &&& !w.nullable
            &&& w.description is None
        },
        TagType::Untagged => w == inner,
    }
}

/// A fully wrapped branch for one complex variant.
pub open spec fn branch_ok(t: TagType, v: VariantDescriptor, w: Schema) -> bool {
    exists|inner: Schema| variant_inner_ok(v, inner) && wrap_ok(t, v.name@, inner, w)
}

/// How a tagging strategy renders the collapsed unit variants.
pub open spec fn unit_branch_ok(t: TagType, names: Seq<Seq<char>>, w: Schema) -> bool {
    match t {
        TagType::External | TagType::Untagged => is_str_enum_of(w, names),
        TagType::Internal { tag } => is_tag_object(w, tag@, names),
        TagType::Adjacent { tag, content } => is_tag_object(w, tag@, names),
    }
}

/// The variants that take part in composition.
pub open spec fn active(vs: Seq<VariantDescriptor>) -> Seq<VariantDescriptor> {
    vs.filter(|v: VariantDescriptor| !v.skip)
}

/// The names of the non-skipped unit variants, in declaration order.
pub open spec fn unit_names(vs: Seq<VariantDescriptor>) -> Seq<Seq<char>> {
    vs.filter(|v: VariantDescriptor| !v.skip && v.shape is Unit).map_values(
        |v: VariantDescriptor| v.name@,
    )
}

/// The non-skipped complex variants, in declaration order.
pub open spec fn complexes(vs: Seq<VariantDescriptor>) -> Seq<VariantDescriptor> {
    vs.filter(|v: VariantDescriptor| !v.skip && !(v.shape is Unit))
}

/// A variant's own field list composes without error.
pub open spec fn variant_fields_ok(v: VariantDescriptor) -> bool {
    match v.shape {
        VariantShape::Fields(fs) => compose_ok(fs@),
        _ => true,
    }
}

/// Every non-skipped variant's field list composes without error.
pub open spec fn enum_ok(vs: Seq<VariantDescriptor>) -> bool {
    forall|i: int| 0 <= i < vs.len() ==> (vs[i].skip || variant_fields_ok(#[trigger] vs[i]))
}

/// The number of branches the sum type's schema is assembled from.
pub open spec fn branch_count(vs: Seq<VariantDescriptor>) -> int {
    complexes(vs).len() + if unit_names(vs).len() > 0 {
        1int
    } else {
        0int
    }
}

/// The assembled schema of a sum type: with exactly one branch, that branch
/// itself; otherwise a one-of over the wrapped complex branches in
/// declaration order, with the collapsed unit branch last.
pub open spec fn enum_result_ok(vs: Seq<VariantDescriptor>, t: TagType, s: Schema) -> bool {
    let cs = complexes(vs);
    let us = unit_names(vs);
    if branch_count(vs) == 1 {
        if cs.len() == 1 {
            branch_ok(t, cs[0], s)
        } else {
            unit_branch_ok(t, us, s)
        }
    } else {
        &&& s.kind is OneOf
        &&& s.kind->OneOf_0@.len() == branch_count(vs)
        &&& forall|i: int|
            0 <= i < cs.len() ==> (#[trigger] s.kind->OneOf_0@[i]) is Item && branch_ok(
                t,
                cs[i],
                s.kind->OneOf_0@[i]->Item_0,
            )
        &&& us.len() > 0 ==> s.kind->OneOf_0@.last() is Item && unit_branch_ok(
            t,
            us,
            s.kind->OneOf_0@.last()->Item_0,
        )
        &&& !s.nullable
        &&& s.description is None
    }
}

/// A string-enumeration schema over one value.
fn str_enum_single(name: String) -> (r: Schema)
    ensures
        is_str_enum_of(r, seq![name@]),
{
    let mut values: Vec<String> = Vec::new();
    values.push(name);
    let r = Schema::new_str_enum(values);
    proof {
        assert(name_views(r.kind->StrEnum_0@) =~= seq![name@]);
    }
    r
}

/// An object schema `{ tag: enum(values) }` with the tag required.
fn tag_object(tag: String, values: Vec<String>) -> (r: Schema)
    ensures
        is_tag_object(r, tag@, name_views(values@)),
{
    let ghost vals = values@;
    let enum_schema = Schema::new_str_enum(values);
    let mut o = ObjectType::new();
    let tag_key = tag.clone();
    o.insert(tag_key, RefOr::Item(enum_schema));
    o.require(tag);
    let r = Schema { kind: SchemaKind::Object(o), nullable: false, description: None };
    proof {
        assert(r.kind->Object_0.props() =~= seq![(tag@, RefOr::Item(enum_schema))]);
        assert(r.kind->Object_0.req() =~= seq![tag@]);
    }
    r
}

/// Wrap one complex variant's inner schema per the tagging strategy.
fn wrap_variant(t: &TagType, name: String, inner: Schema) -> (r: Schema)
    ensures
        wrap_ok(*t, name@, inner, r),
{
    match t {
        TagType::External => {
            let mut o = ObjectType::new();
            let key = name.clone();
            o.insert(key, RefOr::Item(inner));
            o.require(name);
            let r = Schema { kind: SchemaKind::Object(o), nullable: false, description: None };
            proof {
                assert(r.kind->Object_0.props() =~= seq![(name@, RefOr::Item(inner))]);
                assert(r.kind->Object_0.req() =~= seq![name@]);
            }
            r
        },
        TagType::Internal { tag } => {
            let Schema { kind, nullable, description } = inner;
            let ghost inner_snap = Schema { kind, nullable, description };
            match kind {
                SchemaKind::Object(o) => {
                    let mut o = o;
                    let tag_key = tag.clone();
                    let tag_req = tag.clone();
                    let te = str_enum_single(name);
                    let ghost te_snap = te;
                    o.insert(tag_key, RefOr::Item(te));
                    o.require(tag_req);
                    let r = Schema { kind: SchemaKind::Object(o), nullable, description };
                    proof {
                        assert(is_str_enum_of(te_snap, seq![name@]) && r.kind->Object_0.props()
                            == insert_prop(
                            inner_snap.kind->Object_0.props(),
                            tag@,
                            RefOr::Item(te_snap),
                        ));
                        assert(wrap_ok(*t, name@, inner_snap, r));
                    }
                    r
                },
                _ => {
                    let kept = Schema { kind, nullable, description };
                    let ghost name_view = name@;
                    let mut single: Vec<String> = Vec::new();
                    single.push(name);
                    proof {
                        assert(name_views(single@) =~= seq![name_view]);
                    }
                    let tagged = tag_object(tag.clone(), single);
                    let mut parts: Vec<RefOr<Schema>> = Vec::new();
                    parts.push(RefOr::Item(tagged));
                    parts.push(RefOr::Item(kept));
                    let r = Schema::new_all_of(parts);
                    proof {
                        assert(r.kind->AllOf_0@.len() == 2);
                        assert(wrap_ok(*t, name@, inner_snap, r));
                    }
                    r
                },
            }
        },
        TagType::Adjacent { tag, content } => {
            let mut o = ObjectType::new();
            let tag_key = tag.clone();
            let tag_req = tag.clone();
            let content_key = content.clone();
            let content_req = content.clone();
            let te = str_enum_single(name);
            let ghost te_snap = te;
            let ghost inner_snap = inner;
            o.insert(tag_key, RefOr::Item(te));
            o.insert(content_key, RefOr::Item(inner));
            o.require(tag_req);
            o.require(content_req);
            let r = Schema { kind: SchemaKind::Object(o), nullable: false, description: None };
            proof {
                assert(is_str_enum_of(te_snap, seq![name@]) && r.kind->Object_0.props()
                    == insert_prop(
                    insert_prop(Seq::empty(), tag@, RefOr::Item(te_snap)),
                    content@,
                    RefOr::Item(inner_snap),
                ));
                assert(r.kind->Object_0.req() =~= seq![tag@, content@]);
                assert(wrap_ok(*t, name@, inner_snap, r));
            }
            r
        },
        TagType::Untagged => inner,
    }
}


/// The index of the first non-skipped variant whose field list fails
/// composition.
pub open spec fn first_bad_variant(vs: Seq<VariantDescriptor>) -> int {
    choose|i: int|
        0 <= i < vs.len() && !vs[i].skip && !variant_fields_ok(vs[i]) && (forall|j: int|
            0 <= j < i ==> vs[j].skip || variant_fields_ok(vs[j]))
}

/// If every non-skipped variant before `k` composes and variant `k` does
/// not, then `k` is the first failing index.
proof fn lemma_first_bad_variant_is(vs: Seq<VariantDescriptor>, k: int)
    requires
        0 <= k < vs.len(),
        !vs[k].skip,
        !variant_fields_ok(vs[k]),
        enum_ok(vs.take(k)),
    ensures
        first_bad_variant(vs) == k,
{
    assert(forall|j: int|
        0 <= j < k ==> vs[j].skip || variant_fields_ok(#[trigger] vs[j])) by {
        assert(forall|j: int| 0 <= j < k ==> vs.take(k)[j] == #[trigger] vs[j]);
    }
    assert(0 <= k < vs.len() && !vs[k].skip && !variant_fields_ok(vs[k]) && (forall|j: int|
        0 <= j < k ==> vs[j].skip || variant_fields_ok(vs[j])));
    let i = first_bad_variant(vs);
    assert(0 <= i < vs.len() && !vs[i].skip && !variant_fields_ok(vs[i]) && (forall|j: int|
        0 <= j < i ==> vs[j].skip || variant_fields_ok(vs[j])));
    if i < k {
        assert(vs[i].skip || variant_fields_ok(vs[i]));
    }
    if i > k {
        assert(vs[k].skip || variant_fields_ok(vs[k]));
    }
}

/// Compose the schema of a sum type from its variant list and tagging
/// strategy.
///
/// Skipped variants contribute nothing. Unit variants collapse into one
/// string-enumeration branch, placed last and rendered per the strategy.
/// Each complex variant's inner schema (its single field's schema for a
/// newtype variant, the composed object for a fields variant) is wrapped
/// per the strategy. One branch stands alone; several become a one-of.
#[verifier::loop_isolation(false)]
#[verifier::rlimit(30)]
pub fn compose_enum(variants: Vec<VariantDescriptor>, tag: &TagType) -> (r: Result<
    Schema,
    ComposeError,
>)
    ensures
        r is Ok <==> enum_ok(variants@),
        r matches Ok(s) ==> enum_result_ok(variants@, *tag, s),
        r matches Err(e) ==> e matches ComposeError::InvalidFlatten { field } && {
            let v = variants@[first_bad_variant(variants@)];
            &&& v.shape is Fields
            &&& field@ == v.shape->Fields_0@[first_invalid(v.shape->Fields_0@)].name@
        },
{
    let ghost all = variants@;
    let mut rest = variants;
    let mut units: Vec<String> = Vec::new();
    let mut branches: Vec<Schema> = Vec::new();
    let ghost mut k: int = 0;
    proof {
        assert(all.take(0) =~= Seq::<VariantDescriptor>::empty());
        reveal(Seq::filter);
    }
    while rest.len() > 0
        invariant
            0 <= k <= all.len(),
            rest@ =~= all.skip(k),
            enum_ok(all.take(k)),
            name_views(units@) =~= unit_names(all.take(k)),
            branches@.len() == complexes(all.take(k)).len(),
            forall|i: int|
                0 <= i < branches@.len() ==> branch_ok(
                    *tag,
                    complexes(all.take(k))[i],
                    #[trigger] branches@[i],
                ),
        decreases rest@.len(),
    {
        proof {
            assert(all.skip(k)[0] == all[k]);
        }
        let v = rest.remove(0);
        let ghost vsnap = v;
        proof {
            assert(rest@ =~= all.skip(k + 1));
            assert(vsnap == all[k]);
            assert(all.take(k + 1).drop_last() =~= all.take(k));
            assert(all.take(k + 1).last() == all[k]);
            reveal(Seq::filter);
        }
        if v.skip {
            proof {
                assert(unit_names(all.take(k + 1)) == unit_names(all.take(k)));
                assert(complexes(all.take(k + 1)) == complexes(all.take(k)));
            }
        } else {
            match v.shape {
                VariantShape::Unit => {
                    units.push(v.name);
                    proof {
                        assert(vsnap.shape is Unit);
                        assert(complexes(all.take(k + 1)) == complexes(all.take(k)));
                        assert(all.take(k + 1).filter(
                            |x: VariantDescriptor| !x.skip && x.shape is Unit,
                        ) == all.take(k).filter(
                            |x: VariantDescriptor| !x.skip && x.shape is Unit,
                        ).push(all[k]));
                        let ghost before = unit_names(all.take(k));
                        let ghost after = unit_names(all.take(k + 1));
                        assert(after.len() == before.len() + 1);
                        assert(units@.len() == before.len() + 1);
                        assert forall|i: int| 0 <= i < units@.len() implies name_views(units@)[i]
                            == after[i] by {
                            if i < units@.len() - 1 {
                                assert(name_views(units@)[i] == units@[i]@);
                                assert(before[i] == after[i]);
                            } else {
                                assert(name_views(units@)[i] == vsnap.name@);
                                assert(after[i] == all[k].name@);
                            }
                        }
                        assert(name_views(units@) =~= unit_names(all.take(k + 1)));
                    }
                },
                VariantShape::Newtype(inner) => {
                    let ghost inner_snap = *inner;
                    let w = wrap_variant(tag, v.name, *inner);
                    branches.push(w);
                    proof {
                        assert(variant_inner_ok(vsnap, inner_snap));
                        assert(branch_ok(*tag, vsnap, w));
                        assert(complexes(all.take(k + 1)) =~= complexes(all.take(k)).push(
                            all[k],
                        ));
                    }
                },
                VariantShape::Fields(fs) => {
                    let ghost fs_seq = fs@;
                    match compose_fields(fs, None) {
                        Ok(inner) => {
                            let ghost inner_snap = inner;
                            let w = wrap_variant(tag, v.name, inner);
                            branches.push(w);
                            proof {
                                assert(variant_inner_ok(vsnap, inner_snap));
                                assert(branch_ok(*tag, vsnap, w));
                                assert(complexes(all.take(k + 1)) =~= complexes(
                                    all.take(k),
                                ).push(all[k]));
                            }
                        },
                        Err(e) => {
                            proof {
                                assert(!variant_fields_ok(vsnap));
                                lemma_first_bad_variant_is(all, k);
                                assert(!enum_ok(all)) by {
                                    assert(0 <= k < all.len() && !all[k].skip
                                        && !variant_fields_ok(all[k]));
                                }
                            }
                            return Err(e);
                        },
                    }
                },
            }
        }
        proof {
            assert(enum_ok(all.take(k + 1))) by {
                assert(forall|j: int|
                    0 <= j < k ==> all.take(k + 1)[j] == all.take(k)[j]);
            }
            k = k + 1;
        }
    }
    proof {
        assert(all.take(k) =~= all);
    }
    let ghost cs = complexes(all);
    let ghost us = unit_names(all);
    if units.len() > 0 {
        let unit_branch: Schema = match tag {
            TagType::External => Schema::new_str_enum(units),
            TagType::Untagged => Schema::new_str_enum(units),
            TagType::Internal { tag: t } => tag_object(t.clone(), units),
            TagType::Adjacent { tag: t, content: _ } => tag_object(t.clone(), units),
        };
        proof {
            assert(unit_branch_ok(*tag, us, unit_branch));
        }
        branches.push(unit_branch);
    }
    let ghost assembled = branches@;
    proof {
        assert(assembled.len() == branch_count(all));
        assert(forall|i: int|
            0 <= i < cs.len() ==> branch_ok(*tag, cs[i], #[trigger] assembled[i]));
        assert(us.len() > 0 ==> unit_branch_ok(*tag, us, assembled.last()));
    }
    if branches.len() == 1 {
        let s = branches.remove(0);
        proof {
            assert(s == assembled[0]);
            assert(enum_result_ok(all, *tag, s));
        }
        Ok(s)
    } else {
        let mut parts: Vec<RefOr<Schema>> = Vec::new();
        let ghost mut m: int = 0;
        while branches.len() > 0
            invariant
                0 <= m <= assembled.len(),
                branches@ =~= assembled.skip(m),
                parts@.len() == m,
                forall|i: int|
                    0 <= i < m ==> (#[trigger] parts@[i]) is Item && parts@[i]->Item_0
                        == assembled[i],
            decreases branches@.len(),
        {
            proof {
                assert(assembled.skip(m)[0] == assembled[m]);
            }
            let b = branches.remove(0);
            proof {
                assert(branches@ =~= assembled.skip(m + 1));
            }
            parts.push(RefOr::Item(b));
            proof {
                m = m + 1;
            }
        }
        let s = Schema::new_one_of(parts);
        proof {
            assert(s.kind->OneOf_0@.len() == branch_count(all));
            assert(forall|i: int|
                0 <= i < cs.len() ==> (#[trigger] s.kind->OneOf_0@[i]) is Item && branch_ok(
                    *tag,
                    cs[i],
                    s.kind->OneOf_0@[i]->Item_0,
                ));
            if us.len() > 0 {
                assert(s.kind->OneOf_0@.last() is Item && unit_branch_ok(
                    *tag,
                    us,
                    s.kind->OneOf_0@.last()->Item_0,
                ));
            }
            assert(enum_result_ok(all, *tag, s));
        }
        Ok(s)
    }
}


/// For a list of unit, non-skipped variants: no complex branch, and the
/// unit names are the variant names in declaration order.
proof fn lemma_units_partition(vs: Seq<VariantDescriptor>)
    requires
        forall|i: int| 0 <= i < vs.len() ==> (#[trigger] vs[i]).shape is Unit && !vs[i].skip,
    ensures
        complexes(vs) == Seq::<VariantDescriptor>::empty(),
        unit_names(vs) =~= vs.map_values(|v: VariantDescriptor| v.name@),
    decreases vs.len(),
{
    reveal(Seq::filter);
    if vs.len() == 0 {
        assert(complexes(vs) =~= Seq::<VariantDescriptor>::empty());
        assert(unit_names(vs) =~= vs.map_values(|v: VariantDescriptor| v.name@));
    } else {
        let dl = vs.drop_last();
        assert(forall|i: int|
            0 <= i < dl.len() ==> (#[trigger] dl[i]).shape is Unit && !dl[i].skip) by {
            assert(forall|i: int| 0 <= i < dl.len() ==> dl[i] == #[trigger] vs[i]);
        }
        lemma_units_partition(dl);
        assert(vs.last().shape is Unit && !vs.last().skip);
        assert(complexes(vs) == complexes(dl));
        assert(vs.filter(|x: VariantDescriptor| !x.skip && x.shape is Unit) == dl.filter(
            |x: VariantDescriptor| !x.skip && x.shape is Unit,
        ).push(vs.last()));
        assert(unit_names(vs).len() == vs.len());
        assert forall|i: int| 0 <= i < vs.len() implies unit_names(vs)[i] == vs.map_values(
            |v: VariantDescriptor| v.name@,
        )[i] by {
            if i < vs.len() - 1 {
                assert(unit_names(vs)[i] == unit_names(dl)[i]);
                assert(unit_names(dl)[i] == dl.map_values(|v: VariantDescriptor| v.name@)[i]);
                assert(dl.map_values(|v: VariantDescriptor| v.name@)[i] == dl[i].name@);
                assert(dl[i] == vs[i]);
            } else {
                assert(unit_names(vs)[i] == vs.last().name@);
            }
        }
        assert(unit_names(vs) =~= vs.map_values(|v: VariantDescriptor| v.name@));
    }
}

/// For a single non-skipped complex variant: one complex branch, itself,
/// and no unit names.
proof fn lemma_single_complex_partition(v: VariantDescriptor)
    requires
        !v.skip,
        !(v.shape is Unit),
    ensures
        complexes(seq![v]) =~= seq![v],
        unit_names(seq![v]) =~= Seq::<Seq<char>>::empty(),
{
    reveal(Seq::filter);
    assert(seq![v].drop_last() =~= Seq::<VariantDescriptor>::empty());
    assert(seq![v].last() == v);
    assert(Seq::<VariantDescriptor>::empty().filter(
        |x: VariantDescriptor| !x.skip && !(x.shape is Unit),
    ) =~= Seq::<VariantDescriptor>::empty());
    assert(Seq::<VariantDescriptor>::empty().filter(
        |x: VariantDescriptor| !x.skip && x.shape is Unit,
    ) =~= Seq::<VariantDescriptor>::empty());
    assert(complexes(seq![v]) =~= seq![v]);
    assert(seq![v].filter(|x: VariantDescriptor| !x.skip && x.shape is Unit)
        =~= Seq::<VariantDescriptor>::empty());
}

/// Law: a sum type of only unit variants, none skipped, composed with the
/// external (default) strategy is a string enumeration whose values are
/// exactly the variant names, in declaration order.
pub proof fn lemma_unit_enum_composition(vs: Seq<VariantDescriptor>, s: Schema)
    requires
        vs.len() > 0,
        forall|i: int| 0 <= i < vs.len() ==> (#[trigger] vs[i]).shape is Unit && !vs[i].skip,
        enum_result_ok(vs, TagType::External, s),
    ensures
        is_str_enum_of(s, vs.map_values(|v: VariantDescriptor| v.name@)),
{
    lemma_units_partition(vs);
    assert(branch_count(vs) == 1);
    assert(unit_branch_ok(TagType::External, unit_names(vs), s));
}

/// Law: a sum type of one struct-shaped, non-skipped variant under internal
/// tagging, with the tag name not among the composed field names, is the
/// variant's composed object with the tag property appended and the tag
/// made required.
pub proof fn lemma_internal_single_variant(vs: Seq<VariantDescriptor>, tag: String, s: Schema)
    requires
        vs.len() == 1,
        !vs[0].skip,
        vs[0].shape is Fields,
        !has_key(composed_props(vs[0].shape->Fields_0@), tag@),
        enum_result_ok(vs, TagType::Internal { tag }, s),
    ensures
        s.kind is Object,
        s.kind->Object_0.props().len() == composed_props(vs[0].shape->Fields_0@).len() + 1,
        forall|i: int|
            0 <= i < composed_props(vs[0].shape->Fields_0@).len()
                ==> #[trigger] s.kind->Object_0.props()[i] == composed_props(
                vs[0].shape->Fields_0@,
            )[i],
        s.kind->Object_0.props().last().0 == tag@,
        s.kind->Object_0.props().last().1 is Item,
        is_str_enum_of(s.kind->Object_0.props().last().1->Item_0, seq![vs[0].name@]),
        s.kind->Object_0.req() == composed_req(vs[0].shape->Fields_0@).push(tag@),
{
    let v = vs[0];
    assert(vs =~= seq![v]);
    lemma_single_complex_partition(v);
    assert(branch_count(vs) == 1);
    assert(complexes(vs)[0] == v);
    assert(branch_ok(TagType::Internal { tag }, v, s));
    let inner = choose|inner: Schema|
        variant_inner_ok(v, inner) && wrap_ok(TagType::Internal { tag }, v.name@, inner, s);
    assert(inner.kind is Object);
    assert(inner.kind->Object_0.props() == composed_props(v.shape->Fields_0@));
    let te = choose|te: Schema|
        is_str_enum_of(te, seq![v.name@]) && s.kind->Object_0.props() == insert_prop(
            inner.kind->Object_0.props(),
            tag@,
            RefOr::Item(te),
        );
    assert(s.kind->Object_0.props() == inner.kind->Object_0.props().push((tag@, RefOr::Item(te))));
}

/// Law: a sum type of one newtype, non-skipped variant under adjacent
/// tagging with distinct tag and content names is an object of exactly the
/// tag property (a one-value string enumeration of the variant name) and
/// the content property (the inner schema), both required, in that order.
pub proof fn lemma_adjacent_single_newtype(
    vs: Seq<VariantDescriptor>,
    tag: String,
    content: String,
    s: Schema,
)
    requires
        vs.len() == 1,
        !vs[0].skip,
        vs[0].shape is Newtype,
        tag@ != content@,
        enum_result_ok(vs, TagType::Adjacent { tag, content }, s),
    ensures
        s.kind is Object,
        s.kind->Object_0.props().len() == 2,
        s.kind->Object_0.props()[0].0 == tag@,
        s.kind->Object_0.props()[0].1 is Item,
        is_str_enum_of(s.kind->Object_0.props()[0].1->Item_0, seq![vs[0].name@]),
        s.kind->Object_0.props()[1] == (content@, RefOr::Item(*vs[0].shape->Newtype_0)),
        s.kind->Object_0.req() == seq![tag@, content@],
{
    let v = vs[0];
    assert(vs =~= seq![v]);
    lemma_single_complex_partition(v);
    assert(branch_count(vs) == 1);
    assert(complexes(vs)[0] == v);
    assert(branch_ok(TagType::Adjacent { tag, content }, v, s));
    let inner = choose|inner: Schema|
        variant_inner_ok(v, inner) && wrap_ok(
            TagType::Adjacent { tag, content },
            v.name@,
            inner,
            s,
        );
    assert(inner == *v.shape->Newtype_0);
    let te = choose|te: Schema|
        is_str_enum_of(te, seq![v.name@]) && s.kind->Object_0.props() == insert_prop(
            insert_prop(Seq::empty(), tag@, RefOr::Item(te)),
            content@,
            RefOr::Item(inner),
        );
    let first = insert_prop(Seq::empty(), tag@, RefOr::Item(te));
    assert(!has_key(Seq::empty(), tag@));
    assert(first =~= seq![(tag@, RefOr::Item(te))]);
    assert(!has_key(first, content@)) by {
        if has_key(first, content@) {
            let w = key_index(first, content@);
            assert(first[w].0 == content@);
        }
    }
    assert(s.kind->Object_0.props() == first.push((content@, RefOr::Item(inner))));
}


/// The error a failing sum type composes to: it names the first field of
/// the first non-skipped variant whose field list fails composition.
pub open spec fn enum_err_ok(variants: Seq<VariantDescriptor>, e: ComposeError) -> bool {
    e matches ComposeError::InvalidFlatten { field } && {
        let v = variants[first_bad_variant(variants)];
        &&& v.shape is Fields
        &&& field@ == v.shape->Fields_0@[first_invalid(v.shape->Fields_0@)].name@
    }
}

/// The declared shape of a describable type.
#[derive(Debug, PartialEq)]
pub enum TypeShape {
    /// A composite with named fields.
    Composite { fields: Vec<FieldDescriptor>, description: Option<String> },
    /// A single-field wrapper: the inner type's schema is used directly,
    /// and the wrapper contributes no properties of its own.
    Newtype { inner: Box<Schema> },
    /// A sum of variants under one tagging strategy.
    Sum { variants: Vec<VariantDescriptor>, tag: TagType },
}

/// Compose the schema of a declared type shape: a composite's fields are
/// composed to an object, a newtype passes its inner schema through, and a
/// sum type goes through the tagging resolver.
pub fn compose_type(shape: TypeShape) -> (r: Result<Schema, ComposeError>)
    ensures
        shape matches TypeShape::Composite { fields, description } ==> {
            &&& (r is Ok <==> compose_ok(fields@))
            &&& (r matches Ok(s) ==> crate::compose::composed_object_ok(fields@, description, s))
            &&& (r matches Err(e) ==> crate::compose::invalid_flatten_err(fields@, e))
        },
        shape matches TypeShape::Newtype { inner } ==> r matches Ok(s) && s == *inner,
        shape matches TypeShape::Sum { variants, tag } ==> {
            &&& (r is Ok <==> enum_ok(variants@))
            &&& (r matches Ok(s) ==> enum_result_ok(variants@, tag, s))
            &&& (r matches Err(e) ==> enum_err_ok(variants@, e))
        },
{
    match shape {
        TypeShape::Composite { fields, description } => compose_fields(fields, description),
        TypeShape::Newtype { inner } => Ok(*inner),
        TypeShape::Sum { variants, tag } => compose_enum(variants, &tag),
    }
}

} // verus!
