//! The descriptor protocol: what every describable type exposes — its
//! schema node, the reference form of that node, the call parameters it
//! contributes and the body schema it contributes.

use vstd::prelude::*;

use crate::operation::Parameter;
use crate::schema::{RefOr, Schema, SchemaKind};

verus! {

/// A type that can describe its own schema.
pub trait OaSchema {
    /// The schema this type describes itself with.
    spec fn spec_schema() -> Schema;

    /// The reference form of that schema: inline by default, a named
    /// registry pointer for registered composites.
    spec fn spec_schema_ref() -> RefOr<Schema>;

    /// The body schema this type contributes when it stands as a payload.
    spec fn spec_body_schema() -> Option<RefOr<Schema>>;

    fn schema() -> (r: Schema)
        ensures
            r == Self::spec_schema(),
    ;

    fn schema_ref() -> (r: RefOr<Schema>)
        ensures
            r == Self::spec_schema_ref(),
    ;

    fn body_schema() -> (r: Option<RefOr<Schema>>)
        ensures
            r == Self::spec_body_schema(),
    ;
}

/// A type that can stand as one endpoint argument.
pub trait OaParameter {
    /// The schemas of the values this argument extracts, in order.
    spec fn spec_parameter_schemas() -> Seq<RefOr<Schema>>;

    /// The call parameters this argument contributes.
    spec fn spec_parameters() -> Seq<RefOr<Parameter>>;

    /// The request body this argument supplies, if any.
    spec fn spec_param_body() -> Option<RefOr<Schema>>;

    fn parameter_schemas() -> (r: Vec<RefOr<Schema>>)
        ensures
            r@ == Self::spec_parameter_schemas(),
    ;

    fn parameters() -> (r: Vec<RefOr<Parameter>>)
        ensures
            r@ == Self::spec_parameters(),
    ;

    fn body_schema() -> (r: Option<RefOr<Schema>>)
        ensures
            r == Self::spec_param_body(),
    ;
}

impl OaSchema for bool {
    open spec fn spec_schema() -> Schema {
        Schema { kind: SchemaKind::Boolean, nullable: false, description: None }
    }

    open spec fn spec_schema_ref() -> RefOr<Schema> {
        RefOr::Item(Self::spec_schema())
    }

    open spec fn spec_body_schema() -> Option<RefOr<Schema>> {
        Some(Self::spec_schema_ref())
    }

    fn schema() -> Schema {
        Schema::new_bool()
    }

    fn schema_ref() -> RefOr<Schema> {
        RefOr::Item(Self::schema())
    }

    fn body_schema() -> Option<RefOr<Schema>> {
        Some(Self::schema_ref())
    }
}

impl OaSchema for String {
    open spec fn spec_schema() -> Schema {
        Schema { kind: SchemaKind::Text, nullable: false, description: None }
    }

    open spec fn spec_schema_ref() -> RefOr<Schema> {
        RefOr::Item(Self::spec_schema())
    }

    open spec fn spec_body_schema() -> Option<RefOr<Schema>> {
        Some(Self::spec_schema_ref())
    }

    fn schema() -> Schema {
        Schema::new_string()
    }

    fn schema_ref() -> RefOr<Schema> {
        RefOr::Item(Self::schema())
    }

    fn body_schema() -> Option<RefOr<Schema>> {
        Some(Self::schema_ref())
    }
}

impl OaSchema for u8 {
    open spec fn spec_schema() -> Schema {
        Schema { kind: SchemaKind::Integer, nullable: false, description: None }
    }

    open spec fn spec_schema_ref() -> RefOr<Schema> {
        RefOr::Item(Self::spec_schema())
    }

    open spec fn spec_body_schema() -> Option<RefOr<Schema>> {
        Some(Self::spec_schema_ref())
    }

    fn schema() -> Schema {
        Schema::new_integer()
    }

    fn schema_ref() -> RefOr<Schema> {
        RefOr::Item(Self::schema())
    }

    fn body_schema() -> Option<RefOr<Schema>> {
        Some(Self::schema_ref())
    }
}

impl OaSchema for i8 {
    open spec fn spec_schema() -> Schema {
        Schema { kind: SchemaKind::Integer, nullable: false, description: None }
    }

    open spec fn spec_schema_ref() -> RefOr<Schema> {
        RefOr::Item(Self::spec_schema())
    }

    open spec fn spec_body_schema() -> Option<RefOr<Schema>> {
        Some(Self::spec_schema_ref())
    }

    fn schema() -> Schema {
        Schema::new_integer()
    }

    fn schema_ref() -> RefOr<Schema> {
        RefOr::Item(Self::schema())
    }

    fn body_schema() -> Option<RefOr<Schema>> {
        Some(Self::schema_ref())
    }
}

impl OaSchema for u16 {
    open spec fn spec_schema() -> Schema {
        Schema { kind: SchemaKind::Integer, nullable: false, description: None }
    }

    open spec fn spec_schema_ref() -> RefOr<Schema> {
        RefOr::Item(Self::spec_schema())
    }

    open spec fn spec_body_schema() -> Option<RefOr<Schema>> {
        Some(Self::spec_schema_ref())
    }

    fn schema() -> Schema {
        Schema::new_integer()
    }

    fn schema_ref() -> RefOr<Schema> {
        RefOr::Item(Self::schema())
    }

    fn body_schema() -> Option<RefOr<Schema>> {
        Some(Self::schema_ref())
    }
}

impl OaSchema for i16 {
    open spec fn spec_schema() -> Schema {
        Schema { kind: SchemaKind::Integer, nullable: false, description: None }
    }

    open spec fn spec_schema_ref() -> RefOr<Schema> {
        RefOr::Item(Self::spec_schema())
    }

    open spec fn spec_body_schema() -> Option<RefOr<Schema>> {
        Some(Self::spec_schema_ref())
    }

    fn schema() -> Schema {
        Schema::new_integer()
    }

    fn schema_ref() -> RefOr<Schema> {
        RefOr::Item(Self::schema())
    }

    fn body_schema() -> Option<RefOr<Schema>> {
        Some(Self::schema_ref())
    }
}

impl OaSchema for u32 {
    open spec fn spec_schema() -> Schema {
        Schema { kind: SchemaKind::Integer, nullable: false, description: None }
    }

    open spec fn spec_schema_ref() -> RefOr<Schema> {
        RefOr::Item(Self::spec_schema())
    }

    open spec fn spec_body_schema() -> Option<RefOr<Schema>> {
        Some(Self::spec_schema_ref())
    }

    fn schema() -> Schema {
        Schema::new_integer()
    }

    fn schema_ref() -> RefOr<Schema> {
        RefOr::Item(Self::schema())
    }

    fn body_schema() -> Option<RefOr<Schema>> {
        Some(Self::schema_ref())
    }
}

impl OaSchema for i32 {
    open spec fn spec_schema() -> Schema {
        Schema { kind: SchemaKind::Integer, nullable: false, description: None }
    }

    open spec fn spec_schema_ref() -> RefOr<Schema> {
        RefOr::Item(Self::spec_schema())
    }

    open spec fn spec_body_schema() -> Option<RefOr<Schema>> {
        Some(Self::spec_schema_ref())
    }

    fn schema() -> Schema {
        Schema::new_integer()
    }

    fn schema_ref() -> RefOr<Schema> {
        RefOr::Item(Self::schema())
    }

    fn body_schema() -> Option<RefOr<Schema>> {
        Some(Self::schema_ref())
    }
}

impl OaSchema for u64 {
    open spec fn spec_schema() -> Schema {
        Schema { kind: SchemaKind::Integer, nullable: false, description: None }
    }

    open spec fn spec_schema_ref() -> RefOr<Schema> {
        RefOr::Item(Self::spec_schema())
    }

    open spec fn spec_body_schema() -> Option<RefOr<Schema>> {
        Some(Self::spec_schema_ref())
    }

    fn schema() -> Schema {
        Schema::new_integer()
    }

    fn schema_ref() -> RefOr<Schema> {
        RefOr::Item(Self::schema())
    }

    fn body_schema() -> Option<RefOr<Schema>> {
        Some(Self::schema_ref())
    }
}

impl OaSchema for i64 {
    open spec fn spec_schema() -> Schema {
        Schema { kind: SchemaKind::Integer, nullable: false, description: None }
    }

    open spec fn spec_schema_ref() -> RefOr<Schema> {
        RefOr::Item(Self::spec_schema())
    }

    open spec fn spec_body_schema() -> Option<RefOr<Schema>> {
        Some(Self::spec_schema_ref())
    }

    fn schema() -> Schema {
        Schema::new_integer()
    }

    fn schema_ref() -> RefOr<Schema> {
        RefOr::Item(Self::schema())
    }

    fn body_schema() -> Option<RefOr<Schema>> {
        Some(Self::schema_ref())
    }
}

impl OaSchema for usize {
    open spec fn spec_schema() -> Schema {
        Schema { kind: SchemaKind::Integer, nullable: false, description: None }
    }

    open spec fn spec_schema_ref() -> RefOr<Schema> {
        RefOr::Item(Self::spec_schema())
    }

    open spec fn spec_body_schema() -> Option<RefOr<Schema>> {
        Some(Self::spec_schema_ref())
    }

    fn schema() -> Schema {
        Schema::new_integer()
    }

    fn schema_ref() -> RefOr<Schema> {
        RefOr::Item(Self::schema())
    }

    fn body_schema() -> Option<RefOr<Schema>> {
        Some(Self::schema_ref())
    }
}

impl OaSchema for isize {
    open spec fn spec_schema() -> Schema {
        Schema { kind: SchemaKind::Integer, nullable: false, description: None }
    }

    open spec fn spec_schema_ref() -> RefOr<Schema> {
        RefOr::Item(Self::spec_schema())
    }

    open spec fn spec_body_schema() -> Option<RefOr<Schema>> {
        Some(Self::spec_schema_ref())
    }

    fn schema() -> Schema {
        Schema::new_integer()
    }

    fn schema_ref() -> RefOr<Schema> {
        RefOr::Item(Self::schema())
    }

    fn body_schema() -> Option<RefOr<Schema>> {
        Some(Self::schema_ref())
    }
}

impl<T: OaSchema> OaSchema for Vec<T> {
    /// An array over the element type's full schema.
    open spec fn spec_schema() -> Schema {
        Schema {
            kind: SchemaKind::Array(Box::new(RefOr::Item(T::spec_schema()))),
            nullable: false,
            description: None,
        }
    }

    /// An array over the element type's reference form.
    open spec fn spec_schema_ref() -> RefOr<Schema> {
        RefOr::Item(
            Schema {
                kind: SchemaKind::Array(Box::new(T::spec_schema_ref())),
                nullable: false,
                description: None,
            },
        )
    }

    open spec fn spec_body_schema() -> Option<RefOr<Schema>> {
        Some(Self::spec_schema_ref())
    }

    fn schema() -> Schema {
        Schema::new_array(RefOr::Item(T::schema()))
    }

    fn schema_ref() -> (r: RefOr<Schema>) {
        RefOr::Item(Schema::new_array(T::schema_ref()))
    }

    fn body_schema() -> Option<RefOr<Schema>> {
        Some(Self::schema_ref())
    }
}

impl<T: OaSchema> OaSchema for Option<T> {
    /// The inner type's schema, marked nullable.
    open spec fn spec_schema() -> Schema {
        Schema { nullable: true, ..T::spec_schema() }
    }

    /// The inner reference form; an inline schema is marked nullable, a
    /// named pointer is kept as it stands.
    open spec fn spec_schema_ref() -> RefOr<Schema> {
        match T::spec_schema_ref() {
            RefOr::Item(s) => RefOr::Item(Schema { nullable: true, ..s }),
            RefOr::Reference(n) => RefOr::Reference(n),
        }
    }

    open spec fn spec_body_schema() -> Option<RefOr<Schema>> {
        Some(Self::spec_schema_ref())
    }

    fn schema() -> Schema {
        let mut s = T::schema();
        s.nullable = true;
        s
    }

    fn schema_ref() -> (r: RefOr<Schema>) {
        match T::schema_ref() {
            RefOr::Item(s) => {
                let mut s = s;
                s.nullable = true;
                RefOr::Item(s)
            },
            RefOr::Reference(n) => RefOr::Reference(n),
        }
    }

    fn body_schema() -> Option<RefOr<Schema>> {
        Some(Self::schema_ref())
    }
}

impl<A: OaSchema> OaParameter for A {
    open spec fn spec_parameter_schemas() -> Seq<RefOr<Schema>> {
        seq![RefOr::Item(A::spec_schema())]
    }

    open spec fn spec_parameters() -> Seq<RefOr<Parameter>> {
        Seq::empty()
    }

    open spec fn spec_param_body() -> Option<RefOr<Schema>> {
        A::spec_body_schema()
    }

    fn parameter_schemas() -> (r: Vec<RefOr<Schema>>) {
        let mut v: Vec<RefOr<Schema>> = Vec::new();
        v.push(RefOr::Item(A::schema()));
        proof {
            assert(v@ =~= seq![RefOr::Item(A::spec_schema())]);
        }
        v
    }

    fn parameters() -> (r: Vec<RefOr<Parameter>>) {
        let v: Vec<RefOr<Parameter>> = Vec::new();
        proof {
            assert(v@ =~= Seq::<RefOr<Parameter>>::empty());
        }
        v
    }

    fn body_schema() -> Option<RefOr<Schema>> {
        <A as OaSchema>::body_schema()
    }
}

impl<T: OaParameter, E> OaParameter for Result<T, E> {
    /// A fallible wrapper delegates entirely to its success type for
    /// schema purposes.
    open spec fn spec_parameter_schemas() -> Seq<RefOr<Schema>> {
        Seq::empty()
    }

    open spec fn spec_parameters() -> Seq<RefOr<Parameter>> {
        Seq::empty()
    }

    open spec fn spec_param_body() -> Option<RefOr<Schema>> {
        T::spec_param_body()
    }

    fn parameter_schemas() -> (r: Vec<RefOr<Schema>>) {
        let v: Vec<RefOr<Schema>> = Vec::new();
        proof {
            assert(v@ =~= Seq::<RefOr<Schema>>::empty());
        }
        v
    }

    fn parameters() -> (r: Vec<RefOr<Parameter>>) {
        let v: Vec<RefOr<Parameter>> = Vec::new();
        proof {
            assert(v@ =~= Seq::<RefOr<Parameter>>::empty());
        }
        v
    }

    fn body_schema() -> Option<RefOr<Schema>> {
        T::body_schema()
    }
}

impl<A1: OaSchema> OaParameter for (A1,) {
    open spec fn spec_parameter_schemas() -> Seq<RefOr<Schema>> {
        seq![A1::spec_schema_ref()]
    }

    open spec fn spec_parameters() -> Seq<RefOr<Parameter>> {
        Seq::empty()
    }

    open spec fn spec_param_body() -> Option<RefOr<Schema>> {
        None
    }

    fn parameter_schemas() -> (r: Vec<RefOr<Schema>>) {
        let mut v: Vec<RefOr<Schema>> = Vec::new();
        v.push(A1::schema_ref());
        proof {
            assert(v@ =~= seq![A1::spec_schema_ref()]);
        }
        v
    }

    fn parameters() -> (r: Vec<RefOr<Parameter>>) {
        let v: Vec<RefOr<Parameter>> = Vec::new();
        proof {
            assert(v@ =~= Seq::<RefOr<Parameter>>::empty());
        }
        v
    }

    fn body_schema() -> Option<RefOr<Schema>> {
        None
    }
}

impl<A1: OaSchema, A2: OaSchema> OaParameter for (A1, A2) {
    open spec fn spec_parameter_schemas() -> Seq<RefOr<Schema>> {
        seq![A1::spec_schema_ref(), A2::spec_schema_ref()]
    }

    open spec fn spec_parameters() -> Seq<RefOr<Parameter>> {
        Seq::empty()
    }

    open spec fn spec_param_body() -> Option<RefOr<Schema>> {
        None
    }

    fn parameter_schemas() -> (r: Vec<RefOr<Schema>>) {
        let mut v: Vec<RefOr<Schema>> = Vec::new();
        v.push(A1::schema_ref());
        v.push(A2::schema_ref());
        proof {
            assert(v@ =~= seq![A1::spec_schema_ref(), A2::spec_schema_ref()]);
        }
        v
    }

    fn parameters() -> (r: Vec<RefOr<Parameter>>) {
        let v: Vec<RefOr<Parameter>> = Vec::new();
        proof {
            assert(v@ =~= Seq::<RefOr<Parameter>>::empty());
        }
        v
    }

    fn body_schema() -> Option<RefOr<Schema>> {
        None
    }
}

impl<A1: OaSchema, A2: OaSchema, A3: OaSchema> OaParameter for (A1, A2, A3) {
    open spec fn spec_parameter_schemas() -> Seq<RefOr<Schema>> {
        seq![A1::spec_schema_ref(), A2::spec_schema_ref(), A3::spec_schema_ref()]
    }

    open spec fn spec_parameters() -> Seq<RefOr<Parameter>> {
        Seq::empty()
    }

    open spec fn spec_param_body() -> Option<RefOr<Schema>> {
        None
    }

    fn parameter_schemas() -> (r: Vec<RefOr<Schema>>) {
        let mut v: Vec<RefOr<Schema>> = Vec::new();
        v.push(A1::schema_ref());
        v.push(A2::schema_ref());
        v.push(A3::schema_ref());
        proof {
            assert(v@ =~= seq![
                A1::spec_schema_ref(),
                A2::spec_schema_ref(),
                A3::spec_schema_ref(),
            ]);
        }
        v
    }

    fn parameters() -> (r: Vec<RefOr<Parameter>>) {
        let v: Vec<RefOr<Parameter>> = Vec::new();
        proof {
            assert(v@ =~= Seq::<RefOr<Parameter>>::empty());
        }
        v
    }

    fn body_schema() -> Option<RefOr<Schema>> {
        None
    }
}

} // verus!
