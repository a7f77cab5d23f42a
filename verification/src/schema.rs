//! The schema data model: schema nodes, schema references and the object
//! shape with ordered properties.

use vstd::prelude::*;

verus! {

/// Either an inline value or a named pointer into the schema registry.
#[derive(Debug, PartialEq)]
pub enum RefOr<T> {
    Item(T),
    Reference(String),
}

/// An object shape: ordered properties, required property names, and an
/// optional schema for additional (map-like) properties.
#[derive(Debug, PartialEq)]
pub struct ObjectType {
    pub properties: Vec<(String, RefOr<Schema>)>,
    pub required: Vec<String>,
    pub additional_properties: Option<Box<RefOr<Schema>>>,
}

/// The kind of a schema node.
#[derive(Debug, PartialEq)]
pub enum SchemaKind {
    Boolean,
    Integer,
    Number,
    /// A plain string.
    Text,
    /// A string restricted to an enumeration of values.
    StrEnum(Vec<String>),
    Array(Box<RefOr<Schema>>),
    Object(ObjectType),
    OneOf(Vec<RefOr<Schema>>),
    AllOf(Vec<RefOr<Schema>>),
    /// Any value; carries no constraint.
    Any,
}

/// A schema node: a kind plus optional metadata.
#[derive(Debug, PartialEq)]
pub struct Schema {
    pub kind: SchemaKind,
    pub nullable: bool,
    pub description: Option<String>,
}

/// The model of an ordered property list: each name by its character view,
/// each schema reference by value, in declaration order.
pub open spec fn props_model(props: Seq<(String, RefOr<Schema>)>) -> Seq<(Seq<char>, RefOr<Schema>)> {
    props.map_values(|p: (String, RefOr<Schema>)| (p.0@, p.1))
}

/// The character views of a name list, in order.
pub open spec fn name_views(names: Seq<String>) -> Seq<Seq<char>> {
    names.map_values(|n: String| n@)
}

/// Whether a modelled property list holds a property of the given name.
pub open spec fn has_key(props: Seq<(Seq<char>, RefOr<Schema>)>, name: Seq<char>) -> bool {
    exists|i: int| 0 <= i < props.len() && props[i].0 == name
}

/// The index of the first property of the given name.
pub open spec fn key_index(props: Seq<(Seq<char>, RefOr<Schema>)>, name: Seq<char>) -> int {
    choose|i: int|
        0 <= i < props.len() && props[i].0 == name && (forall|j: int|
            0 <= j < i ==> props[j].0 != name)
}

/// Property names are pairwise distinct.
pub open spec fn distinct_keys(props: Seq<(Seq<char>, RefOr<Schema>)>) -> bool {
    forall|i: int, j: int| 0 <= i < j < props.len() ==> props[i].0 != props[j].0
}

/// One property inserted into a modelled property list, keeping declaration
/// order: a new name is appended, while an existing name has its schema
/// replaced at its original position.
pub open spec fn insert_prop(
    props: Seq<(Seq<char>, RefOr<Schema>)>,
    name: Seq<char>,
    schema: RefOr<Schema>,
) -> Seq<(Seq<char>, RefOr<Schema>)> {
    if has_key(props, name) {
        props.update(key_index(props, name), (name, schema))
    } else {
        props.push((name, schema))
    }
}

impl ObjectType {
    /// The model of this object's property list.
    pub open spec fn props(&self) -> Seq<(Seq<char>, RefOr<Schema>)> {
        props_model(self.properties@)
    }

    /// The model of this object's required-name list.
    pub open spec fn req(&self) -> Seq<Seq<char>> {
        name_views(self.required@)
    }

    /// A well-formed object has pairwise distinct property names.
    pub open spec fn wf(&self) -> bool {
        distinct_keys(self.props())
    }

    pub fn new() -> (r: ObjectType)
        ensures
            r.props() =~= Seq::<(Seq<char>, RefOr<Schema>)>::empty(),
            r.req() =~= Seq::<Seq<char>>::empty(),
            r.additional_properties is None,
    {
        ObjectType { properties: Vec::new(), required: Vec::new(), additional_properties: None }
    }

    /// Insert a property, keeping declaration order: a new name is appended,
    /// while an existing name has its schema replaced in place.
    pub fn insert(&mut self, name: String, schema: RefOr<Schema>)
        ensures
            final(self).props() =~= insert_prop(old(self).props(), name@, schema),
            final(self).req() == old(self).req(),
            final(self).additional_properties == old(self).additional_properties,
    {
        let n = self.properties.len();
        let mut i: usize = 0;
        while i < n
            invariant
                n == self.properties@.len(),
                0 <= i <= n,
                forall|j: int| 0 <= j < i ==> self.props()[j].0 != name@,
                *self == *old(self),
            decreases n - i,
        {
            if self.properties[i].0 == name {
                let kept = self.properties.remove(i);
                self.properties.insert(i, (kept.0, schema));
                proof {
                    let props = old(self).props();
                    assert(0 <= i < props.len() && props[i as int].0 == name@ && (forall|j: int|
                        0 <= j < i ==> props[j].0 != name@));
                    let k = key_index(props, name@);
                    if k < i {
                        assert(props[k].0 != name@);
                    }
                    if k > i {
                        assert(props[i as int].0 != name@);
                    }
                    assert(k == i);
                    assert(self.props() =~= props.update(i as int, (name@, schema)));
                }
                return ;
            }
            i += 1;
        }
        self.properties.push((name, schema));
        proof {
            if has_key(old(self).props(), name@) {
                let k = key_index(old(self).props(), name@);
                assert(old(self).props()[k].0 == name@);
                assert(false);
            }
        }
    }

    /// Mark a property name as required.
    pub fn require(&mut self, name: String)
        ensures
            final(self).req() =~= old(self).req().push(name@),
            final(self).props() == old(self).props(),
            final(self).additional_properties == old(self).additional_properties,
    {
        self.required.push(name);
    }
}

impl Schema {
    pub fn new_bool() -> (r: Schema)
        ensures
            r == (Schema { kind: SchemaKind::Boolean, nullable: false, description: None::<String> }),
    {
        Schema { kind: SchemaKind::Boolean, nullable: false, description: None }
    }

    pub fn new_integer() -> (r: Schema)
        ensures
            r == (Schema { kind: SchemaKind::Integer, nullable: false, description: None::<String> }),
    {
        Schema { kind: SchemaKind::Integer, nullable: false, description: None }
    }

    pub fn new_number() -> (r: Schema)
        ensures
            r == (Schema { kind: SchemaKind::Number, nullable: false, description: None::<String> }),
    {
        Schema { kind: SchemaKind::Number, nullable: false, description: None }
    }

    pub fn new_string() -> (r: Schema)
        ensures
            r == (Schema { kind: SchemaKind::Text, nullable: false, description: None::<String> }),
    {
        Schema { kind: SchemaKind::Text, nullable: false, description: None }
    }

    pub fn new_any() -> (r: Schema)
        ensures
            r == (Schema { kind: SchemaKind::Any, nullable: false, description: None::<String> }),
    {
        Schema { kind: SchemaKind::Any, nullable: false, description: None }
    }

    /// An empty object schema.
    pub fn new_object() -> (r: Schema)
        ensures
            r.kind is Object,
            r.kind->Object_0.props() =~= Seq::<(Seq<char>, RefOr<Schema>)>::empty(),
            r.kind->Object_0.req() =~= Seq::<Seq<char>>::empty(),
            r.kind->Object_0.additional_properties is None,
            !r.nullable,
            r.description is None,
    {
        Schema { kind: SchemaKind::Object(ObjectType::new()), nullable: false, description: None }
    }

    /// A string-enumeration schema over the given values, in order.
    pub fn new_str_enum(values: Vec<String>) -> (r: Schema)
        ensures
            r == (Schema {
                kind: SchemaKind::StrEnum(values),
                nullable: false,
                description: None::<String>,
            }),
    {
        Schema { kind: SchemaKind::StrEnum(values), nullable: false, description: None }
    }

    /// An array schema around the given item reference.
    pub fn new_array(item: RefOr<Schema>) -> (r: Schema)
        ensures
            r.kind is Array,
            *r.kind->Array_0 == item,
            !r.nullable,
            r.description is None,
    {
        Schema { kind: SchemaKind::Array(Box::new(item)), nullable: false, description: None }
    }

    /// A map-like object schema: no fixed properties, additional properties
    /// of the given shape.
    pub fn new_map(value: RefOr<Schema>) -> (r: Schema)
        ensures
            r.kind is Object,
            r.kind->Object_0.props() =~= Seq::<(Seq<char>, RefOr<Schema>)>::empty(),
            r.kind->Object_0.req() =~= Seq::<Seq<char>>::empty(),
            r.kind->Object_0.additional_properties matches Some(b) && *b == value,
            !r.nullable,
            r.description is None,
    {
        Schema {
            kind: SchemaKind::Object(
                ObjectType {
                    properties: Vec::new(),
                    required: Vec::new(),
                    additional_properties: Some(Box::new(value)),
                },
            ),
            nullable: false,
            description: None,
        }
    }

    /// A one-of schema over the given branches, in order.
    pub fn new_one_of(branches: Vec<RefOr<Schema>>) -> (r: Schema)
        ensures
            r == (Schema {
                kind: SchemaKind::OneOf(branches),
                nullable: false,
                description: None::<String>,
            }),
    {
        Schema { kind: SchemaKind::OneOf(branches), nullable: false, description: None }
    }

    /// An all-of schema over the given parts, in order.
    pub fn new_all_of(parts: Vec<RefOr<Schema>>) -> (r: Schema)
        ensures
            r == (Schema {
                kind: SchemaKind::AllOf(parts),
                nullable: false,
                description: None::<String>,
            }),
    {
        Schema { kind: SchemaKind::AllOf(parts), nullable: false, description: None }
    }
}

} // verus!
