use vstd::prelude::*;

use crate::named_map::{find_key, NamedMap};
use crate::type_ref::{base_name, parse_type, TypeRef};

verus! {

/// Whether a field or an enum value is deprecated.
#[derive(Debug)]
pub enum Deprecation {
    NoDeprecated,
    Deprecated { reason: Option<String> },
}

impl Clone for Deprecation {
    fn clone(&self) -> (r: Deprecation)
        ensures
            r == *self,
    {
        match self {
            Deprecation::NoDeprecated => Deprecation::NoDeprecated,
            Deprecation::Deprecated { reason } => Deprecation::Deprecated {
                reason: clone_opt_string(reason),
            },
        }
    }
}

/// A copy of an optional string.
pub fn clone_opt_string(s: &Option<String>) -> (r: Option<String>)
    ensures
        r == *s,
{
    match s {
        Some(t) => Some(t.clone()),
        None => None,
    }
}

/// A registered argument or input field.
#[derive(Debug)]
pub struct MetaInputValue {
    pub name: String,
    pub description: Option<String>,
    /// The type, in textual form (`[Int!]`).
    pub ty: String,
    /// The default value, in textual form.
    pub default_value: Option<String>,
    pub inaccessible: bool,
    pub tags: Vec<String>,
    pub is_secret: bool,
}

/// A registered output field.
#[derive(Debug)]
pub struct MetaField {
    pub name: String,
    pub description: Option<String>,
    pub args: NamedMap<MetaInputValue>,
    /// The output type, in textual form.
    pub ty: String,
    pub deprecation: Deprecation,
}

/// A registered enum value.
#[derive(Debug)]
pub struct MetaEnumValue {
    pub name: String,
    pub description: Option<String>,
    pub deprecation: Deprecation,
    pub inaccessible: bool,
    pub tags: Vec<String>,
}

/// A registered type, one variant per kind.
#[derive(Debug)]
pub enum MetaType {
    Scalar { name: String, description: Option<String>, inaccessible: bool, tags: Vec<String> },
    Object {
        name: String,
        description: Option<String>,
        fields: NamedMap<MetaField>,
        implements: Vec<String>,
        inaccessible: bool,
        tags: Vec<String>,
    },
    Interface {
        name: String,
        description: Option<String>,
        fields: NamedMap<MetaField>,
        possible_types: Vec<String>,
        inaccessible: bool,
        tags: Vec<String>,
    },
    Union {
        name: String,
        description: Option<String>,
        possible_types: Vec<String>,
        inaccessible: bool,
        tags: Vec<String>,
    },
    Enum {
        name: String,
        description: Option<String>,
        enum_values: NamedMap<MetaEnumValue>,
        inaccessible: bool,
        tags: Vec<String>,
    },
    InputObject {
        name: String,
        description: Option<String>,
        input_fields: NamedMap<MetaInputValue>,
        inaccessible: bool,
        tags: Vec<String>,
    },
}

/// The name of a registered type.
pub open spec fn type_name_of(t: MetaType) -> Seq<char> {
    match t {
        MetaType::Scalar { name, .. } => name@,
        MetaType::Object { name, .. } => name@,
        MetaType::Interface { name, .. } => name@,
        MetaType::Union { name, .. } => name@,
        MetaType::Enum { name, .. } => name@,
        MetaType::InputObject { name, .. } => name@,
    }
}

/// The field named `f` of a type that has fields.
pub open spec fn field_of(t: MetaType, f: Seq<char>) -> Option<MetaField> {
    match t {
        MetaType::Object { fields, .. } => match find_key(fields@, f) {
            Some(i) => Some(fields@[i].1),
            None => None,
        },
        MetaType::Interface { fields, .. } => match find_key(fields@, f) {
            Some(i) => Some(fields@[i].1),
            None => None,
        },
        _ => None,
    }
}

impl MetaType {
    /// The type's name.
    pub fn name(&self) -> (r: &str)
        ensures
            r@ == type_name_of(*self),
    {
        match self {
            MetaType::Scalar { name, .. } => name.as_str(),
            MetaType::Object { name, .. } => name.as_str(),
            MetaType::Interface { name, .. } => name.as_str(),
            MetaType::Union { name, .. } => name.as_str(),
            MetaType::Enum { name, .. } => name.as_str(),
            MetaType::InputObject { name, .. } => name.as_str(),
        }
    }

    /// The field named `name`, for an object or an interface.
    pub fn field_by_name(&self, name: &str) -> (r: Option<&MetaField>)
        ensures
            match field_of(*self, name@) {
                Some(f) => r is Some && *r->0 == f,
                None => r is None,
            },
    {
        match self {
            MetaType::Object { fields, .. } => fields.get(name),
            MetaType::Interface { fields, .. } => fields.get(name),
            _ => None,
        }
    }
}

/// A registered directive.
#[derive(Debug)]
pub struct MetaDirective {
    pub name: String,
    pub description: Option<String>,
    /// The places in a document where the directive may stand.
    pub locations: Vec<String>,
    pub args: NamedMap<MetaInputValue>,
}

/// The registered types of a schema, its root operation types and its
/// directives.
#[derive(Debug)]
pub struct Registry {
    pub types: NamedMap<MetaType>,
    pub query_type: String,
    pub mutation_type: Option<String>,
    pub subscription_type: Option<String>,
    pub directives: NamedMap<MetaDirective>,
}

/// The type registered under `name`.
pub open spec fn lookup_type(r: Registry, name: Seq<char>) -> Option<MetaType> {
    match find_key(r.types@, name) {
        Some(i) => Some(r.types@[i].1),
        None => None,
    }
}

/// The type named at the base of the textual type reference `ty`.
pub open spec fn basic_type_of(r: Registry, ty: Seq<char>) -> Option<MetaType> {
    match parse_type(ty) {
        Some(t) => lookup_type(r, base_name(t)),
        None => None,
    }
}

/// `t` is one of the registered types.
pub open spec fn in_registry(r: Registry, t: MetaType) -> bool {
    exists|i: int| 0 <= i < r.types@.len() && #[trigger] r.types@[i].1 == t
}

/// The roots of `r` are registered, and the output type of every field of a
/// registered type names a registered type.
pub open spec fn registry_valid(r: Registry) -> bool {
    &&& lookup_type(r, r.query_type@) is Some
    &&& r.mutation_type is Some ==> lookup_type(r, r.mutation_type->0@) is Some
    &&& r.subscription_type is Some ==> lookup_type(r, r.subscription_type->0@) is Some
    &&& forall|i: int, f: Seq<char>|
        0 <= i < r.types@.len() && (#[trigger] field_of(r.types@[i].1, f)) is Some ==> basic_type_of(
            r,
            field_of(r.types@[i].1, f)->0.ty@,
        ) is Some
}

/// A type found by name is one of the registered types.
pub proof fn lemma_lookup_in_registry(r: Registry, name: Seq<char>)
    requires
        lookup_type(r, name) is Some,
    ensures
        in_registry(r, lookup_type(r, name)->0),
{
    crate::named_map::lemma_find_key_some(r.types@, name);
    let i = find_key(r.types@, name)->0;
    assert(r.types@[i].1 == lookup_type(r, name)->0);
}

impl Registry {
    /// A registry with no types, whose query root is `query_type`.
    pub fn new(query_type: &str) -> (r: Registry)
        ensures
            r.types@.len() == 0,
            r.query_type@ == query_type@,
            r.mutation_type is None,
            r.subscription_type is None,
            r.directives@.len() == 0,
    {
        Registry {
            types: NamedMap::new(),
            query_type: String::from_str(query_type),
            mutation_type: None,
            subscription_type: None,
            directives: NamedMap::new(),
        }
    }

    /// The type registered under `name`.
    pub fn get_type(&self, name: &str) -> (r: Option<&MetaType>)
        ensures
            match lookup_type(*self, name@) {
                Some(t) => r is Some && *r->0 == t,
                None => r is None,
            },
    {
        self.types.get(name)
    }

    /// The type named at the base of the textual type reference `ty`
    /// (`[Foo!]!` gives `Foo`); `None` when the text is no type reference or
    /// names no registered type.
    pub fn basic_type_by_typename(&self, ty: &str) -> (r: Option<&MetaType>)
        ensures
            match basic_type_of(*self, ty@) {
                Some(t) => r is Some && *r->0 == t,
                None => r is None,
            },
    {
        match TypeRef::parse(ty) {
            Some(t) => self.types.get(t.base_type()),
            None => None,
        }
    }

    /// Registers `t` under its name; an existing type of that name is
    /// replaced in place.
    pub fn insert_type(&mut self, t: MetaType)
        requires
            old(self).types@.len() < usize::MAX,
        ensures
            final(self).types@ == crate::named_map::insert_entry(old(self).types@, type_name_of(t), t),
            final(self).query_type == old(self).query_type,
            final(self).mutation_type == old(self).mutation_type,
            final(self).subscription_type == old(self).subscription_type,
            final(self).directives == old(self).directives,
    {
        let name = String::from_str(t.name());
        self.types.insert(name, t);
    }
}

} // verus!
