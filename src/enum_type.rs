use vstd::prelude::*;

use crate::named_map::{find_key, insert_entry, keys_unique, lemma_find_key_none, NamedMap};
use crate::registry::{clone_opt_string, Deprecation, MetaEnumValue, MetaType, Registry};
use crate::schema_error::SchemaError;
use crate::type_ref::{TypeRef, TypeRefView};

verus! {

/// A GraphQL enum item.
#[derive(Debug)]
pub struct EnumItem {
    pub name: String,
    pub description: Option<String>,
    pub deprecation: Deprecation,
}

impl EnumItem {
    /// An item with the given name, no description, not deprecated.
    pub fn new(name: &str) -> (r: EnumItem)
        ensures
            r.name@ == name@,
            r.description is None,
            r.deprecation is NoDeprecated,
    {
        EnumItem { name: String::from_str(name), description: None, deprecation: Deprecation::NoDeprecated }
    }

    /// Sets the description.
    pub fn description(self, description: &str) -> (r: EnumItem)
        ensures
            r.name == self.name,
            r.description is Some && r.description->0@ == description@,
            r.deprecation == self.deprecation,
    {
        EnumItem { description: Some(String::from_str(description)), ..self }
    }
}

/// A GraphQL enum type.
#[derive(Debug)]
pub struct Enum {
    pub name: String,
    pub description: Option<String>,
    /// The items by name, in the order first added.
    pub enum_values: NamedMap<EnumItem>,
}

/// `t` is the registered form of `e`: an enum of the same name and
/// description whose values are `e`'s items, in the same order, with the
/// same descriptions and deprecations.
pub open spec fn registered_enum(e: Enum, t: MetaType) -> bool {
    match t {
        MetaType::Enum { name, description, enum_values, inaccessible, tags } => {
            &&& name@ == e.name@
            &&& description == e.description
            &&& !inaccessible
            &&& tags@.len() == 0
            &&& enum_values@.len() == e.enum_values@.len()
            &&& forall|j: int|
                0 <= j < enum_values@.len() ==> {
                    let (k, v) = #[trigger] enum_values@[j];
                    let (ik, item) = e.enum_values@[j];
                    &&& k == ik
                    &&& v.name@ == item.name@
                    &&& v.description == item.description
                    &&& v.deprecation == item.deprecation
                    &&& !v.inaccessible
                    &&& v.tags@.len() == 0
                }
        },
        _ => false,
    }
}

impl Enum {
    /// An enum type with the given name and no items.
    pub fn new(name: &str) -> (r: Enum)
        ensures
            r.name@ == name@,
            r.description is None,
            r.enum_values@.len() == 0,
    {
        Enum { name: String::from_str(name), description: None, enum_values: NamedMap::new() }
    }

    /// Sets the description.
    pub fn description(self, description: &str) -> (r: Enum)
        ensures
            r.name == self.name,
            r.description is Some && r.description->0@ == description@,
            r.enum_values@ == self.enum_values@,
    {
        Enum { description: Some(String::from_str(description)), ..self }
    }

    /// Adds an item; an item of the same name is replaced in place.
    pub fn item(self, item: EnumItem) -> (r: Enum)
        requires
            self.enum_values@.len() < usize::MAX,
        ensures
            r.name == self.name,
            r.description == self.description,
            r.enum_values@ == insert_entry(self.enum_values@, item.name@, item),
    {
        let mut e = self;
        let key = item.name.clone();
        e.enum_values.insert(key, item);
        e
    }

    /// The type's name.
    pub fn name(&self) -> (r: &str)
        ensures
            r@ == self.name@,
    {
        self.name.as_str()
    }

    /// A reference to this type.
    pub fn type_ref(&self) -> (r: TypeRef)
        ensures
            r@ == TypeRefView::Named(self.name@),
    {
        TypeRef::named(self.name.as_str())
    }

    /// Registers this enum: the registry then holds, under its name, an enum
    /// type with the same description and the same items in the same order.
    pub fn register(&self, registry: &mut Registry) -> (r: Result<(), SchemaError>)
        requires
            old(registry).types@.len() < usize::MAX,
        ensures
            r is Ok,
            match find_key(final(registry).types@, self.name@) {
                Some(i) => {
                    &&& registered_enum(*self, final(registry).types@[i].1)
                    &&& final(registry).types@ == insert_entry(
                        old(registry).types@,
                        self.name@,
                        final(registry).types@[i].1,
                    )
                },
                None => false,
            },
            final(registry).query_type == old(registry).query_type,
            final(registry).mutation_type == old(registry).mutation_type,
            final(registry).subscription_type == old(registry).subscription_type,
    {
        let mut enum_values: NamedMap<MetaEnumValue> = NamedMap::new();
        let n = self.enum_values.len();
        let ghost items = self.enum_values@;
        let mut i: usize = 0;
        while i < n
            invariant
                i <= n,
                n == items.len(),
                items == self.enum_values@,
                keys_unique(items),
                enum_values@.len() == i,
                forall|j: int|
                    0 <= j < i ==> {
                        let (k, v) = #[trigger] enum_values@[j];
                        let (ik, item) = items[j];
                        &&& k == ik
                        &&& v.name@ == item.name@
                        &&& v.description == item.description
                        &&& v.deprecation == item.deprecation
                        &&& !v.inaccessible
                        &&& v.tags@.len() == 0
                    },
            decreases n - i,
        {
            let key = self.enum_values.key_at(i);
            let item = self.enum_values.value_at(i);
            let value = MetaEnumValue {
                name: item.name.clone(),
                description: clone_opt_string(&item.description),
                deprecation: item.deprecation.clone(),
                inaccessible: false,
                tags: Vec::new(),
            };
            proof {
                assert forall|j: int| 0 <= j < enum_values@.len() implies #[trigger] enum_values@[j].0
                    != key@ by {
                    assert(items[j].0 == enum_values@[j].0);
                }
                lemma_find_key_none(enum_values@, key@);
            }
            let ghost before = enum_values@;
            enum_values.insert(key.clone(), value);
            assert(enum_values@ == before.push((key@, value)));
            i = i + 1;
        }
        let t = MetaType::Enum {
            name: self.name.clone(),
            description: clone_opt_string(&self.description),
            enum_values,
            inaccessible: false,
            tags: Vec::new(),
        };
        let ghost tg = t;
        registry.insert_type(t);
        proof {
            crate::named_map::lemma_insert_entry_find(old(registry).types@, self.name@, tg);
        }
        Ok(())
    }
}

} // verus!
