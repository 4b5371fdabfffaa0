use vstd::prelude::*;

use crate::field::{registered_field, Field};
use crate::named_map::{find_key, insert_entry, keys_unique, lemma_find_key_none, NamedMap};
use crate::registry::{clone_opt_string, MetaField, MetaType, Registry};
use crate::schema_error::SchemaError;
use crate::type_ref::{TypeRef, TypeRefView};

verus! {

/// A GraphQL object type whose fields are resolved by `R`.
pub struct Object<R> {
    pub name: String,
    pub description: Option<String>,
    /// The fields by name, in the order first added.
    pub fields: NamedMap<Field<R>>,
    /// The interfaces implemented, each named once, in the order added.
    pub implements: Vec<String>,
}

/// `t` is the registered form of `o`: an object of the same name,
/// description and interfaces whose fields are the registered forms of `o`'s
/// fields, in the same order.
pub open spec fn registered_object<R>(o: Object<R>, t: MetaType) -> bool {
    match t {
        MetaType::Object { name, description, fields, implements, inaccessible, tags } => {
            &&& name@ == o.name@
            &&& description == o.description
            &&& implements@ == o.implements@
            &&& !inaccessible
            &&& tags@.len() == 0
            &&& fields@.len() == o.fields@.len()
            &&& forall|j: int|
                0 <= j < fields@.len() ==> {
                    &&& (#[trigger] fields@[j]).0 == o.fields@[j].0
                    &&& registered_field(o.fields@[j].1, fields@[j].1)
                }
        },
        _ => false,
    }
}

/// A copy of a list of names.
pub fn clone_names(v: &Vec<String>) -> (r: Vec<String>)
    ensures
        r@ == v@,
{
    let mut r: Vec<String> = Vec::new();
    let n = v.len();
    let mut i: usize = 0;
    while i < n
        invariant
            i <= n,
            n == v@.len(),
            r@ == v@.take(i as int),
        decreases n - i,
    {
        r.push(v[i].clone());
        assert(r@ =~= v@.take(i + 1));
        i = i + 1;
    }
    assert(v@.take(n as int) =~= v@);
    r
}

impl<R> Object<R> {
    /// An object type with the given name, no fields and no interfaces.
    pub fn new(name: &str) -> (r: Object<R>)
        ensures
            r.name@ == name@,
            r.description is None,
            r.fields@.len() == 0,
            r.implements@.len() == 0,
    {
        Object { name: String::from_str(name), description: None, fields: NamedMap::new(), implements: Vec::new() }
    }

    /// Sets the description.
    pub fn description(self, description: &str) -> (r: Object<R>)
        ensures
            r.name == self.name,
            r.description is Some && r.description->0@ == description@,
            r.fields@ == self.fields@,
            r.implements == self.implements,
    {
        Object { description: Some(String::from_str(description)), ..self }
    }

    /// Adds a field; a field of the same name is replaced in place.
    pub fn field(self, field: Field<R>) -> (r: Object<R>)
        requires
            self.fields@.len() < usize::MAX,
        ensures
            r.name == self.name,
            r.description == self.description,
            r.fields@ == insert_entry(self.fields@, field.name@, field),
            r.implements == self.implements,
    {
        let mut o = self;
        let key = field.name.clone();
        o.fields.insert(key, field);
        o
    }

    /// Declares that this object implements the interface `name`; a name
    /// already declared is not added again.
    pub fn implement(self, name: &str) -> (r: Object<R>)
        ensures
            r.name == self.name,
            r.description == self.description,
            r.fields@ == self.fields@,
            (exists|j: int| 0 <= j < self.implements@.len() && self.implements@[j]@ == name@) ==> r.implements
                == self.implements,
            !(exists|j: int| 0 <= j < self.implements@.len() && self.implements@[j]@ == name@) ==> {
                &&& r.implements@.len() == self.implements@.len() + 1
                &&& r.implements@.drop_last() == self.implements@
                &&& r.implements@.last()@ == name@
            },
    {
        let mut o = self;
        let key = String::from_str(name);
        let n = o.implements.len();
        let mut i: usize = 0;
        while i < n
            invariant
                i <= n,
                n == o.implements@.len(),
                o == self,
                key@ == name@,
                forall|j: int| 0 <= j < i ==> (#[trigger] o.implements@[j])@ != name@,
            decreases n - i,
        {
            if o.implements[i] == key {
                return o;
            }
            i = i + 1;
        }
        o.implements.push(key);
        assert(o.implements@.drop_last() =~= self.implements@);
        o
    }

    /// The type's name.
    pub fn name(&self) -> (r: &str)
        ensures
            r@ == self.name@,
    {
        self.name.as_str()
    }

    /// A reference to this type.
    pub fn type_ref(&self) -> (r: TypeRef)
        ensures
            r@ == TypeRefView::Named(self.name@),
    {
        TypeRef::named(self.name.as_str())
    }

    /// Registers this object: the registry then holds, under its name, an
    /// object type whose fields are the registered forms of these fields, in
    /// the same order.
    pub fn register(&self, registry: &mut Registry) -> (r: Result<(), SchemaError>)
        requires
            old(registry).types@.len() < usize::MAX,
        ensures
            r is Ok,
            match find_key(final(registry).types@, self.name@) {
                Some(i) => {
                    &&& registered_object(*self, final(registry).types@[i].1)
                    &&& final(registry).types@ == insert_entry(
                        old(registry).types@,
                        self.name@,
                        final(registry).types@[i].1,
                    )
                },
                None => false,
            },
            final(registry).query_type == old(registry).query_type,
            final(registry).mutation_type == old(registry).mutation_type,
            final(registry).subscription_type == old(registry).subscription_type,
    {
        let mut fields: NamedMap<MetaField> = NamedMap::new();
        let n = self.fields.len();
        let ghost items = self.fields@;
        let mut i: usize = 0;
        while i < n
            invariant
                i <= n,
                n == items.len(),
                items == self.fields@,
                keys_unique(items),
                fields@.len() == i,
                forall|j: int|
                    0 <= j < i ==> {
                        &&& (#[trigger] fields@[j]).0 == items[j].0
                        &&& registered_field(items[j].1, fields@[j].1)
                    },
            decreases n - i,
        {
            let key = self.fields.key_at(i);
            let value = self.fields.value_at(i).to_meta_field();
            proof {
                assert forall|j: int| 0 <= j < fields@.len() implies #[trigger] fields@[j].0 != key@ by {
                    assert(items[j].0 == fields@[j].0);
                }
                lemma_find_key_none(fields@, key@);
            }
            let ghost before = fields@;
            fields.insert(key.clone(), value);
            assert(fields@ == before.push((key@, value)));
            i = i + 1;
        }
        let t = MetaType::Object {
            name: self.name.clone(),
            description: clone_opt_string(&self.description),
            fields,
            implements: clone_names(&self.implements),
            inaccessible: false,
            tags: Vec::new(),
        };
        let ghost tg = t;
        registry.insert_type(t);
        proof {
            crate::named_map::lemma_insert_entry_find(old(registry).types@, self.name@, tg);
        }
        Ok(())
    }
}

} // verus!
