use vstd::prelude::*;

use crate::input_value::{registered_input_value, InputValue};
use crate::named_map::{insert_entry, keys_unique, lemma_find_key_none, NamedMap};
use crate::registry::{clone_opt_string, Deprecation, MetaField, MetaInputValue};
use crate::type_ref::{format_type, TypeRef};
use crate::value::{Error, Value};

verus! {

/// A value returned by a resolver. Opaque objects of type `T` are carried
/// for the resolvers of the next level, owned or borrowed.
#[derive(Debug)]
pub enum FieldValue<'a, T> {
    /// A plain value.
    Value(Value),
    /// A borrowed opaque object.
    BorrowedAny(&'a T),
    /// An owned opaque object.
    OwnedAny(Box<T>),
    /// A list.
    List(Vec<FieldValue<'a, T>>),
    /// A value together with the name of its concrete object type.
    WithType { value: Box<FieldValue<'a, T>>, ty: String },
}

/// The opaque object a field value carries, if it carries one directly.
pub open spec fn any_of<'a, T>(f: FieldValue<'a, T>) -> Option<T> {
    match f {
        FieldValue::BorrowedAny(r) => Some(*r),
        FieldValue::OwnedAny(b) => Some(*b),
        _ => None,
    }
}

/// The plain value of a field value, if it is one.
pub open spec fn value_of<'a, T>(f: FieldValue<'a, T>) -> Option<Value> {
    match f {
        FieldValue::Value(v) => Some(v),
        _ => None,
    }
}

/// The plain value of a field value, or the message of the error that reading
/// one gives.
pub open spec fn checked_value_of<'a, T>(f: FieldValue<'a, T>) -> Result<Value, Seq<char>> {
    match f {
        FieldValue::Value(v) => Ok(v),
        _ => Err("internal: not a Value"@),
    }
}

impl<'a, T> From<Value> for FieldValue<'a, T> {
    fn from(value: Value) -> (r: FieldValue<'a, T>) {
        FieldValue::Value(value)
    }
}

impl<'a, T> vstd::std_specs::convert::FromSpecImpl<Value> for FieldValue<'a, T> {
    open spec fn obeys_from_spec() -> bool {
        true
    }

    open spec fn from_spec(value: Value) -> FieldValue<'a, T> {
        FieldValue::Value(value)
    }
}

impl<'a, T> From<Vec<FieldValue<'a, T>>> for FieldValue<'a, T> {
    fn from(values: Vec<FieldValue<'a, T>>) -> (r: FieldValue<'a, T>) {
        FieldValue::List(values)
    }
}

impl<'a, T> vstd::std_specs::convert::FromSpecImpl<Vec<FieldValue<'a, T>>> for FieldValue<'a, T> {
    open spec fn obeys_from_spec() -> bool {
        true
    }

    open spec fn from_spec(values: Vec<FieldValue<'a, T>>) -> FieldValue<'a, T> {
        FieldValue::List(values)
    }
}

impl<'a, T> From<()> for FieldValue<'a, T> {
    fn from(unit: ()) -> (r: FieldValue<'a, T>) {
        FieldValue::Value(Value::Null)
    }
}

impl<'a, T> vstd::std_specs::convert::FromSpecImpl<()> for FieldValue<'a, T> {
    open spec fn obeys_from_spec() -> bool {
        true
    }

    open spec fn from_spec(unit: ()) -> FieldValue<'a, T> {
        FieldValue::Value(Value::Null)
    }
}

impl<'a, T> FieldValue<'a, T> {
    /// No value: what a resolver returns when there is no result.
    pub fn none() -> (r: Option<FieldValue<'a, T>>)
        ensures
            r is None,
    {
        None
    }

    /// The null value.
    pub fn null() -> (r: FieldValue<'a, T>)
        ensures
            r == FieldValue::<'a, T>::Value(Value::Null),
    {
        FieldValue::Value(Value::Null)
    }

    /// A plain value.
    pub fn value(value: Value) -> (r: FieldValue<'a, T>)
        ensures
            r == FieldValue::<'a, T>::Value(value),
    {
        FieldValue::Value(value)
    }

    /// An owned opaque object.
    pub fn owned_any(obj: T) -> (r: FieldValue<'a, T>)
        ensures
            r is OwnedAny && *r->OwnedAny_0 == obj,
    {
        FieldValue::OwnedAny(Box::new(obj))
    }

    /// A borrowed opaque object.
    pub fn borrowed_any(obj: &'a T) -> (r: FieldValue<'a, T>)
        ensures
            r is BorrowedAny && *r->BorrowedAny_0 == *obj,
    {
        FieldValue::BorrowedAny(obj)
    }

    /// A list of field values.
    pub fn list(values: Vec<FieldValue<'a, T>>) -> (r: FieldValue<'a, T>)
        ensures
            r is List && r->List_0@ == values@,
    {
        FieldValue::List(values)
    }

    /// A value together with the name of its concrete object type, as fields
    /// of interface or union type must return.
    pub fn with_type(value: FieldValue<'a, T>, ty: &str) -> (r: FieldValue<'a, T>)
        ensures
            r is WithType && *r->WithType_value == value && r->WithType_ty@ == ty@,
    {
        FieldValue::WithType { value: Box::new(value), ty: String::from_str(ty) }
    }

    /// The plain value, if this is one.
    pub fn as_value(&self) -> (r: Option<&Value>)
        ensures
            match value_of(*self) {
                Some(v) => r is Some && *r->0 == v,
                None => r is None,
            },
    {
        match self {
            FieldValue::Value(v) => Some(v),
            _ => None,
        }
    }

    /// The plain value, or the error `internal: not a Value`.
    pub fn try_to_value(&self) -> (r: Result<&Value, Error>)
        ensures
            match checked_value_of(*self) {
                Ok(v) => r is Ok && *r->Ok_0 == v,
                Err(m) => r is Err && r->Err_0.message@ == m,
            },
    {
        match self.as_value() {
            Some(v) => Ok(v),
            None => Err(Error::new("internal: not a Value")),
        }
    }

    /// The items, if this is a list.
    pub fn as_list(&self) -> (r: Option<&[FieldValue<'a, T>]>)
        ensures
            match *self {
                FieldValue::List(items) => r is Some && r->0@ == items@,
                _ => r is None,
            },
    {
        match self {
            FieldValue::List(items) => Some(items.as_slice()),
            _ => None,
        }
    }

    /// The items, or the error `internal: not a list`.
    pub fn try_to_list(&self) -> (r: Result<&[FieldValue<'a, T>], Error>)
        ensures
            match *self {
                FieldValue::List(items) => r is Ok && r->Ok_0@ == items@,
                _ => r is Err && r->Err_0.message@ == "internal: not a list"@,
            },
    {
        match self.as_list() {
            Some(items) => Ok(items),
            None => Err(Error::new("internal: not a list")),
        }
    }

    /// The opaque object, owned or borrowed, if this carries one.
    pub fn downcast_ref(&self) -> (r: Option<&T>)
        ensures
            match any_of(*self) {
                Some(o) => r is Some && *r->0 == o,
                None => r is None,
            },
    {
        match self {
            FieldValue::BorrowedAny(o) => Some(*o),
            FieldValue::OwnedAny(o) => Some(&**o),
            _ => None,
        }
    }

    /// The opaque object, or the error `internal: not type "<type_label>"`,
    /// where `type_label` names the expected type.
    pub fn try_downcast_ref(&self, type_label: &str) -> (r: Result<&T, Error>)
        ensures
            match any_of(*self) {
                Some(o) => r is Ok && *r->Ok_0 == o,
                None => r is Err && r->Err_0.message@ == "internal: not type \""@ + type_label@
                    + "\""@,
            },
    {
        match self.downcast_ref() {
            Some(o) => Ok(o),
            None => {
                let mut message = String::from_str("internal: not type \"");
                message.append(type_label);
                message.append("\"");
                Err(Error { message })
            },
        }
    }
}

/// What a resolver receives: the request context, the field's arguments and
/// the parent's value.
pub struct ResolverContext<'a, C, T> {
    pub ctx: &'a C,
    pub args: &'a Vec<(String, Value)>,
    pub parent_value: &'a FieldValue<'a, T>,
}

/// A GraphQL field whose values come from the resolver `R`.
pub struct Field<R> {
    pub name: String,
    pub description: Option<String>,
    /// The arguments by name, in the order first added.
    pub arguments: NamedMap<InputValue>,
    pub ty: TypeRef,
    pub resolver_fn: R,
    pub deprecation: Deprecation,
}

impl<R> Field<R> {
    /// A field with the given name, type and resolver, no description, no
    /// arguments, not deprecated.
    pub fn new(name: &str, ty: TypeRef, resolver_fn: R) -> (r: Field<R>)
        ensures
            r.name@ == name@,
            r.description is None,
            r.arguments@.len() == 0,
            r.ty == ty,
            r.resolver_fn == resolver_fn,
            r.deprecation is NoDeprecated,
    {
        Field {
            name: String::from_str(name),
            description: None,
            arguments: NamedMap::new(),
            ty,
            resolver_fn,
            deprecation: Deprecation::NoDeprecated,
        }
    }

    /// Sets the description.
    pub fn description(self, description: &str) -> (r: Field<R>)
        ensures
            r.name == self.name,
            r.description is Some && r.description->0@ == description@,
            r.arguments@ == self.arguments@,
            r.ty == self.ty,
            r.resolver_fn == self.resolver_fn,
            r.deprecation == self.deprecation,
    {
        Field { description: Some(String::from_str(description)), ..self }
    }

    /// Adds an argument; an argument of the same name is replaced in place.
    pub fn argument(self, input_value: InputValue) -> (r: Field<R>)
        requires
            self.arguments@.len() < usize::MAX,
        ensures
            r.name == self.name,
            r.description == self.description,
            r.arguments@ == insert_entry(self.arguments@, input_value.name@, input_value),
            r.ty == self.ty,
            r.resolver_fn == self.resolver_fn,
            r.deprecation == self.deprecation,
    {
        let mut f = self;
        let key = input_value.name.clone();
        f.arguments.insert(key, input_value);
        f
    }
}

/// `m` is the registered form of `f`: same name, description and deprecation,
/// the output type in textual form, and the registered form of each argument
/// in the same order.
pub open spec fn registered_field<R>(f: Field<R>, m: MetaField) -> bool {
    &&& m.name@ == f.name@
    &&& m.description == f.description
    &&& m.ty@ == format_type(f.ty@)
    &&& m.deprecation == f.deprecation
    &&& m.args@.len() == f.arguments@.len()
    &&& forall|j: int|
        0 <= j < m.args@.len() ==> {
            &&& (#[trigger] m.args@[j]).0 == f.arguments@[j].0
            &&& registered_input_value(f.arguments@[j].1, m.args@[j].1)
        }
}

impl<R> Field<R> {
    /// The registered form of this field.
    pub fn to_meta_field(&self) -> (r: MetaField)
        ensures
            registered_field(*self, r),
    {
        let mut args: NamedMap<MetaInputValue> = NamedMap::new();
        let n = self.arguments.len();
        let ghost items = self.arguments@;
        let mut i: usize = 0;
        while i < n
            invariant
                i <= n,
                n == items.len(),
                items == self.arguments@,
                keys_unique(items),
                args@.len() == i,
                forall|j: int|
                    0 <= j < i ==> {
                        &&& (#[trigger] args@[j]).0 == items[j].0
                        &&& registered_input_value(items[j].1, args@[j].1)
                    },
            decreases n - i,
        {
            let key = self.arguments.key_at(i);
            let value = self.arguments.value_at(i).to_meta_input_value();
            proof {
                assert forall|j: int| 0 <= j < args@.len() implies #[trigger] args@[j].0 != key@ by {
                    assert(items[j].0 == args@[j].0);
                }
                lemma_find_key_none(args@, key@);
            }
            let ghost before = args@;
            args.insert(key.clone(), value);
            assert(args@ == before.push((key@, value)));
            i = i + 1;
        }
        MetaField {
            name: self.name.clone(),
            description: clone_opt_string(&self.description),
            args,
            ty: self.ty.to_text(),
            deprecation: self.deprecation.clone(),
        }
    }
}

/// A plain value put into a field value is read back unchanged; every other
/// kind of field value reads back as no plain value, and its checked read
/// fails with `internal: not a Value`.
pub proof fn lemma_value_accessors<'a, T>(v: Value, f: FieldValue<'a, T>)
    ensures
        value_of(FieldValue::<'a, T>::Value(v)) == Some(v),
        !(f is Value) ==> value_of(f) is None,
        !(f is Value) ==> checked_value_of(f) == Err::<Value, Seq<char>>("internal: not a Value"@),
{
}

} // verus!
