use vstd::prelude::*;

use crate::registry::{clone_opt_string, MetaInputValue};
use crate::type_ref::{format_type, TypeRef};
use crate::value::{value_text, Value};

verus! {

/// A GraphQL argument or input field.
#[derive(Debug)]
pub struct InputValue {
    pub name: String,
    pub description: Option<String>,
    pub ty: TypeRef,
    pub default_value: Option<Value>,
}

/// `m` is the registered form of `v`: same name and description, the type
/// and the default value in textual form, visible, not secret, no tags.
pub open spec fn registered_input_value(v: InputValue, m: MetaInputValue) -> bool {
    &&& m.name@ == v.name@
    &&& m.description == v.description
    &&& m.ty@ == format_type(v.ty@)
    &&& match v.default_value {
        Some(d) => m.default_value is Some && m.default_value->0@ == value_text(d),
        None => m.default_value is None,
    }
    &&& !m.inaccessible
    &&& m.tags@.len() == 0
    &&& !m.is_secret
}

impl InputValue {
    /// An input value with the given name and type, no description and no
    /// default.
    pub fn new(name: &str, ty: TypeRef) -> (r: InputValue)
        ensures
            r.name@ == name@,
            r.description is None,
            r.ty == ty,
            r.default_value is None,
    {
        InputValue { name: String::from_str(name), description: None, ty, default_value: None }
    }

    /// Sets the description.
    pub fn description(self, description: &str) -> (r: InputValue)
        ensures
            r.name == self.name,
            r.description is Some && r.description->0@ == description@,
            r.ty == self.ty,
            r.default_value == self.default_value,
    {
        InputValue { description: Some(String::from_str(description)), ..self }
    }

    /// Sets the default value.
    pub fn default_value(self, value: Value) -> (r: InputValue)
        ensures
            r.name == self.name,
            r.description == self.description,
            r.ty == self.ty,
            r.default_value == Some(value),
    {
        InputValue { default_value: Some(value), ..self }
    }

    /// The registered form of this input value.
    pub fn to_meta_input_value(&self) -> (r: MetaInputValue)
        ensures
            registered_input_value(*self, r),
    {
        let default_value = match &self.default_value {
            Some(v) => Some(v.to_text()),
            None => None,
        };
        MetaInputValue {
            name: self.name.clone(),
            description: clone_opt_string(&self.description),
            ty: self.ty.to_text(),
            default_value,
            inaccessible: false,
            tags: Vec::new(),
            is_secret: false,
        }
    }
}

} // verus!
