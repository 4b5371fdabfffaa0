use vstd::prelude::*;

verus! {

/// Why a schema could not be built.
#[derive(Debug)]
pub enum SchemaError {
    /// A type reference names no registered type.
    UnknownType { name: String, referenced_from: String },
    /// Two registered types share a name.
    DuplicateType { name: String },
    /// An object does not provide what an interface it implements asks for.
    InvalidImplementation { object: String, interface: String, reason: String },
    /// A union member is not an object.
    InvalidUnionMember { union_name: String, member: String, reason: String },
    /// A root operation type is not a registered object.
    MissingRootType { which: String },
}

} // verus!
