//! A GraphQL schema defined at run time: type references, the registry of
//! types and its builders, field values passed between resolvers, and the
//! walk that validates a query document against the registry.

pub mod enum_type;
pub mod field;
pub mod input_value;
pub mod named_map;
pub mod object;
pub mod query;
pub mod registry;
pub mod schema;
pub mod schema_error;
pub mod type_ref;
pub mod value;
pub mod visitor;
