use vstd::prelude::*;

use crate::type_ref::TypeRef;
use crate::value::Value;

verus! {

/// A position in the query text.
#[derive(Debug, Clone, Copy, PartialEq, Eq, Structural)]
pub struct Pos {
    pub line: usize,
    pub column: usize,
}

/// A directive, `@name(args)`.
#[derive(Debug)]
pub struct Directive {
    pub position: Pos,
    pub name: String,
    pub arguments: Vec<(String, Value)>,
}

/// A variable definition of an operation, `$name: Type = default`.
#[derive(Debug)]
pub struct VariableDefinition {
    pub position: Pos,
    pub name: String,
    pub var_type: TypeRef,
    pub default_value: Option<Value>,
}

/// The type named by a fragment, `on Name`.
#[derive(Debug)]
pub enum TypeCondition {
    On(String),
}

/// A set of selections, `{ ... }`.
#[derive(Debug)]
pub struct SelectionSet {
    pub items: Vec<Selection>,
}

/// One selection of a selection set.
#[derive(Debug)]
pub enum Selection {
    Field(Field),
    FragmentSpread(FragmentSpread),
    InlineFragment(InlineFragment),
}

/// A selected field, `alias: name(args) @directives { ... }`.
#[derive(Debug)]
pub struct Field {
    pub position: Pos,
    pub alias: Option<String>,
    pub name: String,
    pub arguments: Vec<(String, Value)>,
    pub directives: Vec<Directive>,
    pub selection_set: SelectionSet,
}

/// A use of a named fragment, `...Name`.
#[derive(Debug)]
pub struct FragmentSpread {
    pub position: Pos,
    pub fragment_name: String,
    pub directives: Vec<Directive>,
}

/// An inline fragment, `... on Type { ... }`.
#[derive(Debug)]
pub struct InlineFragment {
    pub position: Pos,
    pub type_condition: Option<TypeCondition>,
    pub directives: Vec<Directive>,
    pub selection_set: SelectionSet,
}

/// A named fragment, `fragment Name on Type { ... }`.
#[derive(Debug)]
pub struct FragmentDefinition {
    pub position: Pos,
    pub name: String,
    pub type_condition: TypeCondition,
    pub directives: Vec<Directive>,
    pub selection_set: SelectionSet,
}

/// A query, mutation or subscription written out in full.
#[derive(Debug)]
pub struct Operation {
    pub position: Pos,
    pub name: Option<String>,
    pub variable_definitions: Vec<VariableDefinition>,
    pub directives: Vec<Directive>,
    pub selection_set: SelectionSet,
}

/// An operation of a document.
#[derive(Debug)]
pub enum OperationDefinition {
    /// The shorthand query, a bare selection set.
    SelectionSet(SelectionSet),
    Query(Operation),
    Mutation(Operation),
    Subscription(Operation),
}

/// A definition of a document.
#[derive(Debug)]
pub enum Definition {
    Operation(OperationDefinition),
    Fragment(FragmentDefinition),
}

/// A parsed query document.
#[derive(Debug)]
pub struct Document {
    pub definitions: Vec<Definition>,
}

/// A validation error: a message and the positions it concerns.
#[derive(Debug)]
pub struct RuleError {
    pub locations: Vec<Pos>,
    pub message: String,
}

} // verus!
