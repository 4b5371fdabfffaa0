use vstd::prelude::*;

use crate::enum_type::Enum;
use crate::object::{registered_object, Object};
use crate::named_map::{find_key, lemma_find_key_none, lemma_find_key_some, NamedMap};
use crate::registry::{
    basic_type_of, field_of, lookup_type, registry_valid, type_name_of, MetaField, MetaInputValue,
    MetaType, Registry,
};
use crate::schema_error::SchemaError;
use crate::type_ref::{parse_type, TypeRef, TypeRefView};

verus! {

/// `name` is registered as an object type.
pub open spec fn names_object(r: Registry, name: Seq<char>) -> bool {
    lookup_type(r, name) is Some && lookup_type(r, name)->0 is Object
}

/// The query root is a registered object, and so are the mutation and
/// subscription roots where the schema has them.
pub open spec fn roots_valid(r: Registry) -> bool {
    &&& names_object(r, r.query_type@)
    &&& r.mutation_type is Some ==> names_object(r, r.mutation_type->0@)
    &&& r.subscription_type is Some ==> names_object(r, r.subscription_type->0@)
}

/// Every input value's type names a registered type at its base.
pub open spec fn inputs_resolve(r: Registry, args: Seq<(Seq<char>, MetaInputValue)>) -> bool {
    forall|j: int| 0 <= j < args.len() ==> basic_type_of(r, (#[trigger] args[j]).1.ty@) is Some
}

/// The output type of every field, and the type of each of its arguments,
/// names a registered type at its base.
pub open spec fn fields_resolve(r: Registry, fields: Seq<(Seq<char>, MetaField)>) -> bool {
    forall|j: int|
        0 <= j < fields.len() ==> {
            &&& basic_type_of(r, (#[trigger] fields[j]).1.ty@) is Some
            &&& inputs_resolve(r, fields[j].1.args@)
        }
}

/// Every name is a registered type.
pub open spec fn names_resolve(r: Registry, names: Seq<String>) -> bool {
    forall|j: int| 0 <= j < names.len() ==> lookup_type(r, (#[trigger] names[j])@) is Some
}

/// Every type that `t` refers to is registered.
pub open spec fn type_refs_resolve(r: Registry, t: MetaType) -> bool {
    match t {
        MetaType::Object { fields, implements, .. } => fields_resolve(r, fields@) && names_resolve(
            r,
            implements@,
        ),
        MetaType::Interface { fields, possible_types, .. } => fields_resolve(r, fields@)
            && names_resolve(r, possible_types@),
        MetaType::Union { possible_types, .. } => names_resolve(r, possible_types@),
        MetaType::InputObject { input_fields, .. } => inputs_resolve(r, input_fields@),
        _ => true,
    }
}

/// Every type that a registered type refers to is registered.
pub open spec fn refs_resolve(r: Registry) -> bool {
    forall|i: int| 0 <= i < r.types@.len() ==> type_refs_resolve(r, (#[trigger] r.types@[i]).1)
}

/// The type named `obj` is a registered object that lists the interface
/// `iface` among those it implements.
pub open spec fn lists_interface(r: Registry, obj: Seq<char>, iface: Seq<char>) -> bool {
    match lookup_type(r, obj) {
        Some(MetaType::Object { implements, .. }) => exists|j: int|
            0 <= j < implements@.len() && (#[trigger] implements@[j])@ == iface,
        _ => false,
    }
}

/// A field of type `o` may stand where an interface asks for type `i`: the
/// same modifiers, except that a non-null type may stand for a nullable one,
/// and at the base the same name or an object that implements the named
/// interface.
pub open spec fn type_compatible(r: Registry, o: TypeRefView, i: TypeRefView) -> bool
    decreases o,
{
    match o {
        TypeRefView::NonNull(a) => match i {
            TypeRefView::NonNull(b) => type_compatible(r, *a, *b),
            _ => type_compatible(r, *a, i),
        },
        TypeRefView::List(a) => match i {
            TypeRefView::List(b) => type_compatible(r, *a, *b),
            _ => false,
        },
        TypeRefView::Named(x) => match i {
            TypeRefView::Named(y) => x == y || lists_interface(r, x, y),
            _ => false,
        },
    }
}

/// Both texts are type references, and the first may stand for the second.
pub open spec fn text_compatible(r: Registry, o: Seq<char>, i: Seq<char>) -> bool {
    match (parse_type(o), parse_type(i)) {
        (Some(a), Some(b)) => type_compatible(r, a, b),
        _ => false,
    }
}

/// The object with fields `fields` implements the interface named `iname`:
/// that name is a registered interface, and the object has each of its
/// fields with a compatible output type.
pub open spec fn implements_interface(
    r: Registry,
    fields: Seq<(Seq<char>, MetaField)>,
    iname: Seq<char>,
) -> bool {
    match lookup_type(r, iname) {
        Some(MetaType::Interface { fields: ifields, .. }) => forall|k: int|
            0 <= k < ifields@.len() ==> match find_key(fields, (#[trigger] ifields@[k]).0) {
                Some(m) => text_compatible(r, fields[m].1.ty@, ifields@[k].1.ty@),
                None => false,
            },
        _ => false,
    }
}

/// An object implements every interface it lists, and every possible type
/// an interface lists is an object that lists the interface.
pub open spec fn type_implementations_valid(r: Registry, t: MetaType) -> bool {
    match t {
        MetaType::Object { fields, implements, .. } => forall|j: int|
            0 <= j < implements@.len() ==> implements_interface(r, fields@, (#[trigger] implements@[j])@),
        MetaType::Interface { name, possible_types, .. } => forall|j: int|
            0 <= j < possible_types@.len() ==> lists_interface(r, (#[trigger] possible_types@[j])@, name@),
        _ => true,
    }
}

/// `t` breaks the implementation rule for the object `o` and the interface
/// `i`: `t` is the object `o` listing `i` without implementing it, or `t` is
/// the interface `i` listing `o` as a possible type that does not list `i`.
pub open spec fn broken_implementation(r: Registry, t: MetaType, o: Seq<char>, i: Seq<char>) -> bool {
    match t {
        MetaType::Object { name, fields, implements, .. } => {
            &&& name@ == o
            &&& exists|j: int| 0 <= j < implements@.len() && (#[trigger] implements@[j])@ == i
            &&& !implements_interface(r, fields@, i)
        },
        MetaType::Interface { name, possible_types, .. } => {
            &&& name@ == i
            &&& exists|j: int| 0 <= j < possible_types@.len() && (#[trigger] possible_types@[j])@ == o
            &&& !lists_interface(r, o, i)
        },
        _ => false,
    }
}

/// Some input value has type text `x`, which does not resolve.
pub open spec fn bad_input(r: Registry, args: Seq<(Seq<char>, MetaInputValue)>, x: Seq<char>) -> bool {
    &&& basic_type_of(r, x) is None
    &&& exists|j: int| 0 <= j < args.len() && (#[trigger] args[j]).1.ty@ == x
}

/// Some field has output type text `x`, or an argument of type text `x`, and
/// `x` does not resolve.
pub open spec fn bad_field(r: Registry, fields: Seq<(Seq<char>, MetaField)>, x: Seq<char>) -> bool {
    exists|j: int|
        0 <= j < fields.len() && ((basic_type_of(r, x) is None && (#[trigger] fields[j]).1.ty@ == x)
            || bad_input(r, fields[j].1.args@, x))
}

/// Some name is `x`, which is not registered.
pub open spec fn bad_name(r: Registry, names: Seq<String>, x: Seq<char>) -> bool {
    &&& lookup_type(r, x) is None
    &&& exists|j: int| 0 <= j < names.len() && (#[trigger] names[j])@ == x
}

/// `x` is a reference of `t` that names no registered type.
pub open spec fn bad_reference(r: Registry, t: MetaType, x: Seq<char>) -> bool {
    match t {
        MetaType::Object { fields, implements, .. } => bad_field(r, fields@, x) || bad_name(r, implements@, x),
        MetaType::Interface { fields, possible_types, .. } => bad_field(r, fields@, x) || bad_name(
            r,
            possible_types@,
            x,
        ),
        MetaType::Union { possible_types, .. } => bad_name(r, possible_types@, x),
        MetaType::InputObject { input_fields, .. } => bad_input(r, input_fields@, x),
        _ => false,
    }
}

/// `m` is a member of the union `t` that is not a registered object.
pub open spec fn bad_member(r: Registry, t: MetaType, m: Seq<char>) -> bool {
    match t {
        MetaType::Union { possible_types, .. } => {
            &&& !names_object(r, m)
            &&& exists|j: int| 0 <= j < possible_types@.len() && (#[trigger] possible_types@[j])@ == m
        },
        _ => false,
    }
}

/// What an error of the schema checks says is true of `r`: the root it names
/// is not a registered object; the reference it names, in the type it names,
/// does not resolve; the object and interface it names break the
/// implementation rule; the member it names of the union it names is not an
/// object.
pub open spec fn error_describes(r: Registry, e: SchemaError) -> bool {
    match e {
        SchemaError::MissingRootType { which } => {
            ||| which@ == "query"@ && !names_object(r, r.query_type@)
            ||| which@ == "mutation"@ && r.mutation_type is Some && !names_object(r, r.mutation_type->0@)
            ||| which@ == "subscription"@ && r.subscription_type is Some && !names_object(
                r,
                r.subscription_type->0@,
            )
        },
        SchemaError::UnknownType { name, referenced_from } => exists|i: int|
            0 <= i < r.types@.len() && type_name_of((#[trigger] r.types@[i]).1) == referenced_from@
                && bad_reference(r, r.types@[i].1, name@),
        SchemaError::InvalidImplementation { object, interface, .. } => exists|i: int|
            0 <= i < r.types@.len() && broken_implementation(r, (#[trigger] r.types@[i]).1, object@, interface@),
        SchemaError::InvalidUnionMember { union_name, member, .. } => exists|i: int|
            0 <= i < r.types@.len() && type_name_of((#[trigger] r.types@[i]).1) == union_name@ && bad_member(
                r,
                r.types@[i].1,
                member@,
            ),
        SchemaError::DuplicateType { .. } => false,
    }
}

/// Every registered object implements every interface it lists.
pub open spec fn implementations_valid(r: Registry) -> bool {
    forall|i: int| 0 <= i < r.types@.len() ==> type_implementations_valid(r, (#[trigger] r.types@[i]).1)
}

/// Every member of a union is a registered object.
pub open spec fn type_members_valid(r: Registry, t: MetaType) -> bool {
    match t {
        MetaType::Union { possible_types, .. } => forall|j: int|
            0 <= j < possible_types@.len() ==> names_object(r, (#[trigger] possible_types@[j])@),
        _ => true,
    }
}

/// Every member of every registered union is a registered object.
pub open spec fn unions_valid(r: Registry) -> bool {
    forall|i: int| 0 <= i < r.types@.len() ==> type_members_valid(r, (#[trigger] r.types@[i]).1)
}

/// All the rules a finished schema obeys.
pub open spec fn schema_valid(r: Registry) -> bool {
    &&& roots_valid(r)
    &&& refs_resolve(r)
    &&& implementations_valid(r)
    &&& unions_valid(r)
}

fn is_object_type(r: &Registry, name: &str) -> (b: bool)
    ensures
        b == names_object(*r, name@),
{
    match r.get_type(name) {
        Some(MetaType::Object { .. }) => true,
        _ => false,
    }
}

fn resolves(r: &Registry, ty: &str) -> (b: bool)
    ensures
        b == (basic_type_of(*r, ty@) is Some),
{
    r.basic_type_by_typename(ty).is_some()
}

/// The first input value whose type does not resolve.
fn unresolved_input(r: &Registry, args: &NamedMap<MetaInputValue>) -> (res: Option<String>)
    ensures
        res is None <==> inputs_resolve(*r, args@),
        res is Some ==> bad_input(*r, args@, res->0@),
{
    let n = args.len();
    let mut j: usize = 0;
    while j < n
        invariant
            j <= n,
            n == args@.len(),
            forall|k: int| 0 <= k < j ==> basic_type_of(*r, (#[trigger] args@[k]).1.ty@) is Some,
        decreases n - j,
    {
        let a = args.value_at(j);
        if !resolves(r, a.ty.as_str()) {
            assert(args@[j as int].1.ty@ == a.ty@);
            return Some(a.ty.clone());
        }
        j = j + 1;
    }
    None
}

/// The first field output type or argument type that does not resolve.
fn unresolved_field(r: &Registry, fields: &NamedMap<MetaField>) -> (res: Option<String>)
    ensures
        res is None <==> fields_resolve(*r, fields@),
        res is Some ==> bad_field(*r, fields@, res->0@),
{
    let n = fields.len();
    let mut j: usize = 0;
    while j < n
        invariant
            j <= n,
            n == fields@.len(),
            forall|k: int|
                0 <= k < j ==> {
                    &&& basic_type_of(*r, (#[trigger] fields@[k]).1.ty@) is Some
                    &&& inputs_resolve(*r, fields@[k].1.args@)
                },
        decreases n - j,
    {
        let f = fields.value_at(j);
        if !resolves(r, f.ty.as_str()) {
            assert(fields@[j as int].1.ty@ == f.ty@);
            return Some(f.ty.clone());
        }
        match unresolved_input(r, &f.args) {
            Some(t) => {
                assert(bad_input(*r, fields@[j as int].1.args@, t@));
                return Some(t);
            },
            None => {},
        }
        j = j + 1;
    }
    None
}

/// The first name that is not a registered type.
fn unresolved_name(r: &Registry, names: &Vec<String>) -> (res: Option<String>)
    ensures
        res is None <==> names_resolve(*r, names@),
        res is Some ==> bad_name(*r, names@, res->0@),
{
    let n = names.len();
    let mut j: usize = 0;
    while j < n
        invariant
            j <= n,
            n == names@.len(),
            forall|k: int| 0 <= k < j ==> lookup_type(*r, (#[trigger] names@[k])@) is Some,
        decreases n - j,
    {
        if r.get_type(names[j].as_str()).is_none() {
            assert(names@[j as int]@ == names[j as int]@);
            return Some(names[j].clone());
        }
        j = j + 1;
    }
    None
}

/// The first reference of `t` that names no registered type.
fn unresolved_reference(r: &Registry, t: &MetaType) -> (res: Option<String>)
    ensures
        res is None <==> type_refs_resolve(*r, *t),
        res is Some ==> bad_reference(*r, *t, res->0@),
{
    match t {
        MetaType::Object { fields, implements, .. } => match unresolved_field(r, fields) {
            Some(x) => Some(x),
            None => unresolved_name(r, implements),
        },
        MetaType::Interface { fields, possible_types, .. } => match unresolved_field(r, fields) {
            Some(x) => Some(x),
            None => unresolved_name(r, possible_types),
        },
        MetaType::Union { possible_types, .. } => unresolved_name(r, possible_types),
        MetaType::InputObject { input_fields, .. } => unresolved_input(r, input_fields),
        _ => None,
    }
}

/// Whether the type named `obj` is an object listing the interface `iface`.
fn check_lists_interface(r: &Registry, obj: &str, iface: &str) -> (b: bool)
    ensures
        b == lists_interface(*r, obj@, iface@),
{
    match r.get_type(obj) {
        Some(ty @ MetaType::Object { implements, .. }) => {
            let key = String::from_str(iface);
            let n = implements.len();
            let mut j: usize = 0;
            while j < n
                invariant
                    j <= n,
                    n == implements@.len(),
                    key@ == iface@,
                    lookup_type(*r, obj@) == Some(*ty),
                    *ty is Object,
                    ty->Object_implements == *implements,
                    forall|q: int| 0 <= q < j ==> (#[trigger] implements@[q])@ != iface@,
                decreases n - j,
            {
                if implements[j] == key {
                    assert(implements@[j as int]@ == iface@);
                    return true;
                }
                j = j + 1;
            }
            false
        },
        _ => false,
    }
}

/// Whether a field of type `o` may stand where type `i` is asked for.
fn check_compatible(r: &Registry, o: &TypeRef, i: &TypeRef) -> (b: bool)
    ensures
        b == type_compatible(*r, o@, i@),
    decreases o,
{
    match o {
        TypeRef::NonNull(a) => match i {
            TypeRef::NonNull(b) => check_compatible(r, a, b),
            _ => check_compatible(r, a, i),
        },
        TypeRef::List(a) => match i {
            TypeRef::List(b) => check_compatible(r, a, b),
            _ => false,
        },
        TypeRef::Named(x) => match i {
            TypeRef::Named(y) => *x == *y || check_lists_interface(r, x.as_str(), y.as_str()),
            _ => false,
        },
    }
}

/// Whether both texts are type references and the first may stand for the
/// second.
fn compatible_text(r: &Registry, o: &str, i: &str) -> (b: bool)
    ensures
        b == text_compatible(*r, o@, i@),
{
    match (TypeRef::parse(o), TypeRef::parse(i)) {
        (Some(a), Some(b)) => check_compatible(r, &a, &b),
        _ => false,
    }
}

/// Whether the object with fields `fields` implements the interface `iname`.
fn check_implements(r: &Registry, fields: &NamedMap<MetaField>, iname: &str) -> (b: bool)
    ensures
        b == implements_interface(*r, fields@, iname@),
{
    let found = r.get_type(iname);
    match found {
        Some(ty @ MetaType::Interface { fields: ifields, .. }) => {
            let n = ifields.len();
            let mut k: usize = 0;
            while k < n
                invariant
                    k <= n,
                    n == ifields@.len(),
                    lookup_type(*r, iname@) == Some(*ty),
                    ty->Interface_fields == *ifields,
                    forall|q: int|
                        0 <= q < k ==> match find_key(fields@, (#[trigger] ifields@[q]).0) {
                            Some(m) => text_compatible(*r, fields@[m].1.ty@, ifields@[q].1.ty@),
                            None => false,
                        },
                decreases n - k,
            {
                let key = ifields.key_at(k);
                let ifield = ifields.value_at(k);
                let ghost entry = ifields@[k as int];
                match fields.get(key.as_str()) {
                    Some(f) => {
                        if !compatible_text(r, f.ty.as_str(), ifield.ty.as_str()) {
                            proof {
                                lemma_find_key_some(fields@, entry.0);
                            }
                            assert(!match find_key(fields@, entry.0) {
                                Some(m) => text_compatible(*r, fields@[m].1.ty@, entry.1.ty@),
                                None => false,
                            });
                            return false;
                        }
                    },
                    None => {
                        assert(find_key(fields@, entry.0) is None);
                        return false;
                    },
                }
                proof {
                    lemma_find_key_some(fields@, entry.0);
                }
                k = k + 1;
            }
            true
        },
        _ => false,
    }
}

/// The first object and interface, in that order, for which `t` breaks the
/// implementation rule.
fn unimplemented_interface(r: &Registry, t: &MetaType) -> (res: Option<(String, String)>)
    ensures
        res is None <==> type_implementations_valid(*r, *t),
        match res {
            Some((o, i)) => broken_implementation(*r, *t, o@, i@),
            None => true,
        },
{
    match t {
        MetaType::Object { name, fields, implements, .. } => {
            let n = implements.len();
            let mut j: usize = 0;
            while j < n
                invariant
                    j <= n,
                    n == implements@.len(),
                    t->Object_fields == *fields,
                    t->Object_implements == *implements,
                    t->Object_name == *name,
                    *t is Object,
                    forall|q: int|
                        0 <= q < j ==> implements_interface(*r, fields@, (#[trigger] implements@[q])@),
                decreases n - j,
            {
                if !check_implements(r, fields, implements[j].as_str()) {
                    assert(!implements_interface(*r, fields@, implements@[j as int]@));
                    return Some((name.clone(), implements[j].clone()));
                }
                j = j + 1;
            }
            None
        },
        MetaType::Interface { name, possible_types, .. } => {
            let n = possible_types.len();
            let mut j: usize = 0;
            while j < n
                invariant
                    j <= n,
                    n == possible_types@.len(),
                    t->Interface_possible_types == *possible_types,
                    t->Interface_name == *name,
                    *t is Interface,
                    forall|q: int| 0 <= q < j ==> lists_interface(*r, (#[trigger] possible_types@[q])@, name@),
                decreases n - j,
            {
                if !check_lists_interface(r, possible_types[j].as_str(), name.as_str()) {
                    assert(!lists_interface(*r, possible_types@[j as int]@, name@));
                    return Some((possible_types[j].clone(), name.clone()));
                }
                j = j + 1;
            }
            None
        },
        _ => None,
    }
}

/// The first member of the union `t` that is not a registered object.
fn invalid_member(r: &Registry, t: &MetaType) -> (res: Option<String>)
    ensures
        res is None <==> type_members_valid(*r, *t),
        res is Some ==> bad_member(*r, *t, res->0@),
{
    match t {
        MetaType::Union { possible_types, .. } => {
            let n = possible_types.len();
            let mut j: usize = 0;
            while j < n
                invariant
                    j <= n,
                    n == possible_types@.len(),
                    *t is Union,
                    t->Union_possible_types == *possible_types,
                    forall|q: int| 0 <= q < j ==> names_object(*r, (#[trigger] possible_types@[q])@),
                decreases n - j,
            {
                if !is_object_type(r, possible_types[j].as_str()) {
                    assert(!names_object(*r, possible_types@[j as int]@));
                    assert(possible_types@[j as int]@ == possible_types[j as int]@);
                    return Some(possible_types[j].clone());
                }
                j = j + 1;
            }
            None
        },
        _ => None,
    }
}

/// Checks the rules of a finished schema, in this order: the root types, the
/// references between types, the interface implementations, the union
/// members. The error names the first rule broken, and what it names breaks
/// it.
pub fn check_schema(r: &Registry) -> (res: Result<(), SchemaError>)
    ensures
        res is Err ==> error_describes(*r, res->Err_0),
        res is Ok <==> schema_valid(*r),
        !roots_valid(*r) ==> res is Err && res->Err_0 is MissingRootType,
        roots_valid(*r) && !refs_resolve(*r) ==> res is Err && res->Err_0 is UnknownType,
        roots_valid(*r) && refs_resolve(*r) && !implementations_valid(*r) ==> res is Err
            && res->Err_0 is InvalidImplementation,
        roots_valid(*r) && refs_resolve(*r) && implementations_valid(*r) && !unions_valid(*r)
            ==> res is Err && res->Err_0 is InvalidUnionMember,
{
    proof {
        reveal_strlit("query");
        reveal_strlit("mutation");
        reveal_strlit("subscription");
    }
    if !is_object_type(r, r.query_type.as_str()) {
        return Err(SchemaError::MissingRootType { which: String::from_str("query") });
    }
    match &r.mutation_type {
        Some(m) => {
            if !is_object_type(r, m.as_str()) {
                return Err(SchemaError::MissingRootType { which: String::from_str("mutation") });
            }
        },
        None => {},
    }
    match &r.subscription_type {
        Some(m) => {
            if !is_object_type(r, m.as_str()) {
                return Err(SchemaError::MissingRootType { which: String::from_str("subscription") });
            }
        },
        None => {},
    }
    let n = r.types.len();
    let mut i: usize = 0;
    while i < n
        invariant
            i <= n,
            n == r.types@.len(),
            roots_valid(*r),
            forall|k: int| 0 <= k < i ==> type_refs_resolve(*r, (#[trigger] r.types@[k]).1),
        decreases n - i,
    {
        let t = r.types.value_at(i);
        match unresolved_reference(r, t) {
            Some(x) => {
                assert(!type_refs_resolve(*r, r.types@[i as int].1));
                let e = SchemaError::UnknownType { name: x, referenced_from: String::from_str(t.name()) };
                assert(type_name_of(r.types@[i as int].1) == e->UnknownType_referenced_from@);
                assert(bad_reference(*r, r.types@[i as int].1, e->UnknownType_name@));
                return Err(e);
            },
            None => {},
        }
        i = i + 1;
    }
    let mut i: usize = 0;
    while i < n
        invariant
            i <= n,
            n == r.types@.len(),
            roots_valid(*r),
            refs_resolve(*r),
            forall|k: int| 0 <= k < i ==> type_implementations_valid(*r, (#[trigger] r.types@[k]).1),
        decreases n - i,
    {
        let t = r.types.value_at(i);
        match unimplemented_interface(r, t) {
            Some((object, interface)) => {
                assert(!type_implementations_valid(*r, r.types@[i as int].1));
                assert(broken_implementation(*r, r.types@[i as int].1, object@, interface@));
                return Err(
                    SchemaError::InvalidImplementation {
                        object,
                        interface,
                        reason: String::from_str("the object does not implement every field of the interface, or does not list it"),
                    },
                );
            },
            None => {},
        }
        i = i + 1;
    }
    let mut i: usize = 0;
    while i < n
        invariant
            i <= n,
            n == r.types@.len(),
            roots_valid(*r),
            refs_resolve(*r),
            implementations_valid(*r),
            forall|k: int| 0 <= k < i ==> type_members_valid(*r, (#[trigger] r.types@[k]).1),
        decreases n - i,
    {
        let t = r.types.value_at(i);
        match invalid_member(r, t) {
            Some(x) => {
                assert(!type_members_valid(*r, r.types@[i as int].1));
                let e = SchemaError::InvalidUnionMember {
                    union_name: String::from_str(t.name()),
                    member: x,
                    reason: String::from_str("the member is not an object"),
                };
                assert(type_name_of(r.types@[i as int].1) == e->InvalidUnionMember_union_name@);
                assert(bad_member(*r, r.types@[i as int].1, e->InvalidUnionMember_member@));
                return Err(e);
            },
            None => {},
        }
        i = i + 1;
    }
    Ok(())
}

/// In a schema that passes the checks, the roots and the output type of every
/// field of every registered type resolve to registered types, so a query
/// can be walked against it.
pub proof fn lemma_valid_schema_resolves(r: Registry)
    requires
        schema_valid(r),
    ensures
        registry_valid(r),
        forall|i: int, f: Seq<char>|
            0 <= i < r.types@.len() && (#[trigger] field_of(r.types@[i].1, f)) is Some ==> {
                let fd = field_of(r.types@[i].1, f)->0;
                &&& basic_type_of(r, fd.ty@) is Some
                &&& inputs_resolve(r, fd.args@)
            },
{
    assert forall|i: int, f: Seq<char>|
        0 <= i < r.types@.len() && (#[trigger] field_of(r.types@[i].1, f)) is Some implies {
            let fd = field_of(r.types@[i].1, f)->0;
            &&& basic_type_of(r, fd.ty@) is Some
            &&& inputs_resolve(r, fd.args@)
        } by {
        assert(type_refs_resolve(r, r.types@[i].1));
        match r.types@[i].1 {
            MetaType::Object { fields, .. } => {
                lemma_find_key_some(fields@, f);
                let j = find_key(fields@, f)->0;
                assert(fields@[j].1 == field_of(r.types@[i].1, f)->0);
            },
            MetaType::Interface { fields, .. } => {
                lemma_find_key_some(fields@, f);
                let j = find_key(fields@, f)->0;
                assert(fields@[j].1 == field_of(r.types@[i].1, f)->0);
            },
            _ => {},
        }
    }
}

/// Every object that a schema passing the checks lists as implementing an
/// interface has each field of that interface, with a compatible output type.
pub proof fn lemma_valid_schema_implementations(r: Registry, i: int, j: int, k: int)
    requires
        schema_valid(r),
        0 <= i < r.types@.len(),
        r.types@[i].1 is Object,
        0 <= j < r.types@[i].1->Object_implements@.len(),
    ensures
        ({
            let obj = r.types@[i].1;
            let iname = obj->Object_implements@[j]@;
            &&& lookup_type(r, iname) is Some
            &&& lookup_type(r, iname)->0 is Interface
            &&& (0 <= k < lookup_type(r, iname)->0->Interface_fields@.len() ==> {
                let ifield = lookup_type(r, iname)->0->Interface_fields@[k];
                &&& field_of(obj, ifield.0) is Some
                &&& text_compatible(r, field_of(obj, ifield.0)->0.ty@, ifield.1.ty@)
            })
        }),
{
    let obj = r.types@[i].1;
    assert(type_implementations_valid(r, obj));
    let iname = obj->Object_implements@[j]@;
    assert(implements_interface(r, obj->Object_fields@, iname));
    if 0 <= k < lookup_type(r, iname)->0->Interface_fields@.len() {
        let ifield = lookup_type(r, iname)->0->Interface_fields@[k];
        assert(match find_key(obj->Object_fields@, ifield.0) {
            Some(m) => text_compatible(r, obj->Object_fields@[m].1.ty@, ifield.1.ty@),
            None => false,
        });
    }
}

/// The names of the built-in scalars.
pub open spec fn builtin_scalar_names() -> Seq<Seq<char>> {
    seq!["Int"@, "Float"@, "String"@, "Boolean"@, "ID"@]
}

spec fn builtin_scalar_names_str() -> Seq<&'static str> {
    seq!["Int", "Float", "String", "Boolean", "ID"]
}

/// Collects the types of a schema and checks them when finished.
pub struct SchemaBuilder {
    registry: Registry,
    duplicate: Option<String>,
}

impl SchemaBuilder {
    /// The types registered so far, and the roots.
    pub closed spec fn pending(&self) -> Registry {
        self.registry
    }

    /// The first name registered twice, if any.
    pub closed spec fn duplicate_name(&self) -> Option<Seq<char>> {
        match self.duplicate {
            Some(d) => Some(d@),
            None => None,
        }
    }

    /// A schema with the given root operation types whose only types are the
    /// built-in scalars `Int`, `Float`, `String`, `Boolean` and `ID`, in that
    /// order.
    pub fn build(query: &str, mutation: Option<&str>, subscription: Option<&str>) -> (r: SchemaBuilder)
        ensures
            r.pending().types@.len() == 5,
            forall|i: int|
                0 <= i < 5 ==> {
                    &&& (#[trigger] r.pending().types@[i]).0 == builtin_scalar_names()[i]
                    &&& r.pending().types@[i].1 is Scalar
                },
            r.pending().query_type@ == query@,
            match mutation {
                Some(m) => r.pending().mutation_type is Some && r.pending().mutation_type->0@ == m@,
                None => r.pending().mutation_type is None,
            },
            match subscription {
                Some(m) => r.pending().subscription_type is Some && r.pending().subscription_type->0@ == m@,
                None => r.pending().subscription_type is None,
            },
            r.duplicate_name() is None,
    {
        let mut registry = Registry::new(query);
        registry.mutation_type = match mutation {
            Some(m) => Some(String::from_str(m)),
            None => None,
        };
        registry.subscription_type = match subscription {
            Some(m) => Some(String::from_str(m)),
            None => None,
        };
        proof {
            reveal_strlit("Int");
            reveal_strlit("Float");
            reveal_strlit("String");
            reveal_strlit("Boolean");
            reveal_strlit("ID");
        }
        let names = ["Int", "Float", "String", "Boolean", "ID"];
        let mut i: usize = 0;
        while i < 5
            invariant
                i <= 5,
                names@ == builtin_scalar_names_str(),
                registry.types@.len() == i,
                registry.query_type@ == query@,
                match mutation {
                    Some(m) => registry.mutation_type is Some && registry.mutation_type->0@ == m@,
                    None => registry.mutation_type is None,
                },
                match subscription {
                    Some(m) => registry.subscription_type is Some && registry.subscription_type->0@ == m@,
                    None => registry.subscription_type is None,
                },
                forall|k: int|
                    0 <= k < i ==> {
                        &&& (#[trigger] registry.types@[k]).0 == builtin_scalar_names()[k]
                        &&& registry.types@[k].1 is Scalar
                    },
            decreases 5 - i,
        {
            let t = MetaType::Scalar {
                name: String::from_str(names[i]),
                description: None,
                inaccessible: false,
                tags: Vec::new(),
            };
            proof {
                assert forall|k: int| 0 <= k < registry.types@.len() implies #[trigger] registry.types@[k].0
                    != builtin_scalar_names()[i as int] by {
                    reveal_strlit("Int");
                    reveal_strlit("Float");
                    reveal_strlit("String");
                    reveal_strlit("Boolean");
                    reveal_strlit("ID");
                    assert(builtin_scalar_names()[k].len() != builtin_scalar_names()[i as int].len());
                }
                lemma_find_key_none(registry.types@, builtin_scalar_names()[i as int]);
            }
            registry.insert_type(t);
            i = i + 1;
        }
        SchemaBuilder { registry, duplicate: None }
    }

    /// Registers a type. A second type of a name already registered is kept
    /// out, and the name is remembered for `finish` to report.
    pub fn register(self, t: MetaType) -> (r: SchemaBuilder)
        requires
            self.pending().types@.len() < usize::MAX,
        ensures
            r.pending().query_type == self.pending().query_type,
            r.pending().mutation_type == self.pending().mutation_type,
            r.pending().subscription_type == self.pending().subscription_type,
            find_key(self.pending().types@, type_name_of(t)) is None ==> {
                &&& r.pending().types@ == self.pending().types@.push((type_name_of(t), t))
                &&& r.duplicate_name() == self.duplicate_name()
            },
            find_key(self.pending().types@, type_name_of(t)) is Some ==> {
                &&& r.pending().types@ == self.pending().types@
                &&& r.duplicate_name() == if self.duplicate_name() is Some {
                    self.duplicate_name()
                } else {
                    Some(type_name_of(t))
                }
            },
    {
        let mut b = self;
        if b.registry.types.contains_key(t.name()) {
            if b.duplicate.is_none() {
                b.duplicate = Some(String::from_str(t.name()));
            }
        } else {
            b.registry.insert_type(t);
        }
        b
    }

    /// Registers an enum type, as `register` does.
    pub fn register_enum(self, e: Enum) -> (r: SchemaBuilder)
        requires
            self.pending().types@.len() < usize::MAX,
        ensures
            r.pending().query_type == self.pending().query_type,
            r.pending().mutation_type == self.pending().mutation_type,
            r.pending().subscription_type == self.pending().subscription_type,
            find_key(self.pending().types@, e.name@) is None ==> {
                &&& r.pending().types@.len() == self.pending().types@.len() + 1
                &&& r.pending().types@.drop_last() == self.pending().types@
                &&& r.pending().types@.last().0 == e.name@
                &&& crate::enum_type::registered_enum(e, r.pending().types@.last().1)
                &&& r.duplicate_name() == self.duplicate_name()
            },
            find_key(self.pending().types@, e.name@) is Some ==> {
                &&& r.pending().types@ == self.pending().types@
                &&& r.duplicate_name() == if self.duplicate_name() is Some {
                    self.duplicate_name()
                } else {
                    Some(e.name@)
                }
            },
    {
        let mut b = self;
        if b.registry.types.contains_key(e.name.as_str()) {
            if b.duplicate.is_none() {
                b.duplicate = Some(e.name.clone());
            }
        } else {
            let ghost before = b.registry.types@;
            let _ = e.register(&mut b.registry);
            proof {
                let i = find_key(b.registry.types@, e.name@)->0;
                let t = b.registry.types@[i].1;
                assert(b.registry.types@ == before.push((e.name@, t)));
                assert(b.registry.types@.drop_last() =~= before);
            }
        }
        b
    }

    /// Registers an object type, as `register` does.
    pub fn register_object<R>(self, o: Object<R>) -> (r: SchemaBuilder)
        requires
            self.pending().types@.len() < usize::MAX,
        ensures
            r.pending().query_type == self.pending().query_type,
            r.pending().mutation_type == self.pending().mutation_type,
            r.pending().subscription_type == self.pending().subscription_type,
            find_key(self.pending().types@, o.name@) is None ==> {
                &&& r.pending().types@.len() == self.pending().types@.len() + 1
                &&& r.pending().types@.drop_last() == self.pending().types@
                &&& r.pending().types@.last().0 == o.name@
                &&& registered_object(o, r.pending().types@.last().1)
                &&& r.duplicate_name() == self.duplicate_name()
            },
            find_key(self.pending().types@, o.name@) is Some ==> {
                &&& r.pending().types@ == self.pending().types@
                &&& r.duplicate_name() == if self.duplicate_name() is Some {
                    self.duplicate_name()
                } else {
                    Some(o.name@)
                }
            },
    {
        let mut b = self;
        if b.registry.types.contains_key(o.name.as_str()) {
            if b.duplicate.is_none() {
                b.duplicate = Some(o.name.clone());
            }
        } else {
            let ghost before = b.registry.types@;
            let _ = o.register(&mut b.registry);
            proof {
                let i = find_key(b.registry.types@, o.name@)->0;
                let t = b.registry.types@[i].1;
                assert(b.registry.types@ == before.push((o.name@, t)));
                assert(b.registry.types@.drop_last() =~= before);
            }
        }
        b
    }

    /// Checks the schema: a name registered twice gives `DuplicateType`;
    /// otherwise the registry is returned when it obeys every rule of
    /// `check_schema`, which names the first rule broken.
    pub fn finish(self) -> (r: Result<Registry, SchemaError>)
        ensures
            match self.duplicate_name() {
                Some(d) => r is Err && r->Err_0 is DuplicateType && r->Err_0->DuplicateType_name@ == d,
                None => {
                    &&& r is Ok <==> schema_valid(self.pending())
                    &&& r is Err ==> error_describes(self.pending(), r->Err_0)
                    &&& r is Ok ==> r->Ok_0 == self.pending()
                    &&& !roots_valid(self.pending()) ==> r is Err && r->Err_0 is MissingRootType
                    &&& roots_valid(self.pending()) && !refs_resolve(self.pending()) ==> r is Err
                        && r->Err_0 is UnknownType
                    &&& roots_valid(self.pending()) && refs_resolve(self.pending())
                        && !implementations_valid(self.pending()) ==> r is Err && r->Err_0 is InvalidImplementation
                    &&& roots_valid(self.pending()) && refs_resolve(self.pending()) && implementations_valid(
                        self.pending(),
                    ) && !unions_valid(self.pending()) ==> r is Err && r->Err_0 is InvalidUnionMember
                },
            },
    {
        match self.duplicate {
            Some(d) => Err(SchemaError::DuplicateType { name: d }),
            None => match check_schema(&self.registry) {
                Ok(()) => Ok(self.registry),
                Err(e) => Err(e),
            },
        }
    }
}

} // verus!
