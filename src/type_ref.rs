use vstd::prelude::*;

verus! {

/// The first character of a GraphQL name: `_` or an ASCII letter.
pub open spec fn is_name_start(c: char) -> bool {
    c == '_' || ('a' <= c && c <= 'z') || ('A' <= c && c <= 'Z')
}

/// A later character of a GraphQL name: `_`, an ASCII letter or a digit.
pub open spec fn is_name_continue(c: char) -> bool {
    is_name_start(c) || ('0' <= c && c <= '9')
}

/// A GraphQL name: `/[_A-Za-z][_0-9A-Za-z]*/`.
pub open spec fn valid_name(s: Seq<char>) -> bool {
    &&& s.len() > 0
    &&& is_name_start(s[0])
    &&& forall|i: int| 1 <= i < s.len() ==> #[trigger] is_name_continue(s[i])
}

/// The mathematical shape of a type reference.
pub enum TypeRefView {
    Named(Seq<char>),
    NonNull(Box<TypeRefView>),
    List(Box<TypeRefView>),
}

/// Every base name in the reference is a valid GraphQL name, and no
/// non-null modifier wraps another.
pub open spec fn well_named(t: TypeRefView) -> bool
    decreases t,
{
    match t {
        TypeRefView::Named(n) => valid_name(n),
        TypeRefView::NonNull(i) => !(*i is NonNull) && well_named(*i),
        TypeRefView::List(i) => well_named(*i),
    }
}

/// The base name under all modifiers.
pub open spec fn base_name(t: TypeRefView) -> Seq<char>
    decreases t,
{
    match t {
        TypeRefView::Named(n) => n,
        TypeRefView::NonNull(i) => base_name(*i),
        TypeRefView::List(i) => base_name(*i),
    }
}

/// The textual form of a type reference, as GraphQL writes it (`[Foo!]!`).
pub open spec fn format_type(t: TypeRefView) -> Seq<char>
    decreases t,
{
    match t {
        TypeRefView::Named(n) => n,
        TypeRefView::NonNull(i) => format_type(*i) + seq!['!'],
        TypeRefView::List(i) => seq!['['] + format_type(*i) + seq![']'],
    }
}

/// Reads a type reference back from its textual form; a doubled non-null
/// marker (`A!!`) is not one.
pub open spec fn parse_type(s: Seq<char>) -> Option<TypeRefView>
    decreases s.len(),
{
    if s.len() > 0 && s.last() == '!' {
        if s.len() >= 2 && s[s.len() - 2] == '!' {
            None
        } else {
            match parse_type(s.drop_last()) {
                Some(i) => Some(TypeRefView::NonNull(Box::new(i))),
                None => None,
            }
        }
    } else if s.len() >= 2 && s[0] == '[' && s.last() == ']' {
        match parse_type(s.subrange(1, s.len() - 1)) {
            Some(i) => Some(TypeRefView::List(Box::new(i))),
            None => None,
        }
    } else if valid_name(s) {
        Some(TypeRefView::Named(s))
    } else {
        None
    }
}

/// A formatted reference is never empty; its last character tells a
/// non-null reference and a list from a name.
pub proof fn lemma_format_shape(t: TypeRefView)
    requires
        well_named(t),
    ensures
        format_type(t).len() > 0,
        format_type(t).last() == '!' <==> t is NonNull,
        format_type(t).last() == ']' <==> t is List,
    decreases t,
{
    match t {
        TypeRefView::Named(n) => {
            assert(is_name_continue(n.last()) || n.len() == 1);
        },
        TypeRefView::NonNull(i) => {
            lemma_format_shape(*i);
        },
        TypeRefView::List(i) => {
            lemma_format_shape(*i);
        },
    }
}

/// Parsing the textual form of a well-named type reference gives it back.
pub proof fn lemma_parse_format(t: TypeRefView)
    requires
        well_named(t),
    ensures
        parse_type(format_type(t)) == Some(t),
    decreases t,
{
    lemma_format_shape(t);
    match t {
        TypeRefView::Named(n) => {
            assert(is_name_continue(n.last()) || n.len() == 1);
        },
        TypeRefView::NonNull(i) => {
            lemma_parse_format(*i);
            lemma_format_shape(*i);
            let s = format_type(t);
            assert(s[s.len() - 2] == format_type(*i).last());
            assert(s.drop_last() =~= format_type(*i));
        },
        TypeRefView::List(i) => {
            lemma_parse_format(*i);
            lemma_format_shape(*i);
            let s = format_type(t);
            assert(s.subrange(1, s.len() - 1) =~= format_type(*i));
        },
    }
}

/// A reference to a GraphQL type: a name, wrapped in any number of list and
/// non-null modifiers.
#[derive(Debug)]
pub enum TypeRef {
    Named(String),
    NonNull(Box<TypeRef>),
    List(Box<TypeRef>),
}

impl View for TypeRef {
    type V = TypeRefView;

    open spec fn view(&self) -> TypeRefView
        decreases self,
    {
        match self {
            TypeRef::Named(n) => TypeRefView::Named(n@),
            TypeRef::NonNull(i) => TypeRefView::NonNull(Box::new((**i).view())),
            TypeRef::List(i) => TypeRefView::List(Box::new((**i).view())),
        }
    }
}

impl Clone for TypeRef {
    fn clone(&self) -> (r: TypeRef)
        ensures
            r@ == self@,
        decreases self,
    {
        match self {
            TypeRef::Named(n) => TypeRef::Named(n.clone()),
            TypeRef::NonNull(i) => TypeRef::NonNull(Box::new((**i).clone())),
            TypeRef::List(i) => TypeRef::List(Box::new((**i).clone())),
        }
    }
}

impl TypeRef {
    /// A reference to the named type.
    pub fn named(name: &str) -> (r: TypeRef)
        ensures
            r@ == TypeRefView::Named(name@),
    {
        TypeRef::Named(String::from_str(name))
    }

    /// The non-null form of the named type (`Name!`).
    pub fn named_nn(name: &str) -> (r: TypeRef)
        ensures
            r@ == TypeRefView::NonNull(Box::new(TypeRefView::Named(name@))),
    {
        TypeRef::NonNull(Box::new(TypeRef::named(name)))
    }

    /// A list of the named type (`[Name]`).
    pub fn named_list(name: &str) -> (r: TypeRef)
        ensures
            r@ == TypeRefView::List(Box::new(TypeRefView::Named(name@))),
    {
        TypeRef::List(Box::new(TypeRef::named(name)))
    }

    /// Wraps this reference in a non-null modifier. A reference that is
    /// already non-null gives `A!!`, which no schema accepts.
    pub fn non_null(self) -> (r: TypeRef)
        ensures
            r@ == TypeRefView::NonNull(Box::new(self@)),
    {
        TypeRef::NonNull(Box::new(self))
    }

    /// Wraps this reference in a list modifier.
    pub fn list(self) -> (r: TypeRef)
        ensures
            r@ == TypeRefView::List(Box::new(self@)),
    {
        TypeRef::List(Box::new(self))
    }

    /// The base name under all modifiers.
    pub fn base_type(&self) -> (r: &str)
        ensures
            r@ == base_name(self@),
        decreases self,
    {
        match self {
            TypeRef::Named(n) => n.as_str(),
            TypeRef::NonNull(i) => i.base_type(),
            TypeRef::List(i) => i.base_type(),
        }
    }

    /// Whether this reference is wrapped in a non-null modifier.
    pub fn is_non_null(&self) -> (r: bool)
        ensures
            r == (self@ is NonNull),
    {
        match self {
            TypeRef::NonNull(_) => true,
            _ => false,
        }
    }

    /// The textual form (`[Foo!]!`).
    pub fn to_text(&self) -> (r: String)
        ensures
            r@ == format_type(self@),
        decreases self,
    {
        proof {
            reveal_strlit("!");
            reveal_strlit("[");
            reveal_strlit("]");
        }
        match self {
            TypeRef::Named(n) => n.clone(),
            TypeRef::NonNull(i) => {
                let mut s = i.to_text();
                s.append("!");
                s
            },
            TypeRef::List(i) => {
                let inner = i.to_text();
                let mut s = String::from_str("[");
                s.append(inner.as_str());
                s.append("]");
                s
            },
        }
    }

    /// Reads a type reference from its textual form; `None` when the text is
    /// not one.
    pub fn parse(s: &str) -> (r: Option<TypeRef>)
        ensures
            match parse_type(s@) {
                Some(t) => r is Some && r->0@ == t,
                None => r is None,
            },
        decreases s@.len(),
    {
        let n = s.unicode_len();
        if n > 0 && s.get_char(n - 1) == '!' {
            if n >= 2 && s.get_char(n - 2) == '!' {
                return None;
            }
            let inner = s.substring_char(0, n - 1);
            assert(inner@ =~= s@.drop_last());
            match TypeRef::parse(inner) {
                Some(i) => Some(TypeRef::NonNull(Box::new(i))),
                None => None,
            }
        } else if n >= 2 && s.get_char(0) == '[' && s.get_char(n - 1) == ']' {
            let inner = s.substring_char(1, n - 1);
            match TypeRef::parse(inner) {
                Some(i) => Some(TypeRef::List(Box::new(i))),
                None => None,
            }
        } else if is_valid_name(s) {
            Some(TypeRef::Named(String::from_str(s)))
        } else {
            None
        }
    }
}

/// Whether `s` is a GraphQL name.
pub fn is_valid_name(s: &str) -> (r: bool)
    ensures
        r == valid_name(s@),
{
    let n = s.unicode_len();
    if n == 0 {
        return false;
    }
    let c0 = s.get_char(0);
    if !(c0 == '_' || ('a' <= c0 && c0 <= 'z') || ('A' <= c0 && c0 <= 'Z')) {
        return false;
    }
    let mut i: usize = 1;
    while i < n
        invariant
            1 <= i <= n,
            n == s@.len(),
            forall|j: int| 1 <= j < i ==> #[trigger] is_name_continue(s@[j]),
        decreases n - i,
    {
        let c = s.get_char(i);
        if !(c == '_' || ('a' <= c && c <= 'z') || ('A' <= c && c <= 'Z') || ('0' <= c && c <= '9')) {
            assert(!is_name_continue(s@[i as int]));
            return false;
        }
        i = i + 1;
    }
    true
}

/// Formatting and parsing are inverse on every well-named type reference.
pub proof fn lemma_type_ref_round_trip(t: TypeRef)
    requires
        well_named(t@),
    ensures
        parse_type(format_type(t@)) == Some(t@),
{
    lemma_parse_format(t@);
}

} // verus!
