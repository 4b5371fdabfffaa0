use vstd::prelude::*;

use crate::query::{
    Definition, Directive, Document, Field, FragmentDefinition, FragmentSpread, InlineFragment,
    OperationDefinition, Pos, RuleError, Selection, SelectionSet, TypeCondition,
    VariableDefinition,
};
use crate::named_map::{
    find_key, insert_entry, lemma_insert_entry_find, lemma_insert_entry_other, NamedMap,
};
use crate::registry::{
    basic_type_of, field_of, in_registry, lemma_lookup_in_registry, lookup_type, registry_valid,
    type_name_of, MetaType, Registry,
};
use crate::value::Value;

verus! {

/// The position of the last fragment named `name` in `frags`.
pub open spec fn last_fragment<'a>(frags: Seq<&'a FragmentDefinition>, name: Seq<char>) -> Option<int>
    decreases frags.len(),
{
    if frags.len() == 0 {
        None
    } else if frags.last().name@ == name {
        Some(frags.len() - 1)
    } else {
        last_fragment(frags.drop_last(), name)
    }
}

pub proof fn lemma_last_fragment_some<'a>(frags: Seq<&'a FragmentDefinition>, name: Seq<char>)
    requires
        last_fragment(frags, name) is Some,
    ensures
        0 <= last_fragment(frags, name)->0 < frags.len(),
        frags[last_fragment(frags, name)->0].name@ == name,
    decreases frags.len(),
{
    if frags.last().name@ != name {
        lemma_last_fragment_some(frags.drop_last(), name);
    }
}

/// Looking a name up in the table gives the index of the last fragment of
/// that name.
pub open spec fn table_matches<'a>(t: Seq<(Seq<char>, usize)>, frags: Seq<&'a FragmentDefinition>) -> bool {
    forall|k: Seq<char>|
        match #[trigger] find_key(t, k) {
            Some(j) => last_fragment(frags, k) == Some(t[j].1 as int),
            None => last_fragment(frags, k) is None,
        }
}

proof fn lemma_table_push<'a>(
    t: Seq<(Seq<char>, usize)>,
    frags: Seq<&'a FragmentDefinition>,
    f: &'a FragmentDefinition,
    m: usize,
)
    requires
        table_matches(t, frags),
        m == frags.len(),
    ensures
        table_matches(insert_entry(t, f.name@, m), frags.push(f)),
{
    let t2 = insert_entry(t, f.name@, m);
    let f2 = frags.push(f);
    assert(f2.drop_last() =~= frags);
    assert forall|k: Seq<char>| match #[trigger] find_key(t2, k) {
        Some(j) => last_fragment(f2, k) == Some(t2[j].1 as int),
        None => last_fragment(f2, k) is None,
    } by {
        if k == f.name@ {
            lemma_insert_entry_find(t, k, m);
        } else {
            lemma_insert_entry_other(t, f.name@, m, k);
            assert(find_key(t, k) == find_key(t, k));
        }
    }
}

/// The fragment definitions of a document, in order.
pub open spec fn fragments_of<'a>(defs: Seq<Definition>) -> Seq<&'a FragmentDefinition>
    decreases defs.len(),
{
    if defs.len() == 0 {
        Seq::empty()
    } else {
        match defs.last() {
            Definition::Fragment(f) => fragments_of(defs.drop_last()).push(&f),
            _ => fragments_of(defs.drop_last()),
        }
    }
}

/// The state of a walk over a document: the registry, the errors reported so
/// far, the stack of schema types that the walk is in, and the document's
/// fragments.
pub struct VisitorContext<'a> {
    registry: &'a Registry,
    errors: Vec<RuleError>,
    type_stack: Vec<&'a MetaType>,
    fragments: Vec<&'a FragmentDefinition>,
    by_name: NamedMap<usize>,
    trace: Ghost<Seq<WalkEvent>>,
    clock: Ghost<nat>,
}

/// `new` is `old` with possibly more errors reported after the old ones.
pub open spec fn extends<'a>(old: VisitorContext<'a>, new: VisitorContext<'a>) -> bool {
    &&& new.registry() == old.registry()
    &&& new.stack() == old.stack()
    &&& new.fragment_list() == old.fragment_list()
    &&& new.fragment_table() == old.fragment_table()
    &&& old.error_list().len() <= new.error_list().len()
    &&& new.error_list().subrange(0, old.error_list().len() as int) == old.error_list()
}

pub proof fn lemma_extends_refl<'a>(a: VisitorContext<'a>)
    ensures
        extends(a, a),
{
    assert(a.error_list().subrange(0, a.error_list().len() as int) =~= a.error_list());
}

pub proof fn lemma_extends_trans<'a>(a: VisitorContext<'a>, b: VisitorContext<'a>, c: VisitorContext<'a>)
    requires
        extends(a, b),
        extends(b, c),
    ensures
        extends(a, c),
{
    assert(c.error_list().subrange(0, a.error_list().len() as int) =~= b.error_list().subrange(
        0,
        a.error_list().len() as int,
    ));
}

impl<'a> VisitorContext<'a> {
    /// The registry walked against.
    pub closed spec fn registry(&self) -> Registry {
        *self.registry
    }

    /// The errors reported so far, in order.
    pub closed spec fn error_list(&self) -> Seq<RuleError> {
        self.errors@
    }

    /// How many leaf visitors have been called.
    pub closed spec fn clock(&self) -> nat {
        self.clock@
    }

    fn tick(&mut self)
        ensures
            final(self).registry() == old(self).registry(),
            final(self).stack() == old(self).stack(),
            final(self).fragment_list() == old(self).fragment_list(),
            final(self).fragment_table() == old(self).fragment_table(),
            final(self).error_list() == old(self).error_list(),
            final(self).trace() == old(self).trace(),
            final(self).clock() == old(self).clock() + 1,
            extends(*old(self), *final(self)),
    {
        self.clock = Ghost(self.clock@ + 1);
        assert(self.error_list().subrange(0, old(self).error_list().len() as int) =~= old(self).error_list());
    }

    /// What the walk has done so far: each hook called, with the type stack
    /// it saw, and each error the walk reported itself, in order.
    pub closed spec fn trace(&self) -> Seq<WalkEvent> {
        self.trace@
    }

    /// The stack of schema types, innermost last.
    pub closed spec fn stack(&self) -> Seq<MetaType> {
        self.type_stack@.map_values(|t: &'a MetaType| *t)
    }

    /// The fragment definitions of the document, in order.
    pub closed spec fn fragment_list(&self) -> Seq<&'a FragmentDefinition> {
        self.fragments@
    }

    /// The table from fragment name to the index of its definition.
    pub closed spec fn fragment_table(&self) -> Seq<(Seq<char>, usize)> {
        self.by_name@
    }

    /// The table maps each fragment name to its last definition.
    pub closed spec fn wf(&self) -> bool {
        table_matches(self.by_name@, self.fragments@)
    }

    /// A context for walking `doc` against `registry`: no errors yet, an
    /// empty type stack, and the document's fragments.
    pub fn new(registry: &'a Registry, doc: &'a Document) -> (r: VisitorContext<'a>)
        ensures
            r.registry() == *registry,
            r.error_list().len() == 0,
            r.stack().len() == 0,
            r.trace().len() == 0,
            r.fragment_list() == fragments_of(doc.definitions@),
            r.wf(),
    {
        let mut fragments: Vec<&'a FragmentDefinition> = Vec::new();
        let mut by_name: NamedMap<usize> = NamedMap::new();
        let n = doc.definitions.len();
        let mut i: usize = 0;
        while i < n
            invariant
                i <= n,
                n == doc.definitions@.len(),
                fragments@ == fragments_of(doc.definitions@.take(i as int)),
                fragments@.len() <= i,
                table_matches(by_name@, fragments@),
                by_name@.len() <= fragments@.len(),
            decreases n - i,
        {
            assert(doc.definitions@.take(i + 1).drop_last() =~= doc.definitions@.take(i as int));
            match &doc.definitions[i] {
                Definition::Fragment(f) => {
                    let m = fragments.len();
                    let ghost t0 = by_name@;
                    let ghost f0 = fragments@;
                    by_name.insert(f.name.clone(), m);
                    fragments.push(f);
                    proof {
                        lemma_table_push(t0, f0, f, m);
                        crate::named_map::lemma_insert_entry_len(t0, f.name@, m);
                    }
                },
                _ => {},
            }
            assert(fragments@ =~= fragments_of(doc.definitions@.take(i + 1)));
            i = i + 1;
        }
        assert(doc.definitions@.take(n as int) =~= doc.definitions@);
        let r = VisitorContext {
            registry,
            errors: Vec::new(),
            type_stack: Vec::new(),
            fragments,
            by_name,
            trace: Ghost(Seq::empty()),
            clock: Ghost(0),
        };
        assert(r.stack() =~= Seq::<MetaType>::empty());
        r
    }

    /// The registry walked against.
    pub fn schema(&self) -> (r: &'a Registry)
        ensures
            *r == self.registry(),
    {
        self.registry
    }

    /// The errors reported so far, in order.
    pub fn errors(&self) -> (r: &Vec<RuleError>)
        ensures
            r@ == self.error_list(),
    {
        &self.errors
    }

    /// The errors reported, in order.
    pub fn into_errors(self) -> (r: Vec<RuleError>)
        ensures
            r@ == self.error_list(),
    {
        self.errors
    }

    /// Reports an error at the given positions.
    pub fn report_error(&mut self, locations: Vec<Pos>, msg: String)
        ensures
            final(self).registry() == old(self).registry(),
            final(self).stack() == old(self).stack(),
            final(self).fragment_list() == old(self).fragment_list(),
            final(self).fragment_table() == old(self).fragment_table(),
            final(self).error_list() == old(self).error_list().push(RuleError { locations, message: msg }),
            final(self).trace() == old(self).trace(),
            final(self).clock() == old(self).clock(),
    {
        self.errors.push(RuleError { locations, message: msg });
    }

    /// Reports the given errors, in order.
    pub fn append_errors(&mut self, errors: Vec<RuleError>)
        ensures
            final(self).registry() == old(self).registry(),
            final(self).stack() == old(self).stack(),
            final(self).fragment_list() == old(self).fragment_list(),
            final(self).fragment_table() == old(self).fragment_table(),
            final(self).error_list() == old(self).error_list() + errors@,
            final(self).trace() == old(self).trace(),
            final(self).clock() == old(self).clock(),
    {
        let mut errors = errors;
        self.errors.append(&mut errors);
    }

    /// The type enclosing the current one, if any.
    pub fn parent_type(&self) -> (r: Option<&'a MetaType>)
        ensures
            self.stack().len() >= 2 ==> r is Some && *r->0 == self.stack()[self.stack().len() - 2],
            self.stack().len() < 2 ==> r is None,
    {
        let n = self.type_stack.len();
        if n >= 2 {
            Some(self.type_stack[n - 2])
        } else {
            None
        }
    }

    /// The type the walk is in.
    pub fn current_type(&self) -> (r: &'a MetaType)
        requires
            self.stack().len() > 0,
        ensures
            *r == self.stack().last(),
    {
        self.type_stack[self.type_stack.len() - 1]
    }

    /// The index of the fragment named `name`; the last one where several
    /// share the name.
    fn fragment_index(&self, name: &str) -> (r: Option<usize>)
        requires
            self.wf(),
        ensures
            match last_fragment(self.fragment_list(), name@) {
                Some(i) => r is Some && r->0 as int == i,
                None => r is None,
            },
    {
        assert(table_matches(self.by_name@, self.fragments@));
        match self.by_name.get(name) {
            Some(i) => Some(*i),
            None => None,
        }
    }

    /// The number of fragment definitions.
    fn fragment_count(&self) -> (r: usize)
        ensures
            r == self.fragment_list().len(),
    {
        self.fragments.len()
    }

    /// The fragment definition at index `i`.
    fn fragment_at(&self, i: usize) -> (r: &'a FragmentDefinition)
        requires
            i < self.fragment_list().len(),
        ensures
            r == self.fragment_list()[i as int],
    {
        self.fragments[i]
    }

    fn push_type(&mut self, t: &'a MetaType)
        ensures
            final(self).registry() == old(self).registry(),
            final(self).stack() == old(self).stack().push(*t),
            final(self).fragment_list() == old(self).fragment_list(),
            final(self).fragment_table() == old(self).fragment_table(),
            final(self).error_list() == old(self).error_list(),
            final(self).trace() == old(self).trace(),
    {
        self.type_stack.push(t);
        assert(self.stack() =~= old(self).stack().push(*t));
    }

    fn pop_type(&mut self)
        requires
            old(self).stack().len() > 0,
        ensures
            final(self).registry() == old(self).registry(),
            final(self).stack() == old(self).stack().drop_last(),
            final(self).fragment_list() == old(self).fragment_list(),
            final(self).fragment_table() == old(self).fragment_table(),
            final(self).error_list() == old(self).error_list(),
            final(self).trace() == old(self).trace(),
    {
        self.type_stack.pop();
        assert(self.stack() =~= old(self).stack().drop_last());
    }

    fn record(&mut self, ev: Ghost<WalkEvent>)
        ensures
            final(self).registry() == old(self).registry(),
            final(self).stack() == old(self).stack(),
            final(self).fragment_list() == old(self).fragment_list(),
            final(self).fragment_table() == old(self).fragment_table(),
            final(self).error_list() == old(self).error_list(),
            final(self).trace() == old(self).trace().push(ev@),
            extends(*old(self), *final(self)),
            ev@ is Hook ==> hooks_of(final(self).trace()) == hooks_of(old(self).trace()).push(ev@),
    {
        self.trace = Ghost(self.trace@.push(ev@));
        assert(self.trace@.drop_last() =~= old(self).trace@);
        assert(self.error_list().subrange(0, old(self).error_list().len() as int) =~= old(self).error_list());
    }

    fn push_error(&mut self, e: RuleError)
        ensures
            final(self).registry() == old(self).registry(),
            final(self).stack() == old(self).stack(),
            final(self).fragment_list() == old(self).fragment_list(),
            final(self).fragment_table() == old(self).fragment_table(),
            final(self).error_list() == old(self).error_list().push(e),
            final(self).trace() == old(self).trace().push(WalkEvent::Error(error_view(e))),
            hooks_of(final(self).trace()) == hooks_of(old(self).trace()),
    {
        self.errors.push(e);
        self.trace = Ghost(self.trace@.push(WalkEvent::Error(error_view(e))));
        assert(self.trace@.drop_last() =~= old(self).trace@);
    }

    /// Whether the document defines a fragment named `name`.
    pub fn is_known_fragment(&self, name: &str) -> (r: bool)
        requires
            self.wf(),
        ensures
            r == last_fragment(self.fragment_list(), name@) is Some,
    {
        self.fragment_index(name).is_some()
    }

    /// The fragment named `name`; the last one where several share the name.
    pub fn fragment(&self, name: &str) -> (r: Option<&'a FragmentDefinition>)
        requires
            self.wf(),
        ensures
            match last_fragment(self.fragment_list(), name@) {
                Some(i) => r is Some && r->0 == self.fragment_list()[i],
                None => r is None,
            },
    {
        proof {
            if last_fragment(self.fragment_list(), name@) is Some {
                lemma_last_fragment_some(self.fragment_list(), name@);
            }
        }
        match self.fragment_index(name) {
            Some(i) => {
                assert(i as int == last_fragment(self.fragment_list(), name@)->0);
                assert(self.fragments@[i as int] == self.fragment_list()[i as int]);
                Some(self.fragments[i])
            },
            None => None,
        }
    }
}

/// The hooks of one validation rule, called on each node of a document
/// during a walk. Every hook may report errors, and leaves the rest of the
/// context as it found it. Each hook does nothing unless overridden. A rule
/// joins a walk wrapped in a `RuleVisitor`.
pub trait Rule<'a> {
    /// Whether the hooks report no errors; a rule that overrides a hook to
    /// report errors leaves this false.
    open spec fn quiet(&self) -> bool {
        false
    }

    fn enter_document(&mut self, ctx: &mut VisitorContext<'a>, doc: &'a Document)
        ensures
            extends(*old(ctx), *final(ctx)),
            final(ctx).trace() == old(ctx).trace(),
            old(self).quiet() ==> final(self).quiet() && final(ctx).error_list() == old(ctx).error_list(),
            final(ctx).clock() == old(ctx).clock(),
    {
        proof {
            lemma_extends_refl(*ctx);
        }
    }

    fn exit_document(&mut self, ctx: &mut VisitorContext<'a>, doc: &'a Document)
        ensures
            extends(*old(ctx), *final(ctx)),
            final(ctx).trace() == old(ctx).trace(),
            old(self).quiet() ==> final(self).quiet() && final(ctx).error_list() == old(ctx).error_list(),
            final(ctx).clock() == old(ctx).clock(),
    {
        proof {
            lemma_extends_refl(*ctx);
        }
    }

    fn enter_operation_definition(&mut self, ctx: &mut VisitorContext<'a>, operation_definition: &'a OperationDefinition)
        ensures
            extends(*old(ctx), *final(ctx)),
            final(ctx).trace() == old(ctx).trace(),
            old(self).quiet() ==> final(self).quiet() && final(ctx).error_list() == old(ctx).error_list(),
            final(ctx).clock() == old(ctx).clock(),
    {
        proof {
            lemma_extends_refl(*ctx);
        }
    }

    fn exit_operation_definition(&mut self, ctx: &mut VisitorContext<'a>, operation_definition: &'a OperationDefinition)
        ensures
            extends(*old(ctx), *final(ctx)),
            final(ctx).trace() == old(ctx).trace(),
            old(self).quiet() ==> final(self).quiet() && final(ctx).error_list() == old(ctx).error_list(),
            final(ctx).clock() == old(ctx).clock(),
    {
        proof {
            lemma_extends_refl(*ctx);
        }
    }

    fn enter_fragment_definition(&mut self, ctx: &mut VisitorContext<'a>, fragment_definition: &'a FragmentDefinition)
        ensures
            extends(*old(ctx), *final(ctx)),
            final(ctx).trace() == old(ctx).trace(),
            old(self).quiet() ==> final(self).quiet() && final(ctx).error_list() == old(ctx).error_list(),
            final(ctx).clock() == old(ctx).clock(),
    {
        proof {
            lemma_extends_refl(*ctx);
        }
    }

    fn exit_fragment_definition(&mut self, ctx: &mut VisitorContext<'a>, fragment_definition: &'a FragmentDefinition)
        ensures
            extends(*old(ctx), *final(ctx)),
            final(ctx).trace() == old(ctx).trace(),
            old(self).quiet() ==> final(self).quiet() && final(ctx).error_list() == old(ctx).error_list(),
            final(ctx).clock() == old(ctx).clock(),
    {
        proof {
            lemma_extends_refl(*ctx);
        }
    }

    fn enter_variable_definition(&mut self, ctx: &mut VisitorContext<'a>, variable_definition: &'a VariableDefinition)
        ensures
            extends(*old(ctx), *final(ctx)),
            final(ctx).trace() == old(ctx).trace(),
            old(self).quiet() ==> final(self).quiet() && final(ctx).error_list() == old(ctx).error_list(),
            final(ctx).clock() == old(ctx).clock(),
    {
        proof {
            lemma_extends_refl(*ctx);
        }
    }

    fn exit_variable_definition(&mut self, ctx: &mut VisitorContext<'a>, variable_definition: &'a VariableDefinition)
        ensures
            extends(*old(ctx), *final(ctx)),
            final(ctx).trace() == old(ctx).trace(),
            old(self).quiet() ==> final(self).quiet() && final(ctx).error_list() == old(ctx).error_list(),
            final(ctx).clock() == old(ctx).clock(),
    {
        proof {
            lemma_extends_refl(*ctx);
        }
    }

    fn enter_directive(&mut self, ctx: &mut VisitorContext<'a>, directive: &'a Directive)
        ensures
            extends(*old(ctx), *final(ctx)),
            final(ctx).trace() == old(ctx).trace(),
            old(self).quiet() ==> final(self).quiet() && final(ctx).error_list() == old(ctx).error_list(),
            final(ctx).clock() == old(ctx).clock(),
    {
        proof {
            lemma_extends_refl(*ctx);
        }
    }

    fn exit_directive(&mut self, ctx: &mut VisitorContext<'a>, directive: &'a Directive)
        ensures
            extends(*old(ctx), *final(ctx)),
            final(ctx).trace() == old(ctx).trace(),
            old(self).quiet() ==> final(self).quiet() && final(ctx).error_list() == old(ctx).error_list(),
            final(ctx).clock() == old(ctx).clock(),
    {
        proof {
            lemma_extends_refl(*ctx);
        }
    }

    fn enter_argument(&mut self, ctx: &mut VisitorContext<'a>, pos: Pos, name: &'a str, value: &'a Value)
        ensures
            extends(*old(ctx), *final(ctx)),
            final(ctx).trace() == old(ctx).trace(),
            old(self).quiet() ==> final(self).quiet() && final(ctx).error_list() == old(ctx).error_list(),
            final(ctx).clock() == old(ctx).clock(),
    {
        proof {
            lemma_extends_refl(*ctx);
        }
    }

    fn exit_argument(&mut self, ctx: &mut VisitorContext<'a>, pos: Pos, name: &'a str, value: &'a Value)
        ensures
            extends(*old(ctx), *final(ctx)),
            final(ctx).trace() == old(ctx).trace(),
            old(self).quiet() ==> final(self).quiet() && final(ctx).error_list() == old(ctx).error_list(),
            final(ctx).clock() == old(ctx).clock(),
    {
        proof {
            lemma_extends_refl(*ctx);
        }
    }

    fn enter_selection_set(&mut self, ctx: &mut VisitorContext<'a>, selection_set: &'a SelectionSet)
        ensures
            extends(*old(ctx), *final(ctx)),
            final(ctx).trace() == old(ctx).trace(),
            old(self).quiet() ==> final(self).quiet() && final(ctx).error_list() == old(ctx).error_list(),
            final(ctx).clock() == old(ctx).clock(),
    {
        proof {
            lemma_extends_refl(*ctx);
        }
    }

    fn exit_selection_set(&mut self, ctx: &mut VisitorContext<'a>, selection_set: &'a SelectionSet)
        ensures
            extends(*old(ctx), *final(ctx)),
            final(ctx).trace() == old(ctx).trace(),
            old(self).quiet() ==> final(self).quiet() && final(ctx).error_list() == old(ctx).error_list(),
            final(ctx).clock() == old(ctx).clock(),
    {
        proof {
            lemma_extends_refl(*ctx);
        }
    }

    fn enter_selection(&mut self, ctx: &mut VisitorContext<'a>, selection: &'a Selection)
        ensures
            extends(*old(ctx), *final(ctx)),
            final(ctx).trace() == old(ctx).trace(),
            old(self).quiet() ==> final(self).quiet() && final(ctx).error_list() == old(ctx).error_list(),
            final(ctx).clock() == old(ctx).clock(),
    {
        proof {
            lemma_extends_refl(*ctx);
        }
    }

    fn exit_selection(&mut self, ctx: &mut VisitorContext<'a>, selection: &'a Selection)
        ensures
            extends(*old(ctx), *final(ctx)),
            final(ctx).trace() == old(ctx).trace(),
            old(self).quiet() ==> final(self).quiet() && final(ctx).error_list() == old(ctx).error_list(),
            final(ctx).clock() == old(ctx).clock(),
    {
        proof {
            lemma_extends_refl(*ctx);
        }
    }

    fn enter_field(&mut self, ctx: &mut VisitorContext<'a>, field: &'a Field)
        ensures
            extends(*old(ctx), *final(ctx)),
            final(ctx).trace() == old(ctx).trace(),
            old(self).quiet() ==> final(self).quiet() && final(ctx).error_list() == old(ctx).error_list(),
            final(ctx).clock() == old(ctx).clock(),
    {
        proof {
            lemma_extends_refl(*ctx);
        }
    }

    fn exit_field(&mut self, ctx: &mut VisitorContext<'a>, field: &'a Field)
        ensures
            extends(*old(ctx), *final(ctx)),
            final(ctx).trace() == old(ctx).trace(),
            old(self).quiet() ==> final(self).quiet() && final(ctx).error_list() == old(ctx).error_list(),
            final(ctx).clock() == old(ctx).clock(),
    {
        proof {
            lemma_extends_refl(*ctx);
        }
    }

    fn enter_fragment_spread(&mut self, ctx: &mut VisitorContext<'a>, fragment_spread: &'a FragmentSpread)
        ensures
            extends(*old(ctx), *final(ctx)),
            final(ctx).trace() == old(ctx).trace(),
            old(self).quiet() ==> final(self).quiet() && final(ctx).error_list() == old(ctx).error_list(),
            final(ctx).clock() == old(ctx).clock(),
    {
        proof {
            lemma_extends_refl(*ctx);
        }
    }

    fn exit_fragment_spread(&mut self, ctx: &mut VisitorContext<'a>, fragment_spread: &'a FragmentSpread)
        ensures
            extends(*old(ctx), *final(ctx)),
            final(ctx).trace() == old(ctx).trace(),
            old(self).quiet() ==> final(self).quiet() && final(ctx).error_list() == old(ctx).error_list(),
            final(ctx).clock() == old(ctx).clock(),
    {
        proof {
            lemma_extends_refl(*ctx);
        }
    }

    fn enter_inline_fragment(&mut self, ctx: &mut VisitorContext<'a>, inline_fragment: &'a InlineFragment)
        ensures
            extends(*old(ctx), *final(ctx)),
            final(ctx).trace() == old(ctx).trace(),
            old(self).quiet() ==> final(self).quiet() && final(ctx).error_list() == old(ctx).error_list(),
            final(ctx).clock() == old(ctx).clock(),
    {
        proof {
            lemma_extends_refl(*ctx);
        }
    }

    fn exit_inline_fragment(&mut self, ctx: &mut VisitorContext<'a>, inline_fragment: &'a InlineFragment)
        ensures
            extends(*old(ctx), *final(ctx)),
            final(ctx).trace() == old(ctx).trace(),
            old(self).quiet() ==> final(self).quiet() && final(ctx).error_list() == old(ctx).error_list(),
            final(ctx).clock() == old(ctx).clock(),
    {
        proof {
            lemma_extends_refl(*ctx);
        }
    }
}

/// A chain of visitors as the walk sees it. Every visitor logs each hook call
/// it receives: the end of the node, the node, and the type stack at the
/// call, with the time of the call on the context's clock. Each leaf of a
/// chain advances the clock by one when called, so a chain's `width` is its
/// number of leaves. Where the visitor is `synced`, every hook appends
/// exactly its own entry.
pub trait Visitor<'a> {
    /// Whether the hooks report no errors.
    spec fn quiet(&self) -> bool;

    /// The hook calls this visitor has seen, in order.
    spec fn log(&self) -> Seq<WalkEvent>;

    /// The clock time at each logged call.
    spec fn times(&self) -> Seq<nat>;

    /// How far one hook call advances the clock.
    spec fn width(&self) -> nat;

    /// Whether every part of the visitor has seen the same calls, each part
    /// after the parts in front of it.
    spec fn synced(&self) -> bool;

    fn enter_document(&mut self, ctx: &mut VisitorContext<'a>, doc: &'a Document)
        ensures
            extends(*old(ctx), *final(ctx)),
            final(ctx).trace() == old(ctx).trace(),
            old(self).quiet() ==> final(self).quiet() && final(ctx).error_list() == old(ctx).error_list(),
            final(self).width() == old(self).width(),
            final(ctx).clock() == old(ctx).clock() + old(self).width(),
            old(self).synced() ==> {
                &&& final(self).synced()
                &&& final(self).log() == old(self).log().push(WalkEvent::Hook(HookEnd::Enter, HookNode::Document(*doc), old(ctx).stack()))
                &&& final(self).times() == old(self).times().push(old(ctx).clock())
            },
    ;

    fn exit_document(&mut self, ctx: &mut VisitorContext<'a>, doc: &'a Document)
        ensures
            extends(*old(ctx), *final(ctx)),
            final(ctx).trace() == old(ctx).trace(),
            old(self).quiet() ==> final(self).quiet() && final(ctx).error_list() == old(ctx).error_list(),
            final(self).width() == old(self).width(),
            final(ctx).clock() == old(ctx).clock() + old(self).width(),
            old(self).synced() ==> {
                &&& final(self).synced()
                &&& final(self).log() == old(self).log().push(WalkEvent::Hook(HookEnd::Exit, HookNode::Document(*doc), old(ctx).stack()))
                &&& final(self).times() == old(self).times().push(old(ctx).clock())
            },
    ;

    fn enter_operation_definition(&mut self, ctx: &mut VisitorContext<'a>, operation_definition: &'a OperationDefinition)
        ensures
            extends(*old(ctx), *final(ctx)),
            final(ctx).trace() == old(ctx).trace(),
            old(self).quiet() ==> final(self).quiet() && final(ctx).error_list() == old(ctx).error_list(),
            final(self).width() == old(self).width(),
            final(ctx).clock() == old(ctx).clock() + old(self).width(),
            old(self).synced() ==> {
                &&& final(self).synced()
                &&& final(self).log() == old(self).log().push(WalkEvent::Hook(HookEnd::Enter, HookNode::OperationDefinition(*operation_definition), old(ctx).stack()))
                &&& final(self).times() == old(self).times().push(old(ctx).clock())
            },
    ;

    fn exit_operation_definition(&mut self, ctx: &mut VisitorContext<'a>, operation_definition: &'a OperationDefinition)
        ensures
            extends(*old(ctx), *final(ctx)),
            final(ctx).trace() == old(ctx).trace(),
            old(self).quiet() ==> final(self).quiet() && final(ctx).error_list() == old(ctx).error_list(),
            final(self).width() == old(self).width(),
            final(ctx).clock() == old(ctx).clock() + old(self).width(),
            old(self).synced() ==> {
                &&& final(self).synced()
                &&& final(self).log() == old(self).log().push(WalkEvent::Hook(HookEnd::Exit, HookNode::OperationDefinition(*operation_definition), old(ctx).stack()))
                &&& final(self).times() == old(self).times().push(old(ctx).clock())
            },
    ;

    fn enter_fragment_definition(&mut self, ctx: &mut VisitorContext<'a>, fragment_definition: &'a FragmentDefinition)
        ensures
            extends(*old(ctx), *final(ctx)),
            final(ctx).trace() == old(ctx).trace(),
            old(self).quiet() ==> final(self).quiet() && final(ctx).error_list() == old(ctx).error_list(),
            final(self).width() == old(self).width(),
            final(ctx).clock() == old(ctx).clock() + old(self).width(),
            old(self).synced() ==> {
                &&& final(self).synced()
                &&& final(self).log() == old(self).log().push(WalkEvent::Hook(HookEnd::Enter, HookNode::FragmentDefinition(*fragment_definition), old(ctx).stack()))
                &&& final(self).times() == old(self).times().push(old(ctx).clock())
            },
    ;

    fn exit_fragment_definition(&mut self, ctx: &mut VisitorContext<'a>, fragment_definition: &'a FragmentDefinition)
        ensures
            extends(*old(ctx), *final(ctx)),
            final(ctx).trace() == old(ctx).trace(),
            old(self).quiet() ==> final(self).quiet() && final(ctx).error_list() == old(ctx).error_list(),
            final(self).width() == old(self).width(),
            final(ctx).clock() == old(ctx).clock() + old(self).width(),
            old(self).synced() ==> {
                &&& final(self).synced()
                &&& final(self).log() == old(self).log().push(WalkEvent::Hook(HookEnd::Exit, HookNode::FragmentDefinition(*fragment_definition), old(ctx).stack()))
                &&& final(self).times() == old(self).times().push(old(ctx).clock())
            },
    ;

    fn enter_variable_definition(&mut self, ctx: &mut VisitorContext<'a>, variable_definition: &'a VariableDefinition)
        ensures
            extends(*old(ctx), *final(ctx)),
            final(ctx).trace() == old(ctx).trace(),
            old(self).quiet() ==> final(self).quiet() && final(ctx).error_list() == old(ctx).error_list(),
            final(self).width() == old(self).width(),
            final(ctx).clock() == old(ctx).clock() + old(self).width(),
            old(self).synced() ==> {
                &&& final(self).synced()
                &&& final(self).log() == old(self).log().push(WalkEvent::Hook(HookEnd::Enter, HookNode::VariableDefinition(*variable_definition), old(ctx).stack()))
                &&& final(self).times() == old(self).times().push(old(ctx).clock())
            },
    ;

    fn exit_variable_definition(&mut self, ctx: &mut VisitorContext<'a>, variable_definition: &'a VariableDefinition)
        ensures
            extends(*old(ctx), *final(ctx)),
            final(ctx).trace() == old(ctx).trace(),
            old(self).quiet() ==> final(self).quiet() && final(ctx).error_list() == old(ctx).error_list(),
            final(self).width() == old(self).width(),
            final(ctx).clock() == old(ctx).clock() + old(self).width(),
            old(self).synced() ==> {
                &&& final(self).synced()
                &&& final(self).log() == old(self).log().push(WalkEvent::Hook(HookEnd::Exit, HookNode::VariableDefinition(*variable_definition), old(ctx).stack()))
                &&& final(self).times() == old(self).times().push(old(ctx).clock())
            },
    ;

    fn enter_directive(&mut self, ctx: &mut VisitorContext<'a>, directive: &'a Directive)
        ensures
            extends(*old(ctx), *final(ctx)),
            final(ctx).trace() == old(ctx).trace(),
            old(self).quiet() ==> final(self).quiet() && final(ctx).error_list() == old(ctx).error_list(),
            final(self).width() == old(self).width(),
            final(ctx).clock() == old(ctx).clock() + old(self).width(),
            old(self).synced() ==> {
                &&& final(self).synced()
                &&& final(self).log() == old(self).log().push(WalkEvent::Hook(HookEnd::Enter, HookNode::Directive(*directive), old(ctx).stack()))
                &&& final(self).times() == old(self).times().push(old(ctx).clock())
            },
    ;

    fn exit_directive(&mut self, ctx: &mut VisitorContext<'a>, directive: &'a Directive)
        ensures
            extends(*old(ctx), *final(ctx)),
            final(ctx).trace() == old(ctx).trace(),
            old(self).quiet() ==> final(self).quiet() && final(ctx).error_list() == old(ctx).error_list(),
            final(self).width() == old(self).width(),
            final(ctx).clock() == old(ctx).clock() + old(self).width(),
            old(self).synced() ==> {
                &&& final(self).synced()
                &&& final(self).log() == old(self).log().push(WalkEvent::Hook(HookEnd::Exit, HookNode::Directive(*directive), old(ctx).stack()))
                &&& final(self).times() == old(self).times().push(old(ctx).clock())
            },
    ;

    fn enter_argument(&mut self, ctx: &mut VisitorContext<'a>, pos: Pos, name: &'a str, value: &'a Value)
        ensures
            extends(*old(ctx), *final(ctx)),
            final(ctx).trace() == old(ctx).trace(),
            old(self).quiet() ==> final(self).quiet() && final(ctx).error_list() == old(ctx).error_list(),
            final(self).width() == old(self).width(),
            final(ctx).clock() == old(ctx).clock() + old(self).width(),
            old(self).synced() ==> {
                &&& final(self).synced()
                &&& final(self).log() == old(self).log().push(WalkEvent::Hook(HookEnd::Enter, HookNode::Argument(pos, name@, *value), old(ctx).stack()))
                &&& final(self).times() == old(self).times().push(old(ctx).clock())
            },
    ;

    fn exit_argument(&mut self, ctx: &mut VisitorContext<'a>, pos: Pos, name: &'a str, value: &'a Value)
        ensures
            extends(*old(ctx), *final(ctx)),
            final(ctx).trace() == old(ctx).trace(),
            old(self).quiet() ==> final(self).quiet() && final(ctx).error_list() == old(ctx).error_list(),
            final(self).width() == old(self).width(),
            final(ctx).clock() == old(ctx).clock() + old(self).width(),
            old(self).synced() ==> {
                &&& final(self).synced()
                &&& final(self).log() == old(self).log().push(WalkEvent::Hook(HookEnd::Exit, HookNode::Argument(pos, name@, *value), old(ctx).stack()))
                &&& final(self).times() == old(self).times().push(old(ctx).clock())
            },
    ;

    fn enter_selection_set(&mut self, ctx: &mut VisitorContext<'a>, selection_set: &'a SelectionSet)
        ensures
            extends(*old(ctx), *final(ctx)),
            final(ctx).trace() == old(ctx).trace(),
            old(self).quiet() ==> final(self).quiet() && final(ctx).error_list() == old(ctx).error_list(),
            final(self).width() == old(self).width(),
            final(ctx).clock() == old(ctx).clock() + old(self).width(),
            old(self).synced() ==> {
                &&& final(self).synced()
                &&& final(self).log() == old(self).log().push(WalkEvent::Hook(HookEnd::Enter, HookNode::SelectionSet(*selection_set), old(ctx).stack()))
                &&& final(self).times() == old(self).times().push(old(ctx).clock())
            },
    ;

    fn exit_selection_set(&mut self, ctx: &mut VisitorContext<'a>, selection_set: &'a SelectionSet)
        ensures
            extends(*old(ctx), *final(ctx)),
            final(ctx).trace() == old(ctx).trace(),
            old(self).quiet() ==> final(self).quiet() && final(ctx).error_list() == old(ctx).error_list(),
            final(self).width() == old(self).width(),
            final(ctx).clock() == old(ctx).clock() + old(self).width(),
            old(self).synced() ==> {
                &&& final(self).synced()
                &&& final(self).log() == old(self).log().push(WalkEvent::Hook(HookEnd::Exit, HookNode::SelectionSet(*selection_set), old(ctx).stack()))
                &&& final(self).times() == old(self).times().push(old(ctx).clock())
            },
    ;

    fn enter_selection(&mut self, ctx: &mut VisitorContext<'a>, selection: &'a Selection)
        ensures
            extends(*old(ctx), *final(ctx)),
            final(ctx).trace() == old(ctx).trace(),
            old(self).quiet() ==> final(self).quiet() && final(ctx).error_list() == old(ctx).error_list(),
            final(self).width() == old(self).width(),
            final(ctx).clock() == old(ctx).clock() + old(self).width(),
            old(self).synced() ==> {
                &&& final(self).synced()
                &&& final(self).log() == old(self).log().push(WalkEvent::Hook(HookEnd::Enter, HookNode::Selection(*selection), old(ctx).stack()))
                &&& final(self).times() == old(self).times().push(old(ctx).clock())
            },
    ;

    fn exit_selection(&mut self, ctx: &mut VisitorContext<'a>, selection: &'a Selection)
        ensures
            extends(*old(ctx), *final(ctx)),
            final(ctx).trace() == old(ctx).trace(),
            old(self).quiet() ==> final(self).quiet() && final(ctx).error_list() == old(ctx).error_list(),
            final(self).width() == old(self).width(),
            final(ctx).clock() == old(ctx).clock() + old(self).width(),
            old(self).synced() ==> {
                &&& final(self).synced()
                &&& final(self).log() == old(self).log().push(WalkEvent::Hook(HookEnd::Exit, HookNode::Selection(*selection), old(ctx).stack()))
                &&& final(self).times() == old(self).times().push(old(ctx).clock())
            },
    ;

    fn enter_field(&mut self, ctx: &mut VisitorContext<'a>, field: &'a Field)
        ensures
            extends(*old(ctx), *final(ctx)),
            final(ctx).trace() == old(ctx).trace(),
            old(self).quiet() ==> final(self).quiet() && final(ctx).error_list() == old(ctx).error_list(),
            final(self).width() == old(self).width(),
            final(ctx).clock() == old(ctx).clock() + old(self).width(),
            old(self).synced() ==> {
                &&& final(self).synced()
                &&& final(self).log() == old(self).log().push(WalkEvent::Hook(HookEnd::Enter, HookNode::Field(*field), old(ctx).stack()))
                &&& final(self).times() == old(self).times().push(old(ctx).clock())
            },
    ;

    fn exit_field(&mut self, ctx: &mut VisitorContext<'a>, field: &'a Field)
        ensures
            extends(*old(ctx), *final(ctx)),
            final(ctx).trace() == old(ctx).trace(),
            old(self).quiet() ==> final(self).quiet() && final(ctx).error_list() == old(ctx).error_list(),
            final(self).width() == old(self).width(),
            final(ctx).clock() == old(ctx).clock() + old(self).width(),
            old(self).synced() ==> {
                &&& final(self).synced()
                &&& final(self).log() == old(self).log().push(WalkEvent::Hook(HookEnd::Exit, HookNode::Field(*field), old(ctx).stack()))
                &&& final(self).times() == old(self).times().push(old(ctx).clock())
            },
    ;

    fn enter_fragment_spread(&mut self, ctx: &mut VisitorContext<'a>, fragment_spread: &'a FragmentSpread)
        ensures
            extends(*old(ctx), *final(ctx)),
            final(ctx).trace() == old(ctx).trace(),
            old(self).quiet() ==> final(self).quiet() && final(ctx).error_list() == old(ctx).error_list(),
            final(self).width() == old(self).width(),
            final(ctx).clock() == old(ctx).clock() + old(self).width(),
            old(self).synced() ==> {
                &&& final(self).synced()
                &&& final(self).log() == old(self).log().push(WalkEvent::Hook(HookEnd::Enter, HookNode::FragmentSpread(*fragment_spread), old(ctx).stack()))
                &&& final(self).times() == old(self).times().push(old(ctx).clock())
            },
    ;

    fn exit_fragment_spread(&mut self, ctx: &mut VisitorContext<'a>, fragment_spread: &'a FragmentSpread)
        ensures
            extends(*old(ctx), *final(ctx)),
            final(ctx).trace() == old(ctx).trace(),
            old(self).quiet() ==> final(self).quiet() && final(ctx).error_list() == old(ctx).error_list(),
            final(self).width() == old(self).width(),
            final(ctx).clock() == old(ctx).clock() + old(self).width(),
            old(self).synced() ==> {
                &&& final(self).synced()
                &&& final(self).log() == old(self).log().push(WalkEvent::Hook(HookEnd::Exit, HookNode::FragmentSpread(*fragment_spread), old(ctx).stack()))
                &&& final(self).times() == old(self).times().push(old(ctx).clock())
            },
    ;

    fn enter_inline_fragment(&mut self, ctx: &mut VisitorContext<'a>, inline_fragment: &'a InlineFragment)
        ensures
            extends(*old(ctx), *final(ctx)),
            final(ctx).trace() == old(ctx).trace(),
            old(self).quiet() ==> final(self).quiet() && final(ctx).error_list() == old(ctx).error_list(),
            final(self).width() == old(self).width(),
            final(ctx).clock() == old(ctx).clock() + old(self).width(),
            old(self).synced() ==> {
                &&& final(self).synced()
                &&& final(self).log() == old(self).log().push(WalkEvent::Hook(HookEnd::Enter, HookNode::InlineFragment(*inline_fragment), old(ctx).stack()))
                &&& final(self).times() == old(self).times().push(old(ctx).clock())
            },
    ;

    fn exit_inline_fragment(&mut self, ctx: &mut VisitorContext<'a>, inline_fragment: &'a InlineFragment)
        ensures
            extends(*old(ctx), *final(ctx)),
            final(ctx).trace() == old(ctx).trace(),
            old(self).quiet() ==> final(self).quiet() && final(ctx).error_list() == old(ctx).error_list(),
            final(self).width() == old(self).width(),
            final(ctx).clock() == old(ctx).clock() + old(self).width(),
            old(self).synced() ==> {
                &&& final(self).synced()
                &&& final(self).log() == old(self).log().push(WalkEvent::Hook(HookEnd::Exit, HookNode::InlineFragment(*inline_fragment), old(ctx).stack()))
                &&& final(self).times() == old(self).times().push(old(ctx).clock())
            },
    ;
}

/// Within a chain, the head saw each call before the tail: every time the
/// tail logged is at least the head's time plus the head's width.
pub open spec fn head_first(head: Seq<nat>, tail: Seq<nat>, width: nat) -> bool {
    head.len() == tail.len() && forall|i: int| 0 <= i < head.len() ==> #[trigger] head[i] + width <= tail[i]
}

proof fn lemma_cons_step(h0: Seq<nat>, t0: Seq<nat>, h1: Seq<nat>, t1: Seq<nat>, c: nat, w: nat)
    requires
        head_first(h0, t0, w),
        h1 == h0.push(c),
        t1 == t0.push(c + w),
    ensures
        head_first(h1, t1, w),
{
    assert forall|i: int| 0 <= i < h1.len() implies #[trigger] h1[i] + w <= t1[i] by {
        if i < h0.len() {
            assert(h1[i] == h0[i] && t1[i] == t0[i]);
        }
    }
}

/// A rule made into a visitor: each hook logs its call, then runs the rule's
/// hook.
pub struct RuleVisitor<R> {
    rule: R,
    log: Ghost<Seq<WalkEvent>>,
    times: Ghost<Seq<nat>>,
}

impl<R> RuleVisitor<R> {
    /// The visitor running `rule`, with an empty log.
    pub fn new(rule: R) -> (r: RuleVisitor<R>)
        ensures
            r.inner() == rule,
            r.view_log().len() == 0,
            r.view_times().len() == 0,
    {
        RuleVisitor { rule, log: Ghost(Seq::empty()), times: Ghost(Seq::empty()) }
    }

    /// The calls seen so far.
    pub closed spec fn view_log(&self) -> Seq<WalkEvent> {
        self.log@
    }

    /// The clock time of each call seen so far.
    pub closed spec fn view_times(&self) -> Seq<nat> {
        self.times@
    }

    /// The rule run.
    pub closed spec fn inner(&self) -> R {
        self.rule
    }

    /// The rule run.
    pub fn rule(&self) -> (r: &R)
        ensures
            *r == self.inner(),
    {
        &self.rule
    }

    /// The rule run, taken back.
    pub fn into_rule(self) -> (r: R)
        ensures
            r == self.inner(),
    {
        self.rule
    }
}

impl<'a, R: Rule<'a>> Visitor<'a> for RuleVisitor<R> {
    open spec fn quiet(&self) -> bool {
        self.inner().quiet()
    }

    open spec fn log(&self) -> Seq<WalkEvent> {
        self.view_log()
    }

    open spec fn times(&self) -> Seq<nat> {
        self.view_times()
    }

    open spec fn width(&self) -> nat {
        1
    }

    open spec fn synced(&self) -> bool {
        true
    }

    fn enter_document(&mut self, ctx: &mut VisitorContext<'a>, doc: &'a Document) {
        let ghost event = WalkEvent::Hook(HookEnd::Enter, HookNode::Document(*doc), old(ctx).stack());
        self.times = Ghost(self.times@.push(ctx.clock()));
        self.log = Ghost(self.log@.push(event));
        ctx.tick();
        let ghost mid = *ctx;
        self.rule.enter_document(ctx, doc);
        proof {
            lemma_extends_trans(*old(ctx), mid, *ctx);
        }
    }

    fn exit_document(&mut self, ctx: &mut VisitorContext<'a>, doc: &'a Document) {
        let ghost event = WalkEvent::Hook(HookEnd::Exit, HookNode::Document(*doc), old(ctx).stack());
        self.times = Ghost(self.times@.push(ctx.clock()));
        self.log = Ghost(self.log@.push(event));
        ctx.tick();
        let ghost mid = *ctx;
        self.rule.exit_document(ctx, doc);
        proof {
            lemma_extends_trans(*old(ctx), mid, *ctx);
        }
    }

    fn enter_operation_definition(&mut self, ctx: &mut VisitorContext<'a>, operation_definition: &'a OperationDefinition) {
        let ghost event = WalkEvent::Hook(HookEnd::Enter, HookNode::OperationDefinition(*operation_definition), old(ctx).stack());
        self.times = Ghost(self.times@.push(ctx.clock()));
        self.log = Ghost(self.log@.push(event));
        ctx.tick();
        let ghost mid = *ctx;
        self.rule.enter_operation_definition(ctx, operation_definition);
        proof {
            lemma_extends_trans(*old(ctx), mid, *ctx);
        }
    }

    fn exit_operation_definition(&mut self, ctx: &mut VisitorContext<'a>, operation_definition: &'a OperationDefinition) {
        let ghost event = WalkEvent::Hook(HookEnd::Exit, HookNode::OperationDefinition(*operation_definition), old(ctx).stack());
        self.times = Ghost(self.times@.push(ctx.clock()));
        self.log = Ghost(self.log@.push(event));
        ctx.tick();
        let ghost mid = *ctx;
        self.rule.exit_operation_definition(ctx, operation_definition);
        proof {
            lemma_extends_trans(*old(ctx), mid, *ctx);
        }
    }

    fn enter_fragment_definition(&mut self, ctx: &mut VisitorContext<'a>, fragment_definition: &'a FragmentDefinition) {
        let ghost event = WalkEvent::Hook(HookEnd::Enter, HookNode::FragmentDefinition(*fragment_definition), old(ctx).stack());
        self.times = Ghost(self.times@.push(ctx.clock()));
        self.log = Ghost(self.log@.push(event));
        ctx.tick();
        let ghost mid = *ctx;
        self.rule.enter_fragment_definition(ctx, fragment_definition);
        proof {
            lemma_extends_trans(*old(ctx), mid, *ctx);
        }
    }

    fn exit_fragment_definition(&mut self, ctx: &mut VisitorContext<'a>, fragment_definition: &'a FragmentDefinition) {
        let ghost event = WalkEvent::Hook(HookEnd::Exit, HookNode::FragmentDefinition(*fragment_definition), old(ctx).stack());
        self.times = Ghost(self.times@.push(ctx.clock()));
        self.log = Ghost(self.log@.push(event));
        ctx.tick();
        let ghost mid = *ctx;
        self.rule.exit_fragment_definition(ctx, fragment_definition);
        proof {
            lemma_extends_trans(*old(ctx), mid, *ctx);
        }
    }

    fn enter_variable_definition(&mut self, ctx: &mut VisitorContext<'a>, variable_definition: &'a VariableDefinition) {
        let ghost event = WalkEvent::Hook(HookEnd::Enter, HookNode::VariableDefinition(*variable_definition), old(ctx).stack());
        self.times = Ghost(self.times@.push(ctx.clock()));
        self.log = Ghost(self.log@.push(event));
        ctx.tick();
        let ghost mid = *ctx;
        self.rule.enter_variable_definition(ctx, variable_definition);
        proof {
            lemma_extends_trans(*old(ctx), mid, *ctx);
        }
    }

    fn exit_variable_definition(&mut self, ctx: &mut VisitorContext<'a>, variable_definition: &'a VariableDefinition) {
        let ghost event = WalkEvent::Hook(HookEnd::Exit, HookNode::VariableDefinition(*variable_definition), old(ctx).stack());
        self.times = Ghost(self.times@.push(ctx.clock()));
        self.log = Ghost(self.log@.push(event));
        ctx.tick();
        let ghost mid = *ctx;
        self.rule.exit_variable_definition(ctx, variable_definition);
        proof {
            lemma_extends_trans(*old(ctx), mid, *ctx);
        }
    }

    fn enter_directive(&mut self, ctx: &mut VisitorContext<'a>, directive: &'a Directive) {
        let ghost event = WalkEvent::Hook(HookEnd::Enter, HookNode::Directive(*directive), old(ctx).stack());
        self.times = Ghost(self.times@.push(ctx.clock()));
        self.log = Ghost(self.log@.push(event));
        ctx.tick();
        let ghost mid = *ctx;
        self.rule.enter_directive(ctx, directive);
        proof {
            lemma_extends_trans(*old(ctx), mid, *ctx);
        }
    }

    fn exit_directive(&mut self, ctx: &mut VisitorContext<'a>, directive: &'a Directive) {
        let ghost event = WalkEvent::Hook(HookEnd::Exit, HookNode::Directive(*directive), old(ctx).stack());
        self.times = Ghost(self.times@.push(ctx.clock()));
        self.log = Ghost(self.log@.push(event));
        ctx.tick();
        let ghost mid = *ctx;
        self.rule.exit_directive(ctx, directive);
        proof {
            lemma_extends_trans(*old(ctx), mid, *ctx);
        }
    }

    fn enter_argument(&mut self, ctx: &mut VisitorContext<'a>, pos: Pos, name: &'a str, value: &'a Value) {
        let ghost event = WalkEvent::Hook(HookEnd::Enter, HookNode::Argument(pos, name@, *value), old(ctx).stack());
        self.times = Ghost(self.times@.push(ctx.clock()));
        self.log = Ghost(self.log@.push(event));
        ctx.tick();
        let ghost mid = *ctx;
        self.rule.enter_argument(ctx, pos, name, value);
        proof {
            lemma_extends_trans(*old(ctx), mid, *ctx);
        }
    }

    fn exit_argument(&mut self, ctx: &mut VisitorContext<'a>, pos: Pos, name: &'a str, value: &'a Value) {
        let ghost event = WalkEvent::Hook(HookEnd::Exit, HookNode::Argument(pos, name@, *value), old(ctx).stack());
        self.times = Ghost(self.times@.push(ctx.clock()));
        self.log = Ghost(self.log@.push(event));
        ctx.tick();
        let ghost mid = *ctx;
        self.rule.exit_argument(ctx, pos, name, value);
        proof {
            lemma_extends_trans(*old(ctx), mid, *ctx);
        }
    }

    fn enter_selection_set(&mut self, ctx: &mut VisitorContext<'a>, selection_set: &'a SelectionSet) {
        let ghost event = WalkEvent::Hook(HookEnd::Enter, HookNode::SelectionSet(*selection_set), old(ctx).stack());
        self.times = Ghost(self.times@.push(ctx.clock()));
        self.log = Ghost(self.log@.push(event));
        ctx.tick();
        let ghost mid = *ctx;
        self.rule.enter_selection_set(ctx, selection_set);
        proof {
            lemma_extends_trans(*old(ctx), mid, *ctx);
        }
    }

    fn exit_selection_set(&mut self, ctx: &mut VisitorContext<'a>, selection_set: &'a SelectionSet) {
        let ghost event = WalkEvent::Hook(HookEnd::Exit, HookNode::SelectionSet(*selection_set), old(ctx).stack());
        self.times = Ghost(self.times@.push(ctx.clock()));
        self.log = Ghost(self.log@.push(event));
        ctx.tick();
        let ghost mid = *ctx;
        self.rule.exit_selection_set(ctx, selection_set);
        proof {
            lemma_extends_trans(*old(ctx), mid, *ctx);
        }
    }

    fn enter_selection(&mut self, ctx: &mut VisitorContext<'a>, selection: &'a Selection) {
        let ghost event = WalkEvent::Hook(HookEnd::Enter, HookNode::Selection(*selection), old(ctx).stack());
        self.times = Ghost(self.times@.push(ctx.clock()));
        self.log = Ghost(self.log@.push(event));
        ctx.tick();
        let ghost mid = *ctx;
        self.rule.enter_selection(ctx, selection);
        proof {
            lemma_extends_trans(*old(ctx), mid, *ctx);
        }
    }

    fn exit_selection(&mut self, ctx: &mut VisitorContext<'a>, selection: &'a Selection) {
        let ghost event = WalkEvent::Hook(HookEnd::Exit, HookNode::Selection(*selection), old(ctx).stack());
        self.times = Ghost(self.times@.push(ctx.clock()));
        self.log = Ghost(self.log@.push(event));
        ctx.tick();
        let ghost mid = *ctx;
        self.rule.exit_selection(ctx, selection);
        proof {
            lemma_extends_trans(*old(ctx), mid, *ctx);
        }
    }

    fn enter_field(&mut self, ctx: &mut VisitorContext<'a>, field: &'a Field) {
        let ghost event = WalkEvent::Hook(HookEnd::Enter, HookNode::Field(*field), old(ctx).stack());
        self.times = Ghost(self.times@.push(ctx.clock()));
        self.log = Ghost(self.log@.push(event));
        ctx.tick();
        let ghost mid = *ctx;
        self.rule.enter_field(ctx, field);
        proof {
            lemma_extends_trans(*old(ctx), mid, *ctx);
        }
    }

    fn exit_field(&mut self, ctx: &mut VisitorContext<'a>, field: &'a Field) {
        let ghost event = WalkEvent::Hook(HookEnd::Exit, HookNode::Field(*field), old(ctx).stack());
        self.times = Ghost(self.times@.push(ctx.clock()));
        self.log = Ghost(self.log@.push(event));
        ctx.tick();
        let ghost mid = *ctx;
        self.rule.exit_field(ctx, field);
        proof {
            lemma_extends_trans(*old(ctx), mid, *ctx);
        }
    }

    fn enter_fragment_spread(&mut self, ctx: &mut VisitorContext<'a>, fragment_spread: &'a FragmentSpread) {
        let ghost event = WalkEvent::Hook(HookEnd::Enter, HookNode::FragmentSpread(*fragment_spread), old(ctx).stack());
        self.times = Ghost(self.times@.push(ctx.clock()));
        self.log = Ghost(self.log@.push(event));
        ctx.tick();
        let ghost mid = *ctx;
        self.rule.enter_fragment_spread(ctx, fragment_spread);
        proof {
            lemma_extends_trans(*old(ctx), mid, *ctx);
        }
    }

    fn exit_fragment_spread(&mut self, ctx: &mut VisitorContext<'a>, fragment_spread: &'a FragmentSpread) {
        let ghost event = WalkEvent::Hook(HookEnd::Exit, HookNode::FragmentSpread(*fragment_spread), old(ctx).stack());
        self.times = Ghost(self.times@.push(ctx.clock()));
        self.log = Ghost(self.log@.push(event));
        ctx.tick();
        let ghost mid = *ctx;
        self.rule.exit_fragment_spread(ctx, fragment_spread);
        proof {
            lemma_extends_trans(*old(ctx), mid, *ctx);
        }
    }

    fn enter_inline_fragment(&mut self, ctx: &mut VisitorContext<'a>, inline_fragment: &'a InlineFragment) {
        let ghost event = WalkEvent::Hook(HookEnd::Enter, HookNode::InlineFragment(*inline_fragment), old(ctx).stack());
        self.times = Ghost(self.times@.push(ctx.clock()));
        self.log = Ghost(self.log@.push(event));
        ctx.tick();
        let ghost mid = *ctx;
        self.rule.enter_inline_fragment(ctx, inline_fragment);
        proof {
            lemma_extends_trans(*old(ctx), mid, *ctx);
        }
    }

    fn exit_inline_fragment(&mut self, ctx: &mut VisitorContext<'a>, inline_fragment: &'a InlineFragment) {
        let ghost event = WalkEvent::Hook(HookEnd::Exit, HookNode::InlineFragment(*inline_fragment), old(ctx).stack());
        self.times = Ghost(self.times@.push(ctx.clock()));
        self.log = Ghost(self.log@.push(event));
        ctx.tick();
        let ghost mid = *ctx;
        self.rule.exit_inline_fragment(ctx, inline_fragment);
        proof {
            lemma_extends_trans(*old(ctx), mid, *ctx);
        }
    }
}

/// The empty chain of visitors.
pub struct VisitorNil {
    log: Ghost<Seq<WalkEvent>>,
    times: Ghost<Seq<nat>>,
}

impl VisitorNil {
    /// The empty chain, with an empty log.
    pub fn new() -> (r: VisitorNil)
        ensures
            r.view_log().len() == 0,
            r.view_times().len() == 0,
    {
        VisitorNil { log: Ghost(Seq::empty()), times: Ghost(Seq::empty()) }
    }

    /// The calls seen so far.
    pub closed spec fn view_log(&self) -> Seq<WalkEvent> {
        self.log@
    }

    /// The clock time of each call seen so far.
    pub closed spec fn view_times(&self) -> Seq<nat> {
        self.times@
    }

    /// The chain with `visitor` in front.
    pub fn with<V>(self, visitor: V) -> (r: VisitorCons<V, VisitorNil>)
        ensures
            r.0 == visitor,
            r.1 == self,
    {
        VisitorCons(visitor, self)
    }
}

/// A visitor followed by a chain of visitors: each hook calls the first, then
/// the rest.
pub struct VisitorCons<A, B>(pub A, pub B);

impl<A, B> VisitorCons<A, B> {
    /// The chain with `visitor` in front.
    pub fn with<V>(self, visitor: V) -> (r: VisitorCons<V, VisitorCons<A, B>>)
        ensures
            r.0 == visitor,
            r.1 == self,
    {
        VisitorCons(visitor, self)
    }
}

impl<'a> Visitor<'a> for VisitorNil {
    open spec fn quiet(&self) -> bool {
        true
    }

    open spec fn log(&self) -> Seq<WalkEvent> {
        self.view_log()
    }

    open spec fn times(&self) -> Seq<nat> {
        self.view_times()
    }

    open spec fn width(&self) -> nat {
        1
    }

    open spec fn synced(&self) -> bool {
        true
    }

    fn enter_document(&mut self, ctx: &mut VisitorContext<'a>, doc: &'a Document) {
        let ghost event = WalkEvent::Hook(HookEnd::Enter, HookNode::Document(*doc), old(ctx).stack());
        self.times = Ghost(self.times@.push(ctx.clock()));
        self.log = Ghost(self.log@.push(event));
        ctx.tick();
    }

    fn exit_document(&mut self, ctx: &mut VisitorContext<'a>, doc: &'a Document) {
        let ghost event = WalkEvent::Hook(HookEnd::Exit, HookNode::Document(*doc), old(ctx).stack());
        self.times = Ghost(self.times@.push(ctx.clock()));
        self.log = Ghost(self.log@.push(event));
        ctx.tick();
    }

    fn enter_operation_definition(&mut self, ctx: &mut VisitorContext<'a>, operation_definition: &'a OperationDefinition) {
        let ghost event = WalkEvent::Hook(HookEnd::Enter, HookNode::OperationDefinition(*operation_definition), old(ctx).stack());
        self.times = Ghost(self.times@.push(ctx.clock()));
        self.log = Ghost(self.log@.push(event));
        ctx.tick();
    }

    fn exit_operation_definition(&mut self, ctx: &mut VisitorContext<'a>, operation_definition: &'a OperationDefinition) {
        let ghost event = WalkEvent::Hook(HookEnd::Exit, HookNode::OperationDefinition(*operation_definition), old(ctx).stack());
        self.times = Ghost(self.times@.push(ctx.clock()));
        self.log = Ghost(self.log@.push(event));
        ctx.tick();
    }

    fn enter_fragment_definition(&mut self, ctx: &mut VisitorContext<'a>, fragment_definition: &'a FragmentDefinition) {
        let ghost event = WalkEvent::Hook(HookEnd::Enter, HookNode::FragmentDefinition(*fragment_definition), old(ctx).stack());
        self.times = Ghost(self.times@.push(ctx.clock()));
        self.log = Ghost(self.log@.push(event));
        ctx.tick();
    }

    fn exit_fragment_definition(&mut self, ctx: &mut VisitorContext<'a>, fragment_definition: &'a FragmentDefinition) {
        let ghost event = WalkEvent::Hook(HookEnd::Exit, HookNode::FragmentDefinition(*fragment_definition), old(ctx).stack());
        self.times = Ghost(self.times@.push(ctx.clock()));
        self.log = Ghost(self.log@.push(event));
        ctx.tick();
    }

    fn enter_variable_definition(&mut self, ctx: &mut VisitorContext<'a>, variable_definition: &'a VariableDefinition) {
        let ghost event = WalkEvent::Hook(HookEnd::Enter, HookNode::VariableDefinition(*variable_definition), old(ctx).stack());
        self.times = Ghost(self.times@.push(ctx.clock()));
        self.log = Ghost(self.log@.push(event));
        ctx.tick();
    }

    fn exit_variable_definition(&mut self, ctx: &mut VisitorContext<'a>, variable_definition: &'a VariableDefinition) {
        let ghost event = WalkEvent::Hook(HookEnd::Exit, HookNode::VariableDefinition(*variable_definition), old(ctx).stack());
        self.times = Ghost(self.times@.push(ctx.clock()));
        self.log = Ghost(self.log@.push(event));
        ctx.tick();
    }

    fn enter_directive(&mut self, ctx: &mut VisitorContext<'a>, directive: &'a Directive) {
        let ghost event = WalkEvent::Hook(HookEnd::Enter, HookNode::Directive(*directive), old(ctx).stack());
        self.times = Ghost(self.times@.push(ctx.clock()));
        self.log = Ghost(self.log@.push(event));
        ctx.tick();
    }

    fn exit_directive(&mut self, ctx: &mut VisitorContext<'a>, directive: &'a Directive) {
        let ghost event = WalkEvent::Hook(HookEnd::Exit, HookNode::Directive(*directive), old(ctx).stack());
        self.times = Ghost(self.times@.push(ctx.clock()));
        self.log = Ghost(self.log@.push(event));
        ctx.tick();
    }

    fn enter_argument(&mut self, ctx: &mut VisitorContext<'a>, pos: Pos, name: &'a str, value: &'a Value) {
        let ghost event = WalkEvent::Hook(HookEnd::Enter, HookNode::Argument(pos, name@, *value), old(ctx).stack());
        self.times = Ghost(self.times@.push(ctx.clock()));
        self.log = Ghost(self.log@.push(event));
        ctx.tick();
    }

    fn exit_argument(&mut self, ctx: &mut VisitorContext<'a>, pos: Pos, name: &'a str, value: &'a Value) {
        let ghost event = WalkEvent::Hook(HookEnd::Exit, HookNode::Argument(pos, name@, *value), old(ctx).stack());
        self.times = Ghost(self.times@.push(ctx.clock()));
        self.log = Ghost(self.log@.push(event));
        ctx.tick();
    }

    fn enter_selection_set(&mut self, ctx: &mut VisitorContext<'a>, selection_set: &'a SelectionSet) {
        let ghost event = WalkEvent::Hook(HookEnd::Enter, HookNode::SelectionSet(*selection_set), old(ctx).stack());
        self.times = Ghost(self.times@.push(ctx.clock()));
        self.log = Ghost(self.log@.push(event));
        ctx.tick();
    }

    fn exit_selection_set(&mut self, ctx: &mut VisitorContext<'a>, selection_set: &'a SelectionSet) {
        let ghost event = WalkEvent::Hook(HookEnd::Exit, HookNode::SelectionSet(*selection_set), old(ctx).stack());
        self.times = Ghost(self.times@.push(ctx.clock()));
        self.log = Ghost(self.log@.push(event));
        ctx.tick();
    }

    fn enter_selection(&mut self, ctx: &mut VisitorContext<'a>, selection: &'a Selection) {
        let ghost event = WalkEvent::Hook(HookEnd::Enter, HookNode::Selection(*selection), old(ctx).stack());
        self.times = Ghost(self.times@.push(ctx.clock()));
        self.log = Ghost(self.log@.push(event));
        ctx.tick();
    }

    fn exit_selection(&mut self, ctx: &mut VisitorContext<'a>, selection: &'a Selection) {
        let ghost event = WalkEvent::Hook(HookEnd::Exit, HookNode::Selection(*selection), old(ctx).stack());
        self.times = Ghost(self.times@.push(ctx.clock()));
        self.log = Ghost(self.log@.push(event));
        ctx.tick();
    }

    fn enter_field(&mut self, ctx: &mut VisitorContext<'a>, field: &'a Field) {
        let ghost event = WalkEvent::Hook(HookEnd::Enter, HookNode::Field(*field), old(ctx).stack());
        self.times = Ghost(self.times@.push(ctx.clock()));
        self.log = Ghost(self.log@.push(event));
        ctx.tick();
    }

    fn exit_field(&mut self, ctx: &mut VisitorContext<'a>, field: &'a Field) {
        let ghost event = WalkEvent::Hook(HookEnd::Exit, HookNode::Field(*field), old(ctx).stack());
        self.times = Ghost(self.times@.push(ctx.clock()));
        self.log = Ghost(self.log@.push(event));
        ctx.tick();
    }

    fn enter_fragment_spread(&mut self, ctx: &mut VisitorContext<'a>, fragment_spread: &'a FragmentSpread) {
        let ghost event = WalkEvent::Hook(HookEnd::Enter, HookNode::FragmentSpread(*fragment_spread), old(ctx).stack());
        self.times = Ghost(self.times@.push(ctx.clock()));
        self.log = Ghost(self.log@.push(event));
        ctx.tick();
    }

    fn exit_fragment_spread(&mut self, ctx: &mut VisitorContext<'a>, fragment_spread: &'a FragmentSpread) {
        let ghost event = WalkEvent::Hook(HookEnd::Exit, HookNode::FragmentSpread(*fragment_spread), old(ctx).stack());
        self.times = Ghost(self.times@.push(ctx.clock()));
        self.log = Ghost(self.log@.push(event));
        ctx.tick();
    }

    fn enter_inline_fragment(&mut self, ctx: &mut VisitorContext<'a>, inline_fragment: &'a InlineFragment) {
        let ghost event = WalkEvent::Hook(HookEnd::Enter, HookNode::InlineFragment(*inline_fragment), old(ctx).stack());
        self.times = Ghost(self.times@.push(ctx.clock()));
        self.log = Ghost(self.log@.push(event));
        ctx.tick();
    }

    fn exit_inline_fragment(&mut self, ctx: &mut VisitorContext<'a>, inline_fragment: &'a InlineFragment) {
        let ghost event = WalkEvent::Hook(HookEnd::Exit, HookNode::InlineFragment(*inline_fragment), old(ctx).stack());
        self.times = Ghost(self.times@.push(ctx.clock()));
        self.log = Ghost(self.log@.push(event));
        ctx.tick();
    }
}

impl<'a, A: Visitor<'a>, B: Visitor<'a>> Visitor<'a> for VisitorCons<A, B> {
    open spec fn quiet(&self) -> bool {
        self.0.quiet() && self.1.quiet()
    }

    open spec fn log(&self) -> Seq<WalkEvent> {
        self.0.log()
    }

    open spec fn times(&self) -> Seq<nat> {
        self.0.times()
    }

    open spec fn width(&self) -> nat {
        self.0.width() + self.1.width()
    }

    open spec fn synced(&self) -> bool {
        &&& self.0.synced()
        &&& self.1.synced()
        &&& self.0.log() == self.1.log()
        &&& head_first(self.0.times(), self.1.times(), self.0.width())
    }

    fn enter_document(&mut self, ctx: &mut VisitorContext<'a>, doc: &'a Document) {
        self.0.enter_document(ctx, doc);
        let ghost mid = *ctx;
        self.1.enter_document(ctx, doc);
        proof {
            lemma_extends_trans(*old(ctx), mid, *ctx);
            if old(self).synced() {
                lemma_cons_step(
                    old(self).0.times(),
                    old(self).1.times(),
                    self.0.times(),
                    self.1.times(),
                    old(ctx).clock(),
                    self.0.width(),
                );
            }
        }
    }

    fn exit_document(&mut self, ctx: &mut VisitorContext<'a>, doc: &'a Document) {
        self.0.exit_document(ctx, doc);
        let ghost mid = *ctx;
        self.1.exit_document(ctx, doc);
        proof {
            lemma_extends_trans(*old(ctx), mid, *ctx);
            if old(self).synced() {
                lemma_cons_step(
                    old(self).0.times(),
                    old(self).1.times(),
                    self.0.times(),
                    self.1.times(),
                    old(ctx).clock(),
                    self.0.width(),
                );
            }
        }
    }

    fn enter_operation_definition(&mut self, ctx: &mut VisitorContext<'a>, operation_definition: &'a OperationDefinition) {
        self.0.enter_operation_definition(ctx, operation_definition);
        let ghost mid = *ctx;
        self.1.enter_operation_definition(ctx, operation_definition);
        proof {
            lemma_extends_trans(*old(ctx), mid, *ctx);
            if old(self).synced() {
                lemma_cons_step(
                    old(self).0.times(),
                    old(self).1.times(),
                    self.0.times(),
                    self.1.times(),
                    old(ctx).clock(),
                    self.0.width(),
                );
            }
        }
    }

    fn exit_operation_definition(&mut self, ctx: &mut VisitorContext<'a>, operation_definition: &'a OperationDefinition) {
        self.0.exit_operation_definition(ctx, operation_definition);
        let ghost mid = *ctx;
        self.1.exit_operation_definition(ctx, operation_definition);
        proof {
            lemma_extends_trans(*old(ctx), mid, *ctx);
            if old(self).synced() {
                lemma_cons_step(
                    old(self).0.times(),
                    old(self).1.times(),
                    self.0.times(),
                    self.1.times(),
                    old(ctx).clock(),
                    self.0.width(),
                );
            }
        }
    }

    fn enter_fragment_definition(&mut self, ctx: &mut VisitorContext<'a>, fragment_definition: &'a FragmentDefinition) {
        self.0.enter_fragment_definition(ctx, fragment_definition);
        let ghost mid = *ctx;
        self.1.enter_fragment_definition(ctx, fragment_definition);
        proof {
            lemma_extends_trans(*old(ctx), mid, *ctx);
            if old(self).synced() {
                lemma_cons_step(
                    old(self).0.times(),
                    old(self).1.times(),
                    self.0.times(),
                    self.1.times(),
                    old(ctx).clock(),
                    self.0.width(),
                );
            }
        }
    }

    fn exit_fragment_definition(&mut self, ctx: &mut VisitorContext<'a>, fragment_definition: &'a FragmentDefinition) {
        self.0.exit_fragment_definition(ctx, fragment_definition);
        let ghost mid = *ctx;
        self.1.exit_fragment_definition(ctx, fragment_definition);
        proof {
            lemma_extends_trans(*old(ctx), mid, *ctx);
            if old(self).synced() {
                lemma_cons_step(
                    old(self).0.times(),
                    old(self).1.times(),
                    self.0.times(),
                    self.1.times(),
                    old(ctx).clock(),
                    self.0.width(),
                );
            }
        }
    }

    fn enter_variable_definition(&mut self, ctx: &mut VisitorContext<'a>, variable_definition: &'a VariableDefinition) {
        self.0.enter_variable_definition(ctx, variable_definition);
        let ghost mid = *ctx;
        self.1.enter_variable_definition(ctx, variable_definition);
        proof {
            lemma_extends_trans(*old(ctx), mid, *ctx);
            if old(self).synced() {
                lemma_cons_step(
                    old(self).0.times(),
                    old(self).1.times(),
                    self.0.times(),
                    self.1.times(),
                    old(ctx).clock(),
                    self.0.width(),
                );
            }
        }
    }

    fn exit_variable_definition(&mut self, ctx: &mut VisitorContext<'a>, variable_definition: &'a VariableDefinition) {
        self.0.exit_variable_definition(ctx, variable_definition);
        let ghost mid = *ctx;
        self.1.exit_variable_definition(ctx, variable_definition);
        proof {
            lemma_extends_trans(*old(ctx), mid, *ctx);
            if old(self).synced() {
                lemma_cons_step(
                    old(self).0.times(),
                    old(self).1.times(),
                    self.0.times(),
                    self.1.times(),
                    old(ctx).clock(),
                    self.0.width(),
                );
            }
        }
    }

    fn enter_directive(&mut self, ctx: &mut VisitorContext<'a>, directive: &'a Directive) {
        self.0.enter_directive(ctx, directive);
        let ghost mid = *ctx;
        self.1.enter_directive(ctx, directive);
        proof {
            lemma_extends_trans(*old(ctx), mid, *ctx);
            if old(self).synced() {
                lemma_cons_step(
                    old(self).0.times(),
                    old(self).1.times(),
                    self.0.times(),
                    self.1.times(),
                    old(ctx).clock(),
                    self.0.width(),
                );
            }
        }
    }

    fn exit_directive(&mut self, ctx: &mut VisitorContext<'a>, directive: &'a Directive) {
        self.0.exit_directive(ctx, directive);
        let ghost mid = *ctx;
        self.1.exit_directive(ctx, directive);
        proof {
            lemma_extends_trans(*old(ctx), mid, *ctx);
            if old(self).synced() {
                lemma_cons_step(
                    old(self).0.times(),
                    old(self).1.times(),
                    self.0.times(),
                    self.1.times(),
                    old(ctx).clock(),
                    self.0.width(),
                );
            }
        }
    }

    fn enter_argument(&mut self, ctx: &mut VisitorContext<'a>, pos: Pos, name: &'a str, value: &'a Value) {
        self.0.enter_argument(ctx, pos, name, value);
        let ghost mid = *ctx;
        self.1.enter_argument(ctx, pos, name, value);
        proof {
            lemma_extends_trans(*old(ctx), mid, *ctx);
            if old(self).synced() {
                lemma_cons_step(
                    old(self).0.times(),
                    old(self).1.times(),
                    self.0.times(),
                    self.1.times(),
                    old(ctx).clock(),
                    self.0.width(),
                );
            }
        }
    }

    fn exit_argument(&mut self, ctx: &mut VisitorContext<'a>, pos: Pos, name: &'a str, value: &'a Value) {
        self.0.exit_argument(ctx, pos, name, value);
        let ghost mid = *ctx;
        self.1.exit_argument(ctx, pos, name, value);
        proof {
            lemma_extends_trans(*old(ctx), mid, *ctx);
            if old(self).synced() {
                lemma_cons_step(
                    old(self).0.times(),
                    old(self).1.times(),
                    self.0.times(),
                    self.1.times(),
                    old(ctx).clock(),
                    self.0.width(),
                );
            }
        }
    }

    fn enter_selection_set(&mut self, ctx: &mut VisitorContext<'a>, selection_set: &'a SelectionSet) {
        self.0.enter_selection_set(ctx, selection_set);
        let ghost mid = *ctx;
        self.1.enter_selection_set(ctx, selection_set);
        proof {
            lemma_extends_trans(*old(ctx), mid, *ctx);
            if old(self).synced() {
                lemma_cons_step(
                    old(self).0.times(),
                    old(self).1.times(),
                    self.0.times(),
                    self.1.times(),
                    old(ctx).clock(),
                    self.0.width(),
                );
            }
        }
    }

    fn exit_selection_set(&mut self, ctx: &mut VisitorContext<'a>, selection_set: &'a SelectionSet) {
        self.0.exit_selection_set(ctx, selection_set);
        let ghost mid = *ctx;
        self.1.exit_selection_set(ctx, selection_set);
        proof {
            lemma_extends_trans(*old(ctx), mid, *ctx);
            if old(self).synced() {
                lemma_cons_step(
                    old(self).0.times(),
                    old(self).1.times(),
                    self.0.times(),
                    self.1.times(),
                    old(ctx).clock(),
                    self.0.width(),
                );
            }
        }
    }

    fn enter_selection(&mut self, ctx: &mut VisitorContext<'a>, selection: &'a Selection) {
        self.0.enter_selection(ctx, selection);
        let ghost mid = *ctx;
        self.1.enter_selection(ctx, selection);
        proof {
            lemma_extends_trans(*old(ctx), mid, *ctx);
            if old(self).synced() {
                lemma_cons_step(
                    old(self).0.times(),
                    old(self).1.times(),
                    self.0.times(),
                    self.1.times(),
                    old(ctx).clock(),
                    self.0.width(),
                );
            }
        }
    }

    fn exit_selection(&mut self, ctx: &mut VisitorContext<'a>, selection: &'a Selection) {
        self.0.exit_selection(ctx, selection);
        let ghost mid = *ctx;
        self.1.exit_selection(ctx, selection);
        proof {
            lemma_extends_trans(*old(ctx), mid, *ctx);
            if old(self).synced() {
                lemma_cons_step(
                    old(self).0.times(),
                    old(self).1.times(),
                    self.0.times(),
                    self.1.times(),
                    old(ctx).clock(),
                    self.0.width(),
                );
            }
        }
    }

    fn enter_field(&mut self, ctx: &mut VisitorContext<'a>, field: &'a Field) {
        self.0.enter_field(ctx, field);
        let ghost mid = *ctx;
        self.1.enter_field(ctx, field);
        proof {
            lemma_extends_trans(*old(ctx), mid, *ctx);
            if old(self).synced() {
                lemma_cons_step(
                    old(self).0.times(),
                    old(self).1.times(),
                    self.0.times(),
                    self.1.times(),
                    old(ctx).clock(),
                    self.0.width(),
                );
            }
        }
    }

    fn exit_field(&mut self, ctx: &mut VisitorContext<'a>, field: &'a Field) {
        self.0.exit_field(ctx, field);
        let ghost mid = *ctx;
        self.1.exit_field(ctx, field);
        proof {
            lemma_extends_trans(*old(ctx), mid, *ctx);
            if old(self).synced() {
                lemma_cons_step(
                    old(self).0.times(),
                    old(self).1.times(),
                    self.0.times(),
                    self.1.times(),
                    old(ctx).clock(),
                    self.0.width(),
                );
            }
        }
    }

    fn enter_fragment_spread(&mut self, ctx: &mut VisitorContext<'a>, fragment_spread: &'a FragmentSpread) {
        self.0.enter_fragment_spread(ctx, fragment_spread);
        let ghost mid = *ctx;
        self.1.enter_fragment_spread(ctx, fragment_spread);
        proof {
            lemma_extends_trans(*old(ctx), mid, *ctx);
            if old(self).synced() {
                lemma_cons_step(
                    old(self).0.times(),
                    old(self).1.times(),
                    self.0.times(),
                    self.1.times(),
                    old(ctx).clock(),
                    self.0.width(),
                );
            }
        }
    }

    fn exit_fragment_spread(&mut self, ctx: &mut VisitorContext<'a>, fragment_spread: &'a FragmentSpread) {
        self.0.exit_fragment_spread(ctx, fragment_spread);
        let ghost mid = *ctx;
        self.1.exit_fragment_spread(ctx, fragment_spread);
        proof {
            lemma_extends_trans(*old(ctx), mid, *ctx);
            if old(self).synced() {
                lemma_cons_step(
                    old(self).0.times(),
                    old(self).1.times(),
                    self.0.times(),
                    self.1.times(),
                    old(ctx).clock(),
                    self.0.width(),
                );
            }
        }
    }

    fn enter_inline_fragment(&mut self, ctx: &mut VisitorContext<'a>, inline_fragment: &'a InlineFragment) {
        self.0.enter_inline_fragment(ctx, inline_fragment);
        let ghost mid = *ctx;
        self.1.enter_inline_fragment(ctx, inline_fragment);
        proof {
            lemma_extends_trans(*old(ctx), mid, *ctx);
            if old(self).synced() {
                lemma_cons_step(
                    old(self).0.times(),
                    old(self).1.times(),
                    self.0.times(),
                    self.1.times(),
                    old(ctx).clock(),
                    self.0.width(),
                );
            }
        }
    }

    fn exit_inline_fragment(&mut self, ctx: &mut VisitorContext<'a>, inline_fragment: &'a InlineFragment) {
        self.0.exit_inline_fragment(ctx, inline_fragment);
        let ghost mid = *ctx;
        self.1.exit_inline_fragment(ctx, inline_fragment);
        proof {
            lemma_extends_trans(*old(ctx), mid, *ctx);
            if old(self).synced() {
                lemma_cons_step(
                    old(self).0.times(),
                    old(self).1.times(),
                    self.0.times(),
                    self.1.times(),
                    old(ctx).clock(),
                    self.0.width(),
                );
            }
        }
    }
}

/// The number of fragments not being expanded.
pub open spec fn unexpanded(e: Seq<bool>) -> nat
    decreases e.len(),
{
    if e.len() == 0 {
        0
    } else {
        unexpanded(e.drop_last()) + if e.last() {
            0nat
        } else {
            1nat
        }
    }
}

pub proof fn lemma_unexpanded_mark(e: Seq<bool>, i: int)
    requires
        0 <= i < e.len(),
        !e[i],
    ensures
        unexpanded(e.update(i, true)) < unexpanded(e),
    decreases e.len(),
{
    let u = e.update(i, true);
    if i == e.len() - 1 {
        assert(u.drop_last() =~= e.drop_last());
    } else {
        assert(u.drop_last() =~= e.drop_last().update(i, true));
        lemma_unexpanded_mark(e.drop_last(), i);
    }
}

/// The message for a type condition that names no registered type.
pub open spec fn unknown_type_message(name: Seq<char>) -> Seq<char> {
    "Unknown type \""@ + name + "\"."@
}

/// The message for a field that the current type does not have.
pub open spec fn unknown_field_message(field: Seq<char>, ty: Seq<char>) -> Seq<char> {
    "Cannot query field \""@ + field + "\" on type \""@ + ty + "\"."@
}

/// The message for an operation whose root type the schema lacks.
pub open spec fn unconfigured_message(kind: Seq<char>) -> Seq<char> {
    "Schema is not configured for "@ + kind + "."@
}

/// The error `message` at the single position `pos`.
pub open spec fn is_error_at(e: RuleError, pos: Pos, message: Seq<char>) -> bool {
    e.locations@ == seq![pos] && e.message@ == message
}

fn error_at(pos: Pos, message: String) -> (r: RuleError)
    ensures
        is_error_at(r, pos, message@),
{
    let locations = vec![pos];
    assert(locations@ =~= seq![pos]);
    RuleError { locations, message }
}

/// The schema type a type condition `on name` selects, or the error
/// `Unknown type "<name>".` at `pos`.
pub fn type_condition_target<'a>(registry: &'a Registry, name: &str, pos: Pos) -> (r: Result<
    &'a MetaType,
    RuleError,
>)
    ensures
        match lookup_type(*registry, name@) {
            Some(t) => r is Ok && *r->Ok_0 == t,
            None => r is Err && is_error_at(r->Err_0, pos, unknown_type_message(name@)),
        },
{
    match registry.get_type(name) {
        Some(t) => Ok(t),
        None => {
            let mut m = String::from_str("Unknown type \"");
            m.append(name);
            m.append("\".");
            Err(error_at(pos, m))
        },
    }
}

/// The root type an operation runs against: the query type for queries, the
/// mutation or subscription type for the others, or the error
/// `Schema is not configured for mutations.` (or `subscriptions.`) at the
/// operation's position when the schema has none.
pub fn operation_root<'a>(registry: &'a Registry, op: &OperationDefinition) -> (r: Result<
    &'a MetaType,
    RuleError,
>)
    requires
        registry_valid(*registry),
    ensures
        match *op {
            OperationDefinition::SelectionSet(_) | OperationDefinition::Query(_) => r is Ok && *r->Ok_0
                == lookup_type(*registry, registry.query_type@)->0,
            OperationDefinition::Mutation(m) => match registry.mutation_type {
                Some(n) => r is Ok && *r->Ok_0 == lookup_type(*registry, n@)->0,
                None => r is Err && is_error_at(r->Err_0, m.position, unconfigured_message("mutations"@)),
            },
            OperationDefinition::Subscription(m) => match registry.subscription_type {
                Some(n) => r is Ok && *r->Ok_0 == lookup_type(*registry, n@)->0,
                None => r is Err && is_error_at(
                    r->Err_0,
                    m.position,
                    unconfigured_message("subscriptions"@),
                ),
            },
        },
{
    proof {
        reveal_strlit("Schema is not configured for ");
        reveal_strlit("mutations");
        reveal_strlit("subscriptions");
        reveal_strlit(".");
        reveal_strlit("Schema is not configured for mutations.");
        reveal_strlit("Schema is not configured for subscriptions.");
    }
    let name = match op {
        OperationDefinition::SelectionSet(_) | OperationDefinition::Query(_) => &registry.query_type,
        OperationDefinition::Mutation(m) => match &registry.mutation_type {
            Some(n) => n,
            None => {
                let msg = String::from_str("Schema is not configured for mutations.");
                assert(msg@ =~= unconfigured_message("mutations"@));
                return Err(error_at(m.position, msg));
            },
        },
        OperationDefinition::Subscription(m) => match &registry.subscription_type {
            Some(n) => n,
            None => {
                let msg = String::from_str("Schema is not configured for subscriptions.");
                assert(msg@ =~= unconfigured_message("subscriptions"@));
                return Err(error_at(m.position, msg));
            },
        },
    };
    Ok(registry.get_type(name.as_str()).unwrap())
}

/// The schema type a selected field leads to: the base type of the field's
/// output type, or the error `Cannot query field "<f>" on type "<t>".` at the
/// field's position when the current type has no such field.
pub fn field_target<'a>(registry: &'a Registry, current: &MetaType, field: &Field) -> (r: Result<
    &'a MetaType,
    RuleError,
>)
    requires
        registry_valid(*registry),
        in_registry(*registry, *current),
    ensures
        match field_of(*current, field.name@) {
            Some(f) => r is Ok && *r->Ok_0 == basic_type_of(*registry, f.ty@)->0,
            None => r is Err && is_error_at(
                r->Err_0,
                field.position,
                unknown_field_message(field.name@, type_name_of(*current)),
            ),
        },
{
    match current.field_by_name(field.name.as_str()) {
        Some(f) => Ok(registry.basic_type_by_typename(f.ty.as_str()).unwrap()),
        None => {
            let mut m = String::from_str("Cannot query field \"");
            m.append(field.name.as_str());
            m.append("\" on type \"");
            m.append(current.name());
            m.append("\".");
            Err(error_at(field.position, m))
        },
    }
}

/// An error as positions and message text.
pub type ErrorView = (Seq<Pos>, Seq<char>);

/// The positions and message of an error.
pub open spec fn error_view(e: RuleError) -> ErrorView {
    (e.locations@, e.message@)
}

/// The errors a context has reported, as positions and message text.
pub open spec fn reported<'a>(ctx: VisitorContext<'a>) -> Seq<ErrorView> {
    ctx.error_list().map_values(|e: RuleError| error_view(e))
}

/// No fragment is being expanded.
pub open spec fn none_expanding(n: nat) -> Seq<bool> {
    Seq::new(n, |i: int| false)
}

/// The errors the walk itself reports for the first `n` selections of `ss`,
/// in type `cur`, with the fragments marked in `e` being expanded.
pub open spec fn selections_errors<'a>(
    r: Registry,
    frags: Seq<&'a FragmentDefinition>,
    cur: MetaType,
    ss: SelectionSet,
    n: int,
    e: Seq<bool>,
) -> Seq<ErrorView>
    decreases unexpanded(e), ss, n,
{
    if n <= 0 || n > ss.items@.len() {
        Seq::empty()
    } else {
        selections_errors(r, frags, cur, ss, n - 1, e) + selection_errors(r, frags, cur, ss.items@[n - 1], e)
    }
}

/// The errors the walk itself reports for all of `ss`.
pub open spec fn selection_set_errors<'a>(
    r: Registry,
    frags: Seq<&'a FragmentDefinition>,
    cur: MetaType,
    ss: SelectionSet,
    e: Seq<bool>,
) -> Seq<ErrorView> {
    selections_errors(r, frags, cur, ss, ss.items@.len() as int, e)
}

/// The errors the walk itself reports for one selection: a field the current
/// type lacks, an inline fragment on an unknown type, and what the walk finds
/// inside. A spread expands the last fragment of its name under the current
/// type, unless that fragment is already being expanded.
pub open spec fn selection_errors<'a>(
    r: Registry,
    frags: Seq<&'a FragmentDefinition>,
    cur: MetaType,
    sel: Selection,
    e: Seq<bool>,
) -> Seq<ErrorView>
    decreases unexpanded(e), sel, 0int,
{
    match sel {
        Selection::Field(f) => match field_of(cur, f.name@) {
            Some(fd) => selections_errors(
                r,
                frags,
                basic_type_of(r, fd.ty@)->0,
                f.selection_set,
                f.selection_set.items@.len() as int,
                e,
            ),
            None => seq![(seq![f.position], unknown_field_message(f.name@, type_name_of(cur)))],
        },
        Selection::FragmentSpread(fs) => match last_fragment(frags, fs.fragment_name@) {
            Some(k) => if 0 <= k < e.len() && !e[k] {
                proof {
                    lemma_unexpanded_mark(e, k);
                }
                selections_errors(
                    r,
                    frags,
                    cur,
                    frags[k].selection_set,
                    frags[k].selection_set.items@.len() as int,
                    e.update(k, true),
                )
            } else {
                Seq::empty()
            },
            None => Seq::empty(),
        },
        Selection::InlineFragment(inf) => match inf.type_condition {
            Some(TypeCondition::On(name)) => match lookup_type(r, name@) {
                Some(t) => selections_errors(
                    r,
                    frags,
                    t,
                    inf.selection_set,
                    inf.selection_set.items@.len() as int,
                    e,
                ),
                None => seq![(seq![inf.position], unknown_type_message(name@))],
            },
            None => selections_errors(
                r,
                frags,
                cur,
                inf.selection_set,
                inf.selection_set.items@.len() as int,
                e,
            ),
        },
    }
}

/// The root type an operation runs against, if the schema has one.
pub open spec fn root_of(r: Registry, op: OperationDefinition) -> Option<MetaType> {
    match op {
        OperationDefinition::SelectionSet(_) | OperationDefinition::Query(_) => lookup_type(r, r.query_type@),
        OperationDefinition::Mutation(_) => match r.mutation_type {
            Some(n) => lookup_type(r, n@),
            None => None,
        },
        OperationDefinition::Subscription(_) => match r.subscription_type {
            Some(n) => lookup_type(r, n@),
            None => None,
        },
    }
}

/// The errors the walk itself reports for an operation.
pub open spec fn operation_errors<'a>(
    r: Registry,
    frags: Seq<&'a FragmentDefinition>,
    op: OperationDefinition,
) -> Seq<ErrorView> {
    let e = none_expanding(frags.len());
    match op {
        OperationDefinition::SelectionSet(ss) => selection_set_errors(r, frags, root_of(r, op)->0, ss, e),
        OperationDefinition::Query(o) => selection_set_errors(r, frags, root_of(r, op)->0, o.selection_set, e),
        OperationDefinition::Mutation(o) => match root_of(r, op) {
            Some(t) => selection_set_errors(r, frags, t, o.selection_set, e),
            None => seq![(seq![o.position], unconfigured_message("mutations"@))],
        },
        OperationDefinition::Subscription(o) => match root_of(r, op) {
            Some(t) => selection_set_errors(r, frags, t, o.selection_set, e),
            None => seq![(seq![o.position], unconfigured_message("subscriptions"@))],
        },
    }
}

/// The errors the walk itself reports for one definition.
pub open spec fn definition_errors<'a>(
    r: Registry,
    frags: Seq<&'a FragmentDefinition>,
    d: Definition,
) -> Seq<ErrorView> {
    match d {
        Definition::Operation(op) => operation_errors(r, frags, op),
        Definition::Fragment(fd) => {
            let TypeCondition::On(name) = fd.type_condition;
            match lookup_type(r, name@) {
                Some(t) => selection_set_errors(r, frags, t, fd.selection_set, none_expanding(frags.len())),
                None => seq![(seq![fd.position], unknown_type_message(name@))],
            }
        },
    }
}

/// The errors the walk itself reports for the first `n` definitions.
pub open spec fn definitions_errors<'a>(
    r: Registry,
    frags: Seq<&'a FragmentDefinition>,
    defs: Seq<Definition>,
    n: int,
) -> Seq<ErrorView>
    decreases n,
{
    if n <= 0 || n > defs.len() {
        Seq::empty()
    } else {
        definitions_errors(r, frags, defs, n - 1) + definition_errors(r, frags, defs[n - 1])
    }
}

/// The errors the walk itself reports for a document, in the order found.
pub open spec fn document_errors<'a>(
    r: Registry,
    frags: Seq<&'a FragmentDefinition>,
    doc: Document,
) -> Seq<ErrorView> {
    definitions_errors(r, frags, doc.definitions@, doc.definitions@.len() as int)
}

/// Which end of a node a hook marks.
pub enum HookEnd {
    Enter,
    Exit,
}

/// The node a hook is called on.
pub enum HookNode {
    Document(Document),
    OperationDefinition(OperationDefinition),
    FragmentDefinition(FragmentDefinition),
    VariableDefinition(VariableDefinition),
    Directive(Directive),
    /// An argument: the position of its field or directive, its name and value.
    Argument(Pos, Seq<char>, Value),
    SelectionSet(SelectionSet),
    Selection(Selection),
    Field(Field),
    FragmentSpread(FragmentSpread),
    InlineFragment(InlineFragment),
}

/// One step of a walk: a hook called on a node with the type stack it saw
/// (innermost last), or an error the walk reported itself.
pub enum WalkEvent {
    Hook(HookEnd, HookNode, Seq<MetaType>),
    Error(ErrorView),
}

/// A call of the `end` hook of `node` under `stack`.
pub open spec fn hook(end: HookEnd, node: HookNode, stack: Seq<MetaType>) -> Seq<WalkEvent> {
    seq![WalkEvent::Hook(end, node, stack)]
}

/// The walk's own error `message` at `pos`.
pub open spec fn walk_error(pos: Pos, message: Seq<char>) -> Seq<WalkEvent> {
    seq![WalkEvent::Error((seq![pos], message))]
}

/// The argument hooks, enter and exit back to back for each argument in order.
pub open spec fn arguments_trace(stack: Seq<MetaType>, pos: Pos, args: Seq<(String, Value)>) -> Seq<WalkEvent>
    decreases args.len(),
{
    if args.len() == 0 {
        Seq::empty()
    } else {
        let node = HookNode::Argument(pos, args.last().0@, args.last().1);
        arguments_trace(stack, pos, args.drop_last()) + hook(HookEnd::Enter, node, stack) + hook(
            HookEnd::Exit,
            node,
            stack,
        )
    }
}

/// The variable definition hooks, enter and exit back to back for each in order.
pub open spec fn variables_trace(stack: Seq<MetaType>, vs: Seq<VariableDefinition>) -> Seq<WalkEvent>
    decreases vs.len(),
{
    if vs.len() == 0 {
        Seq::empty()
    } else {
        let node = HookNode::VariableDefinition(vs.last());
        variables_trace(stack, vs.drop_last()) + hook(HookEnd::Enter, node, stack) + hook(
            HookEnd::Exit,
            node,
            stack,
        )
    }
}

/// The directive hooks in order, each around the hooks of its arguments.
pub open spec fn directives_trace(stack: Seq<MetaType>, ds: Seq<Directive>) -> Seq<WalkEvent>
    decreases ds.len(),
{
    if ds.len() == 0 {
        Seq::empty()
    } else {
        let d = ds.last();
        directives_trace(stack, ds.drop_last()) + hook(HookEnd::Enter, HookNode::Directive(d), stack)
            + arguments_trace(stack, d.position, d.arguments@) + hook(
            HookEnd::Exit,
            HookNode::Directive(d),
            stack,
        )
    }
}

/// The walk of a selection set under `stack`: nothing for an empty set,
/// else its enter hook, its selections in order, and its exit hook.
pub open spec fn selection_set_trace<'a>(
    r: Registry,
    frags: Seq<&'a FragmentDefinition>,
    stack: Seq<MetaType>,
    ss: SelectionSet,
    e: Seq<bool>,
) -> Seq<WalkEvent>
    decreases unexpanded(e), ss, ss.items@.len() + 1,
{
    if ss.items@.len() == 0 {
        Seq::empty()
    } else {
        hook(HookEnd::Enter, HookNode::SelectionSet(ss), stack) + selections_trace(
            r,
            frags,
            stack,
            ss,
            ss.items@.len() as int,
            e,
        ) + hook(HookEnd::Exit, HookNode::SelectionSet(ss), stack)
    }
}

/// The walk of the first `n` selections of `ss`.
pub open spec fn selections_trace<'a>(
    r: Registry,
    frags: Seq<&'a FragmentDefinition>,
    stack: Seq<MetaType>,
    ss: SelectionSet,
    n: int,
    e: Seq<bool>,
) -> Seq<WalkEvent>
    decreases unexpanded(e), ss, n,
{
    if n <= 0 || n > ss.items@.len() {
        Seq::empty()
    } else {
        selections_trace(r, frags, stack, ss, n - 1, e) + selection_trace(r, frags, stack, ss.items@[n - 1], e)
    }
}

/// The walk of one selection: its enter hook, then what it holds, then its
/// exit hook. A field the current type has is walked with its base type
/// pushed; one it lacks is an error and nothing inside is walked. An inline
/// fragment with a known type condition is walked with that type pushed,
/// with an unknown one is an error, and without one is walked under the
/// current type. A spread walks its directives, then the last fragment of its
/// name under the current type unless that one is being expanded.
pub open spec fn selection_trace<'a>(
    r: Registry,
    frags: Seq<&'a FragmentDefinition>,
    stack: Seq<MetaType>,
    sel: Selection,
    e: Seq<bool>,
) -> Seq<WalkEvent>
    decreases unexpanded(e), sel, 1int,
{
    let body = match sel {
        Selection::Field(f) => match field_of(stack.last(), f.name@) {
            Some(fd) => field_trace(r, frags, stack.push(basic_type_of(r, fd.ty@)->0), f, e),
            None => walk_error(f.position, unknown_field_message(f.name@, type_name_of(stack.last()))),
        },
        Selection::FragmentSpread(fs) => {
            let expansion = match last_fragment(frags, fs.fragment_name@) {
                Some(k) => if 0 <= k < e.len() && !e[k] {
                    proof {
                        lemma_unexpanded_mark(e, k);
                    }
                    selection_set_trace(r, frags, stack, frags[k].selection_set, e.update(k, true))
                } else {
                    Seq::empty()
                },
                None => Seq::empty(),
            };
            hook(HookEnd::Enter, HookNode::FragmentSpread(fs), stack) + directives_trace(
                stack,
                fs.directives@,
            ) + expansion + hook(HookEnd::Exit, HookNode::FragmentSpread(fs), stack)
        },
        Selection::InlineFragment(inf) => match inf.type_condition {
            Some(TypeCondition::On(name)) => match lookup_type(r, name@) {
                Some(t) => inline_trace(r, frags, stack.push(t), inf, e),
                None => walk_error(inf.position, unknown_type_message(name@)),
            },
            None => inline_trace(r, frags, stack, inf, e),
        },
    };
    hook(HookEnd::Enter, HookNode::Selection(sel), stack) + body + hook(
        HookEnd::Exit,
        HookNode::Selection(sel),
        stack,
    )
}

/// The walk of a field: its enter hook, its arguments, its directives, its
/// selection set, its exit hook.
pub open spec fn field_trace<'a>(
    r: Registry,
    frags: Seq<&'a FragmentDefinition>,
    stack: Seq<MetaType>,
    f: Field,
    e: Seq<bool>,
) -> Seq<WalkEvent>
    decreases unexpanded(e), f, 0int,
{
    hook(HookEnd::Enter, HookNode::Field(f), stack) + arguments_trace(stack, f.position, f.arguments@)
        + directives_trace(stack, f.directives@) + selection_set_trace(r, frags, stack, f.selection_set, e)
        + hook(HookEnd::Exit, HookNode::Field(f), stack)
}

/// The walk of an inline fragment: its enter hook, its directives, its
/// selection set, its exit hook.
pub open spec fn inline_trace<'a>(
    r: Registry,
    frags: Seq<&'a FragmentDefinition>,
    stack: Seq<MetaType>,
    inf: InlineFragment,
    e: Seq<bool>,
) -> Seq<WalkEvent>
    decreases unexpanded(e), inf, 0int,
{
    hook(HookEnd::Enter, HookNode::InlineFragment(inf), stack) + directives_trace(stack, inf.directives@)
        + selection_set_trace(r, frags, stack, inf.selection_set, e) + hook(
        HookEnd::Exit,
        HookNode::InlineFragment(inf),
        stack,
    )
}

/// The walk of a fragment definition under its type: its enter hook, its
/// directives, its selection set, its exit hook.
pub open spec fn fragment_definition_trace<'a>(
    r: Registry,
    frags: Seq<&'a FragmentDefinition>,
    stack: Seq<MetaType>,
    fd: FragmentDefinition,
    e: Seq<bool>,
) -> Seq<WalkEvent> {
    hook(HookEnd::Enter, HookNode::FragmentDefinition(fd), stack) + directives_trace(stack, fd.directives@)
        + selection_set_trace(r, frags, stack, fd.selection_set, e) + hook(
        HookEnd::Exit,
        HookNode::FragmentDefinition(fd),
        stack,
    )
}

/// The walk of an operation: its enter hook; then, with the root type pushed,
/// its variable definitions, its directives and its selection set, or the
/// error for a root type the schema lacks; then its exit hook.
pub open spec fn operation_trace<'a>(
    r: Registry,
    frags: Seq<&'a FragmentDefinition>,
    stack: Seq<MetaType>,
    op: OperationDefinition,
) -> Seq<WalkEvent> {
    let e = none_expanding(frags.len());
    let inner = stack.push(root_of(r, op)->0);
    let body = match op {
        OperationDefinition::SelectionSet(ss) => selection_set_trace(r, frags, inner, ss, e),
        OperationDefinition::Query(o) => variables_trace(inner, o.variable_definitions@) + directives_trace(
            inner,
            o.directives@,
        ) + selection_set_trace(r, frags, inner, o.selection_set, e),
        OperationDefinition::Mutation(o) => if root_of(r, op) is Some {
            variables_trace(inner, o.variable_definitions@) + directives_trace(inner, o.directives@)
                + selection_set_trace(r, frags, inner, o.selection_set, e)
        } else {
            walk_error(o.position, unconfigured_message("mutations"@))
        },
        OperationDefinition::Subscription(o) => if root_of(r, op) is Some {
            variables_trace(inner, o.variable_definitions@) + directives_trace(inner, o.directives@)
                + selection_set_trace(r, frags, inner, o.selection_set, e)
        } else {
            walk_error(o.position, unconfigured_message("subscriptions"@))
        },
    };
    hook(HookEnd::Enter, HookNode::OperationDefinition(op), stack) + body + hook(
        HookEnd::Exit,
        HookNode::OperationDefinition(op),
        stack,
    )
}

/// The walk of one definition: an operation, or a fragment definition under
/// its type condition, or the error for an unknown type condition.
pub open spec fn definition_trace<'a>(
    r: Registry,
    frags: Seq<&'a FragmentDefinition>,
    stack: Seq<MetaType>,
    d: Definition,
) -> Seq<WalkEvent> {
    match d {
        Definition::Operation(op) => operation_trace(r, frags, stack, op),
        Definition::Fragment(fd) => {
            let TypeCondition::On(name) = fd.type_condition;
            match lookup_type(r, name@) {
                Some(t) => fragment_definition_trace(r, frags, stack.push(t), fd, none_expanding(frags.len())),
                None => walk_error(fd.position, unknown_type_message(name@)),
            }
        },
    }
}

/// The walk of the first `n` definitions, in order.
pub open spec fn definitions_trace<'a>(
    r: Registry,
    frags: Seq<&'a FragmentDefinition>,
    stack: Seq<MetaType>,
    defs: Seq<Definition>,
    n: int,
) -> Seq<WalkEvent>
    decreases n,
{
    if n <= 0 || n > defs.len() {
        Seq::empty()
    } else {
        definitions_trace(r, frags, stack, defs, n - 1) + definition_trace(r, frags, stack, defs[n - 1])
    }
}

/// The walk of a document: its enter hook, its definitions in order, its
/// exit hook.
pub open spec fn document_trace<'a>(
    r: Registry,
    frags: Seq<&'a FragmentDefinition>,
    stack: Seq<MetaType>,
    doc: Document,
) -> Seq<WalkEvent> {
    hook(HookEnd::Enter, HookNode::Document(doc), stack) + definitions_trace(
        r,
        frags,
        stack,
        doc.definitions@,
        doc.definitions@.len() as int,
    ) + hook(HookEnd::Exit, HookNode::Document(doc), stack)
}

/// The hook calls of a trace, in order.
pub open spec fn hooks_of(t: Seq<WalkEvent>) -> Seq<WalkEvent>
    decreases t.len(),
{
    if t.len() == 0 {
        Seq::empty()
    } else if t.last() is Hook {
        hooks_of(t.drop_last()).push(t.last())
    } else {
        hooks_of(t.drop_last())
    }
}

/// The hook calls of two traces in a row are those of the first, then those
/// of the second.
pub proof fn lemma_hooks_of_concat(a: Seq<WalkEvent>, b: Seq<WalkEvent>)
    ensures
        hooks_of(a + b) == hooks_of(a) + hooks_of(b),
    decreases b.len(),
{
    if b.len() == 0 {
        assert(a + b =~= a);
        assert(hooks_of(a) + hooks_of(b) =~= hooks_of(a));
    } else {
        lemma_hooks_of_concat(a, b.drop_last());
        assert((a + b).drop_last() =~= a + b.drop_last());
        assert((a + b).last() == b.last());
        if b.last() is Hook {
            assert(hooks_of(a) + hooks_of(b) =~= (hooks_of(a) + hooks_of(b.drop_last())).push(b.last()));
        }
    }
}

/// The visitor's parts have seen the same calls, and those are exactly the
/// hook calls of the context's trace.
pub open spec fn in_step<'a, V: Visitor<'a>>(v: V, ctx: VisitorContext<'a>) -> bool {
    v.synced() && v.log() == hooks_of(ctx.trace())
}

/// The context is fit for a walk: the registry is valid and every type on
/// the stack is registered.
pub open spec fn walk_ready<'a>(ctx: VisitorContext<'a>) -> bool {
    &&& ctx.wf()
    &&& registry_valid(ctx.registry())
    &&& forall|k: int| 0 <= k < ctx.stack().len() ==> in_registry(ctx.registry(), #[trigger] ctx.stack()[k])
}

proof fn lemma_push_ready<'a>(a: VisitorContext<'a>, b: VisitorContext<'a>, t: MetaType)
    requires
        walk_ready(a),
        in_registry(a.registry(), t),
        b.registry() == a.registry(),
        b.stack() == a.stack().push(t),
        b.fragment_list() == a.fragment_list(),
        b.fragment_table() == a.fragment_table(),
    ensures
        walk_ready(b),
{
    assert forall|k: int| 0 <= k < b.stack().len() implies in_registry(b.registry(), #[trigger] b.stack()[k]) by {
        if k < a.stack().len() {
            assert(b.stack()[k] == a.stack()[k]);
        }
    }
}

proof fn lemma_pop_extends<'a>(a: VisitorContext<'a>, b: VisitorContext<'a>, c: VisitorContext<'a>, t: MetaType)
    requires
        b.registry() == a.registry(),
        b.stack() == a.stack().push(t),
        b.fragment_list() == a.fragment_list(),
        b.fragment_table() == a.fragment_table(),
        b.error_list() == a.error_list(),
        c.registry() == a.registry(),
        c.stack() == b.stack().drop_last(),
        c.fragment_list() == a.fragment_list(),
        c.fragment_table() == a.fragment_table(),
        a.error_list().len() <= c.error_list().len(),
        c.error_list().subrange(0, a.error_list().len() as int) == a.error_list(),
    ensures
        extends(a, c),
{
    assert(c.stack() =~= a.stack());
}

proof fn lemma_reported_push<'a>(a: VisitorContext<'a>, b: VisitorContext<'a>, e: RuleError)
    requires
        b.error_list() == a.error_list().push(e),
    ensures
        reported(b) == reported(a) + seq![error_view(e)],
{
    assert(reported(b) =~= reported(a) + seq![error_view(e)]);
}

/// The walk of a fragment spread: its enter hook, its directives, the
/// expansion of the last fragment of its name under the current type unless
/// that one is being expanded, its exit hook.
pub open spec fn spread_trace<'a>(
    r: Registry,
    frags: Seq<&'a FragmentDefinition>,
    stack: Seq<MetaType>,
    fs: FragmentSpread,
    e: Seq<bool>,
) -> Seq<WalkEvent> {
    let expansion = match last_fragment(frags, fs.fragment_name@) {
        Some(k) => if 0 <= k < e.len() && !e[k] {
            selection_set_trace(r, frags, stack, frags[k].selection_set, e.update(k, true))
        } else {
            Seq::empty()
        },
        None => Seq::empty(),
    };
    hook(HookEnd::Enter, HookNode::FragmentSpread(fs), stack) + directives_trace(stack, fs.directives@)
        + expansion + hook(HookEnd::Exit, HookNode::FragmentSpread(fs), stack)
}

/// Walks `doc`, calling the hooks of `v` on each node. The walk keeps the
/// current schema type on the context's stack and reports what it finds
/// itself: type conditions on unknown types, operations whose root type the
/// schema lacks, fields the current type does not have. Errors are only ever
/// appended, and the stack is as it was afterwards. A fragment spread inside
/// the expansion of the same fragment is not expanded again. Whatever the
/// hooks do, the walk's trace grows by exactly `document_trace`: the hooks
/// in the order called, with the stacks they saw, and the walk's own errors.
/// The chain itself logs each hook call it receives; for a chain whose log
/// matches the context's trace (a new chain on a new context), the calls it
/// receives are exactly the hook entries of `document_trace`. When the hooks
/// report nothing, the errors added are exactly `document_errors`.
pub fn visit<'a, V: Visitor<'a>>(v: &mut V, ctx: &mut VisitorContext<'a>, doc: &'a Document)
    requires
        walk_ready(*old(ctx)),
    ensures
        in_step(*old(v), *old(ctx)) ==> final(v).log() == old(v).log() + hooks_of(
            document_trace(old(ctx).registry(), old(ctx).fragment_list(), old(ctx).stack(), *doc),
        ),
        in_step(*old(v), *old(ctx)) ==> in_step(*final(v), *final(ctx)),
        extends(*old(ctx), *final(ctx)),
        final(ctx).trace() == old(ctx).trace() + document_trace(
            old(ctx).registry(),
            old(ctx).fragment_list(),
            old(ctx).stack(),
            *doc,
        ),
        old(v).quiet() ==> final(v).quiet() && reported(*final(ctx)) == reported(*old(ctx))
            + document_errors(old(ctx).registry(), old(ctx).fragment_list(), *doc),
{
    ctx.record(Ghost(WalkEvent::Hook(HookEnd::Enter, HookNode::Document(*doc), ctx.stack())));
    let ghost a0 = *ctx;
    v.enter_document(ctx, doc);
    let ghost a = *ctx;
    visit_definitions(v, ctx, doc);
    let ghost b = *ctx;
    ctx.record(Ghost(WalkEvent::Hook(HookEnd::Exit, HookNode::Document(*doc), ctx.stack())));
    let ghost b0 = *ctx;
    v.exit_document(ctx, doc);
    proof {
        lemma_hooks_of_concat(
            old(ctx).trace(),
            document_trace(old(ctx).registry(), old(ctx).fragment_list(), old(ctx).stack(), *doc),
        );
        lemma_extends_trans(*old(ctx), a0, a);
        lemma_extends_trans(*old(ctx), a, b);
        lemma_extends_trans(*old(ctx), b, b0);
        lemma_extends_trans(*old(ctx), b0, *ctx);
        assert(ctx.trace() =~= old(ctx).trace() + document_trace(
            old(ctx).registry(),
            old(ctx).fragment_list(),
            old(ctx).stack(),
            *doc,
        ));
    }
}

fn no_expansion(n: usize) -> (r: Vec<bool>)
    ensures
        r@ == none_expanding(n as nat),
{
    let mut r: Vec<bool> = Vec::new();
    let mut i: usize = 0;
    while i < n
        invariant
            i <= n,
            r@ == none_expanding(i as nat),
        decreases n - i,
    {
        r.push(false);
        assert(r@ =~= none_expanding((i + 1) as nat));
        i = i + 1;
    }
    r
}

fn visit_definitions<'a, V: Visitor<'a>>(v: &mut V, ctx: &mut VisitorContext<'a>, doc: &'a Document)
    requires
        walk_ready(*old(ctx)),
    ensures
        in_step(*old(v), *old(ctx)) ==> in_step(*final(v), *final(ctx)),
        extends(*old(ctx), *final(ctx)),
        final(ctx).trace() == old(ctx).trace() + definitions_trace(
            old(ctx).registry(),
            old(ctx).fragment_list(),
            old(ctx).stack(),
            doc.definitions@,
            doc.definitions@.len() as int,
        ),
        old(v).quiet() ==> final(v).quiet() && reported(*final(ctx)) == reported(*old(ctx))
            + document_errors(old(ctx).registry(), old(ctx).fragment_list(), *doc),
{
    proof {
        lemma_extends_refl(*ctx);
        assert(reported(*ctx) =~= reported(*ctx) + Seq::<ErrorView>::empty());
        assert(ctx.trace() =~= ctx.trace() + Seq::<WalkEvent>::empty());
    }
    let ghost r = ctx.registry();
    let ghost frags = ctx.fragment_list();
    let ghost st = ctx.stack();
    let n = doc.definitions.len();
    let mut i: usize = 0;
    while i < n
        invariant
            i <= n,
            n == doc.definitions@.len(),
            walk_ready(*old(ctx)),
            extends(*old(ctx), *ctx),
            in_step(*old(v), *old(ctx)) ==> in_step(*v, *ctx),
            r == old(ctx).registry(),
            frags == old(ctx).fragment_list(),
            st == old(ctx).stack(),
            ctx.trace() == old(ctx).trace() + definitions_trace(r, frags, st, doc.definitions@, i as int),
            old(v).quiet() ==> v.quiet() && reported(*ctx) == reported(*old(ctx)) + definitions_errors(
                r,
                frags,
                doc.definitions@,
                i as int,
            ),
        decreases n - i,
    {
        let ghost before = *ctx;
        let expanding = no_expansion(ctx.fragment_count());
        match &doc.definitions[i] {
            Definition::Operation(operation) => {
                visit_operation_definition(v, ctx, operation, &expanding);
            },
            Definition::Fragment(fragment) => {
                let TypeCondition::On(name) = &fragment.type_condition;
                match type_condition_target(ctx.schema(), name.as_str(), fragment.position) {
                    Ok(ty) => {
                        proof {
                            lemma_lookup_in_registry(ctx.registry(), name@);
                        }
                        ctx.push_type(ty);
                        let ghost pushed = *ctx;
                        proof {
                            lemma_push_ready(before, pushed, *ty);
                        }
                        visit_fragment_definition(v, ctx, fragment, &expanding);
                        ctx.pop_type();
                        proof {
                            lemma_pop_extends(before, pushed, *ctx, *ty);
                        }
                    },
                    Err(e) => {
                        ctx.push_error(e);
                        proof {
                            assert(ctx.error_list().subrange(0, before.error_list().len() as int) =~= before.error_list());
                            lemma_reported_push(before, *ctx, e);
                        }
                    },
                }
            },
        }
        proof {
            lemma_extends_trans(*old(ctx), before, *ctx);
            assert(ctx.trace() =~= old(ctx).trace() + definitions_trace(r, frags, st, doc.definitions@, i + 1));
            if old(v).quiet() {
                assert(reported(*ctx) =~= reported(*old(ctx)) + definitions_errors(
                    r,
                    frags,
                    doc.definitions@,
                    i + 1,
                ));
            }
        }
        i = i + 1;
    }
}

fn visit_operation_definition<'a, V: Visitor<'a>>(
    v: &mut V,
    ctx: &mut VisitorContext<'a>,
    operation: &'a OperationDefinition,
    expanding: &Vec<bool>,
)
    requires
        walk_ready(*old(ctx)),
        expanding@ == none_expanding(old(ctx).fragment_list().len()),
    ensures
        in_step(*old(v), *old(ctx)) ==> in_step(*final(v), *final(ctx)),
        extends(*old(ctx), *final(ctx)),
        final(ctx).trace() == old(ctx).trace() + operation_trace(
            old(ctx).registry(),
            old(ctx).fragment_list(),
            old(ctx).stack(),
            *operation,
        ),
        old(v).quiet() ==> final(v).quiet() && reported(*final(ctx)) == reported(*old(ctx))
            + operation_errors(old(ctx).registry(), old(ctx).fragment_list(), *operation),
{
    ctx.record(Ghost(WalkEvent::Hook(HookEnd::Enter, HookNode::OperationDefinition(*operation), ctx.stack())));
    let ghost a0 = *ctx;
    v.enter_operation_definition(ctx, operation);
    let ghost before = *ctx;
    proof {
        lemma_extends_trans(*old(ctx), a0, before);
    }
    match operation_root(ctx.schema(), operation) {
        Ok(ty) => {
            proof {
                let r = ctx.registry();
                match *operation {
                    OperationDefinition::Mutation(_) => lemma_lookup_in_registry(r, r.mutation_type->0@),
                    OperationDefinition::Subscription(_) => lemma_lookup_in_registry(r, r.subscription_type->0@),
                    _ => lemma_lookup_in_registry(r, r.query_type@),
                }
            }
            ctx.push_type(ty);
            let ghost pushed = *ctx;
            proof {
                lemma_push_ready(before, pushed, *ty);
                lemma_extends_refl(pushed);
            }
            match operation {
                OperationDefinition::SelectionSet(selection_set) => {
                    visit_selection_set(v, ctx, selection_set, expanding);
                },
                OperationDefinition::Query(op) | OperationDefinition::Mutation(op)
                | OperationDefinition::Subscription(op) => {
                    visit_variable_definitions(v, ctx, &op.variable_definitions);
                    let ghost a = *ctx;
                    visit_directives(v, ctx, &op.directives);
                    let ghost b = *ctx;
                    visit_selection_set(v, ctx, &op.selection_set, expanding);
                    proof {
                        lemma_extends_trans(pushed, a, b);
                        lemma_extends_trans(pushed, b, *ctx);
                    }
                },
            }
            ctx.pop_type();
            proof {
                lemma_pop_extends(before, pushed, *ctx, *ty);
            }
        },
        Err(e) => {
            ctx.push_error(e);
            proof {
                assert(ctx.error_list().subrange(0, before.error_list().len() as int) =~= before.error_list());
                lemma_reported_push(before, *ctx, e);
            }
        },
    }
    let ghost after = *ctx;
    ctx.record(Ghost(WalkEvent::Hook(HookEnd::Exit, HookNode::OperationDefinition(*operation), ctx.stack())));
    let ghost after0 = *ctx;
    v.exit_operation_definition(ctx, operation);
    proof {
        lemma_extends_trans(*old(ctx), before, after);
        lemma_extends_trans(*old(ctx), after, after0);
        lemma_extends_trans(*old(ctx), after0, *ctx);
        assert(ctx.trace() =~= old(ctx).trace() + operation_trace(
            old(ctx).registry(),
            old(ctx).fragment_list(),
            old(ctx).stack(),
            *operation,
        ));
    }
}

fn visit_selection_set<'a, V: Visitor<'a>>(
    v: &mut V,
    ctx: &mut VisitorContext<'a>,
    selection_set: &'a SelectionSet,
    expanding: &Vec<bool>,
)
    requires
        walk_ready(*old(ctx)),
        old(ctx).stack().len() > 0,
        expanding@.len() == old(ctx).fragment_list().len(),
    ensures
        selection_set.items@.len() == 0 ==> *final(ctx) == *old(ctx) && *final(v) == *old(v),
        in_step(*old(v), *old(ctx)) ==> in_step(*final(v), *final(ctx)),
        extends(*old(ctx), *final(ctx)),
        final(ctx).trace() == old(ctx).trace() + selection_set_trace(
            old(ctx).registry(),
            old(ctx).fragment_list(),
            old(ctx).stack(),
            *selection_set,
            expanding@,
        ),
        old(v).quiet() ==> final(v).quiet() && reported(*final(ctx)) == reported(*old(ctx))
            + selection_set_errors(
            old(ctx).registry(),
            old(ctx).fragment_list(),
            old(ctx).stack().last(),
            *selection_set,
            expanding@,
        ),
    decreases unexpanded(expanding@), selection_set, 0nat,
{
    proof {
        lemma_extends_refl(*ctx);
        assert(reported(*ctx) =~= reported(*ctx) + Seq::<ErrorView>::empty());
        assert(ctx.trace() =~= ctx.trace() + Seq::<WalkEvent>::empty());
    }
    let ghost r = ctx.registry();
    let ghost frags = ctx.fragment_list();
    let ghost st = ctx.stack();
    let ghost cur = ctx.stack().last();
    let n = selection_set.items.len();
    if n > 0 {
        ctx.record(Ghost(WalkEvent::Hook(HookEnd::Enter, HookNode::SelectionSet(*selection_set), ctx.stack())));
        let ghost a0 = *ctx;
        v.enter_selection_set(ctx, selection_set);
        proof {
            lemma_extends_trans(*old(ctx), a0, *ctx);
        }
        let ghost entered = *ctx;
        let mut i: usize = 0;
        while i < n
            invariant
                i <= n,
                n == selection_set.items@.len(),
                walk_ready(*old(ctx)),
                old(ctx).stack().len() > 0,
                expanding@.len() == old(ctx).fragment_list().len(),
                extends(*old(ctx), *ctx),
                in_step(*old(v), *old(ctx)) ==> in_step(*v, *ctx),
            in_step(*old(v), *old(ctx)) ==> in_step(*v, *ctx),
                r == old(ctx).registry(),
                frags == old(ctx).fragment_list(),
                st == old(ctx).stack(),
                cur == old(ctx).stack().last(),
                ctx.trace() == old(ctx).trace() + hook(HookEnd::Enter, HookNode::SelectionSet(*selection_set), st)
                    + selections_trace(r, frags, st, *selection_set, i as int, expanding@),
                old(v).quiet() ==> v.quiet() && reported(*ctx) == reported(*old(ctx))
                    + selections_errors(r, frags, cur, *selection_set, i as int, expanding@),
            decreases n - i,
        {
            let ghost before = *ctx;
            proof {
                vstd::std_specs::vec::axiom_vec_index_decreases(selection_set.items, i as int);
            }
            visit_selection(v, ctx, &selection_set.items[i], expanding);
            proof {
                lemma_extends_trans(*old(ctx), before, *ctx);
                assert(ctx.trace() =~= old(ctx).trace() + hook(HookEnd::Enter, HookNode::SelectionSet(*selection_set), st)
                    + selections_trace(r, frags, st, *selection_set, i + 1, expanding@));
                if old(v).quiet() {
                    assert(reported(*ctx) =~= reported(*old(ctx)) + selections_errors(
                        r,
                        frags,
                        cur,
                        *selection_set,
                        i + 1,
                        expanding@,
                    ));
                }
            }
            i = i + 1;
        }
        let ghost before = *ctx;
        ctx.record(Ghost(WalkEvent::Hook(HookEnd::Exit, HookNode::SelectionSet(*selection_set), ctx.stack())));
        let ghost b0 = *ctx;
        v.exit_selection_set(ctx, selection_set);
        proof {
            lemma_extends_trans(*old(ctx), before, b0);
            lemma_extends_trans(*old(ctx), b0, *ctx);
            assert(ctx.trace() =~= old(ctx).trace() + selection_set_trace(r, frags, st, *selection_set, expanding@));
        }
    }
}

fn visit_selection<'a, V: Visitor<'a>>(
    v: &mut V,
    ctx: &mut VisitorContext<'a>,
    selection: &'a Selection,
    expanding: &Vec<bool>,
)
    requires
        walk_ready(*old(ctx)),
        old(ctx).stack().len() > 0,
        expanding@.len() == old(ctx).fragment_list().len(),
    ensures
        in_step(*old(v), *old(ctx)) ==> in_step(*final(v), *final(ctx)),
        extends(*old(ctx), *final(ctx)),
        final(ctx).trace() == old(ctx).trace() + selection_trace(
            old(ctx).registry(),
            old(ctx).fragment_list(),
            old(ctx).stack(),
            *selection,
            expanding@,
        ),
        old(v).quiet() ==> final(v).quiet() && reported(*final(ctx)) == reported(*old(ctx))
            + selection_errors(
            old(ctx).registry(),
            old(ctx).fragment_list(),
            old(ctx).stack().last(),
            *selection,
            expanding@,
        ),
    decreases unexpanded(expanding@), selection, 1nat,
{
    ctx.record(Ghost(WalkEvent::Hook(HookEnd::Enter, HookNode::Selection(*selection), ctx.stack())));
    let ghost a0 = *ctx;
    v.enter_selection(ctx, selection);
    let ghost before = *ctx;
    proof {
        lemma_extends_trans(*old(ctx), a0, before);
        lemma_extends_refl(before);
        assert(reported(before) =~= reported(before) + Seq::<ErrorView>::empty());
    }
    match selection {
        Selection::Field(field) => {
            let current = ctx.current_type();
            match field_target(ctx.schema(), current, field) {
                Ok(ty) => {
                    proof {
                        let r = ctx.registry();
                        let c = ctx.stack()[ctx.stack().len() - 1];
                        let fi = choose|i: int| 0 <= i < r.types@.len() && #[trigger] r.types@[i].1 == c;
                        assert(field_of(r.types@[fi].1, field.name@) is Some);
                        let f = field_of(c, field.name@)->0;
                        lemma_lookup_in_registry(r, crate::type_ref::base_name(crate::type_ref::parse_type(f.ty@)->0));
                    }
                    ctx.push_type(ty);
                    let ghost pushed = *ctx;
                    proof {
                        lemma_push_ready(before, pushed, *ty);
                    }
                    visit_field(v, ctx, field, expanding);
                    ctx.pop_type();
                    proof {
                        lemma_pop_extends(before, pushed, *ctx, *ty);
                    }
                },
                Err(e) => {
                    ctx.push_error(e);
                    proof {
                        assert(ctx.error_list().subrange(0, before.error_list().len() as int) =~= before.error_list());
                        lemma_reported_push(before, *ctx, e);
                    }
                },
            }
        },
        Selection::FragmentSpread(fragment_spread) => {
            visit_fragment_spread(v, ctx, fragment_spread, expanding, Ghost(*selection));
        },
        Selection::InlineFragment(inline_fragment) => {
            match &inline_fragment.type_condition {
                Some(TypeCondition::On(name)) => {
                    match type_condition_target(ctx.schema(), name.as_str(), inline_fragment.position) {
                        Ok(ty) => {
                            proof {
                                lemma_lookup_in_registry(ctx.registry(), name@);
                            }
                            ctx.push_type(ty);
                            let ghost pushed = *ctx;
                            proof {
                                lemma_push_ready(before, pushed, *ty);
                            }
                            visit_inline_fragment(v, ctx, inline_fragment, expanding);
                            ctx.pop_type();
                            proof {
                                lemma_pop_extends(before, pushed, *ctx, *ty);
                            }
                        },
                        Err(e) => {
                            ctx.push_error(e);
                            proof {
                                assert(ctx.error_list().subrange(0, before.error_list().len() as int) =~= before.error_list());
                                lemma_reported_push(before, *ctx, e);
                            }
                        },
                    }
                },
                None => {
                    visit_inline_fragment(v, ctx, inline_fragment, expanding);
                },
            }
        },
    }
    let ghost after = *ctx;
    ctx.record(Ghost(WalkEvent::Hook(HookEnd::Exit, HookNode::Selection(*selection), ctx.stack())));
    let ghost after0 = *ctx;
    v.exit_selection(ctx, selection);
    proof {
        lemma_extends_trans(*old(ctx), before, after);
        lemma_extends_trans(*old(ctx), after, after0);
        lemma_extends_trans(*old(ctx), after0, *ctx);
        assert(ctx.trace() =~= old(ctx).trace() + selection_trace(
            old(ctx).registry(),
            old(ctx).fragment_list(),
            old(ctx).stack(),
            *selection,
            expanding@,
        ));
    }
}

fn visit_field<'a, V: Visitor<'a>>(
    v: &mut V,
    ctx: &mut VisitorContext<'a>,
    field: &'a Field,
    expanding: &Vec<bool>,
)
    requires
        walk_ready(*old(ctx)),
        old(ctx).stack().len() > 0,
        expanding@.len() == old(ctx).fragment_list().len(),
    ensures
        in_step(*old(v), *old(ctx)) ==> in_step(*final(v), *final(ctx)),
        extends(*old(ctx), *final(ctx)),
        final(ctx).trace() == old(ctx).trace() + field_trace(
            old(ctx).registry(),
            old(ctx).fragment_list(),
            old(ctx).stack(),
            *field,
            expanding@,
        ),
        old(v).quiet() ==> final(v).quiet() && reported(*final(ctx)) == reported(*old(ctx))
            + selection_set_errors(
            old(ctx).registry(),
            old(ctx).fragment_list(),
            old(ctx).stack().last(),
            field.selection_set,
            expanding@,
        ),
    decreases unexpanded(expanding@), field, 0nat,
{
    ctx.record(Ghost(WalkEvent::Hook(HookEnd::Enter, HookNode::Field(*field), ctx.stack())));
    let ghost a0 = *ctx;
    v.enter_field(ctx, field);
    let ghost a = *ctx;
    visit_arguments(v, ctx, field.position, &field.arguments);
    let ghost b = *ctx;
    visit_directives(v, ctx, &field.directives);
    let ghost c = *ctx;
    visit_selection_set(v, ctx, &field.selection_set, expanding);
    let ghost d = *ctx;
    ctx.record(Ghost(WalkEvent::Hook(HookEnd::Exit, HookNode::Field(*field), ctx.stack())));
    let ghost d0 = *ctx;
    v.exit_field(ctx, field);
    proof {
        lemma_extends_trans(*old(ctx), a0, a);
        lemma_extends_trans(*old(ctx), a, b);
        lemma_extends_trans(*old(ctx), b, c);
        lemma_extends_trans(*old(ctx), c, d);
        lemma_extends_trans(*old(ctx), d, d0);
        lemma_extends_trans(*old(ctx), d0, *ctx);
        assert(ctx.trace() =~= old(ctx).trace() + field_trace(
            old(ctx).registry(),
            old(ctx).fragment_list(),
            old(ctx).stack(),
            *field,
            expanding@,
        ));
    }
}

fn visit_arguments<'a, V: Visitor<'a>>(
    v: &mut V,
    ctx: &mut VisitorContext<'a>,
    pos: Pos,
    arguments: &'a Vec<(String, Value)>,
)
    ensures
        in_step(*old(v), *old(ctx)) ==> in_step(*final(v), *final(ctx)),
        extends(*old(ctx), *final(ctx)),
        final(ctx).trace() == old(ctx).trace() + arguments_trace(old(ctx).stack(), pos, arguments@),
        old(v).quiet() ==> final(v).quiet() && final(ctx).error_list() == old(ctx).error_list(),
{
    proof {
        lemma_extends_refl(*ctx);
        assert(arguments@.take(0) =~= Seq::<(String, Value)>::empty());
        assert(ctx.trace() =~= ctx.trace() + Seq::<WalkEvent>::empty());
    }
    let ghost st = ctx.stack();
    let n = arguments.len();
    let mut i: usize = 0;
    while i < n
        invariant
            i <= n,
            n == arguments@.len(),
            extends(*old(ctx), *ctx),
            in_step(*old(v), *old(ctx)) ==> in_step(*v, *ctx),
            st == old(ctx).stack(),
            ctx.trace() == old(ctx).trace() + arguments_trace(st, pos, arguments@.take(i as int)),
            old(v).quiet() ==> v.quiet() && ctx.error_list() == old(ctx).error_list(),
        decreases n - i,
    {
        let (name, value) = &arguments[i];
        let ghost a0 = *ctx;
        ctx.record(Ghost(WalkEvent::Hook(HookEnd::Enter, HookNode::Argument(pos, name@, *value), ctx.stack())));
        let ghost a1 = *ctx;
        v.enter_argument(ctx, pos, name.as_str(), value);
        let ghost a = *ctx;
        ctx.record(Ghost(WalkEvent::Hook(HookEnd::Exit, HookNode::Argument(pos, name@, *value), ctx.stack())));
        let ghost b = *ctx;
        v.exit_argument(ctx, pos, name.as_str(), value);
        proof {
            lemma_extends_trans(*old(ctx), a0, a1);
            lemma_extends_trans(*old(ctx), a1, a);
            lemma_extends_trans(*old(ctx), a, b);
            lemma_extends_trans(*old(ctx), b, *ctx);
            assert(arguments@.take(i + 1).drop_last() =~= arguments@.take(i as int));
            assert(ctx.trace() =~= old(ctx).trace() + arguments_trace(st, pos, arguments@.take(i + 1)));
        }
        i = i + 1;
    }
    proof {
        assert(arguments@.take(n as int) =~= arguments@);
    }
}

fn visit_variable_definitions<'a, V: Visitor<'a>>(
    v: &mut V,
    ctx: &mut VisitorContext<'a>,
    variable_definitions: &'a Vec<VariableDefinition>,
)
    ensures
        in_step(*old(v), *old(ctx)) ==> in_step(*final(v), *final(ctx)),
        extends(*old(ctx), *final(ctx)),
        final(ctx).trace() == old(ctx).trace() + variables_trace(old(ctx).stack(), variable_definitions@),
        old(v).quiet() ==> final(v).quiet() && final(ctx).error_list() == old(ctx).error_list(),
{
    proof {
        lemma_extends_refl(*ctx);
        assert(variable_definitions@.take(0) =~= Seq::<VariableDefinition>::empty());
        assert(ctx.trace() =~= ctx.trace() + Seq::<WalkEvent>::empty());
    }
    let ghost st = ctx.stack();
    let n = variable_definitions.len();
    let mut i: usize = 0;
    while i < n
        invariant
            i <= n,
            n == variable_definitions@.len(),
            extends(*old(ctx), *ctx),
            in_step(*old(v), *old(ctx)) ==> in_step(*v, *ctx),
            st == old(ctx).stack(),
            ctx.trace() == old(ctx).trace() + variables_trace(st, variable_definitions@.take(i as int)),
            old(v).quiet() ==> v.quiet() && ctx.error_list() == old(ctx).error_list(),
        decreases n - i,
    {
        let d = &variable_definitions[i];
        let ghost a0 = *ctx;
        ctx.record(Ghost(WalkEvent::Hook(HookEnd::Enter, HookNode::VariableDefinition(*d), ctx.stack())));
        let ghost a1 = *ctx;
        v.enter_variable_definition(ctx, d);
        let ghost a = *ctx;
        ctx.record(Ghost(WalkEvent::Hook(HookEnd::Exit, HookNode::VariableDefinition(*d), ctx.stack())));
        let ghost b = *ctx;
        v.exit_variable_definition(ctx, d);
        proof {
            lemma_extends_trans(*old(ctx), a0, a1);
            lemma_extends_trans(*old(ctx), a1, a);
            lemma_extends_trans(*old(ctx), a, b);
            lemma_extends_trans(*old(ctx), b, *ctx);
            assert(variable_definitions@.take(i + 1).drop_last() =~= variable_definitions@.take(i as int));
            assert(ctx.trace() =~= old(ctx).trace() + variables_trace(st, variable_definitions@.take(i + 1)));
        }
        i = i + 1;
    }
    proof {
        assert(variable_definitions@.take(n as int) =~= variable_definitions@);
    }
}

fn visit_directives<'a, V: Visitor<'a>>(
    v: &mut V,
    ctx: &mut VisitorContext<'a>,
    directives: &'a Vec<Directive>,
)
    ensures
        in_step(*old(v), *old(ctx)) ==> in_step(*final(v), *final(ctx)),
        extends(*old(ctx), *final(ctx)),
        final(ctx).trace() == old(ctx).trace() + directives_trace(old(ctx).stack(), directives@),
        old(v).quiet() ==> final(v).quiet() && final(ctx).error_list() == old(ctx).error_list(),
{
    proof {
        lemma_extends_refl(*ctx);
        assert(directives@.take(0) =~= Seq::<Directive>::empty());
        assert(ctx.trace() =~= ctx.trace() + Seq::<WalkEvent>::empty());
    }
    let ghost st = ctx.stack();
    let n = directives.len();
    let mut i: usize = 0;
    while i < n
        invariant
            i <= n,
            n == directives@.len(),
            extends(*old(ctx), *ctx),
            in_step(*old(v), *old(ctx)) ==> in_step(*v, *ctx),
            st == old(ctx).stack(),
            ctx.trace() == old(ctx).trace() + directives_trace(st, directives@.take(i as int)),
            old(v).quiet() ==> v.quiet() && ctx.error_list() == old(ctx).error_list(),
        decreases n - i,
    {
        let d = &directives[i];
        let ghost a0 = *ctx;
        ctx.record(Ghost(WalkEvent::Hook(HookEnd::Enter, HookNode::Directive(*d), ctx.stack())));
        let ghost a1 = *ctx;
        v.enter_directive(ctx, d);
        let ghost a = *ctx;
        visit_arguments(v, ctx, d.position, &d.arguments);
        let ghost b = *ctx;
        ctx.record(Ghost(WalkEvent::Hook(HookEnd::Exit, HookNode::Directive(*d), ctx.stack())));
        let ghost c = *ctx;
        v.exit_directive(ctx, d);
        proof {
            lemma_extends_trans(*old(ctx), a0, a1);
            lemma_extends_trans(*old(ctx), a1, a);
            lemma_extends_trans(*old(ctx), a, b);
            lemma_extends_trans(*old(ctx), b, c);
            lemma_extends_trans(*old(ctx), c, *ctx);
            assert(directives@.take(i + 1).drop_last() =~= directives@.take(i as int));
            assert(ctx.trace() =~= old(ctx).trace() + directives_trace(st, directives@.take(i + 1)));
        }
        i = i + 1;
    }
    proof {
        assert(directives@.take(n as int) =~= directives@);
    }
}

fn visit_fragment_definition<'a, V: Visitor<'a>>(
    v: &mut V,
    ctx: &mut VisitorContext<'a>,
    fragment: &'a FragmentDefinition,
    expanding: &Vec<bool>,
)
    requires
        walk_ready(*old(ctx)),
        old(ctx).stack().len() > 0,
        expanding@.len() == old(ctx).fragment_list().len(),
    ensures
        in_step(*old(v), *old(ctx)) ==> in_step(*final(v), *final(ctx)),
        extends(*old(ctx), *final(ctx)),
        final(ctx).trace() == old(ctx).trace() + fragment_definition_trace(
            old(ctx).registry(),
            old(ctx).fragment_list(),
            old(ctx).stack(),
            *fragment,
            expanding@,
        ),
        old(v).quiet() ==> final(v).quiet() && reported(*final(ctx)) == reported(*old(ctx))
            + selection_set_errors(
            old(ctx).registry(),
            old(ctx).fragment_list(),
            old(ctx).stack().last(),
            fragment.selection_set,
            expanding@,
        ),
{
    ctx.record(Ghost(WalkEvent::Hook(HookEnd::Enter, HookNode::FragmentDefinition(*fragment), ctx.stack())));
    let ghost a0 = *ctx;
    v.enter_fragment_definition(ctx, fragment);
    let ghost a = *ctx;
    visit_directives(v, ctx, &fragment.directives);
    let ghost b = *ctx;
    visit_selection_set(v, ctx, &fragment.selection_set, expanding);
    let ghost c = *ctx;
    ctx.record(Ghost(WalkEvent::Hook(HookEnd::Exit, HookNode::FragmentDefinition(*fragment), ctx.stack())));
    let ghost c0 = *ctx;
    v.exit_fragment_definition(ctx, fragment);
    proof {
        lemma_extends_trans(*old(ctx), a0, a);
        lemma_extends_trans(*old(ctx), a, b);
        lemma_extends_trans(*old(ctx), b, c);
        lemma_extends_trans(*old(ctx), c, c0);
        lemma_extends_trans(*old(ctx), c0, *ctx);
        assert(ctx.trace() =~= old(ctx).trace() + fragment_definition_trace(
            old(ctx).registry(),
            old(ctx).fragment_list(),
            old(ctx).stack(),
            *fragment,
            expanding@,
        ));
    }
}

fn visit_fragment_spread<'a, V: Visitor<'a>>(
    v: &mut V,
    ctx: &mut VisitorContext<'a>,
    fragment_spread: &'a FragmentSpread,
    expanding: &Vec<bool>,
    Ghost(selection): Ghost<Selection>,
)
    requires
        selection == Selection::FragmentSpread(*fragment_spread),
        walk_ready(*old(ctx)),
        old(ctx).stack().len() > 0,
        expanding@.len() == old(ctx).fragment_list().len(),
    ensures
        in_step(*old(v), *old(ctx)) ==> in_step(*final(v), *final(ctx)),
        extends(*old(ctx), *final(ctx)),
        final(ctx).trace() == old(ctx).trace() + spread_trace(
            old(ctx).registry(),
            old(ctx).fragment_list(),
            old(ctx).stack(),
            *fragment_spread,
            expanding@,
        ),
        old(v).quiet() ==> final(v).quiet() && reported(*final(ctx)) == reported(*old(ctx))
            + selection_errors(
            old(ctx).registry(),
            old(ctx).fragment_list(),
            old(ctx).stack().last(),
            selection,
            expanding@,
        ),
    decreases unexpanded(expanding@), selection, 0nat,
{
    ctx.record(Ghost(WalkEvent::Hook(HookEnd::Enter, HookNode::FragmentSpread(*fragment_spread), ctx.stack())));
    let ghost a0 = *ctx;
    v.enter_fragment_spread(ctx, fragment_spread);
    let ghost a = *ctx;
    visit_directives(v, ctx, &fragment_spread.directives);
    let ghost b = *ctx;
    proof {
        lemma_extends_refl(b);
        assert(reported(b) =~= reported(b) + Seq::<ErrorView>::empty());
    }
    match ctx.fragment_index(fragment_spread.fragment_name.as_str()) {
        Some(k) => {
            proof {
                lemma_last_fragment_some(ctx.fragment_list(), fragment_spread.fragment_name@);
            }
            if !expanding[k] {
                let n = expanding.len();
                let mut inner: Vec<bool> = Vec::new();
                let mut j: usize = 0;
                while j < n
                    invariant
                        j <= n,
                        n == expanding@.len(),
                        k < n,
                        inner@ == expanding@.update(k as int, true).take(j as int),
                    decreases n - j,
                {
                    if j == k {
                        inner.push(true);
                    } else {
                        inner.push(expanding[j]);
                    }
                    assert(inner@ =~= expanding@.update(k as int, true).take(j + 1));
                    j = j + 1;
                }
                proof {
                    assert(inner@ =~= expanding@.update(k as int, true));
                    lemma_unexpanded_mark(expanding@, k as int);
                }
                let fragment = ctx.fragment_at(k);
                visit_selection_set(v, ctx, &fragment.selection_set, &inner);
            }
        },
        None => {},
    }
    let ghost c = *ctx;
    ctx.record(Ghost(WalkEvent::Hook(HookEnd::Exit, HookNode::FragmentSpread(*fragment_spread), ctx.stack())));
    let ghost c0 = *ctx;
    v.exit_fragment_spread(ctx, fragment_spread);
    proof {
        lemma_extends_trans(*old(ctx), a0, a);
        lemma_extends_trans(*old(ctx), a, b);
        lemma_extends_trans(*old(ctx), b, c);
        lemma_extends_trans(*old(ctx), c, c0);
        lemma_extends_trans(*old(ctx), c0, *ctx);
        assert(ctx.trace() =~= old(ctx).trace() + spread_trace(
            old(ctx).registry(),
            old(ctx).fragment_list(),
            old(ctx).stack(),
            *fragment_spread,
            expanding@,
        ));
    }
}

fn visit_inline_fragment<'a, V: Visitor<'a>>(
    v: &mut V,
    ctx: &mut VisitorContext<'a>,
    inline_fragment: &'a InlineFragment,
    expanding: &Vec<bool>,
)
    requires
        walk_ready(*old(ctx)),
        old(ctx).stack().len() > 0,
        expanding@.len() == old(ctx).fragment_list().len(),
    ensures
        in_step(*old(v), *old(ctx)) ==> in_step(*final(v), *final(ctx)),
        extends(*old(ctx), *final(ctx)),
        final(ctx).trace() == old(ctx).trace() + inline_trace(
            old(ctx).registry(),
            old(ctx).fragment_list(),
            old(ctx).stack(),
            *inline_fragment,
            expanding@,
        ),
        old(v).quiet() ==> final(v).quiet() && reported(*final(ctx)) == reported(*old(ctx))
            + selection_set_errors(
            old(ctx).registry(),
            old(ctx).fragment_list(),
            old(ctx).stack().last(),
            inline_fragment.selection_set,
            expanding@,
        ),
    decreases unexpanded(expanding@), inline_fragment, 0nat,
{
    ctx.record(Ghost(WalkEvent::Hook(HookEnd::Enter, HookNode::InlineFragment(*inline_fragment), ctx.stack())));
    let ghost a0 = *ctx;
    v.enter_inline_fragment(ctx, inline_fragment);
    let ghost a = *ctx;
    visit_directives(v, ctx, &inline_fragment.directives);
    let ghost b = *ctx;
    visit_selection_set(v, ctx, &inline_fragment.selection_set, expanding);
    let ghost c = *ctx;
    ctx.record(Ghost(WalkEvent::Hook(HookEnd::Exit, HookNode::InlineFragment(*inline_fragment), ctx.stack())));
    let ghost c0 = *ctx;
    v.exit_inline_fragment(ctx, inline_fragment);
    proof {
        lemma_extends_trans(*old(ctx), a0, a);
        lemma_extends_trans(*old(ctx), a, b);
        lemma_extends_trans(*old(ctx), b, c);
        lemma_extends_trans(*old(ctx), c, c0);
        lemma_extends_trans(*old(ctx), c0, *ctx);
        assert(ctx.trace() =~= old(ctx).trace() + inline_trace(
            old(ctx).registry(),
            old(ctx).fragment_list(),
            old(ctx).stack(),
            *inline_fragment,
            expanding@,
        ));
    }
}

/// Walks `doc` against `registry` with no rules, returning what the walk
/// itself reports: exactly `document_errors`.
pub fn validate(registry: &Registry, doc: &Document) -> (r: Vec<RuleError>)
    requires
        registry_valid(*registry),
    ensures
        r@.map_values(|e: RuleError| error_view(e)) == document_errors(
            *registry,
            fragments_of(doc.definitions@),
            *doc,
        ),
{
    let mut ctx = VisitorContext::new(registry, doc);
    let mut rules = VisitorNil::new();
    visit(&mut rules, &mut ctx, doc);
    let r = ctx.into_errors();
    assert(r@.map_values(|e: RuleError| error_view(e)) =~= reported(ctx));
    r
}

} // verus!
