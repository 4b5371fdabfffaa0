use graphql_dynamic::named_map::NamedMap;
use graphql_dynamic::query::{
    Definition, Document, Field, FragmentDefinition, FragmentSpread, InlineFragment, Operation,
    OperationDefinition, Pos, Selection, SelectionSet, TypeCondition,
};
use graphql_dynamic::registry::{Deprecation, MetaField, MetaType, Registry};
use graphql_dynamic::value::Value;
use graphql_dynamic::visitor::{
    field_target, operation_root, type_condition_target, validate, visit, Rule, RuleVisitor,
    VisitorContext, VisitorNil,
};

fn pos(line: usize, column: usize) -> Pos {
    Pos { line, column }
}

fn registry() -> Registry {
    let mut fields = NamedMap::new();
    fields.insert(
        "a".to_string(),
        MetaField {
            name: "a".to_string(),
            description: None,
            args: NamedMap::new(),
            ty: "Int".to_string(),
            deprecation: Deprecation::NoDeprecated,
        },
    );
    fields.insert(
        "me".to_string(),
        MetaField {
            name: "me".to_string(),
            description: None,
            args: NamedMap::new(),
            ty: "[Query!]!".to_string(),
            deprecation: Deprecation::NoDeprecated,
        },
    );
    let mut r = Registry::new("Query");
    r.insert_type(MetaType::Object {
        name: "Query".to_string(),
        description: None,
        fields,
        implements: vec![],
        inaccessible: false,
        tags: vec![],
    });
    r.insert_type(MetaType::Scalar { name: "Int".to_string(), description: None, inaccessible: false, tags: vec![] });
    r
}

fn field(name: &str, at: Pos, items: Vec<Selection>) -> Selection {
    Selection::Field(Field {
        position: at,
        alias: None,
        name: name.to_string(),
        arguments: vec![("x".to_string(), Value::Int(1))],
        directives: vec![],
        selection_set: SelectionSet { items },
    })
}

fn spread(name: &str, at: Pos) -> Selection {
    Selection::FragmentSpread(FragmentSpread { position: at, fragment_name: name.to_string(), directives: vec![] })
}

fn shorthand(items: Vec<Selection>) -> Document {
    Document { definitions: vec![Definition::Operation(OperationDefinition::SelectionSet(SelectionSet { items }))] }
}

fn run(doc: &Document, reg: &Registry) -> Vec<(Vec<Pos>, String)> {
    let mut ctx = VisitorContext::new(reg, doc);
    visit(&mut VisitorNil::new(), &mut ctx, doc);
    ctx.into_errors().into_iter().map(|e| (e.locations, e.message)).collect()
}

#[test]
fn unknown_field_is_reported() {
    let reg = registry();
    let doc = shorthand(vec![field("b", pos(1, 3), vec![])]);
    assert_eq!(run(&doc, &reg), vec![(vec![pos(1, 3)], "Cannot query field \"b\" on type \"Query\".".to_string())]);
}

#[test]
fn known_fields_give_no_error() {
    let reg = registry();
    let doc = shorthand(vec![field("a", pos(1, 3), vec![]), field("me", pos(1, 5), vec![field("a", pos(1, 10), vec![])])]);
    assert!(run(&doc, &reg).is_empty());
}

#[test]
fn nested_field_is_looked_up_on_the_field_type() {
    let reg = registry();
    let doc = shorthand(vec![field("a", pos(1, 3), vec![field("z", pos(1, 7), vec![])])]);
    assert_eq!(run(&doc, &reg), vec![(vec![pos(1, 7)], "Cannot query field \"z\" on type \"Int\".".to_string())]);
}

#[test]
fn unknown_fragment_spread_is_not_fatal() {
    let reg = registry();
    let doc = shorthand(vec![spread("X", pos(1, 3))]);
    assert!(run(&doc, &reg).is_empty());
}

#[test]
fn mutation_without_mutation_type_is_reported() {
    let reg = registry();
    let doc = Document {
        definitions: vec![Definition::Operation(OperationDefinition::Mutation(Operation {
            position: pos(1, 1),
            name: Some("M".to_string()),
            variable_definitions: vec![],
            directives: vec![],
            selection_set: SelectionSet { items: vec![field("x", pos(1, 14), vec![])] },
        }))],
    };
    assert_eq!(run(&doc, &reg), vec![(vec![pos(1, 1)], "Schema is not configured for mutations.".to_string())]);
}

#[test]
fn subscription_without_subscription_type_is_reported() {
    let reg = registry();
    let op = OperationDefinition::Subscription(Operation {
        position: pos(2, 1),
        name: None,
        variable_definitions: vec![],
        directives: vec![],
        selection_set: SelectionSet { items: vec![] },
    });
    let e = operation_root(&reg, &op).unwrap_err();
    assert_eq!(e.message, "Schema is not configured for subscriptions.");
    assert_eq!(e.locations, vec![pos(2, 1)]);
}

#[test]
fn fragment_on_unknown_type_is_reported() {
    let reg = registry();
    let doc = Document {
        definitions: vec![Definition::Fragment(FragmentDefinition {
            position: pos(3, 1),
            name: "F".to_string(),
            type_condition: TypeCondition::On("Nope".to_string()),
            directives: vec![],
            selection_set: SelectionSet { items: vec![field("a", pos(3, 20), vec![])] },
        })],
    };
    assert_eq!(run(&doc, &reg), vec![(vec![pos(3, 1)], "Unknown type \"Nope\".".to_string())]);
    assert_eq!(type_condition_target(&reg, "Nope", pos(1, 1)).unwrap_err().message, "Unknown type \"Nope\".");
    assert_eq!(type_condition_target(&reg, "Int", pos(1, 1)).unwrap().name(), "Int");
}

#[test]
fn inline_fragment_changes_and_inherits_the_type() {
    let reg = registry();
    let typed = Selection::InlineFragment(InlineFragment {
        position: pos(1, 3),
        type_condition: Some(TypeCondition::On("Int".to_string())),
        directives: vec![],
        selection_set: SelectionSet { items: vec![field("a", pos(1, 15), vec![])] },
    });
    let untyped = Selection::InlineFragment(InlineFragment {
        position: pos(1, 20),
        type_condition: None,
        directives: vec![],
        selection_set: SelectionSet { items: vec![field("q", pos(1, 25), vec![])] },
    });
    let doc = shorthand(vec![typed, untyped]);
    assert_eq!(
        run(&doc, &reg),
        vec![
            (vec![pos(1, 15)], "Cannot query field \"a\" on type \"Int\".".to_string()),
            (vec![pos(1, 25)], "Cannot query field \"q\" on type \"Query\".".to_string()),
        ]
    );
}

#[test]
fn self_spreading_fragment_terminates() {
    let reg = registry();
    let doc = Document {
        definitions: vec![
            Definition::Operation(OperationDefinition::SelectionSet(SelectionSet { items: vec![spread("F", pos(1, 3))] })),
            Definition::Fragment(FragmentDefinition {
                position: pos(2, 1),
                name: "F".to_string(),
                type_condition: TypeCondition::On("Query".to_string()),
                directives: vec![],
                selection_set: SelectionSet { items: vec![spread("F", pos(2, 20)), field("bad", pos(2, 25), vec![])] },
            }),
        ],
    };
    let errors = run(&doc, &reg);
    assert!(!errors.is_empty());
    assert!(errors.iter().all(|(_, m)| m == "Cannot query field \"bad\" on type \"Query\"."));
}

#[test]
fn field_target_follows_the_base_type() {
    let reg = registry();
    let query = reg.get_type("Query").unwrap();
    let f = Field {
        position: pos(1, 1),
        alias: None,
        name: "me".to_string(),
        arguments: vec![],
        directives: vec![],
        selection_set: SelectionSet { items: vec![] },
    };
    assert_eq!(field_target(&reg, query, &f).unwrap().name(), "Query");
}

struct Recorder {
    tag: &'static str,
    log: std::rc::Rc<std::cell::RefCell<Vec<String>>>,
}

impl<'a> Rule<'a> for Recorder {
    fn enter_field(&mut self, ctx: &mut VisitorContext<'a>, field: &'a Field) {
        let parent = ctx.parent_type().map(|t| t.name().to_string()).unwrap_or_default();
        self.log.borrow_mut().push(format!("{}:{}:{}:{}", self.tag, field.name, ctx.current_type().name(), parent));
    }

    fn enter_argument(&mut self, _ctx: &mut VisitorContext<'a>, _pos: Pos, name: &'a str, _value: &'a Value) {
        self.log.borrow_mut().push(format!("{}:arg:{}", self.tag, name));
    }
}

#[test]
fn visitor_chain_runs_hooks_in_order_with_type_context() {
    let reg = registry();
    let doc = shorthand(vec![field("me", pos(1, 3), vec![field("a", pos(1, 8), vec![])])]);
    let log = std::rc::Rc::new(std::cell::RefCell::new(Vec::new()));
    let mut chain = VisitorNil::new()
        .with(RuleVisitor::new(Recorder { tag: "second", log: log.clone() }))
        .with(RuleVisitor::new(Recorder { tag: "first", log: log.clone() }));
    let mut ctx = VisitorContext::new(&reg, &doc);
    visit(&mut chain, &mut ctx, &doc);
    assert!(ctx.errors().is_empty());
    assert_eq!(
        *log.borrow(),
        vec![
            "first:me:Query:Query",
            "second:me:Query:Query",
            "first:arg:x",
            "second:arg:x",
            "first:a:Int:Query",
            "second:a:Int:Query",
            "first:arg:x",
            "second:arg:x",
        ]
    );
}

#[test]
fn context_finds_the_last_fragment_of_a_name() {
    let reg = registry();
    let frag = |line: usize| {
        Definition::Fragment(FragmentDefinition {
            position: pos(line, 1),
            name: "F".to_string(),
            type_condition: TypeCondition::On("Query".to_string()),
            directives: vec![],
            selection_set: SelectionSet { items: vec![] },
        })
    };
    let doc = Document { definitions: vec![frag(1), frag(2)] };
    let ctx = VisitorContext::new(&reg, &doc);
    assert!(ctx.is_known_fragment("F"));
    assert!(!ctx.is_known_fragment("G"));
    assert_eq!(ctx.fragment("F").unwrap().position, pos(2, 1));
    assert!(ctx.parent_type().is_none());
}

#[test]
fn validate_collects_errors_in_document_order() {
    let reg = registry();
    let doc = Document {
        definitions: vec![
            Definition::Operation(OperationDefinition::SelectionSet(SelectionSet {
                items: vec![field("b", pos(1, 3), vec![]), field("a", pos(1, 5), vec![field("c", pos(1, 7), vec![])])],
            })),
            Definition::Fragment(FragmentDefinition {
                position: pos(2, 1),
                name: "G".to_string(),
                type_condition: TypeCondition::On("Missing".to_string()),
                directives: vec![],
                selection_set: SelectionSet { items: vec![] },
            }),
        ],
    };
    let errors: Vec<String> = validate(&reg, &doc).into_iter().map(|e| e.message).collect();
    assert_eq!(
        errors,
        vec![
            "Cannot query field \"b\" on type \"Query\".".to_string(),
            "Cannot query field \"c\" on type \"Int\".".to_string(),
            "Unknown type \"Missing\".".to_string(),
        ]
    );
    assert_eq!(validate(&reg, &doc).len(), 3);
}
