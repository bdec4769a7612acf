use funknotes::argspec::{format_arg_spec, ArgSpec};
use funknotes::ast::ASTNode;
use funknotes::executor::{execute_method, handle_input, ChainError, ChainReport};
use funknotes::handlers::{
    method_delete, method_list, method_new, method_title, parse_type_and_name, Action, Handler,
};
use funknotes::interpret::interpret;
use funknotes::registry::{DispatchError, MethodRegistry};
use funknotes::signature::MethodSignature;
use funknotes::types::FunkState;
use funknotes::validation::{validate_arg, ValidationError};

fn lit(s: &str) -> ASTNode {
    ASTNode::Literal(s.to_string())
}

fn word(s: &str) -> ASTNode {
    ASTNode::Identifier(s.to_string())
}

fn kinds() -> Vec<String> {
    vec!["project".to_string(), "object".to_string(), "item".to_string(), "milestone".to_string()]
}

fn kind_or_name() -> ArgSpec {
    ArgSpec::Either(vec![ArgSpec::Identifier(kinds()), ArgSpec::Literal])
}

fn create(kind: &str, name: &str) -> Action {
    Action::Create { kind: kind.to_string(), name: name.to_string() }
}

fn run(source: &str, state: &mut FunkState, registry: &MethodRegistry) -> ChainReport {
    handle_input(interpret(source).unwrap(), state, registry)
}

#[test]
fn validate_identifier_spec() {
    let spec = ArgSpec::Identifier(kinds());
    assert_eq!(validate_arg(&word("item"), &spec, 0, "new"), Ok(()));
    assert_eq!(
        validate_arg(&word("widget"), &spec, 0, "new"),
        Err(ValidationError::IdentifierNotAllowed {
            method: "new".to_string(),
            position: 0,
            allowed: kinds(),
            actual: "widget".to_string(),
        })
    );
    assert_eq!(
        validate_arg(&lit("item"), &spec, 2, "new"),
        Err(ValidationError::ExpectedIdentifier {
            method: "new".to_string(),
            position: 2,
            allowed: kinds(),
        })
    );
}

#[test]
fn validate_literal_spec() {
    assert_eq!(validate_arg(&lit(""), &ArgSpec::Literal, 0, "title"), Ok(()));
    assert_eq!(validate_arg(&lit("any text"), &ArgSpec::Literal, 0, "title"), Ok(()));
    assert_eq!(
        validate_arg(&word("x"), &ArgSpec::Literal, 1, "title"),
        Err(ValidationError::ExpectedLiteral { method: "title".to_string(), position: 1 })
    );
}

#[test]
fn validate_any_spec() {
    assert_eq!(validate_arg(&word("x"), &ArgSpec::Any, 0, "m"), Ok(()));
    assert_eq!(validate_arg(&lit("x"), &ArgSpec::Any, 0, "m"), Ok(()));
    let call = ASTNode::MethodCall { name: "f".to_string(), args: vec![] };
    assert_eq!(validate_arg(&call, &ArgSpec::Any, 0, "m"), Ok(()));
    assert_eq!(validate_arg(&ASTNode::MethodChain(vec![]), &ArgSpec::Any, 0, "m"), Ok(()));
}

#[test]
fn either_accepts_what_both_accept() {
    let both = ArgSpec::Either(vec![ArgSpec::Any, ArgSpec::Literal]);
    assert_eq!(validate_arg(&lit("x"), &both, 0, "m"), Ok(()));
    let swapped = ArgSpec::Either(vec![ArgSpec::Literal, ArgSpec::Any]);
    assert_eq!(validate_arg(&lit("x"), &swapped, 0, "m"), Ok(()));
}

#[test]
fn either_accepts_what_one_accepts() {
    assert_eq!(validate_arg(&word("object"), &kind_or_name(), 0, "new"), Ok(()));
    assert_eq!(validate_arg(&lit("object"), &kind_or_name(), 0, "new"), Ok(()));
}

#[test]
fn either_failure_lists_every_alternative() {
    let result = validate_arg(&word("widget"), &kind_or_name(), 0, "new");
    let expected = ValidationError::NoAlternativeMatched {
        method: "new".to_string(),
        position: 0,
        alternatives: vec!["project|object|item|milestone".to_string(), "\"string\"".to_string()],
        attempts: vec![
            ValidationError::IdentifierNotAllowed {
                method: "new".to_string(),
                position: 0,
                allowed: kinds(),
                actual: "widget".to_string(),
            },
            ValidationError::ExpectedLiteral { method: "new".to_string(), position: 0 },
        ],
    };
    assert_eq!(result, Err(expected));
}

#[test]
fn empty_either_refuses_everything() {
    let none = ArgSpec::Either(vec![]);
    assert_eq!(
        validate_arg(&lit("x"), &none, 0, "m"),
        Err(ValidationError::NoAlternativeMatched {
            method: "m".to_string(),
            position: 0,
            alternatives: vec![],
            attempts: vec![],
        })
    );
}

#[test]
fn nested_either() {
    let nested = ArgSpec::Either(vec![
        ArgSpec::Either(vec![ArgSpec::Identifier(vec!["a".to_string()])]),
        ArgSpec::Literal,
    ]);
    assert_eq!(validate_arg(&word("a"), &nested, 0, "m"), Ok(()));
    assert_eq!(validate_arg(&lit("b"), &nested, 0, "m"), Ok(()));
    assert!(validate_arg(&word("b"), &nested, 0, "m").is_err());
    assert_eq!(format_arg_spec(&nested), "((a)|\"string\")");
}

#[test]
fn format_each_spec() {
    assert_eq!(format_arg_spec(&ArgSpec::Identifier(kinds())), "project|object|item|milestone");
    assert_eq!(format_arg_spec(&ArgSpec::Identifier(vec![])), "");
    assert_eq!(format_arg_spec(&ArgSpec::Literal), "\"string\"");
    assert_eq!(format_arg_spec(&ArgSpec::Any), "any");
    assert_eq!(format_arg_spec(&kind_or_name()), "(project|object|item|milestone|\"string\")");
    assert_eq!(format_arg_spec(&ArgSpec::Either(vec![])), "()");
}

#[test]
fn clone_keeps_the_spec() {
    let spec = kind_or_name();
    assert_eq!(format_arg_spec(&spec.clone()), format_arg_spec(&spec));
}

#[test]
fn signature_usage_line() {
    let registry = MethodRegistry::new();
    let new = registry.signature("new").unwrap();
    assert_eq!(
        new.format_signature(),
        "new((project|object|item|milestone|\"string\"), [\"string\"])"
    );
    let title = registry.signature("title").unwrap();
    assert_eq!(title.format_signature(), "title(\"string\")");
    let bare = MethodSignature::new("bare", vec![], vec![], "", vec![], Handler::List);
    assert_eq!(bare.format_signature(), "bare()");
    let optional = MethodSignature::new(
        "o",
        vec![],
        vec![ArgSpec::Any, ArgSpec::Literal],
        "",
        vec![],
        Handler::List,
    );
    assert_eq!(optional.format_signature(), "o([any], [\"string\"])");
    assert_eq!(optional.clone().format_signature(), "o([any], [\"string\"])");
}

#[test]
fn signature_accessors() {
    let registry = MethodRegistry::new();
    let title = registry.signature("title").unwrap();
    assert_eq!(title.name(), "title");
    assert_eq!(title.help_text(), "Sets the title of the current note");
    assert_eq!(title.handler(), Handler::Title);
    assert!(registry.signature("nothing").is_none());
}

#[test]
fn help_text_of_title() {
    let registry = MethodRegistry::new();
    let title = registry.signature("title").unwrap();
    assert_eq!(
        title.format_help(),
        "\n=== TITLE ===\nSets the title of the current note\n\nUsage:\n  title(\"string\")\n\nExamples:\n  title(\"My Amazing Project\")\n\n"
    );
}

#[test]
fn help_text_of_new_lists_examples_in_order() {
    let registry = MethodRegistry::new();
    let new = registry.signature("new").unwrap();
    assert_eq!(
        new.format_help(),
        "\n=== NEW ===\nCreates a new note of the specified type\n\nUsage:\n  new((project|object|item|milestone|\"string\"), [\"string\"])\n\nExamples:\n  new(\"My Project\")              # Creates a project (default)\n  new(object, \"My Object\")       # Creates an object\n  new(milestone, \"Release 1.0\")  # Creates a milestone\n\n"
    );
}

#[test]
fn help_text_without_examples() {
    let bare = MethodSignature::new("straße", vec![], vec![], "Help.", vec![], Handler::List);
    assert_eq!(bare.format_help(), "\n=== STRASSE ===\nHelp.\n\nUsage:\n  straße()\n\n");
}

#[test]
fn list_methods_is_sorted() {
    let registry = MethodRegistry::new();
    assert_eq!(registry.list_methods(), vec!["delete", "list", "new", "title"]);
    assert_eq!(MethodRegistry::empty().list_methods(), Vec::<String>::new());
}

#[test]
fn register_keeps_names_sorted_and_replaces() {
    let mut registry = MethodRegistry::empty();
    registry.register_with_spec("b", vec![], vec![], "first", vec![], Handler::New);
    registry.register_with_spec("a", vec![], vec![], "", vec![], Handler::New);
    registry.register_with_spec("c", vec![], vec![], "", vec![], Handler::New);
    registry.register_with_spec("B", vec![], vec![], "", vec![], Handler::New);
    registry.register_with_spec("ab", vec![], vec![], "", vec![], Handler::New);
    registry.register_with_spec("é", vec![], vec![], "", vec![], Handler::New);
    assert_eq!(registry.list_methods(), vec!["B", "a", "ab", "b", "c", "é"]);
    registry.register_with_spec("b", vec![ArgSpec::Literal], vec![], "second", vec![], Handler::Title);
    assert_eq!(registry.list_methods(), vec!["B", "a", "ab", "b", "c", "é"]);
    let b = registry.signature("b").unwrap();
    assert_eq!(b.help_text(), "second");
    assert_eq!(b.handler(), Handler::Title);
    assert_eq!(b.format_signature(), "b(\"string\")");
}

#[test]
fn overview_of_all_methods() {
    let registry = MethodRegistry::new();
    let expected = "\n=== AVAILABLE METHODS ===\n\n  \
delete((project|object|item|milestone|\"string\"), [\"string\"]) Deletes the specified type with the specified name.\n  \
list((project|object|item|milestone|\"string\"), [\"string\"]) Lists all the children of the specified identifier.\n  \
new((project|object|item|milestone|\"string\"), [\"string\"]) Creates a new note of the specified type\n  \
title(\"string\")                Sets the title of the current note\n\
\nType .method_name(help) for detailed help on any method.\n\n";
    assert_eq!(registry.format_all_methods(), expected);
}

#[test]
fn overview_of_no_methods() {
    assert_eq!(
        MethodRegistry::empty().format_all_methods(),
        "\n=== AVAILABLE METHODS ===\n\n\nType .method_name(help) for detailed help on any method.\n\n"
    );
}

#[test]
fn execute_unknown_method() {
    let registry = MethodRegistry::new();
    let mut state = FunkState::new();
    assert_eq!(
        registry.execute("rename", &[lit("x")], &mut state),
        Err(DispatchError::UnknownMethod("rename".to_string()))
    );
    assert_eq!(
        registry.execute("rename", &[word("help")], &mut state),
        Err(DispatchError::UnknownMethod("rename".to_string()))
    );
}

#[test]
fn execute_too_few_arguments() {
    let registry = MethodRegistry::new();
    let mut state = FunkState::new();
    assert_eq!(
        registry.execute("new", &[], &mut state),
        Err(DispatchError::Validation(ValidationError::TooFewArguments {
            method: "new".to_string(),
            have: 0,
            min: 1,
        }))
    );
}

#[test]
fn execute_too_many_arguments() {
    let registry = MethodRegistry::new();
    let mut state = FunkState::new();
    assert_eq!(
        registry.execute("new", &[word("item"), lit("a"), lit("b")], &mut state),
        Err(DispatchError::Validation(ValidationError::TooManyArguments {
            method: "new".to_string(),
            have: 3,
            max: 2,
        }))
    );
    assert_eq!(
        registry.execute("title", &[lit("a"), lit("b")], &mut state),
        Err(DispatchError::Validation(ValidationError::TooManyArguments {
            method: "title".to_string(),
            have: 2,
            max: 1,
        }))
    );
    assert_eq!(state.title, "New");
}

#[test]
fn execute_counts_within_bounds() {
    let registry = MethodRegistry::new();
    let mut state = FunkState::new();
    assert_eq!(registry.execute("new", &[lit("A")], &mut state), Ok(create("project", "A")));
    assert_eq!(
        registry.execute("new", &[word("item"), lit("A")], &mut state),
        Ok(create("item", "A"))
    );
}

#[test]
fn signature_without_positions_accepts_any_count() {
    let mut registry = MethodRegistry::empty();
    registry.register_with_spec("free", vec![], vec![], "", vec![], Handler::Title);
    let mut state = FunkState::new();
    assert_eq!(
        registry.execute("free", &[lit("a"), word("b"), lit("c")], &mut state),
        Ok(Action::SetTitle { title: "a".to_string() })
    );
    assert_eq!(state.title, "a");
    assert_eq!(
        registry.execute("free", &[], &mut state),
        Err(DispatchError::Handler("title() expects a string literal".to_string()))
    );
    let free = registry.signature("free").unwrap();
    assert_eq!(free.validate_args(&[]), Ok(()));
    assert_eq!(free.validate_args(&[word("x"), word("y"), word("z"), word("w")]), Ok(()));
}

#[test]
fn optional_positions_are_checked() {
    let registry = MethodRegistry::new();
    let mut state = FunkState::new();
    assert_eq!(
        registry.execute("new", &[word("item"), word("oops")], &mut state),
        Err(DispatchError::Validation(ValidationError::ExpectedLiteral {
            method: "new".to_string(),
            position: 1,
        }))
    );
}

#[test]
fn first_refused_argument_is_reported() {
    let signature = MethodSignature::new(
        "m",
        vec![ArgSpec::Literal, ArgSpec::Literal],
        vec![ArgSpec::Literal],
        "",
        vec![],
        Handler::List,
    );
    assert_eq!(
        signature.validate_args(&[lit("a"), word("b"), word("c")]),
        Err(ValidationError::ExpectedLiteral { method: "m".to_string(), position: 1 })
    );
    assert_eq!(signature.validate_args(&[lit("a"), lit("b")]), Ok(()));
    assert_eq!(signature.validate_args(&[lit("a"), lit("b"), lit("c")]), Ok(()));
}

#[test]
fn validation_failure_names_allowed_set_and_actual_value() {
    let registry = MethodRegistry::new();
    let mut state = FunkState::new();
    let result = registry.execute("new", &[word("widget"), lit("X")], &mut state);
    let error = match result {
        Err(DispatchError::Validation(e)) => e,
        other => panic!("unexpected outcome: {:?}", other),
    };
    assert_eq!(
        error.message(),
        "new() argument 1 must match one of: project|object|item|milestone OR \"string\""
    );
    match error {
        ValidationError::NoAlternativeMatched { attempts, .. } => match &attempts[0] {
            ValidationError::IdentifierNotAllowed { allowed, actual, .. } => {
                assert_eq!(allowed.join("|"), "project|object|item|milestone");
                assert_eq!(actual, "widget");
                assert_eq!(
                    attempts[0].message(),
                    "new() argument 1 must be one of: project, object, item, milestone. Got 'widget'"
                );
            }
            other => panic!("unexpected attempt: {:?}", other),
        },
        other => panic!("unexpected error: {:?}", other),
    }
}

#[test]
fn help_short_circuit() {
    let registry = MethodRegistry::new();
    let mut state = FunkState::new();
    let result = registry.execute("title", &[word("help")], &mut state);
    let expected = registry.signature("title").unwrap().format_help();
    assert_eq!(result, Ok(Action::ShowHelp { text: expected }));
    assert_eq!(state.title, "New");
}

#[test]
fn help_is_an_identifier_and_stands_alone() {
    let registry = MethodRegistry::new();
    let mut state = FunkState::new();
    assert_eq!(
        registry.execute("title", &[lit("help")], &mut state),
        Ok(Action::SetTitle { title: "help".to_string() })
    );
    assert_eq!(state.title, "help");
    assert!(registry.execute("new", &[word("help"), lit("x")], &mut state).is_err());
    assert!(registry.execute("title", &[word("Help")], &mut state).is_err());
}

#[test]
fn handlers_read_type_and_name() {
    assert_eq!(parse_type_and_name(&[]), Err("Expected at least 1 argument".to_string()));
    assert_eq!(
        parse_type_and_name(&[lit("n")]),
        Ok(("project".to_string(), "n".to_string()))
    );
    assert_eq!(
        parse_type_and_name(&[word("n")]),
        Err("Single argument must be a quoted string name".to_string())
    );
    assert_eq!(
        parse_type_and_name(&[word("item"), lit("n")]),
        Ok(("item".to_string(), "n".to_string()))
    );
    assert_eq!(
        parse_type_and_name(&[lit("item"), lit("n")]),
        Err("First argument must be a type identifier".to_string())
    );
    assert_eq!(
        parse_type_and_name(&[word("item"), word("n")]),
        Err("Second argument must be a quoted string".to_string())
    );
    assert_eq!(
        parse_type_and_name(&[word("item"), lit("n"), lit("m")]),
        Err("Expected 1 or 2 arguments".to_string())
    );
}

#[test]
fn each_handler_gives_its_action() {
    let args = [word("object"), lit("O")];
    assert_eq!(method_new(&args), Ok(create("object", "O")));
    assert_eq!(
        method_delete(&args),
        Ok(Action::Delete { kind: "object".to_string(), name: "O".to_string() })
    );
    assert_eq!(
        method_list(&args),
        Ok(Action::List { kind: "object".to_string(), name: "O".to_string() })
    );
    let mut state = FunkState::new();
    assert_eq!(
        method_title(&[lit("T")], &mut state),
        Ok(Action::SetTitle { title: "T".to_string() })
    );
    assert_eq!(state.title, "T");
    assert_eq!(
        method_title(&[word("T")], &mut state),
        Err("title() expects a string literal".to_string())
    );
    assert_eq!(method_title(&[], &mut state), Err("title() expects a string literal".to_string()));
    assert_eq!(state.title, "T");
    assert_eq!(Handler::Delete.invoke(&[lit("x")], &mut state), method_delete(&[lit("x")]));
}

#[test]
fn handler_refusal_after_validation() {
    let registry = MethodRegistry::new();
    let mut state = FunkState::new();
    assert_eq!(
        registry.execute("new", &[word("project")], &mut state),
        Err(DispatchError::Handler("Single argument must be a quoted string name".to_string()))
    );
    assert_eq!(
        registry.execute("delete", &[lit("a"), lit("b")], &mut state),
        Err(DispatchError::Handler("First argument must be a type identifier".to_string()))
    );
}

#[test]
fn end_to_end_example() {
    let registry = MethodRegistry::new();
    let mut state = FunkState::new();
    let report = run("new(\"My Project\").title(\"Launch\")", &mut state, &registry);
    assert_eq!(
        report,
        ChainReport {
            actions: vec![
                create("project", "My Project"),
                Action::SetTitle { title: "Launch".to_string() },
            ],
            failure: None,
        }
    );
    assert_eq!(state.title, "Launch");
}

#[test]
fn fail_fast_chain() {
    let registry = MethodRegistry::new();
    let mut state = FunkState::new();
    let report = run(
        "new(\"A\").title(bogus_identifier_not_help).title(\"never\").new(\"B\")",
        &mut state,
        &registry,
    );
    assert_eq!(report.actions, vec![create("project", "A")]);
    assert_eq!(
        report.failure,
        Some(ChainError::Dispatch(DispatchError::Validation(ValidationError::ExpectedLiteral {
            method: "title".to_string(),
            position: 0,
        })))
    );
    assert_eq!(state.title, "New");
}

#[test]
fn earlier_effects_stay_after_a_failure() {
    let registry = MethodRegistry::new();
    let mut state = FunkState::new();
    let report = run("title(\"kept\").nothing().title(\"lost\")", &mut state, &registry);
    assert_eq!(report.actions, vec![Action::SetTitle { title: "kept".to_string() }]);
    assert_eq!(
        report.failure,
        Some(ChainError::Dispatch(DispatchError::UnknownMethod("nothing".to_string())))
    );
    assert_eq!(state.title, "kept");
}

#[test]
fn empty_chain_does_nothing() {
    let registry = MethodRegistry::new();
    let mut state = FunkState::new();
    let report = run("", &mut state, &registry);
    assert_eq!(report, ChainReport { actions: vec![], failure: None });
}

#[test]
fn structural_misuse_is_reported() {
    let registry = MethodRegistry::new();
    let mut state = FunkState::new();
    let report = handle_input(lit("x"), &mut state, &registry);
    assert_eq!(report, ChainReport { actions: vec![], failure: Some(ChainError::ExpectedMethodChain) });
    let call = ASTNode::MethodCall { name: "title".to_string(), args: vec![lit("t")] };
    let report = handle_input(
        ASTNode::MethodChain(vec![call.clone(), word("x"), call.clone()]),
        &mut state,
        &registry,
    );
    assert_eq!(report.actions, vec![Action::SetTitle { title: "t".to_string() }]);
    assert_eq!(report.failure, Some(ChainError::ExpectedMethodCall));
    assert_eq!(execute_method(&word("x"), &mut state, &registry), Err(ChainError::ExpectedMethodCall));
    assert_eq!(
        execute_method(&call, &mut state, &registry),
        Ok(Action::SetTitle { title: "t".to_string() })
    );
}
