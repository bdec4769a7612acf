use funknotes::executor::ChainError;
use funknotes::handlers::Action;
use funknotes::interpret::{interpret, InterpretError};
use funknotes::parser::ParseError;
use funknotes::registry::DispatchError;
use funknotes::text::{
    contains_text, decimal, join, pad_right, text_before, text_eq, to_chars,
};
use funknotes::token::{tokenize, LexError};
use funknotes::types::{Command, FunkState, Funknote, Project};
use funknotes::validation::ValidationError;

#[test]
fn lex_error_messages() {
    assert_eq!(LexError::UnclosedStringLiteral.message(), "Unclosed string literal");
    assert_eq!(LexError::UnexpectedCharacter('#').message(), "Unexpected character: #");
    assert_eq!(tokenize("a€").unwrap_err().message(), "Unexpected character: €");
}

#[test]
fn parse_error_messages() {
    assert_eq!(ParseError::ExpectedMethodName { position: 0 }.message(), "Expected method name");
    assert_eq!(ParseError::ExpectedLeftParen { position: 1 }.message(), "Expected '('");
    assert_eq!(
        ParseError::ExpectedArgumentOrRightParen { position: 2 }.message(),
        "Expected string, identifier, or ')'"
    );
    assert_eq!(
        ParseError::ExpectedArgument { position: 2 }.message(),
        "Expected string or identifier"
    );
    assert_eq!(
        ParseError::ExpectedCommaOrRightParen { position: 3 }.message(),
        "Expected ',' or ')'"
    );
    assert_eq!(ParseError::ExpectedDot { position: 3 }.message(), "Expected '.'");
}

#[test]
fn interpret_error_messages() {
    assert_eq!(interpret("new(project \"X\")").unwrap_err().message(), "Expected ',' or ')'");
    assert_eq!(interpret("\"x").unwrap_err().message(), "Unclosed string literal");
    assert_eq!(
        InterpretError::Lex(LexError::UnexpectedCharacter('!')).message(),
        "Unexpected character: !"
    );
}

#[test]
fn validation_error_messages() {
    let m = "new".to_string();
    assert_eq!(
        ValidationError::TooFewArguments { method: m.clone(), have: 0, min: 1 }.message(),
        "new() requires at least 1 argument(s), got 0"
    );
    assert_eq!(
        ValidationError::TooManyArguments { method: m.clone(), have: 12, max: 2 }.message(),
        "new() accepts at most 2 argument(s), got 12"
    );
    assert_eq!(
        ValidationError::IdentifierNotAllowed {
            method: m.clone(),
            position: 0,
            allowed: vec!["a".to_string(), "b".to_string()],
            actual: "c".to_string(),
        }
        .message(),
        "new() argument 1 must be one of: a, b. Got 'c'"
    );
    assert_eq!(
        ValidationError::ExpectedIdentifier {
            method: m.clone(),
            position: 9,
            allowed: vec!["a".to_string(), "b".to_string()],
        }
        .message(),
        "new() argument 10 must be an identifier (one of: a, b)"
    );
    assert_eq!(
        ValidationError::ExpectedLiteral { method: m.clone(), position: 1 }.message(),
        "new() argument 2 must be a quoted string literal"
    );
    assert_eq!(
        ValidationError::ExpectedLiteral { method: m.clone(), position: usize::MAX }.message(),
        format!("new() argument {} must be a quoted string literal", usize::MAX as u128 + 1)
    );
    assert_eq!(
        ValidationError::NoAlternativeMatched {
            method: m.clone(),
            position: 0,
            alternatives: vec!["a|b".to_string(), "\"string\"".to_string(), "any".to_string()],
            attempts: vec![],
        }
        .message(),
        "new() argument 1 must match one of: a|b OR \"string\" OR any"
    );
}

#[test]
fn dispatch_and_chain_error_messages() {
    assert_eq!(
        DispatchError::UnknownMethod("rename".to_string()).message(),
        "Unknown method: rename"
    );
    assert_eq!(DispatchError::Handler("no".to_string()).message(), "no");
    assert_eq!(
        DispatchError::Validation(ValidationError::ExpectedLiteral {
            method: "t".to_string(),
            position: 0,
        })
        .message(),
        "t() argument 1 must be a quoted string literal"
    );
    assert_eq!(ChainError::ExpectedMethodChain.message(), "Expected MethodChain");
    assert_eq!(ChainError::ExpectedMethodCall.message(), "Expected MethodCall");
    assert_eq!(
        ChainError::Dispatch(DispatchError::UnknownMethod("x".to_string())).message(),
        "Unknown method: x"
    );
}

#[test]
fn action_messages() {
    let kind = "object".to_string();
    let name = "O".to_string();
    assert_eq!(
        Action::Create { kind: kind.clone(), name: name.clone() }.message(),
        "Performing action 'O' on target 'object'"
    );
    assert_eq!(
        Action::Delete { kind: kind.clone(), name: name.clone() }.message(),
        "Deleting object with name: O"
    );
    assert_eq!(
        Action::List { kind: kind.clone(), name: name.clone() }.message(),
        "Listing children of object with name: O"
    );
    assert_eq!(Action::SetTitle { title: "T".to_string() }.message(), "Set title to: T");
    assert_eq!(Action::ShowHelp { text: "help".to_string() }.message(), "help");
    let action = Action::SetTitle { title: "T".to_string() };
    assert_eq!(action.clone(), action);
}

#[test]
fn text_helpers() {
    assert!(text_eq("abc", "abc"));
    assert!(!text_eq("abc", "abd"));
    assert!(!text_eq("abc", "ab"));
    assert!(text_eq("", ""));
    assert_eq!(to_chars("aé€"), vec!['a', 'é', '€']);
    let list = vec!["a".to_string(), "bc".to_string()];
    assert!(contains_text(&list, "bc"));
    assert!(!contains_text(&list, "b"));
    assert_eq!(join(&list, ", "), "a, bc");
    assert_eq!(join(&vec![], ", "), "");
    assert_eq!(join(&vec!["x".to_string()], ", "), "x");
    assert_eq!(decimal(0), "0");
    assert_eq!(decimal(7), "7");
    assert_eq!(decimal(10), "10");
    assert_eq!(decimal(1234567890), "1234567890");
    assert_eq!(decimal(u128::MAX), u128::MAX.to_string());
    assert_eq!(pad_right("ab", 5), "ab   ");
    assert_eq!(pad_right("abcdef", 5), "abcdef");
    assert_eq!(pad_right("é", 3), "é  ");
}

#[test]
fn text_order_is_that_of_strings() {
    let samples = ["", "a", "ab", "b", "B", "é", "z", "aé", "€"];
    for a in samples {
        for b in samples {
            assert_eq!(text_before(a, b), a < b, "{a:?} {b:?}");
        }
    }
}

#[test]
fn plain_values() {
    assert_eq!(FunkState::new().title, "New");
    let state = FunkState { title: "T".to_string() };
    assert_eq!(state.clone().title, "T");
    assert_eq!(Project::new("P").name, "P");
    let note = Funknote::new(3, "T", "D", 99);
    assert_eq!(note.id, 3);
    assert_eq!(note.title, "T");
    assert_eq!(note.description, "D");
    assert_eq!(note.created_on, 99);
    assert!(note.milestone.is_empty());
    assert!(note.active);
    let command = Command::DeleteNote { note_id: 3 };
    assert!(matches!(command, Command::DeleteNote { note_id: 3 }));
}
