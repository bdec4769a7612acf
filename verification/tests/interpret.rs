use funknotes::ast::ASTNode;
use funknotes::interpret::{interpret, InterpretError};
use funknotes::parser::{parse, ParseError, Parser};
use funknotes::token::{tokenize, LexError, Token};

fn ident(s: &str) -> Token {
    Token::Identifier(s.to_string())
}

fn text(s: &str) -> Token {
    Token::StringLiteral(s.to_string())
}

fn call(name: &str, args: Vec<ASTNode>) -> ASTNode {
    ASTNode::MethodCall { name: name.to_string(), args }
}

fn lit(s: &str) -> ASTNode {
    ASTNode::Literal(s.to_string())
}

fn word(s: &str) -> ASTNode {
    ASTNode::Identifier(s.to_string())
}

#[test]
fn test_basic_parse() {
    let result = interpret("create(\"note\").tag(\"important\")");
    assert!(result.is_ok());
}

#[test]
fn basic_parse_gives_both_calls() {
    let result = interpret("create(\"note\").tag(\"important\")");
    assert_eq!(
        result,
        Ok(ASTNode::MethodChain(vec![
            call("create", vec![lit("note")]),
            call("tag", vec![lit("important")]),
        ]))
    );
}

#[test]
fn end_to_end_example_parses() {
    let result = interpret("new(\"My Project\").title(\"Launch\")");
    assert_eq!(
        result,
        Ok(ASTNode::MethodChain(vec![
            call("new", vec![lit("My Project")]),
            call("title", vec![lit("Launch")]),
        ]))
    );
}

#[test]
fn tokenize_punctuation_and_words() {
    let tokens = tokenize("new(project, \"My Project\").title(\"X\")").unwrap();
    assert_eq!(
        tokens,
        vec![
            ident("new"),
            Token::LeftParen,
            ident("project"),
            Token::Comma,
            text("My Project"),
            Token::RightParen,
            Token::Dot,
            ident("title"),
            Token::LeftParen,
            text("X"),
            Token::RightParen,
        ]
    );
}

#[test]
fn tokenize_skips_blanks() {
    let tokens = tokenize(" \t a \n ( ) ").unwrap();
    assert_eq!(tokens, vec![ident("a"), Token::LeftParen, Token::RightParen]);
    assert_eq!(tokenize("").unwrap(), vec![]);
    assert_eq!(tokenize("  \n\t").unwrap(), vec![]);
}

#[test]
fn tokenize_keeps_string_contents_verbatim() {
    let tokens = tokenize("\"a\\n b.(),\"").unwrap();
    assert_eq!(tokens, vec![text("a\\n b.(),")]);
    assert_eq!(tokenize("\"\"").unwrap(), vec![text("")]);
}

#[test]
fn tokenize_identifiers() {
    assert_eq!(tokenize("_a1 B_2").unwrap(), vec![ident("_a1"), ident("B_2")]);
    assert_eq!(tokenize("naïve").unwrap(), vec![ident("naïve")]);
    assert_eq!(tokenize("a-b"), Err(LexError::UnexpectedCharacter('-')));
}

#[test]
fn tokenize_unclosed_string() {
    assert_eq!(tokenize("new(\"abc"), Err(LexError::UnclosedStringLiteral));
    assert_eq!(tokenize("\""), Err(LexError::UnclosedStringLiteral));
}

#[test]
fn tokenize_unexpected_character() {
    assert_eq!(tokenize("new(1)"), Err(LexError::UnexpectedCharacter('1')));
    assert_eq!(tokenize("a;b"), Err(LexError::UnexpectedCharacter(';')));
    assert_eq!(tokenize("é"), Err(LexError::UnexpectedCharacter('é')));
    assert_eq!(tokenize("a\rb"), Err(LexError::UnexpectedCharacter('\r')));
}

#[test]
fn first_lex_error_wins() {
    assert_eq!(tokenize("a # \"open"), Err(LexError::UnexpectedCharacter('#')));
    assert_eq!(tokenize("\"open # "), Err(LexError::UnclosedStringLiteral));
}

#[test]
fn parse_empty_chain() {
    assert_eq!(interpret(""), Ok(ASTNode::MethodChain(vec![])));
    assert_eq!(interpret("funk"), Ok(ASTNode::MethodChain(vec![])));
    assert_eq!(interpret("funknotes"), Ok(ASTNode::MethodChain(vec![])));
}

#[test]
fn parse_skip_word_leaves_no_trace() {
    let expected = Ok(ASTNode::MethodChain(vec![call("new", vec![]), call("title", vec![lit("X")])]));
    assert_eq!(interpret("funknotes .new().title(\"X\")"), expected);
    assert_eq!(interpret("funk new().title(\"X\")"), expected);
    assert_eq!(interpret(".new().title(\"X\")"), expected);
    assert_eq!(interpret("new().title(\"X\")"), expected);
}

#[test]
fn parse_skip_word_only_in_front() {
    assert_eq!(
        interpret("a().funk()"),
        Ok(ASTNode::MethodChain(vec![call("a", vec![]), call("funk", vec![])]))
    );
    assert_eq!(
        interpret("funk()"),
        Err(InterpretError::Parse(ParseError::ExpectedMethodName { position: 1 }))
    );
}

#[test]
fn parse_arguments_in_source_order() {
    assert_eq!(
        interpret("f(a, \"b\", c)"),
        Ok(ASTNode::MethodChain(vec![call("f", vec![word("a"), lit("b"), word("c")])]))
    );
}

#[test]
fn parse_missing_comma() {
    assert_eq!(
        interpret("new(project \"X\")"),
        Err(InterpretError::Parse(ParseError::ExpectedCommaOrRightParen { position: 3 }))
    );
}

#[test]
fn parse_trailing_comma_is_an_error() {
    assert_eq!(
        interpret("f(a,)"),
        Err(InterpretError::Parse(ParseError::ExpectedArgument { position: 4 }))
    );
    assert_eq!(
        interpret("f(,)"),
        Err(InterpretError::Parse(ParseError::ExpectedArgumentOrRightParen { position: 2 }))
    );
    assert_eq!(
        interpret("f(a,,b)"),
        Err(InterpretError::Parse(ParseError::ExpectedArgument { position: 4 }))
    );
}

#[test]
fn parse_missing_dot() {
    assert_eq!(
        interpret("a() b()"),
        Err(InterpretError::Parse(ParseError::ExpectedDot { position: 3 }))
    );
}

#[test]
fn parse_missing_name_and_parens() {
    assert_eq!(
        interpret("a()."),
        Err(InterpretError::Parse(ParseError::ExpectedMethodName { position: 4 }))
    );
    assert_eq!(
        interpret("(a)"),
        Err(InterpretError::Parse(ParseError::ExpectedMethodName { position: 0 }))
    );
    assert_eq!(
        interpret("a"),
        Err(InterpretError::Parse(ParseError::ExpectedLeftParen { position: 1 }))
    );
    assert_eq!(
        interpret("a b"),
        Err(InterpretError::Parse(ParseError::ExpectedLeftParen { position: 1 }))
    );
    assert_eq!(
        interpret("a("),
        Err(InterpretError::Parse(ParseError::ExpectedArgumentOrRightParen { position: 2 }))
    );
    assert_eq!(
        interpret("a(b"),
        Err(InterpretError::Parse(ParseError::ExpectedCommaOrRightParen { position: 3 }))
    );
    assert_eq!(
        interpret("a(b("),
        Err(InterpretError::Parse(ParseError::ExpectedCommaOrRightParen { position: 3 }))
    );
    assert_eq!(
        interpret("a(.)"),
        Err(InterpretError::Parse(ParseError::ExpectedArgumentOrRightParen { position: 2 }))
    );
}

#[test]
fn parse_error_position_is_reported() {
    let e = ParseError::ExpectedDot { position: 7 };
    assert_eq!(e.position(), 7);
}

#[test]
fn lex_error_comes_before_parse_error() {
    assert_eq!(interpret(") ?"), Err(InterpretError::Lex(LexError::UnexpectedCharacter('?'))));
}

#[test]
fn parser_cursor() {
    let mut parser = Parser::new(vec![ident("a"), Token::LeftParen, Token::RightParen]);
    assert_eq!(parser.current(), Some(&ident("a")));
    parser.advance();
    assert_eq!(parser.current(), Some(&Token::LeftParen));
    parser.advance();
    parser.advance();
    assert_eq!(parser.current(), None);
    parser.advance();
    assert_eq!(parser.current(), None);
}

#[test]
fn parser_reads_one_call_at_a_time() {
    let tokens = tokenize("a(x).b()").unwrap();
    let mut parser = Parser::new(tokens);
    assert_eq!(parser.parse_expression(), Ok(call("a", vec![word("x")])));
    assert_eq!(parser.current(), Some(&Token::Dot));
    assert_eq!(
        parser.parse_expression(),
        Err(ParseError::ExpectedMethodName { position: 4 })
    );
}

#[test]
fn parse_takes_tokens() {
    let tokens = vec![ident("a"), Token::LeftParen, text("x"), Token::RightParen];
    assert_eq!(parse(tokens), Ok(ASTNode::MethodChain(vec![call("a", vec![lit("x")])])));
}

#[test]
fn round_trip_on_a_written_chain() {
    let calls = vec![
        call("new", vec![word("object"), lit("My Object")]),
        call("title", vec![lit("x y")]),
        call("list", vec![]),
    ];
    let source = "new(object,\"My Object\").title(\"x y\").list()";
    assert_eq!(interpret(source), Ok(ASTNode::MethodChain(calls)));
}

#[test]
fn clone_keeps_the_tree() {
    let tree = interpret("a(b, \"c\").d()").unwrap();
    assert_eq!(tree.clone(), tree);
    let token = text("x");
    assert_eq!(token.clone(), token);
}

#[test]
fn identifier_characters_are_letters_digits_and_underscore() {
    for c in '\0'..=char::MAX {
        let source = format!("a{c}");
        let whole = tokenize(&source) == Ok(vec![ident(&source)]);
        assert_eq!(whole, c.is_alphanumeric() || c == '_', "{c:?}");
    }
}

#[test]
fn identifier_starts_with_ascii_letter_or_underscore() {
    for c in '\0'..=char::MAX {
        let source = format!("{c}");
        let whole = tokenize(&source) == Ok(vec![ident(&source)]);
        assert_eq!(whole, c.is_ascii_alphabetic() || c == '_', "{c:?}");
    }
}

#[test]
fn round_trip_with_blanks_around_tokens() {
    let calls = vec![
        call("new", vec![word("object"), lit("My Object")]),
        call("title", vec![lit("x")]),
    ];
    let source = " new ( object ,\t\"My Object\" )\n. title(\n\"x\"\n) ";
    assert_eq!(interpret(source), Ok(ASTNode::MethodChain(calls)));
}
