//! The lexer: from source text to a flat sequence of tokens.

use crate::text::{push_char, to_chars};
use vstd::prelude::*;
use vstd::string::*;

verus! {

/// One lexical unit of the command language.
#[derive(Debug, PartialEq)]
pub enum Token {
    Dot,
    Identifier(String),
    LeftParen,
    RightParen,
    StringLiteral(String),
    Comma,
}

/// The mathematical model of a [`Token`].
pub ghost enum TokenView {
    Dot,
    Identifier(Seq<char>),
    LeftParen,
    RightParen,
    StringLiteral(Seq<char>),
    Comma,
}

impl View for Token {
    type V = TokenView;

    open spec fn view(&self) -> TokenView {
        match self {
            Token::Dot => TokenView::Dot,
            Token::Identifier(name) => TokenView::Identifier(name@),
            Token::LeftParen => TokenView::LeftParen,
            Token::RightParen => TokenView::RightParen,
            Token::StringLiteral(text) => TokenView::StringLiteral(text@),
            Token::Comma => TokenView::Comma,
        }
    }
}

impl Clone for Token {
    fn clone(&self) -> (copy: Self)
        ensures
            copy@ == self@,
    {
        match self {
            Token::Dot => Token::Dot,
            Token::Identifier(name) => Token::Identifier(name.clone()),
            Token::LeftParen => Token::LeftParen,
            Token::RightParen => Token::RightParen,
            Token::StringLiteral(text) => Token::StringLiteral(text.clone()),
            Token::Comma => Token::Comma,
        }
    }
}

/// The models of a sequence of tokens.
pub open spec fn token_views(tokens: Seq<Token>) -> Seq<TokenView> {
    tokens.map_values(|t: Token| t@)
}

/// Why a text could not be split into tokens.
#[derive(Debug, PartialEq, Eq, Clone, Copy, Structural)]
pub enum LexError {
    /// A `"` was opened and the text ended before the closing `"`.
    UnclosedStringLiteral,
    /// A character that starts no token.
    UnexpectedCharacter(char),
}

impl LexError {
    /// The text of the error.
    pub open spec fn message_text(self) -> Seq<char> {
        match self {
            LexError::UnclosedStringLiteral => "Unclosed string literal"@,
            LexError::UnexpectedCharacter(c) => "Unexpected character: "@.push(c),
        }
    }

    /// The text of the error, as it is shown to the user.
    pub fn message(&self) -> (text: String)
        ensures
            text@ == self.message_text(),
    {
        match self {
            LexError::UnclosedStringLiteral => "Unclosed string literal".to_owned(),
            LexError::UnexpectedCharacter(c) => {
                let mut text = "Unexpected character: ".to_owned();
                push_char(&mut text, *c);
                text
            },
        }
    }
}

/// What `char::is_alphanumeric` answers for a character.
pub uninterp spec fn unicode_alphanumeric(c: char) -> bool;

/// `char::is_alphanumeric` decides from the Unicode tables (Alphabetic, or one
/// of the numeric categories) and from nothing else, so its answer has a name.
pub assume_specification[ char::is_alphanumeric ](c: char) -> (answer: bool)
    ensures
        answer == unicode_alphanumeric(c),
;

/// Blanks between tokens.
pub open spec fn is_blank(c: char) -> bool {
    c == ' ' || c == '\t' || c == '\n'
}

/// An ASCII letter or the underscore: what an identifier starts with.
pub open spec fn is_identifier_start(c: char) -> bool {
    ('a' <= c && c <= 'z') || ('A' <= c && c <= 'Z') || c == '_'
}

/// What an identifier continues with: letters, digits and the underscore.
/// Within ASCII these are `a-z`, `A-Z`, `0-9`; beyond ASCII the Unicode tables
/// decide.
pub open spec fn is_identifier_char(c: char) -> bool {
    if c <= '\x7f' {
        is_identifier_start(c) || ('0' <= c && c <= '9')
    } else {
        unicode_alphanumeric(c)
    }
}

/// The least index at or after `from` that holds a `"`, or the length of `s`
/// when there is none.
pub open spec fn closing_quote(s: Seq<char>, from: int) -> int
    decreases s.len() - from,
{
    if from >= s.len() {
        s.len() as int
    } else if s[from] == '"' {
        from
    } else {
        closing_quote(s, from + 1)
    }
}

/// The least index at or after `from` that holds no identifier character, or
/// the length of `s` when there is none.
pub open spec fn identifier_end(s: Seq<char>, from: int) -> int
    decreases s.len() - from,
{
    if from >= s.len() {
        s.len() as int
    } else if !is_identifier_char(s[from]) {
        from
    } else {
        identifier_end(s, from + 1)
    }
}

/// `closing_quote` stays within the text, passes no `"`, and stops on one.
pub proof fn lemma_closing_quote(s: Seq<char>, from: int)
    requires
        0 <= from <= s.len(),
    ensures
        from <= closing_quote(s, from) <= s.len(),
        forall|k: int| from <= k < closing_quote(s, from) ==> s[k] != '"',
        closing_quote(s, from) < s.len() ==> s[closing_quote(s, from)] == '"',
    decreases s.len() - from,
{
    if from < s.len() && s[from] != '"' {
        lemma_closing_quote(s, from + 1);
    }
}

/// `identifier_end` stays within the text, passes identifier characters only,
/// and stops on another one.
pub proof fn lemma_identifier_end(s: Seq<char>, from: int)
    requires
        0 <= from <= s.len(),
    ensures
        from <= identifier_end(s, from) <= s.len(),
        forall|k: int| from <= k < identifier_end(s, from) ==> is_identifier_char(s[k]),
        identifier_end(s, from) < s.len() ==> !is_identifier_char(s[identifier_end(s, from)]),
    decreases s.len() - from,
{
    if from < s.len() && is_identifier_char(s[from]) {
        lemma_identifier_end(s, from + 1);
    }
}

/// Puts `first` in front of the tokens of a successful rest.
pub open spec fn token_then(first: TokenView, rest: Result<Seq<TokenView>, LexError>) -> Result<
    Seq<TokenView>,
    LexError,
> {
    match rest {
        Ok(tokens) => Ok(seq![first] + tokens),
        Err(e) => Err(e),
    }
}

/// The tokens of `s` from index `from` on, or the first error met.
pub open spec fn lex_from(s: Seq<char>, from: int) -> Result<Seq<TokenView>, LexError>
    decreases s.len() - from,
{
    if from < 0 || from >= s.len() {
        Ok(Seq::empty())
    } else {
        let c = s[from];
        if is_blank(c) {
            lex_from(s, from + 1)
        } else if c == '.' {
            token_then(TokenView::Dot, lex_from(s, from + 1))
        } else if c == '(' {
            token_then(TokenView::LeftParen, lex_from(s, from + 1))
        } else if c == ')' {
            token_then(TokenView::RightParen, lex_from(s, from + 1))
        } else if c == ',' {
            token_then(TokenView::Comma, lex_from(s, from + 1))
        } else if c == '"' {
            let end = closing_quote(s, from + 1);
            if end < s.len() {
                proof {
                    lemma_closing_quote(s, from + 1);
                }
                token_then(
                    TokenView::StringLiteral(s.subrange(from + 1, end)),
                    lex_from(s, end + 1),
                )
            } else {
                Err(LexError::UnclosedStringLiteral)
            }
        } else if is_identifier_start(c) {
            let end = identifier_end(s, from + 1);
            proof {
                lemma_identifier_end(s, from + 1);
            }
            token_then(TokenView::Identifier(s.subrange(from, end)), lex_from(s, end))
        } else {
            Err(LexError::UnexpectedCharacter(c))
        }
    }
}

/// The tokens of a whole text.
pub open spec fn lex(s: Seq<char>) -> Result<Seq<TokenView>, LexError> {
    lex_from(s, 0)
}

/// Whether `c` may continue an identifier.
fn identifier_char(c: char) -> (yes: bool)
    ensures
        yes == is_identifier_char(c),
{
    if c <= '\x7f' {
        ('a' <= c && c <= 'z') || ('A' <= c && c <= 'Z') || c == '_' || ('0' <= c && c <= '9')
    } else {
        c.is_alphanumeric()
    }
}

/// Reads a string literal whose opening `"` stands just before `start`.
/// Returns the text between the quotes and the index after the closing `"`.
fn consume_string(input: &str, chars: &Vec<char>, start: usize) -> (r: Result<
    (String, usize),
    LexError,
>)
    requires
        chars@ == input@,
        start <= chars@.len(),
    ensures
        match r {
            Ok((text, next)) => {
                &&& closing_quote(input@, start as int) < input@.len()
                &&& text@ == input@.subrange(start as int, closing_quote(input@, start as int))
                &&& next == closing_quote(input@, start as int) + 1
            },
            Err(e) => {
                &&& closing_quote(input@, start as int) >= input@.len()
                &&& e == LexError::UnclosedStringLiteral
            },
        },
{
    let mut end: usize = start;
    while end < chars.len() && chars[end] != '"'
        invariant
            start <= end <= chars@.len(),
            closing_quote(chars@, start as int) == closing_quote(chars@, end as int),
        decreases chars@.len() - end,
    {
        end += 1;
    }
    if end < chars.len() {
        let text = input.substring_char(start, end).to_owned();
        Ok((text, end + 1))
    } else {
        Err(LexError::UnclosedStringLiteral)
    }
}

/// Reads an identifier that starts at `start`. Returns its text and the index
/// after its last character.
fn consume_identifier(input: &str, chars: &Vec<char>, start: usize) -> (r: (String, usize))
    requires
        chars@ == input@,
        start <= chars@.len(),
    ensures
        r.1 == identifier_end(input@, start as int),
        start <= r.1 <= input@.len(),
        r.0@ == input@.subrange(start as int, r.1 as int),
{
    let mut end: usize = start;
    while end < chars.len() && identifier_char(chars[end])
        invariant
            start <= end <= chars@.len(),
            identifier_end(chars@, start as int) == identifier_end(chars@, end as int),
        decreases chars@.len() - end,
    {
        end += 1;
    }
    let text = input.substring_char(start, end).to_owned();
    (text, end)
}

/// The model of what `tokenize` returns.
pub open spec fn lexed_view(r: Result<Vec<Token>, LexError>) -> Result<Seq<TokenView>, LexError> {
    match r {
        Ok(tokens) => Ok(token_views(tokens@)),
        Err(e) => Err(e),
    }
}

/// Tokens read so far, followed by what the rest of the text gives.
pub open spec fn tokens_then(done: Seq<TokenView>, rest: Result<Seq<TokenView>, LexError>) -> Result<
    Seq<TokenView>,
    LexError,
> {
    match rest {
        Ok(tokens) => Ok(done + tokens),
        Err(e) => Err(e),
    }
}

/// Splits `input` into tokens. Blanks separate tokens and are dropped; the
/// first character that fits no token, or a string literal left open, ends the
/// run with an error.
pub fn tokenize(input: &str) -> (r: Result<Vec<Token>, LexError>)
    ensures
        lexed_view(r) == lex(input@),
{
    let chars = to_chars(input);
    let mut tokens: Vec<Token> = Vec::new();
    let mut i: usize = 0;
    assert(tokens_then(token_views(tokens@), lex_from(input@, 0)) == lex(input@)) by {
        let rest = lex_from(input@, 0);
        if let Ok(ts) = rest {
            assert(token_views(tokens@) + ts =~= ts);
        }
    }
    while i < chars.len()
        invariant
            chars@ == input@,
            i <= chars@.len(),
            tokens_then(token_views(tokens@), lex_from(input@, i as int)) == lex(input@),
        decreases chars@.len() - i,
    {
        let c = chars[i];
        let ghost done = token_views(tokens@);
        let ghost here = lex_from(input@, i as int);
        if c == ' ' || c == '\t' || c == '\n' {
            i += 1;
        } else if c == '.' || c == '(' || c == ')' || c == ',' {
            let token = if c == '.' {
                Token::Dot
            } else if c == '(' {
                Token::LeftParen
            } else if c == ')' {
                Token::RightParen
            } else {
                Token::Comma
            };
            tokens.push(token);
            i += 1;
            proof {
                let rest = lex_from(input@, i as int);
                assert(here == token_then(token@, rest));
                assert(token_views(tokens@) =~= done.push(token@));
                if let Ok(ts) = rest {
                    assert(done.push(token@) + ts =~= done + (seq![token@] + ts));
                }
            }
        } else if c == '"' {
            proof {
                lemma_closing_quote(input@, i as int + 1);
            }
            match consume_string(input, &chars, i + 1) {
                Ok((text, next)) => {
                    let token = Token::StringLiteral(text);
                    tokens.push(token);
                    i = next;
                    proof {
                        let rest = lex_from(input@, i as int);
                        assert(here == token_then(token@, rest));
                        assert(token_views(tokens@) =~= done.push(token@));
                        if let Ok(ts) = rest {
                            assert(done.push(token@) + ts =~= done + (seq![token@] + ts));
                        }
                    }
                },
                Err(e) => {
                    return Err(e);
                },
            }
        } else if ('a' <= c && c <= 'z') || ('A' <= c && c <= 'Z') || c == '_' {
            proof {
                lemma_identifier_end(input@, i as int);
            }
            let (text, next) = consume_identifier(input, &chars, i);
            let token = Token::Identifier(text);
            tokens.push(token);
            i = next;
            proof {
                let rest = lex_from(input@, i as int);
                assert(here == token_then(token@, rest));
                assert(token_views(tokens@) =~= done.push(token@));
                if let Ok(ts) = rest {
                    assert(done.push(token@) + ts =~= done + (seq![token@] + ts));
                }
            }
        } else {
            return Err(LexError::UnexpectedCharacter(c));
        }
    }
    assert(token_views(tokens@) + Seq::<TokenView>::empty() =~= token_views(tokens@));
    Ok(tokens)
}

} // verus!
