//! The parser: from tokens to a chain of calls, by recursive descent.
//!
//! ```text
//! chain  := [skip-word] ["."] call ("." call)*   |   [skip-word]
//! call   := Identifier "(" [arg ("," arg)*] ")"
//! arg    := StringLiteral | Identifier
//! ```
//!
//! A skip word is a leading `funknotes` or `funk`; it leaves no trace in the
//! tree. Parsing is all or nothing: the first mismatch is the result.

use crate::ast::{lemma_node_view, node_views, ASTNode, Node};
use crate::text::text_eq;
use crate::token::{token_views, Token, TokenView};
use vstd::prelude::*;
use vstd::string::*;

verus! {

/// Why a token sequence is no chain of calls. `position` is the index of the
/// token that did not fit (the number of tokens, if the input ended early).
#[derive(Debug, PartialEq, Eq, Clone, Copy, Structural)]
pub enum ParseError {
    /// A call has to begin with its name.
    ExpectedMethodName { position: usize },
    /// The name of a call has to be followed by `(`.
    ExpectedLeftParen { position: usize },
    /// After `(` comes an argument or `)`.
    ExpectedArgumentOrRightParen { position: usize },
    /// After `,` comes an argument.
    ExpectedArgument { position: usize },
    /// After an argument comes `,` or `)`.
    ExpectedCommaOrRightParen { position: usize },
    /// A call after the first has to be preceded by `.`.
    ExpectedDot { position: usize },
}

impl ParseError {
    /// The index of the token that did not fit.
    pub open spec fn spec_position(self) -> usize {
        match self {
            ParseError::ExpectedMethodName { position } => position,
            ParseError::ExpectedLeftParen { position } => position,
            ParseError::ExpectedArgumentOrRightParen { position } => position,
            ParseError::ExpectedArgument { position } => position,
            ParseError::ExpectedCommaOrRightParen { position } => position,
            ParseError::ExpectedDot { position } => position,
        }
    }

    /// The index of the token that did not fit.
    #[verifier::when_used_as_spec(spec_position)]
    pub fn position(self) -> (position: usize)
        ensures
            position == self.spec_position(),
    {
        match self {
            ParseError::ExpectedMethodName { position } => position,
            ParseError::ExpectedLeftParen { position } => position,
            ParseError::ExpectedArgumentOrRightParen { position } => position,
            ParseError::ExpectedArgument { position } => position,
            ParseError::ExpectedCommaOrRightParen { position } => position,
            ParseError::ExpectedDot { position } => position,
        }
    }
}

impl ParseError {
    /// The text of the error.
    pub open spec fn message_text(self) -> Seq<char> {
        match self {
            ParseError::ExpectedMethodName { .. } => "Expected method name"@,
            ParseError::ExpectedLeftParen { .. } => "Expected '('"@,
            ParseError::ExpectedArgumentOrRightParen { .. } => "Expected string, identifier, or ')'"@,
            ParseError::ExpectedArgument { .. } => "Expected string or identifier"@,
            ParseError::ExpectedCommaOrRightParen { .. } => "Expected ',' or ')'"@,
            ParseError::ExpectedDot { .. } => "Expected '.'"@,
        }
    }

    /// The text of the error, as it is shown to the user.
    pub fn message(&self) -> (text: String)
        ensures
            text@ == self.message_text(),
    {
        match self {
            ParseError::ExpectedMethodName { .. } => "Expected method name".to_owned(),
            ParseError::ExpectedLeftParen { .. } => "Expected '('".to_owned(),
            ParseError::ExpectedArgumentOrRightParen { .. } => {
                "Expected string, identifier, or ')'".to_owned()
            },
            ParseError::ExpectedArgument { .. } => "Expected string or identifier".to_owned(),
            ParseError::ExpectedCommaOrRightParen { .. } => "Expected ',' or ')'".to_owned(),
            ParseError::ExpectedDot { .. } => "Expected '.'".to_owned(),
        }
    }
}

/// The leading words that are dropped without trace.
pub open spec fn is_skip_word(name: Seq<char>) -> bool {
    name == "funknotes"@ || name == "funk"@
}

/// The argument that a token stands for, if it is one.
pub open spec fn argument_of(token: TokenView) -> Option<Node> {
    match token {
        TokenView::StringLiteral(text) => Some(Node::Literal(text)),
        TokenView::Identifier(name) => Some(Node::Identifier(name)),
        _ => None,
    }
}

/// The rest of an argument list, read from `pos`, which is just behind an
/// argument: `)` ends the list, `,` has to be followed by one more argument.
/// Gives all the arguments and the index behind the `)`.
pub open spec fn parse_more_arguments(tokens: Seq<TokenView>, pos: int, args: Seq<Node>) -> Result<
    (Seq<Node>, int),
    ParseError,
>
    decreases tokens.len() - pos,
{
    if 0 <= pos < tokens.len() && tokens[pos] is RightParen {
        Ok((args, pos + 1))
    } else if 0 <= pos < tokens.len() && tokens[pos] is Comma {
        if pos + 1 < tokens.len() && argument_of(tokens[pos + 1]) is Some {
            parse_more_arguments(tokens, pos + 2, args.push(argument_of(tokens[pos + 1])->0))
        } else {
            Err(ParseError::ExpectedArgument { position: (pos + 1) as usize })
        }
    } else {
        Err(ParseError::ExpectedCommaOrRightParen { position: pos as usize })
    }
}

/// The argument list that starts at `pos`, which is just behind a `(`.
pub open spec fn parse_arguments(tokens: Seq<TokenView>, pos: int) -> Result<
    (Seq<Node>, int),
    ParseError,
> {
    if 0 <= pos < tokens.len() && tokens[pos] is RightParen {
        Ok((Seq::empty(), pos + 1))
    } else if 0 <= pos < tokens.len() && argument_of(tokens[pos]) is Some {
        parse_more_arguments(tokens, pos + 1, seq![argument_of(tokens[pos])->0])
    } else {
        Err(ParseError::ExpectedArgumentOrRightParen { position: pos as usize })
    }
}

/// The call that starts at `pos`, and the index behind its `)`.
pub open spec fn parse_call(tokens: Seq<TokenView>, pos: int) -> Result<(Node, int), ParseError> {
    if !(0 <= pos < tokens.len() && tokens[pos] is Identifier) {
        Err(ParseError::ExpectedMethodName { position: pos as usize })
    } else if !(pos + 1 < tokens.len() && tokens[pos + 1] is LeftParen) {
        Err(ParseError::ExpectedLeftParen { position: (pos + 1) as usize })
    } else {
        match parse_arguments(tokens, pos + 2) {
            Ok((args, next)) => Ok(
                (Node::MethodCall { name: tokens[pos]->Identifier_0, args }, next),
            ),
            Err(e) => Err(e),
        }
    }
}

/// An argument list ends behind where it began, within the tokens, and holds
/// arguments only.
pub proof fn lemma_more_arguments(tokens: Seq<TokenView>, pos: int, args: Seq<Node>)
    requires
        forall|i: int| 0 <= i < args.len() ==> (#[trigger] args[i]).is_argument(),
    ensures
        parse_more_arguments(tokens, pos, args) matches Ok((all, next)) ==> {
            &&& pos < next <= tokens.len()
            &&& forall|i: int| 0 <= i < all.len() ==> (#[trigger] all[i]).is_argument()
        },
    decreases tokens.len() - pos,
{
    if 0 <= pos < tokens.len() && tokens[pos] is Comma && pos + 1 < tokens.len() && argument_of(
        tokens[pos + 1],
    ) is Some {
        lemma_more_arguments(tokens, pos + 2, args.push(argument_of(tokens[pos + 1])->0));
    }
}

/// A call that parses ends behind where it began, within the tokens, and is a
/// call with arguments only.
pub proof fn lemma_parse_call(tokens: Seq<TokenView>, pos: int)
    ensures
        parse_call(tokens, pos) matches Ok((call, next)) ==> {
            &&& 0 <= pos < next <= tokens.len()
            &&& call.is_call()
        },
{
    if 0 <= pos + 2 < tokens.len() && argument_of(tokens[pos + 2]) is Some {
        lemma_more_arguments(tokens, pos + 3, seq![argument_of(tokens[pos + 2])->0]);
    }
}

/// The calls from `pos` to the end of the tokens, behind those already read.
/// The first call may do without a leading `.`; every later one needs it.
pub open spec fn parse_calls(tokens: Seq<TokenView>, pos: int, calls: Seq<Node>) -> Result<
    Seq<Node>,
    ParseError,
>
    decreases tokens.len() - pos,
{
    if pos < 0 || pos >= tokens.len() {
        Ok(calls)
    } else if !(tokens[pos] is Dot) && calls.len() > 0 {
        Err(ParseError::ExpectedDot { position: pos as usize })
    } else {
        let start = if tokens[pos] is Dot {
            pos + 1
        } else {
            pos
        };
        match parse_call(tokens, start) {
            Ok((call, next)) => {
                proof {
                    lemma_parse_call(tokens, start);
                }
                parse_calls(tokens, next, calls.push(call))
            },
            Err(e) => Err(e),
        }
    }
}

/// The chain that the tokens from `pos` on stand for.
pub open spec fn parse_from(tokens: Seq<TokenView>, pos: int) -> Result<Node, ParseError> {
    let start = if 0 <= pos < tokens.len() && tokens[pos] is Identifier && is_skip_word(
        tokens[pos]->Identifier_0,
    ) {
        pos + 1
    } else {
        pos
    };
    chain_from(parse_calls(tokens, start, Seq::empty()))
}

/// The chain of the calls that were read.
pub open spec fn chain_from(calls: Result<Seq<Node>, ParseError>) -> Result<Node, ParseError> {
    match calls {
        Ok(calls) => Ok(Node::MethodChain(calls)),
        Err(e) => Err(e),
    }
}

/// The chain that a whole token sequence stands for.
pub open spec fn parse_tokens(tokens: Seq<TokenView>) -> Result<Node, ParseError> {
    parse_from(tokens, 0)
}

/// Calls that parse are calls with arguments only.
pub proof fn lemma_parse_calls(tokens: Seq<TokenView>, pos: int, calls: Seq<Node>)
    requires
        forall|i: int| 0 <= i < calls.len() ==> (#[trigger] calls[i]).is_call(),
    ensures
        parse_calls(tokens, pos, calls) matches Ok(all) ==> forall|i: int|
            0 <= i < all.len() ==> (#[trigger] all[i]).is_call(),
    decreases tokens.len() - pos,
{
    if 0 <= pos < tokens.len() && (tokens[pos] is Dot || calls.len() == 0) {
        let start = if tokens[pos] is Dot {
            pos + 1
        } else {
            pos
        };
        lemma_parse_call(tokens, start);
        if let Ok((call, next)) = parse_call(tokens, start) {
            lemma_parse_calls(tokens, next, calls.push(call));
        }
    }
}

/// Whatever parses is a chain of calls whose arguments are identifiers and
/// literals.
pub proof fn lemma_parse_gives_chain(tokens: Seq<TokenView>, pos: int)
    ensures
        parse_from(tokens, pos) matches Ok(chain) ==> chain.is_chain(),
{
    let start = if 0 <= pos < tokens.len() && tokens[pos] is Identifier && is_skip_word(
        tokens[pos]->Identifier_0,
    ) {
        pos + 1
    } else {
        pos
    };
    lemma_parse_calls(tokens, start, Seq::empty());
}

/// The model of what the parser returns.
pub open spec fn parsed_view(r: Result<ASTNode, ParseError>) -> Result<Node, ParseError> {
    match r {
        Ok(node) => Ok(node@),
        Err(e) => Err(e),
    }
}

/// A call from its name and what its argument list gave.
pub open spec fn call_from(name: Seq<char>, listed: Result<(Seq<Node>, int), ParseError>) -> Result<
    (Node, int),
    ParseError,
> {
    match listed {
        Ok((args, next)) => Ok((Node::MethodCall { name, args }, next)),
        Err(e) => Err(e),
    }
}

/// Whether `name` is one of the leading words that are dropped.
fn skip_word(name: &str) -> (yes: bool)
    ensures
        yes == is_skip_word(name@),
{
    text_eq(name, "funknotes") || text_eq(name, "funk")
}

/// A cursor over a token sequence.
pub struct Parser {
    tokens: Vec<Token>,
    position: usize,
}

impl Parser {
    /// The tokens that the parser reads.
    pub closed spec fn tokens(&self) -> Seq<TokenView> {
        token_views(self.tokens@)
    }

    /// The index of the token that is read next.
    pub closed spec fn position(&self) -> int {
        self.position as int
    }

    /// A parser at the start of `tokens`.
    pub fn new(tokens: Vec<Token>) -> (parser: Self)
        ensures
            parser.tokens() == token_views(tokens@),
            parser.position() == 0,
    {
        Self { tokens, position: 0 }
    }

    /// The token at the cursor, if the cursor is not at the end.
    pub fn current(&self) -> (token: Option<&Token>)
        ensures
            match token {
                Some(t) => 0 <= self.position() < self.tokens().len() && t@
                    == self.tokens()[self.position()],
                None => self.position() >= self.tokens().len(),
            },
    {
        if self.position < self.tokens.len() {
            Some(&self.tokens[self.position])
        } else {
            None
        }
    }

    /// Moves the cursor past the current token, if there is one.
    pub fn advance(&mut self)
        ensures
            final(self).tokens() == old(self).tokens(),
            final(self).position() == if old(self).position() < old(self).tokens().len() {
                old(self).position() + 1
            } else {
                old(self).position()
            },
    {
        if self.position < self.tokens.len() {
            self.position += 1;
        }
    }

    /// Reads a chain from the cursor to the end of the tokens.
    ///
    /// On success the cursor stands at the end; on failure it stands on the
    /// token that did not fit.
    pub fn parse(&mut self) -> (r: Result<ASTNode, ParseError>)
        ensures
            final(self).tokens() == old(self).tokens(),
            parsed_view(r) == parse_from(old(self).tokens(), old(self).position()),
            r matches Ok(chain) ==> chain@.is_chain(),
            r is Ok ==> final(self).position() >= old(self).tokens().len(),
            r matches Err(e) ==> final(self).position() == e.position(),
    {
        proof {
            lemma_parse_gives_chain(self.tokens(), self.position());
        }
        let mut calls: Vec<ASTNode> = Vec::new();
        let skip = match self.current() {
            Some(Token::Identifier(name)) => skip_word(name.as_str()),
            _ => false,
        };
        if skip {
            self.advance();
        }
        let ghost tokens = self.tokens();
        let ghost goal = parse_from(tokens, old(self).position());
        assert(node_views(calls@) =~= Seq::empty());
        while self.position < self.tokens.len()
            invariant
                self.tokens() == tokens,
                tokens == old(self).tokens(),
                goal == parse_from(tokens, old(self).position()),
                goal matches Ok(chain) ==> chain.is_chain(),
                chain_from(parse_calls(tokens, self.position(), node_views(calls@))) == goal,
            decreases tokens.len() - self.position(),
        {
            let dot = match self.current() {
                Some(Token::Dot) => true,
                _ => false,
            };
            if dot {
                self.advance();
            } else if calls.len() > 0 {
                return Err(ParseError::ExpectedDot { position: self.position });
            }
            proof {
                lemma_parse_call(tokens, self.position());
            }
            let ghost before = node_views(calls@);
            match self.parse_expression() {
                Ok(call) => {
                    calls.push(call);
                    assert(node_views(calls@) =~= before.push(call@));
                },
                Err(e) => {
                    return Err(e);
                },
            }
        }
        let chain = ASTNode::MethodChain(calls);
        proof {
            lemma_node_view(chain);
        }
        Ok(chain)
    }

    /// Reads one call at the cursor.
    ///
    /// On success the cursor stands behind the call's `)`; on failure it
    /// stands on the token that did not fit.
    pub fn parse_expression(&mut self) -> (r: Result<ASTNode, ParseError>)
        ensures
            final(self).tokens() == old(self).tokens(),
            match r {
                Ok(call) => parse_call(old(self).tokens(), old(self).position()) == Ok::<
                    (Node, int),
                    ParseError,
                >((call@, final(self).position())),
                Err(e) => parse_call(old(self).tokens(), old(self).position()) == Err::<
                    (Node, int),
                    ParseError,
                >(e) && final(self).position() == e.position(),
            },
    {
        let ghost tokens = self.tokens();
        let ghost start = self.position();
        let name = match self.current() {
            Some(Token::Identifier(n)) => n.clone(),
            _ => {
                return Err(ParseError::ExpectedMethodName { position: self.position });
            },
        };
        self.advance();
        match self.current() {
            Some(Token::LeftParen) => {},
            _ => {
                return Err(ParseError::ExpectedLeftParen { position: self.position });
            },
        }
        self.advance();
        let mut args: Vec<ASTNode> = Vec::new();
        let first = match self.current() {
            Some(Token::RightParen) => None,
            Some(Token::StringLiteral(text)) => Some(ASTNode::Literal(text.clone())),
            Some(Token::Identifier(word)) => Some(ASTNode::Identifier(word.clone())),
            _ => {
                return Err(ParseError::ExpectedArgumentOrRightParen { position: self.position });
            },
        };
        self.advance();
        match first {
            None => {
                let call = ASTNode::MethodCall { name, args };
                proof {
                    lemma_node_view(call);
                    assert(node_views(args@) =~= Seq::empty());
                }
                return Ok(call);
            },
            Some(arg) => {
                args.push(arg);
                assert(node_views(args@) =~= seq![arg@]);
            },
        }
        loop
            invariant
                self.tokens() == tokens,
                tokens == old(self).tokens(),
                start == old(self).position(),
                parse_call(tokens, start) == call_from(
                    name@,
                    parse_more_arguments(tokens, self.position(), node_views(args@)),
                ),
            decreases tokens.len() - self.position(),
        {
            let ghost before = node_views(args@);
            let comma = match self.current() {
                Some(Token::RightParen) => false,
                Some(Token::Comma) => true,
                _ => {
                    return Err(ParseError::ExpectedCommaOrRightParen { position: self.position });
                },
            };
            self.advance();
            if !comma {
                let call = ASTNode::MethodCall { name, args };
                proof {
                    lemma_node_view(call);
                }
                return Ok(call);
            }
            let arg = match self.current() {
                Some(Token::StringLiteral(text)) => ASTNode::Literal(text.clone()),
                Some(Token::Identifier(word)) => ASTNode::Identifier(word.clone()),
                _ => {
                    return Err(ParseError::ExpectedArgument { position: self.position });
                },
            };
            self.advance();
            args.push(arg);
            assert(node_views(args@) =~= before.push(arg@));
        }
    }
}

/// Parses a whole token sequence into a chain of calls.
pub fn parse(tokens: Vec<Token>) -> (r: Result<ASTNode, ParseError>)
    ensures
        parsed_view(r) == parse_tokens(token_views(tokens@)),
        r matches Ok(chain) ==> chain@.is_chain(),
{
    let mut parser = Parser::new(tokens);
    parser.parse()
}

} // verus!
