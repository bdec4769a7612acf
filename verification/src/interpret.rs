//! From source text to syntax tree in one step.

use crate::ast::{ASTNode, Node};
use crate::parser::{parse, parse_tokens, ParseError};
use crate::token::{lex, tokenize, LexError};
use vstd::prelude::*;

verus! {

/// Why a text is no chain of calls.
#[derive(Debug, PartialEq, Eq, Clone, Copy, Structural)]
pub enum InterpretError {
    /// The text could not be split into tokens.
    Lex(LexError),
    /// The tokens do not form a chain of calls.
    Parse(ParseError),
}

impl InterpretError {
    /// The text of the error.
    pub open spec fn message_text(self) -> Seq<char> {
        match self {
            InterpretError::Lex(e) => e.message_text(),
            InterpretError::Parse(e) => e.message_text(),
        }
    }

    /// The text of the error, as it is shown to the user.
    pub fn message(&self) -> (text: String)
        ensures
            text@ == self.message_text(),
    {
        match self {
            InterpretError::Lex(e) => e.message(),
            InterpretError::Parse(e) => e.message(),
        }
    }
}

/// The chain that a text stands for: its tokens, parsed.
pub open spec fn interpret_text(s: Seq<char>) -> Result<Node, InterpretError> {
    match lex(s) {
        Err(e) => Err(InterpretError::Lex(e)),
        Ok(tokens) => match parse_tokens(tokens) {
            Ok(chain) => Ok(chain),
            Err(e) => Err(InterpretError::Parse(e)),
        },
    }
}

/// The model of what `interpret` returns.
pub open spec fn interpreted_view(r: Result<ASTNode, InterpretError>) -> Result<
    Node,
    InterpretError,
> {
    match r {
        Ok(node) => Ok(node@),
        Err(e) => Err(e),
    }
}

/// Reads a chain of calls from `input`.
pub fn interpret(input: &str) -> (r: Result<ASTNode, InterpretError>)
    ensures
        interpreted_view(r) == interpret_text(input@),
        r matches Ok(chain) ==> chain@.is_chain(),
{
    let tokens = match tokenize(input) {
        Ok(tokens) => tokens,
        Err(e) => {
            return Err(InterpretError::Lex(e));
        },
    };
    match parse(tokens) {
        Ok(chain) => Ok(chain),
        Err(e) => Err(InterpretError::Parse(e)),
    }
}

} // verus!
