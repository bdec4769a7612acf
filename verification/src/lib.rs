//! A small fluent command language.
//!
//! A line such as `new(project, "My Project").title("X")` is split into
//! tokens ([`token`]), parsed into a chain of calls ([`parser`], [`ast`],
//! [`interpret`]) and run call by call ([`executor`]): each call is looked up
//! in the registry of methods ([`registry`]), its arguments are validated
//! against the signature of the method ([`signature`], [`argspec`],
//! [`validation`]), and only then its handler decides what is to be done
//! ([`handlers`]). The first call that fails ends the run.
//!
//! The library neither reads nor prints: it hands texts and actions to its
//! host. [`shell`] holds the decisions of the command line, [`storage`] the
//! texts in which notes are kept, [`timestamp`] the calendar, and [`types`]
//! the values that the commands speak of.
//!
//! Every function states what it returns over a mathematical model of its
//! arguments, and [`laws`] and [`source`] state what holds of them together.

pub mod argspec;
pub mod ast;
pub mod chars;
pub mod executor;
pub mod handlers;
pub mod interpret;
pub mod laws;
pub mod parser;
pub mod registry;
pub mod shell;
pub mod signature;
pub mod source;
pub mod storage;
pub mod text;
pub mod timestamp;
pub mod token;
pub mod types;
pub mod validation;

pub use argspec::ArgSpec;
pub use ast::ASTNode;
pub use executor::{handle_input, ChainError, ChainReport};
pub use handlers::{Action, Handler};
pub use interpret::{interpret, InterpretError};
pub use registry::{DispatchError, MethodRegistry};
pub use signature::MethodSignature;
pub use token::{tokenize, Token};
pub use types::FunkState;
pub use validation::ValidationError;
