//! The check of one argument against one rule, and what is reported when an
//! argument list does not fit a signature.

use crate::argspec::{descriptions, format_arg_specs, lemma_either_view, spec_views, ArgSpec, Spec};
use crate::ast::{ASTNode, Node};
use crate::text::{clone_texts, contains_text, decimal, decimal_text, join, joined, texts};
use vstd::prelude::*;
use vstd::string::*;

verus! {

/// Why the arguments of a call do not fit the signature of its method.
/// `position` counts arguments from zero.
#[derive(Debug, PartialEq)]
pub enum ValidationError {
    /// Fewer arguments than the signature requires.
    TooFewArguments { method: String, have: usize, min: usize },
    /// More arguments than the signature has positions.
    TooManyArguments { method: String, have: usize, max: usize },
    /// An identifier that is none of the allowed names.
    IdentifierNotAllowed { method: String, position: usize, allowed: Vec<String>, actual: String },
    /// Something else where one of the allowed identifiers has to stand.
    ExpectedIdentifier { method: String, position: usize, allowed: Vec<String> },
    /// Something else where a quoted string has to stand.
    ExpectedLiteral { method: String, position: usize },
    /// None of the alternatives accepted the argument. `alternatives` shows
    /// each rule that was tried, `attempts` holds why each of them refused, in
    /// the order of the rules.
    NoAlternativeMatched {
        method: String,
        position: usize,
        alternatives: Vec<String>,
        attempts: Vec<ValidationError>,
    },
}

/// The mathematical model of a [`ValidationError`].
pub ghost enum ValidationErrorView {
    TooFewArguments { method: Seq<char>, have: usize, min: usize },
    TooManyArguments { method: Seq<char>, have: usize, max: usize },
    IdentifierNotAllowed {
        method: Seq<char>,
        position: usize,
        allowed: Seq<Seq<char>>,
        actual: Seq<char>,
    },
    ExpectedIdentifier { method: Seq<char>, position: usize, allowed: Seq<Seq<char>> },
    ExpectedLiteral { method: Seq<char>, position: usize },
    NoAlternativeMatched {
        method: Seq<char>,
        position: usize,
        alternatives: Seq<Seq<char>>,
        attempts: Seq<ValidationErrorView>,
    },
}

impl ValidationError {
    /// The model of an error: its texts as characters, its attempts as models.
    pub open spec fn model(self) -> ValidationErrorView
        decreases self,
    {
        match self {
            ValidationError::TooFewArguments { method, have, min } => {
                ValidationErrorView::TooFewArguments { method: method@, have, min }
            },
            ValidationError::TooManyArguments { method, have, max } => {
                ValidationErrorView::TooManyArguments { method: method@, have, max }
            },
            ValidationError::IdentifierNotAllowed { method, position, allowed, actual } => {
                ValidationErrorView::IdentifierNotAllowed {
                    method: method@,
                    position,
                    allowed: texts(allowed@),
                    actual: actual@,
                }
            },
            ValidationError::ExpectedIdentifier { method, position, allowed } => {
                ValidationErrorView::ExpectedIdentifier {
                    method: method@,
                    position,
                    allowed: texts(allowed@),
                }
            },
            ValidationError::ExpectedLiteral { method, position } => {
                ValidationErrorView::ExpectedLiteral { method: method@, position }
            },
            ValidationError::NoAlternativeMatched { method, position, alternatives, attempts } => {
                ValidationErrorView::NoAlternativeMatched {
                    method: method@,
                    position,
                    alternatives: texts(alternatives@),
                    attempts: Seq::new(
                        attempts@.len(),
                        |i: int|
                            if 0 <= i < attempts@.len() {
                                attempts@[i].model()
                            } else {
                                arbitrary()
                            },
                    ),
                }
            },
        }
    }
}

impl View for ValidationError {
    type V = ValidationErrorView;

    open spec fn view(&self) -> ValidationErrorView {
        self.model()
    }
}

impl ValidationErrorView {
    /// The text of the error. Arguments are counted from one in it.
    pub open spec fn message_text(self) -> Seq<char> {
        match self {
            ValidationErrorView::TooFewArguments { method, have, min } => method
                + "() requires at least "@ + decimal_text(min as nat) + " argument(s), got "@
                + decimal_text(have as nat),
            ValidationErrorView::TooManyArguments { method, have, max } => method
                + "() accepts at most "@ + decimal_text(max as nat) + " argument(s), got "@
                + decimal_text(have as nat),
            ValidationErrorView::IdentifierNotAllowed { method, position, allowed, actual } => method
                + "() argument "@ + decimal_text((position + 1) as nat) + " must be one of: "@
                + joined(allowed, ", "@) + ". Got '"@ + actual + "'"@,
            ValidationErrorView::ExpectedIdentifier { method, position, allowed } => method
                + "() argument "@ + decimal_text((position + 1) as nat)
                + " must be an identifier (one of: "@ + joined(allowed, ", "@) + ")"@,
            ValidationErrorView::ExpectedLiteral { method, position } => method + "() argument "@
                + decimal_text((position + 1) as nat) + " must be a quoted string literal"@,
            ValidationErrorView::NoAlternativeMatched { method, position, alternatives, .. } => {
                method + "() argument "@ + decimal_text((position + 1) as nat)
                    + " must match one of: "@ + joined(alternatives, " OR "@)
            },
        }
    }
}

/// The decimal numeral of the number that follows `n`.
fn decimal_of_next(n: usize) -> (text: String)
    ensures
        text@ == decimal_text((n + 1) as nat),
{
    decimal(n as u128 + 1)
}

impl ValidationError {
    /// The text of the error, as it is shown to the user.
    pub fn message(&self) -> (text: String)
        ensures
            text@ == self@.message_text(),
    {
        match self {
            ValidationError::TooFewArguments { method, have, min } => {
                let mut text = method.clone();
                text.append("() requires at least ");
                text.append(decimal(*min as u128).as_str());
                text.append(" argument(s), got ");
                text.append(decimal(*have as u128).as_str());
                text
            },
            ValidationError::TooManyArguments { method, have, max } => {
                let mut text = method.clone();
                text.append("() accepts at most ");
                text.append(decimal(*max as u128).as_str());
                text.append(" argument(s), got ");
                text.append(decimal(*have as u128).as_str());
                text
            },
            ValidationError::IdentifierNotAllowed { method, position, allowed, actual } => {
                let mut text = method.clone();
                text.append("() argument ");
                text.append(decimal_of_next(*position).as_str());
                text.append(" must be one of: ");
                text.append(join(allowed, ", ").as_str());
                text.append(". Got '");
                text.append(actual.as_str());
                text.append("'");
                text
            },
            ValidationError::ExpectedIdentifier { method, position, allowed } => {
                let mut text = method.clone();
                text.append("() argument ");
                text.append(decimal_of_next(*position).as_str());
                text.append(" must be an identifier (one of: ");
                text.append(join(allowed, ", ").as_str());
                text.append(")");
                text
            },
            ValidationError::ExpectedLiteral { method, position } => {
                let mut text = method.clone();
                text.append("() argument ");
                text.append(decimal_of_next(*position).as_str());
                text.append(" must be a quoted string literal");
                text
            },
            ValidationError::NoAlternativeMatched { method, position, alternatives, attempts } => {
                proof {
                    lemma_no_alternative_view(*method, *position, *alternatives, *attempts);
                }
                let mut text = method.clone();
                text.append("() argument ");
                text.append(decimal_of_next(*position).as_str());
                text.append(" must match one of: ");
                text.append(join(alternatives, " OR ").as_str());
                text
            },
        }
    }
}

/// The models of a sequence of errors.
pub open spec fn error_views(errors: Seq<ValidationError>) -> Seq<ValidationErrorView> {
    errors.map_values(|e: ValidationError| e@)
}

/// The model of a failure of all alternatives holds the models of the attempts.
pub proof fn lemma_no_alternative_view(
    method: String,
    position: usize,
    alternatives: Vec<String>,
    attempts: Vec<ValidationError>,
)
    ensures
        (ValidationError::NoAlternativeMatched { method, position, alternatives, attempts })@ == (
        ValidationErrorView::NoAlternativeMatched {
            method: method@,
            position,
            alternatives: texts(alternatives@),
            attempts: error_views(attempts@),
        }),
{
    let e = ValidationError::NoAlternativeMatched { method, position, alternatives, attempts };
    assert(e@->NoAlternativeMatched_attempts =~= error_views(attempts@));
}

impl Spec {
    /// What is reported when the rule refuses `node`, the argument at
    /// `position` of a call of `method`.
    pub open spec fn mismatch(
        self,
        node: Node,
        position: usize,
        method: Seq<char>,
    ) -> ValidationErrorView
        decreases self,
    {
        match self {
            Spec::Identifier(allowed) => match node {
                Node::Identifier(actual) => ValidationErrorView::IdentifierNotAllowed {
                    method,
                    position,
                    allowed,
                    actual,
                },
                _ => ValidationErrorView::ExpectedIdentifier { method, position, allowed },
            },
            Spec::Either(specs) => ValidationErrorView::NoAlternativeMatched {
                method,
                position,
                alternatives: descriptions(specs),
                attempts: mismatches(specs, node, position, method),
            },
            _ => ValidationErrorView::ExpectedLiteral { method, position },
        }
    }

    /// The outcome of checking `node`, the argument at `position` of a call of
    /// `method`, against the rule.
    pub open spec fn check(self, node: Node, position: usize, method: Seq<char>) -> Result<
        (),
        ValidationErrorView,
    > {
        if self.accepts(node) {
            Ok(())
        } else {
            Err(self.mismatch(node, position, method))
        }
    }
}

/// What each of the rules reports when it refuses `node`.
pub open spec fn mismatches(
    specs: Seq<Spec>,
    node: Node,
    position: usize,
    method: Seq<char>,
) -> Seq<ValidationErrorView>
    decreases specs,
{
    Seq::new(
        specs.len(),
        |i: int|
            if 0 <= i < specs.len() {
                specs[i].mismatch(node, position, method)
            } else {
                arbitrary()
            },
    )
}

/// The model of what a check returns.
pub open spec fn checked_view(r: Result<(), ValidationError>) -> Result<(), ValidationErrorView> {
    match r {
        Ok(()) => Ok(()),
        Err(e) => Err(e@),
    }
}

/// Checks the argument at `position` of a call of `method_name` against
/// `spec`. Alternatives are tried in order; the first that accepts ends the
/// check, and when none does, the error lists them all.
pub fn validate_arg(arg: &ASTNode, spec: &ArgSpec, position: usize, method_name: &str) -> (r:
    Result<(), ValidationError>)
    ensures
        checked_view(r) == spec@.check(arg@, position, method_name@),
    decreases spec,
{
    match spec {
        ArgSpec::Identifier(allowed) => match arg {
            ASTNode::Identifier(id) => {
                if contains_text(allowed, id.as_str()) {
                    Ok(())
                } else {
                    Err(
                        ValidationError::IdentifierNotAllowed {
                            method: method_name.to_owned(),
                            position,
                            allowed: clone_texts(allowed),
                            actual: id.clone(),
                        },
                    )
                }
            },
            _ => Err(
                ValidationError::ExpectedIdentifier {
                    method: method_name.to_owned(),
                    position,
                    allowed: clone_texts(allowed),
                },
            ),
        },
        ArgSpec::Literal => match arg {
            ASTNode::Literal(_) => Ok(()),
            _ => Err(ValidationError::ExpectedLiteral { method: method_name.to_owned(), position }),
        },
        ArgSpec::Either(specs) => {
            proof {
                lemma_either_view(*specs);
            }
            let mut attempts: Vec<ValidationError> = Vec::new();
            let mut i: usize = 0;
            while i < specs.len()
                invariant
                    i <= specs.len(),
                    *spec == ArgSpec::Either(*specs),
                    spec@ == Spec::Either(spec_views(specs@)),
                    attempts@.len() == i,
                    forall|k: int| 0 <= k < i ==> !(#[trigger] spec_views(specs@)[k]).accepts(arg@),
                    forall|k: int|
                        0 <= k < i ==> attempts@[k]@ == specs@[k]@.mismatch(
                            arg@,
                            position,
                            method_name@,
                        ),
                decreases specs.len() - i,
            {
                match validate_arg(arg, &specs[i], position, method_name) {
                    Ok(()) => {
                        assert(spec_views(specs@)[i as int].accepts(arg@));
                        return Ok(());
                    },
                    Err(e) => {
                        attempts.push(e);
                    },
                }
                i += 1;
            }
            let alternatives = format_arg_specs(specs);
            let method = method_name.to_owned();
            proof {
                lemma_no_alternative_view(method, position, alternatives, attempts);
                assert(error_views(attempts@) =~= mismatches(
                    spec_views(specs@),
                    arg@,
                    position,
                    method_name@,
                ));
            }
            Err(ValidationError::NoAlternativeMatched { method, position, alternatives, attempts })
        },
        ArgSpec::Any => Ok(()),
    }
}

} // verus!
