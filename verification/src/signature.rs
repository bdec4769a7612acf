//! Method signatures: what a method requires of its arguments, how it is
//! documented, and which handler it is bound to.

use crate::argspec::{clone_specs, descriptions, format_arg_spec, spec_views, ArgSpec, Spec};
use crate::ast::{node_views, ASTNode, Node};
use crate::handlers::Handler;
use crate::text::{clone_texts, join, joined, texts, to_uppercase, uppercase};
use crate::validation::{checked_view, validate_arg, ValidationError, ValidationErrorView};
use vstd::prelude::*;
use vstd::string::*;

verus! {

/// The signature of a method: its name, the rules of its required arguments
/// and of the optional ones that may follow them, its documentation, and its
/// handler.
#[derive(Debug)]
pub struct MethodSignature {
    name: String,
    required_args: Vec<ArgSpec>,
    optional_args: Vec<ArgSpec>,
    help_text: String,
    examples: Vec<String>,
    func: Handler,
}

/// The mathematical model of a [`MethodSignature`].
pub ghost struct SignatureView {
    pub name: Seq<char>,
    pub required: Seq<Spec>,
    pub optional: Seq<Spec>,
    pub help_text: Seq<char>,
    pub examples: Seq<Seq<char>>,
    pub handler: Handler,
}

/// Each rule shown as an optional one: `[rule]`.
pub open spec fn bracketed(specs: Seq<Spec>) -> Seq<Seq<char>> {
    Seq::new(specs.len(), |i: int| "["@ + specs[i].describe() + "]"@)
}

/// The examples of a help text, one to a line, each indented by two blanks.
pub open spec fn example_lines(examples: Seq<Seq<char>>) -> Seq<char>
    decreases examples.len(),
{
    if examples.len() == 0 {
        Seq::empty()
    } else {
        example_lines(examples.drop_last()) + "  "@ + examples.last() + "\n"@
    }
}

impl SignatureView {
    /// The least number of arguments.
    pub open spec fn min_args(self) -> nat {
        self.required.len()
    }

    /// The number of argument positions.
    pub open spec fn max_args(self) -> nat {
        self.required.len() + self.optional.len()
    }

    /// The rule of the argument position `i`: a required one, then an optional
    /// one, then none.
    pub open spec fn rule_at(self, i: int) -> Option<Spec> {
        if 0 <= i < self.required.len() {
            Some(self.required[i])
        } else if self.required.len() <= i < self.required.len() + self.optional.len() {
            Some(self.optional[i - self.required.len()])
        } else {
            None
        }
    }

    /// Whether the argument at position `i` fits: its rule accepts it, or the
    /// position has no rule.
    pub open spec fn fits_at(self, args: Seq<Node>, i: int) -> bool {
        self.rule_at(i) matches Some(rule) ==> rule.accepts(args[i])
    }

    /// The outcome of checking the arguments from position `i` on, one by one;
    /// the first that its rule refuses is reported.
    pub open spec fn check_from(self, args: Seq<Node>, i: int) -> Result<(), ValidationErrorView>
        decreases args.len() - i,
    {
        if i < 0 || i >= args.len() {
            Ok(())
        } else {
            match self.rule_at(i) {
                Some(rule) => match rule.check(args[i], i as usize, self.name) {
                    Ok(()) => self.check_from(args, i + 1),
                    Err(e) => Err(e),
                },
                None => self.check_from(args, i + 1),
            }
        }
    }

    /// The outcome of validating an argument list: first the count, then each
    /// argument against the rule of its position. A signature without any
    /// position puts no upper bound on the count.
    pub open spec fn validate(self, args: Seq<Node>) -> Result<(), ValidationErrorView> {
        if args.len() < self.min_args() {
            Err(
                ValidationErrorView::TooFewArguments {
                    method: self.name,
                    have: args.len() as usize,
                    min: self.min_args() as usize,
                },
            )
        } else if args.len() > self.max_args() && self.max_args() > 0 {
            Err(
                ValidationErrorView::TooManyArguments {
                    method: self.name,
                    have: args.len() as usize,
                    max: self.max_args() as usize,
                },
            )
        } else {
            self.check_from(args, 0)
        }
    }

    /// The usage line: `name(required, ..., [optional], ...)`.
    pub open spec fn usage(self) -> Seq<char> {
        self.name + "("@ + joined(descriptions(self.required) + bracketed(self.optional), ", "@)
            + ")"@
    }

    /// The help text: a header with the name in upper case, the description,
    /// the usage line, and the examples in the order of their registration.
    pub open spec fn help(self) -> Seq<char> {
        "\n=== "@ + uppercase(self.name) + " ===\n"@ + self.help_text + "\n"@ + "\nUsage:\n"@ + "  "@
            + self.usage() + "\n"@ + (if self.examples.len() > 0 {
            "\nExamples:\n"@ + example_lines(self.examples)
        } else {
            Seq::empty()
        }) + "\n"@
    }
}

impl View for MethodSignature {
    type V = SignatureView;

    closed spec fn view(&self) -> SignatureView {
        SignatureView {
            name: self.name@,
            required: spec_views(self.required_args@),
            optional: spec_views(self.optional_args@),
            help_text: self.help_text@,
            examples: texts(self.examples@),
            handler: self.func,
        }
    }
}

impl Clone for MethodSignature {
    fn clone(&self) -> (copy: Self)
        ensures
            copy@ == self@,
    {
        MethodSignature {
            name: self.name.clone(),
            required_args: clone_specs(&self.required_args),
            optional_args: clone_specs(&self.optional_args),
            help_text: self.help_text.clone(),
            examples: clone_texts(&self.examples),
            func: self.func,
        }
    }
}

impl MethodSignature {
    /// A signature from its parts.
    pub fn new(
        name: &str,
        required_args: Vec<ArgSpec>,
        optional_args: Vec<ArgSpec>,
        help_text: &str,
        examples: Vec<String>,
        func: Handler,
    ) -> (signature: Self)
        ensures
            signature@ == (SignatureView {
                name: name@,
                required: spec_views(required_args@),
                optional: spec_views(optional_args@),
                help_text: help_text@,
                examples: texts(examples@),
                handler: func,
            }),
    {
        MethodSignature {
            name: name.to_owned(),
            required_args,
            optional_args,
            help_text: help_text.to_owned(),
            examples,
            func,
        }
    }

    /// The name of the method.
    pub fn name(&self) -> (name: &str)
        ensures
            name@ == self@.name,
    {
        self.name.as_str()
    }

    /// The description of the method.
    pub fn help_text(&self) -> (text: &str)
        ensures
            text@ == self@.help_text,
    {
        self.help_text.as_str()
    }

    /// The handler of the method.
    pub fn handler(&self) -> (handler: Handler)
        ensures
            handler == self@.handler,
    {
        self.func
    }

    /// Validates the arguments of a call against the signature.
    pub fn validate_args(&self, args: &[ASTNode]) -> (r: Result<(), ValidationError>)
        ensures
            checked_view(r) == self@.validate(node_views(args@)),
    {
        let min_args = self.required_args.len();
        let optional = self.optional_args.len();
        if args.len() < min_args {
            return Err(
                ValidationError::TooFewArguments {
                    method: self.name.clone(),
                    have: args.len(),
                    min: min_args,
                },
            );
        }
        if args.len() - min_args > optional && (min_args > 0 || optional > 0) {
            return Err(
                ValidationError::TooManyArguments {
                    method: self.name.clone(),
                    have: args.len(),
                    max: min_args + optional,
                },
            );
        }
        let mut i: usize = 0;
        while i < args.len()
            invariant
                i <= args.len(),
                min_args == self.required_args.len(),
                optional == self.optional_args.len(),
                self@.check_from(node_views(args@), i as int) == self@.validate(node_views(args@)),
            decreases args.len() - i,
        {
            if i < min_args {
                match validate_arg(&args[i], &self.required_args[i], i, self.name.as_str()) {
                    Ok(()) => {},
                    Err(e) => {
                        return Err(e);
                    },
                }
            } else if i - min_args < optional {
                match validate_arg(
                    &args[i],
                    &self.optional_args[i - min_args],
                    i,
                    self.name.as_str(),
                ) {
                    Ok(()) => {},
                    Err(e) => {
                        return Err(e);
                    },
                }
            }
            i += 1;
        }
        Ok(())
    }

    /// The usage line of the method.
    pub fn format_signature(&self) -> (usage: String)
        ensures
            usage@ == self@.usage(),
    {
        let mut parts: Vec<String> = Vec::new();
        let mut i: usize = 0;
        while i < self.required_args.len()
            invariant
                i <= self.required_args.len(),
                texts(parts@) == descriptions(spec_views(self.required_args@)).take(i as int),
            decreases self.required_args.len() - i,
        {
            let ghost before = texts(parts@);
            let part = format_arg_spec(&self.required_args[i]);
            parts.push(part);
            assert(texts(parts@) =~= before.push(part@));
            assert(texts(parts@) =~= descriptions(spec_views(self.required_args@)).take(
                i as int + 1,
            ));
            i += 1;
        }
        let ghost required = descriptions(spec_views(self.required_args@));
        assert(texts(parts@) =~= required);
        let mut j: usize = 0;
        while j < self.optional_args.len()
            invariant
                j <= self.optional_args.len(),
                required == descriptions(spec_views(self.required_args@)),
                texts(parts@) == required + bracketed(spec_views(self.optional_args@)).take(
                    j as int,
                ),
            decreases self.optional_args.len() - j,
        {
            let ghost before = texts(parts@);
            let mut part = "[".to_owned();
            part.append(format_arg_spec(&self.optional_args[j]).as_str());
            part.append("]");
            parts.push(part);
            assert(texts(parts@) =~= before.push(part@));
            assert(texts(parts@) =~= required + bracketed(spec_views(self.optional_args@)).take(
                j as int + 1,
            ));
            j += 1;
        }
        assert(texts(parts@) =~= required + bracketed(spec_views(self.optional_args@)));
        let mut usage = self.name.clone();
        usage.append("(");
        usage.append(join(&parts, ", ").as_str());
        usage.append(")");
        usage
    }

    /// The help text of the method.
    pub fn format_help(&self) -> (help: String)
        ensures
            help@ == self@.help(),
    {
        let mut help = "\n=== ".to_owned();
        help.append(to_uppercase(self.name.as_str()).as_str());
        help.append(" ===\n");
        help.append(self.help_text.as_str());
        help.append("\n");
        help.append("\nUsage:\n");
        help.append("  ");
        help.append(self.format_signature().as_str());
        help.append("\n");
        if self.examples.len() > 0 {
            help.append("\nExamples:\n");
            let ghost head = help@;
            let mut i: usize = 0;
            while i < self.examples.len()
                invariant
                    i <= self.examples.len(),
                    help@ == head + example_lines(texts(self.examples@).take(i as int)),
                decreases self.examples.len() - i,
            {
                let ghost shown = texts(self.examples@).take(i as int);
                let ghost next = texts(self.examples@).take(i as int + 1);
                assert(next.drop_last() =~= shown);
                assert(next.last() == self.examples@[i as int]@);
                help.append("  ");
                help.append(self.examples[i].as_str());
                help.append("\n");
                assert(help@ =~= head + example_lines(next));
                i += 1;
            }
            assert(texts(self.examples@).take(self.examples@.len() as int) =~= texts(
                self.examples@,
            ));
        }
        help.append("\n");
        assert(help@ =~= self@.help());
        help
    }
}

} // verus!
