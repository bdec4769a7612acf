//! Argument specifications: the shapes of argument that a parameter position
//! accepts, and how they are shown in a usage line.

use crate::ast::Node;
use crate::text::{clone_texts, join, joined, texts};
use vstd::prelude::*;
use vstd::string::*;

verus! {

/// The acceptance rule of one argument position.
#[derive(Debug)]
pub enum ArgSpec {
    /// An identifier that is one of these names.
    Identifier(Vec<String>),
    /// A quoted string, whatever it holds.
    Literal,
    /// An argument that at least one of these rules accepts. They are tried in
    /// order and the first that accepts decides.
    Either(Vec<ArgSpec>),
    /// Any node.
    Any,
}

/// The mathematical model of an [`ArgSpec`].
pub ghost enum Spec {
    Identifier(Seq<Seq<char>>),
    Literal,
    Either(Seq<Spec>),
    Any,
}

impl Spec {
    /// Whether the rule accepts `node`.
    pub open spec fn accepts(self, node: Node) -> bool
        decreases self,
    {
        match self {
            Spec::Identifier(allowed) => node matches Node::Identifier(name) && allowed.contains(
                name,
            ),
            Spec::Literal => node is Literal,
            Spec::Either(specs) => exists|i: int|
                0 <= i < specs.len() && (#[trigger] specs[i]).accepts(node),
            Spec::Any => true,
        }
    }

    /// How the rule is shown in a usage line: `a|b|c` for a set of names,
    /// `"string"` for a literal, `(x|y)` for alternatives, `any`.
    pub open spec fn describe(self) -> Seq<char>
        decreases self,
    {
        match self {
            Spec::Identifier(allowed) => joined(allowed, "|"@),
            Spec::Literal => "\"string\""@,
            Spec::Either(specs) => "("@ + joined(descriptions(specs), "|"@) + ")"@,
            Spec::Any => "any"@,
        }
    }
}

/// How each of the rules is shown.
pub open spec fn descriptions(specs: Seq<Spec>) -> Seq<Seq<char>>
    decreases specs,
{
    Seq::new(
        specs.len(),
        |i: int|
            if 0 <= i < specs.len() {
                specs[i].describe()
            } else {
                arbitrary()
            },
    )
}

impl ArgSpec {
    /// The model of a rule: its names as characters, its alternatives as models.
    pub open spec fn model(self) -> Spec
        decreases self,
    {
        match self {
            ArgSpec::Identifier(allowed) => Spec::Identifier(texts(allowed@)),
            ArgSpec::Literal => Spec::Literal,
            ArgSpec::Either(specs) => Spec::Either(
                Seq::new(
                    specs@.len(),
                    |i: int|
                        if 0 <= i < specs@.len() {
                            specs@[i].model()
                        } else {
                            arbitrary()
                        },
                ),
            ),
            ArgSpec::Any => Spec::Any,
        }
    }
}

impl View for ArgSpec {
    type V = Spec;

    open spec fn view(&self) -> Spec {
        self.model()
    }
}

/// The models of a sequence of rules.
pub open spec fn spec_views(specs: Seq<ArgSpec>) -> Seq<Spec> {
    specs.map_values(|s: ArgSpec| s@)
}

/// The model of alternatives holds the models of each.
pub proof fn lemma_either_view(specs: Vec<ArgSpec>)
    ensures
        ArgSpec::Either(specs)@ == Spec::Either(spec_views(specs@)),
{
    assert(ArgSpec::Either(specs)@->Either_0 =~= spec_views(specs@));
}

/// A copy of a list of rules.
pub fn clone_specs(specs: &Vec<ArgSpec>) -> (copy: Vec<ArgSpec>)
    ensures
        spec_views(copy@) == spec_views(specs@),
    decreases specs, 0nat,
{
    let mut copy: Vec<ArgSpec> = Vec::new();
    let mut i: usize = 0;
    while i < specs.len()
        invariant
            i <= specs.len(),
            copy@.len() == i,
            forall|k: int| 0 <= k < i ==> copy@[k]@ == specs@[k]@,
        decreases specs.len() - i,
    {
        copy.push(specs[i].clone());
        i += 1;
    }
    assert(spec_views(copy@) =~= spec_views(specs@));
    copy
}

impl Clone for ArgSpec {
    fn clone(&self) -> (copy: Self)
        ensures
            copy@ == self@,
        decreases self, 1nat,
    {
        match self {
            ArgSpec::Identifier(allowed) => ArgSpec::Identifier(clone_texts(allowed)),
            ArgSpec::Literal => ArgSpec::Literal,
            ArgSpec::Either(specs) => {
                let copies = clone_specs(specs);
                proof {
                    lemma_either_view(*specs);
                    lemma_either_view(copies);
                }
                ArgSpec::Either(copies)
            },
            ArgSpec::Any => ArgSpec::Any,
        }
    }
}

/// Shows a rule as it stands in a usage line.
pub fn format_arg_spec(spec: &ArgSpec) -> (shown: String)
    ensures
        shown@ == spec@.describe(),
    decreases spec,
{
    match spec {
        ArgSpec::Identifier(allowed) => join(allowed, "|"),
        ArgSpec::Literal => "\"string\"".to_owned(),
        ArgSpec::Either(specs) => {
            let parts = format_arg_specs(specs);
            let mut shown = "(".to_owned();
            shown.append(join(&parts, "|").as_str());
            shown.append(")");
            proof {
                lemma_either_view(*specs);
            }
            shown
        },
        ArgSpec::Any => "any".to_owned(),
    }
}

/// Shows each rule of a list.
pub fn format_arg_specs(specs: &Vec<ArgSpec>) -> (shown: Vec<String>)
    ensures
        texts(shown@) == descriptions(spec_views(specs@)),
    decreases specs,
{
    let mut shown: Vec<String> = Vec::new();
    let mut i: usize = 0;
    while i < specs.len()
        invariant
            i <= specs.len(),
            shown@.len() == i,
            forall|k: int| 0 <= k < i ==> shown@[k]@ == specs@[k]@.describe(),
        decreases specs.len() - i,
    {
        shown.push(format_arg_spec(&specs[i]));
        i += 1;
    }
    assert(texts(shown@) =~= descriptions(spec_views(specs@)));
    shown
}

} // verus!
