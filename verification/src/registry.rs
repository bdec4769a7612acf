//! The method registry: a mapping from method names to signatures, and the
//! dispatch of a call through it.

use crate::argspec::{lemma_either_view, spec_views, ArgSpec, Spec};
use crate::ast::{node_views, ASTNode, Node};
use crate::handlers::{handle, Action, ActionView, Handler};
use crate::signature::{MethodSignature, SignatureView};
use crate::text::{
    ascending, lemma_precedes_connected, lemma_precedes_irreflexive, lemma_precedes_transitive,
    pad_right, padded, precedes, text_before, text_eq, texts,
};
use crate::types::FunkState;
use crate::validation::{ValidationError, ValidationErrorView};
use vstd::prelude::*;
use vstd::string::*;

verus! {

/// Why a call was not carried out.
#[derive(Debug, PartialEq)]
pub enum DispatchError {
    /// No method of that name is registered.
    UnknownMethod(String),
    /// The arguments do not fit the signature of the method.
    Validation(ValidationError),
    /// The handler refused the call; the text is its reason.
    Handler(String),
}

/// The mathematical model of a [`DispatchError`].
pub ghost enum DispatchErrorView {
    UnknownMethod(Seq<char>),
    Validation(ValidationErrorView),
    Handler(Seq<char>),
}

impl View for DispatchError {
    type V = DispatchErrorView;

    open spec fn view(&self) -> DispatchErrorView {
        match self {
            DispatchError::UnknownMethod(name) => DispatchErrorView::UnknownMethod(name@),
            DispatchError::Validation(e) => DispatchErrorView::Validation(e@),
            DispatchError::Handler(reason) => DispatchErrorView::Handler(reason@),
        }
    }
}

impl DispatchErrorView {
    /// The text of the error.
    pub open spec fn message_text(self) -> Seq<char> {
        match self {
            DispatchErrorView::UnknownMethod(name) => "Unknown method: "@ + name,
            DispatchErrorView::Validation(e) => e.message_text(),
            DispatchErrorView::Handler(reason) => reason,
        }
    }
}

impl DispatchError {
    /// The text of the error, as it is shown to the user.
    pub fn message(&self) -> (text: String)
        ensures
            text@ == self@.message_text(),
    {
        match self {
            DispatchError::UnknownMethod(name) => {
                let mut text = "Unknown method: ".to_owned();
                text.append(name.as_str());
                text
            },
            DispatchError::Validation(e) => e.message(),
            DispatchError::Handler(reason) => reason.clone(),
        }
    }
}

/// The models of a sequence of signatures.
pub open spec fn signature_views(signatures: Seq<MethodSignature>) -> Seq<SignatureView> {
    signatures.map_values(|s: MethodSignature| s@)
}

/// The names of a sequence of signatures.
pub open spec fn names_of(entries: Seq<SignatureView>) -> Seq<Seq<char>> {
    entries.map_values(|e: SignatureView| e.name)
}

/// The mapping that a sequence of signatures with different names stands for:
/// from each name to the signature of that name.
pub open spec fn mapping(entries: Seq<SignatureView>) -> Map<Seq<char>, SignatureView> {
    Map::new(
        |name: Seq<char>| names_of(entries).contains(name),
        |name: Seq<char>| entries[names_of(entries).index_of(name)],
    )
}

/// A request for help: the single argument `help`, written as an identifier.
pub open spec fn is_help_request(args: Seq<Node>) -> bool {
    args.len() == 1 && args[0] == Node::Identifier("help"@)
}

/// What a call of `name` with `args` comes to, and the title that the session
/// has afterwards:
/// an unknown name is an error;
/// a request for help gives the help text, whatever the signature asks for;
/// arguments that do not fit the signature are an error;
/// otherwise the handler decides.
pub open spec fn dispatch(
    methods: Map<Seq<char>, SignatureView>,
    name: Seq<char>,
    args: Seq<Node>,
    title: Seq<char>,
) -> (Result<ActionView, DispatchErrorView>, Seq<char>) {
    if !methods.dom().contains(name) {
        (Err(DispatchErrorView::UnknownMethod(name)), title)
    } else if is_help_request(args) {
        (Ok(ActionView::ShowHelp { text: methods[name].help() }), title)
    } else {
        match methods[name].validate(args) {
            Err(e) => (Err(DispatchErrorView::Validation(e)), title),
            Ok(()) => match handle(methods[name].handler, args, title) {
                (Ok(action), after) => (Ok(action), after),
                (Err(reason), after) => (Err(DispatchErrorView::Handler(reason)), after),
            },
        }
    }
}

/// The model of what a dispatch returns.
pub open spec fn dispatched_view(r: Result<Action, DispatchError>) -> Result<
    ActionView,
    DispatchErrorView,
> {
    match r {
        Ok(action) => Ok(action@),
        Err(e) => Err(e@),
    }
}

/// The lines of the overview: for each method its usage line, filled up to
/// thirty characters, and its description.
pub open spec fn overview_lines(entries: Seq<SignatureView>) -> Seq<char>
    decreases entries.len(),
{
    if entries.len() == 0 {
        Seq::empty()
    } else {
        overview_lines(entries.drop_last()) + "  "@ + padded(entries.last().usage(), 30) + " "@
            + entries.last().help_text + "\n"@
    }
}

/// The overview of all methods: a header, a line for each method, and a hint.
pub open spec fn overview(entries: Seq<SignatureView>) -> Seq<char> {
    "\n=== AVAILABLE METHODS ===\n\n"@ + overview_lines(entries)
        + "\nType .method_name(help) for detailed help on any method.\n"@ + "\n"@
}

/// The type names that `new`, `delete` and `list` know.
pub open spec fn note_kinds() -> Seq<Seq<char>> {
    seq!["project"@, "object"@, "item"@, "milestone"@]
}

/// The rule of the first argument of `new`, `delete` and `list`: a type name
/// or a literal.
pub open spec fn kind_or_name() -> Spec {
    Spec::Either(seq![Spec::Identifier(note_kinds()), Spec::Literal])
}

/// The signature of `new`.
pub open spec fn new_signature() -> SignatureView {
    SignatureView {
        name: "new"@,
        required: seq![kind_or_name()],
        optional: seq![Spec::Literal],
        help_text: "Creates a new note of the specified type"@,
        examples: seq![
            "new(\"My Project\")              # Creates a project (default)"@,
            "new(object, \"My Object\")       # Creates an object"@,
            "new(milestone, \"Release 1.0\")  # Creates a milestone"@,
        ],
        handler: Handler::New,
    }
}

/// The signature of `delete`.
pub open spec fn delete_signature() -> SignatureView {
    SignatureView {
        name: "delete"@,
        required: seq![kind_or_name()],
        optional: seq![Spec::Literal],
        help_text: "Deletes the specified type with the specified name."@,
        examples: seq![
            "delete(\"My Project\")             # Deletes project (default)"@,
            "delete(object, \"My Object\")      # Deletes obejct"@,
            "delete(milestone, \"Release 1.0\") # Delete milstone"@,
        ],
        handler: Handler::Delete,
    }
}

/// The signature of `list`.
pub open spec fn list_signature() -> SignatureView {
    SignatureView {
        name: "list"@,
        required: seq![kind_or_name()],
        optional: seq![Spec::Literal],
        help_text: "Lists all the children of the specified identifier."@,
        examples: seq![
            "list(\"My Project\")             # Lists children of project (default)"@,
            "list(object, \"My Object\")      # Lists obeject"@,
            "list(milestone, \"Release 1.0\") # Lists milstone"@,
        ],
        handler: Handler::List,
    }
}

/// The signature of `title`.
pub open spec fn title_signature() -> SignatureView {
    SignatureView {
        name: "title"@,
        required: seq![Spec::Literal],
        optional: Seq::empty(),
        help_text: "Sets the title of the current note"@,
        examples: seq!["title(\"My Amazing Project\")"@],
        handler: Handler::Title,
    }
}

/// The methods that every registry starts with.
pub open spec fn builtin_methods() -> Map<Seq<char>, SignatureView> {
    Map::<Seq<char>, SignatureView>::empty().insert("new"@, new_signature()).insert(
        "delete"@,
        delete_signature(),
    ).insert("list"@, list_signature()).insert("title"@, title_signature())
}

/// In a sequence of signatures with ascending names, the mapping leads from
/// the name of each entry to that entry.
pub proof fn lemma_mapping_at(entries: Seq<SignatureView>, k: int)
    requires
        ascending(names_of(entries)),
        0 <= k < entries.len(),
    ensures
        mapping(entries).dom().contains(entries[k].name),
        mapping(entries)[entries[k].name] == entries[k],
{
    let names = names_of(entries);
    assert(names[k] == entries[k].name);
    let j = names.index_of(entries[k].name);
    if j < k {
        assert(precedes(names[j], names[k]));
        lemma_precedes_irreflexive(names[k]);
    } else if k < j {
        assert(precedes(names[k], names[j]));
        lemma_precedes_irreflexive(names[k]);
    }
}

/// Putting a signature into its place among ascending names, or in the place
/// of the entry of the same name, is an insertion into the mapping.
proof fn lemma_mapping_insert(
    before: Seq<SignatureView>,
    after: Seq<SignatureView>,
    i: int,
    signature: SignatureView,
)
    requires
        ascending(names_of(before)),
        ascending(names_of(after)),
        0 <= i <= before.len(),
        after == before.insert(i, signature) || (i < before.len() && before[i].name
            == signature.name && after == before.update(i, signature)),
    ensures
        mapping(after) == mapping(before).insert(signature.name, signature),
{
    let replaced = after != before.insert(i, signature);
    let target = mapping(before).insert(signature.name, signature);
    assert(after[i] == signature);
    lemma_mapping_at(after, i);
    assert forall|name: Seq<char>| #[trigger]
        mapping(after).dom().contains(name) implies target.dom().contains(name) && mapping(
        after,
    )[name] == target[name] by {
        let k = names_of(after).index_of(name);
        assert(names_of(after)[k] == name);
        lemma_mapping_at(after, k);
        if k != i {
            let j = if replaced || k < i {
                k
            } else {
                k - 1
            };
            assert(before[j] == after[k]);
            lemma_mapping_at(before, j);
            if name == signature.name {
                if k < i {
                    assert(precedes(names_of(after)[k], names_of(after)[i]));
                } else {
                    assert(precedes(names_of(after)[i], names_of(after)[k]));
                }
                lemma_precedes_irreflexive(name);
            }
        }
    }
    assert forall|name: Seq<char>| #[trigger]
        target.dom().contains(name) implies mapping(after).dom().contains(name) by {
        if name != signature.name {
            assert(mapping(before).dom().contains(name));
            let j = names_of(before).index_of(name);
            assert(names_of(before)[j] == name);
            let k = if replaced || j < i {
                j
            } else {
                j + 1
            };
            assert(after[k] == before[j]);
            lemma_mapping_at(after, k);
        }
    }
    assert(mapping(after).dom() =~= target.dom());
    assert(mapping(after) =~= target);
}

/// The registry: the methods that can be called, by name.
pub struct MethodRegistry {
    methods: Vec<MethodSignature>,
}

impl View for MethodRegistry {
    type V = Map<Seq<char>, SignatureView>;

    open spec fn view(&self) -> Map<Seq<char>, SignatureView> {
        mapping(self.entries())
    }
}

impl MethodRegistry {
    /// The signatures of the registry in the ascending order of their names.
    pub closed spec fn entries(&self) -> Seq<SignatureView> {
        signature_views(self.methods@)
    }

    #[verifier::type_invariant]
    spec fn names_ascend(&self) -> bool {
        ascending(names_of(signature_views(self.methods@)))
    }

    /// A registry without methods.
    pub fn empty() -> (registry: Self)
        ensures
            registry@ == Map::<Seq<char>, SignatureView>::empty(),
            registry.entries().len() == 0,
    {
        let registry = Self { methods: Vec::new() };
        assert(registry@ =~= Map::<Seq<char>, SignatureView>::empty());
        registry
    }

    /// The registry with the methods `new`, `delete`, `list` and `title`.
    pub fn new() -> (registry: Self)
        ensures
            registry@ == builtin_methods(),
    {
        let mut registry = Self::empty();
        registry.register_with_spec(
            "new",
            one_rule(kind_or_name_spec()),
            one_rule(ArgSpec::Literal),
            "Creates a new note of the specified type",
            three_examples(
                "new(\"My Project\")              # Creates a project (default)",
                "new(object, \"My Object\")       # Creates an object",
                "new(milestone, \"Release 1.0\")  # Creates a milestone",
            ),
            Handler::New,
        );
        registry.register_with_spec(
            "delete",
            one_rule(kind_or_name_spec()),
            one_rule(ArgSpec::Literal),
            "Deletes the specified type with the specified name.",
            three_examples(
                "delete(\"My Project\")             # Deletes project (default)",
                "delete(object, \"My Object\")      # Deletes obejct",
                "delete(milestone, \"Release 1.0\") # Delete milstone",
            ),
            Handler::Delete,
        );
        registry.register_with_spec(
            "list",
            one_rule(kind_or_name_spec()),
            one_rule(ArgSpec::Literal),
            "Lists all the children of the specified identifier.",
            three_examples(
                "list(\"My Project\")             # Lists children of project (default)",
                "list(object, \"My Object\")      # Lists obeject",
                "list(milestone, \"Release 1.0\") # Lists milstone",
            ),
            Handler::List,
        );
        let no_rule: Vec<ArgSpec> = Vec::new();
        let example = vec!["title(\"My Amazing Project\")".to_owned()];
        proof {
            assert(spec_views(no_rule@) =~= Seq::<Spec>::empty());
            assert(texts(example@) =~= seq!["title(\"My Amazing Project\")"@]);
        }
        registry.register_with_spec(
            "title",
            one_rule(ArgSpec::Literal),
            no_rule,
            "Sets the title of the current note",
            example,
            Handler::Title,
        );
        registry
    }

    /// Registers a method. A method of the same name that was registered
    /// before is replaced.
    pub fn register_with_spec(
        &mut self,
        name: &str,
        required_args: Vec<ArgSpec>,
        optional_args: Vec<ArgSpec>,
        help_text: &str,
        examples: Vec<String>,
        func: Handler,
    )
        ensures
            final(self)@ == old(self)@.insert(
                name@,
                SignatureView {
                    name: name@,
                    required: spec_views(required_args@),
                    optional: spec_views(optional_args@),
                    help_text: help_text@,
                    examples: texts(examples@),
                    handler: func,
                },
            ),
    {
        proof {
            use_type_invariant(&*self);
        }
        let signature = MethodSignature::new(
            name,
            required_args,
            optional_args,
            help_text,
            examples,
            func,
        );
        let ghost before = self.entries();
        let ghost names = names_of(before);
        let mut methods: Vec<MethodSignature> = Vec::new();
        core::mem::swap(&mut self.methods, &mut methods);
        let mut i: usize = 0;
        while i < methods.len() && text_before(methods[i].name(), name)
            invariant
                i <= methods.len(),
                signature_views(methods@) == before,
                names == names_of(before),
                forall|k: int| 0 <= k < i ==> precedes(#[trigger] names[k], name@),
            decreases methods.len() - i,
        {
            assert(names[i as int] == methods@[i as int]@.name);
            i += 1;
        }
        let replace = i < methods.len() && text_eq(methods[i].name(), name);
        assert(i < methods.len() ==> names[i as int] == methods@[i as int]@.name && !precedes(
            names[i as int],
            name@,
        ));
        if replace {
            methods.set(i, signature);
        } else {
            methods.insert(i, signature);
        }
        proof {
            let after = signature_views(methods@);
            assert(after =~= if replace {
                before.update(i as int, signature@)
            } else {
                before.insert(i as int, signature@)
            });
            let grown = names_of(after);
            assert forall|a: int, b: int| 0 <= a < b < grown.len() implies precedes(
                grown[a],
                grown[b],
            ) by {
                let from = |k: int|
                    if replace || k < i {
                        k
                    } else {
                        k - 1
                    };
                if a != i && b != i {
                    assert(grown[a] == names[from(a)]);
                    assert(grown[b] == names[from(b)]);
                } else if b == i {
                    assert(grown[a] == names[a]);
                } else {
                    assert(grown[b] == names[from(b)]);
                    assert(names[i as int] == before[i as int].name);
                    if !replace {
                        if !precedes(name@, names[i as int]) {
                            lemma_precedes_connected(names[i as int], name@);
                        }
                        if from(b) > i {
                            lemma_precedes_transitive(name@, names[i as int], names[from(b)]);
                        }
                    }
                }
            }
            lemma_mapping_insert(before, after, i as int, signature@);
        }
        self.methods = methods;
    }

    /// The signature of the method `name`, if it is registered.
    pub fn signature(&self, name: &str) -> (found: Option<&MethodSignature>)
        ensures
            match found {
                Some(signature) => self@.dom().contains(name@) && signature@ == self@[name@],
                None => !self@.dom().contains(name@),
            },
    {
        proof {
            use_type_invariant(self);
        }
        let mut i: usize = 0;
        while i < self.methods.len()
            invariant
                i <= self.methods.len(),
                ascending(names_of(self.entries())),
                forall|k: int| 0 <= k < i ==> names_of(self.entries())[k] != name@,
            decreases self.methods.len() - i,
        {
            if text_eq(self.methods[i].name(), name) {
                proof {
                    lemma_mapping_at(self.entries(), i as int);
                }
                return Some(&self.methods[i]);
            }
            i += 1;
        }
        None
    }

    /// Carries out the call of `name` with `args`.
    ///
    /// The single argument `help` asks for the help text of the method; the
    /// handler is then not run and the arguments are not validated. Otherwise
    /// the arguments are validated against the signature, and the handler runs
    /// only if they fit. Its answer is the result of the call.
    pub fn execute(&self, name: &str, args: &[ASTNode], state: &mut FunkState) -> (r: Result<
        Action,
        DispatchError,
    >)
        ensures
            dispatched_view(r) == dispatch(self@, name@, node_views(args@), old(state).title@).0,
            final(state).title@ == dispatch(self@, name@, node_views(args@), old(state).title@).1,
    {
        let signature = match self.signature(name) {
            Some(signature) => signature,
            None => {
                return Err(DispatchError::UnknownMethod(name.to_owned()));
            },
        };
        if args.len() == 1 {
            if let ASTNode::Identifier(id) = &args[0] {
                if text_eq(id.as_str(), "help") {
                    return Ok(Action::ShowHelp { text: signature.format_help() });
                }
            }
        }
        match signature.validate_args(args) {
            Ok(()) => {},
            Err(e) => {
                return Err(DispatchError::Validation(e));
            },
        }
        match signature.handler().invoke(args, state) {
            Ok(action) => Ok(action),
            Err(reason) => Err(DispatchError::Handler(reason)),
        }
    }

    /// The names of the registered methods, in ascending order.
    pub fn list_methods(&self) -> (names: Vec<String>)
        ensures
            texts(names@) == names_of(self.entries()),
            ascending(texts(names@)),
            forall|name: Seq<char>| texts(names@).contains(name) <==> self@.dom().contains(name),
    {
        proof {
            use_type_invariant(self);
        }
        let mut names: Vec<String> = Vec::new();
        let mut i: usize = 0;
        while i < self.methods.len()
            invariant
                i <= self.methods.len(),
                names@.len() == i,
                forall|k: int| 0 <= k < i ==> names@[k]@ == self.methods@[k]@.name,
            decreases self.methods.len() - i,
        {
            names.push(self.methods[i].name().to_owned());
            i += 1;
        }
        assert(texts(names@) =~= names_of(self.entries()));
        names
    }

    /// The overview of all methods, in the ascending order of their names.
    pub fn format_all_methods(&self) -> (text: String)
        ensures
            text@ == overview(self.entries()),
    {
        let mut text = "\n=== AVAILABLE METHODS ===\n\n".to_owned();
        let ghost head = text@;
        let mut i: usize = 0;
        while i < self.methods.len()
            invariant
                i <= self.methods.len(),
                text@ == head + overview_lines(self.entries().take(i as int)),
            decreases self.methods.len() - i,
        {
            let ghost shown = self.entries().take(i as int);
            let ghost next = self.entries().take(i as int + 1);
            assert(next.drop_last() =~= shown);
            assert(next.last() == self.methods@[i as int]@);
            let usage = self.methods[i].format_signature();
            text.append("  ");
            text.append(pad_right(usage.as_str(), 30).as_str());
            text.append(" ");
            text.append(self.methods[i].help_text());
            text.append("\n");
            assert(text@ =~= head + overview_lines(next));
            i += 1;
        }
        assert(self.entries().take(self.methods@.len() as int) =~= self.entries());
        text.append("\nType .method_name(help) for detailed help on any method.\n");
        text.append("\n");
        text
    }
}

/// The type names that `new`, `delete` and `list` know.
fn note_kind_names() -> (kinds: Vec<String>)
    ensures
        texts(kinds@) == note_kinds(),
{
    let kinds = vec![
        "project".to_owned(),
        "object".to_owned(),
        "item".to_owned(),
        "milestone".to_owned(),
    ];
    assert(texts(kinds@) =~= note_kinds());
    kinds
}

/// The rule of the first argument of `new`, `delete` and `list`.
fn kind_or_name_spec() -> (spec: ArgSpec)
    ensures
        spec@ == kind_or_name(),
{
    let alternatives = vec![ArgSpec::Identifier(note_kind_names()), ArgSpec::Literal];
    proof {
        lemma_either_view(alternatives);
        assert(spec_views(alternatives@) =~= seq![Spec::Identifier(note_kinds()), Spec::Literal]);
    }
    ArgSpec::Either(alternatives)
}

/// A list of one rule.
fn one_rule(rule: ArgSpec) -> (rules: Vec<ArgSpec>)
    ensures
        spec_views(rules@) == seq![rule@],
{
    let rules = vec![rule];
    assert(spec_views(rules@) =~= seq![rule@]);
    rules
}

/// A list of three examples.
fn three_examples(first: &str, second: &str, third: &str) -> (examples: Vec<String>)
    ensures
        texts(examples@) == seq![first@, second@, third@],
{
    let examples = vec![first.to_owned(), second.to_owned(), third.to_owned()];
    assert(texts(examples@) =~= seq![first@, second@, third@]);
    examples
}

} // verus!
