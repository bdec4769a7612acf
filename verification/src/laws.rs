//! What holds of the library as a whole, stated over the models of its
//! functions and proved from them.

use crate::argspec::Spec;
use crate::ast::Node;
use crate::executor::{run_call, run_from, RunView};
use crate::handlers::{handle, ActionView};
use crate::registry::{
    builtin_methods, delete_signature, dispatch, is_help_request, kind_or_name, list_signature,
    new_signature, note_kinds, title_signature, DispatchErrorView,
};
use crate::signature::SignatureView;
use crate::text::{decimal_text, joined};
use crate::validation::ValidationErrorView;
use vstd::prelude::*;

verus! {

/// Alternatives accept exactly what one of them accepts.
pub proof fn either_accepts_what_one_accepts(specs: Seq<Spec>, node: Node)
    ensures
        Spec::Either(specs).accepts(node) <==> exists|i: int|
            0 <= i < specs.len() && (#[trigger] specs[i]).accepts(node),
{
    let either = Spec::Either(specs);
    if exists|i: int| 0 <= i < specs.len() && (#[trigger] specs[i]).accepts(node) {
        let i = choose|i: int| 0 <= i < specs.len() && (#[trigger] specs[i]).accepts(node);
        assert(either->Either_0[i].accepts(node));
    }
}

/// Of two alternatives the first that accepts decides: an argument that both
/// accept passes, as does one that only one of them accepts, and no ambiguity
/// is reported. An argument that neither accepts is refused with an error that
/// shows both alternatives, first `a`, then `b`, and holds what each of them
/// had to say.
pub proof fn either_first_match(a: Spec, b: Spec, node: Node, position: usize, method: Seq<char>)
    ensures
        a.accepts(node) || b.accepts(node) ==> Spec::Either(seq![a, b]).check(
            node,
            position,
            method,
        ) is Ok,
        !a.accepts(node) && !b.accepts(node) ==> Spec::Either(seq![a, b]).check(
            node,
            position,
            method,
        ) == Err::<(), ValidationErrorView>(
            ValidationErrorView::NoAlternativeMatched {
                method,
                position,
                alternatives: seq![a.describe(), b.describe()],
                attempts: seq![
                    a.mismatch(node, position, method),
                    b.mismatch(node, position, method),
                ],
            },
        ),
        !a.accepts(node) && !b.accepts(node) ==> Spec::Either(seq![a, b]).check(
            node,
            position,
            method,
        )->Err_0.message_text() == method + "() argument "@ + decimal_text((position + 1) as nat)
            + " must match one of: "@ + a.describe() + " OR "@ + b.describe(),
{
    let specs = seq![a, b];
    let either = Spec::Either(specs);
    assert(specs[0] == a && specs[1] == b);
    if !a.accepts(node) && !b.accepts(node) {
        assert(!either.accepts(node));
        let e = either.mismatch(node, position, method);
        let shown = seq![a.describe(), b.describe()];
        assert(e->NoAlternativeMatched_alternatives =~= shown);
        assert(e->NoAlternativeMatched_attempts =~= seq![
            a.mismatch(node, position, method),
            b.mismatch(node, position, method),
        ]);
        assert(joined(shown, " OR "@) =~= a.describe() + " OR "@ + b.describe()) by {
            assert(shown.drop_last() =~= seq![a.describe()]);
            assert(joined(shown.drop_last(), " OR "@) == a.describe());
        }
        assert(e.message_text() =~= method + "() argument "@ + decimal_text((position + 1) as nat)
            + " must match one of: "@ + a.describe() + " OR "@ + b.describe());
    }
}

/// Checking the arguments one by one passes exactly if each of them fits the
/// rule of its position.
pub proof fn check_passes_if_all_fit(signature: SignatureView, args: Seq<Node>, i: int)
    requires
        0 <= i,
    ensures
        signature.check_from(args, i) is Ok <==> forall|k: int|
            i <= k < args.len() ==> signature.fits_at(args, k),
    decreases args.len() - i,
{
    if i < args.len() {
        check_passes_if_all_fit(signature, args, i + 1);
        if signature.check_from(args, i) is Ok {
            assert forall|k: int| i <= k < args.len() implies signature.fits_at(args, k) by {
                if k > i {
                    assert(signature.fits_at(args, k));
                }
            }
        } else {
            if signature.fits_at(args, i) {
                assert(!(signature.check_from(args, i + 1) is Ok));
                let k = choose|k: int| i + 1 <= k < args.len() && !signature.fits_at(args, k);
                assert(!signature.fits_at(args, k));
            }
        }
    }
}

/// The number of arguments decides first. With `min` required and `j`
/// optional positions: fewer than `min` arguments are too few; more than
/// `min + j` are too many, unless the signature has no position at all, which
/// puts no upper bound on the count; and a count in between passes exactly if
/// every argument fits the rule of its position.
pub proof fn arity_bounds(signature: SignatureView, args: Seq<Node>)
    ensures
        args.len() < signature.min_args() ==> signature.validate(args) == Err::<
            (),
            ValidationErrorView,
        >(
            ValidationErrorView::TooFewArguments {
                method: signature.name,
                have: args.len() as usize,
                min: signature.min_args() as usize,
            },
        ),
        args.len() > signature.max_args() && signature.max_args() > 0 ==> signature.validate(args)
            == Err::<(), ValidationErrorView>(
            ValidationErrorView::TooManyArguments {
                method: signature.name,
                have: args.len() as usize,
                max: signature.max_args() as usize,
            },
        ),
        signature.min_args() <= args.len() && (args.len() <= signature.max_args()
            || signature.max_args() == 0) ==> (signature.validate(args) is Ok <==> forall|k: int|
            0 <= k < args.len() ==> signature.fits_at(args, k)),
        signature.max_args() == 0 ==> signature.validate(args) is Ok,
{
    check_passes_if_all_fit(signature, args, 0);
}

/// A call that is no request for help reaches its handler exactly if its
/// arguments pass validation, and what the handler answers is then the
/// outcome of the call. With a count of arguments outside the bounds of the
/// signature the handler is not reached and the session stays as it was.
pub proof fn arity_decides_dispatch(
    methods: Map<Seq<char>, SignatureView>,
    name: Seq<char>,
    args: Seq<Node>,
    title: Seq<char>,
)
    requires
        methods.dom().contains(name),
        !is_help_request(args),
    ensures
        args.len() < methods[name].min_args() ==> dispatch(methods, name, args, title) == (
            Err::<ActionView, DispatchErrorView>(
                DispatchErrorView::Validation(
                    ValidationErrorView::TooFewArguments {
                        method: methods[name].name,
                        have: args.len() as usize,
                        min: methods[name].min_args() as usize,
                    },
                ),
            ),
            title,
        ),
        args.len() > methods[name].max_args() && methods[name].max_args() > 0 ==> dispatch(
            methods,
            name,
            args,
            title,
        ) == (
            Err::<ActionView, DispatchErrorView>(
                DispatchErrorView::Validation(
                    ValidationErrorView::TooManyArguments {
                        method: methods[name].name,
                        have: args.len() as usize,
                        max: methods[name].max_args() as usize,
                    },
                ),
            ),
            title,
        ),
        methods[name].min_args() <= args.len() && (args.len() <= methods[name].max_args()
            || methods[name].max_args() == 0) && (forall|k: int|
            0 <= k < args.len() ==> methods[name].fits_at(args, k)) ==> {
            &&& dispatch(methods, name, args, title).1 == handle(
                methods[name].handler,
                args,
                title,
            ).1
            &&& dispatch(methods, name, args, title).0 is Ok <==> handle(
                methods[name].handler,
                args,
                title,
            ).0 is Ok
            &&& dispatch(methods, name, args, title).0 is Ok ==> dispatch(
                methods,
                name,
                args,
                title,
            ).0->Ok_0 == handle(methods[name].handler, args, title).0->Ok_0
        },
{
    arity_bounds(methods[name], args);
}

/// A request for help is answered with the help text of the method, whatever
/// its signature asks for: the arguments are not validated, the handler is not
/// run, and the session stays as it was.
pub proof fn help_short_circuit(
    methods: Map<Seq<char>, SignatureView>,
    name: Seq<char>,
    title: Seq<char>,
)
    requires
        methods.dom().contains(name),
    ensures
        dispatch(methods, name, seq![Node::Identifier("help"@)], title) == (
            Ok::<ActionView, DispatchErrorView>(ActionView::ShowHelp { text: methods[name].help() }),
            title,
        ),
{
}

/// A run carries out the calls in order up to the first that fails: it holds
/// one action for each call before that one, the failure is what that call
/// came to, and without a failure every call was carried out.
pub proof fn run_stops_at_first_failure(
    methods: Map<Seq<char>, SignatureView>,
    calls: Seq<Node>,
    i: int,
    title: Seq<char>,
)
    requires
        0 <= i <= calls.len(),
    ensures
        i + run_from(methods, calls, i, title).actions.len() <= calls.len(),
        run_from(methods, calls, i, title).failure is None ==> i + run_from(
            methods,
            calls,
            i,
            title,
        ).actions.len() == calls.len(),
        run_from(methods, calls, i, title).failure is Some ==> i + run_from(
            methods,
            calls,
            i,
            title,
        ).actions.len() < calls.len(),
    decreases calls.len() - i,
{
    if i < calls.len() {
        if let (Ok(action), after) = run_call(methods, calls[i], title) {
            run_stops_at_first_failure(methods, calls, i + 1, after);
        }
    }
}

/// Once a call has failed, nothing behind it is attempted: whatever calls
/// follow a chain that fails, the run comes to the same actions, the same
/// failure and the same session.
pub proof fn fail_fast(
    methods: Map<Seq<char>, SignatureView>,
    calls: Seq<Node>,
    behind: Seq<Node>,
    i: int,
    title: Seq<char>,
)
    requires
        0 <= i <= calls.len(),
        run_from(methods, calls, i, title).failure is Some,
    ensures
        run_from(methods, calls + behind, i, title) == run_from(methods, calls, i, title),
    decreases calls.len() - i,
{
    if i < calls.len() {
        assert((calls + behind)[i] == calls[i]);
        if let (Ok(action), after) = run_call(methods, calls[i], title) {
            fail_fast(methods, calls, behind, i + 1, after);
        }
    }
}

/// A call that fails ends the run there: the actions are those of the calls
/// before it, the failure is its error, and the session is as that call left
/// it.
pub proof fn failing_call_ends_run(
    methods: Map<Seq<char>, SignatureView>,
    calls: Seq<Node>,
    i: int,
    title: Seq<char>,
)
    requires
        0 <= i < calls.len(),
        run_call(methods, calls[i], title).0 is Err,
    ensures
        run_from(methods, calls, i, title) == (RunView {
            actions: Seq::empty(),
            failure: Some(run_call(methods, calls[i], title).0->Err_0),
            title: run_call(methods, calls[i], title).1,
        }),
{
}

/// The registry starts with the four methods `new`, `delete`, `list` and
/// `title`, each under its own name, and with no other.
pub proof fn builtin_methods_by_name()
    ensures
        builtin_methods().dom() =~= set!["new"@, "delete"@, "list"@, "title"@],
        builtin_methods()["new"@] == new_signature(),
        builtin_methods()["delete"@] == delete_signature(),
        builtin_methods()["list"@] == list_signature(),
        builtin_methods()["title"@] == title_signature(),
{
    reveal_strlit("new");
    reveal_strlit("delete");
    reveal_strlit("list");
    reveal_strlit("title");
    assert("new"@.len() == 3 && "list"@.len() == 4 && "title"@.len() == 5 && "delete"@.len() == 6);
}

/// The first argument of `new`, `delete` and `list` may be one of the four
/// type names or any literal, and nothing else.
pub proof fn kind_or_name_accepts(node: Node)
    ensures
        kind_or_name().accepts(node) <==> node is Literal || (node is Identifier
            && note_kinds().contains(node->Identifier_0)),
{
    let alternatives = seq![Spec::Identifier(note_kinds()), Spec::Literal];
    either_accepts_what_one_accepts(alternatives, node);
    assert(alternatives[0] == Spec::Identifier(note_kinds()));
    assert(alternatives[1] == Spec::Literal);
    if node is Literal {
        assert(alternatives[1].accepts(node));
    }
    if node is Identifier && note_kinds().contains(node->Identifier_0) {
        assert(alternatives[0].accepts(node));
    }
}

/// `title` with one literal sets the title of the session to it.
pub proof fn title_sets_title(text: Seq<char>, title: Seq<char>)
    ensures
        dispatch(builtin_methods(), "title"@, seq![Node::Literal(text)], title) == (
            Ok::<ActionView, DispatchErrorView>(ActionView::SetTitle { title: text }),
            text,
        ),
{
    builtin_methods_by_name();
    let args = seq![Node::Literal(text)];
    assert(args[0] == Node::Literal(text));
    arity_bounds(title_signature(), args);
    assert forall|k: int| 0 <= k < args.len() implies title_signature().fits_at(args, k) by {
        assert(title_signature().rule_at(0) == Some(Spec::Literal));
    }
}

/// `new` with one literal creates a project of that name, and with a type
/// name and a literal a note of that type; the session stays as it was.
pub proof fn new_creates(kind: Seq<char>, name: Seq<char>, title: Seq<char>)
    ensures
        dispatch(builtin_methods(), "new"@, seq![Node::Literal(name)], title) == (
            Ok::<ActionView, DispatchErrorView>(ActionView::Create { kind: "project"@, name }),
            title,
        ),
        note_kinds().contains(kind) ==> dispatch(
            builtin_methods(),
            "new"@,
            seq![Node::Identifier(kind), Node::Literal(name)],
            title,
        ) == (Ok::<ActionView, DispatchErrorView>(ActionView::Create { kind, name }), title),
{
    builtin_methods_by_name();
    let signature = new_signature();
    assert(signature.rule_at(0) == Some(kind_or_name()));
    assert(signature.rule_at(1) == Some(Spec::Literal));
    let one = seq![Node::Literal(name)];
    assert(one[0] == Node::Literal(name));
    kind_or_name_accepts(one[0]);
    arity_bounds(signature, one);
    assert forall|k: int| 0 <= k < one.len() implies signature.fits_at(one, k) by {}
    if note_kinds().contains(kind) {
        let two = seq![Node::Identifier(kind), Node::Literal(name)];
        assert(two[0] == Node::Identifier(kind) && two[1] == Node::Literal(name));
        kind_or_name_accepts(two[0]);
        arity_bounds(signature, two);
        assert forall|k: int| 0 <= k < two.len() implies signature.fits_at(two, k) by {}
    }
}

} // verus!
