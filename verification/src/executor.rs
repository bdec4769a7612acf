//! The chain executor: runs the calls of a chain in source order and stops at
//! the first that fails.

use crate::ast::{lemma_node_view, node_views, ASTNode, Node};
use crate::handlers::{Action, ActionView};
use crate::registry::{dispatch, DispatchError, DispatchErrorView, MethodRegistry};
use crate::signature::SignatureView;
use crate::types::FunkState;
use vstd::prelude::*;
use vstd::string::*;

verus! {

/// Why the run of a chain ended early.
#[derive(Debug, PartialEq)]
pub enum ChainError {
    /// The node handed to the executor is no chain.
    ExpectedMethodChain,
    /// A node of the chain is no call.
    ExpectedMethodCall,
    /// A call was not carried out.
    Dispatch(DispatchError),
}

/// The mathematical model of a [`ChainError`].
pub ghost enum ChainErrorView {
    ExpectedMethodChain,
    ExpectedMethodCall,
    Dispatch(DispatchErrorView),
}

impl View for ChainError {
    type V = ChainErrorView;

    open spec fn view(&self) -> ChainErrorView {
        match self {
            ChainError::ExpectedMethodChain => ChainErrorView::ExpectedMethodChain,
            ChainError::ExpectedMethodCall => ChainErrorView::ExpectedMethodCall,
            ChainError::Dispatch(e) => ChainErrorView::Dispatch(e@),
        }
    }
}

impl ChainErrorView {
    /// The text of the error.
    pub open spec fn message_text(self) -> Seq<char> {
        match self {
            ChainErrorView::ExpectedMethodChain => "Expected MethodChain"@,
            ChainErrorView::ExpectedMethodCall => "Expected MethodCall"@,
            ChainErrorView::Dispatch(e) => e.message_text(),
        }
    }
}

impl ChainError {
    /// The text of the error, as it is shown to the user.
    pub fn message(&self) -> (text: String)
        ensures
            text@ == self@.message_text(),
    {
        match self {
            ChainError::ExpectedMethodChain => "Expected MethodChain".to_owned(),
            ChainError::ExpectedMethodCall => "Expected MethodCall".to_owned(),
            ChainError::Dispatch(e) => e.message(),
        }
    }
}

/// What the run of a chain came to: the actions of the calls that were
/// carried out, in order, and the error of the call that stopped the run, if
/// one did.
#[derive(Debug, PartialEq)]
pub struct ChainReport {
    pub actions: Vec<Action>,
    pub failure: Option<ChainError>,
}

/// The mathematical model of a run: the actions, the failure, and the title
/// of the session after the run.
pub ghost struct RunView {
    pub actions: Seq<ActionView>,
    pub failure: Option<ChainErrorView>,
    pub title: Seq<char>,
}

impl RunView {
    /// The run with one more action in front.
    pub open spec fn after(self, action: ActionView) -> RunView {
        RunView { actions: seq![action] + self.actions, failure: self.failure, title: self.title }
    }

    /// The run with actions in front that were carried out before it.
    pub open spec fn after_all(self, actions: Seq<ActionView>) -> RunView {
        RunView { actions: actions + self.actions, failure: self.failure, title: self.title }
    }
}

/// The models of a sequence of actions.
pub open spec fn action_views(actions: Seq<Action>) -> Seq<ActionView> {
    actions.map_values(|a: Action| a@)
}

/// What one node of a chain comes to, and the title afterwards: a call is
/// dispatched, anything else is an error.
pub open spec fn run_call(methods: Map<Seq<char>, SignatureView>, node: Node, title: Seq<char>) -> (
    Result<ActionView, ChainErrorView>,
    Seq<char>,
) {
    match node {
        Node::MethodCall { name, args } => match dispatch(methods, name, args, title) {
            (Ok(action), after) => (Ok(action), after),
            (Err(e), after) => (Err(ChainErrorView::Dispatch(e)), after),
        },
        _ => (Err(ChainErrorView::ExpectedMethodCall), title),
    }
}

/// The run of the nodes from index `i` on: each in turn, until one fails.
pub open spec fn run_from(
    methods: Map<Seq<char>, SignatureView>,
    calls: Seq<Node>,
    i: int,
    title: Seq<char>,
) -> RunView
    decreases calls.len() - i,
{
    if i < 0 || i >= calls.len() {
        RunView { actions: Seq::empty(), failure: None, title }
    } else {
        match run_call(methods, calls[i], title) {
            (Ok(action), after) => run_from(methods, calls, i + 1, after).after(action),
            (Err(e), after) => RunView { actions: Seq::empty(), failure: Some(e), title: after },
        }
    }
}

/// The run of a tree: that of its calls, if it is a chain.
pub open spec fn run(methods: Map<Seq<char>, SignatureView>, ast: Node, title: Seq<char>) -> RunView {
    match ast {
        Node::MethodChain(calls) => run_from(methods, calls, 0, title),
        _ => RunView {
            actions: Seq::empty(),
            failure: Some(ChainErrorView::ExpectedMethodChain),
            title,
        },
    }
}

/// The model of what one call returns.
pub open spec fn call_view(r: Result<Action, ChainError>) -> Result<ActionView, ChainErrorView> {
    match r {
        Ok(action) => Ok(action@),
        Err(e) => Err(e@),
    }
}

/// The model of a report.
pub open spec fn report_view(report: ChainReport, title: Seq<char>) -> RunView {
    RunView {
        actions: action_views(report.actions@),
        failure: match report.failure {
            Some(e) => Some(e@),
            None => None,
        },
        title,
    }
}

/// Carries out one node of a chain.
pub fn execute_method(node: &ASTNode, state: &mut FunkState, registry: &MethodRegistry) -> (r:
    Result<Action, ChainError>)
    ensures
        call_view(r) == run_call(registry@, node@, old(state).title@).0,
        final(state).title@ == run_call(registry@, node@, old(state).title@).1,
{
    proof {
        lemma_node_view(*node);
    }
    match node {
        ASTNode::MethodCall { name, args } => {
            match registry.execute(name.as_str(), args.as_slice(), state) {
                Ok(action) => Ok(action),
                Err(e) => Err(ChainError::Dispatch(e)),
            }
        },
        _ => Err(ChainError::ExpectedMethodCall),
    }
}

/// Runs a chain: its calls in source order, each through the registry. The
/// first call that fails ends the run; the calls behind it are not looked at.
pub fn handle_input(ast: ASTNode, state: &mut FunkState, registry: &MethodRegistry) -> (report:
    ChainReport)
    ensures
        report_view(report, final(state).title@) == run(registry@, ast@, old(state).title@),
{
    proof {
        lemma_node_view(ast);
    }
    let mut actions: Vec<Action> = Vec::new();
    match ast {
        ASTNode::MethodChain(calls) => {
            let ghost goal = run(registry@, ast@, old(state).title@);
            let ghost nodes = node_views(calls@);
            let mut i: usize = 0;
            assert(action_views(actions@) =~= Seq::empty());
            assert(run_from(registry@, nodes, 0, state.title@).after_all(Seq::empty()) == goal);
            while i < calls.len()
                invariant
                    i <= calls.len(),
                    nodes == node_views(calls@),
                    goal == run(registry@, ast@, old(state).title@),
                    run_from(registry@, nodes, i as int, state.title@).after_all(
                        action_views(actions@),
                    ) == goal,
                decreases calls.len() - i,
            {
                let ghost done = action_views(actions@);
                match execute_method(&calls[i], state, registry) {
                    Ok(action) => {
                        actions.push(action);
                        proof {
                            let rest = run_from(registry@, nodes, i as int + 1, state.title@);
                            assert(action_views(actions@) =~= done.push(action@));
                            assert(done + (seq![action@] + rest.actions) =~= done.push(action@)
                                + rest.actions);
                        }
                    },
                    Err(e) => {
                        assert(done + Seq::<ActionView>::empty() =~= done);
                        return ChainReport { actions, failure: Some(e) };
                    },
                }
                i += 1;
            }
            assert(action_views(actions@) + Seq::<ActionView>::empty() =~= action_views(actions@));
            ChainReport { actions, failure: None }
        },
        _ => {
            assert(action_views(actions@) =~= Seq::empty());
            ChainReport { actions, failure: Some(ChainError::ExpectedMethodChain) }
        },
    }
}

} // verus!
