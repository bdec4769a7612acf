//! The handlers behind the methods. A handler reads the arguments of a call
//! that passed validation, may change the session state, and says what the
//! host is to do.

use crate::ast::{node_views, ASTNode, Node};
use crate::types::FunkState;
use vstd::prelude::*;
use vstd::string::*;

verus! {

/// What the host is asked to do after a call.
#[derive(Debug, PartialEq)]
pub enum Action {
    /// Create the note `name` of type `kind`.
    Create { kind: String, name: String },
    /// Delete the note `name` of type `kind`.
    Delete { kind: String, name: String },
    /// List the children of the note `name` of type `kind`.
    List { kind: String, name: String },
    /// The title of the session was set to `title`.
    SetTitle { title: String },
    /// Show the help text of a method.
    ShowHelp { text: String },
}

/// The mathematical model of an [`Action`].
pub ghost enum ActionView {
    Create { kind: Seq<char>, name: Seq<char> },
    Delete { kind: Seq<char>, name: Seq<char> },
    List { kind: Seq<char>, name: Seq<char> },
    SetTitle { title: Seq<char> },
    ShowHelp { text: Seq<char> },
}

impl View for Action {
    type V = ActionView;

    open spec fn view(&self) -> ActionView {
        match self {
            Action::Create { kind, name } => ActionView::Create { kind: kind@, name: name@ },
            Action::Delete { kind, name } => ActionView::Delete { kind: kind@, name: name@ },
            Action::List { kind, name } => ActionView::List { kind: kind@, name: name@ },
            Action::SetTitle { title } => ActionView::SetTitle { title: title@ },
            Action::ShowHelp { text } => ActionView::ShowHelp { text: text@ },
        }
    }
}

impl ActionView {
    /// What the host tells the user when it has carried out the action.
    pub open spec fn message_text(self) -> Seq<char> {
        match self {
            ActionView::Create { kind, name } => "Performing action '"@ + name + "' on target '"@
                + kind + "'"@,
            ActionView::Delete { kind, name } => "Deleting "@ + kind + " with name: "@ + name,
            ActionView::List { kind, name } => "Listing children of "@ + kind + " with name: "@
                + name,
            ActionView::SetTitle { title } => "Set title to: "@ + title,
            ActionView::ShowHelp { text } => text,
        }
    }
}

impl Action {
    /// What the host tells the user when it has carried out the action.
    pub fn message(&self) -> (text: String)
        ensures
            text@ == self@.message_text(),
    {
        match self {
            Action::Create { kind, name } => {
                let mut text = "Performing action '".to_owned();
                text.append(name.as_str());
                text.append("' on target '");
                text.append(kind.as_str());
                text.append("'");
                text
            },
            Action::Delete { kind, name } => {
                let mut text = "Deleting ".to_owned();
                text.append(kind.as_str());
                text.append(" with name: ");
                text.append(name.as_str());
                text
            },
            Action::List { kind, name } => {
                let mut text = "Listing children of ".to_owned();
                text.append(kind.as_str());
                text.append(" with name: ");
                text.append(name.as_str());
                text
            },
            Action::SetTitle { title } => {
                let mut text = "Set title to: ".to_owned();
                text.append(title.as_str());
                text
            },
            Action::ShowHelp { text } => text.clone(),
        }
    }
}

impl Clone for Action {
    fn clone(&self) -> (copy: Self)
        ensures
            copy@ == self@,
    {
        match self {
            Action::Create { kind, name } => Action::Create {
                kind: kind.clone(),
                name: name.clone(),
            },
            Action::Delete { kind, name } => Action::Delete {
                kind: kind.clone(),
                name: name.clone(),
            },
            Action::List { kind, name } => Action::List { kind: kind.clone(), name: name.clone() },
            Action::SetTitle { title } => Action::SetTitle { title: title.clone() },
            Action::ShowHelp { text } => Action::ShowHelp { text: text.clone() },
        }
    }
}

/// The handler that a method is bound to.
#[derive(Debug, PartialEq, Eq, Clone, Copy, Structural)]
pub enum Handler {
    New,
    Delete,
    List,
    Title,
}

/// The type and the name that the arguments of `new`, `delete` and `list`
/// give: a single literal is the name of a `project`; an identifier and a
/// literal are the type and the name. Anything else is refused with a reason.
pub open spec fn type_and_name(args: Seq<Node>) -> Result<(Seq<char>, Seq<char>), Seq<char>> {
    if args.len() == 0 {
        Err("Expected at least 1 argument"@)
    } else if args.len() == 1 {
        match args[0] {
            Node::Literal(name) => Ok(("project"@, name)),
            _ => Err("Single argument must be a quoted string name"@),
        }
    } else if args.len() == 2 {
        match args[0] {
            Node::Identifier(kind) => match args[1] {
                Node::Literal(name) => Ok((kind, name)),
                _ => Err("Second argument must be a quoted string"@),
            },
            _ => Err("First argument must be a type identifier"@),
        }
    } else {
        Err("Expected 1 or 2 arguments"@)
    }
}

/// The model of a pair of strings, or of the reason why there is none.
pub open spec fn pair_view(r: Result<(String, String), String>) -> Result<
    (Seq<char>, Seq<char>),
    Seq<char>,
> {
    match r {
        Ok((a, b)) => Ok((a@, b@)),
        Err(reason) => Err(reason@),
    }
}

/// Reads the type and the name from the arguments of `new`, `delete` or `list`.
pub fn parse_type_and_name(args: &[ASTNode]) -> (r: Result<(String, String), String>)
    ensures
        pair_view(r) == type_and_name(node_views(args@)),
{
    if args.len() == 0 {
        Err("Expected at least 1 argument".to_owned())
    } else if args.len() == 1 {
        match &args[0] {
            ASTNode::Literal(name) => Ok(("project".to_owned(), name.clone())),
            _ => Err("Single argument must be a quoted string name".to_owned()),
        }
    } else if args.len() == 2 {
        match &args[0] {
            ASTNode::Identifier(kind) => match &args[1] {
                ASTNode::Literal(name) => Ok((kind.clone(), name.clone())),
                _ => Err("Second argument must be a quoted string".to_owned()),
            },
            _ => Err("First argument must be a type identifier".to_owned()),
        }
    } else {
        Err("Expected 1 or 2 arguments".to_owned())
    }
}

/// What a handler answers: the action for the host and the title that the
/// session has afterwards, or the reason of its refusal (the title then stays).
pub open spec fn handle(handler: Handler, args: Seq<Node>, title: Seq<char>) -> (
    Result<ActionView, Seq<char>>,
    Seq<char>,
) {
    match handler {
        Handler::New => match type_and_name(args) {
            Ok((kind, name)) => (Ok(ActionView::Create { kind, name }), title),
            Err(reason) => (Err(reason), title),
        },
        Handler::Delete => match type_and_name(args) {
            Ok((kind, name)) => (Ok(ActionView::Delete { kind, name }), title),
            Err(reason) => (Err(reason), title),
        },
        Handler::List => match type_and_name(args) {
            Ok((kind, name)) => (Ok(ActionView::List { kind, name }), title),
            Err(reason) => (Err(reason), title),
        },
        Handler::Title => if args.len() > 0 && args[0] is Literal {
            (Ok(ActionView::SetTitle { title: args[0]->Literal_0 }), args[0]->Literal_0)
        } else {
            (Err("title() expects a string literal"@), title)
        },
    }
}

/// The model of what a handler returns.
pub open spec fn handled_view(r: Result<Action, String>) -> Result<ActionView, Seq<char>> {
    match r {
        Ok(action) => Ok(action@),
        Err(reason) => Err(reason@),
    }
}

/// `new`: asks the host to create a note.
pub fn method_new(args: &[ASTNode]) -> (r: Result<Action, String>)
    ensures
        handled_view(r) == handle(Handler::New, node_views(args@), Seq::empty()).0,
{
    match parse_type_and_name(args) {
        Ok((kind, name)) => Ok(Action::Create { kind, name }),
        Err(reason) => Err(reason),
    }
}

/// `delete`: asks the host to delete a note.
pub fn method_delete(args: &[ASTNode]) -> (r: Result<Action, String>)
    ensures
        handled_view(r) == handle(Handler::Delete, node_views(args@), Seq::empty()).0,
{
    match parse_type_and_name(args) {
        Ok((kind, name)) => Ok(Action::Delete { kind, name }),
        Err(reason) => Err(reason),
    }
}

/// `list`: asks the host to list the children of a note.
pub fn method_list(args: &[ASTNode]) -> (r: Result<Action, String>)
    ensures
        handled_view(r) == handle(Handler::List, node_views(args@), Seq::empty()).0,
{
    match parse_type_and_name(args) {
        Ok((kind, name)) => Ok(Action::List { kind, name }),
        Err(reason) => Err(reason),
    }
}

/// `title`: sets the title of the session to its first argument, a literal.
pub fn method_title(args: &[ASTNode], state: &mut FunkState) -> (r: Result<Action, String>)
    ensures
        handled_view(r) == handle(Handler::Title, node_views(args@), old(state).title@).0,
        final(state).title@ == handle(Handler::Title, node_views(args@), old(state).title@).1,
{
    if args.len() == 0 {
        return Err("title() expects a string literal".to_owned());
    }
    match &args[0] {
        ASTNode::Literal(title) => {
            state.title = title.clone();
            Ok(Action::SetTitle { title: title.clone() })
        },
        _ => Err("title() expects a string literal".to_owned()),
    }
}

impl Handler {
    /// Runs the handler on the arguments of a call.
    pub fn invoke(self, args: &[ASTNode], state: &mut FunkState) -> (r: Result<Action, String>)
        ensures
            handled_view(r) == handle(self, node_views(args@), old(state).title@).0,
            final(state).title@ == handle(self, node_views(args@), old(state).title@).1,
    {
        match self {
            Handler::New => method_new(args),
            Handler::Delete => method_delete(args),
            Handler::List => method_list(args),
            Handler::Title => method_title(args, state),
        }
    }
}

} // verus!
