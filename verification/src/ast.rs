//! The syntax tree that the parser produces.

use vstd::prelude::*;

verus! {

/// A node of the syntax tree.
///
/// The parser only ever builds a `MethodChain` of `MethodCall` nodes whose
/// arguments are `Identifier` or `Literal` nodes; see [`Node::is_chain`].
#[derive(Debug, PartialEq)]
pub enum ASTNode {
    /// One call of the chain: its name and its arguments in source order.
    MethodCall { name: String, args: Vec<ASTNode> },
    /// The root: the calls of a chain in source order.
    MethodChain(Vec<ASTNode>),
    /// The contents of a quoted string, without the quotes.
    Literal(String),
    /// A bare word.
    Identifier(String),
}

/// The mathematical model of an [`ASTNode`].
pub ghost enum Node {
    MethodCall { name: Seq<char>, args: Seq<Node> },
    MethodChain(Seq<Node>),
    Literal(Seq<char>),
    Identifier(Seq<char>),
}

impl Node {
    /// An identifier or a literal: what may stand in an argument position.
    pub open spec fn is_argument(self) -> bool {
        self is Literal || self is Identifier
    }

    /// A call whose arguments are all identifiers or literals.
    pub open spec fn is_call(self) -> bool {
        self matches Node::MethodCall { args, .. } && forall|i: int|
            0 <= i < args.len() ==> (#[trigger] args[i]).is_argument()
    }

    /// A chain that holds such calls and nothing else.
    pub open spec fn is_chain(self) -> bool {
        self matches Node::MethodChain(calls) && forall|i: int|
            0 <= i < calls.len() ==> (#[trigger] calls[i]).is_call()
    }
}

impl ASTNode {
    /// The model of a node: its text as characters, its children as models.
    pub open spec fn model(self) -> Node
        decreases self,
    {
        match self {
            ASTNode::MethodCall { name, args } => Node::MethodCall {
                name: name@,
                args: Seq::new(
                    args@.len(),
                    |i: int|
                        if 0 <= i < args@.len() {
                            args@[i].model()
                        } else {
                            arbitrary()
                        },
                ),
            },
            ASTNode::MethodChain(calls) => Node::MethodChain(
                Seq::new(
                    calls@.len(),
                    |i: int|
                        if 0 <= i < calls@.len() {
                            calls@[i].model()
                        } else {
                            arbitrary()
                        },
                ),
            ),
            ASTNode::Literal(text) => Node::Literal(text@),
            ASTNode::Identifier(name) => Node::Identifier(name@),
        }
    }
}

impl View for ASTNode {
    type V = Node;

    open spec fn view(&self) -> Node {
        self.model()
    }
}

/// The models of a sequence of nodes.
pub open spec fn node_views(nodes: Seq<ASTNode>) -> Seq<Node> {
    nodes.map_values(|n: ASTNode| n@)
}

/// The model of a call or a chain holds the models of its children.
pub proof fn lemma_node_view(node: ASTNode)
    ensures
        node matches ASTNode::MethodCall { name, args } ==> node@ == (Node::MethodCall {
            name: name@,
            args: node_views(args@),
        }),
        node matches ASTNode::MethodChain(calls) ==> node@ == Node::MethodChain(node_views(calls@)),
{
    match node {
        ASTNode::MethodCall { name, args } => {
            assert(node@->MethodCall_args =~= node_views(args@));
        },
        ASTNode::MethodChain(calls) => {
            assert(node@->MethodChain_0 =~= node_views(calls@));
        },
        _ => {},
    }
}

/// A copy of a list of nodes.
pub fn clone_nodes(nodes: &Vec<ASTNode>) -> (copy: Vec<ASTNode>)
    ensures
        node_views(copy@) == node_views(nodes@),
    decreases nodes, 0nat,
{
    let mut copy: Vec<ASTNode> = Vec::new();
    let mut i: usize = 0;
    while i < nodes.len()
        invariant
            i <= nodes.len(),
            copy@.len() == i,
            forall|k: int| 0 <= k < i ==> copy@[k]@ == nodes@[k]@,
        decreases nodes.len() - i,
    {
        copy.push(nodes[i].clone());
        i += 1;
    }
    assert(node_views(copy@) =~= node_views(nodes@));
    copy
}

impl Clone for ASTNode {
    fn clone(&self) -> (copy: Self)
        ensures
            copy@ == self@,
        decreases self, 1nat,
    {
        proof {
            lemma_node_view(*self);
        }
        let copy = match self {
            ASTNode::MethodCall { name, args } => ASTNode::MethodCall {
                name: name.clone(),
                args: clone_nodes(args),
            },
            ASTNode::MethodChain(calls) => ASTNode::MethodChain(clone_nodes(calls)),
            ASTNode::Literal(text) => ASTNode::Literal(text.clone()),
            ASTNode::Identifier(name) => ASTNode::Identifier(name.clone()),
        };
        proof {
            lemma_node_view(copy);
        }
        copy
    }
}

} // verus!
