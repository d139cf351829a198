//! Nodes: the tree that the parser builds.

use vstd::prelude::*;

verus! {

/// What a node is, beside its position.
#[derive(Debug, PartialEq, Eq)]
pub enum SpecificNode {
    /// An ordered list of nodes: the root of a template, or a working stack.
    List(Vec<Node>),
    /// Literal text, copied to the output as it is.
    Text(String),
    /// A `{{ expression }}` block and the expression it holds.
    VariableBlock(Box<Node>),
    /// A name, not yet bound to any value.
    Identifier(String),
    /// An integer literal.
    Int(i32),
    /// A decimal literal, kept as the numeral that was written.
    Float(String),
    /// A boolean literal.
    Bool(bool),
    /// A binary operation; `operator` is one of `+`, `-`, `*`, `/`.
    Math { lhs: Box<Node>, rhs: Box<Node>, operator: String },
}

/// A node of the tree: what it is, and the byte offset of the first token
/// that it was built from.
#[derive(Debug, PartialEq, Eq)]
pub struct Node {
    pub position: usize,
    pub specific: SpecificNode,
}

/// What a [`SpecificNode`] stands for in contracts.
pub enum SpecificNodeView {
    List(Seq<NodeView>),
    Text(Seq<char>),
    VariableBlock(Box<NodeView>),
    Identifier(Seq<char>),
    Int(i32),
    Float(Seq<char>),
    Bool(bool),
    Math { lhs: Box<NodeView>, rhs: Box<NodeView>, operator: Seq<char> },
}

/// What a [`Node`] stands for in contracts: the same tree, with sequences in
/// place of vectors and strings.
pub struct NodeView {
    pub position: usize,
    pub specific: SpecificNodeView,
}

/// The view of a node.
pub open spec fn node_view(node: Node) -> NodeView
    decreases node,
{
    NodeView {
        position: node.position,
        specific: match node.specific {
            SpecificNode::List(children) => SpecificNodeView::List(
                Seq::new(
                    children@.len(),
                    |i: int|
                        if 0 <= i < children@.len() {
                            node_view(children@[i])
                        } else {
                            arbitrary()
                        },
                ),
            ),
            SpecificNode::Text(text) => SpecificNodeView::Text(text@),
            SpecificNode::VariableBlock(inner) => SpecificNodeView::VariableBlock(
                Box::new(node_view(*inner)),
            ),
            SpecificNode::Identifier(name) => SpecificNodeView::Identifier(name@),
            SpecificNode::Int(value) => SpecificNodeView::Int(value),
            SpecificNode::Float(numeral) => SpecificNodeView::Float(numeral@),
            SpecificNode::Bool(value) => SpecificNodeView::Bool(value),
            SpecificNode::Math { lhs, rhs, operator } => SpecificNodeView::Math {
                lhs: Box::new(node_view(*lhs)),
                rhs: Box::new(node_view(*rhs)),
                operator: operator@,
            },
        },
    }
}

/// The views of the nodes of a sequence, in order.
pub open spec fn view_nodes(nodes: Seq<Node>) -> Seq<NodeView> {
    nodes.map_values(|node: Node| node_view(node))
}

impl View for Node {
    type V = NodeView;

    open spec fn view(&self) -> NodeView {
        node_view(*self)
    }
}

impl NodeView {
    /// Whether the node is a list.
    pub open spec fn is_list(self) -> bool {
        self.specific is List
    }

    /// The children of a list node, in order.
    pub open spec fn children(self) -> Seq<NodeView>
        recommends
            self.is_list(),
    {
        self.specific->List_0
    }

    /// A list node at `position` with the given children.
    pub open spec fn list(position: usize, children: Seq<NodeView>) -> NodeView {
        NodeView { position, specific: SpecificNodeView::List(children) }
    }
}

impl Node {
    /// A node at `position`.
    pub fn new(position: usize, specific: SpecificNode) -> (node: Node)
        ensures
            node.position == position,
            node.specific == specific,
    {
        Node { position, specific }
    }

    /// Appends `child` to a list node.
    pub fn push(&mut self, child: Node)
        requires
            old(self)@.is_list(),
        ensures
            final(self)@ == NodeView::list(old(self)@.position, old(self)@.children().push(child@)),
    {
        match &mut self.specific {
            SpecificNode::List(children) => {
                children.push(child);
            },
            _ => {},
        }
        assert(self@.children() =~= old(self)@.children().push(child@));
    }

    /// Removes the last child of a list node and returns it.
    pub fn pop(&mut self) -> (child: Node)
        requires
            old(self)@.is_list(),
            old(self)@.children().len() > 0,
        ensures
            child@ == old(self)@.children().last(),
            final(self)@ == NodeView::list(old(self)@.position, old(self)@.children().drop_last()),
    {
        let last = match &mut self.specific {
            SpecificNode::List(children) => children.pop(),
            _ => None,
        };
        assert(self@.children() =~= old(self)@.children().drop_last());
        match last {
            Some(child) => child,
            None => unreached(),
        }
    }

    /// Whether a list node has no children.
    pub fn is_empty(&self) -> (empty: bool)
        requires
            self@.is_list(),
        ensures
            empty == (self@.children().len() == 0),
    {
        self.len() == 0
    }

    /// The number of children of a list node.
    pub fn len(&self) -> (count: usize)
        requires
            self@.is_list(),
        ensures
            count == self@.children().len(),
    {
        match &self.specific {
            SpecificNode::List(children) => children.len(),
            _ => 0,
        }
    }

    /// A copy of the children of a list node, in order.
    pub fn get_children(&self) -> (children: Vec<Node>)
        requires
            self@.is_list(),
        ensures
            view_nodes(children@) == self@.children(),
        decreases self, 0int,
    {
        let mut copies: Vec<Node> = Vec::new();
        match &self.specific {
            SpecificNode::List(children) => {
                let mut i: usize = 0;
                while i < children.len()
                    invariant
                        i <= children.len(),
                        copies.len() == i,
                        self.specific == SpecificNode::List(*children),
                        forall|k: int|
                            0 <= k < i ==> node_view(copies@[k]) == #[trigger] node_view(
                                children@[k],
                            ),
                    decreases children.len() - i,
                {
                    assert(decreases_to!(self => children@[i as int])) by {
                        assert(decreases_to!(self.specific => self.specific->List_0));
                    }
                    copies.push(children[i].clone());
                    i += 1;
                }
                assert forall|k: int| 0 <= k < children@.len() implies view_nodes(copies@)[k]
                    == self@.children()[k] by {
                    assert(node_view(copies@[k]) == node_view(children@[k]));
                }
            },
            _ => {},
        }
        copies
    }
}

impl Clone for Node {
    fn clone(&self) -> (copy: Node)
        ensures
            copy@ == self@,
        decreases self, 1int,
    {
        let specific = match &self.specific {
            SpecificNode::List(_) => {
                let children = self.get_children();
                proof {
                    let copy = Node {
                        position: self.position,
                        specific: SpecificNode::List(children),
                    };
                    assert(copy@.children() =~= view_nodes(children@));
                }
                SpecificNode::List(children)
            },
            SpecificNode::Text(text) => SpecificNode::Text(text.clone()),
            SpecificNode::VariableBlock(inner) => SpecificNode::VariableBlock(
                Box::new((**inner).clone()),
            ),
            SpecificNode::Identifier(name) => SpecificNode::Identifier(name.clone()),
            SpecificNode::Int(value) => SpecificNode::Int(*value),
            SpecificNode::Float(numeral) => SpecificNode::Float(numeral.clone()),
            SpecificNode::Bool(value) => SpecificNode::Bool(*value),
            SpecificNode::Math { lhs, rhs, operator } => SpecificNode::Math {
                lhs: Box::new((**lhs).clone()),
                rhs: Box::new((**rhs).clone()),
                operator: operator.clone(),
            },
        };
        Node { position: self.position, specific }
    }
}

} // verus!
