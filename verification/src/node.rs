//! The syntax tree that the parser builds.

use vstd::prelude::*;
use crate::symbols::Symbols;

verus! {

/// The binary operations of the tree. `>` and `>=` have no kind of their
/// own: the parser writes them as `Lt` and `Leq` with the operands swapped.
#[derive(Debug, Clone, Copy, PartialEq, Eq, Structural, Hash)]
pub enum BinaryKind {
    Add,
    Sub,
    Mul,
    Div,
    Eq,
    Neq,
    Lt,
    Leq,
}

/// A node of the syntax tree. A node owns its children.
#[derive(Debug, PartialEq, Eq, Hash)]
pub enum Node {
    /// An unsigned integer literal.
    NumberLiteral(usize),
    /// A local variable, named by its offset in the stack frame.
    Variable(usize),
    /// An assignment of the second node's value to the first node.
    Assign(Box<Node>, Box<Node>),
    /// A binary operation on two nodes.
    BinaryOp(BinaryKind, Box<Node>, Box<Node>),
    /// A call of the named function. The second field stands in for the
    /// argument list, which the grammar does not read yet.
    Call(String, Vec<usize>),
}

/// The mathematical value of a [`Node`].
pub enum NodeView {
    NumberLiteral(nat),
    Variable(nat),
    Assign(Box<NodeView>, Box<NodeView>),
    BinaryOp(BinaryKind, Box<NodeView>, Box<NodeView>),
    Call(Seq<char>, Seq<usize>),
}

impl NodeView {
    /// Whether the offset of every variable of the tree is one that
    /// `symbols` has handed out.
    pub open spec fn resolved_in(self, symbols: Symbols) -> bool
        decreases self,
    {
        match self {
            NodeView::Variable(offset) => symbols.has_offset(offset),
            NodeView::Assign(target, value) => target.resolved_in(symbols) && value.resolved_in(
                symbols,
            ),
            NodeView::BinaryOp(_, left, right) => left.resolved_in(symbols) && right.resolved_in(
                symbols,
            ),
            _ => true,
        }
    }
}

impl Node {
    /// The mathematical value of the tree, child by child.
    pub open spec fn model(&self) -> NodeView
        decreases self,
    {
        match self {
            Node::NumberLiteral(value) => NodeView::NumberLiteral(*value as nat),
            Node::Variable(offset) => NodeView::Variable(*offset as nat),
            Node::Assign(target, value) => NodeView::Assign(
                Box::new(target.model()),
                Box::new(value.model()),
            ),
            Node::BinaryOp(kind, left, right) => NodeView::BinaryOp(
                *kind,
                Box::new(left.model()),
                Box::new(right.model()),
            ),
            Node::Call(name, arguments) => NodeView::Call(name@, arguments@),
        }
    }
}

impl View for Node {
    type V = NodeView;

    open spec fn view(&self) -> NodeView {
        self.model()
    }
}

/// What stands in a [`Node::Call`] for the argument list.
pub open spec fn call_placeholder() -> Seq<usize> {
    seq![1usize, 1usize]
}

} // verus!
