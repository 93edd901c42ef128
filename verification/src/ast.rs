//! The syntax tree: what the parser builds.

use crate::token::Span;
use vstd::prelude::*;

verus! {

/// An operator between two operands.
#[derive(Debug, Clone, Copy, PartialEq, Eq)]
pub enum BinaryOp {
    Add,
    Sub,
    Mul,
    Div,
    Mod,
    Pow,
}

/// An operator on one operand: a sign, a root function, a postfix mark, or
/// what a pair of brackets stands for.
#[derive(Debug, Clone, Copy, PartialEq, Eq)]
pub enum UnaryOp {
    Pos,
    Neg,
    Sqrt,
    Cbrt,
    Fort,
    Fact,
    Degree,
    Abs,
    Floor,
    Ceil,
}

/// The shape of a node, with the nodes below it.
#[derive(Debug, PartialEq)]
pub enum NodeType {
    /// A program: its statements in order.
    Statements(Vec<Node>),
    /// A value bound to a name.
    Assignment(String, Box<Node>),
    Binary(Box<Node>, BinaryOp, Box<Node>),
    Unary(UnaryOp, Box<Node>),
    /// A number literal, with the payload of its token.
    Number(u64),
    /// A reference to a name.
    Identifier(String),
    /// The end of the input, met where an operand or a statement was due.
    EOF,
}

/// A node of the tree: its shape and the part of the source text that it was
/// read from.
#[derive(Debug, PartialEq)]
pub struct Node {
    pub ty: NodeType,
    pub range: Span,
}

/// The mathematical value of a [`NodeType`].
pub enum NodeTypeView {
    Statements(Seq<NodeView>),
    Assignment(Seq<char>, Box<NodeView>),
    Binary(Box<NodeView>, BinaryOp, Box<NodeView>),
    Unary(UnaryOp, Box<NodeView>),
    Number(u64),
    Identifier(Seq<char>),
    EOF,
}

/// The mathematical value of a [`Node`].
pub struct NodeView {
    pub ty: NodeTypeView,
    pub range: Span,
}

/// The value of a tree's shape: the same shape over the values of the
/// nodes below it.
pub open spec fn node_type_view(ty: NodeType) -> NodeTypeView
    decreases ty,
{
    match ty {
        NodeType::Statements(nodes) => NodeTypeView::Statements(
            Seq::new(
                nodes.len() as nat,
                |i: int|
                    if 0 <= i < nodes.len() {
                        node_view(nodes[i])
                    } else {
                        arbitrary()
                    },
            ),
        ),
        NodeType::Assignment(name, value) => NodeTypeView::Assignment(
            name@,
            Box::new(node_view(*value)),
        ),
        NodeType::Binary(left, op, right) => NodeTypeView::Binary(
            Box::new(node_view(*left)),
            op,
            Box::new(node_view(*right)),
        ),
        NodeType::Unary(op, operand) => NodeTypeView::Unary(op, Box::new(node_view(*operand))),
        NodeType::Number(x) => NodeTypeView::Number(x),
        NodeType::Identifier(name) => NodeTypeView::Identifier(name@),
        NodeType::EOF => NodeTypeView::EOF,
    }
}

/// The value of a node: the value of its shape, and its range.
pub open spec fn node_view(node: Node) -> NodeView
    decreases node,
{
    NodeView { ty: node_type_view(node.ty), range: node.range }
}

impl View for NodeType {
    type V = NodeTypeView;

    open spec fn view(&self) -> NodeTypeView {
        node_type_view(*self)
    }
}

impl View for Node {
    type V = NodeView;

    open spec fn view(&self) -> NodeView {
        node_view(*self)
    }
}

/// The values of a sequence of nodes, node by node.
pub open spec fn node_views(nodes: Seq<Node>) -> Seq<NodeView> {
    Seq::new(nodes.len(), |i: int| node_view(nodes[i]))
}

/// The value of a `Statements` shape holds the values of its statements.
pub proof fn lemma_statements_view(nodes: Vec<Node>)
    ensures
        (NodeType::Statements(nodes))@ == NodeTypeView::Statements(node_views(nodes@)),
{
    let ty = NodeType::Statements(nodes);
    assert(ty@->Statements_0 =~= node_views(nodes@));
}

/// Whether a tree is an expression: operators over numbers, names and the
/// end of the input. An expression holds no assignment and no statement list.
pub open spec fn is_expression(node: NodeView) -> bool
    decreases node,
{
    match node.ty {
        NodeTypeView::Binary(left, _, right) => is_expression(*left) && is_expression(*right),
        NodeTypeView::Unary(_, operand) => is_expression(*operand),
        NodeTypeView::Number(_) | NodeTypeView::Identifier(_) | NodeTypeView::EOF => true,
        NodeTypeView::Statements(_) | NodeTypeView::Assignment(_, _) => false,
    }
}

/// Whether a tree is a statement: an expression, or an expression bound to a
/// name.
pub open spec fn is_statement(node: NodeView) -> bool {
    match node.ty {
        NodeTypeView::Assignment(_, value) => is_expression(*value),
        _ => is_expression(node),
    }
}

/// Whether a tree is a program: a list of one or more statements, of which
/// only the first may be the end of the input.
pub open spec fn is_program(node: NodeView) -> bool {
    match node.ty {
        NodeTypeView::Statements(nodes) => {
            &&& nodes.len() >= 1
            &&& forall|i: int| 0 <= i < nodes.len() ==> is_statement(#[trigger] nodes[i])
            &&& forall|i: int| 1 <= i < nodes.len() ==> !((#[trigger] nodes[i]).ty is EOF)
        },
        _ => false,
    }
}

} // verus!
