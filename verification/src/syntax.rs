//! The syntax tree of the calculator.
//!
//! [`SyntaxNode`] is the concrete syntax tree the parser produces: a loose,
//! rule-tagged tree whose compound nodes carry an arbitrary child list, so
//! that operand arity and operator meaning are evaluation-time concerns, as
//! the error taxonomy requires.

use vstd::prelude::*;

verus! {

/// An arithmetic operator of a compound expression.
#[derive(Debug, Clone, Copy, PartialEq, Eq, Structural)]
pub enum Operator {
    Add,
    Sub,
    Mul,
    Div,
}

/// A node of the concrete syntax tree.
///
/// A grammar-conforming tree has an `Expression` root (or a bare `Number`
/// root) whose children are one `Operator` followed by `Operand` wrappers,
/// each wrapping exactly one `Number` or `Expression`; but the type itself
/// does not enforce that shape, and the evaluation steps in [`crate::eval`]
/// report a structural error for every deviation.
#[derive(Debug, PartialEq, Eq)]
pub enum SyntaxNode {
    /// A numeric literal token.
    Number(String),
    /// An operator token.
    Operator(String),
    /// An operand wrapper around a number or a nested expression.
    Operand(Vec<SyntaxNode>),
    /// A compound expression: an operator child followed by operand children.
    Expression(Vec<SyntaxNode>),
}

/// The mathematical model of a [`SyntaxNode`].
pub ghost enum SyntaxNodeModel {
    Number(Seq<char>),
    Operator(Seq<char>),
    Operand(Seq<SyntaxNodeModel>),
    Expression(Seq<SyntaxNodeModel>),
}

/// The model of a syntax node: tokens become character sequences and child
/// vectors become sequences of models.
pub open spec fn node_model(n: SyntaxNode) -> SyntaxNodeModel
    decreases n,
{
    match n {
        SyntaxNode::Number(t) => SyntaxNodeModel::Number(t@),
        SyntaxNode::Operator(t) => SyntaxNodeModel::Operator(t@),
        SyntaxNode::Operand(cs) => SyntaxNodeModel::Operand(nodes_model(cs@)),
        SyntaxNode::Expression(cs) => SyntaxNodeModel::Expression(nodes_model(cs@)),
    }
}

/// The element-wise model of a sequence of syntax nodes.
pub open spec fn nodes_model(s: Seq<SyntaxNode>) -> Seq<SyntaxNodeModel>
    decreases s,
{
    if s.len() == 0 {
        Seq::empty()
    } else {
        nodes_model(s.drop_last()).push(node_model(s.last()))
    }
}

impl View for SyntaxNode {
    type V = SyntaxNodeModel;

    open spec fn view(&self) -> SyntaxNodeModel {
        node_model(*self)
    }
}

/// `nodes_model` maps the sequence element by element.
pub proof fn lemma_nodes_model(s: Seq<SyntaxNode>)
    ensures
        nodes_model(s).len() == s.len(),
        forall|i: int| 0 <= i < s.len() ==> nodes_model(s)[i] == node_model(s[i]),
    decreases s,
{
    if s.len() > 0 {
        lemma_nodes_model(s.drop_last());
    }
}

} // verus!
