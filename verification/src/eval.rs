//! The evaluator's decisions, verified.
//!
//! Evaluation walks the syntax tree in a fixed order: an expression node
//! yields its operator position and its two operand positions, each operand
//! is unwrapped and evaluated in turn, and only after both operands have
//! evaluated is the operator token judged. The numeric work in between —
//! converting a numeral to a double, the arithmetic, the exact-zero divisor
//! test — is floating point, which cannot stand here; the caller drives the
//! recursion and does that work, and calls these three functions for every
//! decision evaluation makes:
//!
//! - [`expression_parts`] extracts the operator and both operand positions
//!   of an expression node, reporting `MissingOperator` or `MissingOperand`
//!   exactly as evaluation order demands;
//! - [`unwrap_operand`] strips operand wrappers down to the numeral or
//!   expression inside, reporting `MissingOperand` for an empty wrapper and
//!   `UnexpectedRule` for an operator token standing where an operand
//!   belongs;
//! - [`judge_operator`] maps the four known operator tokens to
//!   [`Operator`] and reports every other token as `UnknownOperator`.
//!
//! Each carries an exact contract over its specification mirror, so every
//! error the taxonomy owes to tree shape is decided by verified code.

use vstd::prelude::*;

use crate::errors::CalculatorError;
use crate::errors::ErrorModel;
use crate::syntax::lemma_nodes_model;
use crate::syntax::nodes_model;
use crate::syntax::Operator;
use crate::syntax::SyntaxNode;
use crate::syntax::SyntaxNodeModel;

verus! {

/// What [`expression_parts`] returns on the child list of an expression
/// node: the operator position is checked first, then the first and the
/// second operand positions; children beyond the first three take no part.
pub open spec fn parts_model(cs: Seq<SyntaxNodeModel>) -> Result<
    (SyntaxNodeModel, SyntaxNodeModel, SyntaxNodeModel),
    ErrorModel,
> {
    if cs.len() == 0 {
        Err(ErrorModel::MissingOperator)
    } else if cs.len() < 3 {
        Err(ErrorModel::MissingOperand)
    } else {
        Ok((cs[0], cs[1], cs[2]))
    }
}

/// What [`unwrap_operand`] returns on a given node: a numeral or an
/// expression stands for itself, operand wrappers unwrap to their first
/// child, an empty wrapper is a missing operand, and an operator token in
/// operand position is an unrecognized shape.
pub open spec fn unwrap_model(n: SyntaxNodeModel) -> Result<SyntaxNodeModel, ErrorModel>
    decreases n,
{
    match n {
        SyntaxNodeModel::Number(t) => Ok(SyntaxNodeModel::Number(t)),
        SyntaxNodeModel::Expression(cs) => Ok(SyntaxNodeModel::Expression(cs)),
        SyntaxNodeModel::Operand(cs) => if cs.len() == 0 {
            Err(ErrorModel::MissingOperand)
        } else {
            unwrap_model(cs[0])
        },
        SyntaxNodeModel::Operator(_) => Err(ErrorModel::UnexpectedRule("operator"@)),
    }
}

/// What [`judge_operator`] returns on a given node: one of the four
/// operators for its token, `UnknownOperator` with the token itself for any
/// other token, and an unrecognized shape for a node that carries no
/// operator token.
pub open spec fn judge_model(n: SyntaxNodeModel) -> Result<Operator, ErrorModel> {
    match n {
        SyntaxNodeModel::Operator(t) => if t == "+"@ {
            Ok(Operator::Add)
        } else if t == "-"@ {
            Ok(Operator::Sub)
        } else if t == "*"@ {
            Ok(Operator::Mul)
        } else if t == "/"@ {
            Ok(Operator::Div)
        } else {
            Err(ErrorModel::UnknownOperator(t))
        },
        _ => Err(ErrorModel::UnexpectedRule("expected an operator token"@)),
    }
}

/// Whether the whole of `t` equals the literal token `lit`.
fn token_is(t: &String, lit: &str) -> (b: bool)
    ensures
        b == (t@ == lit@),
{
    let l = String::from_str(lit);
    *t == l
}

/// Extracts the operator and the two operands of an expression node's
/// child list, in evaluation order: a missing operator position is judged
/// before a missing operand position; [`parts_model`] says which error
/// comes for which arity, exactly.
pub fn expression_parts<'a>(children: &'a Vec<SyntaxNode>) -> (r: Result<
    (&'a SyntaxNode, &'a SyntaxNode, &'a SyntaxNode),
    CalculatorError,
>)
    ensures
        match r {
            Ok((op, o1, o2)) => parts_model(nodes_model(children@)) == Ok::<
                (SyntaxNodeModel, SyntaxNodeModel, SyntaxNodeModel),
                ErrorModel,
            >(((*op)@, (*o1)@, (*o2)@)),
            Err(e) => parts_model(nodes_model(children@)) == Err::<
                (SyntaxNodeModel, SyntaxNodeModel, SyntaxNodeModel),
                ErrorModel,
            >(e@),
        },
{
    proof {
        lemma_nodes_model(children@);
    }
    if children.len() == 0 {
        Err(CalculatorError::MissingOperator)
    } else if children.len() < 3 {
        Err(CalculatorError::MissingOperand)
    } else {
        Ok((&children[0], &children[1], &children[2]))
    }
}

/// Strips operand wrappers from a node until a numeral or an expression
/// remains, or the first structural error of the descent; [`unwrap_model`]
/// says which, exactly, for every node shape.
pub fn unwrap_operand<'a>(node: &'a SyntaxNode) -> (r: Result<&'a SyntaxNode, CalculatorError>)
    ensures
        match r {
            Ok(m) => unwrap_model(node@) == Ok::<SyntaxNodeModel, ErrorModel>((*m)@),
            Err(e) => unwrap_model(node@) == Err::<SyntaxNodeModel, ErrorModel>(e@),
        },
    decreases node,
{
    match node {
        SyntaxNode::Number(_) => Ok(node),
        SyntaxNode::Expression(_) => Ok(node),
        SyntaxNode::Operand(cs) => {
            proof {
                lemma_nodes_model(cs@);
            }
            if cs.len() == 0 {
                Err(CalculatorError::MissingOperand)
            } else {
                unwrap_operand(&cs[0])
            }
        },
        SyntaxNode::Operator(_) => Err(
            CalculatorError::UnexpectedRule(String::from_str("operator")),
        ),
    }
}

/// Judges the node standing in operator position, after both operands have
/// evaluated: the four known tokens map to [`Operator`], every other token
/// is an unknown operator, carried verbatim; [`judge_model`] says which,
/// exactly.
pub fn judge_operator(node: &SyntaxNode) -> (r: Result<Operator, CalculatorError>)
    ensures
        match r {
            Ok(op) => judge_model(node@) == Ok::<Operator, ErrorModel>(op),
            Err(e) => judge_model(node@) == Err::<Operator, ErrorModel>(e@),
        },
{
    match node {
        SyntaxNode::Operator(t) => {
            if token_is(t, "+") {
                Ok(Operator::Add)
            } else if token_is(t, "-") {
                Ok(Operator::Sub)
            } else if token_is(t, "*") {
                Ok(Operator::Mul)
            } else if token_is(t, "/") {
                Ok(Operator::Div)
            } else {
                Err(CalculatorError::UnknownOperator(t.clone()))
            }
        },
        _ => Err(CalculatorError::UnexpectedRule(String::from_str("expected an operator token"))),
    }
}

} // verus!
