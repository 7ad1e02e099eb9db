//! The closed error taxonomy of the calculator.
//!
//! Every failure of the pipeline is one of these variants; each is terminal
//! and is returned to the immediate caller unchanged.

use vstd::prelude::*;

verus! {

/// An error produced while parsing input text or while resolving the
/// resulting syntax tree.
#[derive(Debug, PartialEq, Eq)]
pub enum CalculatorError {
    /// The input text does not match the grammar, or a numeral token fails
    /// numeric conversion.
    ParseError(String),
    /// The right operand of `/` evaluates to exactly `0.0`.
    DivisionByZero,
    /// The operator token is not one of `+ - * /`.
    UnknownOperator(String),
    /// An expression node is missing one or both operand positions.
    MissingOperand,
    /// An expression node is missing its operator position.
    MissingOperator,
    /// A syntax-tree node has a shape evaluation does not recognize; this
    /// signals a broken internal invariant, not bad user input.
    UnexpectedRule(String),
}

/// The mathematical model of a [`CalculatorError`]: the same taxonomy with
/// every textual payload abstracted to a sequence of characters.
pub ghost enum ErrorModel {
    ParseError(Seq<char>),
    DivisionByZero,
    UnknownOperator(Seq<char>),
    MissingOperand,
    MissingOperator,
    UnexpectedRule(Seq<char>),
}

impl View for CalculatorError {
    type V = ErrorModel;

    open spec fn view(&self) -> ErrorModel {
        match self {
            CalculatorError::ParseError(m) => ErrorModel::ParseError(m@),
            CalculatorError::DivisionByZero => ErrorModel::DivisionByZero,
            CalculatorError::UnknownOperator(t) => ErrorModel::UnknownOperator(t@),
            CalculatorError::MissingOperand => ErrorModel::MissingOperand,
            CalculatorError::MissingOperator => ErrorModel::MissingOperator,
            CalculatorError::UnexpectedRule(r) => ErrorModel::UnexpectedRule(r@),
        }
    }
}

/// The text that [`CalculatorError::message`] returns for a given error.
/// The unexpected-rule description stands in quotes.
pub open spec fn message_of(e: ErrorModel) -> Seq<char> {
    match e {
        ErrorModel::ParseError(m) => "Parse error: "@ + m,
        ErrorModel::DivisionByZero => "Division by zero"@,
        ErrorModel::UnknownOperator(t) => "Unknown operator: "@ + t,
        ErrorModel::MissingOperand => "Missing operand"@,
        ErrorModel::MissingOperator => "Missing operator"@,
        ErrorModel::UnexpectedRule(r) => "Unexpected rule: \""@ + r + "\""@,
    }
}

impl CalculatorError {
    /// A human-readable description of the error, one line per variant.
    pub fn message(&self) -> (r: String)
        ensures
            r@ == message_of(self@),
    {
        match self {
            CalculatorError::ParseError(m) => {
                let mut s = String::from_str("Parse error: ");
                s.append(m.as_str());
                s
            },
            CalculatorError::DivisionByZero => String::from_str("Division by zero"),
            CalculatorError::UnknownOperator(t) => {
                let mut s = String::from_str("Unknown operator: ");
                s.append(t.as_str());
                s
            },
            CalculatorError::MissingOperand => String::from_str("Missing operand"),
            CalculatorError::MissingOperator => String::from_str("Missing operator"),
            CalculatorError::UnexpectedRule(r) => {
                let mut s = String::from_str("Unexpected rule: \"");
                s.append(r.as_str());
                s.append("\"");
                s
            },
        }
    }
}

} // verus!
