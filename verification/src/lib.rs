//! A calculator for arithmetic expressions in fully parenthesized prefix
//! (Polish) notation, such as `(+ 1 (* 2 3))`.
//!
//! [`CalculatorParser::parse`] turns input text into a concrete syntax tree
//! according to a fixed grammar. Evaluation walks that tree recursively —
//! operator position, first operand, second operand, operator meaning, in
//! that order — and every decision of that walk is a verified function of
//! [`eval`]: [`expression_parts`], [`unwrap_operand`] and
//! [`judge_operator`]. The numeric work between the decisions (converting
//! a numeral, the arithmetic, the exact-zero divisor test) is IEEE-754
//! double arithmetic and is left to the caller driving the walk.
//!
//! Parsing and evaluation recurse with the nesting depth of the input, so
//! a pathologically deep expression can exhaust the call stack; that is an
//! accepted resource limit, not a guarded failure mode.

pub mod errors;
pub mod eval;
pub mod grammar;
pub mod laws;
pub mod parser;
pub mod syntax;

pub use errors::CalculatorError;
pub use errors::ErrorModel;
pub use eval::expression_parts;
pub use eval::judge_operator;
pub use eval::unwrap_operand;
pub use parser::CalculatorParser;
pub use syntax::Operator;
pub use syntax::SyntaxNode;
pub use syntax::SyntaxNodeModel;
