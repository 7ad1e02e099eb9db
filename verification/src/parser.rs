//! The parser: executable recursive descent over the input text, proved to
//! return exactly what the specification parser in [`crate::grammar`]
//! describes, token texts included.

use vstd::prelude::*;

use crate::errors::CalculatorError;
use crate::errors::ErrorModel;
use crate::grammar::is_digit_char;
use crate::grammar::is_number_token;
use crate::grammar::is_operator_char;
use crate::grammar::is_space_char;
use crate::grammar::lemma_scan_number_bounds;
use crate::grammar::scan_digits;
use crate::grammar::scan_number;
use crate::grammar::scan_operator;
use crate::grammar::skip_spaces;
use crate::grammar::sp_expression;
use crate::grammar::sp_input;
use crate::grammar::sp_operand;
use crate::grammar::sp_root;
use crate::syntax::lemma_nodes_model;
use crate::syntax::nodes_model;
use crate::syntax::SyntaxNode;
use crate::syntax::SyntaxNodeModel;

verus! {

/// The decimal digit `d` as a character.
pub open spec fn digit_char(d: nat) -> char {
    if d == 0 {
        '0'
    } else if d == 1 {
        '1'
    } else if d == 2 {
        '2'
    } else if d == 3 {
        '3'
    } else if d == 4 {
        '4'
    } else if d == 5 {
        '5'
    } else if d == 6 {
        '6'
    } else if d == 7 {
        '7'
    } else if d == 8 {
        '8'
    } else {
        '9'
    }
}

/// The decimal numeral of `n`, most significant digit first.
pub open spec fn dec_rep(n: nat) -> Seq<char>
    decreases n,
{
    if n < 10 {
        seq![digit_char(n)]
    } else {
        dec_rep(n / 10).push(digit_char(n % 10))
    }
}

fn digit_str(d: usize) -> (r: &'static str)
    requires
        d < 10,
    ensures
        r@ == seq![digit_char(d as nat)],
{
    proof {
        reveal_strlit("0");
        reveal_strlit("1");
        reveal_strlit("2");
        reveal_strlit("3");
        reveal_strlit("4");
        reveal_strlit("5");
        reveal_strlit("6");
        reveal_strlit("7");
        reveal_strlit("8");
        reveal_strlit("9");
    }
    let r: &'static str = if d == 0 {
        "0"
    } else if d == 1 {
        "1"
    } else if d == 2 {
        "2"
    } else if d == 3 {
        "3"
    } else if d == 4 {
        "4"
    } else if d == 5 {
        "5"
    } else if d == 6 {
        "6"
    } else if d == 7 {
        "7"
    } else if d == 8 {
        "8"
    } else {
        "9"
    };
    proof {
        assert(r@ =~= seq![digit_char(d as nat)]);
    }
    r
}

/// Renders `n` in decimal.
fn dec_str(n: usize) -> (r: String)
    ensures
        r@ == dec_rep(n as nat),
    decreases n,
{
    if n < 10 {
        String::from_str(digit_str(n))
    } else {
        let mut s = dec_str(n / 10);
        s.append(digit_str(n % 10));
        proof {
            assert(dec_rep((n / 10) as nat).push(digit_char((n % 10) as nat)) =~= dec_rep(
                (n / 10) as nat,
            ) + seq![digit_char((n % 10) as nat)]);
        }
        s
    }
}

/// The description carried by a grammar-mismatch error: which of the two
/// expectations failed — an expression or numeral where none stands, or
/// text left over after one was read — and the character position of the
/// offending place.
pub open spec fn parse_failure_message(s: Seq<char>) -> Seq<char> {
    if sp_root(s, skip_spaces(s, 0)) is None {
        "expected an expression of the form (operator operand operand) or a number, at character "@
            + dec_rep(skip_spaces(s, 0) as nat)
    } else {
        "unexpected text after the expression, at character "@ + dec_rep(
            skip_spaces(s, sp_root(s, skip_spaces(s, 0)).unwrap().1) as nat,
        )
    }
}

fn is_space(c: char) -> (b: bool)
    ensures
        b == is_space_char(c),
{
    c == ' ' || c == '\t' || c == '\n' || c == '\r'
}

fn is_digit(c: char) -> (b: bool)
    ensures
        b == is_digit_char(c),
{
    c as u32 >= '0' as u32 && c as u32 <= '9' as u32
}

fn is_op_char(c: char) -> (b: bool)
    ensures
        b == is_operator_char(c),
{
    !is_space(c) && c != '(' && c != ')'
}

fn skip_spaces_x(s: &str, len: usize, i: usize) -> (j: usize)
    requires
        len == s@.len(),
        i <= len,
    ensures
        i <= j <= len,
        j as int == skip_spaces(s@, i as int),
{
    let mut cur = i;
    while cur < len && is_space(s.get_char(cur))
        invariant
            len == s@.len(),
            i <= cur <= len,
            skip_spaces(s@, i as int) == skip_spaces(s@, cur as int),
        decreases len - cur,
    {
        cur = cur + 1;
    }
    cur
}

fn scan_digits_x(s: &str, len: usize, i: usize) -> (j: usize)
    requires
        len == s@.len(),
        i <= len,
    ensures
        i <= j <= len,
        j as int == scan_digits(s@, i as int),
{
    let mut cur = i;
    while cur < len && is_digit(s.get_char(cur))
        invariant
            len == s@.len(),
            i <= cur <= len,
            scan_digits(s@, i as int) == scan_digits(s@, cur as int),
        decreases len - cur,
    {
        cur = cur + 1;
    }
    cur
}

fn scan_operator_x(s: &str, len: usize, i: usize) -> (j: usize)
    requires
        len == s@.len(),
        i <= len,
    ensures
        i <= j <= len,
        j as int == scan_operator(s@, i as int),
{
    let mut cur = i;
    while cur < len && is_op_char(s.get_char(cur))
        invariant
            len == s@.len(),
            i <= cur <= len,
            scan_operator(s@, i as int) == scan_operator(s@, cur as int),
        decreases len - cur,
    {
        cur = cur + 1;
    }
    cur
}

pub(crate) fn scan_number_x(s: &str, len: usize, i: usize) -> (r: Option<usize>)
    requires
        len == s@.len(),
        i <= len,
    ensures
        r is Some <==> scan_number(s@, i as int) is Some,
        r matches Some(e) ==> scan_number(s@, i as int) == Some(e as int) && i < e <= len,
{
    let j = if i < len && s.get_char(i) == '-' {
        i + 1
    } else {
        i
    };
    let k = scan_digits_x(s, len, j);
    if k == j {
        None
    } else if k < len && s.get_char(k) == '.' {
        let k2 = scan_digits_x(s, len, k + 1);
        if k2 != k + 1 {
            Some(k2)
        } else {
            Some(k)
        }
    } else {
        Some(k)
    }
}

/// The token text spanning `from..to`.
fn token(s: &str, from: usize, to: usize) -> (t: String)
    requires
        from <= to <= s@.len(),
    ensures
        t@ == s@.subrange(from as int, to as int),
{
    String::from_str(s.substring_char(from, to))
}

fn parse_operand_x(s: &str, len: usize, i: usize) -> (r: Option<(SyntaxNode, usize)>)
    requires
        len == s@.len(),
        i <= len,
    ensures
        r is Some <==> sp_operand(s@, i as int) is Some,
        r matches Some((n, j)) ==> sp_operand(s@, i as int) == Some((n@, j as int)) && i < j
            <= len,
    decreases len - i, 3int,
{
    if i < len && s.get_char(i) == '(' {
        match parse_expression_x(s, len, i) {
            Some((e, j)) => {
                let ghost m = e@;
                let mut children: Vec<SyntaxNode> = Vec::new();
                children.push(e);
                let node = SyntaxNode::Operand(children);
                proof {
                    lemma_nodes_model(node->Operand_0@);
                    assert(nodes_model(node->Operand_0@) =~= seq![m]);
                }
                Some((node, j))
            },
            None => None,
        }
    } else {
        match scan_number_x(s, len, i) {
            Some(e) => {
                let t = token(s, i, e);
                let mut children: Vec<SyntaxNode> = Vec::new();
                children.push(SyntaxNode::Number(t));
                let node = SyntaxNode::Operand(children);
                proof {
                    lemma_nodes_model(node->Operand_0@);
                    assert(nodes_model(node->Operand_0@) =~= seq![
                        SyntaxNodeModel::Number(s@.subrange(i as int, e as int)),
                    ]);
                }
                Some((node, e))
            },
            None => None,
        }
    }
}

fn parse_expression_x(s: &str, len: usize, i: usize) -> (r: Option<(SyntaxNode, usize)>)
    requires
        len == s@.len(),
        i <= len,
    ensures
        r is Some <==> sp_expression(s@, i as int) is Some,
        r matches Some((n, j)) ==> sp_expression(s@, i as int) == Some((n@, j as int)) && i < j
            <= len,
    decreases len - i, 2int,
{
    if !(i < len && s.get_char(i) == '(') {
        return None;
    }
    let i1 = skip_spaces_x(s, len, i + 1);
    let j1 = scan_operator_x(s, len, i1);
    if j1 == i1 {
        return None;
    }
    let op_node = SyntaxNode::Operator(token(s, i1, j1));
    let ghost op_model = SyntaxNodeModel::Operator(s@.subrange(i1 as int, j1 as int));
    let i2 = skip_spaces_x(s, len, j1);
    match parse_operand_x(s, len, i2) {
        None => {
            if i2 < len && s.get_char(i2) == ')' {
                let mut children: Vec<SyntaxNode> = Vec::new();
                children.push(op_node);
                let node = SyntaxNode::Expression(children);
                proof {
                    lemma_nodes_model(node->Expression_0@);
                    assert(nodes_model(node->Expression_0@) =~= seq![op_model]);
                }
                Some((node, i2 + 1))
            } else {
                None
            }
        },
        Some((o1, k1)) => {
            let ghost m1 = o1@;
            let i3 = skip_spaces_x(s, len, k1);
            match parse_operand_x(s, len, i3) {
                None => {
                    if i3 < len && s.get_char(i3) == ')' {
                        let mut children: Vec<SyntaxNode> = Vec::new();
                        children.push(op_node);
                        children.push(o1);
                        let node = SyntaxNode::Expression(children);
                        proof {
                            lemma_nodes_model(node->Expression_0@);
                            assert(nodes_model(node->Expression_0@) =~= seq![op_model, m1]);
                        }
                        Some((node, i3 + 1))
                    } else {
                        None
                    }
                },
                Some((o2, k2)) => {
                    let ghost m2 = o2@;
                    let i4 = skip_spaces_x(s, len, k2);
                    if i4 < len && s.get_char(i4) == ')' {
                        let mut children: Vec<SyntaxNode> = Vec::new();
                        children.push(op_node);
                        children.push(o1);
                        children.push(o2);
                        let node = SyntaxNode::Expression(children);
                        proof {
                            lemma_nodes_model(node->Expression_0@);
                            assert(nodes_model(node->Expression_0@) =~= seq![op_model, m1, m2]);
                        }
                        Some((node, i4 + 1))
                    } else {
                        None
                    }
                },
            }
        },
    }
}

/// The parser of the calculator: text in, concrete syntax tree out.
pub struct CalculatorParser;

impl CalculatorParser {
    /// Parses the whole input as one expression (or one bare numeral)
    /// surrounded by insignificant whitespace.
    ///
    /// Succeeds exactly when the input matches the grammar, and then
    /// returns the tree the grammar describes; otherwise returns a
    /// [`CalculatorError::ParseError`] naming the expected shape and the
    /// character position of the offending place.
    pub fn parse(input: &str) -> (r: Result<SyntaxNode, CalculatorError>)
        ensures
            r matches Ok(n) ==> sp_input(input@) == Some(n@),
            r matches Err(e) ==> sp_input(input@) is None && e@ == ErrorModel::ParseError(
                parse_failure_message(input@),
            ),
    {
        let len = input.unicode_len();
        let i = skip_spaces_x(input, len, 0);
        let root: Option<(SyntaxNode, usize)> = if i < len && input.get_char(i) == '(' {
            parse_expression_x(input, len, i)
        } else {
            match scan_number_x(input, len, i) {
                Some(e) => Some((SyntaxNode::Number(token(input, i, e)), e)),
                None => None,
            }
        };
        match root {
            Some((n, j)) => {
                assert(sp_root(input@, i as int) == Some((n@, j as int)));
                let k = skip_spaces_x(input, len, j);
                if k == len {
                    Ok(n)
                } else {
                    let mut m = String::from_str(
                        "unexpected text after the expression, at character ",
                    );
                    m.append(dec_str(k).as_str());
                    Err(CalculatorError::ParseError(m))
                }
            },
            None => {
                assert(sp_root(input@, i as int) is None);
                let mut m = String::from_str(
                    "expected an expression of the form (operator operand operand) or a number, at character ",
                );
                m.append(dec_str(i).as_str());
                Err(CalculatorError::ParseError(m))
            },
        }
    }
}

} // verus!
