//! The grammar, as specification functions over character sequences.
//!
//! ```text
//! input      := ws root ws
//! root       := expression | number
//! expression := "(" ws operator ws [operand ws [operand ws]] ")"
//! operand    := number | expression
//! operator   := opchar+                (maximal; any non-space, non-paren run)
//! number     := ["-"] digit+ ["." digit+]
//! ```
//!
//! Whitespace between tokens is insignificant. The grammar is permissive
//! about operator shape: any contiguous run of non-space, non-parenthesis
//! characters after `(` parses as an operator token, and whether it means
//! anything is evaluation's concern. An expression accepts at most two
//! operands here, so a third operand is a grammar mismatch, while zero or
//! one operands parse and are reported in evaluation as missing.
//!
//! The functions below form a deterministic recursive descent over the
//! input; `sp_input` is the whole parse. The executable parser is proved to
//! return exactly what these functions describe.

use vstd::prelude::*;

use crate::syntax::SyntaxNodeModel;

verus! {

/// Insignificant whitespace.
pub open spec fn is_space_char(c: char) -> bool {
    c == ' ' || c == '\t' || c == '\n' || c == '\r'
}

/// A decimal digit.
pub open spec fn is_digit_char(c: char) -> bool {
    '0' as u32 <= c as u32 && c as u32 <= '9' as u32
}

/// A character that may appear in an operator token.
pub open spec fn is_operator_char(c: char) -> bool {
    !is_space_char(c) && c != '(' && c != ')'
}

/// The first position at or after `i` that does not hold whitespace.
pub open spec fn skip_spaces(s: Seq<char>, i: int) -> int
    decreases s.len() - i,
{
    if 0 <= i && i < s.len() && is_space_char(s[i]) {
        skip_spaces(s, i + 1)
    } else {
        i
    }
}

/// The end of the run of digits starting at `i`.
pub open spec fn scan_digits(s: Seq<char>, i: int) -> int
    decreases s.len() - i,
{
    if 0 <= i && i < s.len() && is_digit_char(s[i]) {
        scan_digits(s, i + 1)
    } else {
        i
    }
}

/// The end of the run of operator characters starting at `i`.
pub open spec fn scan_operator(s: Seq<char>, i: int) -> int
    decreases s.len() - i,
{
    if 0 <= i && i < s.len() && is_operator_char(s[i]) {
        scan_operator(s, i + 1)
    } else {
        i
    }
}

/// The end of the numeral starting at `i`, if one starts there: an optional
/// minus sign, one or more digits, and an optional fraction of a dot
/// followed by one or more digits.
pub open spec fn scan_number(s: Seq<char>, i: int) -> Option<int> {
    let j = if 0 <= i && i < s.len() && s[i] == '-' {
        i + 1
    } else {
        i
    };
    let k = scan_digits(s, j);
    if k == j {
        None
    } else if k < s.len() && s[k] == '.' && scan_digits(s, k + 1) != k + 1 {
        Some(scan_digits(s, k + 1))
    } else {
        Some(k)
    }
}

/// Whether `t` is, in its entirety, one numeral of the grammar.
pub open spec fn is_number_token(t: Seq<char>) -> bool {
    scan_number(t, 0) == Some(t.len() as int)
}

pub proof fn lemma_skip_spaces_bounds(s: Seq<char>, i: int)
    requires
        0 <= i <= s.len(),
    ensures
        i <= skip_spaces(s, i) <= s.len(),
    decreases s.len() - i,
{
    if i < s.len() && is_space_char(s[i]) {
        lemma_skip_spaces_bounds(s, i + 1);
    }
}

pub proof fn lemma_scan_digits_bounds(s: Seq<char>, i: int)
    requires
        0 <= i <= s.len(),
    ensures
        i <= scan_digits(s, i) <= s.len(),
    decreases s.len() - i,
{
    if i < s.len() && is_digit_char(s[i]) {
        lemma_scan_digits_bounds(s, i + 1);
    }
}

pub proof fn lemma_scan_operator_bounds(s: Seq<char>, i: int)
    requires
        0 <= i <= s.len(),
    ensures
        i <= scan_operator(s, i) <= s.len(),
    decreases s.len() - i,
{
    if i < s.len() && is_operator_char(s[i]) {
        lemma_scan_operator_bounds(s, i + 1);
    }
}

pub proof fn lemma_scan_number_bounds(s: Seq<char>, i: int)
    requires
        0 <= i <= s.len(),
        scan_number(s, i) is Some,
    ensures
        i < scan_number(s, i).unwrap() <= s.len(),
{
    let j = if i < s.len() && s[i] == '-' {
        i + 1
    } else {
        i
    };
    lemma_scan_digits_bounds(s, j);
    let k = scan_digits(s, j);
    if k < s.len() && s[k] == '.' && scan_digits(s, k + 1) != k + 1 {
        lemma_scan_digits_bounds(s, k + 1);
    }
}

/// Every character a digit run covers is a digit, and the run ends at the
/// end of the input or at a character that is not a digit.
pub proof fn lemma_scan_digits_chars(s: Seq<char>, i: int)
    requires
        0 <= i <= s.len(),
    ensures
        i <= scan_digits(s, i) <= s.len(),
        forall|k: int| i <= k < scan_digits(s, i) ==> is_digit_char(s[k]),
        scan_digits(s, i) == s.len() || !is_digit_char(s[scan_digits(s, i)]),
    decreases s.len() - i,
{
    if i < s.len() && is_digit_char(s[i]) {
        lemma_scan_digits_chars(s, i + 1);
    }
}

/// Conversely, the digit run starting at `i` ends exactly at the first
/// position at or after `i` that does not hold a digit.
pub proof fn lemma_scan_digits_of_run(s: Seq<char>, i: int, j: int)
    requires
        0 <= i <= j <= s.len(),
        forall|k: int| i <= k < j ==> is_digit_char(s[k]),
        j == s.len() || !is_digit_char(s[j]),
    ensures
        scan_digits(s, i) == j,
    decreases j - i,
{
    if i < j {
        lemma_scan_digits_of_run(s, i + 1, j);
    }
}

/// The text a successful numeral scan covers is itself a numeral: the token
/// the parser cuts out of the input passes the numeral check in isolation.
pub proof fn lemma_number_token_subrange(s: Seq<char>, i: int, j: int)
    requires
        0 <= i <= s.len(),
        scan_number(s, i) == Some(j),
    ensures
        i < j <= s.len(),
        is_number_token(s.subrange(i, j)),
{
    lemma_scan_number_bounds(s, i);
    let sub = s.subrange(i, j);
    let j0 = if s[i] == '-' {
        i + 1
    } else {
        i
    };
    lemma_scan_digits_chars(s, j0);
    let k = scan_digits(s, j0);
    if k < s.len() && s[k] == '.' && scan_digits(s, k + 1) != k + 1 {
        // a fraction follows the integer digits
        lemma_scan_digits_chars(s, k + 1);
        lemma_scan_digits_of_run(sub, j0 - i, k - i);
        lemma_scan_digits_of_run(sub, k - i + 1, j - i);
        assert(scan_number(sub, 0) == Some(sub.len() as int));
    } else {
        // the numeral is the integer digits alone
        lemma_scan_digits_of_run(sub, j0 - i, j - i);
        assert(scan_number(sub, 0) == Some(sub.len() as int));
    }
}

/// Parses the operand starting at `i`: a numeral or a parenthesized
/// expression, wrapped in an operand node. Yields the node and the position
/// just past it.
pub open spec fn sp_operand(s: Seq<char>, i: int) -> Option<(SyntaxNodeModel, int)>
    decreases s.len() - i, 3int,
{
    if 0 <= i && i < s.len() && s[i] == '(' {
        match sp_expression(s, i) {
            Some((e, j)) => Some((SyntaxNodeModel::Operand(seq![e]), j)),
            None => None,
        }
    } else {
        match scan_number(s, i) {
            Some(j) => if 0 <= i && i <= j && j <= s.len() {
                Some((SyntaxNodeModel::Operand(seq![SyntaxNodeModel::Number(s.subrange(i, j))]), j))
            } else {
                None
            },
            None => None,
        }
    }
}

/// Parses the parenthesized expression starting at `i`: `(`, an operator
/// token, at most two operands, `)`, with whitespace in between. Yields the
/// expression node, whose children are the operator followed by the parsed
/// operands, and the position just past the closing parenthesis.
///
/// The range tests on the intermediate positions are always true (the
/// scanners stay within the input); they stand here so that the recursion
/// visibly descends.
pub open spec fn sp_expression(s: Seq<char>, i: int) -> Option<(SyntaxNodeModel, int)>
    decreases s.len() - i, 2int,
{
    if !(0 <= i && i < s.len() && s[i] == '(') {
        None
    } else {
        let i1 = skip_spaces(s, i + 1);
        let j1 = scan_operator(s, i1);
        if !(i + 1 <= i1 && i1 < j1 && j1 <= s.len()) {
            None
        } else {
            let op = SyntaxNodeModel::Operator(s.subrange(i1, j1));
            let i2 = skip_spaces(s, j1);
            if !(j1 <= i2 && i2 <= s.len()) {
                None
            } else {
                match sp_operand(s, i2) {
                    None => if i2 < s.len() && s[i2] == ')' {
                        Some((SyntaxNodeModel::Expression(seq![op]), i2 + 1))
                    } else {
                        None
                    },
                    Some((o1, k1)) => if !(i2 < k1 && k1 <= s.len()) {
                        None
                    } else {
                        let i3 = skip_spaces(s, k1);
                        if !(k1 <= i3 && i3 <= s.len()) {
                            None
                        } else {
                            match sp_operand(s, i3) {
                                None => if i3 < s.len() && s[i3] == ')' {
                                    Some((SyntaxNodeModel::Expression(seq![op, o1]), i3 + 1))
                                } else {
                                    None
                                },
                                Some((o2, k2)) => if !(i3 < k2 && k2 <= s.len()) {
                                    None
                                } else {
                                    let i4 = skip_spaces(s, k2);
                                    if i4 < s.len() && s[i4] == ')' {
                                        Some((SyntaxNodeModel::Expression(seq![op, o1, o2]), i4 + 1))
                                    } else {
                                        None
                                    }
                                },
                            }
                        }
                    },
                }
            }
        }
    }
}

/// Parses the root starting at `i`: a parenthesized expression, or a bare
/// numeral standing alone (not wrapped in an operand node).
pub open spec fn sp_root(s: Seq<char>, i: int) -> Option<(SyntaxNodeModel, int)> {
    if 0 <= i && i < s.len() && s[i] == '(' {
        sp_expression(s, i)
    } else {
        match scan_number(s, i) {
            Some(j) => if 0 <= i && i <= j && j <= s.len() {
                Some((SyntaxNodeModel::Number(s.subrange(i, j)), j))
            } else {
                None
            },
            None => None,
        }
    }
}

/// The whole parse: one root surrounded by whitespace, consuming the entire
/// input.
pub open spec fn sp_input(s: Seq<char>) -> Option<SyntaxNodeModel> {
    match sp_root(s, skip_spaces(s, 0)) {
        Some((n, j)) => if skip_spaces(s, j) == s.len() {
            Some(n)
        } else {
            None
        },
        None => None,
    }
}

/// Every parse makes progress and stays within the input.
pub proof fn lemma_sp_operand_bounds(s: Seq<char>, i: int)
    requires
        0 <= i <= s.len(),
        sp_operand(s, i) is Some,
    ensures
        i < sp_operand(s, i).unwrap().1 <= s.len(),
    decreases s.len() - i, 3int,
{
    if i < s.len() && s[i] == '(' {
        lemma_sp_expression_bounds(s, i);
    } else {
        lemma_scan_number_bounds(s, i);
    }
}

pub proof fn lemma_sp_expression_bounds(s: Seq<char>, i: int)
    requires
        0 <= i <= s.len(),
        sp_expression(s, i) is Some,
    ensures
        i < sp_expression(s, i).unwrap().1 <= s.len(),
    decreases s.len() - i, 2int,
{
    let i1 = skip_spaces(s, i + 1);
    let j1 = scan_operator(s, i1);
    lemma_skip_spaces_bounds(s, i + 1);
    lemma_scan_operator_bounds(s, i1);
    let i2 = skip_spaces(s, j1);
    lemma_skip_spaces_bounds(s, j1);
    if sp_operand(s, i2) is Some {
        lemma_sp_operand_bounds(s, i2);
        let k1 = sp_operand(s, i2).unwrap().1;
        let i3 = skip_spaces(s, k1);
        lemma_skip_spaces_bounds(s, k1);
        if sp_operand(s, i3) is Some {
            lemma_sp_operand_bounds(s, i3);
            let k2 = sp_operand(s, i3).unwrap().1;
            lemma_skip_spaces_bounds(s, k2);
        }
    }
}

} // verus!
