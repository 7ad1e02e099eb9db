//! Laws relating the grammar to the evaluation steps.
//!
//! The grammar only enforces shape; meaning is evaluation's concern. The
//! proofs here pin that layering down: every tree the grammar admits is
//! well-formed, and on a well-formed tree the evaluation steps can only
//! report a missing operand or an unknown operator — never a missing
//! operator, an unrecognized shape, or a numeral outside the grammar.

use vstd::prelude::*;

use crate::errors::ErrorModel;
use crate::eval::judge_model;
use crate::eval::parts_model;
use crate::eval::unwrap_model;
use crate::grammar::is_digit_char;
use crate::grammar::is_number_token;
use crate::grammar::is_operator_char;
use crate::grammar::is_space_char;
use crate::grammar::lemma_number_token_subrange;
use crate::grammar::lemma_scan_digits_bounds;
use crate::grammar::lemma_scan_digits_chars;
use crate::grammar::lemma_skip_spaces_bounds;
use crate::grammar::scan_digits;
use crate::grammar::scan_number;
use crate::grammar::scan_operator;
use crate::grammar::skip_spaces;
use crate::grammar::sp_expression;
use crate::grammar::sp_input;
use crate::grammar::sp_operand;
use crate::grammar::sp_root;
use crate::syntax::Operator;
use crate::syntax::SyntaxNodeModel;

verus! {

/// A well-formed syntax tree: the shape the grammar guarantees. Numerals
/// pass the numeral check, operand wrappers wrap exactly one numeral or
/// expression, and an expression node holds an operator token first,
/// followed by at most two well-formed operands.
pub open spec fn wf_node(n: SyntaxNodeModel) -> bool
    decreases n,
{
    match n {
        SyntaxNodeModel::Number(t) => is_number_token(t),
        SyntaxNodeModel::Operator(t) => t.len() > 0,
        SyntaxNodeModel::Operand(cs) => cs.len() == 1 && wf_node(cs[0]) && (cs[0]
            is Number || cs[0] is Expression),
        SyntaxNodeModel::Expression(cs) => 1 <= cs.len() <= 3 && cs[0] is Operator && wf_node(
            cs[0],
        ) && (cs.len() >= 2 ==> cs[1] is Operand && wf_node(cs[1])) && (cs.len() == 3 ==> cs[2]
            is Operand && wf_node(cs[2])),
    }
}

/// LAW. A well-formed tree that is not a bare operator token always
/// unwraps, to a well-formed numeral or expression: the missing-operand
/// and unrecognized-shape errors of the unwrapping step cannot arise on
/// what the grammar admits.
pub proof fn lemma_wf_unwrap(n: SyntaxNodeModel)
    requires
        wf_node(n),
        !(n is Operator),
    ensures
        unwrap_model(n) matches Ok(m) && wf_node(m) && (m is Number || m is Expression),
    decreases n,
{
    match n {
        SyntaxNodeModel::Operand(cs) => {
            lemma_wf_unwrap(cs[0]);
        },
        _ => {},
    }
}

/// LAW. On the child list of a well-formed expression node, extraction
/// reports at most a missing operand — never a missing operator — and what
/// it extracts is an operator token, which judges as an operator or as
/// unknown but never as an unrecognized shape, and two well-formed operand
/// wrappers.
pub proof fn lemma_wf_parts(cs: Seq<SyntaxNodeModel>)
    requires
        wf_node(SyntaxNodeModel::Expression(cs)),
    ensures
        match parts_model(cs) {
            Ok((op, o1, o2)) => {
                &&& op is Operator
                &&& (judge_model(op) matches Ok(_) || (judge_model(op) matches Err(e) && e
                    is UnknownOperator))
                &&& o1 is Operand
                &&& wf_node(o1)
                &&& o2 is Operand
                &&& wf_node(o2)
            },
            Err(e) => e is MissingOperand,
        },
{
}

/// Everything the operand parser returns is well-formed.
pub proof fn lemma_sp_operand_wf(s: Seq<char>, i: int)
    requires
        0 <= i <= s.len(),
        sp_operand(s, i) is Some,
    ensures
        wf_node(sp_operand(s, i).unwrap().0),
        sp_operand(s, i).unwrap().0 is Operand,
    decreases s.len() - i, 3int,
{
    if i < s.len() && s[i] == '(' {
        lemma_sp_expression_wf(s, i);
        let e = sp_expression(s, i).unwrap().0;
        assert(sp_operand(s, i).unwrap().0 == SyntaxNodeModel::Operand(seq![e]));
        assert(seq![e][0] == e);
        assert(wf_node(SyntaxNodeModel::Operand(seq![e])));
    } else {
        let j = scan_number(s, i).unwrap();
        lemma_number_token_subrange(s, i, j);
        let num = SyntaxNodeModel::Number(s.subrange(i, j));
        assert(sp_operand(s, i).unwrap().0 == SyntaxNodeModel::Operand(seq![num]));
        assert(seq![num][0] == num);
        assert(wf_node(num));
        assert(wf_node(SyntaxNodeModel::Operand(seq![num])));
    }
}

/// Everything the expression parser returns is well-formed.
pub proof fn lemma_sp_expression_wf(s: Seq<char>, i: int)
    requires
        0 <= i <= s.len(),
        sp_expression(s, i) is Some,
    ensures
        wf_node(sp_expression(s, i).unwrap().0),
        sp_expression(s, i).unwrap().0 is Expression,
    decreases s.len() - i, 2int,
{
    crate::grammar::lemma_skip_spaces_bounds(s, i + 1);
    let i1 = skip_spaces(s, i + 1);
    crate::grammar::lemma_scan_operator_bounds(s, i1);
    let j1 = scan_operator(s, i1);
    let op = SyntaxNodeModel::Operator(s.subrange(i1, j1));
    assert(sp_expression(s, i) is Some ==> s.subrange(i1, j1).len() > 0 && wf_node(op));
    crate::grammar::lemma_skip_spaces_bounds(s, j1);
    let i2 = skip_spaces(s, j1);
    match sp_operand(s, i2) {
        None => {
            assert(sp_expression(s, i).unwrap().0 == SyntaxNodeModel::Expression(seq![op]));
            assert(seq![op][0] == op);
            assert(wf_node(SyntaxNodeModel::Expression(seq![op])));
        },
        Some((o1, k1)) => {
            lemma_sp_operand_wf(s, i2);
            crate::grammar::lemma_sp_operand_bounds(s, i2);
            crate::grammar::lemma_skip_spaces_bounds(s, k1);
            let i3 = skip_spaces(s, k1);
            match sp_operand(s, i3) {
                None => {
                    assert(sp_expression(s, i).unwrap().0 == SyntaxNodeModel::Expression(
                        seq![op, o1],
                    ));
                    assert(seq![op, o1][0] == op);
                    assert(seq![op, o1][1] == o1);
                    assert(wf_node(SyntaxNodeModel::Expression(seq![op, o1])));
                },
                Some((o2, k2)) => {
                    lemma_sp_operand_wf(s, i3);
                    assert(sp_expression(s, i).unwrap().0 == SyntaxNodeModel::Expression(
                        seq![op, o1, o2],
                    ));
                    assert(seq![op, o1, o2][0] == op);
                    assert(seq![op, o1, o2][1] == o1);
                    assert(seq![op, o1, o2][2] == o2);
                    assert(wf_node(SyntaxNodeModel::Expression(seq![op, o1, o2])));
                },
            }
        },
    }
}

/// Everything the root parser returns is well-formed and is a numeral or an
/// expression, never a bare operator token.
pub proof fn lemma_sp_root_wf(s: Seq<char>, i: int)
    requires
        0 <= i <= s.len(),
        sp_root(s, i) is Some,
    ensures
        wf_node(sp_root(s, i).unwrap().0),
        !(sp_root(s, i).unwrap().0 is Operator),
{
    if i < s.len() && s[i] == '(' {
        lemma_sp_expression_wf(s, i);
    } else {
        let j = scan_number(s, i).unwrap();
        lemma_number_token_subrange(s, i, j);
    }
}

/// LAW. Every tree the grammar admits is well-formed, and is a numeral or
/// an expression. With [`lemma_wf_unwrap`] and [`lemma_wf_parts`] this
/// pins the layering down: on grammar-conforming input the evaluation
/// steps can only report a missing operand or an unknown operator; a
/// missing operator, an unrecognized shape, and a numeral outside the
/// grammar cannot arise. Operand arity and operator meaning are judged in
/// evaluation, everything else by the grammar.
pub proof fn lemma_conforming_input_wf(s: Seq<char>)
    requires
        sp_input(s) is Some,
    ensures
        wf_node(sp_input(s).unwrap()),
        !(sp_input(s).unwrap() is Operator),
{
    let i = skip_spaces(s, 0);
    crate::grammar::lemma_skip_spaces_bounds(s, 0);
    lemma_sp_root_wf(s, i);
}

/// LAW. Division by the literal zero: for every numeral `x`, the input
/// `(/ x 0)` parses, to a tree whose operator token judges as division and
/// whose right operand is the numeral `0`. The zero test itself compares
/// evaluated numbers and so belongs to numeric evaluation, which rejects
/// this divisor for every `x`.
#[verifier::rlimit(100)]
pub proof fn lemma_literal_zero_divisor(t: Seq<char>)
    requires
        is_number_token(t),
    ensures
        sp_input("(/ "@ + t + " 0)"@) == Some(
            SyntaxNodeModel::Expression(
                seq![
                    SyntaxNodeModel::Operator("/"@),
                    SyntaxNodeModel::Operand(seq![SyntaxNodeModel::Number(t)]),
                    SyntaxNodeModel::Operand(seq![SyntaxNodeModel::Number("0"@)]),
                ],
            ),
        ),
        judge_model(SyntaxNodeModel::Operator("/"@)) == Ok::<Operator, ErrorModel>(Operator::Div),
{
    reveal_strlit("(/ ");
    reveal_strlit(" 0)");
    reveal_strlit("/");
    reveal_strlit("0");
    reveal_strlit("+");
    reveal_strlit("-");
    reveal_strlit("*");
    let s = "(/ "@ + t + " 0)"@;
    let n = t.len() as int;
    crate::grammar::lemma_scan_number_bounds(t, 0);
    assert(n >= 1);
    assert(s.len() == n + 6);
    assert(s[0] == '(' && s[1] == '/' && s[2] == ' ');
    assert(forall|k: int| 0 <= k < n ==> s[3 + k] == t[k]);
    assert(s[3 + n] == ' ' && s[4 + n] == '0' && s[5 + n] == ')');
    // the numeral starts with a minus sign or a digit
    let j0 = if t[0] == '-' {
        1int
    } else {
        0int
    };
    crate::grammar::lemma_scan_digits_chars(t, j0);
    let k0 = scan_digits(t, j0);
    assert(k0 != j0);
    assert(t[0] == '-' || is_digit_char(t[0]));
    assert(!is_space_char(t[0]) && t[0] != '(' && t[0] != ')');
    // positions of the tokens around the numeral
    assert(skip_spaces(s, 0) == 0);
    assert(skip_spaces(s, 1) == 1);
    assert(scan_operator(s, 2) == 2);
    assert(scan_operator(s, 1) == 2);
    assert(s.subrange(1, 2) =~= "/"@);
    assert(skip_spaces(s, 3) == 3);
    assert(skip_spaces(s, 2) == 3);
    // the numeral scan inside the whole input ends where the numeral does
    assert(forall|k: int| j0 <= k < k0 ==> is_digit_char(t[k]));
    assert(forall|k: int| 3 + j0 <= k < 3 + k0 ==> is_digit_char(s[k]));
    if k0 < n && t[k0] == '.' && scan_digits(t, k0 + 1) != k0 + 1 {
        // the numeral carries a fraction
        assert(scan_digits(t, k0 + 1) == n);
        crate::grammar::lemma_scan_digits_chars(t, k0 + 1);
        assert(forall|k: int| 3 + k0 + 1 <= k < 3 + n ==> is_digit_char(s[k]));
        crate::grammar::lemma_scan_digits_of_run(s, 3 + j0, 3 + k0);
        crate::grammar::lemma_scan_digits_of_run(s, 3 + k0 + 1, 3 + n);
        assert(scan_number(s, 3) == Some(3 + n));
    } else {
        // the numeral is the integer digits alone
        assert(k0 == n);
        crate::grammar::lemma_scan_digits_of_run(s, 3 + j0, 3 + n);
        assert(scan_number(s, 3) == Some(3 + n));
    }
    assert(s.subrange(3, 3 + n) =~= t);
    let o1 = SyntaxNodeModel::Operand(seq![SyntaxNodeModel::Number(t)]);
    assert(sp_operand(s, 3) == Some((o1, 3 + n)));
    // the literal zero divisor
    assert(skip_spaces(s, 4 + n) == 4 + n);
    assert(skip_spaces(s, 3 + n) == 4 + n);
    assert(scan_digits(s, 5 + n) == 5 + n);
    assert(scan_digits(s, 4 + n) == 5 + n);
    assert(scan_number(s, 4 + n) == Some(5 + n));
    assert(s.subrange(4 + n, 5 + n) =~= "0"@);
    let o2 = SyntaxNodeModel::Operand(seq![SyntaxNodeModel::Number("0"@)]);
    assert(sp_operand(s, 4 + n) == Some((o2, 5 + n)));
    // the whole expression and the whole input
    assert(skip_spaces(s, 5 + n) == 5 + n);
    let op = SyntaxNodeModel::Operator("/"@);
    let root = SyntaxNodeModel::Expression(seq![op, o1, o2]);
    assert(skip_spaces(s, 6 + n) == 6 + n);
    assert(sp_expression(s, 0) == Some((root, 6 + n)));
    assert(sp_input(s) == Some(root));
    // the operator token judges as division
    assert("/"@ != "+"@ && "/"@ != "-"@ && "/"@ != "*"@) by {
        assert("/"@[0] == '/' && "+"@[0] == '+' && "-"@[0] == '-' && "*"@[0] == '*');
    }
    assert(judge_model(op) == Ok::<Operator, ErrorModel>(Operator::Div));
}

/// `s` with one space inserted at position `p`.
pub open spec fn space_inserted(s: Seq<char>, p: int) -> Seq<char> {
    s.subrange(0, p) + " "@ + s.subrange(p, s.len() as int)
}

/// Whether inserting at `p` keeps every token of `s` whole: the position
/// must not stand between two operator characters (the characters tokens
/// are made of).
pub open spec fn between_tokens(s: Seq<char>, p: int) -> bool {
    !(0 < p < s.len() && is_operator_char(s[p - 1]) && is_operator_char(s[p]))
}

proof fn lemma_space_inserted_chars(s: Seq<char>, p: int)
    requires
        0 <= p <= s.len(),
    ensures
        space_inserted(s, p).len() == s.len() + 1,
        forall|k: int| 0 <= k < p ==> space_inserted(s, p)[k] == s[k],
        space_inserted(s, p)[p] == ' ',
        forall|k: int| p <= k < s.len() ==> space_inserted(s, p)[k + 1] == s[k],
{
    reveal_strlit(" ");
}

proof fn lemma_skip_spaces_insert_high(s: Seq<char>, p: int, q: int)
    requires
        0 <= p <= q <= s.len(),
    ensures
        skip_spaces(space_inserted(s, p), q + 1) == skip_spaces(s, q) + 1,
    decreases s.len() - q,
{
    lemma_space_inserted_chars(s, p);
    if q < s.len() && is_space_char(s[q]) {
        lemma_skip_spaces_insert_high(s, p, q + 1);
    }
}

proof fn lemma_skip_spaces_insert_low(s: Seq<char>, p: int, q: int)
    requires
        0 <= q <= p <= s.len(),
    ensures
        skip_spaces(space_inserted(s, p), q) == if skip_spaces(s, q) < p {
            skip_spaces(s, q)
        } else {
            skip_spaces(s, q) + 1
        },
    decreases p - q,
{
    lemma_space_inserted_chars(s, p);
    lemma_skip_spaces_bounds(s, q);
    if q < p {
        if is_space_char(s[q]) {
            lemma_skip_spaces_insert_low(s, p, q + 1);
        }
    } else {
        // q == p: the inserted space itself is skipped first
        lemma_skip_spaces_insert_high(s, p, p);
    }
}

proof fn lemma_scan_digits_insert_high(s: Seq<char>, p: int, q: int)
    requires
        0 <= p <= q <= s.len(),
    ensures
        scan_digits(space_inserted(s, p), q + 1) == scan_digits(s, q) + 1,
    decreases s.len() - q,
{
    lemma_space_inserted_chars(s, p);
    if q < s.len() && is_digit_char(s[q]) {
        lemma_scan_digits_insert_high(s, p, q + 1);
    }
}

proof fn lemma_scan_digits_insert_low(s: Seq<char>, p: int, q: int)
    requires
        0 <= q < p <= s.len(),
        between_tokens(s, p),
    ensures
        scan_digits(s, q) <= p,
        scan_digits(space_inserted(s, p), q) == scan_digits(s, q),
    decreases p - q,
{
    lemma_space_inserted_chars(s, p);
    lemma_scan_digits_chars(s, q);
    if scan_digits(s, q) > p {
        assert(is_digit_char(s[p - 1]) && is_digit_char(s[p]));
        assert(false);
    }
    if is_digit_char(s[q]) {
        if q + 1 < p {
            lemma_scan_digits_insert_low(s, p, q + 1);
        } else {
            // the run stops at p, where the inserted space stands
            assert(scan_digits(s, q + 1) == q + 1 || !is_digit_char(s[q + 1]));
            assert(scan_digits(s, q) <= p);
            assert(scan_digits(space_inserted(s, p), p) == p);
        }
    }
}

proof fn lemma_scan_operator_insert_high(s: Seq<char>, p: int, q: int)
    requires
        0 <= p <= q <= s.len(),
    ensures
        scan_operator(space_inserted(s, p), q + 1) == scan_operator(s, q) + 1,
    decreases s.len() - q,
{
    lemma_space_inserted_chars(s, p);
    if q < s.len() && is_operator_char(s[q]) {
        lemma_scan_operator_insert_high(s, p, q + 1);
    }
}

/// Every character an operator run covers is an operator character, and
/// the run ends at the end of the input or at a character that is not one.
proof fn lemma_scan_operator_chars(s: Seq<char>, i: int)
    requires
        0 <= i <= s.len(),
    ensures
        i <= scan_operator(s, i) <= s.len(),
        forall|k: int| i <= k < scan_operator(s, i) ==> is_operator_char(s[k]),
        scan_operator(s, i) == s.len() || !is_operator_char(s[scan_operator(s, i)]),
    decreases s.len() - i,
{
    if i < s.len() && is_operator_char(s[i]) {
        lemma_scan_operator_chars(s, i + 1);
    }
}

proof fn lemma_scan_operator_insert_low(s: Seq<char>, p: int, q: int)
    requires
        0 <= q < p <= s.len(),
        between_tokens(s, p),
    ensures
        scan_operator(s, q) <= p,
        scan_operator(space_inserted(s, p), q) == scan_operator(s, q),
    decreases p - q,
{
    lemma_space_inserted_chars(s, p);
    lemma_scan_operator_chars(s, q);
    if scan_operator(s, q) > p {
        assert(is_operator_char(s[p - 1]) && is_operator_char(s[p]));
        assert(false);
    }
    if is_operator_char(s[q]) {
        if q + 1 < p {
            lemma_scan_operator_insert_low(s, p, q + 1);
        } else {
            assert(scan_operator(space_inserted(s, p), p) == p);
        }
    }
}

proof fn lemma_scan_number_insert_high(s: Seq<char>, p: int, q: int)
    requires
        0 <= p <= q <= s.len(),
    ensures
        match scan_number(s, q) {
            None => scan_number(space_inserted(s, p), q + 1) is None,
            Some(e) => scan_number(space_inserted(s, p), q + 1) == Some(e + 1),
        },
{
    lemma_space_inserted_chars(s, p);
    let j0 = if q < s.len() && s[q] == '-' {
        q + 1
    } else {
        q
    };
    lemma_scan_digits_insert_high(s, p, j0);
    let k = scan_digits(s, j0);
    lemma_scan_digits_bounds(s, j0);
    if k < s.len() && s[k] == '.' {
        lemma_scan_digits_insert_high(s, p, k + 1);
    }
}

proof fn lemma_scan_number_insert_low(s: Seq<char>, p: int, q: int)
    requires
        0 <= q < p <= s.len(),
        between_tokens(s, p),
    ensures
        match scan_number(s, q) {
            None => scan_number(space_inserted(s, p), q) is None,
            Some(e) => e <= p && scan_number(space_inserted(s, p), q) == Some(e),
        },
{
    lemma_space_inserted_chars(s, p);
    let s2 = space_inserted(s, p);
    let j0 = if s[q] == '-' {
        q + 1
    } else {
        q
    };
    if j0 < p {
        lemma_scan_digits_insert_low(s, p, j0);
    } else {
        // j0 == p: a digit at p would continue the token begun by the sign
        assert(s[q] == '-' && is_operator_char(s[q]));
        if p < s.len() && is_digit_char(s[p]) {
            assert(!between_tokens(s, p));
            assert(false);
        }
        assert(scan_digits(s, p) == p);
        assert(scan_digits(s2, p) == p);
    }
    let k = scan_digits(s, j0);
    lemma_scan_digits_chars(s, j0);
    if k != j0 {
        assert(k <= p);
        if k < s.len() && s[k] == '.' {
            if k == p {
                // a dot at p would continue the token ending at p - 1
                assert(is_digit_char(s[p - 1]) && is_operator_char(s[p - 1]));
                assert(is_operator_char(s[p]));
                assert(false);
            }
            if k + 1 < p {
                lemma_scan_digits_insert_low(s, p, k + 1);
            } else {
                // k + 1 == p: a digit at p would continue the fraction
                assert(s[k] == '.' && is_operator_char(s[k]));
                if p < s.len() && is_digit_char(s[p]) {
                    assert(!between_tokens(s, p));
                    assert(false);
                }
                assert(scan_digits(s, p) == p);
                assert(scan_digits(s2, p) == p);
            }
        }
    }
}

/// The token-start positions of `s` and of `s` with a space inserted at
/// `p`: positions strictly before `p` stand where they were, and the rest
/// move one to the right.
pub open spec fn start_shift(p: int, x: int) -> int {
    if x < p {
        x
    } else {
        x + 1
    }
}

/// The positions just past a parsed piece: a piece may end exactly at `p`,
/// so only positions strictly past `p` move.
pub open spec fn end_shift(p: int, x: int) -> int {
    if x <= p {
        x
    } else {
        x + 1
    }
}

proof fn lemma_skip_spaces_insert_end(s: Seq<char>, p: int, q: int)
    requires
        0 <= p <= s.len(),
        0 <= q <= s.len(),
    ensures
        skip_spaces(space_inserted(s, p), end_shift(p, q)) == start_shift(p, skip_spaces(s, q)),
{
    lemma_skip_spaces_bounds(s, q);
    if q <= p {
        lemma_skip_spaces_insert_low(s, p, q);
    } else {
        lemma_skip_spaces_insert_high(s, p, q);
    }
}

proof fn lemma_sp_operand_insert(s: Seq<char>, p: int, i: int)
    requires
        0 <= p <= s.len(),
        between_tokens(s, p),
        0 <= i <= s.len(),
    ensures
        match sp_operand(s, i) {
            None => sp_operand(space_inserted(s, p), start_shift(p, i)) is None,
            Some((m, j)) => sp_operand(space_inserted(s, p), start_shift(p, i)) == Some(
                (m, end_shift(p, j)),
            ),
        },
    decreases s.len() - i, 3int,
{
    lemma_space_inserted_chars(s, p);
    let s2 = space_inserted(s, p);
    let i2 = start_shift(p, i);
    if i < s.len() && s[i] == '(' {
        assert(s2[i2] == '(');
        lemma_sp_expression_insert(s, p, i);
        match sp_expression(s, i) {
            None => {},
            Some((e, j)) => {
                assert(sp_operand(s, i) == Some((SyntaxNodeModel::Operand(seq![e]), j)));
            },
        }
    } else {
        assert(!(i2 < s2.len() && s2[i2] == '('));
        if i < p {
            lemma_scan_number_insert_low(s, p, i);
        } else {
            lemma_scan_number_insert_high(s, p, i);
        }
        match scan_number(s, i) {
            None => {},
            Some(e) => {
                crate::grammar::lemma_scan_number_bounds(s, i);
                assert(s2.subrange(i2 as int, end_shift(p, e)) =~= s.subrange(i, e));
            },
        }
    }
}

#[verifier::rlimit(100)]
proof fn lemma_sp_expression_insert(s: Seq<char>, p: int, i: int)
    requires
        0 <= p <= s.len(),
        between_tokens(s, p),
        0 <= i <= s.len(),
    ensures
        match sp_expression(s, i) {
            None => sp_expression(space_inserted(s, p), start_shift(p, i)) is None,
            Some((m, j)) => sp_expression(space_inserted(s, p), start_shift(p, i)) == Some(
                (m, end_shift(p, j)),
            ),
        },
    decreases s.len() - i, 2int,
{
    lemma_space_inserted_chars(s, p);
    let s2 = space_inserted(s, p);
    let ii = start_shift(p, i);
    if !(i < s.len() && s[i] == '(') {
        assert(!(ii < s2.len() && s2[ii] == '('));
    } else {
        assert(s2[ii] == '(');
        assert(ii + 1 == end_shift(p, i + 1));
        lemma_skip_spaces_insert_end(s, p, i + 1);
        let i1 = skip_spaces(s, i + 1);
        lemma_skip_spaces_bounds(s, i + 1);
        // the operator token
        if i1 < p {
            lemma_scan_operator_insert_low(s, p, i1);
        } else {
            lemma_scan_operator_insert_high(s, p, i1);
        }
        let j1 = scan_operator(s, i1);
        lemma_scan_operator_chars(s, i1);
        if i1 < j1 {
            assert(scan_operator(s2, start_shift(p, i1)) == end_shift(p, j1));
            assert(s2.subrange(start_shift(p, i1) as int, end_shift(p, j1)) =~= s.subrange(
                i1,
                j1,
            ));
            lemma_skip_spaces_insert_end(s, p, j1);
            let iop2 = skip_spaces(s, j1);
            lemma_skip_spaces_bounds(s, j1);
            lemma_sp_operand_insert(s, p, iop2);
            match sp_operand(s, iop2) {
                None => {
                    if iop2 < s.len() && s[iop2] == ')' {
                        assert(s2[start_shift(p, iop2)] == ')');
                        assert(start_shift(p, iop2) + 1 == end_shift(p, iop2 + 1));
                    } else {
                        assert(!(start_shift(p, iop2) < s2.len() && s2[start_shift(p, iop2)]
                            == ')'));
                    }
                },
                Some((o1, k1)) => {
                    crate::grammar::lemma_sp_operand_bounds(s, iop2);
                    lemma_skip_spaces_insert_end(s, p, k1);
                    let i3 = skip_spaces(s, k1);
                    lemma_skip_spaces_bounds(s, k1);
                    lemma_sp_operand_insert(s, p, i3);
                    match sp_operand(s, i3) {
                        None => {
                            if i3 < s.len() && s[i3] == ')' {
                                assert(s2[start_shift(p, i3)] == ')');
                                assert(start_shift(p, i3) + 1 == end_shift(p, i3 + 1));
                            } else {
                                assert(!(start_shift(p, i3) < s2.len() && s2[start_shift(p, i3)]
                                    == ')'));
                            }
                        },
                        Some((o2, k2)) => {
                            crate::grammar::lemma_sp_operand_bounds(s, i3);
                            lemma_skip_spaces_insert_end(s, p, k2);
                            let i4 = skip_spaces(s, k2);
                            lemma_skip_spaces_bounds(s, k2);
                            if i4 < s.len() && s[i4] == ')' {
                                assert(s2[start_shift(p, i4)] == ')');
                                assert(start_shift(p, i4) + 1 == end_shift(p, i4 + 1));
                            } else {
                                assert(!(start_shift(p, i4) < s2.len() && s2[start_shift(p, i4)]
                                    == ')'));
                            }
                        },
                    }
                },
            }
        }
    }
}

/// LAW. Whitespace insensitivity: inserting a space at any position that
/// does not split a token — anywhere except between two operator
/// characters, the characters tokens are made of — does not change the
/// parse. Inputs that differ only in the whitespace between their tokens
/// thus yield the same tree, and evaluation is a function of the tree, so
/// they yield identical results.
pub proof fn lemma_space_insertion(s: Seq<char>, p: int)
    requires
        0 <= p <= s.len(),
        between_tokens(s, p),
    ensures
        sp_input(space_inserted(s, p)) == sp_input(s),
{
    lemma_space_inserted_chars(s, p);
    let s2 = space_inserted(s, p);
    lemma_skip_spaces_insert_low(s, p, 0);
    let i = skip_spaces(s, 0);
    lemma_skip_spaces_bounds(s, 0);
    assert(skip_spaces(s2, 0) == start_shift(p, i));
    let ii = start_shift(p, i);
    // the root: an expression or a bare numeral
    if i < s.len() && s[i] == '(' {
        assert(s2[ii] == '(');
        lemma_sp_expression_insert(s, p, i);
    } else {
        assert(!(ii < s2.len() && s2[ii] == '('));
        if i < p {
            lemma_scan_number_insert_low(s, p, i);
        } else {
            lemma_scan_number_insert_high(s, p, i);
        }
        match scan_number(s, i) {
            None => {},
            Some(e) => {
                crate::grammar::lemma_scan_number_bounds(s, i);
                assert(s2.subrange(ii as int, end_shift(p, e)) =~= s.subrange(i, e));
            },
        }
    }
    // the trailing whitespace
    match sp_root(s, i) {
        None => {
            assert(sp_root(s2, ii) is None);
        },
        Some((n, j)) => {
            assert(sp_root(s2, ii) == Some((n, end_shift(p, j))));
            if i < s.len() && s[i] == '(' {
                crate::grammar::lemma_sp_expression_bounds(s, i);
            } else {
                crate::grammar::lemma_scan_number_bounds(s, i);
            }
            lemma_skip_spaces_insert_end(s, p, j);
            lemma_skip_spaces_bounds(s, j);
            assert(skip_spaces(s2, end_shift(p, j)) == start_shift(p, skip_spaces(s, j)));
            assert(skip_spaces(s, j) == s.len() <==> skip_spaces(s2, end_shift(p, j))
                == s2.len());
        },
    }
}

/// The input `(+ 1 (+ 1 (… 1 …)))` with `d` nested expressions.
pub open spec fn nest_input(d: nat) -> Seq<char>
    decreases d,
{
    if d == 0 {
        "1"@
    } else {
        "(+ 1 "@ + nest_input((d - 1) as nat) + ")"@
    }
}

/// The tree `nest_input(d)` parses to: a numeral at depth zero, else an
/// expression whose second operand nests one level deeper.
pub open spec fn nest_root(d: nat) -> SyntaxNodeModel
    decreases d,
{
    if d == 0 {
        SyntaxNodeModel::Number("1"@)
    } else {
        SyntaxNodeModel::Expression(
            seq![
                SyntaxNodeModel::Operator("+"@),
                SyntaxNodeModel::Operand(seq![SyntaxNodeModel::Number("1"@)]),
                SyntaxNodeModel::Operand(seq![nest_root((d - 1) as nat)]),
            ],
        )
    }
}

proof fn lemma_nest_len(d: nat)
    ensures
        nest_input(d).len() == 6 * d + 1,
    decreases d,
{
    reveal_strlit("1");
    reveal_strlit("(+ 1 ");
    reveal_strlit(")");
    if d > 0 {
        lemma_nest_len((d - 1) as nat);
    }
}

/// A nested input embedded in any surrounding text parses as one operand,
/// provided what follows it closes an enclosing expression (or nothing
/// follows), yielding the nest tree of its depth.
#[verifier::rlimit(100)]
proof fn lemma_nest_operand(pre: Seq<char>, d: nat, u: Seq<char>)
    requires
        u.len() == 0 || u[0] == ')',
    ensures
        ({
            let s = pre + nest_input(d) + u;
            sp_operand(s, pre.len() as int) == Some(
                (
                    SyntaxNodeModel::Operand(seq![nest_root(d)]),
                    (pre.len() + nest_input(d).len()) as int,
                ),
            )
        }),
    decreases d,
{
    reveal_strlit("1");
    reveal_strlit("(+ 1 ");
    reveal_strlit(")");
    reveal_strlit("+");
    let s = pre + nest_input(d) + u;
    let i = pre.len() as int;
    lemma_nest_len(d);
    let one = "1"@;
    assert(one.len() == 1 && one[0] == '1');
    assert(scan_digits(one, 1) == 1);
    assert(scan_digits(one, 0) == 1);
    assert(is_number_token(one));
    if d == 0 {
        assert(s[i] == '1');
        assert(scan_digits(s, i + 1) == i + 1);
        assert(scan_digits(s, i) == i + 1);
        assert(scan_number(s, i) == Some(i + 1));
        assert(s.subrange(i, i + 1) =~= one);
        let num = SyntaxNodeModel::Number(one);
        assert(sp_operand(s, i) == Some((SyntaxNodeModel::Operand(seq![num]), i + 1)));
        assert(num == nest_root(0));
    } else {
        let e = (d - 1) as nat;
        lemma_nest_len(e);
        let inner = nest_input(e);
        let n1 = inner.len() as int;
        assert(nest_input(d) == "(+ 1 "@ + inner + ")"@);
        assert(forall|k: int| 0 <= k < nest_input(d).len() ==> s[i + k] == nest_input(d)[k]);
        assert(s[i] == '(' && s[i + 1] == '+' && s[i + 2] == ' ' && s[i + 3] == '1' && s[i + 4]
            == ' ');
        assert(forall|k: int| 0 <= k < n1 ==> s[i + 5 + k] == inner[k]);
        assert(s[i + 5 + n1] == ')');
        // the operator token
        assert(skip_spaces(s, i + 1) == i + 1);
        assert(scan_operator(s, i + 2) == i + 2);
        assert(scan_operator(s, i + 1) == i + 2);
        assert(s.subrange(i + 1, i + 2) =~= "+"@);
        let op = SyntaxNodeModel::Operator("+"@);
        // the first operand, the numeral 1
        assert(skip_spaces(s, i + 3) == i + 3);
        assert(skip_spaces(s, i + 2) == i + 3);
        assert(scan_digits(s, i + 4) == i + 4);
        assert(scan_digits(s, i + 3) == i + 4);
        assert(scan_number(s, i + 3) == Some(i + 4));
        assert(s.subrange(i + 3, i + 4) =~= one);
        let num = SyntaxNodeModel::Number(one);
        let o1 = SyntaxNodeModel::Operand(seq![num]);
        assert(sp_operand(s, i + 3) == Some((o1, i + 4)));
        // the second operand, the nested input, by induction
        assert(inner[0] == '(' || inner[0] == '1');
        assert(skip_spaces(s, i + 5) == i + 5);
        assert(skip_spaces(s, i + 4) == i + 5);
        let pre2 = pre + "(+ 1 "@;
        let u2 = ")"@ + u;
        assert(u2[0] == ')');
        lemma_nest_operand(pre2, e, u2);
        assert(pre2 + inner + u2 =~= s);
        assert(pre2.len() == i + 5);
        let o2 = SyntaxNodeModel::Operand(seq![nest_root(e)]);
        assert(sp_operand(s, i + 5) == Some((o2, i + 5 + n1)));
        // the closing parenthesis, and the expression as a whole
        assert(skip_spaces(s, i + 5 + n1) == i + 5 + n1);
        let en = SyntaxNodeModel::Expression(seq![op, o1, o2]);
        assert(sp_expression(s, i) == Some((en, i + 6 + n1)));
        assert(sp_operand(s, i) == Some((SyntaxNodeModel::Operand(seq![en]), i + 6 + n1)));
        assert(i + 6 + n1 == i + nest_input(d).len());
        // the parsed tree is the nest tree of this depth
        assert(en == nest_root(d));
    }
}

/// LAW. Nesting is unbounded: for every depth, the input
/// `(+ 1 (+ 1 (… 1 …)))` of that depth parses, to the tree of that depth.
pub proof fn lemma_unbounded_nesting(d: nat)
    ensures
        sp_input(nest_input(d)) == Some(nest_root(d)),
{
    reveal_strlit("1");
    reveal_strlit("(+ 1 ");
    reveal_strlit(")");
    let s = nest_input(d);
    lemma_nest_len(d);
    lemma_nest_operand(Seq::empty(), d, Seq::empty());
    assert(Seq::empty() + s + Seq::empty() =~= s);
    let o = sp_operand(s, 0).unwrap().0;
    let j = sp_operand(s, 0).unwrap().1;
    assert(j == s.len());
    assert(s[0] == '(' || s[0] == '1');
    assert(skip_spaces(s, 0) == 0);
    assert(skip_spaces(s, j) == j);
    if d == 0 {
        assert(s[0] == '1');
        assert(scan_digits(s, 1) == 1);
        assert(scan_digits(s, 0) == 1);
        assert(scan_number(s, 0) == Some(1int));
        assert(s.subrange(0, 1) =~= "1"@);
        let num = SyntaxNodeModel::Number("1"@);
        assert(sp_root(s, 0) == Some((num, 1int)));
        assert(sp_input(s) == Some(num));
        assert(num == nest_root(0));
    } else {
        assert(s[0] == '(');
        // the operand parse wraps the expression parse; unwrap both sides
        let en = sp_expression(s, 0).unwrap().0;
        assert(o == SyntaxNodeModel::Operand(seq![en]));
        assert(sp_expression(s, 0).unwrap().1 == j);
        assert(sp_root(s, 0) == Some((en, j)));
        assert(sp_input(s) == Some(en));
        assert(seq![en][0] == en);
        assert(seq![nest_root(d)][0] == nest_root(d));
        assert(en == nest_root(d));
    }
}

} // verus!
