use prefix_calc::expression_parts;
use prefix_calc::judge_operator;
use prefix_calc::unwrap_operand;
use prefix_calc::CalculatorError;
use prefix_calc::CalculatorParser;
use prefix_calc::Operator;
use prefix_calc::SyntaxNode;

/// Numeric evaluation of the tree, in evaluation order: operator position,
/// first operand, second operand, operator meaning; IEEE-754 double
/// arithmetic with the exact-zero divisor check. Every decision is a call
/// into the verified library.
fn eval_node(node: &SyntaxNode) -> Result<f64, CalculatorError> {
    match unwrap_operand(node)? {
        SyntaxNode::Number(text) => text
            .parse()
            .map_err(|_| CalculatorError::ParseError("Failed to parse number".to_string())),
        SyntaxNode::Expression(children) => eval_expression(children),
        other => Err(CalculatorError::UnexpectedRule(format!("{:?}", other))),
    }
}

fn eval_expression(children: &Vec<SyntaxNode>) -> Result<f64, CalculatorError> {
    let (operator, operand1, operand2) = expression_parts(children)?;
    let val1 = eval_node(operand1)?;
    let val2 = eval_node(operand2)?;
    match judge_operator(operator)? {
        Operator::Add => Ok(val1 + val2),
        Operator::Sub => Ok(val1 - val2),
        Operator::Mul => Ok(val1 * val2),
        Operator::Div => {
            if val2 == 0.0 {
                Err(CalculatorError::DivisionByZero)
            } else {
                Ok(val1 / val2)
            }
        }
    }
}

fn calc(input: &str) -> Result<f64, CalculatorError> {
    eval_node(&CalculatorParser::parse(input)?)
}

fn num_operand(text: &str) -> SyntaxNode {
    SyntaxNode::Operand(vec![SyntaxNode::Number(text.to_string())])
}

#[test]
fn test_calculate() {
    assert_eq!(calc("(+ 1 2)").unwrap(), 3.0);
    assert_eq!(calc("(+ 1.5 2.5)").unwrap(), 4.0);
    assert_eq!(calc("(+ 1 (+ 2 3))").unwrap(), 6.0);
    assert_eq!(calc("(* 2.5 (+ 3 4))").unwrap(), 17.5);
    assert!(calc("(/ 10 0)").is_err());
    assert!(calc("(+ 1)").is_err());
    assert!(calc("(& 1 2)").is_err());
}

#[test]
fn exact_ieee_results() {
    assert_eq!(calc("(+ 0.1 0.2)").unwrap(), 0.1f64 + 0.2f64);
    assert_eq!(calc("(- 1 2)").unwrap(), -1.0);
    assert_eq!(calc("(- 2.5 0.5)").unwrap(), 2.0);
    assert_eq!(calc("(* 3 7)").unwrap(), 21.0);
    assert_eq!(calc("(/ 1 3)").unwrap(), 1.0f64 / 3.0f64);
    assert_eq!(calc("(/ 7 2)").unwrap(), 3.5);
    assert_eq!(calc("(+ -1.5 2)").unwrap(), 0.5);
    assert_eq!(calc("(* -2 -3)").unwrap(), 6.0);
}

#[test]
fn division_by_zero() {
    assert!(matches!(calc("(/ 10 0)"), Err(CalculatorError::DivisionByZero)));
    assert!(matches!(calc("(/ 0 0)"), Err(CalculatorError::DivisionByZero)));
    assert!(matches!(calc("(/ -3.5 0)"), Err(CalculatorError::DivisionByZero)));
    assert!(matches!(calc("(/ 1 0.0)"), Err(CalculatorError::DivisionByZero)));
    assert!(matches!(calc("(/ 1 -0)"), Err(CalculatorError::DivisionByZero)));
    assert!(matches!(calc("(/ 1 (- 2 2))"), Err(CalculatorError::DivisionByZero)));
}

#[test]
fn missing_operand() {
    assert!(matches!(calc("(+ 1)"), Err(CalculatorError::MissingOperand)));
    assert!(matches!(calc("(+)"), Err(CalculatorError::MissingOperand)));
    assert!(matches!(calc("(/ 1)"), Err(CalculatorError::MissingOperand)));
}

#[test]
fn unknown_operator() {
    match calc("(& 1 2)") {
        Err(CalculatorError::UnknownOperator(t)) => assert_eq!(t, "&"),
        other => panic!("expected UnknownOperator, got {:?}", other),
    }
    match calc("(%% 1 2)") {
        Err(CalculatorError::UnknownOperator(t)) => assert_eq!(t, "%%"),
        other => panic!("expected UnknownOperator, got {:?}", other),
    }
}

#[test]
fn evaluation_order() {
    // Both operands evaluate before the operator token is judged, so a
    // numeric failure inside an operand wins over the unknown operator.
    assert!(matches!(calc("(& 1 (/ 1 0))"), Err(CalculatorError::DivisionByZero)));
    // The first operand evaluates before the second is looked into.
    assert!(matches!(calc("(+ (/ 1 0) (& 1))"), Err(CalculatorError::DivisionByZero)));
    assert!(matches!(calc("(+ (& 1) (/ 1 0))"), Err(CalculatorError::MissingOperand)));
    // A missing operand inside an operand wins over the unknown operator.
    assert!(matches!(calc("(& 1 (+ 2))"), Err(CalculatorError::MissingOperand)));
}

#[test]
fn nesting() {
    assert_eq!(calc("(+ 1 (+ 2 (+ 3 4)))").unwrap(), 10.0);
    let mut deep = String::new();
    for _ in 0..200 {
        deep.push_str("(+ 1 ");
    }
    deep.push('1');
    for _ in 0..200 {
        deep.push(')');
    }
    assert_eq!(calc(&deep).unwrap(), 201.0);
}

#[test]
fn whitespace_insensitivity() {
    assert_eq!(
        CalculatorParser::parse("(+ 1 2)").unwrap(),
        CalculatorParser::parse("(+  1   2 )").unwrap()
    );
    assert_eq!(calc("(+ 1 2)").unwrap(), calc("(+  1   2 )").unwrap());
    assert_eq!(calc("(+\t1\n2\r)").unwrap(), 3.0);
    assert_eq!(calc("  (+ 1 2)  ").unwrap(), 3.0);
}

#[test]
fn literal_scenarios() {
    assert_eq!(calc("(+ 1 2)").unwrap(), 3.0);
    assert_eq!(calc("(+ 1.5 2.5)").unwrap(), 4.0);
    assert_eq!(calc("(* 2.5 (+ 3 4))").unwrap(), 17.5);
    assert!(matches!(calc("(/ 10 0)"), Err(CalculatorError::DivisionByZero)));
}

#[test]
fn bare_number_root() {
    assert_eq!(calc("5").unwrap(), 5.0);
    assert_eq!(calc(" -2.5 ").unwrap(), -2.5);
    assert_eq!(calc("3.25").unwrap(), 3.25);
}

#[test]
fn parse_errors() {
    for input in [
        "",
        "   ",
        "abc",
        "(",
        "()",
        "( )",
        "(+ 1 2",
        "(+ 1 2) extra",
        "(+ 1 2 3)",
        "(+ 1 2))",
        "(+ 1.)",
        "(+ 1 .5)",
        "(+ 1 --2)",
        "((+ 1 2) 3 4)",
        "5 6",
    ] {
        assert!(
            matches!(CalculatorParser::parse(input), Err(CalculatorError::ParseError(_))),
            "expected a parse error for {:?}",
            input
        );
    }
}

#[test]
fn parse_tree_shape() {
    let tree = CalculatorParser::parse("(* 8 -9.5)").unwrap();
    assert_eq!(
        tree,
        SyntaxNode::Expression(vec![
            SyntaxNode::Operator("*".to_string()),
            num_operand("8"),
            num_operand("-9.5"),
        ])
    );
    let leaf = CalculatorParser::parse("  42 ").unwrap();
    assert_eq!(leaf, SyntaxNode::Number("42".to_string()));
}

#[test]
fn step_structural_errors() {
    assert!(matches!(expression_parts(&vec![]), Err(CalculatorError::MissingOperator)));
    assert!(matches!(
        expression_parts(&vec![SyntaxNode::Operator("+".to_string())]),
        Err(CalculatorError::MissingOperand)
    ));
    assert!(matches!(
        expression_parts(&vec![SyntaxNode::Operator("+".to_string()), num_operand("1")]),
        Err(CalculatorError::MissingOperand)
    ));
    assert!(matches!(
        unwrap_operand(&SyntaxNode::Operand(vec![])),
        Err(CalculatorError::MissingOperand)
    ));
    match unwrap_operand(&SyntaxNode::Operator("+".to_string())) {
        Err(CalculatorError::UnexpectedRule(r)) => assert_eq!(r, "operator"),
        other => panic!("expected UnexpectedRule, got {:?}", other),
    }
    assert!(matches!(
        judge_operator(&SyntaxNode::Number("5".to_string())),
        Err(CalculatorError::UnexpectedRule(_))
    ));
    // an expression whose operator position holds a numeral
    assert!(matches!(
        eval_expression(&vec![SyntaxNode::Number("1".to_string()), num_operand("2"), num_operand("3")]),
        Err(CalculatorError::UnexpectedRule(_))
    ));
}

#[test]
fn operator_judgment() {
    assert!(matches!(judge_operator(&SyntaxNode::Operator("+".to_string())), Ok(Operator::Add)));
    assert!(matches!(judge_operator(&SyntaxNode::Operator("-".to_string())), Ok(Operator::Sub)));
    assert!(matches!(judge_operator(&SyntaxNode::Operator("*".to_string())), Ok(Operator::Mul)));
    assert!(matches!(judge_operator(&SyntaxNode::Operator("/".to_string())), Ok(Operator::Div)));
    match judge_operator(&SyntaxNode::Operator("&".to_string())) {
        Err(CalculatorError::UnknownOperator(t)) => assert_eq!(t, "&"),
        other => panic!("expected UnknownOperator, got {:?}", other),
    }
}

#[test]
fn numeral_admission_follows_conversion() {
    // A number leaf is admitted by the float conversion, not by the
    // grammar: forms the grammar would not produce still evaluate if they
    // convert, and only a failing conversion is a parse error.
    assert_eq!(eval_node(&SyntaxNode::Number("1e5".to_string())).unwrap(), 1e5f64);
    assert_eq!(eval_node(&SyntaxNode::Number("inf".to_string())).unwrap(), f64::INFINITY);
    match eval_node(&SyntaxNode::Number("abc".to_string())) {
        Err(CalculatorError::ParseError(m)) => assert_eq!(m, "Failed to parse number"),
        other => panic!("expected ParseError, got {:?}", other),
    }
}

#[test]
fn extra_children_are_ignored() {
    // Extraction reads the operator and the first two operand positions;
    // further children of a hand-built node take no part.
    let v = eval_expression(&vec![
        SyntaxNode::Operator("+".to_string()),
        num_operand("1"),
        num_operand("2"),
        num_operand("3"),
    ])
    .unwrap();
    assert_eq!(v, 3.0);
    let wrapper = SyntaxNode::Operand(vec![
        SyntaxNode::Number("1".to_string()),
        SyntaxNode::Number("2".to_string()),
    ]);
    let inner = unwrap_operand(&wrapper).unwrap();
    assert_eq!(*inner, SyntaxNode::Number("1".to_string()));
}

#[test]
fn error_messages() {
    assert_eq!(CalculatorError::DivisionByZero.message(), "Division by zero");
    assert_eq!(CalculatorError::MissingOperand.message(), "Missing operand");
    assert_eq!(CalculatorError::MissingOperator.message(), "Missing operator");
    assert_eq!(calc("(& 1 2)").unwrap_err().message(), "Unknown operator: &");
    assert_eq!(
        CalculatorParser::parse("(+ 1 2").unwrap_err().message(),
        "Parse error: expected an expression of the form (operator operand operand) or a number, \
         at character 0"
    );
    assert_eq!(
        CalculatorParser::parse("(+ 1 2) extra").unwrap_err().message(),
        "Parse error: unexpected text after the expression, at character 8"
    );
    assert_eq!(
        unwrap_operand(&SyntaxNode::Operator("+".to_string())).unwrap_err().message(),
        "Unexpected rule: \"operator\""
    );
}
