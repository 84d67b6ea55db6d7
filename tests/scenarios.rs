use monkey::{parse, Expression, Node, NodeType, ParseError, Statement, TokenType};

fn canonical(src: &str) -> String {
    parse(src.to_string()).unwrap().to_string()
}

#[test]
fn let_statement_scenario() {
    let program = parse("let x = 5;".to_string()).unwrap();
    assert_eq!(program.statements().len(), 1);
    match &program.statements()[0] {
        Statement::Let(l) => {
            assert_eq!(l.name().value(), "x");
            match l.value() {
                Expression::IntegerLiteral(i) => assert_eq!(i.value(), 5),
                _ => panic!("value is not an integer literal"),
            }
        },
        _ => panic!("not a let statement"),
    }
    assert_eq!(program.to_string(), "let x = 5;");
}

#[test]
fn bang_scenario() {
    let program = parse("!5".to_string()).unwrap();
    assert_eq!(program.statements().len(), 1);
    assert_eq!(program.statements()[0].node_type(), NodeType::ExpressionStatement);
    assert_eq!(program.to_string(), "(!5)");
}

#[test]
fn comparison_scenario() {
    assert_eq!(canonical("3 > 5 == false"), "((3 > 5) == false)");
}

#[test]
fn function_literal_scenario() {
    let program = parse("fn(x, y) { x + y; }".to_string()).unwrap();
    match &program.statements()[0] {
        Statement::Expression(s) => match s.expression() {
            Expression::Function(f) => {
                let names: Vec<&str> = f.parameters().iter().map(|p| p.value()).collect();
                assert_eq!(names, vec!["x", "y"]);
                assert_eq!(f.body().to_string(), "{(x + y)}");
            },
            _ => panic!("not a function literal"),
        },
        _ => panic!("not an expression statement"),
    }
    assert_eq!(program.to_string(), "fn(x, y) {(x + y)}");
}

#[test]
fn call_scenario() {
    assert_eq!(
        canonical("add(a, b, 1, 2 * 3, 4 + 5, add(6, 7 * 8))"),
        "add(a, b, 1, (2 * 3), (4 + 5), add(6, (7 * 8)))"
    );
}

#[test]
fn if_else_scenario() {
    let program = parse("if (x < y) { x } else { y }".to_string()).unwrap();
    match &program.statements()[0] {
        Statement::Expression(s) => match s.expression() {
            Expression::If(x) => {
                assert_eq!(x.condition().to_string(), "(x < y)");
                assert_eq!(x.consequence().to_string(), "{x}");
                assert_eq!(x.alternative().as_ref().unwrap().to_string(), "{y}");
            },
            _ => panic!("not an if expression"),
        },
        _ => panic!("not an expression statement"),
    }
}

#[test]
fn precedence_grouping_examples() {
    assert_eq!(canonical("a + b * c"), "(a + (b * c))");
    assert_eq!(canonical("a * b + c"), "((a * b) + c)");
    assert_eq!(canonical("a - b - c"), "((a - b) - c)");
    assert_eq!(canonical("a == b != c"), "((a == b) != c)");
    assert_eq!(canonical("-a(b)"), "(-a(b))");
    assert_eq!(canonical("f(x)(y)"), "f(x)(y)");
}

#[test]
fn canonical_form_is_a_fixed_point() {
    let sources = [
        "a + b * c + d / e - f",
        "let x = 1 + 2 * 3; return -x;",
        "add(a, b, 1, 2 * 3, 4 + 5, add(6, 7 * 8))",
        "!(true == false)",
        "fn(x, y) { x + y; }(1, 2)",
        "if ((a < b)) { x } else { y }",
    ];
    for src in sources {
        let once = canonical(src);
        let twice = canonical(&once);
        assert_eq!(once, twice, "{}", src);
    }
}

#[test]
fn missing_closing_paren_is_an_error() {
    let r = parse("(1 + 2".to_string());
    assert_eq!(
        r.err(),
        Some(ParseError::UnexpectedToken { expected: TokenType::Rparen, found: TokenType::Eof })
    );
}

#[test]
fn missing_identifier_after_let_is_an_error() {
    let r = parse("let = 5;".to_string());
    assert_eq!(
        r.err(),
        Some(ParseError::UnexpectedToken { expected: TokenType::Ident, found: TokenType::Assign })
    );
}

#[test]
fn missing_assign_after_let_name_is_an_error() {
    let r = parse("let x 5;".to_string());
    assert_eq!(
        r.err(),
        Some(ParseError::UnexpectedToken { expected: TokenType::Assign, found: TokenType::Int })
    );
}

#[test]
fn token_without_prefix_rule_is_an_error() {
    assert_eq!(
        parse("let x = ;".to_string()).err(),
        Some(ParseError::NoPrefixParseFn { found: TokenType::Semicolon })
    );
    assert_eq!(
        parse("@".to_string()).err(),
        Some(ParseError::NoPrefixParseFn { found: TokenType::Illegal })
    );
    assert_eq!(
        parse("1 +".to_string()).err(),
        Some(ParseError::NoPrefixParseFn { found: TokenType::Eof })
    );
}

#[test]
fn if_and_function_shape_errors() {
    assert_eq!(
        parse("if x { y }".to_string()).err(),
        Some(ParseError::UnexpectedToken { expected: TokenType::Lparen, found: TokenType::Ident })
    );
    assert_eq!(
        parse("if (x) y".to_string()).err(),
        Some(ParseError::UnexpectedToken { expected: TokenType::Lbrace, found: TokenType::Ident })
    );
    assert_eq!(
        parse("fn(x, 1) {}".to_string()).err(),
        Some(ParseError::UnexpectedToken { expected: TokenType::Ident, found: TokenType::Int })
    );
    assert_eq!(
        parse("add(1 2)".to_string()).err(),
        Some(ParseError::UnexpectedToken { expected: TokenType::Rparen, found: TokenType::Int })
    );
}

#[test]
fn integer_literal_range() {
    assert_eq!(canonical("9223372036854775807"), "9223372036854775807");
    assert_eq!(canonical("007"), "7");
    assert_eq!(
        parse("9223372036854775808".to_string()).err(),
        Some(ParseError::IntegerOutOfRange)
    );
}

#[test]
fn empty_program_and_unclosed_block() {
    let program = parse(String::new()).unwrap();
    assert_eq!(program.statements().len(), 0);
    assert_eq!(program.token_literal(), "");
    assert_eq!(canonical("if (x) { y"), "if (x) {y}");
}

#[test]
fn if_expressions_print_their_condition_in_parentheses() {
    assert_eq!(canonical("if (x) { x }"), "if (x) {x}");
    assert_eq!(canonical("if (x < y) { x } else { y }"), "if ((x < y)) {x} else {y}");
    let once = canonical("if (x) { x } else { y }");
    assert_eq!(canonical(&once), once);
}

#[test]
fn descending_precedence_chains_nest_to_the_left() {
    assert_eq!(canonical("a * b + c - d < e == f"), "(((((a * b) + c) - d) < e) == f)");
    assert_eq!(canonical("a + b + c + d + e"), "((((a + b) + c) + d) + e)");
}

#[test]
fn operation_programs_reach_a_fixed_point() {
    for src in ["a + b * c - d", "x == y != z < w", "(a + b) * (c - d) / e", "_x * y1"] {
        let once = canonical(src);
        assert_eq!(canonical(&once), once, "{}", src);
    }
}
