use monkey::{
    BlockStatement, Expression, ExpressionStatement, Lexer, Node, Parser, Program, Statement,
    TokenType,
};

fn parse_ok(input: &str) -> Program {
    let l = Lexer::new(input.to_string());
    let mut p = Parser::new(l);
    p.parse_program().unwrap()
}

fn expr_stmt(stmt: &Statement) -> &ExpressionStatement {
    match stmt {
        Statement::Expression(s) => s,
        _ => panic!("not an expression statement"),
    }
}

fn first_expression(program: &Program) -> &Expression {
    expr_stmt(program.statements().first().unwrap()).expression()
}

fn int_value(e: &Expression) -> i64 {
    match e {
        Expression::IntegerLiteral(i) => i.value(),
        _ => panic!("not an integer literal"),
    }
}

fn ident_value(e: &Expression) -> &str {
    match e {
        Expression::Identifier(i) => i.value(),
        _ => panic!("not an identifier"),
    }
}

fn single_ident_block(b: &BlockStatement, name: &str) {
    assert_eq!(b.statements().len(), 1);
    let stmt = expr_stmt(b.statements().first().unwrap());
    assert_eq!(ident_value(stmt.expression()), name);
}

#[test]
fn test_let_statements() {
    let input = String::from(
        r#"let x = 5;
let y = 10;
let foobar = 838383;"#,
    );
    let l = Lexer::new(input);
    let mut p = Parser::new(l);
    let program = p.parse_program();
    assert!(program.is_ok());
    let program = program.unwrap();
    assert_eq!(program.statements().len(), 3);
    let idents = ["x", "y", "foobar"];
    for (stmt, ident) in program.statements().iter().zip(idents.iter()) {
        assert_eq!(stmt.token_literal(), "let");
        assert_eq!(stmt.token_type(), TokenType::Let);
        let let_stmt = match stmt {
            Statement::Let(s) => s,
            _ => panic!("not a let statement"),
        };
        assert_eq!(let_stmt.name().token_literal(), *ident);
        assert_eq!(let_stmt.name().token().token_type(), TokenType::Ident);
        assert_eq!(let_stmt.name().value(), *ident);
    }
}

#[test]
fn test_return_statements() {
    let input = String::from(
        r#"return 5;
return 10;
return 993322;
"#,
    );
    let l = Lexer::new(input);
    let mut p = Parser::new(l);
    let program = p.parse_program();
    assert!(program.is_ok());
    let program = program.unwrap();
    assert_eq!(program.statements().len(), 3);
    for stmt in program.statements() {
        assert_eq!(stmt.token_literal(), "return");
        assert_eq!(stmt.token_type(), TokenType::Return);
    }
}

#[test]
fn test_identifier() {
    let program = parse_ok("foobar;");
    assert_eq!(program.statements().len(), 1);
    let stmt = expr_stmt(program.statements().first().unwrap());
    assert_eq!(stmt.token_literal(), "foobar");
    assert_eq!(stmt.token_type(), TokenType::Ident);
}

#[test]
fn test_integer_literal_expression() {
    let program = parse_ok("5");
    assert_eq!(program.statements().len(), 1);
    let literal = match first_expression(&program) {
        Expression::IntegerLiteral(i) => i,
        _ => panic!("not an integer literal"),
    };
    assert_eq!(literal.value(), 5);
    assert_eq!(literal.token_literal(), "5");
}

#[test]
fn test_parsing_prefix_expressions() {
    let prefix_tests = vec![("!5", "!", 5), ("-15", "-", 15)];
    for (input, operator, value) in prefix_tests {
        let program = parse_ok(input);
        assert_eq!(program.statements().len(), 1);
        let prefix_expr = match first_expression(&program) {
            Expression::Prefix(p) => p,
            _ => panic!("not a prefix expression"),
        };
        assert_eq!(prefix_expr.operator(), operator);
        assert_eq!(int_value(prefix_expr.right()), value);
    }
}

#[test]
fn test_parsing_infix_expressions() {
    let infix_tests = vec![
        ("5 + 5", 5, "+", 5),
        ("5 - 5", 5, "-", 5),
        ("5 * 5", 5, "*", 5),
        ("5 / 5", 5, "/", 5),
        ("5 > 5", 5, ">", 5),
        ("5 < 5", 5, "<", 5),
        ("5 == 5", 5, "==", 5),
        ("5 != 5", 5, "!=", 5),
    ];
    for (input, expected_left, op, expected_right) in infix_tests {
        let program = parse_ok(input);
        assert_eq!(program.statements().len(), 1);
        let infix_expr = match first_expression(&program) {
            Expression::Infix(x) => x,
            _ => panic!("not an infix expression"),
        };
        assert_eq!(int_value(infix_expr.left()), expected_left);
        assert_eq!(infix_expr.operator(), op);
        assert_eq!(int_value(infix_expr.right()), expected_right);
    }
}

#[test]
fn test_operator_precedence_parsing() {
    let precedence_tests = vec![
        ("1 + (2 + 3) + 4", "((1 + (2 + 3)) + 4)"),
        ("(5 + 5) * 2", "((5 + 5) * 2)"),
        ("2 / (5 + 5)", "(2 / (5 + 5))"),
        ("-(5 + 5)", "(-(5 + 5))"),
        ("!(true == true)", "(!(true == true))"),
        ("true", "true"),
        ("false", "false"),
        ("3 > 5 == false", "((3 > 5) == false)"),
        ("3 < 5 == true", "((3 < 5) == true)"),
        ("-a * b", "((-a) * b)"),
        ("!-a", "(!(-a))"),
        ("a + b + c", "((a + b) + c)"),
        ("a + b - c", "((a + b) - c)"),
        ("a * b * c", "((a * b) * c)"),
        ("a * b / c", "((a * b) / c)"),
        ("a + b / c", "(a + (b / c))"),
        ("a + b * c + d / e - f", "(((a + (b * c)) + (d / e)) - f)"),
        ("3 + 4; -5 * 5", "(3 + 4)((-5) * 5)"),
        ("5 < 4 == 3 < 4", "((5 < 4) == (3 < 4))"),
        ("5 < 4 != 3 > 4", "((5 < 4) != (3 > 4))"),
        (
            "3 + 4 * 5 == 3 * 1 + 4 * 5",
            "((3 + (4 * 5)) == ((3 * 1) + (4 * 5)))",
        ),
        ("a + add(b * c) + d", "((a + add((b * c))) + d)"),
        (
            "add(a, b, 1, 2 * 3, 4 + 5, add(6, 7 * 8))",
            "add(a, b, 1, (2 * 3), (4 + 5), add(6, (7 * 8)))",
        ),
        (
            "add(a + b + c * d / f + g)",
            "add((((a + b) + ((c * d) / f)) + g))",
        ),
    ];
    for (input, output) in precedence_tests {
        let program = parse_ok(input);
        let actual = program.to_string().trim().to_string();
        assert_eq!(actual, output);
    }
}

#[test]
fn test_boolean_expression() {
    let tests = vec![("true", true), ("false", false)];
    for (input, expected) in tests {
        let program = parse_ok(input);
        assert_eq!(program.statements().len(), 1);
        let bool_expr = match first_expression(&program) {
            Expression::Boolean(b) => b,
            _ => panic!("not a boolean"),
        };
        assert_eq!(bool_expr.value(), expected);
    }
}

#[test]
fn test_if_expression() {
    let program = parse_ok("if (x < y) { x }");
    assert_eq!(program.statements().len(), 1);
    let if_expr = match first_expression(&program) {
        Expression::If(x) => x,
        _ => panic!("not an if expression"),
    };
    let infix_expr = match if_expr.condition() {
        Expression::Infix(x) => x,
        _ => panic!("not an infix expression"),
    };
    assert_eq!(ident_value(infix_expr.left()), "x");
    assert_eq!(infix_expr.operator(), "<");
    assert_eq!(ident_value(infix_expr.right()), "y");
    single_ident_block(if_expr.consequence(), "x");
    assert!(if_expr.alternative().is_none());
}

#[test]
fn test_if_else_expression() {
    let program = parse_ok("if (x < y) { x } else { y }");
    assert_eq!(program.statements().len(), 1);
    let if_expr = match first_expression(&program) {
        Expression::If(x) => x,
        _ => panic!("not an if expression"),
    };
    let infix_expr = match if_expr.condition() {
        Expression::Infix(x) => x,
        _ => panic!("not an infix expression"),
    };
    assert_eq!(ident_value(infix_expr.left()), "x");
    assert_eq!(infix_expr.operator(), "<");
    assert_eq!(ident_value(infix_expr.right()), "y");
    single_ident_block(if_expr.consequence(), "x");
    let alternative = if_expr.alternative().as_ref().unwrap();
    single_ident_block(alternative, "y");
}

#[test]
fn test_function_literal() {
    let program = parse_ok("fn(x, y) { x + y; }");
    assert_eq!(program.statements().len(), 1);
    let func = match first_expression(&program) {
        Expression::Function(f) => f,
        _ => panic!("not a function literal"),
    };
    assert_eq!(func.parameters().len(), 2);
    let params = ["x", "y"];
    for (param, expected) in func.parameters().iter().zip(params.iter()) {
        assert_eq!(param.value(), *expected);
    }
    let body = func.body();
    assert_eq!(body.statements().len(), 1);
    let stmt = expr_stmt(body.statements().first().unwrap());
    let infix_expr = match stmt.expression() {
        Expression::Infix(x) => x,
        _ => panic!("not an infix expression"),
    };
    assert_eq!(ident_value(infix_expr.left()), "x");
    assert_eq!(infix_expr.operator(), "+");
    assert_eq!(ident_value(infix_expr.right()), "y");
}

#[test]
fn test_function_parameter_parsing() {
    let input: Vec<(&str, Vec<&str>)> = vec![
        ("fn() {};", vec![]),
        ("fn(x) {};", vec!["x"]),
        ("fn(x, y, z) {};", vec!["x", "y", "z"]),
    ];
    for (input, expected_params) in input {
        let program = parse_ok(input);
        let func = match first_expression(&program) {
            Expression::Function(f) => f,
            _ => panic!("not a function literal"),
        };
        assert_eq!(func.parameters().len(), expected_params.len());
        for (ident, expected) in func.parameters().iter().zip(expected_params.iter()) {
            assert_eq!(ident.value(), *expected);
        }
    }
}

#[test]
fn test_call_expression_parsing() {
    let program = parse_ok("add(1, 2 * 3, 4 + 5);");
    let call_expr = match first_expression(&program) {
        Expression::Call(c) => c,
        _ => panic!("not a call expression"),
    };
    assert_eq!(ident_value(call_expr.function()), "add");
    assert_eq!(call_expr.arguments().len(), 3);
    let args = call_expr.arguments();
    assert_eq!(int_value(&args[0]), 1);
    let infix_expr = match &args[1] {
        Expression::Infix(x) => x,
        _ => panic!("not an infix expression"),
    };
    assert_eq!(int_value(infix_expr.left()), 2);
    assert_eq!(infix_expr.operator(), "*");
    assert_eq!(int_value(infix_expr.right()), 3);
    let infix_expr = match &args[2] {
        Expression::Infix(x) => x,
        _ => panic!("not an infix expression"),
    };
    assert_eq!(int_value(infix_expr.left()), 4);
    assert_eq!(infix_expr.operator(), "+");
    assert_eq!(int_value(infix_expr.right()), 5);
}
