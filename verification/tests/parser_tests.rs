use monkey_rs::lexer::Lexer;
use monkey_rs::parser::ast::{Expression, Literal, Node, Statement};
use monkey_rs::parser::Parser;


/// Checks the output of parsing an input program string against the
/// expected serialized display output for the parsed program AST.
fn check_parse_test_cases(cases: &[(&str, &str)]) {
    for (input, expected) in cases {
        let l = Lexer::new(input);
        let mut p = Parser::new(l);
        match p.parse_program() {
            Ok(stmts) => {
                let program = Node::Program(stmts);
                assert_eq!(expected, &program.to_string())
            }
            Err(e) => panic!("Parsing error: {}", e.to_string()),
        }
    }
}

#[test]
fn parser_test_let_statement() {
    let input = "let x = 5; \
                               let y = 10; \
                               let foobar = 838383;";

    let l = Lexer::new(input);
    let mut p = Parser::new(l);
    let program = p.parse_program();
    assert!(program.is_ok());
    let program = program.unwrap();
    if program.len() != 3 {
        panic!(
            "program does not contain 3 statements. got={}",
            program.len()
        );
    }

    let expected = vec![
        Statement::Let(
            "x".to_string(),
            Expression::Lit(Literal::Integer(5)),
        ),
        Statement::Let(
            "y".to_string(),
            Expression::Lit(Literal::Integer(10)),
        ),
        Statement::Let(
            "foobar".to_string(),
            Expression::Lit(Literal::Integer(838383)),
        ),
    ];
    assert_eq!(expected, program)
}

#[test]
fn test_invalid_let_statement() {
    let input = "let x 5;";
    let l = Lexer::new(input);
    let mut p = Parser::new(l);
    let program = p.parse_program();
    assert!(&program.is_err());
}

#[test]
fn parser_test_return_statements() {
    let input = "return 5; \
                 return 10; \
                 return 993322;";
    let l = Lexer::new(input);
    let mut p = Parser::new(l);
    let program = p.parse_program();
    assert!(program.is_ok());
    let program = program.unwrap();
    if program.len() != 3 {
        panic!(
            "program does not contain 3 statements. got={}",
            program.len()
        );
    }
    let expected = vec![
        Statement::Return(Expression::Lit(Literal::Integer(5))),
        Statement::Return(Expression::Lit(Literal::Integer(10))),
        Statement::Return(Expression::Lit(Literal::Integer(993322))),
    ];
    assert_eq!(expected, program)
}

#[test]
fn test_simple_program_display() {
    let input = "let myVar = anotherVar;";
    let l = Lexer::new(input);
    let mut p = Parser::new(l);
    let program = p.parse_program();
    assert!(program.is_ok());
    let program = Node::Program(program.unwrap());
    let expected = Node::Program(vec![Statement::Let(
        "myVar".to_string(),
        Expression::Identifier("anotherVar".to_string()),
    )]);
    assert_eq!(expected, program);
}

#[test]
fn test_identifier_expression() {
    let input = "foobar;";
    let l = Lexer::new(input);
    let mut p = Parser::new(l);
    let program = p.parse_program().unwrap();
    assert_eq!(program.len(), 1);
    let expected = vec![Statement::Expr(Expression::Identifier(
        "foobar".to_string(),
    ))];
    assert_eq!(expected, program);
}

#[test]
fn test_integer_literal_expression() {
    let input = "5;";
    let l = Lexer::new(input);
    let mut p = Parser::new(l);
    let program = p.parse_program().unwrap();
    assert_eq!(program.len(), 1);
    let expected = vec![Statement::Expr(Expression::Lit(
        Literal::Integer(5),
    ))];
    assert_eq!(expected, program);
}

#[test]
fn test_boolean_expressions() {
    let bool_tests = [("true", "true"), ("false", "false")];
    check_parse_test_cases(&bool_tests);
}

#[test]
fn test_parsing_prefix_expressions() {
    let prefix_cases = [
        ("!5;", "(!5)"),
        ("-15;", "(-15)"),
        ("!true", "(!true)"),
        ("!false", "(!false)"),
    ];
    check_parse_test_cases(&prefix_cases);
}

#[test]
fn test_parsing_infix_expressions() {
    let infix_tests = [
        ("5 + 5;", "(5 + 5)"),
        ("5 - 5;", "(5 - 5)"),
        ("5 * 5;", "(5 * 5)"),
        ("5 / 5;", "(5 / 5)"),
        ("5 > 5;", "(5 > 5)"),
        ("5 < 5;", "(5 < 5)"),
        ("5 == 5;", "(5 == 5)"),
        ("5 != 5;", "(5 != 5)"),
        ("true == true", "(true == true)"),
        ("true != false", "(true != false)"),
        ("false == false", "(false == false)"),
    ];
    check_parse_test_cases(&infix_tests);
}

#[test]
fn test_operator_precedence_parsing() {
    let precedence_tests = [
        ("-a * b", "((-a) * b)"),
        ("!-a", "(!(-a))"),
        ("a + b + c", "((a + b) + c)"),
        ("a + b - c", "((a + b) - c)"),
        ("a * b * c", "((a * b) * c)"),
        ("a * b / c", "((a * b) / c)"),
        ("a + b / c", "(a + (b / c))"),
        ("a + b * c + d / e - f", "(((a + (b * c)) + (d / e)) - f)"),
        ("3 + 4; -5 * 5", "(3 + 4)((-5) * 5)"),
        ("5 > 4 == 3 < 4", "((5 > 4) == (3 < 4))"),
        ("5 < 4 != 3 > 4", "((5 < 4) != (3 > 4))"),
        (
            "3 + 4 * 5 == 3 * 1 + 4 * 5",
            "((3 + (4 * 5)) == ((3 * 1) + (4 * 5)))",
        ),
        ("true", "true"),
        ("false", "false"),
        ("3 > 5 == false", "((3 > 5) == false)"),
        ("3 < 5 == true", "((3 < 5) == true)"),
        ("1 + (2 + 3) + 4", "((1 + (2 + 3)) + 4)"),
        ("(5 + 5) * 2", "((5 + 5) * 2)"),
        ("2 / (5 + 5)", "(2 / (5 + 5))"),
        ("-(5 + 5)", "(-(5 + 5))"),
        ("!(true == true)", "(!(true == true))"),
        ("a + add(b * c) + d", "((a + add((b * c))) + d)"),
        (
            "add(a, b, 1, 2 * 3, 4 + 5, add(6, 7 * 8))",
            "add(a, b, 1, (2 * 3), (4 + 5), add(6, (7 * 8)))",
        ),
        (
            "add(a + b + c * d / f + g)",
            "add((((a + b) + ((c * d) / f)) + g))",
        ),
        (
            "a * [1, 2, 3, 4][b * c] * d",
            "((a * ([1, 2, 3, 4][(b * c)])) * d)",
        ),
        (
            "add(a * b[2], b[1], 2 * [1, 2][1])",
            "add((a * (b[2])), (b[1]), (2 * ([1, 2][1])))",
        ),
    ];
    check_parse_test_cases(&precedence_tests);
}

#[test]
fn test_if_expression() {
    let if_case = [("if (x < y) { x }", "if (x < y) { x }")];
    check_parse_test_cases(&if_case);
}

#[test]
fn test_ifelse_expression() {
    let ifelse_case = [("if (x < y) { x } else { y }", "if (x < y) { x } else { y }")];
    check_parse_test_cases(&ifelse_case);
}

#[test]
fn test_function_literal_parsing() {
    let fn_literal_case = [("fn(x, y) { x + y; }", "fn(x, y) { (x + y) }")];
    check_parse_test_cases(&fn_literal_case);
}

#[test]
fn test_function_parameter_parsing() {
    let fn_params_cases = [
        ("fn() {};", "fn() {  }"),
        ("fn(x) {};", "fn(x) {  }"),
        ("fn(x, y, z) {};", "fn(x, y, z) {  }"),
    ];
    check_parse_test_cases(&fn_params_cases);
}

#[test]
fn test_call_expression_parsing() {
    let fn_call_cases = [("add(1, 2 * 3, 4 + 5)", "add(1, (2 * 3), (4 + 5))")];
    check_parse_test_cases(&fn_call_cases);
}

#[test]
fn test_string_literal_expression() {
    let str_lit_cases = [("\"hello world\";", "\"hello world\"")];
    check_parse_test_cases(&str_lit_cases);
}

#[test]
fn test_parsing_array_literals() {
    let case = [("[1, 2 * 2, 3 + 3]", "[1, (2 * 2), (3 + 3)]")];
    check_parse_test_cases(&case);
}

#[test]
fn test_parsing_index_expressions() {
    let case = [("myArray[1 + 1]", "(myArray[(1 + 1)])")];
    check_parse_test_cases(&case);
}

#[test]
fn test_parsing_hash_literals_string_keys() {
    let case = [(
        r#"{"one": 1, "two": 2, "three": 3}"#,
        r#"{"one": 1, "two": 2, "three": 3}"#,
    )];
    check_parse_test_cases(&case);
}

#[test]
fn test_parsing_empty_hash_literal() {
    let case = [(r#"{}"#, r#"{}"#)];
    check_parse_test_cases(&case);
}

#[test]
fn test_parsing_hash_literal_boolean_keys() {
    let case = [(r#"{true: 1, false: 2}"#, r#"{true: 1, false: 2}"#)];
    check_parse_test_cases(&case);
}

#[test]
fn test_parsing_hash_literal_integer_keys() {
    let case = [(r#"{1: 1, 2: 2, 3: 3}"#, r#"{1: 1, 2: 2, 3: 3}"#)];
    check_parse_test_cases(&case);
}

#[test]
fn test_parsing_hash_literals_with_expressions() {
    let case = [(
        r#"{"one": 0 + 1, "two": 10 - 8, "three": 15 / 5}"#,
        r#"{"one": (0 + 1), "two": (10 - 8), "three": (15 / 5)}"#,
    )];
    check_parse_test_cases(&case);
}
