use std::rc::Rc;

use monkey_rs::eval::environment::Environment;
use monkey_rs::eval::eval;
use monkey_rs::eval::object::{hash_get, HashableObject, Object};
use monkey_rs::parser::parse;


/// Checks if the result of evaluating the input matches its expected value
/// for each case in the provided case (input, expected) tuples.
fn check_eval_case(cases: &[(&str, &str)]) {
    let mut env = Environment::new();

    for (input, expected) in cases {
        match parse(input) {
            Ok(node) => match eval(node, &mut env) {
                Ok(eval) => assert_eq!(expected, &eval.to_string()),
                Err(e) => assert_eq!(expected, &e.to_string()),
            },
            Err(e) => panic!("Parse error: {}", e.to_string()),
        }
    }
}

#[test]
fn test_eval_integer_expression() {
    let int_cases = [
        ("5", "5"),
        ("10", "10"),
        ("-5", "-5"),
        ("-10", "-10"),
        ("5 + 5 + 5 + 5 - 10", "10"),
        ("2 * 2 * 2 * 2 * 2", "32"),
        ("-50 + 100 + -50", "0"),
        ("5 * 2 + 10", "20"),
        ("5 + 2 * 10", "25"),
        ("20 + 2 * -10", "0"),
        ("50 / 2 * 2 + 10", "60"),
        ("2 * (5 + 10)", "30"),
        ("3 * 3 * 3 + 10", "37"),
        ("3 * (3 * 3) + 10", "37"),
        ("(5 + 10 * 2 + 15 / 3) * 2 + -10", "50"),
    ];
    check_eval_case(&int_cases);
}

#[test]
fn test_eval_boolean_expression() {
    let int_cases = [
        ("true", "true"),
        ("false", "false"),
        ("1 < 2", "true"),
        ("1 > 2", "false"),
        ("1 < 1", "false"),
        ("1 > 1", "false"),
        ("1 == 1", "true"),
        ("1 != 1", "false"),
        ("1 == 2", "false"),
        ("1 != 2", "true"),
        ("true == true", "true"),
        ("false == false", "true"),
        ("true == false", "false"),
        ("true != false", "true"),
        ("false != true", "true"),
        ("(1 < 2) == true", "true"),
        ("(1 < 2) == false", "false"),
        ("(1 > 2) == true", "false"),
        ("(1 > 2) == false", "true"),
    ];
    check_eval_case(&int_cases);
}

#[test]
fn test_bang_operator() {
    let bang_cases = [
        ("!true", "false"),
        ("!false", "true"),
        ("!5", "false"),
        ("!!true", "true"),
        ("!!false", "false"),
        ("!!5", "true"),
    ];
    check_eval_case(&bang_cases);
}

#[test]
fn test_if_else_expressions() {
    let if_else_cases = [
        ("if (true) { 10 }", "10"),
        ("if (false) { 10 }", "null"),
        ("if (1) { 10 }", "10"),
        ("if (1 < 2) { 10 }", "10"),
        ("if (1 > 2) { 10 }", "null"),
        ("if (1 > 2) { 10 } else { 20 }", "20"),
        ("if (1 < 2) { 10 } else { 20 }", "10"),
    ];
    check_eval_case(&if_else_cases);
}

#[test]
fn eval_test_return_statements() {
    let return_cases = [
        ("return 10;", "10"),
        ("return 10; 9;", "10"),
        ("return 2 * 5; 9;", "10"),
        ("9; return 2 * 5; 9;", "10"),
        (
            "if (10 > 1) {\
                if (10 > 1) {\
                    return 10;\
                }\
                \
                return 1;\
         }",
            "10",
        ),
    ];
    check_eval_case(&return_cases);
}

#[test]
fn test_error_handling() {
    let error_cases = [
        ("5 + true;", "type mismatch: 5 + true"),
        ("5 + true; 5;", "type mismatch: 5 + true"),
        ("-true", "unknown operator: -true"),
        ("true + false;", "unknown operator: true + false"),
        ("5; true + false; 5", "unknown operator: true + false"),
        (
            "if (10 > 1) { true + false; )",
            "unknown operator: true + false",
        ),
        ("foobar", "identifier not found: foobar"),
        ("\"Hello\" - \"World\"", "unknown operator: Hello - World"),
    ];
    check_eval_case(&error_cases);
}

#[test]
fn eval_test_let_statement() {
    let let_stmts = [
        ("let a = 5; a;", "5"),
        ("let a = 5 * 5; a;", "25"),
        ("let a = 5; let b = a; b;", "5"),
        ("let a = 5; let b = a; let c = a + b + 5; c;", "15"),
    ];
    check_eval_case(&let_stmts);
}

#[test]
fn test_function_object() {
    let func_objs = [("fn(x) { x + 2; }", "fn(x) {\n (x + 2) \n}")];
    check_eval_case(&func_objs);
}

#[test]
fn test_function_application() {
    let func_apps = [
        ("let identity = fn(x) { x; }; identity(5);", "5"),
        ("let identity = fn(x) { return x; }; identity(5);", "5"),
        ("let double = fn(x) { x * 2; }; double(5);", "10"),
        ("let add = fn(x, y) { x + y; }; add(5, 5);", "10"),
        (
            "let add = fn(x, y) { x + y; }; add(5 + 5, add(5, 5));",
            "20",
        ),
        ("fn(x) { x; }(5)", "5"),
    ];
    check_eval_case(&func_apps);
}

#[test]
fn test_closures() {
    let input = [(
        "
        let newAdder = fn(x) {\
            fn(y) { x + y };\
        };\
        \
        let addTwo = newAdder(2);\
        addTwo(2);",
        "4",
    )];
    check_eval_case(&input);
}

#[test]
fn test_string_literal() {
    let input = [("\"Hello World!\"", "Hello World!")];
    check_eval_case(&input);
}

#[test]
fn test_string_concatenation() {
    let input = [("\"Hello\" + \" \" + \"World!\"", "Hello World!")];
    check_eval_case(&input);
}

#[test]
fn test_builtin_functions() {
    let cases = [
        (r#"len("")"#, "0"),
        (r#"len("four")"#, "4"),
        (r#"len("hello world")"#, "11"),
        ("len(1)", "argument to `len` not supported, got 1"),
        (
            r#"len("one", "two")"#,
            "wrong number of arguments: expected=1, got=2",
        ),
        (r#"len([])"#, "0"),
    ];
    check_eval_case(&cases);
}

#[test]
fn test_array_literals() {
    let cases = [("[1, 2 * 2, 3 + 3]", "[1, 4, 6]")];
    check_eval_case(&cases);
}

#[test]
fn test_array_index_expressions() {
    let index_cases = [
        ("[1, 2, 3][0]", "1"),
        ("[1, 2, 3][1]", "2"),
        ("[1, 2, 3][2]", "3"),
        ("let i = 0; [1][i];", "1"),
        ("[1, 2, 3][1 + 1];", "3"),
        ("let myArray = [1, 2, 3]; myArray[2];", "3"),
        (
            "let myArray = [1, 2, 3]; myArray[0] + myArray[1] + myArray[2];",
            "6",
        ),
        (
            "let myArray = [1, 2, 3]; let i = myArray[0]; myArray[i]",
            "2",
        ),
        ("[1, 2, 3][3]", "null"),
        ("[1, 2, 3][-1]", "null"),
        ("first([1, 2, 3])", "1"),
        ("first([])", "null"),
        ("first(1)", "argument to `first` must be ARRAY, got 1"),
        ("last([1, 2, 3])", "3"),
        ("last([])", "null"),
        ("last(1)", "argument to `last` must be ARRAY, got 1"),
        ("rest([1, 2, 3])", "[2, 3]"),
        ("rest([])", "null"),
        ("push([], 1)", "[1]"),
        ("push(1, 1)", "argument to `push` must be ARRAY, got 1"),
    ];
    check_eval_case(&index_cases);
}

#[test]
fn test_hash_literals() {
    let input = r#"
    let two = "two";
    {
        "one": 10 - 9,
        two: 1 + 1,
        "thr" + "ee": 6 / 2,
        4: 4,
        true: 5,
        false: 6
    }
"#;

    let mut env = Environment::new();
    let node = parse(input).expect("failed to parse input");
    let result = eval(node, &mut env).expect("evaluation failed");

    let expected: Vec<(HashableObject, Object)> = vec![
        (
            HashableObject::String("one".to_string()),
            Object::Integer(1),
        ),
        (
            HashableObject::String("two".to_string()),
            Object::Integer(2),
        ),
        (
            HashableObject::String("three".to_string()),
            Object::Integer(3),
        ),
        (
            HashableObject::Integer(4),
            Object::Integer(4),
        ),
        (
            HashableObject::Boolean(true),
            Object::Integer(5),
        ),
        (
            HashableObject::Boolean(false),
            Object::Integer(6),
        ),
    ];

    match &*result {
        Object::Hash(actual_map) => {
            assert_eq!(actual_map.len(), expected.len());

            for (expected_key, expected_val) in expected {
                let key_rc = Rc::new(expected_key);
                let actual_val = hash_get(actual_map, &key_rc);
                assert!(
                    actual_val.is_some(),
                    "expected key {:?} not found in hash",
                    key_rc
                );

                let actual_val = actual_val.unwrap();
                assert_eq!(
                    &*actual_val, &expected_val,
                    "value mismatch for key {:?}",
                    key_rc
                );
            }
        }
        other => panic!("expected Object::Hash, got {:?}", other),
    }
}

#[test]
fn test_hash_index_expressions() {
    let cases = [
        (r#"{"foo": 5}["foo"]"#, "5"),
        (r#"{"foo": 5}["bar"]"#, "null"),
        (r#"let key = "foo"; {"foo": 5}[key]"#, "5"),
        (r#"{}["foo"]"#, "null"),
        (r#"{5: 5}[5]"#, "5"),
        (r#"{true: 5}[true]"#, "5"),
        (r#"{false: 5}[false]"#, "5"),
    ];
    check_eval_case(&cases);
}
