use std::rc::Rc;

use monkey_rs::eval::builtin::Builtin;
use monkey_rs::eval::environment::{Environment, DEFAULT_CALL_DEPTH, ROOT_SCOPE};
use monkey_rs::eval::error::EvaluationError;
use monkey_rs::eval::eval;
use monkey_rs::eval::object::{hash_get, hash_insert, HashableObject, Object};
use monkey_rs::lexer::{literals_in_range, Lexer};
use monkey_rs::parser::ast::{
    display_expressions, display_statements, Expression, Literal, Node, Statement,
};
use monkey_rs::parser::error::ParserError;
use monkey_rs::parser::precedence::{token_precedence, Precdence};
use monkey_rs::parser::{parse, Parser};
use monkey_rs::repl::{read_step, ReplStep};
use monkey_rs::text::{push_decimal, push_signed_decimal};
use monkey_rs::token::{lookup_ident, Token};

fn tokens_of(input: &str) -> Vec<Token> {
    let mut lexer = Lexer::new(input);
    let mut tokens = Vec::new();
    loop {
        let token = lexer.next_token();
        if token == Token::Eof {
            return tokens;
        }
        tokens.push(token);
    }
}

fn run(input: &str) -> Result<String, String> {
    let mut env = Environment::new();
    run_in(&mut env, input)
}

fn run_in(env: &mut Environment, input: &str) -> Result<String, String> {
    assert!(literals_in_range(input));
    let node = match parse(input) {
        Ok(node) => node,
        Err(e) => panic!("Parse error: {}", e.to_string()),
    };
    match eval(node, env) {
        Ok(value) => Ok(value.to_string()),
        Err(e) => Err(e.to_string()),
    }
}

fn parse_error(input: &str) -> String {
    match parse(input) {
        Ok(node) => panic!("parsed to {}", node.to_string()),
        Err(e) => e.to_string(),
    }
}

#[test]
fn decimal_numerals() {
    let mut text = String::new();
    push_decimal(&mut text, 0);
    push_decimal(&mut text, 7);
    push_decimal(&mut text, 10);
    push_decimal(&mut text, 18446744073709551615);
    assert_eq!(text, "071018446744073709551615");

    let mut text = String::from("x");
    push_signed_decimal(&mut text, -1);
    push_signed_decimal(&mut text, i64::MIN);
    push_signed_decimal(&mut text, i64::MAX);
    assert_eq!(text, "x-1-92233720368547758089223372036854775807");
}

#[test]
fn keywords_and_identifiers() {
    assert_eq!(lookup_ident("fn"), Token::Function);
    assert_eq!(lookup_ident("let"), Token::Let);
    assert_eq!(lookup_ident("true"), Token::True);
    assert_eq!(lookup_ident("false"), Token::False);
    assert_eq!(lookup_ident("if"), Token::If);
    assert_eq!(lookup_ident("else"), Token::Else);
    assert_eq!(lookup_ident("return"), Token::Return);
    assert_eq!(lookup_ident("lets"), Token::Ident("lets".to_string()));
    assert_eq!(lookup_ident("Fn"), Token::Ident("Fn".to_string()));
}

#[test]
fn token_texts() {
    assert_eq!(Token::Illegal.to_string(), "ILLEGAL");
    assert_eq!(Token::Eof.to_string(), "EOF");
    assert_eq!(Token::Ident("abc".to_string()).to_string(), "abc");
    assert_eq!(Token::Int(-42).to_string(), "-42");
    assert_eq!(Token::String("a b".to_string()).to_string(), "a b");
    assert_eq!(Token::NotEq.to_string(), "!=");
    assert_eq!(Token::Eq.to_string(), "==");
    assert_eq!(Token::LBracket.to_string(), "[");
    assert_eq!(Token::Colon.to_string(), ":");
    assert_eq!(Token::Function.to_string(), "FUNCTION");
    assert_eq!(Token::Return.to_string(), "RETURN");
    assert!(Token::Ident("a".to_string()).same(&Token::Ident("a".to_string())));
    assert!(!Token::Ident("a".to_string()).same(&Token::Ident("b".to_string())));
    assert!(!Token::Int(1).same(&Token::Int(2)));
    assert!(!Token::Plus.same(&Token::Minus));
    assert_eq!(Token::String("s".to_string()).clone(), Token::String("s".to_string()));
}

#[test]
fn lexer_strings_brackets_and_colons() {
    assert_eq!(
        tokens_of("\"foo bar\" [1, 2]; {\"a\": 1}"),
        vec![
            Token::String("foo bar".to_string()),
            Token::LBracket,
            Token::Int(1),
            Token::Comma,
            Token::Int(2),
            Token::RBracket,
            Token::Semicolon,
            Token::LBrace,
            Token::String("a".to_string()),
            Token::Colon,
            Token::Int(1),
            Token::RBrace,
        ]
    );
}

#[test]
fn lexer_keeps_non_ascii_inside_strings() {
    assert_eq!(
        tokens_of("\"h\u{e9}llo \u{1f600}\" x"),
        vec![Token::String("h\u{e9}llo \u{1f600}".to_string()), Token::Ident("x".to_string())]
    );
    assert_eq!(tokens_of("\u{e9}"), vec![Token::Illegal]);
}

#[test]
fn lexer_string_without_closing_quote_runs_to_the_end() {
    assert_eq!(tokens_of("\"abc"), vec![Token::String("abc".to_string())]);
    assert_eq!(tokens_of("\""), vec![Token::String(String::new())]);
    assert_eq!(tokens_of("\"\"\"\""), vec![Token::String(String::new()), Token::String(String::new())]);
}

#[test]
fn lexer_two_character_operators_come_first() {
    assert_eq!(
        tokens_of("=== !== = ! =!"),
        vec![
            Token::Eq,
            Token::Assign,
            Token::NotEq,
            Token::Assign,
            Token::Assign,
            Token::Bang,
            Token::Assign,
            Token::Bang,
        ]
    );
}

#[test]
fn lexer_names_and_numbers() {
    assert_eq!(
        tokens_of("a1_b 12ab _x 007 a_"),
        vec![
            Token::Ident("a1_b".to_string()),
            Token::Int(12),
            Token::Ident("ab".to_string()),
            Token::Illegal,
            Token::Ident("x".to_string()),
            Token::Int(7),
            Token::Ident("a_".to_string()),
        ]
    );
    assert_eq!(tokens_of("9223372036854775807"), vec![Token::Int(i64::MAX)]);
}

#[test]
fn lexer_illegal_characters_and_blanks() {
    assert_eq!(tokens_of("@ # \t\r\n $"), vec![Token::Illegal, Token::Illegal, Token::Illegal]);
    assert_eq!(tokens_of(""), Vec::<Token>::new());
    assert_eq!(tokens_of(" \n\t "), Vec::<Token>::new());
}

#[test]
fn lexer_yields_eof_again_and_again() {
    let mut lexer = Lexer::new("x");
    assert_eq!(lexer.next_token(), Token::Ident("x".to_string()));
    assert_eq!(lexer.next_token(), Token::Eof);
    assert_eq!(lexer.next_token(), Token::Eof);
    assert_eq!(lexer.next_token(), Token::Eof);
}

#[test]
fn literals_in_range_tells_numbers_that_fit() {
    assert!(literals_in_range("let x = 9223372036854775807;"));
    assert!(!literals_in_range("let x = 9223372036854775808;"));
    assert!(!literals_in_range("1 + 99999999999999999999999999 + 2"));
    assert!(literals_in_range("\"99999999999999999999999999\""));
    assert!(literals_in_range("a99999999999999999999999999"));
    assert!(literals_in_range(""));
    let lexer = Lexer::new("  123456789012345678901234567890");
    assert!(!lexer.next_literal_fits());
    let lexer = Lexer::new("  12 123456789012345678901234567890");
    assert!(lexer.next_literal_fits());
}

#[test]
fn precedences_are_ordered() {
    assert!(Precdence::Lowest < Precdence::Equals);
    assert!(Precdence::Equals < Precdence::LessGreater);
    assert!(Precdence::LessGreater < Precdence::Sum);
    assert!(Precdence::Sum < Precdence::Product);
    assert!(Precdence::Product < Precdence::Prefix);
    assert!(Precdence::Prefix < Precdence::Call);
    assert!(Precdence::Call < Precdence::Index);
    assert!(Precdence::Sum.weaker_than(&Precdence::Product));
    assert!(!Precdence::Product.weaker_than(&Precdence::Product));
    assert_eq!(Precdence::Index.level(), 7);
    assert_eq!(token_precedence(&Token::Eq), Precdence::Equals);
    assert_eq!(token_precedence(&Token::NotEq), Precdence::Equals);
    assert_eq!(token_precedence(&Token::Lt), Precdence::LessGreater);
    assert_eq!(token_precedence(&Token::Gt), Precdence::LessGreater);
    assert_eq!(token_precedence(&Token::Plus), Precdence::Sum);
    assert_eq!(token_precedence(&Token::Minus), Precdence::Sum);
    assert_eq!(token_precedence(&Token::Slash), Precdence::Product);
    assert_eq!(token_precedence(&Token::Asterisk), Precdence::Product);
    assert_eq!(token_precedence(&Token::LParen), Precdence::Call);
    assert_eq!(token_precedence(&Token::LBracket), Precdence::Index);
    assert_eq!(token_precedence(&Token::LBrace), Precdence::Lowest);
    assert_eq!(token_precedence(&Token::Semicolon), Precdence::Lowest);
}

#[test]
fn parse_builds_the_tree() {
    let node = parse("let x = -a * 2; return [x, \"s\"][0];").expect("parses");
    let expected = Node::Program(vec![
        Statement::Let(
            "x".to_string(),
            Expression::Infix(
                Token::Asterisk,
                Box::new(Expression::Prefix(
                    Token::Minus,
                    Box::new(Expression::Identifier("a".to_string())),
                )),
                Box::new(Expression::Lit(Literal::Integer(2))),
            ),
        ),
        Statement::Return(Expression::Index(
            Box::new(Expression::Lit(Literal::Array(vec![
                Expression::Identifier("x".to_string()),
                Expression::Lit(Literal::String("s".to_string())),
            ]))),
            Box::new(Expression::Lit(Literal::Integer(0))),
        )),
    ]);
    assert_eq!(node, expected);
    assert_eq!(node.to_string(), "let x = ((-a) * 2);return ([x, \"s\"][0]);");
}

#[test]
fn parse_of_nothing_is_the_empty_program() {
    assert_eq!(parse("").expect("parses"), Node::Program(vec![]));
    assert_eq!(parse("  \n ").expect("parses"), Node::Program(vec![]));
}

#[test]
fn parse_if_function_call_and_hash() {
    let node = parse("if (a) { b } else { c }; fn(x, y) { x }(1, 2); {1: 2, \"k\": [],}").expect("parses");
    let expected = Node::Program(vec![
        Statement::Expr(Expression::If(
            Box::new(Expression::Identifier("a".to_string())),
            vec![Statement::Expr(Expression::Identifier("b".to_string()))],
            Some(vec![Statement::Expr(Expression::Identifier("c".to_string()))]),
        )),
        Statement::Expr(Expression::Call(
            Box::new(Expression::Fn(
                vec!["x".to_string(), "y".to_string()],
                vec![Statement::Expr(Expression::Identifier("x".to_string()))],
            )),
            vec![Expression::Lit(Literal::Integer(1)), Expression::Lit(Literal::Integer(2))],
        )),
        Statement::Expr(Expression::Lit(Literal::Hash(vec![
            (Expression::Lit(Literal::Integer(1)), Expression::Lit(Literal::Integer(2))),
            (Expression::Lit(Literal::String("k".to_string())), Expression::Lit(Literal::Array(vec![]))),
        ]))),
    ]);
    assert_eq!(node, expected);
}

#[test]
fn parse_errors_are_joined() {
    assert_eq!(
        parse_error("let x 5;"),
        "Encountered 1 error(s) while parsing:\nExpected next token to be =, received 5"
    );
    assert_eq!(
        parse_error("let = 1; ) ; let y 2"),
        "Encountered 5 error(s) while parsing:\n\
         Expected identifier after 'let'\n\
         No prefix parse function for =\n\
         No prefix parse function for )\n\
         No prefix parse function for ;\n\
         Expected next token to be =, received 2"
    );
}

#[test]
fn parse_error_messages() {
    assert_eq!(
        parse_error("(1 + 2"),
        "Encountered 1 error(s) while parsing:\nExpected next token to be ), received EOF"
    );
    assert_eq!(
        parse_error("if x { 1 }"),
        "Encountered 3 error(s) while parsing:\n\
         Expected next token to be (, received x\n\
         Expected next token to be :, received }\n\
         No prefix parse function for }"
    );
    assert_eq!(
        parse_error("fn(1) { }"),
        "Encountered 2 error(s) while parsing:\n\
         Expected a parameter identifer, got 1\n\
         No prefix parse function for )"
    );
    assert_eq!(
        parse_error("fn(a, 1) { }"),
        "Encountered 2 error(s) while parsing:\n\
         Expected a parameter identifer, got 1\n\
         No prefix parse function for )"
    );
    assert_eq!(
        parse_error("[1, 2"),
        "Encountered 1 error(s) while parsing:\nExpected next token to be ], received EOF"
    );
    assert_eq!(
        parse_error("{1 2}"),
        "Encountered 2 error(s) while parsing:\n\
         Expected next token to be :, received 2\n\
         No prefix parse function for }"
    );
    assert_eq!(
        parse_error("@"),
        "Encountered 1 error(s) while parsing:\nNo prefix parse function for ILLEGAL"
    );
    assert_eq!(
        parse_error(")[1]"),
        "Encountered 2 error(s) while parsing:\n\
         No prefix parse function for )\n\
         No prefix parse function for ]"
    );
    assert_eq!(
        parse_error("a[1"),
        "Encountered 1 error(s) while parsing:\nExpected next token to be ], received EOF"
    );
    assert_eq!(
        parse_error("-"),
        "Encountered 1 error(s) while parsing:\nNo prefix parse function for EOF"
    );
}

#[test]
fn parser_collects_its_errors() {
    let mut parser = Parser::new(Lexer::new("let 1; 5 )"));
    let result = parser.parse_program();
    assert_eq!(
        result,
        Err(ParserError::new(
            "Encountered 2 error(s) while parsing:\n\
             Expected identifier after 'let'\n\
             No prefix parse function for )"
                .to_string()
        ))
    );
}

#[test]
fn statements_that_fail_inside_a_block_are_left_out() {
    let node = parse("fn() { ) 2 }").expect("parses");
    assert_eq!(node.to_string(), "fn() { 2 }");
    let node = parse("if (a) { let 1; 2 }").expect("parses");
    assert_eq!(node.to_string(), "if a { 12 }");
}

#[test]
fn display_of_lists() {
    let statements = vec![
        Statement::Let("a".to_string(), Expression::Lit(Literal::Integer(1))),
        Statement::Return(Expression::Identifier("a".to_string())),
        Statement::Expr(Expression::Lit(Literal::Boolean(false))),
    ];
    assert_eq!(display_statements(&statements), "let a = 1;return a;false");
    assert_eq!(display_statements(&[]), "");
    let expressions = vec![
        Expression::Lit(Literal::String("x".to_string())),
        Expression::Lit(Literal::Hash(vec![(
            Expression::Lit(Literal::Integer(1)),
            Expression::Lit(Literal::Boolean(true)),
        )])),
        Expression::Index(
            Box::new(Expression::Identifier("a".to_string())),
            Box::new(Expression::Lit(Literal::Integer(0))),
        ),
    ];
    assert_eq!(display_expressions(&expressions), "\"x\", {1: true}, (a[0])");
    assert_eq!(display_expressions(&[]), "");
    assert_eq!(statements[0].to_string(), "let a = 1;");
    assert_eq!(expressions[2].to_string(), "(a[0])");
    assert_eq!(Literal::Array(vec![]).to_string(), "[]");
    assert_eq!(statements[0].clone(), statements[0]);
    assert_eq!(expressions[1].clone(), expressions[1]);
}

fn round_trips(input: &str) {
    let first = parse(input).expect("parses");
    let text = first.to_string();
    let second = parse(&text).expect("parses again");
    assert_eq!(first, second, "through {:?}", text);
    assert_eq!(second.to_string(), text);
}

#[test]
fn rendering_and_parsing_again_gives_the_same_tree() {
    round_trips("a + b * c - d / e");
    round_trips("-a * !b");
    round_trips("!-a");
    round_trips("1 + (2 + 3) + 4 == 10 != true");
    round_trips("a < b == c > d");
    round_trips("x");
    round_trips("5");
    round_trips("true");
    round_trips("-(5 + 5) * 2");
    round_trips("a * [1, 2, 3, 4][b * c] * d");
    round_trips("let x = 1 + 2 * 3;");
    round_trips("return a - b - c;");
}

#[test]
fn integer_arithmetic() {
    assert_eq!(run("7 / 2"), Ok("3".to_string()));
    assert_eq!(run("-7 / 2"), Ok("-3".to_string()));
    assert_eq!(run("7 / -2"), Ok("-3".to_string()));
    assert_eq!(run("-7 / -2"), Ok("3".to_string()));
    assert_eq!(run("0 / 5"), Ok("0".to_string()));
    assert_eq!(run("1 / 0"), Err("division by zero".to_string()));
    assert_eq!(run("0 / 0"), Err("division by zero".to_string()));
    assert_eq!(run("3 - 10"), Ok("-7".to_string()));
    assert_eq!(run("-3 * 4"), Ok("-12".to_string()));
}

#[test]
fn integer_arithmetic_wraps_around() {
    assert_eq!(run("9223372036854775807 + 1"), Ok("-9223372036854775808".to_string()));
    assert_eq!(run("-9223372036854775807 - 2"), Ok("9223372036854775807".to_string()));
    assert_eq!(run("9223372036854775807 * 2"), Ok("-2".to_string()));
    assert_eq!(run("(-9223372036854775807 - 1) / -1"), Ok("-9223372036854775808".to_string()));
    assert_eq!(run("-(-9223372036854775807 - 1)"), Ok("-9223372036854775808".to_string()));
    assert_eq!(run("4611686018427387904 * 4"), Ok("0".to_string()));
}

#[test]
fn type_mismatch_and_unknown_operator() {
    assert_eq!(run("5 + true"), Err("type mismatch: 5 + true".to_string()));
    assert_eq!(run("\"a\" == 1"), Err("type mismatch: a == 1".to_string()));
    assert_eq!(run("[1] + 1"), Err("type mismatch: [1] + 1".to_string()));
    assert_eq!(run("true + false"), Err("unknown operator: true + false".to_string()));
    assert_eq!(run("true < false"), Err("unknown operator: true < false".to_string()));
    assert_eq!(run("\"a\" * \"b\""), Err("unknown operator: a * b".to_string()));
    assert_eq!(run("[1] + [2]"), Err("unknown operator: [1] + [2]".to_string()));
    assert_eq!(run("{} == {}"), Err("unknown operator: {} == {}".to_string()));
    assert_eq!(run("-\"a\""), Err("unknown operator: -a".to_string()));
    assert_eq!(run("-[1, 2]"), Err("unknown operator: -[1, 2]".to_string()));
}

#[test]
fn string_operators() {
    assert_eq!(run("\"a\" + \"b\" == \"ab\""), Ok("true".to_string()));
    assert_eq!(run("\"a\" != \"a\""), Ok("false".to_string()));
    assert_eq!(run("\"a\" == \"b\""), Ok("false".to_string()));
    assert_eq!(run("\"\" + \"\""), Ok("".to_string()));
}

#[test]
fn truthiness() {
    assert_eq!(run("!0"), Ok("false".to_string()));
    assert_eq!(run("!\"\""), Ok("false".to_string()));
    assert_eq!(run("![]"), Ok("false".to_string()));
    assert_eq!(run("!if (false) { 1 }"), Ok("true".to_string()));
    assert_eq!(run("if (0) { 1 } else { 2 }"), Ok("1".to_string()));
    assert_eq!(run("if (if (false) { 1 }) { 1 } else { 2 }"), Ok("2".to_string()));
    assert_eq!(run("if (\"\") { 1 }"), Ok("1".to_string()));
}

#[test]
fn identifiers_and_builtins() {
    assert_eq!(run("foobar"), Err("identifier not found: foobar".to_string()));
    assert_eq!(run("len"), Ok("len".to_string()));
    assert_eq!(run("[first, last, rest, push, puts]"), Ok("[first, last, rest, push, puts]".to_string()));
    assert_eq!(run("let len = 5; len"), Ok("5".to_string()));
    assert_eq!(Builtin::lookup("len"), Some(Object::Builtin(Builtin::Len)));
    assert_eq!(Builtin::lookup("puts"), Some(Object::Builtin(Builtin::Puts)));
    assert_eq!(Builtin::lookup("length"), None);
    assert_eq!(Builtin::Rest.to_string(), "rest");
}

#[test]
fn builtin_errors() {
    assert_eq!(run("len()"), Err("wrong number of arguments: expected=1, got=0".to_string()));
    assert_eq!(run("len(true)"), Err("argument to `len` not supported, got true".to_string()));
    assert_eq!(run("first([], [])"), Err("wrong number of arguments: expected=1, got=2".to_string()));
    assert_eq!(run("last()"), Err("wrong number of arguments: expected=1, got=0".to_string()));
    assert_eq!(run("rest(\"abc\")"), Err("argument to `rest` must be ARRAY, got abc".to_string()));
    assert_eq!(run("push([])"), Err("wrong number of arguments: expected=2, got=1".to_string()));
    assert_eq!(run("push([], 1, 2)"), Err("wrong number of arguments: expected=2, got=3".to_string()));
}

#[test]
fn len_counts_characters() {
    assert_eq!(run("len(\"h\u{e9}llo\")"), Ok("5".to_string()));
    assert_eq!(run("len([1, [2, 3], \"x\"])"), Ok("3".to_string()));
}

#[test]
fn arrays_are_not_changed_by_builtins() {
    assert_eq!(
        run("let a = []; let b = push(a, 1); let c = push(b, 2); [a, b, c, rest(c), first(c), last(c)]"),
        Ok("[[], [1], [1, 2], [2], 1, 2]".to_string())
    );
    assert_eq!(run("rest([1])"), Ok("[]".to_string()));
    assert_eq!(run("rest(rest([1]))"), Ok("null".to_string()));
}

#[test]
fn builtin_apply_on_values() {
    let mut env = Environment::new();
    let array = Rc::new(Object::Array(vec![Rc::new(Object::Integer(1)), Rc::new(Object::Null)]));
    let pushed = Builtin::Push.apply(&[array.clone(), Rc::new(Object::Boolean(true))], &mut env);
    assert_eq!(pushed.expect("push").to_string(), "[1, null, true]");
    assert_eq!(array.to_string(), "[1, null]");
    assert_eq!(Builtin::Last.apply(&[array.clone()], &mut env).expect("last").to_string(), "null");
    assert_eq!(
        Builtin::Len.apply(&[], &mut env),
        Err(EvaluationError::new("wrong number of arguments: expected=1, got=0".to_string()))
    );
    assert!(env.take_output().is_empty());
}

#[test]
fn puts_prints_lines_and_yields_null() {
    let mut env = Environment::new();
    assert_eq!(run_in(&mut env, "puts(\"a\", 1 + 1, [true], fn(x) { x })"), Ok("null".to_string()));
    assert_eq!(run_in(&mut env, "puts()"), Ok("null".to_string()));
    assert_eq!(run_in(&mut env, "puts({\"k\": 2}); 5"), Ok("5".to_string()));
    assert_eq!(
        env.take_output(),
        vec![
            "a".to_string(),
            "2".to_string(),
            "[true]".to_string(),
            "fn(x) {\n x \n}".to_string(),
            "{k: 2}".to_string(),
        ]
    );
    assert!(env.take_output().is_empty());
}

#[test]
fn index_errors_and_boundaries() {
    assert_eq!(run("5[0]"), Err("index operator not supported: 0".to_string()));
    assert_eq!(run("[1][\"a\"]"), Err("index operator not supported: a".to_string()));
    assert_eq!(run("\"abc\"[1]"), Err("index operator not supported: 1".to_string()));
    assert_eq!(run("{1: 2}[[1]]"), Err("unusable as hash key: [1]".to_string()));
    assert_eq!(run("{1: 2}[fn(x) { x }]"), Err("unusable as hash key: fn(x) {\n x \n}".to_string()));
    assert_eq!(run("{[1]: 2}"), Err("unusable as hash key: [1]".to_string()));
    assert_eq!(run("{if (false) { 1 }: 2}"), Err("unusable as hash key: null".to_string()));
    assert_eq!(run("[1, 2, 3][9223372036854775807]"), Ok("null".to_string()));
    assert_eq!(run("[][0]"), Ok("null".to_string()));
    assert_eq!(run("{1: 2}[true]"), Ok("null".to_string()));
    assert_eq!(run("{1: 2}[\"1\"]"), Ok("null".to_string()));
}

#[test]
fn hash_keeps_one_value_for_a_key() {
    assert_eq!(run("{1: 2, true: 3, 1: 4, \"1\": 5}"), Ok("{1: 4, true: 3, 1: 5}".to_string()));
    assert_eq!(run("{1: 2, 1: 4}[1]"), Ok("4".to_string()));
    assert_eq!(run("{\"a\": 1, \"b\": {\"c\": [2]}}[\"b\"][\"c\"][0]"), Ok("2".to_string()));

    let mut entries = Vec::new();
    hash_insert(&mut entries, HashableObject::Integer(1), Rc::new(Object::Integer(10)));
    hash_insert(&mut entries, HashableObject::Boolean(true), Rc::new(Object::Integer(20)));
    hash_insert(&mut entries, HashableObject::Integer(1), Rc::new(Object::Integer(30)));
    assert_eq!(entries.len(), 2);
    assert_eq!(hash_get(&entries, &HashableObject::Integer(1)), Some(Rc::new(Object::Integer(30))));
    assert_eq!(hash_get(&entries, &HashableObject::Boolean(true)), Some(Rc::new(Object::Integer(20))));
    assert_eq!(hash_get(&entries, &HashableObject::Boolean(false)), None);
    assert_eq!(HashableObject::String("k".to_string()).to_string(), "k");
    assert_eq!(Object::Integer(3).as_hashable(), Some(HashableObject::Integer(3)));
    assert_eq!(Object::String("s".to_string()).as_hashable(), Some(HashableObject::String("s".to_string())));
    assert_eq!(Object::Null.as_hashable(), None);
    assert_eq!(Object::Array(vec![]).as_hashable(), None);
}

#[test]
fn calls_check_their_arguments() {
    assert_eq!(
        run("fn(x) { x }(1, 2)"),
        Err("invalid number of arguments: expected=1, got=2".to_string())
    );
    assert_eq!(
        run("let f = fn(a, b, c) { a }; f()"),
        Err("invalid number of arguments: expected=3, got=0".to_string())
    );
    assert_eq!(run("5(1)"), Err("not a function: 5".to_string()));
    assert_eq!(run("\"f\"()"), Err("not a function: f".to_string()));
    assert_eq!(run("fn() { 1 }()"), Ok("1".to_string()));
    assert_eq!(run("fn() { }()"), Ok("null".to_string()));
}

#[test]
fn arguments_are_evaluated_from_left_to_right() {
    let mut env = Environment::new();
    assert_eq!(
        run_in(&mut env, "let f = fn(a, b) { a }; f(puts(1), puts(2)); [puts(3), puts(4)]; {puts(5): puts(6)}"),
        Err("unusable as hash key: null".to_string())
    );
    assert_eq!(
        env.take_output(),
        vec!["1".to_string(), "2".to_string(), "3".to_string(), "4".to_string(), "5".to_string()]
    );
}

#[test]
fn return_leaves_only_the_function_it_stands_in() {
    assert_eq!(
        run("let f = fn(x) { if (x) { if (x) { return 1; } return 2; } return 3; }; [f(true), f(false)]"),
        Ok("[1, 3]".to_string())
    );
    assert_eq!(run("let f = fn() { return 1; 2 }; f() + 10"), Ok("11".to_string()));
    assert_eq!(run("let f = fn() { return fn() { return 5; }; }; f()() + 1"), Ok("6".to_string()));
}

#[test]
fn functions_see_the_scope_they_were_defined_in() {
    assert_eq!(
        run("let x = 1; let f = fn() { x }; let g = fn() { let x = 2; f() }; g()"),
        Ok("1".to_string())
    );
    assert_eq!(
        run("let counter = fn(n) { fn() { n + 1 } }; let a = counter(1); let b = counter(10); a() + b()"),
        Ok("13".to_string())
    );
    assert_eq!(
        run("let fib = fn(n) { if (n < 2) { n } else { fib(n - 1) + fib(n - 2) } }; fib(15)"),
        Ok("610".to_string())
    );
    assert_eq!(
        run("let f = fn() { let y = 5; y }; f(); y"),
        Err("identifier not found: y".to_string())
    );
    assert_eq!(run("let x = 1; let f = fn(x) { let x = x + 1; x }; f(5) + x"), Ok("7".to_string()));
    assert_eq!(
        run("let f = fn() { g() }; let g = fn() { 7 }; f()"),
        Ok("7".to_string())
    );
}

#[test]
fn bindings_stay_in_the_environment() {
    let mut env = Environment::new();
    assert_eq!(run_in(&mut env, "let a = 5;"), Ok("5".to_string()));
    assert_eq!(run_in(&mut env, "let add = fn(x) { x + a };"), Ok("fn(x) {\n (x + a) \n}".to_string()));
    assert_eq!(run_in(&mut env, "add(2)"), Ok("7".to_string()));
    assert_eq!(run_in(&mut env, "let a = 10; add(2)"), Ok("12".to_string()));
    assert_eq!(run_in(&mut env, ""), Ok("null".to_string()));
}

#[test]
fn calls_nest_only_as_deep_as_allowed() {
    let mut env = Environment::new();
    assert_eq!(env.call_depth(), DEFAULT_CALL_DEPTH);
    env.set_call_depth(40);
    assert_eq!(env.call_depth(), 40);
    assert_eq!(
        run_in(&mut env, "let down = fn(n) { if (n == 0) { 0 } else { down(n - 1) } }; down(39)"),
        Ok("0".to_string())
    );
    assert_eq!(run_in(&mut env, "down(40)"), Err("call depth exceeded".to_string()));
    assert_eq!(
        run_in(&mut env, "let forever = fn() { forever() }; forever()"),
        Err("call depth exceeded".to_string())
    );
    assert_eq!(run_in(&mut env, "len([1, 2])"), Ok("2".to_string()));
    env.set_call_depth(0);
    assert_eq!(run_in(&mut env, "len([1, 2])"), Ok("2".to_string()));
    assert_eq!(run_in(&mut env, "fn() { 1 }()"), Err("call depth exceeded".to_string()));
}

#[test]
fn environment_scopes() {
    let mut env = Environment::new();
    assert_eq!(env.get(ROOT_SCOPE, "x"), None);
    env.set(ROOT_SCOPE, "x", Rc::new(Object::Integer(1)));
    env.set(ROOT_SCOPE, "y", Rc::new(Object::Integer(2)));
    let inner = env.new_enclosed_environment(ROOT_SCOPE);
    assert_eq!(inner, 1);
    assert_eq!(env.get(inner, "x"), Some(Rc::new(Object::Integer(1))));
    env.set(inner, "x", Rc::new(Object::Integer(10)));
    assert_eq!(env.get(inner, "x"), Some(Rc::new(Object::Integer(10))));
    assert_eq!(env.get(ROOT_SCOPE, "x"), Some(Rc::new(Object::Integer(1))));
    assert_eq!(env.get(inner, "y"), Some(Rc::new(Object::Integer(2))));
    env.set(ROOT_SCOPE, "x", Rc::new(Object::Integer(3)));
    assert_eq!(env.get(ROOT_SCOPE, "x"), Some(Rc::new(Object::Integer(3))));
    assert_eq!(env.get(inner, "x"), Some(Rc::new(Object::Integer(10))));
    let innermost = env.new_enclosed_environment(inner);
    let beside = env.new_enclosed_environment(ROOT_SCOPE);
    assert_eq!(env.get(innermost, "x"), Some(Rc::new(Object::Integer(10))));
    assert_eq!(env.get(beside, "x"), Some(Rc::new(Object::Integer(3))));
    env.set(ROOT_SCOPE, "z", Rc::new(Object::Null));
    assert_eq!(env.get(innermost, "z"), Some(Rc::new(Object::Null)));
    assert_eq!(env.get(99, "x"), None);
    env.set(99, "x", Rc::new(Object::Null));
    let alone = env.new_enclosed_environment(99);
    assert_eq!(env.get(alone, "x"), None);
    assert_eq!(Environment::default(), Environment::new());
}

#[test]
fn eval_of_a_statement_and_of_an_expression() {
    let mut env = Environment::new();
    let statement = Statement::Let("a".to_string(), Expression::Lit(Literal::Integer(4)));
    assert_eq!(eval(Node::Stmt(statement), &mut env), Ok(Rc::new(Object::Integer(4))));
    let expression = Expression::Infix(
        Token::Asterisk,
        Box::new(Expression::Identifier("a".to_string())),
        Box::new(Expression::Lit(Literal::Integer(3))),
    );
    assert_eq!(eval(Node::Expr(expression), &mut env), Ok(Rc::new(Object::Integer(12))));
    let returned = Statement::Return(Expression::Lit(Literal::Boolean(true)));
    assert_eq!(
        eval(Node::Stmt(returned), &mut env),
        Ok(Rc::new(Object::ReturnValue(Rc::new(Object::Boolean(true)))))
    );
    let odd = Expression::Prefix(Token::Plus, Box::new(Expression::Lit(Literal::Integer(3))));
    assert_eq!(
        eval(Node::Expr(odd), &mut env),
        Err(EvaluationError::new("unknown operator: +3".to_string()))
    );
    let odd = Expression::Infix(
        Token::Comma,
        Box::new(Expression::Lit(Literal::Integer(1))),
        Box::new(Expression::Lit(Literal::Integer(2))),
    );
    assert_eq!(
        eval(Node::Expr(odd), &mut env),
        Err(EvaluationError::new("unknown operator: 1 , 2".to_string()))
    );
}

#[test]
fn evaluation_ends_at_the_first_error() {
    let mut env = Environment::new();
    assert_eq!(
        run_in(&mut env, "puts(1); let a = [1, nope, puts(2)]; puts(3)"),
        Err("identifier not found: nope".to_string())
    );
    assert_eq!(env.take_output(), vec!["1".to_string()]);
    assert_eq!(run_in(&mut env, "a"), Err("identifier not found: a".to_string()));
}

#[test]
fn values_are_displayed() {
    assert_eq!(run("[1, \"two\", true, [3], {4: 5}, fn() { 6 }, len, if (false) { 7 }]"),
        Ok("[1, two, true, [3], {4: 5}, fn() {\n 6 \n}, len, null]".to_string()));
    assert_eq!(run("fn(a, b) { let c = a; return c + b; }"),
        Ok("fn(a, b) {\n let c = a;return (c + b); \n}".to_string()));
    assert_eq!(Object::ReturnValue(Rc::new(Object::Integer(1))).to_string(), "1");
    let mut env = Environment::new();
    let node = parse("[1, {\"a\": fn(x) { x }}, \"s\"]").expect("parses");
    let value = eval(node, &mut env).expect("evaluates");
    assert_eq!((*value).clone(), *value);
}

#[test]
fn repl_steps() {
    assert_eq!(read_step(String::new(), "", false), ReplStep::Skip);
    assert_eq!(read_step(String::new(), "   ", false), ReplStep::Skip);
    assert_eq!(read_step(String::new(), "1 + 2  ", false), ReplStep::Evaluate("1 + 2".to_string()));
    assert_eq!(read_step(String::new(), " x", false), ReplStep::Evaluate(" x".to_string()));
    assert_eq!(
        read_step(String::new(), "let a = \\  ", false),
        ReplStep::Continue("let a = ".to_string())
    );
    assert_eq!(
        read_step("let a = ".to_string(), "5;   ", true),
        ReplStep::Evaluate("let a = 5;".to_string())
    );
    assert_eq!(read_step("ab".to_string(), "", true), ReplStep::Evaluate("ab".to_string()));
    assert_eq!(read_step("ab".to_string(), "\\", true), ReplStep::Continue("ab".to_string()));
    assert_eq!(read_step("a".to_string(), "b\\\\", true), ReplStep::Continue("ab\\".to_string()));
    assert_eq!(read_step(String::new(), "a \\ b", false), ReplStep::Evaluate("a \\ b".to_string()));
}

#[test]
fn calls_nest_as_deep_as_the_default_allows() {
    let mut env = Environment::new();
    assert_eq!(
        run_in(
            &mut env,
            "let down = fn(n) { if (n == 0) { 0 } else { 1 + down(n - 1) } }; down(499)"
        ),
        Ok("499".to_string())
    );
    assert_eq!(run_in(&mut env, "down(500)"), Err("call depth exceeded".to_string()));
}

#[test]
fn characters_that_start_no_token_are_errors_inside_blocks_too() {
    assert_eq!(
        parse_error("fn() { @ }"),
        "Encountered 2 error(s) while parsing:\n\
         No prefix parse function for ILLEGAL\n\
         No prefix parse function for }"
    );
    assert_eq!(
        parse_error("if (a) { 1 # 2 }"),
        "Encountered 2 error(s) while parsing:\n\
         No prefix parse function for ILLEGAL\n\
         No prefix parse function for }"
    );
    assert_eq!(
        parse_error("if (a) { 1 } else { let x = $; }"),
        "Encountered 3 error(s) while parsing:\n\
         No prefix parse function for ILLEGAL\n\
         No prefix parse function for ;\n\
         No prefix parse function for }"
    );
    assert_eq!(
        parse_error("1 + ?"),
        "Encountered 1 error(s) while parsing:\nNo prefix parse function for ILLEGAL"
    );
}
