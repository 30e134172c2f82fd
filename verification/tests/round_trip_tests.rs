use monkey_rs::lexer::literals_in_range;
use monkey_rs::parser::ast::{Expression, Literal, Node, Statement};
use monkey_rs::parser::parse;
use monkey_rs::token::Token;

/// A small generator of numbers: the same sequence on every run.
struct Numbers(u64);

impl Numbers {
    fn next(&mut self, below: u64) -> u64 {
        self.0 = self.0.wrapping_mul(6364136223846793005).wrapping_add(1442695040888963407);
        (self.0 >> 33) % below
    }
}

fn some_name(numbers: &mut Numbers) -> String {
    let names = ["a", "b1", "foo_bar", "x", "lets", "iff", "fnord", "T_9", "truth", "elsewhere"];
    names[numbers.next(names.len() as u64) as usize].to_string()
}

fn some_operator(numbers: &mut Numbers) -> Token {
    match numbers.next(8) {
        0 => Token::Plus,
        1 => Token::Minus,
        2 => Token::Asterisk,
        3 => Token::Slash,
        4 => Token::Lt,
        5 => Token::Gt,
        6 => Token::Eq,
        _ => Token::NotEq,
    }
}

fn some_expressions(numbers: &mut Numbers, depth: u32) -> Vec<Expression> {
    let count = numbers.next(4);
    (0..count).map(|_| some_expression(numbers, depth)).collect()
}

fn some_grouped(numbers: &mut Numbers, depth: u32) -> Expression {
    match numbers.next(3) {
        0 => Expression::Prefix(
            if numbers.next(2) == 0 { Token::Bang } else { Token::Minus },
            Box::new(some_expression(numbers, depth)),
        ),
        1 => Expression::Infix(
            some_operator(numbers),
            Box::new(some_expression(numbers, depth)),
            Box::new(some_expression(numbers, depth)),
        ),
        _ => Expression::Index(
            Box::new(some_expression(numbers, depth)),
            Box::new(some_expression(numbers, depth)),
        ),
    }
}

fn some_expression(numbers: &mut Numbers, depth: u32) -> Expression {
    let kinds = if depth == 0 { 4 } else { 12 };
    match numbers.next(kinds) {
        0 => Expression::Identifier(some_name(numbers)),
        1 => Expression::Lit(Literal::Integer(match numbers.next(4) {
            0 => 0,
            1 => i64::MAX,
            _ => numbers.next(1000) as i64,
        })),
        2 => Expression::Lit(Literal::Boolean(numbers.next(2) == 0)),
        3 => Expression::Lit(Literal::String(
            ["", "a b", "let x = 1;", "\u{e9}\n(", "1"][numbers.next(5) as usize].to_string(),
        )),
        4 => Expression::Lit(Literal::Array(some_expressions(numbers, depth - 1))),
        5 => {
            let count = numbers.next(3);
            Expression::Lit(Literal::Hash(
                (0..count)
                    .map(|_| (some_expression(numbers, depth - 1), some_expression(numbers, depth - 1)))
                    .collect(),
            ))
        }
        6 | 7 | 8 => some_grouped(numbers, depth - 1),
        9 => Expression::If(
            Box::new(some_grouped(numbers, depth - 1)),
            some_block(numbers, depth - 1),
            if numbers.next(2) == 0 { Some(some_block(numbers, depth - 1)) } else { None },
        ),
        10 => {
            let count = numbers.next(3);
            Expression::Fn(
                (0..count).map(|_| some_name(numbers)).collect(),
                some_block(numbers, depth - 1),
            )
        }
        _ => Expression::Call(
            Box::new(some_expression(numbers, depth - 1)),
            some_expressions(numbers, depth - 1),
        ),
    }
}

fn first_token(expression: &Expression) -> Token {
    match expression {
        Expression::Identifier(name) => Token::Ident(name.clone()),
        Expression::Lit(Literal::Integer(value)) => Token::Int(*value),
        Expression::Lit(Literal::Boolean(true)) => Token::True,
        Expression::Lit(Literal::Boolean(false)) => Token::False,
        Expression::Lit(Literal::String(value)) => Token::String(value.clone()),
        Expression::Lit(Literal::Array(_)) => Token::LBracket,
        Expression::Lit(Literal::Hash(_)) => Token::LBrace,
        Expression::Prefix(_, _) | Expression::Infix(_, _, _) | Expression::Index(_, _) => {
            Token::LParen
        }
        Expression::If(_, _, _) => Token::If,
        Expression::Fn(_, _) => Token::Function,
        Expression::Call(function, _) => first_token(function),
    }
}

fn may_follow(before: &Statement, after: &Statement) -> bool {
    let expression = match before {
        Statement::Expr(expression) => expression,
        _ => return true,
    };
    let first = match after {
        Statement::Let(_, _) => Token::Let,
        Statement::Return(_) => Token::Return,
        Statement::Expr(expression) => first_token(expression),
    };
    if first == Token::LParen || first == Token::LBracket {
        return false;
    }
    let opens = matches!(first, Token::String(_)) || first == Token::LBrace;
    match expression {
        Expression::Identifier(_) | Expression::Lit(Literal::Boolean(_)) => opens,
        Expression::Lit(Literal::Integer(_)) => !matches!(first, Token::Int(_)),
        _ => true,
    }
}

fn some_statement(numbers: &mut Numbers, depth: u32) -> Statement {
    match numbers.next(4) {
        0 => Statement::Let(some_name(numbers), some_expression(numbers, depth)),
        1 => Statement::Return(some_expression(numbers, depth)),
        _ => Statement::Expr(some_expression(numbers, depth)),
    }
}

fn some_block(numbers: &mut Numbers, depth: u32) -> Vec<Statement> {
    let count = numbers.next(4);
    let mut block: Vec<Statement> = Vec::new();
    while (block.len() as u64) < count {
        let statement = some_statement(numbers, depth);
        if block.last().map_or(true, |last| may_follow(last, &statement)) {
            block.push(statement);
        }
    }
    block
}

#[test]
fn programs_of_the_class_parse_back_from_their_text() {
    let mut numbers = Numbers(2024);
    let mut compound = 0;
    for round in 0..3000 {
        let program = Node::Program(some_block(&mut numbers, 1 + (round % 4)));
        let text = program.to_string();
        assert!(literals_in_range(&text));
        if text.len() > 40 {
            compound += 1;
        }
        match parse(&text) {
            Ok(parsed) => assert_eq!(parsed, program, "through {:?}", text),
            Err(e) => panic!("{:?} does not parse: {}", text, e.to_string()),
        }
    }
    assert!(compound > 500);
}

#[test]
fn statements_that_may_not_follow_do_not_parse_back() {
    let mut numbers = Numbers(7);
    let mut failures = 0;
    let mut pairs = 0;
    while pairs < 500 {
        let before = some_statement(&mut numbers, 2);
        let after = some_statement(&mut numbers, 2);
        if may_follow(&before, &after) {
            continue;
        }
        pairs += 1;
        let program = Node::Program(vec![before, after]);
        let text = program.to_string();
        if parse(&text).ok() != Some(program) {
            failures += 1;
        }
    }
    assert_eq!(failures, pairs);
}
