use monkey_rs::lexer::Lexer;
use monkey_rs::token::Token;

fn verify_expected_next_token(expected: &[Token], lexer: &mut Lexer) {
    for (i, expected_tk) in expected.iter().enumerate() {
        let token: Token = lexer.next_token();
        assert_eq!(
            token,
            expected_tk.clone(),
            "expected[{}] - wrong token. expected={:?}, actual={:?}",
            i,
            expected_tk,
            token
        );
    }
}

#[test]
fn test_unichar_next_token() {
    let input = "=+(){},;";
    let mut l = Lexer::new(input);

    let expected: Vec<Token> = vec![
        Token::Assign,
        Token::Plus,
        Token::LParen,
        Token::RParen,
        Token::LBrace,
        Token::RBrace,
        Token::Comma,
        Token::Semicolon,
        Token::Eof,
    ];

    verify_expected_next_token(&expected, &mut l);
}

#[test]
fn mixed_chars() {
    let input = "let five = 5; \
                 let ten = 10; \
                 \
                 let add = fn(x, y) { \
                     x + y; \
                 }; \
        \
        let result = add(five, ten); \
        !-/*5; \
        5 < 10 > 5;
        \
        if (5 < 10) { \
            return true; \
        } else { \
            return false; \
        } \
        \
        10 == 10; \
        10 != 9;";

    let mut l = Lexer::new(input);
    let expected: Vec<Token> = vec![
        Token::Let,
        Token::Ident("five".to_string()),
        Token::Assign,
        Token::Int(5),
        Token::Semicolon,
        Token::Let,
        Token::Ident("ten".to_string()),
        Token::Assign,
        Token::Int(10),
        Token::Semicolon,
        Token::Let,
        Token::Ident("add".to_string()),
        Token::Assign,
        Token::Function,
        Token::LParen,
        Token::Ident("x".to_string()),
        Token::Comma,
        Token::Ident("y".to_string()),
        Token::RParen,
        Token::LBrace,
        Token::Ident("x".to_string()),
        Token::Plus,
        Token::Ident("y".to_string()),
        Token::Semicolon,
        Token::RBrace,
        Token::Semicolon,
        Token::Let,
        Token::Ident("result".to_string()),
        Token::Assign,
        Token::Ident("add".to_string()),
        Token::LParen,
        Token::Ident("five".to_string()),
        Token::Comma,
        Token::Ident("ten".to_string()),
        Token::RParen,
        Token::Semicolon,
        Token::Bang,
        Token::Minus,
        Token::Slash,
        Token::Asterisk,
        Token::Int(5),
        Token::Semicolon,
        Token::Int(5),
        Token::Lt,
        Token::Int(10),
        Token::Gt,
        Token::Int(5),
        Token::Semicolon,
        Token::If,
        Token::LParen,
        Token::Int(5),
        Token::Lt,
        Token::Int(10),
        Token::RParen,
        Token::LBrace,
        Token::Return,
        Token::True,
        Token::Semicolon,
        Token::RBrace,
        Token::Else,
        Token::LBrace,
        Token::Return,
        Token::False,
        Token::Semicolon,
        Token::RBrace,
        Token::Int(10),
        Token::Eq,
        Token::Int(10),
        Token::Semicolon,
        Token::Int(10),
        Token::NotEq,
        Token::Int(9),
        Token::Semicolon,
        Token::Eof,
    ];

    verify_expected_next_token(&expected, &mut l);
}
