use monkey::{Lexer, Token, TokenType};
use monkey::TokenType::{
    Asterisk, Assign, Bang, Comma, Else, Eof, False, Function, Gt, Ident, If, Int, Lbrace, Let,
    Lparen, Lt, Minus, NotEq, Plus, Rbrace, Return, Rparen, Semicolon, Slash, True,
};

#[test]
fn test_next_token() {
    let input = String::from(
        r#"let five = 5;
let ten = 10;

let add = fn(x, y) {
    x + y;
};

let result = add(five, ten);
!-/*5;
5 < 10 > 5;

if (5 < 10) {
    return true;
} else {
    return false
}

10 == 10;
10 != 9;"#,
    );

    let tests = [
        Token::new(Let, "let"),
        Token::new(Ident, "five"),
        Token::new(Assign, "="),
        Token::new(Int, "5"),
        Token::new(Semicolon, ";"),
        Token::new(Let, "let"),
        Token::new(Ident, "ten"),
        Token::new(Assign, "="),
        Token::new(Int, "10"),
        Token::new(Semicolon, ";"),
        Token::new(Let, "let"),
        Token::new(Ident, "add"),
        Token::new(Assign, "="),
        Token::new(Function, "fn"),
        Token::new(Lparen, "("),
        Token::new(Ident, "x"),
        Token::new(Comma, ","),
        Token::new(Ident, "y"),
        Token::new(Rparen, ")"),
        Token::new(Lbrace, "{"),
        Token::new(Ident, "x"),
        Token::new(Plus, "+"),
        Token::new(Ident, "y"),
        Token::new(Semicolon, ";"),
        Token::new(Rbrace, "}"),
        Token::new(Semicolon, ";"),
        Token::new(Let, "let"),
        Token::new(Ident, "result"),
        Token::new(Assign, "="),
        Token::new(Ident, "add"),
        Token::new(Lparen, "("),
        Token::new(Ident, "five"),
        Token::new(Comma, ","),
        Token::new(Ident, "ten"),
        Token::new(Rparen, ")"),
        Token::new(Semicolon, ";"),
        Token::new(Bang, "!"),
        Token::new(Minus, "-"),
        Token::new(Slash, "/"),
        Token::new(Asterisk, "*"),
        Token::new(Int, "5"),
        Token::new(Semicolon, ";"),
        Token::new(Int, "5"),
        Token::new(Lt, "<"),
        Token::new(Int, "10"),
        Token::new(Gt, ">"),
        Token::new(Int, "5"),
        Token::new(Semicolon, ";"),
        Token::new(If, "if"),
        Token::new(Lparen, "("),
        Token::new(Int, "5"),
        Token::new(Lt, "<"),
        Token::new(Int, "10"),
        Token::new(Rparen, ")"),
        Token::new(Lbrace, "{"),
        Token::new(Return, "return"),
        Token::new(True, "true"),
        Token::new(Semicolon, ";"),
        Token::new(Rbrace, "}"),
        Token::new(Else, "else"),
        Token::new(Lbrace, "{"),
        Token::new(Return, "return"),
        Token::new(False, "false"),
        Token::new(Rbrace, "}"),
        Token::new(Int, "10"),
        Token::new(TokenType::Eq, "=="),
        Token::new(Int, "10"),
        Token::new(Semicolon, ";"),
        Token::new(Int, "10"),
        Token::new(NotEq, "!="),
        Token::new(Int, "9"),
        Token::new(Semicolon, ";"),
        Token::new(Eof, ""),
    ];

    let mut lexer = Lexer::new(input);

    for test in tests.iter() {
        let token = lexer.next_token();
        assert_eq!(token, *test);
    }
}

#[test]
fn end_of_input_repeats() {
    let mut lexer = Lexer::new(String::from("x"));
    assert_eq!(lexer.next_token(), Token::new(TokenType::Ident, "x"));
    for _ in 0..3 {
        assert_eq!(lexer.next_token(), Token::new(TokenType::Eof, ""));
    }
}

#[test]
fn empty_and_blank_input_is_end_of_input() {
    let mut lexer = Lexer::new(String::new());
    assert_eq!(lexer.next_token(), Token::new(TokenType::Eof, ""));
    let mut lexer = Lexer::new(String::from(" \t\r\n "));
    assert_eq!(lexer.next_token(), Token::new(TokenType::Eof, ""));
}

#[test]
fn unknown_characters_are_illegal_tokens() {
    let mut lexer = Lexer::new(String::from("@ x#"));
    assert_eq!(lexer.next_token(), Token::new(TokenType::Illegal, "@"));
    assert_eq!(lexer.next_token(), Token::new(TokenType::Ident, "x"));
    assert_eq!(lexer.next_token(), Token::new(TokenType::Illegal, "#"));
    assert_eq!(lexer.next_token(), Token::new(TokenType::Eof, ""));
}

#[test]
fn longest_match_for_words_numbers_and_operators() {
    let mut lexer = Lexer::new(String::from("fnx _a1 123abc == =! !="));
    assert_eq!(lexer.next_token(), Token::new(TokenType::Ident, "fnx"));
    assert_eq!(lexer.next_token(), Token::new(TokenType::Ident, "_a1"));
    assert_eq!(lexer.next_token(), Token::new(TokenType::Int, "123"));
    assert_eq!(lexer.next_token(), Token::new(TokenType::Ident, "abc"));
    assert_eq!(lexer.next_token(), Token::new(TokenType::Eq, "=="));
    assert_eq!(lexer.next_token(), Token::new(TokenType::Assign, "="));
    assert_eq!(lexer.next_token(), Token::new(TokenType::Bang, "!"));
    assert_eq!(lexer.next_token(), Token::new(TokenType::NotEq, "!="));
    assert_eq!(lexer.next_token(), Token::new(TokenType::Eof, ""));
}

#[test]
fn identical_input_gives_identical_tokens() {
    let src = "let add = fn(a, b) { a + b }; add(1, 2) != 3";
    let mut a = Lexer::new(String::from(src));
    let mut b = Lexer::new(String::from(src));
    loop {
        let ta = a.next_token();
        let tb = b.next_token();
        assert_eq!(ta, tb);
        if ta.token_type() == TokenType::Eof {
            break;
        }
    }
}

#[test]
fn tokenize_ends_with_one_end_of_input_token() {
    let tokens = monkey::tokenize(String::from("let x = 10 != 9;"));
    let kinds: Vec<TokenType> = tokens.iter().map(|t| t.token_type()).collect();
    assert_eq!(
        kinds,
        vec![Let, Ident, Assign, Int, NotEq, Int, Semicolon, Eof]
    );
    assert_eq!(tokens[4].literal(), "!=");
    assert_eq!(monkey::tokenize(String::new()), vec![Token::new(Eof, "")]);
}

#[test]
fn underscore_starts_but_does_not_continue_a_word() {
    let mut lexer = Lexer::new(String::from("a_b _ x1_"));
    assert_eq!(lexer.next_token(), Token::new(Ident, "a"));
    assert_eq!(lexer.next_token(), Token::new(Ident, "_b"));
    assert_eq!(lexer.next_token(), Token::new(Ident, "_"));
    assert_eq!(lexer.next_token(), Token::new(Ident, "x1"));
    assert_eq!(lexer.next_token(), Token::new(Ident, "_"));
    assert_eq!(lexer.next_token(), Token::new(Eof, ""));
}
