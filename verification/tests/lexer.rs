use interpreter::lexer::Lexer;
use interpreter::tokens::Token;

#[test]
fn next_token() {
    let input = String::from("=+(){}!,;");
    let tokens = vec![
        Token::Assign,
        Token::Plus,
        Token::LParen,
        Token::RParen,
        Token::LBrace,
        Token::RBrace,
        Token::Bang,
        Token::Comma,
        Token::SemiColon,
        Token::Eof,
    ];

    let mut l = Lexer::new(&input);

    for token in tokens {
        let tok = l.next_token();
        assert_eq!(tok, token);
    }
}

#[test]
fn next_token2() {
    let input = String::from(
        "\
let five = 5;
let ten = 10;

let add = fn(x, y) {
    x + y;
};
let result = add(five, ten);",
    );

    let tokens = vec![
        Token::Let,
        Token::Ident(String::from("five")),
        Token::Assign,
        Token::Int(String::from("5")),
        Token::SemiColon,
        Token::Let,
        Token::Ident(String::from("ten")),
        Token::Assign,
        Token::Int(String::from("10")),
        Token::SemiColon,
        Token::Let,
        Token::Ident(String::from("add")),
        Token::Assign,
        Token::Function,
        Token::LParen,
        Token::Ident(String::from("x")),
        Token::Comma,
        Token::Ident(String::from("y")),
        Token::RParen,
        Token::LBrace,
        Token::Ident(String::from("x")),
        Token::Plus,
        Token::Ident(String::from("y")),
        Token::SemiColon,
        Token::RBrace,
        Token::SemiColon,
        Token::Let,
        Token::Ident(String::from("result")),
        Token::Assign,
        Token::Ident(String::from("add")),
        Token::LParen,
        Token::Ident(String::from("five")),
        Token::Comma,
        Token::Ident(String::from("ten")),
        Token::RParen,
        Token::SemiColon,
        Token::Eof,
    ];

    let mut l = Lexer::new(&input);

    for token in tokens {
        let tok = l.next_token();
        println!("{:?}", tok);
        assert_eq!(tok, token);
    }
}

#[test]
fn next_token3() {
    let input = String::from(
        "\
!-/*5;
5 < 10 > 5;",
    );

    let tokens = vec![
        Token::Bang,
        Token::Minus,
        Token::Slash,
        Token::Asterisk,
        Token::Int(String::from("5")),
        Token::SemiColon,
        Token::Int(String::from("5")),
        Token::Lt,
        Token::Int(String::from("10")),
        Token::Gt,
        Token::Int(String::from("5")),
        Token::SemiColon,
        Token::Eof,
    ];

    let mut l = Lexer::new(&input);

    for token in tokens {
        let tok = l.next_token();
        println!("{:?}", tok);
        assert_eq!(tok, token);
    }
}

#[test]
fn next_token4() {
    let input = String::from(
        "\
if (5 < 10) {
    return true;
} else {
    return false;
}",
    );

    let tokens = vec![
        Token::If,
        Token::LParen,
        Token::Int(String::from("5")),
        Token::Lt,
        Token::Int(String::from("10")),
        Token::RParen,
        Token::LBrace,
        Token::Return,
        Token::True,
        Token::SemiColon,
        Token::RBrace,
        Token::Else,
        Token::LBrace,
        Token::Return,
        Token::False,
        Token::SemiColon,
        Token::RBrace,
        Token::Eof,
    ];

    let mut l = Lexer::new(&input);

    for token in tokens {
        let tok = l.next_token();
        println!("{:?}", tok);
        assert_eq!(tok, token);
    }
}

#[test]
fn next_token5() {
    let input = String::from(
        "\
10 == 10;
10 != 9;",
    );

    let tokens = vec![
        Token::Int(String::from("10")),
        Token::Eq,
        Token::Int(String::from("10")),
        Token::SemiColon,
        Token::Int(String::from("10")),
        Token::NotEq,
        Token::Int(String::from("9")),
        Token::SemiColon,
        Token::Eof,
    ];

    let mut l = Lexer::new(&input);

    for token in tokens {
        let tok = l.next_token();
        println!("{:?}", tok);
        assert_eq!(tok, token);
    }
}

#[test]
fn eof_is_idempotent() {
    let input = String::from("x;");
    let mut l = Lexer::new(&input);
    assert_eq!(l.next_token(), Token::Ident(String::from("x")));
    assert_eq!(l.next_token(), Token::SemiColon);
    for _ in 0..5 {
        assert_eq!(l.next_token(), Token::Eof);
    }
}

#[test]
fn empty_input_yields_eof() {
    let input = String::from("");
    let mut l = Lexer::new(&input);
    assert_eq!(l.next_token(), Token::Eof);
    assert_eq!(l.next_token(), Token::Eof);
}

#[test]
fn illegal_character() {
    let input = String::from("a @ b");
    let mut l = Lexer::new(&input);
    assert_eq!(l.next_token(), Token::Ident(String::from("a")));
    assert_eq!(l.next_token(), Token::Illegal(String::from("@")));
    assert_eq!(l.next_token(), Token::Ident(String::from("b")));
    assert_eq!(l.next_token(), Token::Eof);
}

#[test]
fn keyword_lookup() {
    assert_eq!(Token::lookup_ident(&String::from("fn")), Token::Function);
    assert_eq!(Token::lookup_ident(&String::from("let")), Token::Let);
    assert_eq!(Token::lookup_ident(&String::from("true")), Token::True);
    assert_eq!(Token::lookup_ident(&String::from("false")), Token::False);
    assert_eq!(Token::lookup_ident(&String::from("if")), Token::If);
    assert_eq!(Token::lookup_ident(&String::from("else")), Token::Else);
    assert_eq!(Token::lookup_ident(&String::from("return")), Token::Return);
    assert_eq!(
        Token::lookup_ident(&String::from("letter")),
        Token::Ident(String::from("letter"))
    );
}
