use tarzan::lexer;
use tarzan::token::Token;

#[test]
fn test_lexer_complete() {
    let source_code = "
    let five = 5;
    let ten = 10;

    let add = fn (x, y)
    {
        x + y;
    };

    let result = add(five, ten);
    !-/*5;
    5 < 10 > 5;

    if (5 < 10) {
        return true;
    } else {
        return false;
    }

    10 == 10;
    10 != 9;".into();

    let expected_tokens = [
        Token::Let,
        Token::Identifier { literal: "five".into() },
        Token::Assign,
        Token::Int { literal: "5".into() },
        Token::Semicolon,
        Token::Let,
        Token::Identifier { literal: "ten".into() },
        Token::Assign,
        Token::Int { literal: "10".into() },
        Token::Semicolon,
        Token::Let,
        Token::Identifier { literal: "add".into() },
        Token::Assign,
        Token::Function,
        Token::LeftParenthesis,
        Token::Identifier { literal: "x".into() },
        Token::Comma,
        Token::Identifier { literal: "y".into() },
        Token::RightParenthesis,
        Token::LeftBracket,
        Token::Identifier { literal: "x".into() },
        Token::Plus,
        Token::Identifier { literal: "y".into() },
        Token::Semicolon,
        Token::RightBracket,
        Token::Semicolon,
        Token::Let,
        Token::Identifier { literal: "result".into() },
        Token::Assign,
        Token::Identifier { literal: "add".into() },
        Token::LeftParenthesis,
        Token::Identifier { literal: "five".into() },
        Token::Comma,
        Token::Identifier { literal: "ten".into() },
        Token::RightParenthesis,
        Token::Semicolon,
        Token::Bang,
        Token::Minus,
        Token::Slash,
        Token::Asterisk,
        Token::Int { literal: "5".into() },
        Token::Semicolon,
        Token::Int { literal: "5".into() },
        Token::LessThan,
        Token::Int { literal: "10".into() },
        Token::GreaterThan,
        Token::Int { literal: "5".into() },
        Token::Semicolon,
        Token::If,
        Token::LeftParenthesis,
        Token::Int { literal: "5".into() },
        Token::LessThan,
        Token::Int { literal: "10".into() },
        Token::RightParenthesis,
        Token::LeftBracket,
        Token::Return,
        Token::True,
        Token::Semicolon,
        Token::RightBracket,
        Token::Else,
        Token::LeftBracket,
        Token::Return,
        Token::False,
        Token::Semicolon,
        Token::RightBracket,
        Token::Int { literal: "10".into() },
        Token::Equal,
        Token::Int { literal: "10".into() },
        Token::Semicolon,
        Token::Int { literal: "10".into() },
        Token::NotEqual,
        Token::Int { literal: "9".into() },
        Token::Semicolon,
        Token::Eof
    ];

    let mut lexer = lexer::new(source_code);
    for expected_token in expected_tokens {
        let token = lexer.next_token().unwrap();
        assert_eq!(expected_token, token)
    }
}

fn drain(source: &str) -> Vec<Token> {
    let mut lexer = lexer::new(source.to_string());
    let mut tokens = Vec::new();
    while let Ok(token) = lexer.next_token() {
        tokens.push(token);
    }
    tokens
}

fn identifier(text: &str) -> Token {
    Token::Identifier { literal: text.to_string() }
}

fn integer(text: &str) -> Token {
    Token::Int { literal: text.to_string() }
}

#[test]
fn end_of_input_comes_once_and_then_every_call_fails() {
    let mut lexer = lexer::new("let x = 5;".to_string());
    let mut seen = Vec::new();
    loop {
        let token = lexer.next_token().unwrap();
        let done = token == Token::Eof;
        seen.push(token);
        if done {
            break;
        }
    }
    assert_eq!(
        seen,
        vec![Token::Let, identifier("x"), Token::Assign, integer("5"), Token::Semicolon, Token::Eof]
    );
    assert_eq!(lexer.next_token(), Err("source code already tokenized"));
    assert_eq!(lexer.next_token(), Err("source code already tokenized"));
}

#[test]
fn empty_source_is_end_of_input() {
    let mut lexer = lexer::new(String::new());
    assert_eq!(lexer.next_token(), Ok(Token::Eof));
    assert!(lexer.next_token().is_err());
}

#[test]
fn blanks_alone_are_end_of_input() {
    assert_eq!(drain(" \t\r\n  "), vec![Token::Eof]);
}

#[test]
fn blanks_separate_tokens_and_are_not_tokens() {
    assert_eq!(drain("\n\ta \r b  "), vec![identifier("a"), identifier("b"), Token::Eof]);
}

#[test]
fn form_feed_is_no_blank() {
    assert_eq!(drain("a\u{c}b"), vec![identifier("a"), Token::Illegal, identifier("b"), Token::Eof]);
}

#[test]
fn every_single_character_token() {
    assert_eq!(
        drain("()+-,;{}/*<>=!"),
        vec![
            Token::LeftParenthesis,
            Token::RightParenthesis,
            Token::Plus,
            Token::Minus,
            Token::Comma,
            Token::Semicolon,
            Token::LeftBracket,
            Token::RightBracket,
            Token::Slash,
            Token::Asterisk,
            Token::LessThan,
            Token::GreaterThan,
            Token::Assign,
            Token::Bang,
            Token::Eof,
        ]
    );
}

#[test]
fn two_character_operators_need_both_characters() {
    assert_eq!(drain("=="), vec![Token::Equal, Token::Eof]);
    assert_eq!(drain("!="), vec![Token::NotEqual, Token::Eof]);
    assert_eq!(drain("="), vec![Token::Assign, Token::Eof]);
    assert_eq!(drain("!"), vec![Token::Bang, Token::Eof]);
    assert_eq!(drain("= ="), vec![Token::Assign, Token::Assign, Token::Eof]);
    assert_eq!(drain("==="), vec![Token::Equal, Token::Assign, Token::Eof]);
    assert_eq!(drain("!=="), vec![Token::NotEqual, Token::Assign, Token::Eof]);
    assert_eq!(drain("=!"), vec![Token::Assign, Token::Bang, Token::Eof]);
    assert_eq!(drain("a=b"), vec![identifier("a"), Token::Assign, identifier("b"), Token::Eof]);
}

#[test]
fn every_keyword_has_its_token() {
    assert_eq!(
        drain("if else fn let return true false"),
        vec![
            Token::If,
            Token::Else,
            Token::Function,
            Token::Let,
            Token::Return,
            Token::True,
            Token::False,
            Token::Eof,
        ]
    );
}

#[test]
fn a_keyword_inside_a_word_is_no_keyword() {
    assert_eq!(
        drain("lets iff fnx return1 truefalse If"),
        vec![
            identifier("lets"),
            identifier("iff"),
            identifier("fnx"),
            identifier("return1"),
            identifier("truefalse"),
            identifier("If"),
            Token::Eof,
        ]
    );
}

#[test]
fn identifiers_come_back_as_written() {
    for text in ["a", "foobar", "x1", "camelCase9", "Z", "lettuce", "é", "naïve", "日本語"] {
        assert_eq!(drain(text), vec![identifier(text), Token::Eof], "{}", text);
    }
}

#[test]
fn integers_come_back_as_written() {
    for text in ["0", "5", "10", "838383", "007", "99999999999999999999999", "1a2", "9lives", "٣"] {
        assert_eq!(drain(text), vec![integer(text), Token::Eof], "{}", text);
    }
}

#[test]
fn a_word_is_as_long_as_it_can_be() {
    assert_eq!(drain("ab12+cd"), vec![identifier("ab12"), Token::Plus, identifier("cd"), Token::Eof]);
    assert_eq!(drain("12ab;"), vec![integer("12ab"), Token::Semicolon, Token::Eof]);
}

#[test]
fn unknown_characters_are_illegal_tokens() {
    assert_eq!(drain("@"), vec![Token::Illegal, Token::Eof]);
    assert_eq!(
        drain("a_b"),
        vec![identifier("a"), Token::Illegal, identifier("b"), Token::Eof]
    );
    assert_eq!(drain("\"x\""), vec![Token::Illegal, identifier("x"), Token::Illegal, Token::Eof]);
    assert_eq!(drain("1.5"), vec![integer("1"), Token::Illegal, integer("5"), Token::Eof]);
}

#[test]
fn ascii_characters_are_classed_as_the_standard_library_classes_them() {
    for code in 0u8..128 {
        let c = code as char;
        let tokens = drain(&c.to_string());
        let expected = match c {
            ' ' | '\t' | '\n' | '\r' => vec![Token::Eof],
            '(' => vec![Token::LeftParenthesis, Token::Eof],
            ')' => vec![Token::RightParenthesis, Token::Eof],
            '+' => vec![Token::Plus, Token::Eof],
            '-' => vec![Token::Minus, Token::Eof],
            ',' => vec![Token::Comma, Token::Eof],
            ';' => vec![Token::Semicolon, Token::Eof],
            '{' => vec![Token::LeftBracket, Token::Eof],
            '}' => vec![Token::RightBracket, Token::Eof],
            '/' => vec![Token::Slash, Token::Eof],
            '*' => vec![Token::Asterisk, Token::Eof],
            '<' => vec![Token::LessThan, Token::Eof],
            '>' => vec![Token::GreaterThan, Token::Eof],
            '=' => vec![Token::Assign, Token::Eof],
            '!' => vec![Token::Bang, Token::Eof],
            '0'..='9' => vec![integer(&c.to_string()), Token::Eof],
            'a'..='z' | 'A'..='Z' => vec![identifier(&c.to_string()), Token::Eof],
            _ => vec![Token::Illegal, Token::Eof],
        };
        assert_eq!(tokens, expected, "character {}", code);
        assert_eq!(c.is_alphanumeric(), c.is_ascii_alphanumeric(), "character {}", code);
        assert_eq!(c.is_numeric(), c.is_ascii_digit(), "character {}", code);
    }
}

#[test]
fn lexing_the_same_text_twice_gives_the_same_tokens() {
    let source = "let add = fn(x, y) { x + y; }; if (1 != 2) { return !true; } @ 1a2";
    let first = drain(source);
    let second = drain(source);
    assert_eq!(first, second);
    assert_eq!(first.len(), 31);
    assert_eq!(first.last(), Some(&Token::Eof));
    assert_eq!(first.iter().filter(|token| **token == Token::Eof).count(), 1);
}

#[test]
fn test_lexer_complete_then_fails() {
    let mut lexer = lexer::new("!-/*5;\n5 < 10 > 5;".to_string());
    let expected = vec![
        Token::Bang,
        Token::Minus,
        Token::Slash,
        Token::Asterisk,
        integer("5"),
        Token::Semicolon,
        integer("5"),
        Token::LessThan,
        integer("10"),
        Token::GreaterThan,
        integer("5"),
        Token::Semicolon,
        Token::Eof,
    ];
    for token in expected {
        assert_eq!(lexer.next_token(), Ok(token));
    }
    assert!(lexer.next_token().is_err());
}
