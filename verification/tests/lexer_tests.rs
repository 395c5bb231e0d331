use minic::lexer::{consume_while, identifier_text, lex, LexError, Token};

fn tokens(source: &str) -> Vec<Token> {
    match lex(source) {
        Ok(tokens) => tokens,
        Err(e) => panic!("lexing {:?} failed: {:?}", source, e),
    }
}

#[test]
fn lex_empty_source() {
    assert_eq!(tokens(""), vec![]);
    assert_eq!(tokens(" \n\t "), vec![]);
}

#[test]
fn lex_return_two() {
    assert_eq!(
        tokens("int main() {\n    return 2;\n}\n"),
        vec![
            Token::IntKeyword,
            Token::Identifier(String::from("main")),
            Token::OpenParen,
            Token::CloseParen,
            Token::OpenBrace,
            Token::ReturnKeyword,
            Token::IntegerLiteral(2),
            Token::Semicolon,
            Token::CloseBrace,
        ]
    );
}

#[test]
fn lex_single_character_operators() {
    assert_eq!(
        tokens("- ~ ! + * / % ^ & | < > ="),
        vec![
            Token::Negation,
            Token::BitwiseComplement,
            Token::LogicalNegation,
            Token::Addition,
            Token::Multiplication,
            Token::Division,
            Token::Remainder,
            Token::BitwiseXor,
            Token::BitwiseAnd,
            Token::BitwiseOr,
            Token::LessThan,
            Token::GreaterThan,
            Token::Assign,
        ]
    );
}

#[test]
fn lex_two_character_operators() {
    assert_eq!(
        tokens("-- && || << >> <= >= == !="),
        vec![
            Token::Decrement,
            Token::LogicalAnd,
            Token::LogicalOr,
            Token::LeftShift,
            Token::RightShift,
            Token::LessThanEqual,
            Token::GreaterThanEqual,
            Token::Equal,
            Token::NotEqual,
        ]
    );
}

#[test]
fn lex_prefers_two_characters_from_the_left() {
    assert_eq!(tokens("---"), vec![Token::Decrement, Token::Negation]);
    assert_eq!(tokens("<<="), vec![Token::LeftShift, Token::Assign]);
    assert_eq!(tokens("==="), vec![Token::Equal, Token::Assign]);
    assert_eq!(tokens("!=="), vec![Token::NotEqual, Token::Assign]);
    assert_eq!(tokens("&&&"), vec![Token::LogicalAnd, Token::BitwiseAnd]);
    assert_eq!(tokens(">>>"), vec![Token::RightShift, Token::GreaterThan]);
    assert_eq!(tokens("<"), vec![Token::LessThan]);
    assert_eq!(tokens("< ="), vec![Token::LessThan, Token::Assign]);
}

#[test]
fn lex_keywords_and_identifiers() {
    assert_eq!(
        tokens("int return int_ returned Int x1_y2 a"),
        vec![
            Token::IntKeyword,
            Token::ReturnKeyword,
            Token::Identifier(String::from("int_")),
            Token::Identifier(String::from("returned")),
            Token::Identifier(String::from("Int")),
            Token::Identifier(String::from("x1_y2")),
            Token::Identifier(String::from("a")),
        ]
    );
}

#[test]
fn lex_identifier_ends_at_other_characters() {
    assert_eq!(
        tokens("main(){"),
        vec![
            Token::Identifier(String::from("main")),
            Token::OpenParen,
            Token::CloseParen,
            Token::OpenBrace,
        ]
    );
    assert_eq!(tokens("int;"), vec![Token::IntKeyword, Token::Semicolon]);
}

#[test]
fn lex_number_followed_by_letters() {
    assert_eq!(
        tokens("123abc"),
        vec![Token::IntegerLiteral(123), Token::Identifier(String::from("abc"))]
    );
}

#[test]
fn lex_integer_literals() {
    assert_eq!(tokens("0"), vec![Token::IntegerLiteral(0)]);
    assert_eq!(tokens("007"), vec![Token::IntegerLiteral(7)]);
    assert_eq!(tokens("2147483647"), vec![Token::IntegerLiteral(2147483647)]);
    assert_eq!(tokens("00000000000000000000000012"), vec![Token::IntegerLiteral(12)]);
}

#[test]
fn lex_integer_literal_too_large_is_zero() {
    assert_eq!(tokens("2147483648"), vec![Token::IntegerLiteral(0)]);
    assert_eq!(tokens("99999999999999999999999999"), vec![Token::IntegerLiteral(0)]);
    assert_eq!(tokens("4294967297"), vec![Token::IntegerLiteral(0)]);
}

#[test]
fn lex_integer_literals_agree_with_std() {
    let samples = [
        "1", "9", "10", "99", "100", "2147483646", "2147483647", "2147483648", "2147483650",
        "21474836470", "3000000000", "0002147483647", "18446744073709551616",
    ];
    for sample in samples {
        let expected: i32 = sample.parse().unwrap_or(0);
        assert_eq!(tokens(sample), vec![Token::IntegerLiteral(expected)], "{}", sample);
    }
}

#[test]
fn lex_unknown_character() {
    match lex("int main() { return 2 @ 3; }") {
        Err(LexError::UnknownToken(c, pos)) => {
            assert_eq!(c, '@');
            assert_eq!(pos, 22);
        }
        other => panic!("unexpected result {:?}", other),
    }
}

#[test]
fn lex_unknown_character_at_start() {
    match lex("#include") {
        Err(LexError::UnknownToken(c, pos)) => {
            assert_eq!(c, '#');
            assert_eq!(pos, 0);
        }
        other => panic!("unexpected result {:?}", other),
    }
}

#[test]
fn lex_underscore_cannot_start_an_identifier() {
    match lex("a _b") {
        Err(LexError::UnknownToken(c, pos)) => {
            assert_eq!(c, '_');
            assert_eq!(pos, 2);
        }
        other => panic!("unexpected result {:?}", other),
    }
}

#[test]
fn lex_position_counts_characters() {
    // The two spaces before the letter are of three bytes each.
    match lex("\u{2003}\u{3000}x $") {
        Err(LexError::UnknownToken(c, pos)) => {
            assert_eq!(c, '$');
            assert_eq!(pos, 4);
        }
        other => panic!("unexpected result {:?}", other),
    }
}

#[test]
fn lex_letters_outside_ascii_are_unknown() {
    match lex("x \u{e9}") {
        Err(LexError::UnknownToken(c, pos)) => {
            assert_eq!(c, '\u{e9}');
            assert_eq!(pos, 2);
        }
        other => panic!("unexpected result {:?}", other),
    }
}

#[test]
fn lex_white_space_is_what_std_calls_white_space() {
    let mut buffer = [0u8; 4];
    for code in 0u32..=0x10ffff {
        if let Some(c) = char::from_u32(code) {
            let text: &str = c.encode_utf8(&mut buffer);
            let skipped = matches!(lex(text), Ok(ref found) if found.is_empty());
            assert_eq!(skipped, c.is_whitespace(), "U+{:04X}", code);
        }
    }
}

#[test]
fn lex_io_error_converts() {
    let error = std::io::Error::new(std::io::ErrorKind::NotFound, "missing");
    match LexError::from(error) {
        LexError::IoError(inner) => assert_eq!(inner.kind(), std::io::ErrorKind::NotFound),
        other => panic!("unexpected error {:?}", other),
    }
}

#[test]
fn consume_while_takes_the_longest_run() {
    let chars: Vec<char> = "abc123 def".chars().collect();
    assert_eq!(consume_while(&chars, 0, |c: char| c.is_ascii_alphabetic()), 3);
    assert_eq!(consume_while(&chars, 0, |c: char| c.is_ascii_alphanumeric()), 6);
    assert_eq!(consume_while(&chars, 3, |c: char| c.is_ascii_digit()), 6);
    assert_eq!(consume_while(&chars, 6, |c: char| c.is_ascii_digit()), 6);
    assert_eq!(consume_while(&chars, 7, |_c: char| true), 10);
    assert_eq!(consume_while(&chars, 10, |_c: char| true), 10);
}

#[test]
fn token_equality() {
    assert_eq!(Token::Identifier(String::from("a")), Token::Identifier(String::from("a")));
    assert_ne!(Token::Identifier(String::from("a")), Token::Identifier(String::from("b")));
    assert_ne!(Token::IntegerLiteral(1), Token::IntegerLiteral(2));
    assert_ne!(Token::IntKeyword, Token::ReturnKeyword);
    assert_ne!(Token::Identifier(String::from("int")), Token::IntKeyword);
    assert_eq!(Token::LeftShift, Token::LeftShift);
}

#[test]
fn token_descriptions() {
    assert_eq!(Token::OpenBrace.describe(), "OpenBrace");
    assert_eq!(Token::Semicolon.describe(), "Semicolon");
    assert_eq!(Token::GreaterThanEqual.describe(), "GreaterThanEqual");
    assert_eq!(Token::IntegerLiteral(42).describe(), "IntegerLiteral(42)");
    assert_eq!(Token::IntegerLiteral(-7).describe(), "IntegerLiteral(-7)");
    assert_eq!(Token::IntegerLiteral(i32::MIN).describe(), "IntegerLiteral(-2147483648)");
    assert_eq!(Token::Identifier(String::from("main")).describe(), "Identifier(\"main\")");
}

#[test]
fn token_descriptions_are_the_debug_text() {
    let samples = vec![
        Token::OpenBrace,
        Token::CloseBrace,
        Token::OpenParen,
        Token::CloseParen,
        Token::Semicolon,
        Token::IntKeyword,
        Token::ReturnKeyword,
        Token::Identifier(String::from("x")),
        Token::Identifier(String::from("a\"b\\c\n\u{e9}")),
        Token::IntegerLiteral(0),
        Token::IntegerLiteral(i32::MAX),
        Token::IntegerLiteral(i32::MIN),
        Token::Negation,
        Token::BitwiseComplement,
        Token::LogicalNegation,
        Token::Addition,
        Token::Multiplication,
        Token::Division,
        Token::Decrement,
        Token::Remainder,
        Token::BitwiseXor,
        Token::BitwiseAnd,
        Token::BitwiseOr,
        Token::LogicalAnd,
        Token::LogicalOr,
        Token::LeftShift,
        Token::RightShift,
        Token::LessThan,
        Token::GreaterThan,
        Token::LessThanEqual,
        Token::GreaterThanEqual,
        Token::NotEqual,
        Token::Equal,
        Token::Assign,
    ];
    for token in samples {
        assert_eq!(token.describe(), format!("{:?}", token));
    }
}

#[test]
fn identifier_text_wraps_the_quoted_name() {
    assert_eq!(identifier_text("\"x\""), "Identifier(\"x\")");
    assert_eq!(identifier_text(""), "Identifier()");
}
