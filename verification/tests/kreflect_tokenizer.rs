use koi::kreflect::tokenizer::{tokenize, try_tokenize, Span, Token, TokenPosition};

fn id(start: usize, end: usize) -> Token {
    Token::Identifier(Span { start, end })
}

#[test]
fn tokenizes_a_function() {
    let (tokens, positions) = tokenize("fn main() { let x = 5; }");
    assert_eq!(
        tokens,
        vec![
            Token::Fn,
            id(3, 7),
            Token::OpenParentheses,
            Token::CloseParentheses,
            Token::OpenBrace,
            Token::Let,
            id(16, 17),
            Token::Equal,
            Token::IntegerLiteral(5),
            Token::SemiColon,
            Token::CloseBrace,
        ]
    );
    assert_eq!(positions.len(), tokens.len());
    assert_eq!(positions[0], TokenPosition { line: 0, last_character: 2 });
    assert_eq!(positions[10], TokenPosition { line: 0, last_character: 24 });
}

#[test]
fn names_take_equal_signs_and_semicolons() {
    let (tokens, _) = tokenize("a=b;");
    assert_eq!(tokens, vec![id(0, 4)]);
}

#[test]
fn ranges_and_floats() {
    let (tokens, positions) = tokenize("1..2 -3.5 -7");
    assert_eq!(
        tokens,
        vec![
            Token::IntegerLiteral(1),
            Token::DotDot,
            Token::IntegerLiteral(2),
            Token::FloatLiteral(Span { start: 5, end: 9 }),
            Token::IntegerLiteral(-7),
        ]
    );
    assert_eq!(positions.len(), 4);
}

#[test]
fn div_equal_leaves_the_equal_sign() {
    let (tokens, _) = tokenize("x /= 2");
    assert_eq!(tokens, vec![id(0, 1), Token::DivEqual, Token::Equal, Token::IntegerLiteral(2)]);
}

#[test]
fn comments_are_skipped() {
    let (tokens, positions) = tokenize("// hi\nfoo /* a /* b */ c */ d");
    assert_eq!(tokens, vec![id(6, 9), id(28, 29)]);
    assert_eq!(positions[0].line, 1);
}

#[test]
fn literals() {
    let (tokens, _) = tokenize("'a' '\\n' \"hi\\\"x\" true false");
    assert_eq!(
        tokens,
        vec![
            Token::CharLiteral('a'),
            Token::CharLiteral('\n'),
            Token::StringLiteral(Span { start: 10, end: 15 }),
            Token::BoolLiteral(true),
            Token::BoolLiteral(false),
        ]
    );
}

#[test]
fn positions_count_bytes() {
    let (tokens, positions) = tokenize("\u{e9} x\n+= ");
    assert_eq!(tokens, vec![id(0, 1), id(2, 3), Token::PlusEqual]);
    assert_eq!(positions[0], TokenPosition { line: 0, last_character: 2 });
    assert_eq!(positions[1], TokenPosition { line: 0, last_character: 4 });
    assert_eq!(positions[2], TokenPosition { line: 1, last_character: 7 });
}

#[test]
fn operators() {
    let (tokens, _) = tokenize("|| | :: : -> => == != <= >= < > - ! * *= .");
    assert_eq!(
        tokens,
        vec![
            Token::Or,
            Token::VerticalBar,
            Token::Colon2,
            Token::Colon,
            Token::RArrow,
            Token::FatArrow,
            Token::EqualEqual,
            Token::NotEqual,
            Token::LessThanOrEqual,
            Token::GreaterThanOrEqual,
            Token::LessThan,
            Token::GreaterThan,
            Token::Minus,
            Token::Not,
            Token::Star,
            Token::TimesEqual,
            Token::Dot,
        ]
    );
}

#[test]
fn unreadable_text() {
    assert!(try_tokenize("&").is_none());
    assert!(try_tokenize("'ab'").is_none());
    assert!(try_tokenize("'\\x41'").is_none());
    assert!(try_tokenize("\"").is_none());
    assert!(try_tokenize("\"ab\u{e9}").is_none());
    assert!(try_tokenize("170141183460469231731687303715884105728").is_none());
    assert_eq!(
        try_tokenize("-170141183460469231731687303715884105728").unwrap().0,
        vec![Token::IntegerLiteral(i128::MIN)]
    );
    assert_eq!(try_tokenize("\"ab").unwrap().0, vec![Token::StringLiteral(Span { start: 1, end: 2 })]);
}
