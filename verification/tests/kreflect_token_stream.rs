use koi::kreflect::common::{Fields, Token, Value};
use koi::kreflect::parser::Parser;
use koi::kreflect::token_stream::{
    token_stream_to_rust_tokens, tokens_of_stream, Delimiter, Spacing, TokenTree,
};
use koi::kserde::derive_impl::kserde_serialize_impl;

fn ident(s: &str) -> TokenTree {
    TokenTree::Ident(s.to_string())
}

fn punct(c: char) -> TokenTree {
    TokenTree::Punct(c, Spacing::Alone)
}

fn joint(c: char) -> TokenTree {
    TokenTree::Punct(c, Spacing::Joint)
}

fn lit(s: &str) -> TokenTree {
    TokenTree::Literal(s.to_string())
}

fn debug(tokens: &[Token]) -> String {
    format!("{:?}", tokens)
}

#[test]
fn keywords_names_and_groups() {
    let stream = vec![
        ident("pub"),
        ident("struct"),
        ident("Foo"),
        TokenTree::Group(
            Delimiter::Brace,
            vec![ident("x"), punct(':'), ident("u8"), punct(',')],
        ),
    ];
    let mut tokens = Vec::new();
    token_stream_to_rust_tokens(&stream, &mut tokens);
    assert_eq!(
        debug(&tokens),
        "[Pub, Struct, Identifier(\"Foo\"), OpenBrace, Identifier(\"x\"), Colon, Identifier(\"u8\"), Comma, CloseBrace]"
    );
}

#[test]
fn joined_punctuation() {
    let stream = vec![
        joint(':'),
        punct(':'),
        joint('-'),
        punct('>'),
        joint('\''),
        ident("static"),
        joint('<'),
        punct('='),
        joint('#'),
        punct('!'),
        joint('&'),
    ];
    let tokens = tokens_of_stream(&stream).expect("known punctuation");
    assert_eq!(
        debug(&tokens),
        "[Colon2, RArrow, SingleQuote, Identifier(\"static\"), LessThanOrEqual, Pound, Not, And]"
    );
}

#[test]
fn literals_by_kind() {
    let stream = vec![
        lit("true"),
        lit("42"),
        lit("-7"),
        lit("1.5"),
        lit("1E3"),
        lit("inf"),
        lit("2u8"),
        lit("'a'"),
        lit("\"hi\""),
        lit("x"),
    ];
    let tokens = tokens_of_stream(&stream).expect("literals always convert");
    assert_eq!(
        debug(&tokens),
        "[BoolLiteral(true), IntegerLiteral(42), IntegerLiteral(-7), FloatLiteral(\"1.5\"), FloatLiteral(\"1E3\"), FloatLiteral(\"inf\"), StringLiteral(\"2u8\"), StringLiteral(\"'a'\"), StringLiteral(\"\\\"hi\\\"\"), CharLiteral('x')]"
    );
}

#[test]
fn integer_too_large_is_a_float() {
    let big = "170141183460469231731687303715884105728";
    let tokens = tokens_of_stream(&[lit(big)]).unwrap();
    assert_eq!(debug(&tokens), format!("[FloatLiteral({:?})]", big));
}

#[test]
fn unknown_punctuation_has_no_token() {
    assert!(tokens_of_stream(&[punct('-')]).is_none());
    assert!(tokens_of_stream(&[joint('.'), punct('.')]).is_none());
    assert!(tokens_of_stream(&[joint('a'), ident("b")]).is_none());
    assert!(tokens_of_stream(&[TokenTree::Group(Delimiter::Parenthesis, vec![punct('@')])]).is_none());
}

#[test]
fn invisible_groups_add_no_brackets() {
    let stream = vec![TokenTree::Group(Delimiter::Invisible, vec![ident("a")])];
    let tokens = tokens_of_stream(&stream).unwrap();
    assert_eq!(debug(&tokens), "[Identifier(\"a\")]");
}

#[test]
fn from_token_trees_to_impl() {
    // #[derive(Serialize)] struct P { x: i32 }
    let stream = vec![
        punct('#'),
        TokenTree::Group(
            Delimiter::Bracket,
            vec![
                ident("derive"),
                TokenTree::Group(Delimiter::Parenthesis, vec![ident("Serialize")]),
            ],
        ),
        ident("struct"),
        ident("P"),
        TokenTree::Group(Delimiter::Brace, vec![ident("x"), punct(':'), ident("i32")]),
    ];
    let tokens = tokens_of_stream(&stream).unwrap();
    let mut parser = Parser::new(&tokens);
    let value = parser.parse().expect("a struct");
    match &value {
        Value::Struct(s) => assert!(matches!(&s.fields, Fields::Struct(f) if f.len() == 1)),
        _ => panic!("expected a struct"),
    }
    let code = kserde_serialize_impl(&value);
    assert!(code.starts_with("impl<KSer: kserde::Serializer, > kserde::Serialize<KSer> for P  {"));
    assert!(code.contains("serializer.property(\"x\");\n    serializer.value(&self.x);\n"));
}
