use koi::kreflect::common::{
    ConstParameter, Expression, FieldValue, Fields, GenericArgument, GenericParam, Item,
    ItemStatic, Literal, Mutability, Path, PathSegment, PathSegmentType, ReferenceExpression,
    StructExpression, Token, Type, Value, Visibility,
};
use koi::kreflect::parser::{Outcome, Parser};

fn ident(s: &str) -> Token {
    Token::Identifier(s.to_string())
}

/// `pub struct Foo<'a, T: Clone> { pub x: Vec<T>, y: &'a str }`
fn foo_tokens() -> Vec<Token> {
    vec![
        Token::Pub,
        Token::Struct,
        ident("Foo"),
        Token::LessThan,
        Token::SingleQuote,
        ident("a"),
        Token::Comma,
        ident("T"),
        Token::Colon,
        ident("Clone"),
        Token::GreaterThan,
        Token::OpenBrace,
        Token::Pub,
        ident("x"),
        Token::Colon,
        ident("Vec"),
        Token::LessThan,
        ident("T"),
        Token::GreaterThan,
        Token::Comma,
        ident("y"),
        Token::Colon,
        Token::And,
        Token::SingleQuote,
        ident("a"),
        ident("str"),
        Token::CloseBrace,
    ]
}

#[test]
fn parse_struct_with_generics() {
    let tokens = foo_tokens();
    let mut parser = Parser::new(&tokens);
    let value = parser.parse().expect("a struct");
    let s = match value {
        Value::Struct(s) => s,
        Value::Enum(_) => panic!("expected a struct"),
    };
    assert_eq!(s.name, "Foo");
    assert!(matches!(s.visibility, Visibility::Pub));
    assert_eq!(s.generic_parameters.0.len(), 2);
    assert!(matches!(&s.generic_parameters.0[0], GenericParam::Lifetime { identifier } if identifier == "a"));
    match &s.fields {
        Fields::Struct(fields) => {
            assert_eq!(fields.len(), 2);
            assert_eq!(fields[0].name.as_deref(), Some("x"));
            assert!(matches!(fields[0].visibility, Visibility::Pub));
            assert_eq!(fields[0]._type.as_string(), "Vec<T>");
            assert_eq!(fields[1].name.as_deref(), Some("y"));
            assert!(matches!(fields[1].visibility, Visibility::Private));
            assert_eq!(fields[1]._type.as_string(), "&'astr");
        }
        _ => panic!("expected named fields"),
    }
    assert_eq!(s.generic_parameters.as_args(), "<'a,T,>");
    assert_eq!(s.generic_parameters.as_impl_args(), "<a,T: Clone,>");
    assert_eq!(
        s.as_string(),
        "pubstructFooa,T: Clone,{\n    pubx:Vec<T>,\n    y:&'astr,\n}"
    );
}

#[test]
fn parse_enum_variants() {
    // #[derive(Debug)] enum E { A, B(u32), C { x: i32 } }
    let tokens = vec![
        Token::Pound,
        Token::OpenBracket,
        ident("derive"),
        Token::OpenParentheses,
        ident("Debug"),
        Token::CloseParentheses,
        Token::CloseBracket,
        Token::Enum,
        ident("E"),
        Token::OpenBrace,
        ident("A"),
        Token::Comma,
        ident("B"),
        Token::OpenParentheses,
        ident("u32"),
        Token::CloseParentheses,
        Token::Comma,
        ident("C"),
        Token::OpenBrace,
        ident("x"),
        Token::Colon,
        ident("i32"),
        Token::CloseBrace,
        Token::CloseBrace,
    ];
    let mut parser = Parser::new(&tokens);
    let e = match parser.parse() {
        Some(Value::Enum(e)) => e,
        _ => panic!("expected an enum"),
    };
    assert_eq!(e.name, "E");
    assert!(matches!(e.visibility, Visibility::Private));
    assert_eq!(e.variants.len(), 3);
    assert!(matches!(e.variants[0].fields, Fields::Unit));
    match &e.variants[1].fields {
        Fields::Tuple(f) => {
            assert_eq!(f.len(), 1);
            assert!(f[0].name.is_none());
            assert_eq!(f[0]._type.as_string(), "u32");
        }
        _ => panic!("expected tuple fields"),
    }
    match &e.variants[2].fields {
        Fields::Struct(f) => assert_eq!(f[0].name.as_deref(), Some("x")),
        _ => panic!("expected named fields"),
    }
    assert_eq!(e.generic_parameters.as_args(), "");
}

#[test]
fn parse_attributes_on_fields() {
    // struct S { #[skip] a: [u8; 4], b: (u8, bool), }
    let tokens = vec![
        Token::Struct,
        ident("S"),
        Token::OpenBrace,
        Token::Pound,
        Token::OpenBracket,
        ident("skip"),
        Token::CloseBracket,
        ident("a"),
        Token::Colon,
        Token::OpenBracket,
        ident("u8"),
        Token::SemiColon,
        Token::IntegerLiteral(4),
        Token::CloseBracket,
        Token::Comma,
        ident("b"),
        Token::Colon,
        Token::OpenParentheses,
        ident("u8"),
        Token::Comma,
        ident("bool"),
        Token::CloseParentheses,
        Token::Comma,
        Token::CloseBrace,
    ];
    let mut parser = Parser::new(&tokens);
    let s = match parser.parse() {
        Some(Value::Struct(s)) => s,
        _ => panic!("expected a struct"),
    };
    match &s.fields {
        Fields::Struct(f) => {
            assert_eq!(f.len(), 2);
            assert_eq!(f[0].attributes.len(), 1);
            assert_eq!(f[0].attributes[0].path.as_string(), "skip");
            assert_eq!(f[0]._type.as_string(), "[u8;4]");
            assert_eq!(f[1].attributes.len(), 0);
            assert_eq!(f[1]._type.as_string(), "(u8,bool,)");
        }
        _ => panic!("expected named fields"),
    }
}

#[test]
fn unit_struct_keeps_the_semicolon() {
    let tokens = vec![Token::Struct, ident("U"), Token::SemiColon];
    let mut parser = Parser::new(&tokens);
    let s = match parser.parse() {
        Some(Value::Struct(s)) => s,
        _ => panic!("expected a struct"),
    };
    assert!(matches!(s.fields, Fields::Unit));
    assert_eq!(s.as_string(), "structU;");
}

#[test]
fn restricted_visibility() {
    let tokens = vec![
        Token::Pub,
        Token::OpenParentheses,
        Token::Crate,
        Token::CloseParentheses,
        Token::Struct,
        ident("V"),
        Token::SemiColon,
    ];
    let mut parser = Parser::new(&tokens);
    match parser.parse() {
        Some(Value::Struct(s)) => assert!(matches!(s.visibility, Visibility::Crate)),
        _ => panic!("expected a struct"),
    }
}

#[test]
fn pub_in_is_not_handled() {
    let tokens = vec![
        Token::Pub,
        Token::OpenParentheses,
        Token::In,
        ident("x"),
        Token::CloseParentheses,
        Token::Struct,
        ident("V"),
        Token::SemiColon,
    ];
    let mut parser = Parser::new(&tokens);
    assert!(matches!(parser.try_parse(), Outcome::Unsupported));
}

#[test]
fn missing_name_gives_none() {
    let tokens = vec![Token::Struct, Token::OpenBrace];
    let mut parser = Parser::new(&tokens);
    assert!(parser.parse().is_none());
    let empty: Vec<Token> = Vec::new();
    let mut parser = Parser::new(&empty);
    assert!(parser.parse().is_none());
}

#[test]
fn function_pointer_and_trait_object_types() {
    // struct F { f: fn(u8) -> bool, d: &'a mut dyn Clone + 'b, p: *const u8 }
    let tokens = vec![
        Token::Struct,
        ident("F"),
        Token::OpenBrace,
        ident("f"),
        Token::Colon,
        Token::Fn,
        Token::OpenParentheses,
        ident("u8"),
        Token::CloseParentheses,
        Token::RArrow,
        ident("bool"),
        Token::Comma,
        ident("d"),
        Token::Colon,
        Token::And,
        Token::SingleQuote,
        ident("a"),
        Token::Mut,
        Token::Dyn,
        ident("Clone"),
        Token::Plus,
        Token::SingleQuote,
        ident("b"),
        Token::Comma,
        ident("p"),
        Token::Colon,
        Token::Star,
        Token::Const,
        ident("u8"),
        Token::CloseBrace,
    ];
    let mut parser = Parser::new(&tokens);
    let s = match parser.parse() {
        Some(Value::Struct(s)) => s,
        _ => panic!("expected a struct"),
    };
    match &s.fields {
        Fields::Struct(f) => {
            assert_eq!(f[0]._type.as_string(), "fn (u8,)-> bool");
            assert_eq!(f[1]._type.as_string(), "&'a mut dyn Clone + 'b");
            assert!(matches!(&f[1]._type, Type::Reference { mutability: Mutability::Mutable, .. }));
            assert_eq!(f[2]._type.as_string(), "*' const u8");
        }
        _ => panic!("expected named fields"),
    }
}

#[test]
fn path_arguments_and_expressions() {
    // struct A { x: Foo<'a, 3, crate::b::C> }
    let tokens = vec![
        Token::Struct,
        ident("A"),
        Token::OpenBrace,
        ident("x"),
        Token::Colon,
        ident("Foo"),
        Token::LessThan,
        Token::SingleQuote,
        ident("a"),
        Token::Comma,
        Token::IntegerLiteral(3),
        Token::Comma,
        Token::Crate,
        Token::Colon2,
        ident("b"),
        Token::Colon2,
        ident("C"),
        Token::GreaterThan,
        Token::CloseBrace,
    ];
    let mut parser = Parser::new(&tokens);
    let s = match parser.parse() {
        Some(Value::Struct(s)) => s,
        _ => panic!("expected a struct"),
    };
    match &s.fields {
        Fields::Struct(f) => match &f[0]._type {
            Type::Name(p) => {
                assert_eq!(p.segments.len(), 1);
                let args = &p.segments[0].args;
                assert_eq!(args.len(), 3);
                assert!(matches!(&args[0], GenericArgument::Lifetime(l) if l == "a"));
                assert!(matches!(
                    &args[1],
                    GenericArgument::Expression(Expression::Literal(Literal::Integer(3)))
                ));
                assert!(matches!(&args[2], GenericArgument::Type(Type::Name(_))));
                assert_eq!(p.as_string(), "Foo<'a3crate::b::C>");
            }
            _ => panic!("expected a named type"),
        },
        _ => panic!("expected named fields"),
    }
}

#[test]
fn path_new_and_literals() {
    let p = Path::new(&["kreflect".to_string(), "Value".to_string()]);
    assert_eq!(p.segments.len(), 2);
    assert!(matches!(&p.segments[0].path_segment_type, PathSegmentType::Named(n) if n == "kreflect"));
    assert_eq!(p.as_string(), "kreflect::Value");
    assert_eq!(Literal::Integer(-42).as_string(), "-42");
    assert_eq!(Literal::String("hi".to_string()).as_string(), "\"hi\"");
    assert_eq!(Literal::Bool(true).as_string(), "true");
    assert_eq!(Literal::Char('c').as_string(), "c");
    let call = Expression::Call {
        function: Box::new(Expression::Path(Path::new(&["f".to_string()]))),
        arguments: vec![
            Expression::Literal(Literal::Integer(1)),
            Expression::Raw("x".to_string()),
        ],
    };
    assert_eq!(call.as_string(), "f(1,x,)");
}

#[test]
fn static_declaration() {
    let item_static = ItemStatic {
        name: "DATA".into(),
        mutability: Mutability::Immutable,
        visibility: Visibility::Private,
        _type: Type::Name(Path {
            segments: vec![PathSegment {
                path_segment_type: PathSegmentType::Named("Value".into()),
                args: vec![GenericArgument::Lifetime("static".into())],
            }],
        }),
        expression: Expression::Call {
            function: Box::new(Expression::Path(Path::new(&[
                "kreflect".into(),
                "Value".into(),
                "Struct".into(),
            ]))),
            arguments: vec![Expression::Struct(StructExpression {
                path: Path::new(&["kreflect".into(), "Struct".into()]),
                fields: vec![FieldValue {
                    name: "name".into(),
                    expression: Expression::Literal(Literal::String("Thing".into())),
                }],
            })],
        },
    };
    let string = item_static.as_string();
    println!("{}", string);
    assert_eq!(
        string,
        " static DATA: Value<'static> = kreflect::Value::Struct(kreflect::Struct {\n    name: \"Thing\",\n},);"
    );
    assert_eq!(Item::ItemStatic(item_static).as_string(), string);

    let c = ConstParameter { identifier: "N".into(), _type: Type::Name(Path::new(&["usize".into()])) };
    assert_eq!(c.as_string(), "const N: usize");
    let r = ReferenceExpression {
        mutability: Mutability::Mutable,
        expression: Box::new(Expression::Raw("x".into())),
    };
    assert_eq!(r.as_string(), "& mut");
    assert_eq!(Expression::Reference(r).as_string(), "& mut");
}

#[test]
fn const_generic_parameters() {
    // struct A<const N: usize>;
    let tokens = vec![
        Token::Struct,
        ident("A"),
        Token::LessThan,
        Token::Const,
        ident("N"),
        Token::Colon,
        ident("usize"),
        Token::GreaterThan,
        Token::SemiColon,
    ];
    let mut parser = Parser::new(&tokens);
    let s = match parser.parse() {
        Some(Value::Struct(s)) => s,
        _ => panic!("expected a struct"),
    };
    let (l, t, c) = s.generic_parameters.lifetimes_types_consts();
    assert_eq!((l.as_str(), t.as_str(), c.as_str()), ("", "", "const N: usize,"));
    assert_eq!(s.generic_parameters.as_args(), "<N,>");
    assert_eq!(s.as_string(), "structAconst N: usize,;");
}
