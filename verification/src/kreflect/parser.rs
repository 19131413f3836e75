use vstd::prelude::*;

use crate::kreflect::common::{
    Attribute, AttributeModel, AttributeStyle, Enum, EnumModel, EnumVariant, EnumVariantModel,
    Expression, ExpressionModel, Field, FieldModel, Fields, FieldsModel, GenericArgument,
    GenericArgumentModel, GenericParam, GenericParamModel, GenericParams, Literal, Mutability, Path,
    PathModel, PathSegment, PathSegmentModel, PathSegmentType, Struct, StructModel, Token, Type,
    TypeModel, TypeParamBound, TypeParamBoundModel, TypeParamBounds, Value, ValueModel, Visibility,
    argument_model, arguments_model, bound_list_model, bound_model, segment_model, segments_model,
    type_model, types_model, attribute_model, attributes_model, field_list_model, field_model,
    generic_param_list_model, generic_param_model, variant_model, variants_model,
};

verus! {

/// What one step of the parser comes to: a value, no match (the parser's
/// `None`, which callers may recover from), or input that this parser does
/// not handle at all.
#[derive(Debug)]
pub enum Outcome<T> {
    Parsed(T),
    NoMatch,
    Unsupported,
}

impl<T: View> View for Outcome<T> {
    type V = Outcome<T::V>;

    open spec fn view(&self) -> Outcome<T::V> {
        match self {
            Outcome::Parsed(x) => Outcome::Parsed(x@),
            Outcome::NoMatch => Outcome::NoMatch,
            Outcome::Unsupported => Outcome::Unsupported,
        }
    }
}

/// The token at position `p`, if there is one.
pub open spec fn peek_at(t: Seq<Token>, p: int) -> Option<Token> {
    if 0 <= p < t.len() {
        Some(t[p])
    } else {
        None
    }
}

/// Whether the token at `p` is of the same variant as `expect`.
pub open spec fn check(t: Seq<Token>, p: int, expect: Token) -> bool {
    0 <= p < t.len() && t[p].spec_kind() == expect.spec_kind()
}

/// The position after an optional token of the variant of `expect`.
pub open spec fn skip(t: Seq<Token>, p: int, expect: Token) -> int {
    if check(t, p, expect) {
        p + 1
    } else {
        p
    }
}

/// The name at `p`, if an identifier stands there.
pub open spec fn identifier_at(t: Seq<Token>, p: int) -> Option<String> {
    if 0 <= p < t.len() && t[p] is Identifier {
        Some(t[p]->Identifier_0)
    } else {
        None
    }
}

/// The segments of a path from `p` on, after the segments `acc` read so far.
pub open spec fn path_segments(t: Seq<Token>, p: int, acc: Seq<PathSegmentModel>) -> (Outcome<
    PathModel,
>, int)
    decreases t.len() - p, 0int,
{
    let (kind, q, r) = match peek_at(t, p) {
        Some(Token::Identifier(name)) => {
            if check(t, p + 1, Token::LessThan) {
                let (args, q) = arguments_from(t, p + 2, Seq::empty());
                match args {
                    Outcome::Parsed(a) => (
                        Outcome::Parsed(
                            PathSegmentModel {
                                path_segment_type: PathSegmentType::Named(name),
                                args: a,
                            },
                        ),
                        q,
                        0int,
                    ),
                    Outcome::NoMatch => (Outcome::NoMatch, q, 0int),
                    Outcome::Unsupported => (Outcome::Unsupported, q, 0int),
                }
            } else {
                (
                    Outcome::Parsed(
                        PathSegmentModel {
                            path_segment_type: PathSegmentType::Named(name),
                            args: Seq::empty(),
                        },
                    ),
                    p + 1,
                    0int,
                )
            }
        },
        Some(Token::Crate) => (
            Outcome::Parsed(
                PathSegmentModel { path_segment_type: PathSegmentType::Crate, args: Seq::empty() },
            ),
            p + 1,
            0int,
        ),
        Some(Token::Super) => (
            Outcome::Parsed(
                PathSegmentModel { path_segment_type: PathSegmentType::Super, args: Seq::empty() },
            ),
            p + 1,
            0int,
        ),
        Some(Token::SelfLowercase) => (
            Outcome::Parsed(
                PathSegmentModel {
                    path_segment_type: PathSegmentType::SelfLowercase,
                    args: Seq::empty(),
                },
            ),
            p + 1,
            0int,
        ),
        _ => (Outcome::NoMatch, p, 1int),
    };
    if r == 1 {
        (Outcome::Parsed(PathModel { segments: acc }), p)
    } else {
        match kind {
            Outcome::Parsed(segment) => {
                if check(t, q, Token::Colon2) {
                    if p < q + 1 <= t.len() {
                        path_segments(t, q + 1, acc.push(segment))
                    } else {
                        (Outcome::Unsupported, q)
                    }
                } else {
                    (Outcome::Parsed(PathModel { segments: acc.push(segment) }), q)
                }
            },
            Outcome::NoMatch => (Outcome::NoMatch, q),
            Outcome::Unsupported => (Outcome::Unsupported, q),
        }
    }
}

/// Whether a path with at least one segment begins at `p`.
pub open spec fn starts_path(t: Seq<Token>, p: int) -> bool {
    0 <= p < t.len() && (t[p] is Identifier || t[p] is Crate || t[p] is Super
        || t[p] is SelfLowercase)
}

/// Applies `f` to a parsed value.
pub open spec fn map_outcome<A, B>(o: Outcome<A>, f: spec_fn(A) -> B) -> Outcome<B> {
    match o {
        Outcome::Parsed(x) => Outcome::Parsed(f(x)),
        Outcome::NoMatch => Outcome::NoMatch,
        Outcome::Unsupported => Outcome::Unsupported,
    }
}

/// A path such as `a::b<T>::c`; it may have no segment at all.
pub open spec fn path_at(t: Seq<Token>, p: int) -> (Outcome<PathModel>, int)
    decreases t.len() - p, 1int,
{
    path_segments(t, p, Seq::empty())
}

/// The generic arguments of a path segment after its `<`, up to and
/// including the closing `>`.
pub open spec fn arguments_from(t: Seq<Token>, p: int, acc: Seq<GenericArgumentModel>) -> (Outcome<
    Seq<GenericArgumentModel>,
>, int)
    decreases t.len() - p, 3int,
{
    let (arg, q) = match peek_at(t, p) {
        None => (Outcome::NoMatch, p),
        Some(Token::GreaterThan) => (Outcome::Parsed(None), p + 1),
        Some(Token::SingleQuote) => match identifier_at(t, p + 1) {
            Some(l) => (Outcome::Parsed(Some(GenericArgumentModel::Lifetime(l))), p + 2),
            None => (Outcome::NoMatch, p + 1),
        },
        Some(_) => {
            let (ty, q) = type_at(t, p);
            match ty {
                Outcome::Parsed(x) => (Outcome::Parsed(Some(GenericArgumentModel::Type(x))), q),
                Outcome::Unsupported => (Outcome::Unsupported, q),
                Outcome::NoMatch => {
                    if p <= q <= t.len() {
                        let (e, r) = expression_at(t, q);
                        match e {
                            Outcome::Parsed(x) => (
                                Outcome::Parsed(Some(GenericArgumentModel::Expression(x))),
                                r,
                            ),
                            Outcome::NoMatch => (Outcome::NoMatch, r),
                            Outcome::Unsupported => (Outcome::Unsupported, r),
                        }
                    } else {
                        (Outcome::Unsupported, q)
                    }
                },
            }
        },
    };
    match arg {
        Outcome::Parsed(Some(a)) => {
            let q2 = skip(t, q, Token::Comma);
            if p < q2 <= t.len() {
                arguments_from(t, q2, acc.push(a))
            } else {
                (Outcome::Unsupported, q2)
            }
        },
        Outcome::Parsed(None) => (Outcome::Parsed(acc), q),
        Outcome::NoMatch => (Outcome::NoMatch, q),
        Outcome::Unsupported => (Outcome::Unsupported, q),
    }
}

/// A type.
pub open spec fn type_at(t: Seq<Token>, p: int) -> (Outcome<TypeModel>, int)
    decreases t.len() - p, 2int,
{
    match peek_at(t, p) {
        None => (Outcome::NoMatch, p),
        Some(Token::Identifier(_)) | Some(Token::Crate) | Some(Token::Super) | Some(
            Token::SelfLowercase,
        ) => {
            let (r, q) = path_at(t, p);
            (
                match r {
                    Outcome::Parsed(x) => Outcome::Parsed(TypeModel::Name(x)),
                    Outcome::NoMatch => Outcome::NoMatch,
                    Outcome::Unsupported => Outcome::Unsupported,
                },
                q,
            )
        },
        Some(Token::OpenParentheses) => {
            let (r, q) = type_list(t, p + 1, Seq::empty());
            (
                match r {
                    Outcome::Parsed(x) => Outcome::Parsed(TypeModel::Tuple(x)),
                    Outcome::NoMatch => Outcome::NoMatch,
                    Outcome::Unsupported => Outcome::Unsupported,
                },
                q,
            )
        },
        Some(Token::Dyn) => {
            let (r, q) = bounds_from(t, p + 1, Seq::empty());
            (
                match r {
                    Outcome::Parsed(x) => Outcome::Parsed(TypeModel::TraitObject(x)),
                    Outcome::NoMatch => Outcome::NoMatch,
                    Outcome::Unsupported => Outcome::Unsupported,
                },
                q,
            )
        },
        Some(Token::OpenBracket) => {
            let (r, q) = type_at(t, p + 1);
            match r {
                Outcome::Parsed(x) => {
                    if check(t, q, Token::SemiColon) {
                        if p <= q {
                            let (e, s) = expression_at(t, q + 1);
                            match e {
                                Outcome::Parsed(y) => (
                                    Outcome::Parsed(TypeModel::Array { _type: Box::new(x), size: y }),
                                    skip(t, s, Token::CloseBracket),
                                ),
                                _ => (Outcome::Unsupported, s),
                            }
                        } else {
                            (Outcome::Unsupported, q)
                        }
                    } else {
                        (Outcome::NoMatch, q)
                    }
                },
                Outcome::NoMatch => (Outcome::NoMatch, q),
                Outcome::Unsupported => (Outcome::Unsupported, q),
            }
        },
        Some(Token::And) => {
            if check(t, p + 1, Token::SingleQuote) {
                match identifier_at(t, p + 2) {
                    Some(lifetime) => {
                        let mutable = check(t, p + 3, Token::Mut);
                        let (r, q) = type_at(t, if mutable { p + 4 } else { p + 3 });
                        (
                            match r {
                                Outcome::Parsed(x) => Outcome::Parsed(
                                    TypeModel::Reference {
                                        lifetime,
                                        mutability: if mutable {
                                            Mutability::Mutable
                                        } else {
                                            Mutability::Immutable
                                        },
                                        _type: Box::new(x),
                                    },
                                ),
                                Outcome::NoMatch => Outcome::NoMatch,
                                Outcome::Unsupported => Outcome::Unsupported,
                            },
                            q,
                        )
                    },
                    None => (Outcome::NoMatch, p + 2),
                }
            } else {
                (Outcome::NoMatch, p + 1)
            }
        },
        Some(Token::Star) => {
            if check(t, p + 1, Token::Mut) || check(t, p + 1, Token::Const) {
                let (r, q) = type_at(t, p + 2);
                (
                    match r {
                        Outcome::Parsed(x) => Outcome::Parsed(
                            TypeModel::RawPointer {
                                mutability: if check(t, p + 1, Token::Mut) {
                                    Mutability::Mutable
                                } else {
                                    Mutability::Immutable
                                },
                                _type: Box::new(x),
                            },
                        ),
                        Outcome::NoMatch => Outcome::NoMatch,
                        Outcome::Unsupported => Outcome::Unsupported,
                    },
                    q,
                )
            } else {
                (Outcome::NoMatch, p + 1)
            }
        },
        Some(Token::Fn) => {
            if check(t, p + 1, Token::OpenParentheses) {
                let (ps, q) = type_list(t, p + 2, Seq::empty());
                match ps {
                    Outcome::Parsed(parameters) => {
                        if check(t, q, Token::RArrow) {
                            if p <= q {
                                let (r, s) = type_at(t, q + 1);
                                match r {
                                    Outcome::Parsed(x) => (
                                        Outcome::Parsed(
                                            TypeModel::FunctionPointer {
                                                parameters,
                                                _return: Some(Box::new(x)),
                                            },
                                        ),
                                        s,
                                    ),
                                    Outcome::NoMatch => (
                                        Outcome::Parsed(
                                            TypeModel::FunctionPointer { parameters, _return: None },
                                        ),
                                        s,
                                    ),
                                    Outcome::Unsupported => (Outcome::Unsupported, s),
                                }
                            } else {
                                (Outcome::Unsupported, q)
                            }
                        } else {
                            (
                                Outcome::Parsed(
                                    TypeModel::FunctionPointer { parameters, _return: None },
                                ),
                                q,
                            )
                        }
                    },
                    Outcome::NoMatch => (Outcome::NoMatch, q),
                    Outcome::Unsupported => (Outcome::Unsupported, q),
                }
            } else {
                (Outcome::NoMatch, p + 1)
            }
        },
        Some(_) => (Outcome::NoMatch, p),
    }
}

/// The types of a tuple or of a function's parameters, up to and including
/// the closing `)`.
pub open spec fn type_list(t: Seq<Token>, p: int, acc: Seq<TypeModel>) -> (Outcome<
    Seq<TypeModel>,
>, int)
    decreases t.len() - p, 3int,
{
    if check(t, p, Token::CloseParentheses) {
        (Outcome::Parsed(acc), p + 1)
    } else {
        let (r, q) = type_at(t, p);
        match r {
            Outcome::Parsed(x) => {
                let q2 = skip(t, q, Token::Comma);
                if p < q2 <= t.len() {
                    type_list(t, q2, acc.push(x))
                } else {
                    (Outcome::Unsupported, q2)
                }
            },
            Outcome::NoMatch => (Outcome::NoMatch, q),
            Outcome::Unsupported => (Outcome::Unsupported, q),
        }
    }
}

/// Bounds such as `Clone + 'a`, after the bounds `acc` read so far.
pub open spec fn bounds_from(t: Seq<Token>, p: int, acc: Seq<TypeParamBoundModel>) -> (Outcome<
    Seq<TypeParamBoundModel>,
>, int)
    decreases t.len() - p, 2int,
{
    let (b, q) = match peek_at(t, p) {
        None => (Outcome::NoMatch, p),
        Some(Token::Identifier(_)) => {
            let (r, q) = path_at(t, p);
            (
                match r {
                    Outcome::Parsed(x) => Outcome::Parsed(TypeParamBoundModel::Trait(x)),
                    Outcome::NoMatch => Outcome::NoMatch,
                    Outcome::Unsupported => Outcome::Unsupported,
                },
                q,
            )
        },
        Some(Token::SingleQuote) => match identifier_at(t, p + 1) {
            Some(l) => (Outcome::Parsed(TypeParamBoundModel::Lifetime(l)), p + 2),
            None => (Outcome::NoMatch, p + 1),
        },
        Some(_) => (Outcome::NoMatch, p),
    };
    match b {
        Outcome::Parsed(x) => {
            if check(t, q, Token::Plus) {
                if p <= q {
                    bounds_from(t, q + 1, acc.push(x))
                } else {
                    (Outcome::Unsupported, q)
                }
            } else {
                (Outcome::Parsed(acc.push(x)), q)
            }
        },
        Outcome::NoMatch => (Outcome::NoMatch, q),
        Outcome::Unsupported => (Outcome::Unsupported, q),
    }
}

/// An expression: a literal, or a path after a leading name, which is passed
/// over.
pub open spec fn expression_at(t: Seq<Token>, p: int) -> (Outcome<ExpressionModel>, int)
    decreases t.len() - p, 0int,
{
    match peek_at(t, p) {
        None => (Outcome::NoMatch, p),
        Some(Token::LiteralBool(b)) => (
            Outcome::Parsed(ExpressionModel::Literal(Literal::Bool(b))),
            p + 1,
        ),
        Some(Token::FloatLiteral(s)) => (
            Outcome::Parsed(ExpressionModel::Literal(Literal::Float(s))),
            p + 1,
        ),
        Some(Token::IntegerLiteral(i)) => (
            Outcome::Parsed(ExpressionModel::Literal(Literal::Integer(i as i64))),
            p + 1,
        ),
        Some(Token::CharLiteral(c)) => (
            Outcome::Parsed(ExpressionModel::Literal(Literal::Char(c))),
            p + 1,
        ),
        Some(Token::StringLiteral(s)) => (
            Outcome::Parsed(ExpressionModel::Literal(Literal::String(s))),
            p + 1,
        ),
        Some(Token::Identifier(_)) => {
            let (r, q) = path_at(t, p + 1);
            (
                match r {
                    Outcome::Parsed(x) => Outcome::Parsed(ExpressionModel::Path(x)),
                    Outcome::NoMatch => Outcome::NoMatch,
                    Outcome::Unsupported => Outcome::Unsupported,
                },
                q,
            )
        },
        Some(_) => (Outcome::Unsupported, p),
    }
}


/// `)` closing `pub(..)`.
pub open spec fn close_visibility(t: Seq<Token>, q: int, v: Visibility) -> (Outcome<Visibility>, int) {
    if check(t, q, Token::CloseParentheses) {
        (Outcome::Parsed(v), q + 1)
    } else {
        (Outcome::NoMatch, q)
    }
}

/// `pub`, `pub(crate)`, `pub(super)`, `pub(self)`, or nothing.
pub open spec fn visibility_at(t: Seq<Token>, p: int) -> (Outcome<Visibility>, int) {
    match peek_at(t, p) {
        None => (Outcome::NoMatch, p),
        Some(Token::Pub) => match peek_at(t, p + 1) {
            None => (Outcome::NoMatch, p + 1),
            Some(Token::OpenParentheses) => match peek_at(t, p + 2) {
                None => (Outcome::NoMatch, p + 2),
                Some(Token::Crate) => close_visibility(t, p + 3, Visibility::Crate),
                Some(Token::Super) => close_visibility(t, p + 3, Visibility::Super),
                Some(Token::SelfLowercase) => close_visibility(t, p + 3, Visibility::Private),
                Some(Token::In) => (Outcome::Unsupported, p + 3),
                Some(_) => (Outcome::NoMatch, p + 2),
            },
            Some(_) => (Outcome::Parsed(Visibility::Pub), p + 1),
        },
        Some(_) => (Outcome::Parsed(Visibility::Private), p),
    }
}

/// The tokens of an attribute after its path, up to and including `]`.
pub open spec fn attribute_tokens(t: Seq<Token>, p: int, acc: Seq<Token>) -> (Outcome<Seq<Token>>, int)
    decreases t.len() - p,
{
    if check(t, p, Token::CloseBracket) {
        (Outcome::Parsed(acc), p + 1)
    } else if 0 <= p < t.len() {
        attribute_tokens(t, p + 1, acc.push(t[p]))
    } else {
        (Outcome::NoMatch, p)
    }
}

/// An attribute `#[path ...]` or `#![path ...]`.
pub open spec fn attribute_at(t: Seq<Token>, p: int) -> (Outcome<AttributeModel>, int) {
    if !check(t, p, Token::Pound) {
        (Outcome::NoMatch, p)
    } else {
        let inner = check(t, p + 1, Token::Not);
        let q = if inner {
            p + 2
        } else {
            p + 1
        };
        if !check(t, q, Token::OpenBracket) {
            (Outcome::NoMatch, q)
        } else {
            let (r, s) = path_at(t, q + 1);
            match r {
                Outcome::Parsed(path) => {
                    let (toks, u) = attribute_tokens(t, s, Seq::empty());
                    match toks {
                        Outcome::Parsed(x) => (
                            Outcome::Parsed(
                                AttributeModel {
                                    path,
                                    tokens: x,
                                    attribute_style: if inner {
                                        AttributeStyle::Inner
                                    } else {
                                        AttributeStyle::Outer
                                    },
                                },
                            ),
                            u,
                        ),
                        Outcome::NoMatch => (Outcome::NoMatch, u),
                        Outcome::Unsupported => (Outcome::Unsupported, u),
                    }
                },
                Outcome::NoMatch => (Outcome::NoMatch, s),
                Outcome::Unsupported => (Outcome::Unsupported, s),
            }
        }
    }
}

/// Attributes one after the other, until one does not parse.
pub open spec fn attributes_from(t: Seq<Token>, p: int, acc: Seq<AttributeModel>) -> (Outcome<
    Seq<AttributeModel>,
>, int)
    decreases t.len() - p,
{
    let (r, q) = attribute_at(t, p);
    match r {
        Outcome::Parsed(a) => {
            if p < q <= t.len() {
                attributes_from(t, q, acc.push(a))
            } else {
                (Outcome::Unsupported, q)
            }
        },
        Outcome::NoMatch => (Outcome::Parsed(acc), q),
        Outcome::Unsupported => (Outcome::Unsupported, q),
    }
}

/// Named fields after `{`, up to and including `}`.
pub open spec fn named_fields(t: Seq<Token>, p: int, acc: Seq<FieldModel>) -> (Outcome<FieldsModel>, int)
    decreases t.len() - p,
{
    let (attrs, q) = attributes_from(t, p, Seq::empty());
    match attrs {
        Outcome::Parsed(a) => {
            let (vis, r) = visibility_at(t, q);
            match vis {
                Outcome::Parsed(v) => match peek_at(t, r) {
                    None => (Outcome::NoMatch, r),
                    Some(Token::Identifier(name)) => {
                        if check(t, r + 1, Token::Colon) {
                            let (ty, s) = type_at(t, r + 2);
                            match ty {
                                Outcome::Parsed(x) => {
                                    let s2 = skip(t, s, Token::Comma);
                                    if p < s2 <= t.len() {
                                        named_fields(
                                            t,
                                            s2,
                                            acc.push(
                                                FieldModel {
                                                    attributes: a,
                                                    name: Some(name),
                                                    _type: x,
                                                    visibility: v,
                                                },
                                            ),
                                        )
                                    } else {
                                        (Outcome::Unsupported, s2)
                                    }
                                },
                                Outcome::NoMatch => (Outcome::NoMatch, s),
                                Outcome::Unsupported => (Outcome::Unsupported, s),
                            }
                        } else {
                            (Outcome::NoMatch, r + 1)
                        }
                    },
                    Some(Token::CloseBrace) => (Outcome::Parsed(FieldsModel::Struct(acc)), r + 1),
                    Some(_) => (Outcome::NoMatch, r + 1),
                },
                Outcome::NoMatch => (Outcome::NoMatch, r),
                Outcome::Unsupported => (Outcome::Unsupported, r),
            }
        },
        Outcome::NoMatch => (Outcome::NoMatch, q),
        Outcome::Unsupported => (Outcome::Unsupported, q),
    }
}

/// Tuple fields after `(`, up to and including `)`.
pub open spec fn tuple_fields(t: Seq<Token>, p: int, acc: Seq<FieldModel>) -> (Outcome<FieldsModel>, int)
    decreases t.len() - p,
{
    let (attrs, q) = attributes_from(t, p, Seq::empty());
    match attrs {
        Outcome::Parsed(a) => {
            let (vis, r) = visibility_at(t, q);
            match vis {
                Outcome::Parsed(v) => match peek_at(t, r) {
                    None => (Outcome::NoMatch, r),
                    Some(Token::CloseParentheses) => (
                        Outcome::Parsed(FieldsModel::Tuple(acc)),
                        r + 1,
                    ),
                    Some(_) => {
                        let (ty, s) = type_at(t, r);
                        match ty {
                            Outcome::Parsed(x) => {
                                let s2 = skip(t, s, Token::Comma);
                                if p < s2 <= t.len() {
                                    tuple_fields(
                                        t,
                                        s2,
                                        acc.push(
                                            FieldModel {
                                                attributes: a,
                                                name: None,
                                                _type: x,
                                                visibility: v,
                                            },
                                        ),
                                    )
                                } else {
                                    (Outcome::Unsupported, s2)
                                }
                            },
                            _ => (Outcome::Unsupported, s),
                        }
                    },
                },
                Outcome::NoMatch => (Outcome::NoMatch, r),
                Outcome::Unsupported => (Outcome::Unsupported, r),
            }
        },
        Outcome::NoMatch => (Outcome::NoMatch, q),
        Outcome::Unsupported => (Outcome::Unsupported, q),
    }
}

/// The fields of a struct or of an enum variant.
pub open spec fn fields_at(t: Seq<Token>, p: int) -> (Outcome<FieldsModel>, int) {
    match peek_at(t, p) {
        None => (Outcome::NoMatch, p),
        Some(Token::OpenBrace) => named_fields(t, p + 1, Seq::empty()),
        Some(Token::OpenParentheses) => tuple_fields(t, p + 1, Seq::empty()),
        Some(_) => (Outcome::Unsupported, p),
    }
}

/// The variants of an enum after `{`, up to and including `}`.
pub open spec fn variants_from(t: Seq<Token>, p: int, acc: Seq<EnumVariantModel>) -> (Outcome<
    Seq<EnumVariantModel>,
>, int)
    decreases t.len() - p,
{
    let (attrs, q) = attributes_from(t, p, Seq::empty());
    match attrs {
        Outcome::Parsed(a) => match peek_at(t, q) {
            None => (Outcome::NoMatch, q),
            Some(Token::Identifier(name)) => {
                let (f, s) = match peek_at(t, q + 1) {
                    None => (Outcome::NoMatch, q + 1),
                    Some(Token::Comma) | Some(Token::CloseBrace) => (
                        Outcome::Parsed(FieldsModel::Unit),
                        q + 1,
                    ),
                    Some(Token::OpenBrace) | Some(Token::OpenParentheses) => fields_at(t, q + 1),
                    Some(_) => (Outcome::NoMatch, q + 1),
                };
                match f {
                    Outcome::Parsed(fields) => {
                        let s2 = skip(t, s, Token::Comma);
                        if p < s2 <= t.len() {
                            variants_from(
                                t,
                                s2,
                                acc.push(EnumVariantModel { attributes: a, name, fields }),
                            )
                        } else {
                            (Outcome::Unsupported, s2)
                        }
                    },
                    Outcome::NoMatch => (Outcome::NoMatch, s),
                    Outcome::Unsupported => (Outcome::Unsupported, s),
                }
            },
            Some(Token::CloseBrace) => (Outcome::Parsed(acc), q + 1),
            Some(_) => (Outcome::NoMatch, q + 1),
        },
        Outcome::NoMatch => (Outcome::NoMatch, q),
        Outcome::Unsupported => (Outcome::Unsupported, q),
    }
}

/// The variants of an enum, in braces.
pub open spec fn enum_variants_at(t: Seq<Token>, p: int) -> (Outcome<Seq<EnumVariantModel>>, int) {
    if check(t, p, Token::OpenBrace) {
        variants_from(t, p + 1, Seq::empty())
    } else {
        (Outcome::NoMatch, p)
    }
}

/// Generic parameters after `<`, up to and including `>`.
pub open spec fn params_from(t: Seq<Token>, p: int, acc: Seq<GenericParamModel>) -> (Outcome<
    Seq<GenericParamModel>,
>, int)
    decreases t.len() - p,
{
    let (g, q) = match peek_at(t, p) {
        Some(Token::Identifier(identifier)) => {
            if check(t, p + 1, Token::Colon) {
                let (b, q) = bounds_from(t, p + 2, Seq::empty());
                match b {
                    Outcome::Parsed(x) => (
                        Outcome::Parsed(
                            Some(GenericParamModel::Type { identifier, type_bounds: x }),
                        ),
                        q,
                    ),
                    Outcome::NoMatch => (Outcome::NoMatch, q),
                    Outcome::Unsupported => (Outcome::Unsupported, q),
                }
            } else {
                (
                    Outcome::Parsed(
                        Some(GenericParamModel::Type { identifier, type_bounds: Seq::empty() }),
                    ),
                    p + 1,
                )
            }
        },
        Some(Token::SingleQuote) => match identifier_at(t, p + 1) {
            Some(identifier) => (
                Outcome::Parsed(Some(GenericParamModel::Lifetime { identifier })),
                p + 2,
            ),
            None => (Outcome::Unsupported, p + 1),
        },
        Some(Token::Const) => match identifier_at(t, p + 1) {
            Some(identifier) => {
                if check(t, p + 2, Token::Colon) {
                    let (ty, q) = type_at(t, p + 3);
                    match ty {
                        Outcome::Parsed(x) => (
                            Outcome::Parsed(Some(GenericParamModel::Const { identifier, _type: x })),
                            q,
                        ),
                        _ => (Outcome::Unsupported, q),
                    }
                } else {
                    (Outcome::Unsupported, p + 2)
                }
            },
            None => (Outcome::Unsupported, p + 1),
        },
        Some(Token::GreaterThan) => (Outcome::Parsed(None), p + 1),
        _ => (Outcome::Unsupported, p),
    };
    match g {
        Outcome::Parsed(Some(x)) => {
            let q2 = skip(t, q, Token::Comma);
            if p < q2 <= t.len() {
                params_from(t, q2, acc.push(x))
            } else {
                (Outcome::Unsupported, q2)
            }
        },
        Outcome::Parsed(None) => (Outcome::Parsed(acc), q),
        Outcome::NoMatch => (Outcome::NoMatch, q),
        Outcome::Unsupported => (Outcome::Unsupported, q),
    }
}

/// Generic parameters in angle brackets; none if no `<` follows.
pub open spec fn generic_params_at(t: Seq<Token>, p: int) -> (Outcome<Seq<GenericParamModel>>, int) {
    if check(t, p, Token::LessThan) {
        params_from(t, p + 1, Seq::empty())
    } else {
        (Outcome::Parsed(Seq::empty()), p)
    }
}

/// A struct declaration whose `struct` keyword stands at `p`.
pub open spec fn struct_at(t: Seq<Token>, p: int, visibility: Visibility) -> (Outcome<StructModel>, int) {
    match identifier_at(t, p + 1) {
        None => (Outcome::NoMatch, p + 1),
        Some(name) => {
            let (g, q) = generic_params_at(t, p + 2);
            match g {
                Outcome::Parsed(generic_parameters) => match peek_at(t, q) {
                    None => (Outcome::NoMatch, q),
                    Some(Token::SemiColon) => (
                        Outcome::Parsed(
                            StructModel {
                                name,
                                visibility,
                                fields: FieldsModel::Unit,
                                generic_parameters,
                            },
                        ),
                        q,
                    ),
                    Some(_) => {
                        let (f, s) = fields_at(t, q);
                        match f {
                            Outcome::Parsed(fields) => (
                                Outcome::Parsed(
                                    StructModel { name, visibility, fields, generic_parameters },
                                ),
                                s,
                            ),
                            _ => (Outcome::Unsupported, s),
                        }
                    },
                },
                Outcome::NoMatch => (Outcome::NoMatch, q),
                Outcome::Unsupported => (Outcome::Unsupported, q),
            }
        },
    }
}

/// An enum declaration whose `enum` keyword stands at `p`.
pub open spec fn enum_at(t: Seq<Token>, p: int, visibility: Visibility) -> (Outcome<EnumModel>, int) {
    match identifier_at(t, p + 1) {
        None => (Outcome::NoMatch, p + 1),
        Some(name) => {
            let (g, q) = generic_params_at(t, p + 2);
            match g {
                Outcome::Parsed(generic_parameters) => {
                    let (vs, s) = enum_variants_at(t, q);
                    match vs {
                        Outcome::Parsed(variants) => (
                            Outcome::Parsed(
                                EnumModel { name, visibility, variants, generic_parameters },
                            ),
                            s,
                        ),
                        Outcome::NoMatch => (Outcome::NoMatch, s),
                        Outcome::Unsupported => (Outcome::Unsupported, s),
                    }
                },
                Outcome::NoMatch => (Outcome::NoMatch, q),
                Outcome::Unsupported => (Outcome::Unsupported, q),
            }
        },
    }
}

/// A struct or enum declaration, after attributes that are passed over.
pub open spec fn parse_at(t: Seq<Token>, p: int) -> (Outcome<ValueModel>, int) {
    let (attrs, q) = attributes_from(t, p, Seq::empty());
    match attrs {
        Outcome::Unsupported => (Outcome::Unsupported, q),
        _ => {
            let (vis, r) = visibility_at(t, q);
            match vis {
                Outcome::Parsed(v) => match peek_at(t, r) {
                    None => (Outcome::NoMatch, r),
                    Some(Token::Struct) => {
                        let (s, u) = struct_at(t, r, v);
                        (
                            match s {
                                Outcome::Parsed(x) => Outcome::Parsed(ValueModel::Struct(x)),
                                Outcome::NoMatch => Outcome::NoMatch,
                                Outcome::Unsupported => Outcome::Unsupported,
                            },
                            u,
                        )
                    },
                    Some(Token::Enum) => {
                        let (e, u) = enum_at(t, r, v);
                        (
                            match e {
                                Outcome::Parsed(x) => Outcome::Parsed(ValueModel::Enum(x)),
                                Outcome::NoMatch => Outcome::NoMatch,
                                Outcome::Unsupported => Outcome::Unsupported,
                            },
                            u,
                        )
                    },
                    Some(_) => (Outcome::Unsupported, r),
                },
                _ => (Outcome::Unsupported, r),
            }
        },
    }
}

/// A recursive-descent parser over the tokens of one declaration.
pub struct Parser<'a> {
    tokens: &'a [Token],
    i: usize,
}

impl<'a> Parser<'a> {
    /// The tokens being parsed.
    pub closed spec fn tokens(&self) -> Seq<Token> {
        self.tokens@
    }

    /// How many tokens have been read.
    pub closed spec fn position(&self) -> int {
        self.i as int
    }

    /// The position never passes the end of the tokens.
    pub closed spec fn wf(&self) -> bool {
        self.i <= self.tokens@.len()
    }

    pub fn new(tokens: &'a [Token]) -> (r: Self)
        ensures
            r.wf(),
            r.tokens() == tokens@,
            r.position() == 0,
    {
        Parser { tokens, i: 0 }
    }

    fn peek(&self) -> (r: Option<&'a Token>)
        requires
            self.wf(),
        ensures
            match r {
                Some(x) => peek_at(self.tokens@, self.i as int) == Some(*x),
                None => peek_at(self.tokens@, self.i as int) is None,
            },
    {
        if self.i < self.tokens.len() {
            Some(&self.tokens[self.i])
        } else {
            None
        }
    }

    fn advance(&mut self)
        requires
            old(self).i < old(self).tokens.len(),
        ensures
            final(self).tokens@ == old(self).tokens@,
            final(self).i == old(self).i + 1,
    {
        self.i += 1;
    }

    /// Reads the next token; at the end it stays at the end.
    fn next(&mut self) -> (r: Option<&'a Token>)
        requires
            old(self).wf(),
        ensures
            final(self).wf(),
            final(self).tokens@ == old(self).tokens@,
            match r {
                Some(x) => peek_at(old(self).tokens@, old(self).i as int) == Some(*x)
                    && final(self).i == old(self).i + 1,
                None => peek_at(old(self).tokens@, old(self).i as int) is None
                    && final(self).i == old(self).i,
            },
    {
        if self.i < self.tokens.len() {
            self.i += 1;
            Some(&self.tokens[self.i - 1])
        } else {
            None
        }
    }

    /// Passes over the next token if it is of the variant of `expect`.
    fn check_for_token(&mut self, expect: Token) -> (r: bool)
        requires
            old(self).wf(),
        ensures
            final(self).wf(),
            final(self).tokens@ == old(self).tokens@,
            r == check(old(self).tokens@, old(self).i as int, expect),
            final(self).i == skip(old(self).tokens@, old(self).i as int, expect),
    {
        if self.i < self.tokens.len() && self.tokens[self.i].kind() == expect.kind() {
            self.i += 1;
            true
        } else {
            false
        }
    }

    /// Reads a name, if one is next.
    fn check_for_identifier(&mut self) -> (r: Option<String>)
        requires
            old(self).wf(),
        ensures
            final(self).wf(),
            final(self).tokens@ == old(self).tokens@,
            r == identifier_at(old(self).tokens@, old(self).i as int),
            final(self).i == old(self).i + if r is Some { 1int } else { 0int },
    {
        if self.i < self.tokens.len() {
            if let Token::Identifier(name) = &self.tokens[self.i] {
                self.i += 1;
                return Some(name.clone());
            }
        }
        None
    }

    fn path(&mut self) -> (r: Outcome<Path>)
        requires
            old(self).wf(),
        ensures
            final(self).wf(),
            final(self).tokens@ == old(self).tokens@,
            old(self).i <= final(self).i,
            (r@, final(self).i as int) == path_at(old(self).tokens@, old(self).i as int),
            r is Parsed && starts_path(old(self).tokens@, old(self).i as int) ==> old(self).i
                < final(self).i,
        decreases old(self).tokens@.len() - old(self).i, 1int,
    {
        let ghost t = self.tokens@;
        let ghost p0 = self.i as int;
        let mut segments: Vec<PathSegment> = Vec::new();
        proof {
            assert(segments_model(segments@) =~= Seq::empty());
        }
        loop
            invariant_except_break
                path_segments(t, self.i as int, segments_model(segments@)) == path_at(t, p0),
            invariant
                self.wf(),
                self.tokens@ == t,
                t == old(self).tokens@,
                p0 == old(self).i,
                p0 <= self.i,
                segments@.len() == 0 ==> self.i == p0,
                segments@.len() > 0 ==> p0 < self.i,
            ensures
                path_at(t, p0) == (
                    Outcome::Parsed(PathModel { segments: segments_model(segments@) }),
                    self.i as int,
                ),
                segments@.len() == 0 ==> !starts_path(t, p0),
                segments@.len() > 0 ==> p0 < self.i,
            decreases t.len() - self.i,
        {
            let ghost p = self.i as int;
            let path_segment_type = match self.peek() {
                Some(Token::Identifier(name)) => {
                    let name = name.clone();
                    self.advance();
                    if self.check_for_token(Token::LessThan) {
                        match self.generic_arguments() {
                            Outcome::Parsed(args) => {
                                let segment = PathSegment {
                                    path_segment_type: PathSegmentType::Named(name),
                                    args,
                                };
                                proof {
                                    assert(segment_model(segment).args =~= arguments_model(
                                        segment.args@,
                                    ));
                                    assert(segments_model(segments@.push(segment)) =~= segments_model(
                                        segments@,
                                    ).push(segment_model(segment)));
                                }
                                segments.push(segment);
                                if !self.check_for_token(Token::Colon2) {
                                    break;
                                }
                                continue;
                            },
                            Outcome::NoMatch => return Outcome::NoMatch,
                            Outcome::Unsupported => return Outcome::Unsupported,
                        }
                    }
                    PathSegmentType::Named(name)
                },
                Some(Token::Crate) => {
                    self.advance();
                    PathSegmentType::Crate
                },
                Some(Token::Super) => {
                    self.advance();
                    PathSegmentType::Super
                },
                Some(Token::SelfLowercase) => {
                    self.advance();
                    PathSegmentType::SelfLowercase
                },
                _ => {
                    break;
                },
            };
            let segment = PathSegment { path_segment_type, args: Vec::new() };
            proof {
                assert(segment_model(segment).args =~= Seq::empty());
                assert(segments_model(segments@.push(segment)) =~= segments_model(segments@).push(
                    segment_model(segment),
                ));
            }
            segments.push(segment);
            if !self.check_for_token(Token::Colon2) {
                break;
            }
        }
        let path = Path { segments };
        proof {
            assert(path@.segments =~= segments_model(path.segments@));
        }
        Outcome::Parsed(path)
    }

    fn generic_arguments(&mut self) -> (r: Outcome<Vec<GenericArgument>>)
        requires
            old(self).wf(),
        ensures
            final(self).wf(),
            final(self).tokens@ == old(self).tokens@,
            old(self).i <= final(self).i,
            (map_outcome(r, |v: Vec<GenericArgument>| arguments_model(v@)), final(self).i as int)
                == arguments_from(old(self).tokens@, old(self).i as int, Seq::empty()),
        decreases old(self).tokens@.len() - old(self).i, 3int,
    {
        let ghost t = self.tokens@;
        let ghost p0 = self.i as int;
        let mut args: Vec<GenericArgument> = Vec::new();
        proof {
            assert(arguments_model(args@) =~= Seq::empty());
        }
        loop
            invariant
                self.wf(),
                self.tokens@ == t,
                t == old(self).tokens@,
                p0 == old(self).i,
                p0 <= self.i,
                arguments_from(t, self.i as int, arguments_model(args@)) == arguments_from(
                    t,
                    p0,
                    Seq::empty(),
                ),
            decreases t.len() - self.i,
        {
            let arg = match self.peek() {
                None => return Outcome::NoMatch,
                Some(Token::GreaterThan) => {
                    self.advance();
                    return Outcome::Parsed(args);
                },
                Some(Token::SingleQuote) => {
                    self.advance();
                    match self.check_for_identifier() {
                        Some(l) => GenericArgument::Lifetime(l),
                        None => return Outcome::NoMatch,
                    }
                },
                Some(_) => {
                    match self._type() {
                        Outcome::Parsed(x) => GenericArgument::Type(x),
                        Outcome::Unsupported => return Outcome::Unsupported,
                        Outcome::NoMatch => match self.expression() {
                            Outcome::Parsed(e) => GenericArgument::Expression(e),
                            Outcome::NoMatch => return Outcome::NoMatch,
                            Outcome::Unsupported => return Outcome::Unsupported,
                        },
                    }
                },
            };
            proof {
                assert(arguments_model(args@.push(arg)) =~= arguments_model(args@).push(
                    argument_model(arg),
                ));
            }
            args.push(arg);
            self.check_for_token(Token::Comma);
        }
    }

    fn _type(&mut self) -> (r: Outcome<Type>)
        requires
            old(self).wf(),
        ensures
            final(self).wf(),
            final(self).tokens@ == old(self).tokens@,
            old(self).i <= final(self).i,
            (r@, final(self).i as int) == type_at(old(self).tokens@, old(self).i as int),
            r is Parsed ==> old(self).i < final(self).i,
        decreases old(self).tokens@.len() - old(self).i, 2int,
    {
        match self.peek() {
            None => Outcome::NoMatch,
            Some(Token::Identifier(_)) | Some(Token::Crate) | Some(Token::Super) | Some(
                Token::SelfLowercase,
            ) => match self.path() {
                Outcome::Parsed(x) => Outcome::Parsed(Type::Name(x)),
                Outcome::NoMatch => Outcome::NoMatch,
                Outcome::Unsupported => Outcome::Unsupported,
            },
            Some(Token::OpenParentheses) => {
                self.advance();
                match self.type_list() {
                    Outcome::Parsed(v) => {
                        let ty = Type::Tuple(v);
                        proof {
                            assert(types_model(v@) =~= match type_model(ty) {
                                TypeModel::Tuple(s) => s,
                                _ => Seq::empty(),
                            });
                        }
                        Outcome::Parsed(ty)
                    },
                    Outcome::NoMatch => Outcome::NoMatch,
                    Outcome::Unsupported => Outcome::Unsupported,
                }
            },
            Some(Token::Dyn) => {
                self.advance();
                match self.type_param_bounds() {
                    Outcome::Parsed(b) => Outcome::Parsed(Type::TraitObject(b)),
                    Outcome::NoMatch => Outcome::NoMatch,
                    Outcome::Unsupported => Outcome::Unsupported,
                }
            },
            Some(Token::OpenBracket) => {
                self.advance();
                match self._type() {
                    Outcome::Parsed(x) => {
                        if !self.check_for_token(Token::SemiColon) {
                            return Outcome::NoMatch;
                        }
                        match self.expression() {
                            Outcome::Parsed(size) => {
                                self.check_for_token(Token::CloseBracket);
                                Outcome::Parsed(Type::Array { _type: Box::new(x), size })
                            },
                            _ => Outcome::Unsupported,
                        }
                    },
                    Outcome::NoMatch => Outcome::NoMatch,
                    Outcome::Unsupported => Outcome::Unsupported,
                }
            },
            Some(Token::And) => {
                self.advance();
                if !self.check_for_token(Token::SingleQuote) {
                    return Outcome::NoMatch;
                }
                let lifetime = match self.check_for_identifier() {
                    Some(l) => l,
                    None => return Outcome::NoMatch,
                };
                let mutability = if self.check_for_token(Token::Mut) {
                    Mutability::Mutable
                } else {
                    Mutability::Immutable
                };
                match self._type() {
                    Outcome::Parsed(x) => Outcome::Parsed(
                        Type::Reference { lifetime, mutability, _type: Box::new(x) },
                    ),
                    Outcome::NoMatch => Outcome::NoMatch,
                    Outcome::Unsupported => Outcome::Unsupported,
                }
            },
            Some(Token::Star) => {
                self.advance();
                let mutability = if self.check_for_token(Token::Mut) {
                    Mutability::Mutable
                } else if self.check_for_token(Token::Const) {
                    Mutability::Immutable
                } else {
                    return Outcome::NoMatch;
                };
                match self._type() {
                    Outcome::Parsed(x) => Outcome::Parsed(
                        Type::RawPointer { mutability, _type: Box::new(x) },
                    ),
                    Outcome::NoMatch => Outcome::NoMatch,
                    Outcome::Unsupported => Outcome::Unsupported,
                }
            },
            Some(Token::Fn) => {
                self.advance();
                if !self.check_for_token(Token::OpenParentheses) {
                    return Outcome::NoMatch;
                }
                match self.type_list() {
                    Outcome::Parsed(parameters) => {
                        let ghost ps = types_model(parameters@);
                        let _return = if self.check_for_token(Token::RArrow) {
                            match self._type() {
                                Outcome::Parsed(x) => Some(Box::new(x)),
                                Outcome::NoMatch => None,
                                Outcome::Unsupported => return Outcome::Unsupported,
                            }
                        } else {
                            None
                        };
                        let ty = Type::FunctionPointer { parameters, _return };
                        proof {
                            assert(ps =~= match type_model(ty) {
                                TypeModel::FunctionPointer { parameters, .. } => parameters,
                                _ => Seq::empty(),
                            });
                        }
                        Outcome::Parsed(ty)
                    },
                    Outcome::NoMatch => Outcome::NoMatch,
                    Outcome::Unsupported => Outcome::Unsupported,
                }
            },
            Some(_) => Outcome::NoMatch,
        }
    }

    fn type_list(&mut self) -> (r: Outcome<Vec<Type>>)
        requires
            old(self).wf(),
        ensures
            final(self).wf(),
            final(self).tokens@ == old(self).tokens@,
            old(self).i <= final(self).i,
            (map_outcome(r, |v: Vec<Type>| types_model(v@)), final(self).i as int) == type_list(
                old(self).tokens@,
                old(self).i as int,
                Seq::empty(),
            ),
        decreases old(self).tokens@.len() - old(self).i, 3int,
    {
        let ghost t = self.tokens@;
        let ghost p0 = self.i as int;
        let mut types: Vec<Type> = Vec::new();
        proof {
            assert(types_model(types@) =~= Seq::empty());
        }
        loop
            invariant
                self.wf(),
                self.tokens@ == t,
                t == old(self).tokens@,
                p0 == old(self).i,
                p0 <= self.i,
                type_list(t, self.i as int, types_model(types@)) == type_list(
                    t,
                    p0,
                    Seq::empty(),
                ),
            decreases t.len() - self.i,
        {
            if let Some(Token::CloseParentheses) = self.peek() {
                self.advance();
                return Outcome::Parsed(types);
            }
            match self._type() {
                Outcome::Parsed(x) => {
                    proof {
                        assert(types_model(types@.push(x)) =~= types_model(types@).push(
                            type_model(x),
                        ));
                    }
                    types.push(x);
                    self.check_for_token(Token::Comma);
                },
                Outcome::NoMatch => return Outcome::NoMatch,
                Outcome::Unsupported => return Outcome::Unsupported,
            }
        }
    }

    fn type_param_bounds(&mut self) -> (r: Outcome<TypeParamBounds>)
        requires
            old(self).wf(),
        ensures
            final(self).wf(),
            final(self).tokens@ == old(self).tokens@,
            old(self).i <= final(self).i,
            (r@, final(self).i as int) == bounds_from(
                old(self).tokens@,
                old(self).i as int,
                Seq::empty(),
            ),
            r is Parsed ==> old(self).i < final(self).i,
        decreases old(self).tokens@.len() - old(self).i, 2int,
    {
        let ghost t = self.tokens@;
        let ghost p0 = self.i as int;
        let mut trait_bounds: Vec<TypeParamBound> = Vec::new();
        proof {
            assert(bound_list_model(trait_bounds@) =~= Seq::empty());
        }
        loop
            invariant
                self.wf(),
                self.tokens@ == t,
                t == old(self).tokens@,
                p0 == old(self).i,
                p0 <= self.i,
                trait_bounds@.len() > 0 ==> p0 < self.i,
                bounds_from(t, self.i as int, bound_list_model(trait_bounds@)) == bounds_from(
                    t,
                    p0,
                    Seq::empty(),
                ),
            decreases t.len() - self.i,
        {
            let bound = match self.peek() {
                Some(Token::Identifier(_)) => match self.path() {
                    Outcome::Parsed(p) => TypeParamBound::Trait(p),
                    Outcome::NoMatch => return Outcome::NoMatch,
                    Outcome::Unsupported => return Outcome::Unsupported,
                },
                Some(Token::SingleQuote) => {
                    self.advance();
                    match self.check_for_identifier() {
                        Some(l) => TypeParamBound::Lifetime(l),
                        None => return Outcome::NoMatch,
                    }
                },
                _ => return Outcome::NoMatch,
            };
            proof {
                assert(bound_list_model(trait_bounds@.push(bound)) =~= bound_list_model(
                    trait_bounds@,
                ).push(bound_model(bound)));
            }
            trait_bounds.push(bound);
            if !self.check_for_token(Token::Plus) {
                let bounds = TypeParamBounds(trait_bounds);
                proof {
                    assert(bounds@ =~= bound_list_model(bounds.0@));
                }
                return Outcome::Parsed(bounds);
            }
        }
    }

    fn expression(&mut self) -> (r: Outcome<Expression>)
        requires
            old(self).wf(),
        ensures
            final(self).wf(),
            final(self).tokens@ == old(self).tokens@,
            old(self).i <= final(self).i,
            (r@, final(self).i as int) == expression_at(old(self).tokens@, old(self).i as int),
            r is Parsed ==> old(self).i < final(self).i,
        decreases old(self).tokens@.len() - old(self).i, 0int,
    {
        match self.peek() {
            None => Outcome::NoMatch,
            Some(Token::LiteralBool(b)) => {
                let b = *b;
                self.advance();
                Outcome::Parsed(Expression::Literal(Literal::Bool(b)))
            },
            Some(Token::FloatLiteral(s)) => {
                let s = s.clone();
                self.advance();
                Outcome::Parsed(Expression::Literal(Literal::Float(s)))
            },
            Some(Token::IntegerLiteral(i)) => {
                let v = *i as i64;
                self.advance();
                Outcome::Parsed(Expression::Literal(Literal::Integer(v)))
            },
            Some(Token::CharLiteral(c)) => {
                let c = *c;
                self.advance();
                Outcome::Parsed(Expression::Literal(Literal::Char(c)))
            },
            Some(Token::StringLiteral(s)) => {
                let s = s.clone();
                self.advance();
                Outcome::Parsed(Expression::Literal(Literal::String(s)))
            },
            Some(Token::Identifier(_)) => {
                self.advance();
                match self.path() {
                    Outcome::Parsed(p) => Outcome::Parsed(Expression::Path(p)),
                    Outcome::NoMatch => Outcome::NoMatch,
                    Outcome::Unsupported => Outcome::Unsupported,
                }
            },
            Some(_) => Outcome::Unsupported,
        }
    }

    fn visibility(&mut self) -> (r: Outcome<Visibility>)
        requires
            old(self).wf(),
        ensures
            final(self).wf(),
            final(self).tokens@ == old(self).tokens@,
            old(self).i <= final(self).i,
            (r@, final(self).i as int) == visibility_at(old(self).tokens@, old(self).i as int),
    {
        match self.peek() {
            None => Outcome::NoMatch,
            Some(Token::Pub) => {
                self.advance();
                match self.peek() {
                    None => Outcome::NoMatch,
                    Some(Token::OpenParentheses) => {
                        self.advance();
                        let visibility = match self.next() {
                            None => return Outcome::NoMatch,
                            Some(Token::Crate) => Visibility::Crate,
                            Some(Token::Super) => Visibility::Super,
                            Some(Token::SelfLowercase) => Visibility::Private,
                            Some(Token::In) => return Outcome::Unsupported,
                            Some(_) => {
                                self.i -= 1;
                                return Outcome::NoMatch;
                            },
                        };
                        if !self.check_for_token(Token::CloseParentheses) {
                            return Outcome::NoMatch;
                        }
                        Outcome::Parsed(visibility)
                    },
                    Some(_) => Outcome::Parsed(Visibility::Pub),
                }
            },
            Some(_) => Outcome::Parsed(Visibility::Private),
        }
    }

    fn attribute(&mut self) -> (r: Outcome<Attribute>)
        requires
            old(self).wf(),
        ensures
            final(self).wf(),
            final(self).tokens@ == old(self).tokens@,
            old(self).i <= final(self).i,
            (r@, final(self).i as int) == attribute_at(old(self).tokens@, old(self).i as int),
            r is Parsed ==> old(self).i < final(self).i,
    {
        if !self.check_for_token(Token::Pound) {
            return Outcome::NoMatch;
        }
        let attribute_style = if self.check_for_token(Token::Not) {
            AttributeStyle::Inner
        } else {
            AttributeStyle::Outer
        };
        if !self.check_for_token(Token::OpenBracket) {
            return Outcome::NoMatch;
        }
        let path = match self.path() {
            Outcome::Parsed(p) => p,
            Outcome::NoMatch => return Outcome::NoMatch,
            Outcome::Unsupported => return Outcome::Unsupported,
        };
        let tokens = match self.attribute_tokens() {
            Some(v) => v,
            None => return Outcome::NoMatch,
        };
        Outcome::Parsed(Attribute { path, tokens, attribute_style })
    }

    /// Reads the tokens of an attribute up to and including `]`.
    fn attribute_tokens(&mut self) -> (r: Option<Vec<Token>>)
        requires
            old(self).wf(),
        ensures
            final(self).wf(),
            final(self).tokens@ == old(self).tokens@,
            old(self).i <= final(self).i,
            attribute_tokens(old(self).tokens@, old(self).i as int, Seq::empty()) == (
                match r {
                    Some(v) => Outcome::Parsed(v@),
                    None => Outcome::NoMatch,
                },
                final(self).i as int,
            ),
    {
        let ghost t = self.tokens@;
        let ghost s0 = self.i as int;
        let mut tokens: Vec<Token> = Vec::new();
        loop
            invariant
                self.wf(),
                self.tokens@ == t,
                t == old(self).tokens@,
                s0 == old(self).i,
                s0 <= self.i,
                attribute_tokens(t, self.i as int, tokens@) == attribute_tokens(
                    t,
                    s0,
                    Seq::empty(),
                ),
            decreases t.len() - self.i,
        {
            if self.check_for_token(Token::CloseBracket) {
                return Some(tokens);
            }
            match self.next() {
                Some(token) => tokens.push(token.clone()),
                None => return None,
            }
        }
    }

    /// Reads attributes until one does not parse.
    fn attributes(&mut self) -> (r: Outcome<Vec<Attribute>>)
        requires
            old(self).wf(),
        ensures
            final(self).wf(),
            final(self).tokens@ == old(self).tokens@,
            old(self).i <= final(self).i,
            (map_outcome(r, |v: Vec<Attribute>| attributes_model(v@)), final(self).i as int)
                == attributes_from(old(self).tokens@, old(self).i as int, Seq::empty()),
    {
        let ghost t = self.tokens@;
        let ghost p0 = self.i as int;
        let mut attributes: Vec<Attribute> = Vec::new();
        proof {
            assert(attributes_model(attributes@) =~= Seq::empty());
        }
        loop
            invariant
                self.wf(),
                self.tokens@ == t,
                t == old(self).tokens@,
                p0 == old(self).i,
                p0 <= self.i,
                attributes_from(t, self.i as int, attributes_model(attributes@))
                    == attributes_from(t, p0, Seq::empty()),
            decreases t.len() - self.i,
        {
            match self.attribute() {
                Outcome::Parsed(a) => {
                    proof {
                        assert(attributes_model(attributes@.push(a)) =~= attributes_model(
                            attributes@,
                        ).push(attribute_model(a)));
                    }
                    attributes.push(a);
                },
                Outcome::NoMatch => return Outcome::Parsed(attributes),
                Outcome::Unsupported => return Outcome::Unsupported,
            }
        }
    }

    fn fields(&mut self) -> (r: Outcome<Fields>)
        requires
            old(self).wf(),
        ensures
            final(self).wf(),
            final(self).tokens@ == old(self).tokens@,
            old(self).i <= final(self).i,
            (r@, final(self).i as int) == fields_at(old(self).tokens@, old(self).i as int),
    {
        match self.peek() {
            None => Outcome::NoMatch,
            Some(Token::OpenBrace) => {
                self.advance();
                self.named_fields()
            },
            Some(Token::OpenParentheses) => {
                self.advance();
                self.tuple_fields()
            },
            Some(_) => Outcome::Unsupported,
        }
    }

    /// Named fields up to and including `}`.
    fn named_fields(&mut self) -> (r: Outcome<Fields>)
        requires
            old(self).wf(),
        ensures
            final(self).wf(),
            final(self).tokens@ == old(self).tokens@,
            old(self).i <= final(self).i,
            (r@, final(self).i as int) == named_fields(
                old(self).tokens@,
                old(self).i as int,
                Seq::empty(),
            ),
    {
        let ghost t = self.tokens@;
        let ghost p0 = self.i as int;
        let mut members: Vec<Field> = Vec::new();
        proof {
            assert(field_list_model(members@) =~= Seq::empty());
        }
        loop
            invariant
                self.wf(),
                self.tokens@ == t,
                t == old(self).tokens@,
                p0 == old(self).i,
                p0 <= self.i,
                named_fields(t, self.i as int, field_list_model(members@)) == named_fields(
                    t,
                    p0,
                    Seq::empty(),
                ),
            decreases t.len() - self.i,
        {
            let attributes = match self.attributes() {
                Outcome::Parsed(a) => a,
                Outcome::NoMatch => return Outcome::NoMatch,
                Outcome::Unsupported => return Outcome::Unsupported,
            };
            let visibility = match self.visibility() {
                Outcome::Parsed(v) => v,
                Outcome::NoMatch => return Outcome::NoMatch,
                Outcome::Unsupported => return Outcome::Unsupported,
            };
            match self.next() {
                None => return Outcome::NoMatch,
                Some(Token::Identifier(name)) => {
                    let name = name.clone();
                    if !self.check_for_token(Token::Colon) {
                        return Outcome::NoMatch;
                    }
                    let _type = match self._type() {
                        Outcome::Parsed(x) => x,
                        Outcome::NoMatch => return Outcome::NoMatch,
                        Outcome::Unsupported => return Outcome::Unsupported,
                    };
                    let field = Field { attributes, name: Some(name), _type, visibility };
                    proof {
                        assert(field_list_model(members@.push(field)) =~= field_list_model(
                            members@,
                        ).push(field_model(field)));
                    }
                    members.push(field);
                    self.check_for_token(Token::Comma);
                },
                Some(Token::CloseBrace) => return Outcome::Parsed(Fields::Struct(members)),
                Some(_) => return Outcome::NoMatch,
            }
        }
    }

    /// Tuple fields up to and including `)`.
    fn tuple_fields(&mut self) -> (r: Outcome<Fields>)
        requires
            old(self).wf(),
        ensures
            final(self).wf(),
            final(self).tokens@ == old(self).tokens@,
            old(self).i <= final(self).i,
            (r@, final(self).i as int) == tuple_fields(
                old(self).tokens@,
                old(self).i as int,
                Seq::empty(),
            ),
    {
        let ghost t = self.tokens@;
        let ghost p0 = self.i as int;
        let mut members: Vec<Field> = Vec::new();
        proof {
            assert(field_list_model(members@) =~= Seq::empty());
        }
        loop
            invariant
                self.wf(),
                self.tokens@ == t,
                t == old(self).tokens@,
                p0 == old(self).i,
                p0 <= self.i,
                tuple_fields(t, self.i as int, field_list_model(members@)) == tuple_fields(
                    t,
                    p0,
                    Seq::empty(),
                ),
            decreases t.len() - self.i,
        {
            let attributes = match self.attributes() {
                Outcome::Parsed(a) => a,
                Outcome::NoMatch => return Outcome::NoMatch,
                Outcome::Unsupported => return Outcome::Unsupported,
            };
            let visibility = match self.visibility() {
                Outcome::Parsed(v) => v,
                Outcome::NoMatch => return Outcome::NoMatch,
                Outcome::Unsupported => return Outcome::Unsupported,
            };
            match self.peek() {
                None => return Outcome::NoMatch,
                Some(Token::CloseParentheses) => {
                    self.advance();
                    return Outcome::Parsed(Fields::Tuple(members));
                },
                Some(_) => {
                    let _type = match self._type() {
                        Outcome::Parsed(x) => x,
                        _ => return Outcome::Unsupported,
                    };
                    let field = Field { attributes, name: None, _type, visibility };
                    proof {
                        assert(field_list_model(members@.push(field)) =~= field_list_model(
                            members@,
                        ).push(field_model(field)));
                    }
                    members.push(field);
                    self.check_for_token(Token::Comma);
                },
            }
        }
    }

    fn enum_variants(&mut self) -> (r: Outcome<Vec<EnumVariant>>)
        requires
            old(self).wf(),
        ensures
            final(self).wf(),
            final(self).tokens@ == old(self).tokens@,
            old(self).i <= final(self).i,
            (map_outcome(r, |v: Vec<EnumVariant>| variants_model(v@)), final(self).i as int)
                == enum_variants_at(old(self).tokens@, old(self).i as int),
    {
        if !self.check_for_token(Token::OpenBrace) {
            return Outcome::NoMatch;
        }
        let ghost t = self.tokens@;
        let ghost p0 = self.i as int;
        let mut variants: Vec<EnumVariant> = Vec::new();
        proof {
            assert(variants_model(variants@) =~= Seq::empty());
        }
        loop
            invariant
                self.wf(),
                self.tokens@ == t,
                t == old(self).tokens@,
                p0 == old(self).i + 1,
                p0 <= self.i,
                check(t, old(self).i as int, Token::OpenBrace),
                variants_from(t, self.i as int, variants_model(variants@)) == variants_from(
                    t,
                    p0,
                    Seq::empty(),
                ),
            decreases t.len() - self.i,
        {
            let attributes = match self.attributes() {
                Outcome::Parsed(a) => a,
                Outcome::NoMatch => return Outcome::NoMatch,
                Outcome::Unsupported => return Outcome::Unsupported,
            };
            match self.next() {
                None => return Outcome::NoMatch,
                Some(Token::Identifier(name)) => {
                    let name = name.clone();
                    let fields = match self.peek() {
                        None => return Outcome::NoMatch,
                        Some(Token::Comma) | Some(Token::CloseBrace) => Fields::Unit,
                        Some(Token::OpenBrace) | Some(Token::OpenParentheses) => match self.fields() {
                            Outcome::Parsed(f) => f,
                            Outcome::NoMatch => return Outcome::NoMatch,
                            Outcome::Unsupported => return Outcome::Unsupported,
                        },
                        Some(_) => return Outcome::NoMatch,
                    };
                    let variant = EnumVariant { attributes, fields, name };
                    proof {
                        assert(variants_model(variants@.push(variant)) =~= variants_model(
                            variants@,
                        ).push(variant_model(variant)));
                    }
                    variants.push(variant);
                    self.check_for_token(Token::Comma);
                },
                Some(Token::CloseBrace) => return Outcome::Parsed(variants),
                Some(_) => return Outcome::NoMatch,
            }
        }
    }

    /// Generic parameters after `<`, up to and including `>`.
    fn generic_param_list(&mut self) -> (r: Outcome<Vec<GenericParam>>)
        requires
            old(self).wf(),
        ensures
            final(self).wf(),
            final(self).tokens@ == old(self).tokens@,
            old(self).i <= final(self).i,
            (map_outcome(r, |v: Vec<GenericParam>| generic_param_list_model(v@)), final(self).i as int)
                == params_from(old(self).tokens@, old(self).i as int, Seq::empty()),
    {
        let ghost t = self.tokens@;
        let ghost p0 = self.i as int;
        let mut generic_params: Vec<GenericParam> = Vec::new();
        proof {
            assert(generic_param_list_model(generic_params@) =~= Seq::empty());
        }
        loop
            invariant
                self.wf(),
                self.tokens@ == t,
                t == old(self).tokens@,
                p0 == old(self).i,
                p0 <= self.i,
                params_from(t, self.i as int, generic_param_list_model(generic_params@))
                    == params_from(t, p0, Seq::empty()),
            decreases t.len() - self.i,
        {
            let param = match self.peek() {
                Some(Token::Identifier(identifier)) => {
                    let identifier = identifier.clone();
                    self.advance();
                    let type_bounds = if self.check_for_token(Token::Colon) {
                        match self.type_param_bounds() {
                            Outcome::Parsed(b) => b,
                            Outcome::NoMatch => return Outcome::NoMatch,
                            Outcome::Unsupported => return Outcome::Unsupported,
                        }
                    } else {
                        let b = TypeParamBounds(Vec::new());
                        proof {
                            assert(b@ =~= Seq::empty());
                        }
                        b
                    };
                    GenericParam::Type { identifier, type_bounds }
                },
                Some(Token::SingleQuote) => {
                    self.advance();
                    match self.check_for_identifier() {
                        Some(identifier) => GenericParam::Lifetime { identifier },
                        None => return Outcome::Unsupported,
                    }
                },
                Some(Token::Const) => {
                    self.advance();
                    let identifier = match self.check_for_identifier() {
                        Some(identifier) => identifier,
                        None => return Outcome::Unsupported,
                    };
                    if !self.check_for_token(Token::Colon) {
                        return Outcome::Unsupported;
                    }
                    let _type = match self._type() {
                        Outcome::Parsed(x) => x,
                        _ => return Outcome::Unsupported,
                    };
                    GenericParam::Const { identifier, _type }
                },
                Some(Token::GreaterThan) => {
                    self.advance();
                    return Outcome::Parsed(generic_params);
                },
                _ => return Outcome::Unsupported,
            };
            proof {
                assert(generic_param_list_model(generic_params@.push(param))
                    =~= generic_param_list_model(generic_params@).push(
                    generic_param_model(param),
                ));
            }
            generic_params.push(param);
            self.check_for_token(Token::Comma);
        }
    }

    /// Generic parameters in angle brackets; empty if no `<` follows.
    fn generic_params(&mut self) -> (r: Outcome<GenericParams>)
        requires
            old(self).wf(),
        ensures
            final(self).wf(),
            final(self).tokens@ == old(self).tokens@,
            old(self).i <= final(self).i,
            (r@, final(self).i as int) == generic_params_at(
                old(self).tokens@,
                old(self).i as int,
            ),
    {
        let list = if let Some(Token::LessThan) = self.peek() {
            self.advance();
            match self.generic_param_list() {
                Outcome::Parsed(v) => v,
                Outcome::NoMatch => return Outcome::NoMatch,
                Outcome::Unsupported => return Outcome::Unsupported,
            }
        } else {
            let v: Vec<GenericParam> = Vec::new();
            proof {
                assert(generic_param_list_model(v@) =~= Seq::empty());
            }
            v
        };
        let params = GenericParams(list);
        proof {
            assert(params@ =~= generic_param_list_model(params.0@));
        }
        Outcome::Parsed(params)
    }

    fn _struct(&mut self, visibility: Visibility) -> (r: Outcome<Struct>)
        requires
            old(self).wf(),
            old(self).i < old(self).tokens@.len(),
        ensures
            final(self).wf(),
            final(self).tokens@ == old(self).tokens@,
            old(self).i <= final(self).i,
            (r@, final(self).i as int) == struct_at(
                old(self).tokens@,
                old(self).i as int,
                visibility,
            ),
    {
        self.advance();
        let name = match self.check_for_identifier() {
            Some(name) => name,
            None => return Outcome::NoMatch,
        };
        let generic_parameters = match self.generic_params() {
            Outcome::Parsed(g) => g,
            Outcome::NoMatch => return Outcome::NoMatch,
            Outcome::Unsupported => return Outcome::Unsupported,
        };
        match self.peek() {
            None => Outcome::NoMatch,
            Some(Token::SemiColon) => Outcome::Parsed(
                Struct { name, visibility, fields: Fields::Unit, generic_parameters },
            ),
            Some(_) => match self.fields() {
                Outcome::Parsed(fields) => Outcome::Parsed(
                    Struct { name, visibility, fields, generic_parameters },
                ),
                _ => Outcome::Unsupported,
            },
        }
    }

    fn _enum(&mut self, visibility: Visibility) -> (r: Outcome<Enum>)
        requires
            old(self).wf(),
            old(self).i < old(self).tokens@.len(),
        ensures
            final(self).wf(),
            final(self).tokens@ == old(self).tokens@,
            old(self).i <= final(self).i,
            (r@, final(self).i as int) == enum_at(
                old(self).tokens@,
                old(self).i as int,
                visibility,
            ),
    {
        self.advance();
        let name = match self.check_for_identifier() {
            Some(name) => name,
            None => return Outcome::NoMatch,
        };
        let generic_parameters = match self.generic_params() {
            Outcome::Parsed(g) => g,
            Outcome::NoMatch => return Outcome::NoMatch,
            Outcome::Unsupported => return Outcome::Unsupported,
        };
        let variants = match self.enum_variants() {
            Outcome::Parsed(v) => v,
            Outcome::NoMatch => return Outcome::NoMatch,
            Outcome::Unsupported => return Outcome::Unsupported,
        };
        let e = Enum { name, variants, visibility, generic_parameters };
        proof {
            assert(e@.variants =~= variants_model(e.variants@));
        }
        Outcome::Parsed(e)
    }

    /// Parses a struct or enum declaration, passing over the attributes before
    /// it; says which inputs it does not handle instead of failing on them.
    pub fn try_parse(&mut self) -> (r: Outcome<Value>)
        requires
            old(self).wf(),
        ensures
            final(self).wf(),
            final(self).tokens() == old(self).tokens(),
            (r@, final(self).position()) == parse_at(old(self).tokens(), old(self).position()),
    {
        if let Outcome::Unsupported = self.attributes() {
            return Outcome::Unsupported;
        }
        let visibility = match self.visibility() {
            Outcome::Parsed(v) => v,
            _ => return Outcome::Unsupported,
        };
        match self.peek() {
            None => Outcome::NoMatch,
            Some(Token::Struct) => match self._struct(visibility) {
                Outcome::Parsed(s) => Outcome::Parsed(Value::Struct(s)),
                Outcome::NoMatch => Outcome::NoMatch,
                Outcome::Unsupported => Outcome::Unsupported,
            },
            Some(Token::Enum) => match self._enum(visibility) {
                Outcome::Parsed(e) => Outcome::Parsed(Value::Enum(e)),
                Outcome::NoMatch => Outcome::NoMatch,
                Outcome::Unsupported => Outcome::Unsupported,
            },
            Some(_) => Outcome::Unsupported,
        }
    }

    /// Parses a struct or enum declaration, passing over the attributes before
    /// it.
    pub fn parse(&mut self) -> (r: Option<Value>)
        requires
            old(self).wf(),
            !(parse_at(old(self).tokens(), old(self).position()).0 is Unsupported),
        ensures
            final(self).wf(),
            final(self).tokens() == old(self).tokens(),
            final(self).position() == parse_at(old(self).tokens(), old(self).position()).1,
            match r {
                Some(v) => parse_at(old(self).tokens(), old(self).position()).0 == Outcome::Parsed(
                    v@,
                ),
                None => parse_at(old(self).tokens(), old(self).position()).0 is NoMatch,
            },
    {
        match self.try_parse() {
            Outcome::Parsed(v) => Some(v),
            _ => None,
        }
    }
}

} // verus!
