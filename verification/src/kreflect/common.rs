use vstd::prelude::*;

verus! {

/// Who can see an item.
#[derive(Clone, Copy, Debug, PartialEq, Eq, Structural)]
pub enum Visibility {
    Private,
    Pub,
    Crate,
    Super,
}

impl Visibility {
    /// The keyword that gives this visibility; empty for a private item.
    pub open spec fn spec_text(&self) -> Seq<char> {
        match self {
            Visibility::Private => Seq::empty(),
            Visibility::Pub => seq!['p', 'u', 'b'],
            Visibility::Crate => seq!['c', 'r', 'a', 't', 'e'],
            Visibility::Super => seq!['s', 'u', 'p', 'e', 'r'],
        }
    }

    pub fn as_string(&self) -> (r: String)
        ensures
            r@ == self.spec_text(),
    {
        let s = match self {
            Visibility::Private => "",
            Visibility::Pub => "pub",
            Visibility::Crate => "crate",
            Visibility::Super => "super",
        };
        proof {
            reveal_strlit("");
            reveal_strlit("pub");
            reveal_strlit("crate");
            reveal_strlit("super");
        }
        s.to_owned()
    }
}

/// Whether a binding or a reference allows changes.
#[derive(Clone, Copy, Debug, PartialEq, Eq, Structural)]
pub enum Mutability {
    Mutable,
    Immutable,
}

impl Mutability {
    /// `mut` for a mutable binding, empty otherwise.
    pub open spec fn spec_text(&self) -> Seq<char> {
        match self {
            Mutability::Mutable => seq!['m', 'u', 't'],
            Mutability::Immutable => Seq::empty(),
        }
    }

    pub fn as_string(&self) -> (r: String)
        ensures
            r@ == self.spec_text(),
    {
        let s = match self {
            Mutability::Mutable => "mut",
            Mutability::Immutable => "",
        };
        proof {
            reveal_strlit("mut");
            reveal_strlit("");
        }
        s.to_owned()
    }
}

/// Whether an attribute applies to what follows it (`#[..]`) or to what
/// holds it (`#![..]`).
#[derive(Clone, Copy, Debug, PartialEq, Eq, Structural)]
pub enum AttributeStyle {
    Outer,
    Inner,
}

/// A token of Rust source, as the derive macros hand it to the parser.
#[derive(Debug)]
pub enum Token {
    For,
    Struct,
    Enum,
    Fn,
    In,
    Pub,
    Use,
    OpenBrace,
    CloseBrace,
    OpenBracket,
    CloseBracket,
    PlusEqual,
    MinusEqual,
    TimesEqual,
    Colon,
    Plus,
    Star,
    /// `::`
    Colon2,
    Comma,
    LessThan,
    LessThanOrEqual,
    GreaterThan,
    GreaterThanOrEqual,
    OpenParentheses,
    CloseParentheses,
    Pound,
    Crate,
    SelfLowercase,
    Super,
    SingleQuote,
    SemiColon,
    Dyn,
    And,
    Mut,
    Not,
    Equal,
    Const,
    CharLiteral(char),
    /// The value of a string literal.
    StringLiteral(String),
    LiteralBool(bool),
    IntegerLiteral(i128),
    /// The text of a float literal.
    FloatLiteral(String),
    BoolLiteral(bool),
    Identifier(String),
    RArrow,
}

impl Token {
    /// Which variant this token is, payload aside.
    pub open spec fn spec_kind(&self) -> int {
        match self {
            Token::For => 0,
            Token::Struct => 1,
            Token::Enum => 2,
            Token::Fn => 3,
            Token::In => 4,
            Token::Pub => 5,
            Token::Use => 6,
            Token::OpenBrace => 7,
            Token::CloseBrace => 8,
            Token::OpenBracket => 9,
            Token::CloseBracket => 10,
            Token::PlusEqual => 11,
            Token::MinusEqual => 12,
            Token::TimesEqual => 13,
            Token::Colon => 14,
            Token::Plus => 15,
            Token::Star => 16,
            Token::Colon2 => 17,
            Token::Comma => 18,
            Token::LessThan => 19,
            Token::LessThanOrEqual => 20,
            Token::GreaterThan => 21,
            Token::GreaterThanOrEqual => 22,
            Token::OpenParentheses => 23,
            Token::CloseParentheses => 24,
            Token::Pound => 25,
            Token::Crate => 26,
            Token::SelfLowercase => 27,
            Token::Super => 28,
            Token::SingleQuote => 29,
            Token::SemiColon => 30,
            Token::Dyn => 31,
            Token::And => 32,
            Token::Mut => 33,
            Token::Not => 34,
            Token::Equal => 35,
            Token::Const => 36,
            Token::CharLiteral(..) => 37,
            Token::StringLiteral(..) => 38,
            Token::LiteralBool(..) => 39,
            Token::IntegerLiteral(..) => 40,
            Token::FloatLiteral(..) => 41,
            Token::BoolLiteral(..) => 42,
            Token::Identifier(..) => 43,
            Token::RArrow => 44,
        }
    }

    pub fn kind(&self) -> (r: u8)
        ensures
            r == self.spec_kind(),
    {
        match self {
            Token::For => 0,
            Token::Struct => 1,
            Token::Enum => 2,
            Token::Fn => 3,
            Token::In => 4,
            Token::Pub => 5,
            Token::Use => 6,
            Token::OpenBrace => 7,
            Token::CloseBrace => 8,
            Token::OpenBracket => 9,
            Token::CloseBracket => 10,
            Token::PlusEqual => 11,
            Token::MinusEqual => 12,
            Token::TimesEqual => 13,
            Token::Colon => 14,
            Token::Plus => 15,
            Token::Star => 16,
            Token::Colon2 => 17,
            Token::Comma => 18,
            Token::LessThan => 19,
            Token::LessThanOrEqual => 20,
            Token::GreaterThan => 21,
            Token::GreaterThanOrEqual => 22,
            Token::OpenParentheses => 23,
            Token::CloseParentheses => 24,
            Token::Pound => 25,
            Token::Crate => 26,
            Token::SelfLowercase => 27,
            Token::Super => 28,
            Token::SingleQuote => 29,
            Token::SemiColon => 30,
            Token::Dyn => 31,
            Token::And => 32,
            Token::Mut => 33,
            Token::Not => 34,
            Token::Equal => 35,
            Token::Const => 36,
            Token::CharLiteral(..) => 37,
            Token::StringLiteral(..) => 38,
            Token::LiteralBool(..) => 39,
            Token::IntegerLiteral(..) => 40,
            Token::FloatLiteral(..) => 41,
            Token::BoolLiteral(..) => 42,
            Token::Identifier(..) => 43,
            Token::RArrow => 44,
        }
    }
}

impl Clone for Token {
    fn clone(&self) -> (r: Token)
        ensures
            r == *self,
    {
        match self {
            Token::For => Token::For,
            Token::Struct => Token::Struct,
            Token::Enum => Token::Enum,
            Token::Fn => Token::Fn,
            Token::In => Token::In,
            Token::Pub => Token::Pub,
            Token::Use => Token::Use,
            Token::OpenBrace => Token::OpenBrace,
            Token::CloseBrace => Token::CloseBrace,
            Token::OpenBracket => Token::OpenBracket,
            Token::CloseBracket => Token::CloseBracket,
            Token::PlusEqual => Token::PlusEqual,
            Token::MinusEqual => Token::MinusEqual,
            Token::TimesEqual => Token::TimesEqual,
            Token::Colon => Token::Colon,
            Token::Plus => Token::Plus,
            Token::Star => Token::Star,
            Token::Colon2 => Token::Colon2,
            Token::Comma => Token::Comma,
            Token::LessThan => Token::LessThan,
            Token::LessThanOrEqual => Token::LessThanOrEqual,
            Token::GreaterThan => Token::GreaterThan,
            Token::GreaterThanOrEqual => Token::GreaterThanOrEqual,
            Token::OpenParentheses => Token::OpenParentheses,
            Token::CloseParentheses => Token::CloseParentheses,
            Token::Pound => Token::Pound,
            Token::Crate => Token::Crate,
            Token::SelfLowercase => Token::SelfLowercase,
            Token::Super => Token::Super,
            Token::SingleQuote => Token::SingleQuote,
            Token::SemiColon => Token::SemiColon,
            Token::Dyn => Token::Dyn,
            Token::And => Token::And,
            Token::Mut => Token::Mut,
            Token::Not => Token::Not,
            Token::Equal => Token::Equal,
            Token::Const => Token::Const,
            Token::CharLiteral(v) => Token::CharLiteral(*v),
            Token::StringLiteral(v) => Token::StringLiteral(v.clone()),
            Token::LiteralBool(v) => Token::LiteralBool(*v),
            Token::IntegerLiteral(v) => Token::IntegerLiteral(*v),
            Token::FloatLiteral(v) => Token::FloatLiteral(v.clone()),
            Token::BoolLiteral(v) => Token::BoolLiteral(*v),
            Token::Identifier(v) => Token::Identifier(v.clone()),
            Token::RArrow => Token::RArrow,
        }
    }
}


/// What a segment of a path names.
#[derive(Debug)]
pub enum PathSegmentType {
    Named(String),
    Crate,
    Super,
    SelfLowercase,
}

/// A literal in an expression. A float keeps the text it was written with.
#[derive(Debug)]
pub enum Literal {
    String(String),
    Integer(i64),
    Bool(bool),
    Char(char),
    Float(String),
}

/// A bound in a list such as `Clone + 'a`.
#[derive(Debug)]
pub enum TypeParamBound {
    Trait(Path),
    Lifetime(String),
}

#[derive(Debug)]
pub struct TypeParamBounds(pub Vec<TypeParamBound>);

#[derive(Debug)]
pub enum Type {
    Name(Path),
    Tuple(Vec<Type>),
    Array { _type: Box<Type>, size: Expression },
    Reference { lifetime: String, mutability: Mutability, _type: Box<Type> },
    TraitObject(TypeParamBounds),
    RawPointer { mutability: Mutability, _type: Box<Type> },
    FunctionPointer { parameters: Vec<Type>, _return: Option<Box<Type>> },
}

#[derive(Debug)]
pub struct Attribute {
    pub path: Path,
    pub tokens: Vec<Token>,
    pub attribute_style: AttributeStyle,
}

#[derive(Debug)]
pub struct Field {
    pub attributes: Vec<Attribute>,
    pub name: Option<String>,
    pub _type: Type,
    pub visibility: Visibility,
}

#[derive(Debug)]
pub enum Fields {
    Tuple(Vec<Field>),
    Struct(Vec<Field>),
    Unit,
}

/// A `struct` declaration.
#[derive(Debug)]
pub struct Struct {
    pub name: String,
    pub visibility: Visibility,
    pub fields: Fields,
    pub generic_parameters: GenericParams,
}

#[derive(Debug)]
pub struct EnumVariant {
    pub attributes: Vec<Attribute>,
    pub name: String,
    pub fields: Fields,
}

/// An `enum` declaration.
#[derive(Debug)]
pub struct Enum {
    pub name: String,
    pub visibility: Visibility,
    pub variants: Vec<EnumVariant>,
    pub generic_parameters: GenericParams,
}

/// A declaration that a derive macro is applied to.
#[derive(Debug)]
pub enum Value {
    Struct(Struct),
    Enum(Enum),
}

#[derive(Debug)]
pub struct ConstParameter {
    pub identifier: String,
    pub _type: Type,
}

#[derive(Debug)]
pub enum GenericParam {
    Type { identifier: String, type_bounds: TypeParamBounds },
    Lifetime { identifier: String },
    Const { identifier: String, _type: Type },
}

#[derive(Debug)]
pub struct GenericParams(pub Vec<GenericParam>);

#[derive(Debug)]
pub enum GenericArgument {
    Type(Type),
    Lifetime(String),
    Expression(Expression),
}

#[derive(Debug)]
pub struct PathSegment {
    pub path_segment_type: PathSegmentType,
    pub args: Vec<GenericArgument>,
}

#[derive(Debug)]
pub struct Path {
    pub segments: Vec<PathSegment>,
}

#[derive(Debug)]
pub struct ReferenceExpression {
    pub mutability: Mutability,
    pub expression: Box<Expression>,
}

#[derive(Debug)]
pub struct Macro {
    pub _path: Path,
}

#[derive(Debug)]
pub enum Expression {
    Literal(Literal),
    Call { function: Box<Expression>, arguments: Vec<Expression> },
    Macro(Macro),
    Path(Path),
    Reference(ReferenceExpression),
    Struct(StructExpression),
    /// Text inserted as it is.
    Raw(String),
}

#[derive(Debug)]
pub struct FieldValue {
    pub name: String,
    pub expression: Expression,
}

#[derive(Debug)]
pub struct StructExpression {
    pub path: Path,
    pub fields: Vec<FieldValue>,
}

pub struct ItemStatic {
    pub name: String,
    pub mutability: Mutability,
    pub visibility: Visibility,
    pub _type: Type,
    pub expression: Expression,
}

pub enum Item {
    ItemStatic(ItemStatic),
    Struct(Struct),
}

// ---------------------------------------------------------------------------
// Mathematical models of the syntax tree: the same shapes, with sequences in
// place of vectors.

pub enum GenericArgumentModel {
    Type(TypeModel),
    Lifetime(String),
    Expression(ExpressionModel),
}

pub struct PathSegmentModel {
    pub path_segment_type: PathSegmentType,
    pub args: Seq<GenericArgumentModel>,
}

pub struct PathModel {
    pub segments: Seq<PathSegmentModel>,
}

pub enum ExpressionModel {
    Literal(Literal),
    Call { function: Box<ExpressionModel>, arguments: Seq<ExpressionModel> },
    Macro(PathModel),
    Path(PathModel),
    Reference { mutability: Mutability, expression: Box<ExpressionModel> },
    Struct { path: PathModel, fields: Seq<(String, ExpressionModel)> },
    Raw(String),
}

pub enum TypeParamBoundModel {
    Trait(PathModel),
    Lifetime(String),
}

pub enum TypeModel {
    Name(PathModel),
    Tuple(Seq<TypeModel>),
    Array { _type: Box<TypeModel>, size: ExpressionModel },
    Reference { lifetime: String, mutability: Mutability, _type: Box<TypeModel> },
    TraitObject(Seq<TypeParamBoundModel>),
    RawPointer { mutability: Mutability, _type: Box<TypeModel> },
    FunctionPointer { parameters: Seq<TypeModel>, _return: Option<Box<TypeModel>> },
}

pub open spec fn path_model(p: Path) -> PathModel
    decreases p,
{
    PathModel {
        segments: Seq::new(
            p.segments@.len(),
            |i: int|
                if 0 <= i < p.segments@.len() {
                    segment_model(p.segments@[i])
                } else {
                    PathSegmentModel { path_segment_type: PathSegmentType::Crate, args: Seq::empty() }
                },
        ),
    }
}

pub open spec fn segment_model(s: PathSegment) -> PathSegmentModel
    decreases s,
{
    PathSegmentModel {
        path_segment_type: s.path_segment_type,
        args: Seq::new(
            s.args@.len(),
            |i: int|
                if 0 <= i < s.args@.len() {
                    argument_model(s.args@[i])
                } else {
                    GenericArgumentModel::Lifetime(s.path_segment_type->Named_0)
                },
        ),
    }
}

pub open spec fn argument_model(a: GenericArgument) -> GenericArgumentModel
    decreases a,
{
    match a {
        GenericArgument::Type(t) => GenericArgumentModel::Type(type_model(t)),
        GenericArgument::Lifetime(l) => GenericArgumentModel::Lifetime(l),
        GenericArgument::Expression(e) => GenericArgumentModel::Expression(expression_model(e)),
    }
}

pub open spec fn type_model(t: Type) -> TypeModel
    decreases t,
{
    match t {
        Type::Name(p) => TypeModel::Name(path_model(p)),
        Type::Tuple(v) => TypeModel::Tuple(
            Seq::new(
                v@.len(),
                |i: int| if 0 <= i < v@.len() { type_model(v@[i]) } else { TypeModel::Tuple(Seq::empty()) },
            ),
        ),
        Type::Array { _type, size } => TypeModel::Array {
            _type: Box::new(type_model(*_type)),
            size: expression_model(size),
        },
        Type::Reference { lifetime, mutability, _type } => TypeModel::Reference {
            lifetime,
            mutability,
            _type: Box::new(type_model(*_type)),
        },
        Type::TraitObject(b) => TypeModel::TraitObject(bounds_model(b)),
        Type::RawPointer { mutability, _type } => TypeModel::RawPointer {
            mutability,
            _type: Box::new(type_model(*_type)),
        },
        Type::FunctionPointer { parameters, _return } => TypeModel::FunctionPointer {
            parameters: Seq::new(
                parameters@.len(),
                |i: int|
                    if 0 <= i < parameters@.len() {
                        type_model(parameters@[i])
                    } else {
                        TypeModel::Tuple(Seq::empty())
                    },
            ),
            _return: match _return {
                Some(r) => Some(Box::new(type_model(*r))),
                None => None,
            },
        },
    }
}

pub open spec fn bounds_model(b: TypeParamBounds) -> Seq<TypeParamBoundModel>
    decreases b,
{
    Seq::new(
        b.0@.len(),
        |i: int|
            if 0 <= i < b.0@.len() {
                bound_model(b.0@[i])
            } else {
                TypeParamBoundModel::Lifetime(b.0@[i]->Lifetime_0)
            },
    )
}

pub open spec fn bound_model(b: TypeParamBound) -> TypeParamBoundModel
    decreases b,
{
    match b {
        TypeParamBound::Trait(p) => TypeParamBoundModel::Trait(path_model(p)),
        TypeParamBound::Lifetime(l) => TypeParamBoundModel::Lifetime(l),
    }
}

pub open spec fn expression_model(e: Expression) -> ExpressionModel
    decreases e,
{
    match e {
        Expression::Literal(l) => ExpressionModel::Literal(l),
        Expression::Call { function, arguments } => ExpressionModel::Call {
            function: Box::new(expression_model(*function)),
            arguments: Seq::new(
                arguments@.len(),
                |i: int|
                    if 0 <= i < arguments@.len() {
                        expression_model(arguments@[i])
                    } else {
                        ExpressionModel::Literal(Literal::Bool(false))
                    },
            ),
        },
        Expression::Macro(m) => ExpressionModel::Macro(path_model(m._path)),
        Expression::Path(p) => ExpressionModel::Path(path_model(p)),
        Expression::Reference(r) => ExpressionModel::Reference {
            mutability: r.mutability,
            expression: Box::new(expression_model(*r.expression)),
        },
        Expression::Struct(s) => ExpressionModel::Struct {
            path: path_model(s.path),
            fields: Seq::new(
                s.fields@.len(),
                |i: int|
                    if 0 <= i < s.fields@.len() {
                        (s.fields@[i].name, expression_model(s.fields@[i].expression))
                    } else {
                        (s.fields@[i].name, ExpressionModel::Literal(Literal::Bool(false)))
                    },
            ),
        },
        Expression::Raw(s) => ExpressionModel::Raw(s),
    }
}

pub open spec fn segments_model(v: Seq<PathSegment>) -> Seq<PathSegmentModel> {
    Seq::new(v.len(), |i: int| segment_model(v[i]))
}

pub open spec fn arguments_model(v: Seq<GenericArgument>) -> Seq<GenericArgumentModel> {
    Seq::new(v.len(), |i: int| argument_model(v[i]))
}

pub open spec fn types_model(v: Seq<Type>) -> Seq<TypeModel> {
    Seq::new(v.len(), |i: int| type_model(v[i]))
}

pub open spec fn bound_list_model(v: Seq<TypeParamBound>) -> Seq<TypeParamBoundModel> {
    Seq::new(v.len(), |i: int| bound_model(v[i]))
}

pub struct AttributeModel {
    pub path: PathModel,
    pub tokens: Seq<Token>,
    pub attribute_style: AttributeStyle,
}

pub struct FieldModel {
    pub attributes: Seq<AttributeModel>,
    pub name: Option<String>,
    pub _type: TypeModel,
    pub visibility: Visibility,
}

pub enum FieldsModel {
    Tuple(Seq<FieldModel>),
    Struct(Seq<FieldModel>),
    Unit,
}

pub enum GenericParamModel {
    Type { identifier: String, type_bounds: Seq<TypeParamBoundModel> },
    Lifetime { identifier: String },
    Const { identifier: String, _type: TypeModel },
}

pub struct StructModel {
    pub name: String,
    pub visibility: Visibility,
    pub fields: FieldsModel,
    pub generic_parameters: Seq<GenericParamModel>,
}

pub struct EnumVariantModel {
    pub attributes: Seq<AttributeModel>,
    pub name: String,
    pub fields: FieldsModel,
}

pub struct EnumModel {
    pub name: String,
    pub visibility: Visibility,
    pub variants: Seq<EnumVariantModel>,
    pub generic_parameters: Seq<GenericParamModel>,
}

pub enum ValueModel {
    Struct(StructModel),
    Enum(EnumModel),
}

pub open spec fn attribute_model(a: Attribute) -> AttributeModel {
    AttributeModel { path: path_model(a.path), tokens: a.tokens@, attribute_style: a.attribute_style }
}

pub open spec fn attributes_model(v: Seq<Attribute>) -> Seq<AttributeModel> {
    Seq::new(v.len(), |i: int| attribute_model(v[i]))
}

pub open spec fn field_model(f: Field) -> FieldModel {
    FieldModel {
        attributes: attributes_model(f.attributes@),
        name: f.name,
        _type: type_model(f._type),
        visibility: f.visibility,
    }
}

pub open spec fn field_list_model(v: Seq<Field>) -> Seq<FieldModel> {
    Seq::new(v.len(), |i: int| field_model(v[i]))
}

pub open spec fn fields_model(f: Fields) -> FieldsModel {
    match f {
        Fields::Tuple(v) => FieldsModel::Tuple(field_list_model(v@)),
        Fields::Struct(v) => FieldsModel::Struct(field_list_model(v@)),
        Fields::Unit => FieldsModel::Unit,
    }
}

pub open spec fn generic_param_model(g: GenericParam) -> GenericParamModel {
    match g {
        GenericParam::Type { identifier, type_bounds } => GenericParamModel::Type {
            identifier,
            type_bounds: bounds_model(type_bounds),
        },
        GenericParam::Lifetime { identifier } => GenericParamModel::Lifetime { identifier },
        GenericParam::Const { identifier, _type } => GenericParamModel::Const {
            identifier,
            _type: type_model(_type),
        },
    }
}

pub open spec fn generic_params_model(g: GenericParams) -> Seq<GenericParamModel> {
    Seq::new(g.0@.len(), |i: int| generic_param_model(g.0@[i]))
}

pub open spec fn struct_model(s: Struct) -> StructModel {
    StructModel {
        name: s.name,
        visibility: s.visibility,
        fields: fields_model(s.fields),
        generic_parameters: generic_params_model(s.generic_parameters),
    }
}

pub open spec fn variant_model(v: EnumVariant) -> EnumVariantModel {
    EnumVariantModel {
        attributes: attributes_model(v.attributes@),
        name: v.name,
        fields: fields_model(v.fields),
    }
}

pub open spec fn enum_model(e: Enum) -> EnumModel {
    EnumModel {
        name: e.name,
        visibility: e.visibility,
        variants: Seq::new(e.variants@.len(), |i: int| variant_model(e.variants@[i])),
        generic_parameters: generic_params_model(e.generic_parameters),
    }
}

pub open spec fn value_model(v: Value) -> ValueModel {
    match v {
        Value::Struct(s) => ValueModel::Struct(struct_model(s)),
        Value::Enum(e) => ValueModel::Enum(enum_model(e)),
    }
}

pub open spec fn variants_model(v: Seq<EnumVariant>) -> Seq<EnumVariantModel> {
    Seq::new(v.len(), |i: int| variant_model(v[i]))
}

pub open spec fn generic_param_list_model(v: Seq<GenericParam>) -> Seq<GenericParamModel> {
    Seq::new(v.len(), |i: int| generic_param_model(v[i]))
}

impl View for GenericArgument {
    type V = GenericArgumentModel;

    open spec fn view(&self) -> GenericArgumentModel {
        argument_model(*self)
    }
}

impl View for PathSegment {
    type V = PathSegmentModel;

    open spec fn view(&self) -> PathSegmentModel {
        segment_model(*self)
    }
}

impl View for TypeParamBound {
    type V = TypeParamBoundModel;

    open spec fn view(&self) -> TypeParamBoundModel {
        bound_model(*self)
    }
}

impl View for GenericParam {
    type V = GenericParamModel;

    open spec fn view(&self) -> GenericParamModel {
        generic_param_model(*self)
    }
}

impl View for EnumVariant {
    type V = EnumVariantModel;

    open spec fn view(&self) -> EnumVariantModel {
        variant_model(*self)
    }
}

impl View for Field {
    type V = FieldModel;

    open spec fn view(&self) -> FieldModel {
        field_model(*self)
    }
}

/// The fields of a struct expression, each with its name.
pub open spec fn field_values_model(v: Seq<FieldValue>) -> Seq<(String, ExpressionModel)> {
    Seq::new(v.len(), |i: int| (v[i].name, expression_model(v[i].expression)))
}

impl View for Visibility {
    type V = Visibility;

    open spec fn view(&self) -> Visibility {
        *self
    }
}

impl View for Path {
    type V = PathModel;

    open spec fn view(&self) -> PathModel {
        path_model(*self)
    }
}

impl View for Type {
    type V = TypeModel;

    open spec fn view(&self) -> TypeModel {
        type_model(*self)
    }
}

impl View for Expression {
    type V = ExpressionModel;

    open spec fn view(&self) -> ExpressionModel {
        expression_model(*self)
    }
}

impl View for TypeParamBounds {
    type V = Seq<TypeParamBoundModel>;

    open spec fn view(&self) -> Seq<TypeParamBoundModel> {
        bounds_model(*self)
    }
}

impl View for Attribute {
    type V = AttributeModel;

    open spec fn view(&self) -> AttributeModel {
        attribute_model(*self)
    }
}

impl View for Fields {
    type V = FieldsModel;

    open spec fn view(&self) -> FieldsModel {
        fields_model(*self)
    }
}

impl View for GenericParams {
    type V = Seq<GenericParamModel>;

    open spec fn view(&self) -> Seq<GenericParamModel> {
        generic_params_model(*self)
    }
}

impl View for Struct {
    type V = StructModel;

    open spec fn view(&self) -> StructModel {
        struct_model(*self)
    }
}

impl View for Enum {
    type V = EnumModel;

    open spec fn view(&self) -> EnumModel {
        enum_model(*self)
    }
}

impl View for Value {
    type V = ValueModel;

    open spec fn view(&self) -> ValueModel {
        value_model(*self)
    }
}

} // verus!
