use vstd::prelude::*;

use crate::kreflect::common::{
    ConstParameter, Expression, ExpressionModel, FieldModel, Fields, FieldsModel, GenericArgument,
    GenericArgumentModel, GenericParam, GenericParamModel, GenericParams, Item, ItemStatic, Literal,
    Mutability, Path, PathModel, PathSegment, PathSegmentModel, PathSegmentType,
    ReferenceExpression, Struct, StructExpression, Type, TypeModel, TypeParamBound,
    TypeParamBoundModel, TypeParamBounds, Visibility, field_values_model,
};
use crate::kserde::json_deserialize::{push_char, string_from_chars};
use crate::kserde::json_serialize::{decimal, push_decimal};
use vstd::string::StringExecFns;

verus! {

/// How a literal is written back: a string in double quotes, a number in
/// decimal, a float as the text it was read from.
pub open spec fn literal_text(l: Literal) -> Seq<char> {
    match l {
        Literal::String(s) => "\""@ + s@ + "\""@,
        Literal::Integer(i) => decimal(i as int),
        Literal::Bool(b) => if b {
            "true"@
        } else {
            "false"@
        },
        Literal::Char(c) => seq![c],
        Literal::Float(s) => s@,
    }
}

/// The word for a path segment.
pub open spec fn segment_name(t: PathSegmentType) -> Seq<char> {
    match t {
        PathSegmentType::Crate => "crate"@,
        PathSegmentType::SelfLowercase => "self"@,
        PathSegmentType::Super => "super"@,
        PathSegmentType::Named(name) => name@,
    }
}

/// A segment, with its generic arguments run together in angle brackets.
pub open spec fn segment_text(s: PathSegmentModel) -> Seq<char>
    decreases s,
{
    segment_name(s.path_segment_type) + if s.args.len() == 0 {
        Seq::empty()
    } else {
        "<"@ + arguments_text(s.args) + ">"@
    }
}

/// Generic arguments one after the other, with nothing between them.
pub open spec fn arguments_text(s: Seq<GenericArgumentModel>) -> Seq<char>
    decreases s,
{
    if s.len() == 0 {
        Seq::empty()
    } else {
        arguments_text(s.subrange(0, s.len() - 1)) + argument_text(s[s.len() - 1])
    }
}

/// The segments of a path with `::` between two neighbours.
pub open spec fn segments_text(s: Seq<PathSegmentModel>) -> Seq<char>
    decreases s,
{
    if s.len() == 0 {
        Seq::empty()
    } else if s.len() == 1 {
        segment_text(s[0])
    } else {
        segments_text(s.subrange(0, s.len() - 1)) + "::"@ + segment_text(s[s.len() - 1])
    }
}

pub open spec fn path_text(p: PathModel) -> Seq<char>
    decreases p,
{
    segments_text(p.segments)
}

pub open spec fn argument_text(a: GenericArgumentModel) -> Seq<char>
    decreases a,
{
    match a {
        GenericArgumentModel::Type(t) => type_text(t),
        GenericArgumentModel::Lifetime(l) => "'"@ + l@,
        GenericArgumentModel::Expression(e) => expression_text(e),
    }
}

/// Types, each followed by a comma.
pub open spec fn types_text(s: Seq<TypeModel>) -> Seq<char>
    decreases s,
{
    if s.len() == 0 {
        Seq::empty()
    } else {
        types_text(s.subrange(0, s.len() - 1)) + type_text(s[s.len() - 1]) + ","@
    }
}

pub open spec fn bound_text(b: TypeParamBoundModel) -> Seq<char>
    decreases b,
{
    match b {
        TypeParamBoundModel::Lifetime(l) => "'"@ + l@,
        TypeParamBoundModel::Trait(p) => path_text(p),
    }
}

/// Bounds with ` + ` between two neighbours.
pub open spec fn bounds_text(s: Seq<TypeParamBoundModel>) -> Seq<char>
    decreases s,
{
    if s.len() == 0 {
        Seq::empty()
    } else if s.len() == 1 {
        bound_text(s[0])
    } else {
        bounds_text(s.subrange(0, s.len() - 1)) + " + "@ + bound_text(s[s.len() - 1])
    }
}

pub open spec fn type_text(t: TypeModel) -> Seq<char>
    decreases t,
{
    match t {
        TypeModel::Name(p) => path_text(p),
        TypeModel::Tuple(ts) => "("@ + types_text(ts) + ")"@,
        TypeModel::FunctionPointer { parameters, _return } => "fn ("@ + types_text(parameters)
            + ")"@ + match _return {
            Some(r) => "-> "@ + type_text(*r),
            None => Seq::empty(),
        },
        TypeModel::Array { _type, size } => "["@ + type_text(*_type) + ";"@ + expression_text(size)
            + "]"@,
        TypeModel::RawPointer { mutability, _type } => "*"@ + "'"@ + match mutability {
            Mutability::Immutable => " const "@,
            Mutability::Mutable => " mut "@,
        } + type_text(*_type),
        TypeModel::Reference { lifetime, mutability, _type } => "&"@ + "'"@ + lifetime@
            + match mutability {
            Mutability::Immutable => Seq::empty(),
            Mutability::Mutable => " mut "@,
        } + type_text(*_type),
        TypeModel::TraitObject(b) => "dyn "@ + bounds_text(b),
    }
}

/// Expressions, each followed by a comma.
pub open spec fn expressions_text(s: Seq<ExpressionModel>) -> Seq<char>
    decreases s,
{
    if s.len() == 0 {
        Seq::empty()
    } else {
        expressions_text(s.subrange(0, s.len() - 1)) + expression_text(s[s.len() - 1]) + ","@
    }
}

/// The fields of a struct expression, one per line.
pub open spec fn field_values_text(s: Seq<(String, ExpressionModel)>) -> Seq<char>
    decreases s,
{
    if s.len() == 0 {
        Seq::empty()
    } else {
        field_values_text(s.subrange(0, s.len() - 1)) + "    "@ + s[s.len() - 1].0@ + ": "@
            + expression_text(s[s.len() - 1].1) + ",\n"@
    }
}

pub open spec fn expression_text(e: ExpressionModel) -> Seq<char>
    decreases e,
{
    match e {
        ExpressionModel::Literal(l) => literal_text(l),
        ExpressionModel::Call { function, arguments } => expression_text(*function) + "("@
            + expressions_text(arguments) + ")"@,
        ExpressionModel::Path(p) => path_text(p),
        ExpressionModel::Reference { mutability, expression } => "& "@ + match mutability {
            Mutability::Mutable => "mut"@,
            Mutability::Immutable => Seq::empty(),
        },
        ExpressionModel::Struct { path, fields } => path_text(path) + " {\n"@ + field_values_text(
            fields,
        ) + "}"@,
        ExpressionModel::Raw(s) => s@,
        ExpressionModel::Macro(_) => Seq::empty(),
    }
}

/// How a generic parameter is written in a declaration.
pub open spec fn generic_param_text(g: GenericParamModel) -> Seq<char> {
    match g {
        GenericParamModel::Type { identifier, type_bounds } => if bounds_text(type_bounds).len()
            == 0 {
            identifier@
        } else {
            identifier@ + ": "@ + bounds_text(type_bounds)
        },
        GenericParamModel::Lifetime { identifier } => identifier@,
        GenericParamModel::Const { identifier, _type } => "const "@ + identifier@ + ": "@
            + type_text(_type),
    }
}

pub open spec fn generic_param_printable(g: GenericParamModel) -> bool {
    match g {
        GenericParamModel::Type { type_bounds, .. } => forall|i: int|
            0 <= i < type_bounds.len() ==> bound_printable(#[trigger] type_bounds[i]),
        GenericParamModel::Lifetime { .. } => true,
        GenericParamModel::Const { _type, .. } => type_printable(_type),
    }
}

/// 0 for a lifetime, 1 for a type, 2 for a constant.
pub open spec fn param_kind(g: GenericParamModel) -> int {
    match g {
        GenericParamModel::Lifetime { .. } => 0,
        GenericParamModel::Type { .. } => 1,
        GenericParamModel::Const { .. } => 2,
    }
}

/// The parameters of one kind, each followed by a comma.
pub open spec fn params_of_kind_text(s: Seq<GenericParamModel>, kind: int) -> Seq<char>
    decreases s.len(),
{
    if s.len() == 0 {
        Seq::empty()
    } else {
        params_of_kind_text(s.drop_last(), kind) + if param_kind(s.last()) == kind {
            generic_param_text(s.last()) + ","@
        } else {
            Seq::empty()
        }
    }
}

/// A parameter as it is named in arguments: `'a`, `T` or `N`.
pub open spec fn param_name_text(g: GenericParamModel) -> Seq<char> {
    match g {
        GenericParamModel::Lifetime { identifier } => "'"@ + identifier@,
        GenericParamModel::Type { identifier, .. } => identifier@,
        GenericParamModel::Const { identifier, .. } => identifier@,
    }
}

/// The names of the parameters, each followed by a comma.
pub open spec fn param_names_text(s: Seq<GenericParamModel>) -> Seq<char>
    decreases s.len(),
{
    if s.len() == 0 {
        Seq::empty()
    } else {
        param_names_text(s.drop_last()) + param_name_text(s.last()) + ","@
    }
}

/// `<'a,T,N,>` for parameters `<'a, T: Clone, const N: usize>`, and nothing
/// where there are none.
pub open spec fn as_args_text(s: Seq<GenericParamModel>) -> Seq<char> {
    if s.len() == 0 {
        Seq::empty()
    } else {
        "<"@ + param_names_text(s) + ">"@
    }
}

/// The named fields of a struct, one per line.
pub open spec fn named_fields_text(s: Seq<FieldModel>) -> Seq<char>
    decreases s.len(),
{
    if s.len() == 0 {
        Seq::empty()
    } else {
        named_fields_text(s.drop_last()) + "    "@ + s.last().visibility.spec_text()
            + s.last().name.unwrap()@ + ":"@ + type_text(s.last()._type) + ",\n"@
    }
}

/// Fields that have a written form: named fields whose types hold no macro
/// call, or none.
pub open spec fn fields_printable(f: FieldsModel) -> bool {
    match f {
        FieldsModel::Tuple(_) => false,
        FieldsModel::Struct(s) => forall|i: int|
            0 <= i < s.len() ==> (#[trigger] s[i]).name is Some && type_printable(s[i]._type),
        FieldsModel::Unit => true,
    }
}

pub open spec fn fields_text(f: FieldsModel) -> Seq<char> {
    match f {
        FieldsModel::Struct(s) => "{\n"@ + named_fields_text(s) + "}"@,
        FieldsModel::Unit => ";"@,
        FieldsModel::Tuple(_) => Seq::empty(),
    }
}

// Whether a value holds no macro call, which has no written form yet.

pub open spec fn segment_printable(s: PathSegmentModel) -> bool
    decreases s,
{
    forall|i: int| 0 <= i < s.args.len() ==> argument_printable(#[trigger] s.args[i])
}

pub open spec fn path_printable(p: PathModel) -> bool
    decreases p,
{
    forall|i: int| 0 <= i < p.segments.len() ==> segment_printable(#[trigger] p.segments[i])
}

pub open spec fn argument_printable(a: GenericArgumentModel) -> bool
    decreases a,
{
    match a {
        GenericArgumentModel::Type(t) => type_printable(t),
        GenericArgumentModel::Lifetime(_) => true,
        GenericArgumentModel::Expression(e) => expression_printable(e),
    }
}

pub open spec fn bound_printable(b: TypeParamBoundModel) -> bool
    decreases b,
{
    match b {
        TypeParamBoundModel::Lifetime(_) => true,
        TypeParamBoundModel::Trait(p) => path_printable(p),
    }
}

pub open spec fn type_printable(t: TypeModel) -> bool
    decreases t,
{
    match t {
        TypeModel::Name(p) => path_printable(p),
        TypeModel::Tuple(ts) => forall|i: int| 0 <= i < ts.len() ==> type_printable(#[trigger] ts[i]),
        TypeModel::FunctionPointer { parameters, _return } => (forall|i: int|
            0 <= i < parameters.len() ==> type_printable(#[trigger] parameters[i])) && match _return {
            Some(r) => type_printable(*r),
            None => true,
        },
        TypeModel::Array { _type, size } => type_printable(*_type) && expression_printable(size),
        TypeModel::RawPointer { _type, .. } => type_printable(*_type),
        TypeModel::Reference { _type, .. } => type_printable(*_type),
        TypeModel::TraitObject(b) => forall|i: int| 0 <= i < b.len() ==> bound_printable(#[trigger] b[i]),
    }
}

pub open spec fn expression_printable(e: ExpressionModel) -> bool
    decreases e,
{
    match e {
        ExpressionModel::Literal(_) => true,
        ExpressionModel::Call { function, arguments } => expression_printable(*function) && forall|
            i: int,
        | 0 <= i < arguments.len() ==> expression_printable(#[trigger] arguments[i]),
        ExpressionModel::Path(p) => path_printable(p),
        ExpressionModel::Reference { .. } => true,
        ExpressionModel::Struct { path, fields } => path_printable(path) && forall|i: int|
            0 <= i < fields.len() ==> expression_printable(#[trigger] fields[i].1),
        ExpressionModel::Raw(_) => true,
        ExpressionModel::Macro(_) => false,
    }
}


impl Literal {
    pub fn as_string(&self) -> (r: String)
        ensures
            r@ == literal_text(*self),
    {
        match self {
            Literal::String(s) => {
                let mut r = String::new();
                r.append("\"");
                r.append(s.as_str());
                r.append("\"");
                r
            },
            Literal::Integer(i) => {
                let mut digits: Vec<char> = Vec::new();
                push_decimal(&mut digits, *i);
                proof {
                    assert(digits@ =~= decimal(*i as int));
                }
                string_from_chars(&digits)
            },
            Literal::Bool(b) => {
                let mut r = String::new();
                if *b {
                    r.append("true");
                } else {
                    r.append("false");
                }
                r
            },
            Literal::Char(c) => {
                let mut r = String::new();
                push_char(&mut r, *c);
                r
            },
            Literal::Float(s) => s.clone(),
        }
    }
}

/// A segment that names `name`, with no generic arguments.
pub open spec fn plain_segment(name: String) -> PathSegmentModel {
    PathSegmentModel { path_segment_type: PathSegmentType::Named(name), args: Seq::empty() }
}

impl Path {
    /// A path of plain names.
    pub fn new(segments: &[String]) -> (r: Path)
        ensures
            r@.segments.len() == segments@.len(),
            forall|i: int|
                0 <= i < segments@.len() ==> #[trigger] r@.segments[i] == plain_segment(segments@[i]),
    {
        let mut v: Vec<PathSegment> = Vec::new();
        for i in 0..segments.len()
            invariant
                v@.len() == i,
                forall|j: int|
                    0 <= j < i ==> #[trigger] v@[j]@ == plain_segment(segments@[j]),
        {
            let segment = PathSegment {
                path_segment_type: PathSegmentType::Named(segments[i].clone()),
                args: Vec::new(),
            };
            proof {
                assert(segment@.args =~= Seq::empty());
            }
            v.push(segment);
        }
        let r = Path { segments: v };
        proof {
            assert forall|i: int| 0 <= i < segments@.len() implies #[trigger] r@.segments[i]
                == plain_segment(segments@[i]) by {
                assert(v@[i]@ == r@.segments[i]);
            }
        }
        r
    }

    pub fn as_string(&self) -> (r: String)
        requires
            path_printable(self@),
        ensures
            r@ == path_text(self@),
        decreases self,
    {
        let ghost m = self@.segments;
        let mut string = String::new();
        let last = self.segments.len();
        let mut i: usize = 0;
        while i < last
            invariant
                i <= last,
                last == self.segments@.len(),
                m == self@.segments,
                path_printable(self@),
                string@ == if i == 0 {
                    Seq::empty()
                } else {
                    segments_text(m.subrange(0, i as int)) + if i < last {
                        "::"@
                    } else {
                        Seq::empty()
                    }
                },
            decreases last - i,
        {
            let segment = &self.segments[i];
            let ghost before = string@;
            assert(m[i as int] == segment@);
            match &segment.path_segment_type {
                PathSegmentType::Crate => string.append("crate"),
                PathSegmentType::SelfLowercase => string.append("self"),
                PathSegmentType::Super => string.append("super"),
                PathSegmentType::Named(name) => string.append(name.as_str()),
            }
            let ghost named = string@;
            if segment.args.len() != 0 {
                string.append("<");
                proof {
                    assert(Seq::new(segment.args@.len(), |k: int| segment.args@[k]@) =~= segment@.args);
                    assert forall|k: int| 0 <= k < segment.args@.len() implies argument_printable(
                        #[trigger] segment.args@[k]@,
                    ) by {
                        assert(segment_printable(m[i as int]));
                        assert(segment@.args[k] == segment.args@[k]@);
                    }
                }
                push_arguments(&mut string, &segment.args);
                string.append(">");
            }
            assert(string@ =~= before + segment_text(m[i as int]));
            if i != last - 1 {
                string.append("::");
            }
            proof {
                let s = m.subrange(0, i + 1);
                assert(s.subrange(0, i as int) =~= m.subrange(0, i as int));
                assert(s[i as int] == m[i as int]);
            }
            i += 1;
        }
        proof {
            assert(m.subrange(0, last as int) =~= m);
        }
        string
    }
}

impl GenericArgument {
    pub fn as_string(&self) -> (r: String)
        requires
            argument_printable(self@),
        ensures
            r@ == argument_text(self@),
        decreases self,
    {
        match self {
            GenericArgument::Type(t) => t.as_string(),
            GenericArgument::Lifetime(l) => {
                let mut r = String::new();
                r.append("'");
                r.append(l.as_str());
                r
            },
            GenericArgument::Expression(e) => e.as_string(),
        }
    }
}

impl TypeParamBounds {
    pub fn as_string(&self) -> (r: String)
        requires
            forall|i: int| 0 <= i < self@.len() ==> bound_printable(#[trigger] self@[i]),
        ensures
            r@ == bounds_text(self@),
        decreases self,
    {
        let ghost m = self@;
        let mut string = String::new();
        let mut first = true;
        let mut i: usize = 0;
        while i < self.0.len()
            invariant
                i <= self.0@.len(),
                m == self@,
                first == (i == 0),
                forall|k: int| 0 <= k < m.len() ==> bound_printable(#[trigger] m[k]),
                string@ == bounds_text(m.subrange(0, i as int)),
            decreases self.0@.len() - i,
        {
            let bound = &self.0[i];
            assert(m[i as int] == bound@);
            let ghost before = string@;
            if !first {
                string.append(" + ");
            }
            first = false;
            let ghost mid = string@;
            match bound {
                TypeParamBound::Lifetime(l) => {
                    string.append("'");
                    string.append(l.as_str());
                },
                TypeParamBound::Trait(path) => {
                    let s = path.as_string();
                    string.append(s.as_str());
                },
            }
            assert(string@ =~= mid + bound_text(m[i as int]));
            proof {
                let s = m.subrange(0, i + 1);
                assert(s.subrange(0, i as int) =~= m.subrange(0, i as int));
                assert(s[i as int] == m[i as int]);
                if i == 0 {
                    assert(s =~= seq![m[0]]);
                }
            }
            i += 1;
        }
        proof {
            assert(m.subrange(0, self.0@.len() as int) =~= m);
        }
        string
    }
}

/// Appends the generic arguments one after the other.
fn push_arguments(string: &mut String, args: &Vec<GenericArgument>)
    requires
        forall|i: int| 0 <= i < args@.len() ==> argument_printable(#[trigger] args@[i]@),
    ensures
        final(string)@ == old(string)@ + arguments_text(Seq::new(args@.len(), |i: int| args@[i]@)),
    decreases args,
{
    let ghost m = Seq::new(args@.len(), |i: int| args@[i]@);
    let mut i: usize = 0;
    while i < args.len()
        invariant
            i <= args@.len(),
            m == Seq::new(args@.len(), |i: int| args@[i]@),
            forall|k: int| 0 <= k < args@.len() ==> argument_printable(#[trigger] args@[k]@),
            string@ == old(string)@ + arguments_text(m.subrange(0, i as int)),
        decreases args@.len() - i,
    {
        let ghost before = string@;
        let s = args[i].as_string();
        string.append(s.as_str());
        proof {
            let sub = m.subrange(0, i + 1);
            assert(sub.subrange(0, i as int) =~= m.subrange(0, i as int));
            assert(sub[i as int] == args@[i as int]@);
            assert(string@ =~= old(string)@ + arguments_text(sub));
        }
        i += 1;
    }
    proof {
        assert(m.subrange(0, args@.len() as int) =~= m);
    }
}

/// Appends the expressions with a comma after each.
fn push_expressions(string: &mut String, args: &Vec<Expression>)
    requires
        forall|i: int| 0 <= i < args@.len() ==> expression_printable(#[trigger] args@[i]@),
    ensures
        final(string)@ == old(string)@ + expressions_text(
            Seq::new(args@.len(), |i: int| args@[i]@),
        ),
    decreases args,
{
    let ghost m = Seq::new(args@.len(), |i: int| args@[i]@);
    let mut i: usize = 0;
    while i < args.len()
        invariant
            i <= args@.len(),
            m == Seq::new(args@.len(), |i: int| args@[i]@),
            forall|k: int| 0 <= k < args@.len() ==> expression_printable(#[trigger] args@[k]@),
            string@ == old(string)@ + expressions_text(m.subrange(0, i as int)),
        decreases args@.len() - i,
    {
        let s = args[i].as_string();
        string.append(s.as_str());
        string.append(",");
        proof {
            let sub = m.subrange(0, i + 1);
            assert(sub.subrange(0, i as int) =~= m.subrange(0, i as int));
            assert(sub[i as int] == args@[i as int]@);
            assert(string@ =~= old(string)@ + expressions_text(sub));
        }
        i += 1;
    }
    proof {
        assert(m.subrange(0, args@.len() as int) =~= m);
    }
}

/// Appends the types with a comma after each.
fn push_types(string: &mut String, types: &Vec<Type>)
    requires
        forall|i: int| 0 <= i < types@.len() ==> type_printable(#[trigger] types@[i]@),
    ensures
        final(string)@ == old(string)@ + types_text(Seq::new(types@.len(), |i: int| types@[i]@)),
    decreases types,
{
    let ghost m = Seq::new(types@.len(), |i: int| types@[i]@);
    let mut i: usize = 0;
    while i < types.len()
        invariant
            i <= types@.len(),
            m == Seq::new(types@.len(), |i: int| types@[i]@),
            forall|k: int| 0 <= k < types@.len() ==> type_printable(#[trigger] types@[k]@),
            string@ == old(string)@ + types_text(m.subrange(0, i as int)),
        decreases types@.len() - i,
    {
        let s = types[i].as_string();
        string.append(s.as_str());
        string.append(",");
        proof {
            let sub = m.subrange(0, i + 1);
            assert(sub.subrange(0, i as int) =~= m.subrange(0, i as int));
            assert(sub[i as int] == types@[i as int]@);
            assert(string@ =~= old(string)@ + types_text(sub));
        }
        i += 1;
    }
    proof {
        assert(m.subrange(0, types@.len() as int) =~= m);
    }
}

impl Type {
    pub fn as_string(&self) -> (r: String)
        requires
            type_printable(self@),
        ensures
            r@ == type_text(self@),
        decreases self,
    {
        let mut string = String::new();
        match self {
            Type::Name(name) => {
                let s = name.as_string();
                string.append(s.as_str());
            },
            Type::Tuple(types) => {
                proof {
                    let ts = match self@ {
                        TypeModel::Tuple(ts) => ts,
                        _ => Seq::empty(),
                    };
                    assert(Seq::new(types@.len(), |i: int| types@[i]@) =~= ts);
                    assert forall|k: int| 0 <= k < types@.len() implies type_printable(
                        #[trigger] types@[k]@,
                    ) by {
                        assert(ts[k] == types@[k]@);
                    }
                }
                string.append("(");
                push_types(&mut string, types);
                string.append(")");
            },
            Type::FunctionPointer { parameters, _return } => {
                proof {
                    let ps = match self@ {
                        TypeModel::FunctionPointer { parameters, .. } => parameters,
                        _ => Seq::empty(),
                    };
                    assert(Seq::new(parameters@.len(), |i: int| parameters@[i]@) =~= ps);
                    assert forall|k: int| 0 <= k < parameters@.len() implies type_printable(
                        #[trigger] parameters@[k]@,
                    ) by {
                        assert(ps[k] == parameters@[k]@);
                    }
                }
                string.append("fn (");
                push_types(&mut string, parameters);
                string.append(")");
                if let Some(_return) = _return {
                    string.append("-> ");
                    let s = _return.as_string();
                    string.append(s.as_str());
                }
            },
            Type::Array { _type, size } => {
                string.append("[");
                let s = _type.as_string();
                string.append(s.as_str());
                string.append(";");
                let s = size.as_string();
                string.append(s.as_str());
                string.append("]");
            },
            Type::RawPointer { mutability, _type } => {
                string.append("*");
                string.append("'");
                match mutability {
                    Mutability::Immutable => string.append(" const "),
                    Mutability::Mutable => string.append(" mut "),
                }
                let s = _type.as_string();
                string.append(s.as_str());
            },
            Type::Reference { lifetime, mutability, _type } => {
                string.append("&");
                string.append("'");
                string.append(lifetime.as_str());
                match mutability {
                    Mutability::Immutable => {},
                    Mutability::Mutable => string.append(" mut "),
                }
                let s = _type.as_string();
                string.append(s.as_str());
            },
            Type::TraitObject(trait_bounds) => {
                proof {
                    let b = match self@ {
                        TypeModel::TraitObject(b) => b,
                        _ => Seq::empty(),
                    };
                    assert(b =~= trait_bounds@);
                    assert forall|k: int| 0 <= k < trait_bounds@.len() implies bound_printable(
                        #[trigger] trait_bounds@[k],
                    ) by {
                        assert(b[k] == trait_bounds@[k]);
                    }
                }
                string.append("dyn ");
                let s = trait_bounds.as_string();
                string.append(s.as_str());
            },
        }
        string
    }
}

impl Expression {
    pub fn as_string(&self) -> (r: String)
        requires
            expression_printable(self@),
        ensures
            r@ == expression_text(self@),
        decreases self,
    {
        match self {
            Expression::Literal(v) => v.as_string(),
            Expression::Call { function, arguments } => {
                let ghost m = Seq::new(arguments@.len(), |i: int| arguments@[i]@);
                proof {
                    assert(m =~= match self@ {
                        ExpressionModel::Call { arguments, .. } => arguments,
                        _ => Seq::empty(),
                    });
                }
                proof {
                    assert forall|k: int| 0 <= k < arguments@.len() implies expression_printable(
                        #[trigger] arguments@[k]@,
                    ) by {
                        assert(m[k] == arguments@[k]@);
                    }
                }
                let mut string = function.as_string();
                string.append("(");
                push_expressions(&mut string, arguments);
                string.append(")");
                string
            },
            Expression::Path(p) => p.as_string(),
            Expression::Reference(r) => {
                let mut string = String::new();
                string.append("& ");
                match r.mutability {
                    Mutability::Mutable => string.append("mut"),
                    Mutability::Immutable => {},
                }
                string
            },
            Expression::Struct(s) => {
                proof {
                    let fs = match self@ {
                        ExpressionModel::Struct { fields, .. } => fields,
                        _ => Seq::empty(),
                    };
                    assert(field_values_model(s.fields@) =~= fs);
                    assert forall|k: int| 0 <= k < s.fields@.len() implies expression_printable(
                        #[trigger] s.fields@[k].expression@,
                    ) by {
                        assert(fs[k].1 == s.fields@[k].expression@);
                    }
                }
                s.as_string()
            },
            Expression::Raw(s) => s.clone(),
            Expression::Macro(_) => String::new(),
        }
    }
}

impl StructExpression {
    pub fn as_string(&self) -> (r: String)
        requires
            path_printable(self.path@),
            forall|i: int|
                0 <= i < self.fields@.len() ==> expression_printable(
                    #[trigger] self.fields@[i].expression@,
                ),
        ensures
            r@ == path_text(self.path@) + " {\n"@ + field_values_text(field_values_model(self.fields@))
                + "}"@,
        decreases self,
    {
        let ghost m = field_values_model(self.fields@);
        let mut string = String::new();
        let s = self.path.as_string();
        string.append(s.as_str());
        string.append(" {\n");
        let ghost start = string@;
        let mut i: usize = 0;
        while i < self.fields.len()
            invariant
                i <= self.fields@.len(),
                m == field_values_model(self.fields@),
                forall|k: int|
                    0 <= k < self.fields@.len() ==> expression_printable(
                        #[trigger] self.fields@[k].expression@,
                    ),
                string@ == start + field_values_text(m.subrange(0, i as int)),
            decreases self.fields@.len() - i,
        {
            let field = &self.fields[i];
            string.append("    ");
            string.append(field.name.as_str());
            string.append(": ");
            let s = field.expression.as_string();
            string.append(s.as_str());
            string.append(",\n");
            proof {
                let sub = m.subrange(0, i + 1);
                assert(sub.subrange(0, i as int) =~= m.subrange(0, i as int));
                assert(sub[i as int] == m[i as int]);
            }
            i += 1;
        }
        proof {
            assert(m.subrange(0, self.fields@.len() as int) =~= m);
        }
        string.append("}");
        string
    }
}


impl GenericParam {
    pub fn as_string(&self) -> (r: String)
        requires
            generic_param_printable(self@),
        ensures
            r@ == generic_param_text(self@),
    {
        match self {
            GenericParam::Type { identifier, type_bounds } => {
                proof {
                    let b = match self@ {
                        GenericParamModel::Type { type_bounds, .. } => type_bounds,
                        _ => Seq::empty(),
                    };
                    assert(b =~= type_bounds@);
                    assert forall|k: int| 0 <= k < type_bounds@.len() implies bound_printable(
                        #[trigger] type_bounds@[k],
                    ) by {
                        assert(b[k] == type_bounds@[k]);
                    }
                }
                let type_bounds = type_bounds.as_string();
                if type_bounds.as_str().is_empty() {
                    identifier.clone()
                } else {
                    let mut r = identifier.clone();
                    r.append(": ");
                    r.append(type_bounds.as_str());
                    r
                }
            },
            GenericParam::Lifetime { identifier } => identifier.clone(),
            GenericParam::Const { identifier, _type } => {
                let mut r = String::new();
                r.append("const ");
                r.append(identifier.as_str());
                r.append(": ");
                let t = _type.as_string();
                r.append(t.as_str());
                r
            },
        }
    }
}

impl ConstParameter {
    pub fn as_string(&self) -> (r: String)
        requires
            type_printable(self._type@),
        ensures
            r@ == "const "@ + self.identifier@ + ": "@ + type_text(self._type@),
    {
        let mut r = String::new();
        r.append("const ");
        r.append(self.identifier.as_str());
        r.append(": ");
        let t = self._type.as_string();
        r.append(t.as_str());
        r
    }
}

impl GenericParams {
    /// The lifetimes, the types and the constants, each written as in a
    /// declaration and followed by a comma.
    pub fn lifetimes_types_consts(&self) -> (r: (String, String, String))
        requires
            forall|i: int| 0 <= i < self@.len() ==> generic_param_printable(#[trigger] self@[i]),
        ensures
            r.0@ == params_of_kind_text(self@, 0),
            r.1@ == params_of_kind_text(self@, 1),
            r.2@ == params_of_kind_text(self@, 2),
    {
        let ghost m = self@;
        let mut lifetimes = String::new();
        let mut types = String::new();
        let mut consts = String::new();
        let mut i: usize = 0;
        while i < self.0.len()
            invariant
                i <= self.0@.len(),
                m == self@,
                forall|k: int| 0 <= k < m.len() ==> generic_param_printable(#[trigger] m[k]),
                lifetimes@ == params_of_kind_text(m.take(i as int), 0),
                types@ == params_of_kind_text(m.take(i as int), 1),
                consts@ == params_of_kind_text(m.take(i as int), 2),
            decreases self.0@.len() - i,
        {
            let generic_parameter = &self.0[i];
            assert(m[i as int] == generic_parameter@);
            let text = generic_parameter.as_string();
            match generic_parameter {
                GenericParam::Lifetime { .. } => {
                    lifetimes.append(text.as_str());
                    lifetimes.append(",");
                },
                GenericParam::Type { .. } => {
                    types.append(text.as_str());
                    types.append(",");
                },
                GenericParam::Const { .. } => {
                    consts.append(text.as_str());
                    consts.append(",");
                },
            }
            proof {
                let s = m.take(i + 1);
                assert(s.drop_last() =~= m.take(i as int));
                assert(s.last() == m[i as int]);
            }
            i += 1;
        }
        proof {
            assert(m.take(self.0@.len() as int) =~= m);
        }
        (lifetimes, types, consts)
    }

    /// The parameters as written after `impl`.
    pub fn as_impl_args(&self) -> (r: String)
        requires
            forall|i: int| 0 <= i < self@.len() ==> generic_param_printable(#[trigger] self@[i]),
        ensures
            r@ == "<"@ + params_of_kind_text(self@, 0) + params_of_kind_text(self@, 1)
                + params_of_kind_text(self@, 2) + ">"@,
    {
        let mut string = String::new();
        string.append("<");
        let (lifetimes, types, consts) = self.lifetimes_types_consts();
        string.append(lifetimes.as_str());
        string.append(types.as_str());
        string.append(consts.as_str());
        string.append(">");
        string
    }

    /// The parameters as arguments: `<T: Debug, const SIZE: usize>` becomes
    /// `<T,SIZE,>`.
    pub fn as_args(&self) -> (r: String)
        ensures
            r@ == as_args_text(self@),
    {
        let ghost m = self@;
        let mut string = String::new();
        if self.0.len() != 0 {
            string.append("<");
            let mut i: usize = 0;
            while i < self.0.len()
                invariant
                    i <= self.0@.len(),
                    m == self@,
                    string@ == "<"@ + param_names_text(m.take(i as int)),
                decreases self.0@.len() - i,
            {
                let generic_parameter = &self.0[i];
                assert(m[i as int] == generic_parameter@);
                match generic_parameter {
                    GenericParam::Lifetime { identifier } => {
                        string.append("'");
                        string.append(identifier.as_str());
                    },
                    GenericParam::Type { identifier, .. } => string.append(identifier.as_str()),
                    GenericParam::Const { identifier, .. } => string.append(identifier.as_str()),
                }
                string.append(",");
                proof {
                    let s = m.take(i + 1);
                    assert(s.drop_last() =~= m.take(i as int));
                    assert(s.last() == m[i as int]);
                }
                i += 1;
            }
            proof {
                assert(m.take(self.0@.len() as int) =~= m);
            }
            string.append(">");
        }
        string
    }
}

impl Fields {
    pub fn as_string(&self) -> (r: String)
        requires
            fields_printable(self@),
        ensures
            r@ == fields_text(self@),
    {
        let mut string = String::new();
        match self {
            Fields::Tuple(_) => {},
            Fields::Struct(fields) => {
                let ghost m = match self@ {
                    FieldsModel::Struct(s) => s,
                    _ => Seq::empty(),
                };
                string.append("{\n");
                let mut i: usize = 0;
                while i < fields.len()
                    invariant
                        i <= fields@.len(),
                        m.len() == fields@.len(),
                        forall|k: int| 0 <= k < m.len() ==> #[trigger] m[k] == fields@[k]@,
                        forall|k: int|
                            0 <= k < m.len() ==> (#[trigger] m[k]).name is Some && type_printable(
                                m[k]._type,
                            ),
                        string@ == "{\n"@ + named_fields_text(m.take(i as int)),
                    decreases fields@.len() - i,
                {
                    let field = &fields[i];
                    assert(m[i as int] == field@);
                    string.append("    ");
                    let v = field.visibility.as_string();
                    string.append(v.as_str());
                    match &field.name {
                        Some(name) => string.append(name.as_str()),
                        None => {},
                    }
                    string.append(":");
                    let t = field._type.as_string();
                    string.append(t.as_str());
                    string.append(",\n");
                    proof {
                        let s = m.take(i + 1);
                        assert(s.drop_last() =~= m.take(i as int));
                        assert(s.last() == m[i as int]);
                    }
                    i += 1;
                }
                proof {
                    assert(m.take(fields@.len() as int) =~= m);
                }
                string.append("}");
            },
            Fields::Unit => string.append(";"),
        }
        string
    }
}

impl Struct {
    /// The declaration written back, its words run together as they are
    /// appended.
    pub fn as_string(&self) -> (r: String)
        requires
            fields_printable(self@.fields),
            forall|i: int|
                0 <= i < self@.generic_parameters.len() ==> generic_param_printable(
                    #[trigger] self@.generic_parameters[i],
                ),
        ensures
            r@ == self.visibility.spec_text() + "struct"@ + self.name@ + params_of_kind_text(
                self@.generic_parameters,
                0,
            ) + params_of_kind_text(self@.generic_parameters, 1) + params_of_kind_text(
                self@.generic_parameters,
                2,
            ) + fields_text(self@.fields),
    {
        proof {
            assert(self@.generic_parameters =~= self.generic_parameters@);
        }
        let mut string = self.visibility.as_string();
        string.append("struct");
        string.append(self.name.as_str());
        let (lifetimes, types, consts) = self.generic_parameters.lifetimes_types_consts();
        string.append(lifetimes.as_str());
        string.append(types.as_str());
        string.append(consts.as_str());
        let f = self.fields.as_string();
        string.append(f.as_str());
        string
    }
}

impl ReferenceExpression {
    pub fn as_string(&self) -> (r: String)
        ensures
            r@ == "& "@ + match self.mutability {
                Mutability::Mutable => "mut"@,
                Mutability::Immutable => Seq::empty(),
            },
    {
        let mut string = String::new();
        string.append("& ");
        match self.mutability {
            Mutability::Mutable => string.append("mut"),
            Mutability::Immutable => {},
        }
        string
    }
}

impl ItemStatic {
    pub fn as_string(&self) -> (r: String)
        requires
            type_printable(self._type@),
            expression_printable(self.expression@),
        ensures
            r@ == self.visibility.spec_text() + " static "@ + self.mutability.spec_text()
                + self.name@ + ": "@ + type_text(self._type@) + " = "@ + expression_text(
                self.expression@,
            ) + ";"@,
    {
        let mut string = self.visibility.as_string();
        string.append(" static ");
        let m = self.mutability.as_string();
        string.append(m.as_str());
        string.append(self.name.as_str());
        string.append(": ");
        let t = self._type.as_string();
        string.append(t.as_str());
        string.append(" = ");
        let e = self.expression.as_string();
        string.append(e.as_str());
        string.append(";");
        string
    }
}

impl Item {
    pub fn as_string(&self) -> (r: String)
        requires
            match self {
                Item::ItemStatic(i) => type_printable(i._type@) && expression_printable(
                    i.expression@,
                ),
                Item::Struct(s) => fields_printable(s@.fields) && forall|i: int|
                    0 <= i < s@.generic_parameters.len() ==> generic_param_printable(
                        #[trigger] s@.generic_parameters[i],
                    ),
            },
        ensures
            r@ == match self {
                Item::ItemStatic(i) => i.visibility.spec_text() + " static "@
                    + i.mutability.spec_text() + i.name@ + ": "@ + type_text(i._type@) + " = "@
                    + expression_text(i.expression@) + ";"@,
                Item::Struct(s) => s.visibility.spec_text() + "struct"@ + s.name@
                    + params_of_kind_text(s@.generic_parameters, 0) + params_of_kind_text(
                    s@.generic_parameters,
                    1,
                ) + params_of_kind_text(s@.generic_parameters, 2) + fields_text(s@.fields),
            },
    {
        match self {
            Item::ItemStatic(i) => i.as_string(),
            Item::Struct(s) => s.as_string(),
        }
    }
}
} // verus!
