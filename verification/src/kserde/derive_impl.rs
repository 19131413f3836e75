use vstd::prelude::*;

use crate::kreflect::common::{
    EnumVariantModel, Field, FieldModel, Fields, FieldsModel, GenericParamModel, GenericParams,
    PathSegmentType, Value, ValueModel, field_list_model,
};
use crate::kreflect::printing::{
    as_args_text, generic_param_printable, generic_param_text, params_of_kind_text, type_printable,
    type_text,
};
use crate::kserde::json_deserialize::{chars_of, push_char, same_text, string_from_chars};
use crate::kserde::json_serialize::{decimal, natural_digits, push_natural_digits};
use vstd::string::StringExecFns;

verus! {

/// Whether the path of one of the field's attributes has a segment named
/// `attribute`.
pub open spec fn field_has_attribute(f: FieldModel, attribute: Seq<char>) -> bool {
    exists|i: int, j: int|
        0 <= i < f.attributes.len() && 0 <= j < f.attributes[i].path.segments.len() && (
        #[trigger] f.attributes[i].path.segments[j]).path_segment_type is Named
            && f.attributes[i].path.segments[j].path_segment_type->Named_0@ == attribute
}

/// Whether the field is marked `#[skip]`.
pub open spec fn skipped(f: FieldModel) -> bool {
    field_has_attribute(f, "skip"@)
}

/// The field's name, or its index where it has none.
pub open spec fn field_label(k: int, f: FieldModel) -> Seq<char> {
    match f.name {
        Some(n) => n@,
        None => decimal(k),
    }
}

/// The serializing statements for the first `n` fields of a struct.
pub open spec fn serialize_fields_text(fs: Seq<FieldModel>, n: int) -> Seq<char>
    decreases n,
{
    if n <= 0 {
        Seq::empty()
    } else {
        serialize_fields_text(fs, n - 1) + if skipped(fs[n - 1]) {
            Seq::empty()
        } else {
            "    serializer.property(\""@ + field_label(n - 1, fs[n - 1])
                + "\");\n    serializer.value(&self."@ + field_label(n - 1, fs[n - 1]) + ");\n"@
        }
    }
}

/// The serializing statements for the first `n` fields of an enum variant,
/// whose values are bound to their names, or to `i` and the index.
pub open spec fn serialize_enum_fields_text(fs: Seq<FieldModel>, n: int) -> Seq<char>
    decreases n,
{
    if n <= 0 {
        Seq::empty()
    } else {
        serialize_enum_fields_text(fs, n - 1) + if skipped(fs[n - 1]) {
            Seq::empty()
        } else {
            match fs[n - 1].name {
                Some(name) => "    serializer.property(\""@ + name@
                    + "\");\n    serializer.value(&"@ + name@ + ");\n"@,
                None => "    serializer.property(\""@ + decimal(n - 1)
                    + "\");\n    serializer.value(&i"@ + decimal(n - 1) + ");\n"@,
            }
        }
    }
}

/// The bindings `i0,i1,` of the fields of a tuple variant that are kept.
pub open spec fn tuple_binders_text(fs: Seq<FieldModel>, n: int) -> Seq<char>
    decreases n,
{
    if n <= 0 {
        Seq::empty()
    } else {
        tuple_binders_text(fs, n - 1) + if skipped(fs[n - 1]) {
            Seq::empty()
        } else {
            "i"@ + decimal(n - 1) + ","@
        }
    }
}

/// The bindings `a,b,` of the fields of a struct variant that are kept.
pub open spec fn struct_binders_text(fs: Seq<FieldModel>, n: int) -> Seq<char>
    decreases n,
{
    if n <= 0 {
        Seq::empty()
    } else {
        struct_binders_text(fs, n - 1) + if skipped(fs[n - 1]) {
            Seq::empty()
        } else {
            fs[n - 1].name.unwrap()@ + ","@
        }
    }
}

/// The match arm that serializes one variant of the enum `name`.
pub open spec fn serialize_variant_text(name: Seq<char>, v: EnumVariantModel) -> Seq<char> {
    "    "@ + name + "::"@ + v.name@ + match v.fields {
        FieldsModel::Tuple(fs) => "("@ + tuple_binders_text(fs, fs.len() as int)
            + ") => {\n    serializer.property(\""@ + v.name@
            + "\");\n    serializer.begin_object();\n"@ + serialize_enum_fields_text(
            fs,
            fs.len() as int,
        ) + "serializer.end_object();\n},"@,
        FieldsModel::Struct(fs) => "{"@ + struct_binders_text(fs, fs.len() as int)
            + "} => {\n    serializer.property(\""@ + v.name@
            + "\");\n    serializer.begin_object();\n"@ + serialize_enum_fields_text(
            fs,
            fs.len() as int,
        ) + "serializer.end_object();\n},"@,
        FieldsModel::Unit => " => {\n    serializer.property(\""@ + v.name@
            + "\");\n    serializer.begin_object();\n    serializer.end_object();\n},\n"@,
    }
}

/// The match arms for the first `n` variants.
pub open spec fn serialize_variants_text(name: Seq<char>, vs: Seq<EnumVariantModel>, n: int) -> Seq<
    char,
>
    decreases n,
{
    if n <= 0 {
        Seq::empty()
    } else {
        serialize_variants_text(name, vs, n - 1) + serialize_variant_text(name, vs[n - 1])
    }
}

/// One bound `P: <bound>, \n` per generic parameter, for the first `n`.
pub open spec fn where_bounds_text(ps: Seq<GenericParamModel>, bound: Seq<char>, n: int) -> Seq<char>
    decreases n,
{
    if n <= 0 {
        Seq::empty()
    } else {
        where_bounds_text(ps, bound, n - 1) + generic_param_text(ps[n - 1]) + bound
    }
}

/// `where ` and the bounds, or nothing where there are no parameters.
pub open spec fn where_clause_text(ps: Seq<GenericParamModel>, bound: Seq<char>) -> Seq<char> {
    if ps.len() == 0 {
        Seq::empty()
    } else {
        "where "@ + where_bounds_text(ps, bound, ps.len() as int)
    }
}

pub open spec fn value_name(v: ValueModel) -> String {
    match v {
        ValueModel::Struct(s) => s.name,
        ValueModel::Enum(e) => e.name,
    }
}

pub open spec fn value_generics(v: ValueModel) -> Seq<GenericParamModel> {
    match v {
        ValueModel::Struct(s) => s.generic_parameters,
        ValueModel::Enum(e) => e.generic_parameters,
    }
}

/// The statements between `begin_object` and `end_object`.
pub open spec fn serialize_body_text(v: ValueModel) -> Seq<char> {
    match v {
        ValueModel::Struct(s) => match s.fields {
            FieldsModel::Struct(fs) => serialize_fields_text(fs, fs.len() as int),
            FieldsModel::Tuple(fs) => serialize_fields_text(fs, fs.len() as int),
            FieldsModel::Unit => Seq::empty(),
        },
        ValueModel::Enum(e) => "match self {\n                    "@ + serialize_variants_text(
            e.name@,
            e.variants,
            e.variants.len() as int,
        ) + "\n                }"@,
    }
}

/// The `Serialize` impl that the derive macro writes for `v`.
pub open spec fn serialize_impl_text(v: ValueModel) -> Seq<char> {
    let g = value_generics(v);
    "impl<"@ + params_of_kind_text(g, 0) + params_of_kind_text(g, 1)
        + "KSer: kserde::Serializer, "@ + params_of_kind_text(g, 2)
        + "> kserde::Serialize<KSer> for "@ + value_name(v)@ + as_args_text(g) + " "@
        + where_clause_text(g, ": Serialize<KSer>, \n"@)
        + " {\n        fn serialize(&self, serializer: &mut KSer) {\n        serializer.begin_object();\n        "@
        + serialize_body_text(v) + "\n        serializer.end_object();\n    }\n}"@
}

/// The generic parameters can be written, and each field of a struct variant
/// that is kept has a name.
pub open spec fn serializable(v: ValueModel) -> bool {
    &&& forall|i: int|
        0 <= i < value_generics(v).len() ==> generic_param_printable(
            #[trigger] value_generics(v)[i],
        )
    &&& match v {
        ValueModel::Struct(_) => true,
        ValueModel::Enum(e) => forall|i: int|
            0 <= i < e.variants.len() ==> variant_names_kept(#[trigger] e.variants[i]),
    }
}

/// Each field of a struct variant that is kept has a name.
pub open spec fn variant_names_kept(v: EnumVariantModel) -> bool {
    match v.fields {
        FieldsModel::Struct(fs) => forall|j: int|
            0 <= j < fs.len() ==> skipped(#[trigger] fs[j]) || fs[j].name is Some,
        _ => true,
    }
}


/// Whether a type is written as an `Option`: its text begins with `Option`.
pub open spec fn names_option(t: Seq<char>) -> bool {
    t.len() >= 6 && t[0] == 'O' && t[1] == 'p' && t[2] == 't' && t[3] == 'i' && t[4] == 'o'
        && t[5] == 'n'
}

/// The text between `Option<` and the closing `>`.
pub open spec fn option_inner(t: Seq<char>) -> Seq<char> {
    t.subrange(7, t.len() - 1)
}

/// The text of an `Option` type can be cut after its seventh character and
/// before its last one: it is long enough, and both cuts fall between
/// characters of one byte.
pub open spec fn option_inner_ok(t: Seq<char>) -> bool {
    t.len() >= 8 && (t[6] as u32) < 128 && (t[t.len() - 1] as u32) < 128
}

/// The field's type can be written, and cut where it names an `Option`.
pub open spec fn field_deserializable(f: FieldModel) -> bool {
    &&& type_printable(f._type)
    &&& !skipped(f) && names_option(type_text(f._type)) ==> option_inner_ok(type_text(f._type))
}

/// The fields that `deserialize_fields` reads: none for a unit.
pub open spec fn fields_of(f: FieldsModel) -> Seq<FieldModel> {
    match f {
        FieldsModel::Struct(fs) => fs,
        FieldsModel::Tuple(fs) => fs,
        FieldsModel::Unit => Seq::empty(),
    }
}

/// The declaration of the variable for field `k`.
pub open spec fn declaration_piece(k: int, f: FieldModel) -> Seq<char> {
    let label = field_label(k, f);
    let ty = type_text(f._type);
    if skipped(f) {
        Seq::empty()
    } else if names_option(ty) {
        "    let mut f_"@ + label + ": "@ + ty + " = None;\n"@
    } else {
        "    let mut f_"@ + label + ": Option<"@ + ty + "> = None;\n"@
    }
}

/// The match arm that reads field `k`.
pub open spec fn match_piece(k: int, f: FieldModel) -> Seq<char> {
    let label = field_label(k, f);
    let ty = type_text(f._type);
    if skipped(f) {
        Seq::empty()
    } else {
        "                \""@ + label + "\" => f_"@ + label + " = Some(<"@ + if names_option(ty) {
            option_inner(ty)
        } else {
            ty
        } + ">::deserialize(deserializer)?),\n"@
    }
}

/// The assignment of field `k` in the value built.
pub open spec fn assignment_piece(k: int, f: FieldModel) -> Seq<char> {
    let label = field_label(k, f);
    let ty = type_text(f._type);
    if skipped(f) {
        "        "@ + label + ": std::default::Default::default(),\n"@
    } else if names_option(ty) {
        "    "@ + label + ": f_"@ + label + ",\n"@
    } else {
        "        "@ + label + ": f_"@ + label + "?,\n"@
    }
}

/// The declarations of the first `n` fields' variables.
pub open spec fn declarations_text(fs: Seq<FieldModel>, n: int) -> Seq<char>
    decreases n,
{
    if n <= 0 {
        Seq::empty()
    } else {
        declarations_text(fs, n - 1) + declaration_piece(n - 1, fs[n - 1])
    }
}

/// The match arms that read the first `n` fields.
pub open spec fn matches_text(fs: Seq<FieldModel>, n: int) -> Seq<char>
    decreases n,
{
    if n <= 0 {
        Seq::empty()
    } else {
        matches_text(fs, n - 1) + match_piece(n - 1, fs[n - 1])
    }
}

/// The assignments of the first `n` fields in the value built.
pub open spec fn assignments_text(fs: Seq<FieldModel>, n: int) -> Seq<char>
    decreases n,
{
    if n <= 0 {
        Seq::empty()
    } else {
        assignments_text(fs, n - 1) + assignment_piece(n - 1, fs[n - 1])
    }
}

/// The arguments `f_0?,f_1?,` of a tuple variant, for the fields kept.
pub open spec fn tuple_arguments_text(fs: Seq<FieldModel>, n: int) -> Seq<char>
    decreases n,
{
    if n <= 0 {
        Seq::empty()
    } else {
        tuple_arguments_text(fs, n - 1) + if skipped(fs[n - 1]) {
            Seq::empty()
        } else {
            "f_"@ + decimal(n - 1) + "?,"@
        }
    }
}

/// The match arm that reads one variant of the enum `name`.
pub open spec fn deserialize_variant_text(name: Seq<char>, v: EnumVariantModel) -> Seq<char> {
    let fs = fields_of(v.fields);
    let n = fs.len() as int;
    match v.fields {
        FieldsModel::Struct(_) => "\n                            \""@ + v.name@
            + "\" => {\n                                "@ + declarations_text(fs, n)
            + "\n                                while let Some(p) = deserializer.has_property() {\n                                    match &*p {\n                                        "@
            + matches_text(fs, n)
            + "\n                                        _ => {}\n                                    }\n                                }\n                                "@
            + name + "::"@ + v.name@ + "{"@ + assignments_text(fs, n)
            + "}\n                            }\n                        "@,
        FieldsModel::Tuple(_) => "\n                            \""@ + v.name@
            + "\" => {\n                                "@ + declarations_text(fs, n)
            + "\n                                while let Some(p) = deserializer.has_property() {\n                                    match &*p {\n                                        "@
            + matches_text(fs, n)
            + "\n                                        _ => {}\n                                    }\n                                }\n                                "@
            + name + "::"@ + v.name@ + "("@ + tuple_arguments_text(fs, n)
            + ")\n                            }\n                        "@,
        FieldsModel::Unit => "\""@ + v.name@ + "\" => "@ + name + "::"@ + v.name@ + ","@,
    }
}

/// The match arms for the first `n` variants.
pub open spec fn deserialize_variants_text(name: Seq<char>, vs: Seq<EnumVariantModel>, n: int) -> Seq<
    char,
>
    decreases n,
{
    if n <= 0 {
        Seq::empty()
    } else {
        deserialize_variants_text(name, vs, n - 1) + deserialize_variant_text(name, vs[n - 1])
    }
}

/// `text` written `n` times.
pub open spec fn repeated_text(text: Seq<char>, n: int) -> Seq<char>
    decreases n,
{
    if n <= 0 {
        Seq::empty()
    } else {
        repeated_text(text, n - 1) + text
    }
}

/// The where clause: for an enum it is written once per variant.
pub open spec fn deserialize_where_text(v: ValueModel) -> Seq<char> {
    let clause = where_clause_text(value_generics(v), ": Deserialize<'kserde, KDes>, \n"@);
    match v {
        ValueModel::Struct(_) => clause,
        ValueModel::Enum(e) => repeated_text(clause, e.variants.len() as int),
    }
}

/// The block that reads the value.
pub open spec fn deserialize_body_text(v: ValueModel) -> Seq<char> {
    match v {
        ValueModel::Struct(s) => {
            let fs = fields_of(s.fields);
            let n = fs.len() as int;
            "\n            "@ + declarations_text(fs, n)
                + "\n            while let Some(p) = deserializer.has_property() {\n                match &*p {\n                    "@
                + matches_text(fs, n)
                + "\n                    _ => {}\n                }\n            }\n            Some(Self {\n                "@
                + assignments_text(fs, n) + "\n            })\n            "@
        },
        ValueModel::Enum(e) => "\n                let enum_name = deserializer.has_property()?;\n                deserializer.begin_object().then(|| {})?;\n                deserializer.end_object();\n                \n                Some(match &*enum_name {\n                    "@
            + deserialize_variants_text(e.name@, e.variants, e.variants.len() as int)
            + "\n                    _ => None?\n                })\n            "@,
    }
}

/// The `Deserialize` impl that the derive macro writes for `v`.
pub open spec fn deserialize_impl_text(v: ValueModel) -> Seq<char> {
    let g = value_generics(v);
    "impl<"@ + params_of_kind_text(g, 0) + "'kserde, "@ + params_of_kind_text(g, 1)
        + "KDes: kserde::Deserializer<'kserde>, "@ + params_of_kind_text(g, 2)
        + "> kserde::Deserialize<'kserde, KDes> for "@ + value_name(v)@ + as_args_text(g) + " "@
        + deserialize_where_text(v)
        + " {\n    fn deserialize(deserializer: &mut KDes) -> Option<Self> {\n        deserializer.begin_object().then(|| {})?;\n       let result = {"@
        + deserialize_body_text(v) + "};\n       deserializer.end_object();\n       result\n    }\n}"@
}

/// The generic parameters and the types of all fields can be written, and
/// the texts of `Option` types can be cut.
pub open spec fn deserializable(v: ValueModel) -> bool {
    &&& forall|i: int|
        0 <= i < value_generics(v).len() ==> generic_param_printable(
            #[trigger] value_generics(v)[i],
        )
    &&& match v {
        ValueModel::Struct(s) => forall|j: int|
            0 <= j < fields_of(s.fields).len() ==> field_deserializable(
                #[trigger] fields_of(s.fields)[j],
            ),
        ValueModel::Enum(e) => forall|i: int|
            0 <= i < e.variants.len() ==> variant_deserializable(#[trigger] e.variants[i]),
    }
}

pub open spec fn variant_deserializable(v: EnumVariantModel) -> bool {
    forall|j: int|
        0 <= j < fields_of(v.fields).len() ==> field_deserializable(#[trigger] fields_of(v.fields)[j])
}

/// Appends `n` in decimal.
fn append_index(s: &mut String, n: usize)
    ensures
        final(s)@ == old(s)@ + decimal(n as int),
{
    let mut digits: Vec<char> = Vec::new();
    push_natural_digits(&mut digits, n as u64);
    assert(digits@ =~= decimal(n as int));
    let d = string_from_chars(&digits);
    s.append(d.as_str());
}

/// Checks whether one of the field's attributes has a path segment named
/// `attribute`.
fn field_contains_attribute(field: &Field, attribute: &str) -> (r: bool)
    ensures
        r == field_has_attribute(field@, attribute@),
{
    let ghost f = field@;
    let mut i: usize = 0;
    while i < field.attributes.len()
        invariant
            i <= field.attributes@.len(),
            f == field@,
            f.attributes.len() == field.attributes@.len(),
            forall|a: int, b: int|
                0 <= a < i && 0 <= b < f.attributes[a].path.segments.len() ==> !((
                #[trigger] f.attributes[a].path.segments[b]).path_segment_type is Named
                    && f.attributes[a].path.segments[b].path_segment_type->Named_0@ == attribute@),
        decreases field.attributes@.len() - i,
    {
        let a = &field.attributes[i];
        assert(f.attributes[i as int] == a@);
        let mut j: usize = 0;
        while j < a.path.segments.len()
            invariant
                j <= a.path.segments@.len(),
                f == field@,
                0 <= i < f.attributes.len(),
                f.attributes[i as int] == a@,
                a@.path.segments.len() == a.path.segments@.len(),
                forall|b: int|
                    0 <= b < j ==> !((#[trigger] a@.path.segments[b]).path_segment_type is Named
                        && a@.path.segments[b].path_segment_type->Named_0@ == attribute@),
            decreases a.path.segments@.len() - j,
        {
            let s = &a.path.segments[j];
            assert(a@.path.segments[j as int] == s@);
            match &s.path_segment_type {
                PathSegmentType::Named(n) => {
                    if same_text(attribute, n.as_str()) {
                        assert(field_has_attribute(f, attribute@)) by {
                            assert(f.attributes[i as int].path.segments[j as int]
                                == a@.path.segments[j as int]);
                        }
                        return true;
                    }
                },
                _ => {},
            }
            j += 1;
        }
        assert forall|a2: int, b: int|
            0 <= a2 < i + 1 && 0 <= b < f.attributes[a2].path.segments.len() implies !((
            #[trigger] f.attributes[a2].path.segments[b]).path_segment_type is Named
                && f.attributes[a2].path.segments[b].path_segment_type->Named_0@ == attribute@) by {
            if a2 == i {
                assert(f.attributes[a2].path.segments[b] == a@.path.segments[b]);
            }
        }
        i += 1;
    }
    false
}

/// Appends the serializing statements for the fields of a struct.
fn serialize_fields(properties: &mut String, fields: &[Field])
    ensures
        final(properties)@ == old(properties)@ + serialize_fields_text(
            field_list_model(fields@),
            fields@.len() as int,
        ),
{
    let ghost m = field_list_model(fields@);
    let mut i: usize = 0;
    while i < fields.len()
        invariant
            i <= fields@.len(),
            m == field_list_model(fields@),
            properties@ == old(properties)@ + serialize_fields_text(m, i as int),
        decreases fields@.len() - i,
    {
        let field = &fields[i];
        assert(m[i as int] == field@);
        let ghost before = properties@;
        let skip = field_contains_attribute(field, "skip");
        if !skip {
            properties.append("    serializer.property(\"");
            match &field.name {
                Some(name) => properties.append(name.as_str()),
                None => append_index(properties, i),
            }
            properties.append("\");\n    serializer.value(&self.");
            match &field.name {
                Some(name) => properties.append(name.as_str()),
                None => append_index(properties, i),
            }
            properties.append(");\n");
        }
        assert(properties@ =~= old(properties)@ + serialize_fields_text(m, i + 1));
        i += 1;
    }
}

/// Appends the serializing statements for the fields of an enum variant.
fn serialize_enum_fields(properties: &mut String, fields: &[Field])
    ensures
        final(properties)@ == old(properties)@ + serialize_enum_fields_text(
            field_list_model(fields@),
            fields@.len() as int,
        ),
{
    let ghost m = field_list_model(fields@);
    let mut i: usize = 0;
    while i < fields.len()
        invariant
            i <= fields@.len(),
            m == field_list_model(fields@),
            properties@ == old(properties)@ + serialize_enum_fields_text(m, i as int),
        decreases fields@.len() - i,
    {
        let field = &fields[i];
        assert(m[i as int] == field@);
        let skip = field_contains_attribute(field, "skip");
        if !skip {
            match &field.name {
                Some(name) => {
                    properties.append("    serializer.property(\"");
                    properties.append(name.as_str());
                    properties.append("\");\n    serializer.value(&");
                    properties.append(name.as_str());
                    properties.append(");\n");
                },
                None => {
                    properties.append("    serializer.property(\"");
                    append_index(properties, i);
                    properties.append("\");\n    serializer.value(&i");
                    append_index(properties, i);
                    properties.append(");\n");
                },
            }
        }
        assert(properties@ =~= old(properties)@ + serialize_enum_fields_text(m, i + 1));
        i += 1;
    }
}

/// Appends `P: <bound>, \n` for each generic parameter, after `where `.
fn push_where_clause(where_clause: &mut String, params: &GenericParams, bound: &str)
    requires
        forall|i: int| 0 <= i < params@.len() ==> generic_param_printable(#[trigger] params@[i]),
    ensures
        final(where_clause)@ == old(where_clause)@ + where_clause_text(params@, bound@),
{
    if params.0.len() != 0 {
        where_clause.append("where ");
        let ghost start = where_clause@;
        let mut i: usize = 0;
        while i < params.0.len()
            invariant
                i <= params.0@.len(),
                forall|k: int|
                    0 <= k < params@.len() ==> generic_param_printable(#[trigger] params@[k]),
                where_clause@ == start + where_bounds_text(params@, bound@, i as int),
            decreases params.0@.len() - i,
        {
            assert(params@[i as int] == params.0@[i as int]@);
            let s = params.0[i].as_string();
            where_clause.append(s.as_str());
            where_clause.append(bound);
            assert(where_clause@ =~= start + where_bounds_text(params@, bound@, i + 1));
            i += 1;
        }
    }
}

/// Writes the `Serialize` impl for a struct or an enum.
pub fn kserde_serialize_impl(value: &Value) -> (r: String)
    requires
        serializable(value@),
    ensures
        r@ == serialize_impl_text(value@),
{
    let (generic_parameters, name) = match value {
        Value::Struct(s) => (&s.generic_parameters, &s.name),
        Value::Enum(e) => (&e.generic_parameters, &e.name),
    };
    assert(value_generics(value@) =~= generic_parameters@);
    let (generic_lifetimes, mut generic_types, generic_consts) =
        generic_parameters.lifetimes_types_consts();
    generic_types.append("KSer: kserde::Serializer, ");
    let generic_args = generic_parameters.as_args();
    let mut where_clause = String::new();
    push_where_clause(&mut where_clause, generic_parameters, ": Serialize<KSer>, \n");
    let mut properties = String::new();
    match value {
        Value::Struct(s) => match &s.fields {
            Fields::Struct(fields) => serialize_fields(&mut properties, fields.as_slice()),
            Fields::Tuple(fields) => serialize_fields(&mut properties, fields.as_slice()),
            Fields::Unit => {},
        },
        Value::Enum(e) => {
            let ghost vs = value@->Enum_0.variants;
            let mut variants = String::new();
            let mut i: usize = 0;
            while i < e.variants.len()
                invariant
                    i <= e.variants@.len(),
                    vs.len() == e.variants@.len(),
                    forall|k: int| 0 <= k < vs.len() ==> #[trigger] vs[k] == e.variants@[k]@,
                    forall|k: int| 0 <= k < vs.len() ==> variant_names_kept(#[trigger] vs[k]),
                    value@->Enum_0.name == e.name,
                    variants@ == serialize_variants_text(e.name@, vs, i as int),
                decreases e.variants@.len() - i,
            {
                let variant = &e.variants[i];
                assert(vs[i as int] == variant@);
                assert(variant_names_kept(vs[i as int]));
                let mut variant_match = String::new();
                variant_match.append("    ");
                variant_match.append(e.name.as_str());
                variant_match.append("::");
                variant_match.append(variant.name.as_str());
                let ghost head = variant_match@;
                match &variant.fields {
                    Fields::Tuple(fields) => {
                        let ghost fs = field_list_model(fields@);
                        variant_match.append("(");
                        let ghost open = variant_match@;
                        let mut j: usize = 0;
                        while j < fields.len()
                            invariant
                                j <= fields@.len(),
                                fs == field_list_model(fields@),
                                variant_match@ == open + tuple_binders_text(fs, j as int),
                            decreases fields@.len() - j,
                        {
                            assert(fs[j as int] == fields@[j as int]@);
                            if !field_contains_attribute(&fields[j], "skip") {
                                variant_match.append("i");
                                append_index(&mut variant_match, j);
                                variant_match.append(",");
                            }
                            assert(variant_match@ =~= open + tuple_binders_text(fs, j + 1));
                            j += 1;
                        }
                        variant_match.append(") => {\n    serializer.property(\"");
                        variant_match.append(variant.name.as_str());
                        variant_match.append("\");\n    serializer.begin_object();\n");
                        serialize_enum_fields(&mut variant_match, fields.as_slice());
                        variant_match.append("serializer.end_object();\n},");
                    },
                    Fields::Struct(fields) => {
                        let ghost fs = field_list_model(fields@);
                        variant_match.append("{");
                        let ghost open = variant_match@;
                        let mut j: usize = 0;
                        while j < fields.len()
                            invariant
                                j <= fields@.len(),
                                fs == field_list_model(fields@),
                                forall|k: int|
                                    0 <= k < fs.len() ==> skipped(#[trigger] fs[k]) || fs[k].name is Some,
                                variant_match@ == open + struct_binders_text(fs, j as int),
                            decreases fields@.len() - j,
                        {
                            assert(fs[j as int] == fields@[j as int]@);
                            if !field_contains_attribute(&fields[j], "skip") {
                                match &fields[j].name {
                                    Some(n) => variant_match.append(n.as_str()),
                                    None => {},
                                }
                                variant_match.append(",");
                            }
                            assert(variant_match@ =~= open + struct_binders_text(fs, j + 1));
                            j += 1;
                        }
                        variant_match.append("} => {\n    serializer.property(\"");
                        variant_match.append(variant.name.as_str());
                        variant_match.append("\");\n    serializer.begin_object();\n");
                        serialize_enum_fields(&mut variant_match, fields.as_slice());
                        variant_match.append("serializer.end_object();\n},");
                    },
                    Fields::Unit => {
                        variant_match.append(" => {\n    serializer.property(\"");
                        variant_match.append(variant.name.as_str());
                        variant_match.append(
                            "\");\n    serializer.begin_object();\n    serializer.end_object();\n},\n",
                        );
                    },
                }
                assert(variant_match@ =~= serialize_variant_text(e.name@, vs[i as int]));
                variants.append(variant_match.as_str());
                assert(variants@ =~= serialize_variants_text(e.name@, vs, i + 1));
                i += 1;
            }
            properties.append("match self {\n                    ");
            properties.append(variants.as_str());
            properties.append("\n                }");
        },
    }
    let mut r = String::new();
    r.append("impl<");
    r.append(generic_lifetimes.as_str());
    r.append(generic_types.as_str());
    r.append(generic_consts.as_str());
    r.append("> kserde::Serialize<KSer> for ");
    r.append(name.as_str());
    r.append(generic_args.as_str());
    r.append(" ");
    r.append(where_clause.as_str());
    r.append(" {\n        fn serialize(&self, serializer: &mut KSer) {\n        serializer.begin_object();\n        ");
    r.append(properties.as_str());
    r.append("\n        serializer.end_object();\n    }\n}");
    assert(r@ =~= serialize_impl_text(value@));
    r
}

/// Characters `start` up to `end` of `chars`, as a string.
fn string_of_range(chars: &Vec<char>, start: usize, end: usize) -> (r: String)
    requires
        start <= end <= chars@.len(),
    ensures
        r@ == chars@.subrange(start as int, end as int),
{
    let mut r = String::new();
    let mut i = start;
    while i < end
        invariant
            start <= i <= end,
            end <= chars@.len(),
            r@ == chars@.subrange(start as int, i as int),
        decreases end - i,
    {
        push_char(&mut r, chars[i]);
        i += 1;
        assert(r@ =~= chars@.subrange(start as int, i as int));
    }
    r
}

/// Appends the declaration, the match arm and the assignment for field `i`.
fn deserialize_field(
    field: &Field,
    i: usize,
    properties_declaration: &mut String,
    deserialize_match: &mut String,
    property_assignment: &mut String,
)
    requires
        field_deserializable(field@),
    ensures
        final(properties_declaration)@ == old(properties_declaration)@ + declaration_piece(
            i as int,
            field@,
        ),
        final(deserialize_match)@ == old(deserialize_match)@ + match_piece(i as int, field@),
        final(property_assignment)@ == old(property_assignment)@ + assignment_piece(
            i as int,
            field@,
        ),
{
    let mut name = String::new();
    match &field.name {
        Some(n) => name.append(n.as_str()),
        None => append_index(&mut name, i),
    }
    let ghost label = field_label(i as int, field@);
    assert(name@ == label);
    let _type = field._type.as_string();
    let ghost ty = type_text(field@._type);
    let skip = field_contains_attribute(field, "skip");
    if skip {
        property_assignment.append("        ");
        property_assignment.append(name.as_str());
        property_assignment.append(": std::default::Default::default(),\n");
        assert(property_assignment@ =~= old(property_assignment)@ + assignment_piece(
            i as int,
            field@,
        ));
        return ;
    }
    let chars = chars_of(_type.as_str());
    let is_option = chars.len() >= 6 && chars[0] == 'O' && chars[1] == 'p' && chars[2] == 't'
        && chars[3] == 'i' && chars[4] == 'o' && chars[5] == 'n';
    assert(is_option == names_option(ty));
    properties_declaration.append("    let mut f_");
    properties_declaration.append(name.as_str());
    if is_option {
        properties_declaration.append(": ");
        properties_declaration.append(_type.as_str());
        properties_declaration.append(" = None;\n");
    } else {
        properties_declaration.append(": Option<");
        properties_declaration.append(_type.as_str());
        properties_declaration.append("> = None;\n");
    }
    assert(properties_declaration@ =~= old(properties_declaration)@ + declaration_piece(
        i as int,
        field@,
    ));
    let read = if is_option {
        string_of_range(&chars, 7, chars.len() - 1)
    } else {
        _type
    };
    assert(read@ == if names_option(ty) {
        option_inner(ty)
    } else {
        ty
    });
    deserialize_match.append("                \"");
    deserialize_match.append(name.as_str());
    deserialize_match.append("\" => f_");
    deserialize_match.append(name.as_str());
    deserialize_match.append(" = Some(<");
    deserialize_match.append(read.as_str());
    deserialize_match.append(">::deserialize(deserializer)?),\n");
    assert(deserialize_match@ =~= old(deserialize_match)@ + match_piece(i as int, field@));
    if is_option {
        property_assignment.append("    ");
        property_assignment.append(name.as_str());
        property_assignment.append(": f_");
        property_assignment.append(name.as_str());
        property_assignment.append(",\n");
    } else {
        property_assignment.append("        ");
        property_assignment.append(name.as_str());
        property_assignment.append(": f_");
        property_assignment.append(name.as_str());
        property_assignment.append("?,\n");
    }
    assert(property_assignment@ =~= old(property_assignment)@ + assignment_piece(i as int, field@));
}

/// Appends, for each field, the declaration of its variable, the match arm
/// that reads it and its assignment in the value built.
pub fn deserialize_fields(
    fields: &Fields,
    properties_declaration: &mut String,
    deserialize_match: &mut String,
    property_assignment: &mut String,
)
    requires
        forall|j: int|
            0 <= j < fields_of(fields@).len() ==> field_deserializable(
                #[trigger] fields_of(fields@)[j],
            ),
    ensures
        final(properties_declaration)@ == old(properties_declaration)@ + declarations_text(
            fields_of(fields@),
            fields_of(fields@).len() as int,
        ),
        final(deserialize_match)@ == old(deserialize_match)@ + matches_text(
            fields_of(fields@),
            fields_of(fields@).len() as int,
        ),
        final(property_assignment)@ == old(property_assignment)@ + assignments_text(
            fields_of(fields@),
            fields_of(fields@).len() as int,
        ),
{
    let ghost all = fields_of(fields@);
    let fields = match fields {
        Fields::Struct(f) => f,
        Fields::Tuple(f) => f,
        Fields::Unit => return ,
    };
    assert(all =~= field_list_model(fields@));
    let ghost m = field_list_model(fields@);
    let mut i: usize = 0;
    while i < fields.len()
        invariant
            i <= fields@.len(),
            m == field_list_model(fields@),
            forall|j: int| 0 <= j < m.len() ==> field_deserializable(#[trigger] m[j]),
            properties_declaration@ == old(properties_declaration)@ + declarations_text(m, i as int),
            deserialize_match@ == old(deserialize_match)@ + matches_text(m, i as int),
            property_assignment@ == old(property_assignment)@ + assignments_text(m, i as int),
        decreases fields@.len() - i,
    {
        let field = &fields[i];
        assert(m[i as int] == field@);
        assert(field_deserializable(m[i as int]));
        deserialize_field(
            field,
            i,
            properties_declaration,
            deserialize_match,
            property_assignment,
        );
        assert(properties_declaration@ =~= old(properties_declaration)@ + declarations_text(
            m,
            i + 1,
        ));
        assert(deserialize_match@ =~= old(deserialize_match)@ + matches_text(m, i + 1));
        assert(property_assignment@ =~= old(property_assignment)@ + assignments_text(m, i + 1));
        i += 1;
    }
}

/// Writes the `Deserialize` impl for a struct or an enum.
pub fn kserde_deserialize_impl(value: &Value) -> (r: String)
    requires
        deserializable(value@),
    ensures
        r@ == deserialize_impl_text(value@),
{
    let (generic_parameters, name) = match value {
        Value::Struct(s) => (&s.generic_parameters, &s.name),
        Value::Enum(e) => (&e.generic_parameters, &e.name),
    };
    assert(value_generics(value@) =~= generic_parameters@);
    let ghost clause = where_clause_text(
        generic_parameters@,
        ": Deserialize<'kserde, KDes>, \n"@,
    );
    let mut where_clause = String::new();
    let mut body = String::new();
    match value {
        Value::Struct(s) => {
            push_where_clause(&mut where_clause, generic_parameters, ": Deserialize<'kserde, KDes>, \n");
            let mut deserialize_match = String::new();
            let mut properties_declaration = String::new();
            let mut property_assignment = String::new();
            deserialize_fields(
                &s.fields,
                &mut properties_declaration,
                &mut deserialize_match,
                &mut property_assignment,
            );
            body.append("\n            ");
            body.append(properties_declaration.as_str());
            body.append(
                "\n            while let Some(p) = deserializer.has_property() {\n                match &*p {\n                    ",
            );
            body.append(deserialize_match.as_str());
            body.append(
                "\n                    _ => {}\n                }\n            }\n            Some(Self {\n                ",
            );
            body.append(property_assignment.as_str());
            body.append("\n            })\n            ");
        },
        Value::Enum(e) => {
            let ghost vs = value@->Enum_0.variants;
            let mut enum_body_inner = String::new();
            let mut i: usize = 0;
            while i < e.variants.len()
                invariant
                    i <= e.variants@.len(),
                    vs.len() == e.variants@.len(),
                    forall|k: int| 0 <= k < vs.len() ==> #[trigger] vs[k] == e.variants@[k]@,
                    forall|k: int| 0 <= k < vs.len() ==> variant_deserializable(#[trigger] vs[k]),
                    forall|k: int|
                        0 <= k < generic_parameters@.len() ==> generic_param_printable(
                            #[trigger] generic_parameters@[k],
                        ),
                    clause == where_clause_text(
                        generic_parameters@,
                        ": Deserialize<'kserde, KDes>, \n"@,
                    ),
                    value@->Enum_0.name == e.name,
                    where_clause@ == repeated_text(clause, i as int),
                    enum_body_inner@ == deserialize_variants_text(e.name@, vs, i as int),
                decreases e.variants@.len() - i,
            {
                let variant = &e.variants[i];
                assert(vs[i as int] == variant@);
                assert(variant_deserializable(vs[i as int]));
                let mut deserialize_match = String::new();
                let mut properties_declaration = String::new();
                let mut property_assignment = String::new();
                push_where_clause(
                    &mut where_clause,
                    generic_parameters,
                    ": Deserialize<'kserde, KDes>, \n",
                );
                deserialize_fields(
                    &variant.fields,
                    &mut properties_declaration,
                    &mut deserialize_match,
                    &mut property_assignment,
                );
                let mut arm = String::new();
                match &variant.fields {
                    Fields::Struct(_) => {
                        arm.append("\n                            \"");
                        arm.append(variant.name.as_str());
                        arm.append("\" => {\n                                ");
                        arm.append(properties_declaration.as_str());
                        arm.append(
                            "\n                                while let Some(p) = deserializer.has_property() {\n                                    match &*p {\n                                        ",
                        );
                        arm.append(deserialize_match.as_str());
                        arm.append(
                            "\n                                        _ => {}\n                                    }\n                                }\n                                ",
                        );
                        arm.append(e.name.as_str());
                        arm.append("::");
                        arm.append(variant.name.as_str());
                        arm.append("{");
                        arm.append(property_assignment.as_str());
                        arm.append("}\n                            }\n                        ");
                    },
                    Fields::Tuple(f) => {
                        let ghost fs = field_list_model(f@);
                        let mut tuple_assignment = String::new();
                        let mut j: usize = 0;
                        while j < f.len()
                            invariant
                                j <= f@.len(),
                                fs == field_list_model(f@),
                                tuple_assignment@ == tuple_arguments_text(fs, j as int),
                            decreases f@.len() - j,
                        {
                            assert(fs[j as int] == f@[j as int]@);
                            if !field_contains_attribute(&f[j], "skip") {
                                tuple_assignment.append("f_");
                                append_index(&mut tuple_assignment, j);
                                tuple_assignment.append("?,");
                            }
                            assert(tuple_assignment@ =~= tuple_arguments_text(fs, j + 1));
                            j += 1;
                        }
                        assert(fs =~= fields_of(vs[i as int].fields));
                        arm.append("\n                            \"");
                        arm.append(variant.name.as_str());
                        arm.append("\" => {\n                                ");
                        arm.append(properties_declaration.as_str());
                        arm.append(
                            "\n                                while let Some(p) = deserializer.has_property() {\n                                    match &*p {\n                                        ",
                        );
                        arm.append(deserialize_match.as_str());
                        arm.append(
                            "\n                                        _ => {}\n                                    }\n                                }\n                                ",
                        );
                        arm.append(e.name.as_str());
                        arm.append("::");
                        arm.append(variant.name.as_str());
                        arm.append("(");
                        arm.append(tuple_assignment.as_str());
                        arm.append(")\n                            }\n                        ");
                    },
                    Fields::Unit => {
                        arm.append("\"");
                        arm.append(variant.name.as_str());
                        arm.append("\" => ");
                        arm.append(e.name.as_str());
                        arm.append("::");
                        arm.append(variant.name.as_str());
                        arm.append(",");
                    },
                }
                assert(arm@ =~= deserialize_variant_text(e.name@, vs[i as int]));
                enum_body_inner.append(arm.as_str());
                assert(enum_body_inner@ =~= deserialize_variants_text(e.name@, vs, i + 1));
                assert(where_clause@ =~= repeated_text(clause, i + 1));
                i += 1;
            }
            body.append(
                "\n                let enum_name = deserializer.has_property()?;\n                deserializer.begin_object().then(|| {})?;\n                deserializer.end_object();\n                \n                Some(match &*enum_name {\n                    ",
            );
            body.append(enum_body_inner.as_str());
            body.append("\n                    _ => None?\n                })\n            ");
        },
    }
    let (mut generic_lifetimes, mut generic_types, generic_consts) =
        generic_parameters.lifetimes_types_consts();
    generic_lifetimes.append("'kserde, ");
    generic_types.append("KDes: kserde::Deserializer<'kserde>, ");
    let generic_args = generic_parameters.as_args();
    let mut r = String::new();
    r.append("impl<");
    r.append(generic_lifetimes.as_str());
    r.append(generic_types.as_str());
    r.append(generic_consts.as_str());
    r.append("> kserde::Deserialize<'kserde, KDes> for ");
    r.append(name.as_str());
    r.append(generic_args.as_str());
    r.append(" ");
    r.append(where_clause.as_str());
    r.append(
        " {\n    fn deserialize(deserializer: &mut KDes) -> Option<Self> {\n        deserializer.begin_object().then(|| {})?;\n       let result = {",
    );
    r.append(body.as_str());
    r.append("};\n       deserializer.end_object();\n       result\n    }\n}");
    assert(r@ =~= deserialize_impl_text(value@));
    r
}
} // verus!
