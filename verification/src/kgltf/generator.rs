//! The Rust source text generated for the types of a schema: a struct or
//! enum declaration for each named type, with its `Serialize` and
//! `Deserialize` impls.

use vstd::prelude::*;

use crate::kgltf::rust_types::{
    rust_type_of, Registry, RustGenerator,
    enum_model, field_model, fields_model, member_model, whole_number, whole_value, EnumMember,
    EnumMemberModel, JsonEnumValue, JsonEnumValueModel, RustEnum, RustEnumModel,
    RustStruct, RustStructModel, RustStructProperty, RustStructPropertyModel, RustType,
    RustTypeModel, type_model,
};
use crate::kserde::thing::{
    number_chars, number_parts, number_text, thing_text, NumberParts, Thing, ThingModel,
};
use crate::kgltf::schema_reader::{text_option, texts_model, Schema};
use crate::kreflect::tokenizer::fits_i128;
use crate::kserde::json_deserialize::{same_text, string_from_chars, JsonNumber};
use crate::kserde::json_serialize::{decimal, push_natural_digits};
use vstd::string::StringExecFns;

verus! {

/// How `{:?}` writes a text: in double quotes, with quotes, backslashes
/// and unprintable characters escaped.
pub uninterp spec fn debug_text(s: Seq<char>) -> Seq<char>;

/// `<str as Debug>::fmt`, through `format!("{:?}", ..)`. Its result depends
/// on the text alone; a text of printable ASCII characters other than `"`
/// and `\\` is written as itself in double quotes. How the other characters
/// are escaped is not stated here.
#[verifier::external_body]
fn debug_quoted(s: &str) -> (r: String)
    ensures
        r@ == debug_text(s@),
        (forall|j: int|
            0 <= j < s@.len() ==> 0x20 <= (#[trigger] s@[j]) as u32 <= 0x7E && s@[j] != '"' && s@[j]
                != '\\') ==> r@ == seq!['"'] + s@ + seq!['"'],
{
    format!("{:?}", s)
}

/// The name that the generated code gives a type.
pub open spec fn type_name_text(t: RustTypeModel) -> Seq<char>
    decreases t,
{
    match t {
        RustTypeModel::String => "String"@,
        RustTypeModel::Usize => "usize"@,
        RustTypeModel::Boolean => "bool"@,
        RustTypeModel::F32 => "f32"@,
        RustTypeModel::Struct(s) => s.name,
        RustTypeModel::Array(n, b) => "["@ + type_name_text(*b) + "; "@ + decimal(n) + "]"@,
        RustTypeModel::Vec(b) => "Vec<"@ + type_name_text(*b) + ">"@,
        RustTypeModel::Option(b) => "Option<"@ + type_name_text(*b) + ">"@,
        RustTypeModel::HashMap(k, v) => "HashMap<"@ + type_name_text(*k) + ", "@ + type_name_text(*v) + ">"@,
        RustTypeModel::Enum(e) => e.name,
        RustTypeModel::OwnedThing => "ThingOwned"@,
        RustTypeModel::Unimplemented => "UNIMPLEMENTED"@,
    }
}

/// Appends `n` in decimal.
fn append_decimal(s: &mut String, n: u64)
    ensures
        final(s)@ == old(s)@ + decimal(n as int),
{
    let mut digits: Vec<char> = Vec::new();
    push_natural_digits(&mut digits, n);
    assert(digits@ =~= decimal(n as int));
    let d = string_from_chars(&digits);
    s.append(d.as_str());
}

/// Appends `i` in decimal.
fn append_i32(s: &mut String, i: i32)
    ensures
        final(s)@ == old(s)@ + decimal(i as int),
{
    if i >= 0 {
        append_decimal(s, i as u64);
    } else {
        let ghost start = s@;
        proof {
            reveal_strlit("-");
        }
        s.append("-");
        let m: i64 = 0 - (i as i64);
        append_decimal(s, m as u64);
        assert(decimal(m as int) == crate::kserde::json_serialize::natural_digits(m as nat));
        assert(s@ =~= start + decimal(i as int));
    }
}

impl RustType {
    /// The name that the generated code gives this type.
    pub fn rust_type_name(&self) -> (r: String)
        ensures
            r@ == type_name_text(self@),
        decreases self,
    {
        let mut r = String::new();
        match self {
            RustType::String => r.append("String"),
            RustType::USIZE => r.append("usize"),
            RustType::Boolean => r.append("bool"),
            RustType::F32 => r.append("f32"),
            RustType::Struct(s) => r.append(s.name.as_str()),
            RustType::Array(n, b) => {
                let inner = b.rust_type_name();
                r.append("[");
                r.append(inner.as_str());
                r.append("; ");
                append_decimal(&mut r, *n as u64);
                r.append("]");
            },
            RustType::Vec(b) => {
                let inner = b.rust_type_name();
                r.append("Vec<");
                r.append(inner.as_str());
                r.append(">");
            },
            RustType::Option(b) => {
                let inner = b.rust_type_name();
                r.append("Option<");
                r.append(inner.as_str());
                r.append(">");
            },
            RustType::HashMap(k, v) => {
                let kn = k.rust_type_name();
                let vn = v.rust_type_name();
                r.append("HashMap<");
                r.append(kn.as_str());
                r.append(", ");
                r.append(vn.as_str());
                r.append(">");
            },
            RustType::Enum(e) => r.append(e.name.as_str()),
            RustType::KSerdeOwnedThing => r.append("ThingOwned"),
            RustType::Unimplemented => r.append("UNIMPLEMENTED"),
        }
        assert(r@ =~= type_name_text(self@));
        r
    }
}

/// The line of an enum's declaration that a member gives, after its
/// description.
pub open spec fn member_decl_text(m: EnumMemberModel) -> Seq<char> {
    (match m.description {
        Some(d) => "    /// "@ + d + "\n"@,
        None => Seq::empty(),
    }) + (match m.value {
        Some(v) => "    "@ + m.name + " = "@ + decimal(v) + ",\n"@,
        None => "    "@ + m.name + ",\n"@,
    })
}

/// The arm of the generated `serialize` that a member gives.
pub open spec fn member_serialize_text(m: EnumMemberModel) -> Seq<char> {
    "            Self::"@ + m.name + " => "@ + (match m.json_value {
        JsonEnumValueModel::Integer(i) => decimal(i),
        JsonEnumValueModel::String(x) => debug_text(x),
    }) + ".serialize(serializer),\n"@
}

/// The arm of the generated `deserialize` that a member gives, where the
/// enum is read from text (`by_text`) or from a number.
pub open spec fn member_deserialize_text(m: EnumMemberModel, by_text: bool) -> Seq<char> {
    match m.json_value {
        JsonEnumValueModel::String(x) => if by_text {
            "            \""@ + x + "\" => Self::"@ + m.name + ",\n"@
        } else {
            Seq::empty()
        },
        JsonEnumValueModel::Integer(i) => if by_text {
            Seq::empty()
        } else {
            "            "@ + decimal(i) + " => Self::"@ + m.name + ",\n"@
        },
    }
}

/// The declaration lines of the first `n` members.
pub open spec fn members_decl_text(ms: Seq<EnumMemberModel>, n: int) -> Seq<char>
    decreases n,
{
    if n <= 0 {
        Seq::empty()
    } else {
        members_decl_text(ms, n - 1) + member_decl_text(ms[n - 1])
    }
}

/// The `serialize` arms of the first `n` members.
pub open spec fn members_serialize_text(ms: Seq<EnumMemberModel>, n: int) -> Seq<char>
    decreases n,
{
    if n <= 0 {
        Seq::empty()
    } else {
        members_serialize_text(ms, n - 1) + member_serialize_text(ms[n - 1])
    }
}

/// The `deserialize` arms of the first `n` members.
pub open spec fn members_deserialize_text(ms: Seq<EnumMemberModel>, n: int, by_text: bool) -> Seq<char>
    decreases n,
{
    if n <= 0 {
        Seq::empty()
    } else {
        members_deserialize_text(ms, n - 1, by_text) + member_deserialize_text(ms[n - 1], by_text)
    }
}

/// The code generated for an enum; `None` where it has no members.
pub open spec fn enum_text(e: RustEnumModel) -> Option<Seq<char>> {
    if e.members.len() == 0 {
        None
    } else {
        let by_text = e.members[0].json_value is String;
        Some(
            "/// "@ + e.description + "\n"@ + "#[derive(Debug, Clone)]pub enum "@ + e.name + " {\n"@
                + members_decl_text(e.members, e.members.len() as int) + "}\n\n"@
                + "impl<S: Serializer> Serialize<S> for "@ + e.name + " {\n"@
                + "    fn serialize(&self, serializer: &mut S) {\n"@ + "        match self {\n"@
                + members_serialize_text(e.members, e.members.len() as int) + "        }\n"@
                + "    }\n"@ + "}\n"@ + "impl<'a, D: Deserializer<'a>> Deserialize<'a, D> for "@
                + e.name + " {\n"@ + "    fn deserialize(deserializer: &mut D) -> Option<Self> {\n"@
                + (if by_text {
                "        let value = deserializer.string()?;\n"@ + "        Some(match &*value {\n"@
            } else {
                "        let value = deserializer.i64()?;\n"@ + "        Some(match value {\n"@
            }) + members_deserialize_text(e.members, e.members.len() as int, by_text)
                + "        _ => None?\n"@ + "        })\n"@ + "    }\n"@ + "}\n\n"@,
        )
    }
}

fn member_decl(m: &EnumMember) -> (r: String)
    ensures
        r@ == member_decl_text(member_model(*m)),
{
    let mut r = String::new();
    match &m.description {
        Some(d) => {
            r.append("    /// ");
            r.append(d.as_str());
            r.append("\n");
        },
        None => {},
    }
    match m.value {
        Some(v) => {
            r.append("    ");
            r.append(m.name.as_str());
            r.append(" = ");
            append_decimal(&mut r, v as u64);
            r.append(",\n");
        },
        None => {
            r.append("    ");
            r.append(m.name.as_str());
            r.append(",\n");
        },
    }
    assert(r@ =~= member_decl_text(member_model(*m)));
    r
}

fn member_serialize(m: &EnumMember) -> (r: String)
    ensures
        r@ == member_serialize_text(member_model(*m)),
{
    let mut r = String::new();
    r.append("            Self::");
    r.append(m.name.as_str());
    r.append(" => ");
    match &m.json_value {
        JsonEnumValue::Integer(i) => {
            append_i32(&mut r, *i);
        },
        JsonEnumValue::String(x) => {
            let q = debug_quoted(x.as_str());
            r.append(q.as_str());
        },
    }
    r.append(".serialize(serializer),\n");
    assert(r@ =~= member_serialize_text(member_model(*m)));
    r
}

fn member_deserialize(m: &EnumMember, by_text: bool) -> (r: String)
    ensures
        r@ == member_deserialize_text(member_model(*m), by_text),
{
    let mut r = String::new();
    match &m.json_value {
        JsonEnumValue::String(x) => if by_text {
            r.append("            \"");
            r.append(x.as_str());
            r.append("\" => Self::");
            r.append(m.name.as_str());
            r.append(",\n");
        },
        JsonEnumValue::Integer(i) => if !by_text {
            r.append("            ");
            append_i32(&mut r, *i);
            r.append(" => Self::");
            r.append(m.name.as_str());
            r.append(",\n");
        },
    }
    assert(r@ =~= member_deserialize_text(member_model(*m), by_text));
    r
}

/// The code generated for an enum, as `enum_text` says.
fn enum_code(e: &RustEnum) -> (r: Option<String>)
    ensures
        match enum_text(enum_model(*e)) {
            Some(t) => r matches Some(x) && x@ == t,
            None => r is None,
        },
{
    let ghost em = enum_model(*e);
    if e.members.len() == 0 {
        return None;
    }
    assert(em.members[0] == member_model(e.members@[0]));
    let by_text = match &e.members[0].json_value {
        JsonEnumValue::String(_) => true,
        JsonEnumValue::Integer(_) => false,
    };
    let mut decl = String::new();
    let mut ser = String::new();
    let mut de = String::new();
    let mut i: usize = 0;
    while i < e.members.len()
        invariant
            i <= e.members@.len(),
            em == enum_model(*e),
            decl@ == members_decl_text(em.members, i as int),
            ser@ == members_serialize_text(em.members, i as int),
            de@ == members_deserialize_text(em.members, i as int, by_text),
        decreases e.members@.len() - i,
    {
        assert(em.members[i as int] == member_model(e.members@[i as int]));
        let a = member_decl(&e.members[i]);
        let b = member_serialize(&e.members[i]);
        let c = member_deserialize(&e.members[i], by_text);
        decl.append(a.as_str());
        ser.append(b.as_str());
        de.append(c.as_str());
        i += 1;
    }
    let mut r = String::new();
    r.append("/// ");
    r.append(e.description.as_str());
    r.append("\n");
    r.append("#[derive(Debug, Clone)]pub enum ");
    r.append(e.name.as_str());
    r.append(" {\n");
    r.append(decl.as_str());
    r.append("}\n\n");
    r.append("impl<S: Serializer> Serialize<S> for ");
    r.append(e.name.as_str());
    r.append(" {\n");
    r.append("    fn serialize(&self, serializer: &mut S) {\n");
    r.append("        match self {\n");
    r.append(ser.as_str());
    r.append("        }\n");
    r.append("    }\n");
    r.append("}\n");
    r.append("impl<'a, D: Deserializer<'a>> Deserialize<'a, D> for ");
    r.append(e.name.as_str());
    r.append(" {\n");
    r.append("    fn deserialize(deserializer: &mut D) -> Option<Self> {\n");
    if by_text {
        r.append("        let value = deserializer.string()?;\n");
        r.append("        Some(match &*value {\n");
    } else {
        r.append("        let value = deserializer.i64()?;\n");
        r.append("        Some(match value {\n");
    }
    r.append(de.as_str());
    r.append("        _ => None?\n");
    r.append("        })\n");
    r.append("    }\n");
    r.append("}\n\n");
    assert(r@ =~= enum_text(em).unwrap());
    Some(r)
}

/// The type a field is declared with: a `Vec` or `HashMap` stays out of its
/// `Option`, since it is left empty where the property is missing.
pub open spec fn field_type_text(t: RustTypeModel) -> Seq<char> {
    match t {
        RustTypeModel::Option(r) => match *r {
            RustTypeModel::Vec(_) => type_name_text(*r),
            RustTypeModel::HashMap(_, _) => type_name_text(*r),
            _ => type_name_text(t),
        },
        _ => type_name_text(t),
    }
}

/// The type inside an `Option`, or the type itself.
pub open spec fn inner_type(t: RustTypeModel) -> RustTypeModel {
    match t {
        RustTypeModel::Option(r) => *r,
        _ => t,
    }
}

/// The declaration of a field, after its description.
pub open spec fn field_decl_text(p: RustStructPropertyModel) -> Seq<char> {
    (match p.description {
        Some(d) => "    /// "@ + d + "\n"@,
        None => Seq::empty(),
    }) + "    pub "@ + p.name + ": "@ + field_type_text(p.property_type) + ",\n"@
}

pub open spec fn property_call_text(p: RustStructPropertyModel) -> Seq<char> {
    "serializer.property(\""@ + p.json_name + "\", &self."@ + p.name + ");\n"@
}

/// Writing a field only where it is not empty.
pub open spec fn if_nonempty_text(p: RustStructPropertyModel) -> Seq<char> {
    "        if !self."@ + p.name + ".is_empty() {\n"@ + "           "@ + property_call_text(p) + "        }\n"@
}

/// Writing a field only where it is set.
pub open spec fn if_some_text(p: RustStructPropertyModel) -> Seq<char> {
    "        if let Some(v) = self."@ + p.name + ".as_ref() {\n"@ + "           serializer.property(\""@
        + p.json_name + "\", v);\n"@ + "        }\n"@
}

/// The lines of the generated `serialize` that write a field; `None` for
/// an optional field, without default and with incompatible properties,
/// whose type is neither a `Vec` nor an `Option`.
pub open spec fn field_serialize_text(p: RustStructPropertyModel) -> Option<Seq<char>> {
    if p.optional && p.default_value is None && p.incompatible_with.len() > 0 {
        match p.property_type {
            RustTypeModel::Vec(_) => Some(if_nonempty_text(p)),
            RustTypeModel::Option(inner) => match *inner {
                RustTypeModel::Vec(_) => Some(if_nonempty_text(p)),
                RustTypeModel::HashMap(_, _) => Some(if_nonempty_text(p)),
                _ => Some(if_some_text(p)),
            },
            _ => None,
        }
    } else {
        Some("        "@ + property_call_text(p))
    }
}

pub open spec fn field_let_text(p: RustStructPropertyModel) -> Seq<char> {
    "        let mut "@ + p.name + " = None;\n"@
}

pub open spec fn field_match_text(p: RustStructPropertyModel) -> Seq<char> {
    "                \""@ + p.json_name + "\" =>"@ + " "@ + p.name + " = Some(<"@ + type_name_text(
        inner_type(p.property_type),
    ) + ">::deserialize(deserializer)?),\n"@
}

/// The names joined as `a.is_none() && b.is_none()`, of the first `n`.
pub open spec fn condition_text(names: Seq<Seq<char>>, n: int) -> Seq<char>
    decreases n,
{
    if n <= 0 {
        Seq::empty()
    } else if n == 1 {
        names[0] + ".is_none()"@
    } else {
        condition_text(names, n - 1) + " && "@ + names[n - 1] + ".is_none()"@
    }
}

/// The member of `e` named by the text default `x`, from member `k` on:
/// the empty text where none is; `None` where a member with a number
/// comes first.
pub open spec fn enum_text_default(e: RustEnumModel, x: Seq<char>, k: int) -> Option<Seq<char>>
    decreases e.members.len() - k,
{
    if k < 0 || k >= e.members.len() {
        Some(Seq::empty())
    } else {
        match e.members[k].json_value {
            JsonEnumValueModel::String(v) => if v == x {
                Some(e.name + "::"@ + e.members[k].name)
            } else {
                enum_text_default(e, x, k + 1)
            },
            JsonEnumValueModel::Integer(_) => None,
        }
    }
}

/// The member of `e` whose value is the number default `n`, from member `k`
/// on: the empty text where none is; `None` where a member has no value
/// first, or `n` is no whole number from 0 to `u32::MAX`.
pub open spec fn enum_number_default(e: RustEnumModel, n: NumberParts, k: int) -> Option<Seq<char>>
    decreases e.members.len() - k,
{
    if k < 0 || k >= e.members.len() {
        Some(Seq::empty())
    } else {
        match (e.members[k].value, whole_value(n)) {
            (Some(v), Some(w)) => if 0 <= w <= u32::MAX {
                if w == v {
                    Some(e.name + "::"@ + e.members[k].name)
                } else {
                    enum_number_default(e, n, k + 1)
                }
            } else {
                None
            },
            _ => None,
        }
    }
}

/// An item of an array default, with the separator after it; `None` for
/// an array or an object.
pub open spec fn array_item_text(m: ThingModel) -> Option<Seq<char>> {
    match m {
        ThingModel::Number(n) => Some(number_text(n) + "f32, "@),
        ThingModel::Object(_) => None,
        ThingModel::Array(_) => None,
        _ => Some(thing_text(m, 0) + ", "@),
    }
}

/// The first `n` items of an array default.
pub open spec fn array_items_text(items: Seq<ThingModel>, n: int) -> Option<Seq<char>>
    decreases n,
{
    if n <= 0 {
        Some(Seq::empty())
    } else {
        match (array_items_text(items, n - 1), array_item_text(items[n - 1])) {
            (Some(a), Some(b)) => Some(a + b),
            _ => None,
        }
    }
}

/// The Rust expression of a default value for a field of type `t`; `None`
/// where the generator has none.
pub open spec fn default_text(d: ThingModel, t: RustTypeModel) -> Option<Seq<char>> {
    match d {
        ThingModel::String(x) => match t {
            RustTypeModel::Enum(e) => enum_text_default(e, x, 0),
            _ => Some(x),
        },
        ThingModel::Bool(b) => Some(
            if b {
                "true"@
            } else {
                "false"@
            },
        ),
        ThingModel::Number(n) => match t {
            RustTypeModel::Usize => Some(number_text(n) + "usize"@),
            RustTypeModel::F32 => Some(number_text(n) + "f32"@),
            RustTypeModel::Enum(e) => enum_number_default(e, n, 0),
            _ => None,
        },
        ThingModel::Array(items) => match array_items_text(items, items.len() as int) {
            Some(x) => Some("["@ + x + "]"@),
            None => None,
        },
        _ => None,
    }
}

/// The field's line of the generated struct expression, where its type is
/// not a `Vec` or `HashMap` in an `Option` (`optional`: in an `Option`).
pub open spec fn value_assign_text(p: RustStructPropertyModel, optional: bool) -> Option<Seq<char>> {
    let incompatible = p.incompatible_with.len() > 0;
    let v1: Option<Seq<char>> = match p.default_value {
        Some(d) => match default_text(d, p.property_type) {
            Some(e) => {
                let v = p.name + (if incompatible {
                    ".clone()"@
                } else {
                    Seq::empty()
                }) + ".map_or_else(|| "@ + e + ", |m| m)"@;
                Some(
                    if optional {
                        "Some("@ + v + ")"@
                    } else {
                        v
                    },
                )
            },
            None => None,
        },
        None => Some(p.name),
    };
    match v1 {
        None => None,
        Some(v) => {
            let v2 = if !optional && p.default_value is None {
                v + "?"@
            } else {
                v
            };
            let cloned = incompatible && p.default_value is Some;
            Some(
                if incompatible {
                    "            "@ + p.name + ": if "@ + condition_text(
                        p.incompatible_with,
                        p.incompatible_with.len() as int,
                    ) + " {"@ + v2 + (if cloned {
                        Seq::empty()
                    } else {
                        ".clone()"@
                    }) + "} else { None },\n"@
                } else {
                    "            "@ + p.name + ": "@ + v2 + ",\n"@
                },
            )
        },
    }
}

/// The field's line of the generated struct expression.
pub open spec fn field_assign_text(p: RustStructPropertyModel) -> Option<Seq<char>> {
    match p.property_type {
        RustTypeModel::Option(r) => match *r {
            RustTypeModel::Vec(_) => Some(
                "            "@ + p.name + ": "@ + p.name + ".unwrap_or_else(|| Vec::new()),\n"@,
            ),
            RustTypeModel::HashMap(_, _) => Some(
                "            "@ + p.name + ": "@ + p.name + ".unwrap_or_else(|| HashMap::new()),\n"@,
            ),
            _ => value_assign_text(p, true),
        },
        _ => value_assign_text(p, false),
    }
}

/// The declarations of the first `n` fields.
pub open spec fn fields_decl_text(ps: Seq<RustStructPropertyModel>, n: int) -> Seq<char>
    decreases n,
{
    if n <= 0 {
        Seq::empty()
    } else {
        fields_decl_text(ps, n - 1) + field_decl_text(ps[n - 1])
    }
}

/// The `let` lines of the first `n` fields.
pub open spec fn fields_let_text(ps: Seq<RustStructPropertyModel>, n: int) -> Seq<char>
    decreases n,
{
    if n <= 0 {
        Seq::empty()
    } else {
        fields_let_text(ps, n - 1) + field_let_text(ps[n - 1])
    }
}

/// The `match` arms of the first `n` fields.
pub open spec fn fields_match_text(ps: Seq<RustStructPropertyModel>, n: int) -> Seq<char>
    decreases n,
{
    if n <= 0 {
        Seq::empty()
    } else {
        fields_match_text(ps, n - 1) + field_match_text(ps[n - 1])
    }
}

/// The `serialize` lines of the first `n` fields; `None` where one of them has none.
pub open spec fn fields_serialize_text(ps: Seq<RustStructPropertyModel>, n: int) -> Option<Seq<char>>
    decreases n,
{
    if n <= 0 {
        Some(Seq::empty())
    } else {
        match (fields_serialize_text(ps, n - 1), field_serialize_text(ps[n - 1])) {
            (Some(a), Some(b)) => Some(a + b),
            _ => None,
        }
    }
}

/// The struct expression lines of the first `n` fields; `None` where one of them has none.
pub open spec fn fields_assign_text(ps: Seq<RustStructPropertyModel>, n: int) -> Option<Seq<char>>
    decreases n,
{
    if n <= 0 {
        Some(Seq::empty())
    } else {
        match (fields_assign_text(ps, n - 1), field_assign_text(ps[n - 1])) {
            (Some(a), Some(b)) => Some(a + b),
            _ => None,
        }
    }
}

/// The code generated for a struct; `None` where a field's serializing or
/// default has none.
pub open spec fn struct_text(s: RustStructModel) -> Option<Seq<char>> {
    let ps = s.properties;
    let n = ps.len() as int;
    match (
        fields_serialize_text(ps, n),
        fields_assign_text(ps, n),
    ) {
        (Some(ser), Some(assign)) => Some(
            "/// "@ + s.description + "\n"@ + "#[derive(Debug, Clone)]\npub struct "@ + s.name + " {\n"@
                + fields_decl_text(ps, n) + "}\n\n"@
                + "impl<S: Serializer> Serialize<S> for "@ + s.name + " {\n"@
                + "    fn serialize(&self, serializer: &mut S) {\n"@
                + "        serializer.begin_object();\n"@ + ser + "        serializer.end_object();\n"@
                + "    }\n"@ + "}\n"@ + "impl<'a, D: Deserializer<'a>> Deserialize<'a, D> for "@ + s.name
                + " {\n"@ + "    fn deserialize(deserializer: &mut D) -> Option<Self> {\n"@
                + "        deserializer.begin_object().then(|| {})?;\n"@
                + fields_let_text(ps, n)
                + "\n        while let Some(property) = deserializer.has_property() {\n"@
                + "             match &*property {\n"@
                + fields_match_text(ps, n)
                + "                _ => {}\n"@ + "            }\n"@ + "        }\n\n"@ + "        Some(Self {\n"@
                + assign + "        })\n"@ + "    }\n"@ + "}\n\n"@,
        ),
        _ => None,
    }
}

/// The text in an optional `String`.
pub open spec fn text_of(r: Option<String>) -> Option<Seq<char>> {
    match r {
        Some(x) => Some(x@),
        None => None,
    }
}

/// The model of a struct.
pub open spec fn struct_model_of(s: RustStruct) -> RustStructModel {
    RustStructModel {
        name: s.name@,
        json_name: text_option(s.json_name),
        description: s.description@,
        properties: fields_model(s.properties@),
    }
}

fn field_decl(p: &RustStructProperty) -> (r: String)
    ensures
        r@ == field_decl_text(field_model(*p)),
{
    let mut r = String::new();
    match &p.description {
        Some(d) => {
            r.append("    /// ");
            r.append(d.as_str());
            r.append("\n");
        },
        None => {},
    }
    let t = match &p.property_type {
        RustType::Option(inner) => match &**inner {
            RustType::Vec(_) => inner.rust_type_name(),
            RustType::HashMap(_, _) => inner.rust_type_name(),
            _ => p.property_type.rust_type_name(),
        },
        _ => p.property_type.rust_type_name(),
    };
    r.append("    pub ");
    r.append(p.name.as_str());
    r.append(": ");
    r.append(t.as_str());
    r.append(",\n");
    assert(r@ =~= field_decl_text(field_model(*p)));
    r
}

fn property_call(r: &mut String, p: &RustStructProperty)
    ensures
        final(r)@ == old(r)@ + property_call_text(field_model(*p)),
{
    let ghost start = r@;
    r.append("serializer.property(\"");
    r.append(p.json_name.as_str());
    r.append("\", &self.");
    r.append(p.name.as_str());
    r.append(");\n");
    assert(r@ =~= start + property_call_text(field_model(*p)));
}

proof fn lemma_array_items_none(items: Seq<ThingModel>, i: int, n: int)
    requires
        0 <= i < n,
        array_item_text(items[i]) is None,
    ensures
        array_items_text(items, n) is None,
    decreases n,
{
    if n - 1 > i {
        lemma_array_items_none(items, i, n - 1);
    }
}

fn field_serialize(p: &RustStructProperty) -> (r: Option<String>)
    ensures
        text_of(r) == field_serialize_text(field_model(*p)),
{
    let mut r = String::new();
    let mut nonempty = false;
    if p.optional && p.default_value.is_none() && p.incompatible_with.len() > 0 {
        match &p.property_type {
            RustType::Vec(_) => {
                nonempty = true;
            },
            RustType::Option(inner) => match &**inner {
                RustType::Vec(_) => {
                    assert(type_model(**inner) is Vec);
                    nonempty = true;
                },
                RustType::HashMap(_, _) => {
                    assert(type_model(**inner) is HashMap);
                    nonempty = true;
                },
                _ => {
                    assert(!(type_model(**inner) is Vec) && !(type_model(**inner) is HashMap));
                    r.append("        if let Some(v) = self.");
                    r.append(p.name.as_str());
                    r.append(".as_ref() {\n");
                    r.append("           serializer.property(\"");
                    r.append(p.json_name.as_str());
                    r.append("\", v);\n");
                    r.append("        }\n");
                    assert(r@ =~= if_some_text(field_model(*p)));
                    return Some(r);
                },
            },
            _ => {
                assert(!(p.property_type@ is Vec) && !(p.property_type@ is Option));
                return None;
            },
        }
        if nonempty {
            r.append("        if !self.");
            r.append(p.name.as_str());
            r.append(".is_empty() {\n");
            r.append("           ");
            property_call(&mut r, p);
            r.append("        }\n");
            assert(r@ =~= if_nonempty_text(field_model(*p)));
        }
        Some(r)
    } else {
        r.append("        ");
        property_call(&mut r, p);
        assert(r@ =~= "        "@ + property_call_text(field_model(*p)));
        Some(r)
    }
}

fn field_let(p: &RustStructProperty) -> (r: String)
    ensures
        r@ == field_let_text(field_model(*p)),
{
    let mut r = String::new();
    r.append("        let mut ");
    r.append(p.name.as_str());
    r.append(" = None;\n");
    assert(r@ =~= field_let_text(field_model(*p)));
    r
}

fn field_match(p: &RustStructProperty) -> (r: String)
    ensures
        r@ == field_match_text(field_model(*p)),
{
    let t = match &p.property_type {
        RustType::Option(inner) => inner.rust_type_name(),
        _ => p.property_type.rust_type_name(),
    };
    let mut r = String::new();
    r.append("                \"");
    r.append(p.json_name.as_str());
    r.append("\" =>");
    r.append(" ");
    r.append(p.name.as_str());
    r.append(" = Some(<");
    r.append(t.as_str());
    r.append(">::deserialize(deserializer)?),\n");
    assert(r@ =~= field_match_text(field_model(*p)));
    r
}

fn condition(names: &Vec<String>) -> (r: String)
    ensures
        r@ == condition_text(texts_model(names@), names@.len() as int),
{
    let ghost tm = texts_model(names@);
    let mut r = String::new();
    let mut i: usize = 0;
    while i < names.len()
        invariant
            i <= names@.len(),
            tm == texts_model(names@),
            r@ == condition_text(tm, i as int),
        decreases names@.len() - i,
    {
        let ghost before = r@;
        if i > 0 {
            r.append(" && ");
        }
        r.append(names[i].as_str());
        r.append(".is_none()");
        assert(tm[i as int] == names@[i as int]@);
        if i == 0 {
            assert(r@ =~= condition_text(tm, 1));
        } else {
            assert(r@ =~= condition_text(tm, i + 1));
        }
        i += 1;
    }
    r
}

/// `e.name`, `::` and `m.name`.
fn member_path(e: &RustEnum, m: &EnumMember) -> (r: String)
    ensures
        r@ == e.name@ + "::"@ + m.name@,
{
    let mut r = String::new();
    r.append(e.name.as_str());
    r.append("::");
    r.append(m.name.as_str());
    assert(r@ =~= e.name@ + "::"@ + m.name@);
    r
}

fn enum_text_default_code(e: &RustEnum, x: &String) -> (r: Option<String>)
    ensures
        text_of(r) == enum_text_default(enum_model(*e), x@, 0),
{
    let ghost em = enum_model(*e);
    let mut i: usize = 0;
    while i < e.members.len()
        invariant
            i <= e.members@.len(),
            em == enum_model(*e),
            enum_text_default(em, x@, 0) == enum_text_default(em, x@, i as int),
        decreases e.members@.len() - i,
    {
        assert(em.members[i as int] == member_model(e.members@[i as int]));
        match &e.members[i].json_value {
            JsonEnumValue::String(v) => {
                if same_text(v.as_str(), x.as_str()) {
                    return Some(member_path(e, &e.members[i]));
                }
            },
            JsonEnumValue::Integer(_) => {
                return None;
            },
        }
        i += 1;
    }
    let r = String::new();
    assert(r@ =~= Seq::<char>::empty());
    Some(r)
}

fn enum_number_default_code(e: &RustEnum, n: &JsonNumber) -> (r: Option<String>)
    ensures
        text_of(r) == enum_number_default(enum_model(*e), number_parts(n.model()), 0),
{
    let ghost em = enum_model(*e);
    let ghost np = number_parts(n.model());
    let w = whole_number(n);
    let mut i: usize = 0;
    while i < e.members.len()
        invariant
            i <= e.members@.len(),
            em == enum_model(*e),
            np == number_parts(n.model()),
            w matches Some(v) ==> whole_value(np) == Some(v as int),
            w is None ==> match whole_value(np) {
                Some(v) => !fits_i128(v),
                None => true,
            },
            enum_number_default(em, np, 0) == enum_number_default(em, np, i as int),
        decreases e.members@.len() - i,
    {
        assert(em.members[i as int] == member_model(e.members@[i as int]));
        match e.members[i].value {
            None => {
                return None;
            },
            Some(v) => match w {
                None => {
                    return None;
                },
                Some(wv) => {
                    if 0 <= wv && wv <= 4294967295 {
                        if wv == v as i128 {
                            return Some(member_path(e, &e.members[i]));
                        }
                    } else {
                        return None;
                    }
                },
            },
        }
        i += 1;
    }
    let r = String::new();
    assert(r@ =~= Seq::<char>::empty());
    Some(r)
}

/// The text of a number as it was read.
fn number_string(n: &JsonNumber) -> (r: String)
    ensures
        r@ == number_text(number_parts(n.model())),
{
    let chars = number_chars(n);
    string_from_chars(&chars)
}

fn default_code(d: &Thing, t: &RustType) -> (r: Option<String>)
    ensures
        text_of(r) == default_text(d@, t@),
{
    match d {
        Thing::String(x) => match t {
            RustType::Enum(e) => enum_text_default_code(e, x),
            _ => Some(x.clone()),
        },
        Thing::Bool(b) => {
            let mut r = String::new();
            if *b {
                r.append("true");
            } else {
                r.append("false");
            }
            Some(r)
        },
        Thing::Number(n) => match t {
            RustType::USIZE => {
                let mut r = number_string(n);
                r.append("usize");
                Some(r)
            },
            RustType::F32 => {
                let mut r = number_string(n);
                r.append("f32");
                Some(r)
            },
            RustType::Enum(e) => enum_number_default_code(e, n),
            _ => None,
        },
        Thing::Array(a) => {
            let ghost items = d@->Array_0;
            let mut r = String::new();
            r.append("[");
            let mut i: usize = 0;
            while i < a.len()
                invariant
                    i <= a@.len(),
                    items == d@->Array_0,
                    items.len() == a@.len(),
                    d@ == ThingModel::Array(items),
                    forall|k: int| 0 <= k < a@.len() ==> #[trigger] items[k] == a@[k]@,
                    array_items_text(items, i as int) matches Some(x) && r@ == "["@ + x,
                decreases a@.len() - i,
            {
                let ghost before = r@;
                match &a[i] {
                    Thing::Number(n) => {
                        let t = number_string(n);
                        r.append(t.as_str());
                        r.append("f32, ");
                    },
                    Thing::String(x) => {
                        proof {
                            reveal_strlit("\"");
                        }
                        r.append("\"");
                        r.append(x.as_str());
                        r.append("\"");
                        r.append(", ");
                    },
                    Thing::Bool(b) => {
                        proof {
                            reveal_strlit("true");
                            reveal_strlit("false");
                        }
                        if *b {
                            r.append("true");
                        } else {
                            r.append("false");
                        }
                        r.append(", ");
                    },
                    Thing::Null => {
                        proof {
                            reveal_strlit("null");
                        }
                        r.append("null");
                        r.append(", ");
                    },
                    Thing::Object(_) => {
                        proof {
                            lemma_array_items_none(items, i as int, items.len() as int);
                        }
                        return None;
                    },
                    Thing::Array(_) => {
                        proof {
                            lemma_array_items_none(items, i as int, items.len() as int);
                        }
                        return None;
                    },
                }
                assert(array_item_text(items[i as int]) matches Some(y) && r@ =~= before + y);
                assert(r@ =~= "["@ + array_items_text(items, i + 1).unwrap());
                i += 1;
            }
            assert(a@.len() == items.len());
            r.append("]");
            Some(r)
        },
        _ => None,
    }
}

fn value_assign(p: &RustStructProperty, optional: bool) -> (r: Option<String>)
    ensures
        text_of(r) == value_assign_text(field_model(*p), optional),
{
    let ghost fm = field_model(*p);
    let incompatible = p.incompatible_with.len() > 0;
    let mut v = String::new();
    match &p.default_value {
        Some(d) => match default_code(d, &p.property_type) {
            None => {
                return None;
            },
            Some(e) => {
                if optional {
                    v.append("Some(");
                }
                v.append(p.name.as_str());
                if incompatible {
                    v.append(".clone()");
                }
                v.append(".map_or_else(|| ");
                v.append(e.as_str());
                v.append(", |m| m)");
                if optional {
                    v.append(")");
                }
                let ghost inner = fm.name + (if incompatible {
                    ".clone()"@
                } else {
                    Seq::empty()
                }) + ".map_or_else(|| "@ + e@ + ", |m| m)"@;
                assert(v@ =~= if optional {
                    "Some("@ + inner + ")"@
                } else {
                    inner
                });
            },
        },
        None => {
            v.append(p.name.as_str());
        },
    }
    if !optional && p.default_value.is_none() {
        v.append("?");
    }
    let cloned = incompatible && p.default_value.is_some();
    let mut r = String::new();
    if incompatible {
        let c = condition(&p.incompatible_with);
        r.append("            ");
        r.append(p.name.as_str());
        r.append(": if ");
        r.append(c.as_str());
        r.append(" {");
        r.append(v.as_str());
        if !cloned {
            r.append(".clone()");
        }
        r.append("} else { None },\n");
    } else {
        r.append("            ");
        r.append(p.name.as_str());
        r.append(": ");
        r.append(v.as_str());
        r.append(",\n");
    }
    assert(r@ =~= value_assign_text(fm, optional).unwrap());
    Some(r)
}

fn field_assign(p: &RustStructProperty) -> (r: Option<String>)
    ensures
        text_of(r) == field_assign_text(field_model(*p)),
{
    match &p.property_type {
        RustType::Option(inner) => match &**inner {
            RustType::Vec(_) => {
                assert(type_model(**inner) is Vec);
                let mut r = String::new();
                r.append("            ");
                r.append(p.name.as_str());
                r.append(": ");
                r.append(p.name.as_str());
                r.append(".unwrap_or_else(|| Vec::new()),\n");
                assert(r@ =~= field_assign_text(field_model(*p)).unwrap());
                Some(r)
            },
            RustType::HashMap(_, _) => {
                assert(type_model(**inner) is HashMap);
                let mut r = String::new();
                r.append("            ");
                r.append(p.name.as_str());
                r.append(": ");
                r.append(p.name.as_str());
                r.append(".unwrap_or_else(|| HashMap::new()),\n");
                assert(r@ =~= field_assign_text(field_model(*p)).unwrap());
                Some(r)
            },
            _ => {
                assert(!(type_model(**inner) is Vec) && !(type_model(**inner) is HashMap));
                value_assign(p, true)
            },
        },
        _ => {
            assert(!(p.property_type@ is Option));
            value_assign(p, false)
        },
    }
}

proof fn lemma_serialize_none(ps: Seq<RustStructPropertyModel>, i: int, n: int)
    requires
        0 <= i < n,
        field_serialize_text(ps[i]) is None,
    ensures
        fields_serialize_text(ps, n) is None,
    decreases n,
{
    if n - 1 > i {
        lemma_serialize_none(ps, i, n - 1);
    }
}

proof fn lemma_assign_none(ps: Seq<RustStructPropertyModel>, i: int, n: int)
    requires
        0 <= i < n,
        field_assign_text(ps[i]) is None,
    ensures
        fields_assign_text(ps, n) is None,
    decreases n,
{
    if n - 1 > i {
        lemma_assign_none(ps, i, n - 1);
    }
}

/// The code generated for a struct, as `struct_text` says.
fn struct_code(s: &RustStruct) -> (r: Option<String>)
    ensures
        text_of(r) == struct_text(struct_model_of(*s)),
{
    let ghost ps = fields_model(s.properties@);
    let ghost n = ps.len() as int;
    let mut decl = String::new();
    let mut ser = String::new();
    let mut lets = String::new();
    let mut arms = String::new();
    let mut assign = String::new();
    let mut i: usize = 0;
    while i < s.properties.len()
        invariant
            i <= s.properties@.len(),
            ps == fields_model(s.properties@),
            decl@ == fields_decl_text(ps, i as int),
            fields_serialize_text(ps, i as int) == Some(ser@),
            lets@ == fields_let_text(ps, i as int),
            arms@ == fields_match_text(ps, i as int),
            fields_assign_text(ps, i as int) == Some(assign@),
        decreases s.properties@.len() - i,
    {
        let p = &s.properties[i];
        assert(ps[i as int] == field_model(*p));
        let a = field_decl(p);
        decl.append(a.as_str());
        match field_serialize(p) {
            Some(b) => ser.append(b.as_str()),
            None => {
                proof {
                    lemma_serialize_none(ps, i as int, ps.len() as int);
                }
                return None;
            },
        }
        let c = field_let(p);
        lets.append(c.as_str());
        let d = field_match(p);
        arms.append(d.as_str());
        match field_assign(p) {
            Some(e) => assign.append(e.as_str()),
            None => {
                proof {
                    lemma_assign_none(ps, i as int, ps.len() as int);
                }
                return None;
            },
        }
        i += 1;
    }
    let mut r = String::new();
    r.append("/// ");
    r.append(s.description.as_str());
    r.append("\n");
    r.append("#[derive(Debug, Clone)]\npub struct ");
    r.append(s.name.as_str());
    r.append(" {\n");
    r.append(decl.as_str());
    r.append("}\n\n");
    r.append("impl<S: Serializer> Serialize<S> for ");
    r.append(s.name.as_str());
    r.append(" {\n");
    r.append("    fn serialize(&self, serializer: &mut S) {\n");
    r.append("        serializer.begin_object();\n");
    r.append(ser.as_str());
    r.append("        serializer.end_object();\n");
    r.append("    }\n");
    r.append("}\n");
    r.append("impl<'a, D: Deserializer<'a>> Deserialize<'a, D> for ");
    r.append(s.name.as_str());
    r.append(" {\n");
    r.append("    fn deserialize(deserializer: &mut D) -> Option<Self> {\n");
    r.append("        deserializer.begin_object().then(|| {})?;\n");
    r.append(lets.as_str());
    r.append("\n        while let Some(property) = deserializer.has_property() {\n");
    r.append("             match &*property {\n");
    r.append(arms.as_str());
    r.append("                _ => {}\n");
    r.append("            }\n");
    r.append("        }\n\n");
    r.append("        Some(Self {\n");
    r.append(assign.as_str());
    r.append("        })\n");
    r.append("    }\n");
    r.append("}\n\n");
    assert(r@ =~= struct_text(struct_model_of(*s)).unwrap());
    Some(r)
}

/// The code generated for a named type; `None` for a type that is neither
/// a struct nor an enum, or whose code has none.
pub open spec fn item_text(t: RustTypeModel) -> Option<Seq<char>> {
    match t {
        RustTypeModel::Struct(s) => struct_text(s),
        RustTypeModel::Enum(e) => enum_text(e),
        _ => None,
    }
}

/// The code of the first `n` named types, the last made first.
pub open spec fn registry_text(reg: Registry, n: int) -> Option<Seq<char>>
    decreases n,
{
    if n <= 0 {
        Some(Seq::empty())
    } else {
        match (item_text(reg[n - 1].1), registry_text(reg, n - 1)) {
            (Some(a), Some(b)) => Some(a + b),
            _ => None,
        }
    }
}

/// The whole generated file for the named types of a registry.
pub open spec fn generated_text(reg: Registry) -> Option<Seq<char>> {
    match registry_text(reg, reg.len() as int) {
        Some(t) => Some("use kserde::*;\n\n"@ + "use std::collections::HashMap;\n\n"@ + t),
        None => None,
    }
}

/// `a` before the text in `o`, where there is one.
pub open spec fn prepend(a: Seq<char>, o: Option<Seq<char>>) -> Option<Seq<char>> {
    match o {
        Some(t) => Some(a + t),
        None => None,
    }
}

/// The code generated for a named type, as `item_text` says.
fn item_code(t: &RustType) -> (r: Option<String>)
    ensures
        text_of(r) == item_text(t@),
{
    match t {
        RustType::Struct(st) => {
            assert(t@->Struct_0.properties =~= fields_model(st.properties@));
            assert(t@ == RustTypeModel::Struct(struct_model_of(*st)));
            struct_code(st)
        },
        RustType::Enum(e) => enum_code(e),
        _ => {
            assert(!(t@ is Struct) && !(t@ is Enum));
            None
        },
    }
}

impl RustGenerator {
    /// The whole generated file for the named types made so far, as
    /// `generated_text` says.
    fn registry_code(&self) -> (r: Option<String>)
        ensures
            text_of(r) == generated_text(self.registry()),
    {
        let ghost reg = self.registry();
        let mut acc = String::new();
        let mut i: usize = self.rust_types.len();
        proof {
            match registry_text(reg, i as int) {
                Some(t) => {
                    assert(acc@ + t =~= t);
                },
                None => {},
            }
        }
        while i > 0
            invariant
                i <= self.rust_types@.len(),
                reg == self.registry(),
                registry_text(reg, reg.len() as int) == prepend(acc@, registry_text(reg, i as int)),
            decreases i,
        {
            assert(reg[i - 1].1 == self.rust_types@[i - 1].1@);
            match item_code(&self.rust_types[i - 1].1) {
                None => {
                    assert(registry_text(reg, i as int) is None);
                    return None;
                },
                Some(a) => {
                    let ghost before = acc@;
                    acc.append(a.as_str());
                    proof {
                        match registry_text(reg, i - 1) {
                            Some(b) => {
                                assert(before + (a@ + b) =~= acc@ + b);
                            },
                            None => {},
                        }
                    }
                },
            }
            i -= 1;
        }
        let mut out = String::new();
        out.append("use kserde::*;\n\n");
        out.append("use std::collections::HashMap;\n\n");
        out.append(acc.as_str());
        assert(registry_text(reg, 0) == Some(Seq::<char>::empty()));
        assert(out@ =~= "use kserde::*;\n\n"@ + "use std::collections::HashMap;\n\n"@ + acc@);
        Some(out)
    }

    /// Makes the types of `schema` (the outermost one, where an enum, named
    /// by the empty text) and writes the code of every named type made so
    /// far, the last made first. `None` where the schema has no Rust type or
    /// a named type no code.
    pub fn generate(&mut self, schema: &Schema) -> (r: Option<String>)
        ensures
            match rust_type_of(old(self).registry(), Seq::empty(), schema@) {
                Some((_, reg)) => final(self).registry() == reg && text_of(r) == generated_text(reg),
                None => r is None,
            },
    {
        let made = self.generate_struct(String::new(), schema);
        if made {
            self.registry_code()
        } else {
            None
        }
    }

    /// Makes the types of `schema`, named `name` where it becomes an enum,
    /// keeping each named type it makes; whether the schema has a Rust type.
    pub fn generate_struct(&mut self, name: String, schema: &Schema) -> (r: bool)
        ensures
            r == rust_type_of(old(self).registry(), name@, schema@) is Some,
            match rust_type_of(old(self).registry(), name@, schema@) {
                Some((_, reg)) => final(self).registry() == reg,
                None => true,
            },
    {
        self.rust_type_from_schema(name.as_str(), schema).is_some()
    }
}

} // verus!
