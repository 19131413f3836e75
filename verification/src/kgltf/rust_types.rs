//! Which Rust type stands for each schema: structs for titled objects,
//! enums for alternatives of enumerations, and the types they are built of.

use vstd::prelude::*;

use heck::{CamelCase, SnakeCase};

use crate::kgltf::schema_reader::{
    enum_value_model, property_model, schemas_model, text_option, texts_model, EnumValue, Property,
    Schema, SchemaType,
};
use crate::kgltf::schema_spec::{EnumValueModel, PropertyModel, SchemaModel, TypeModel};
use crate::kreflect::tokenizer::{fits_i128, literal_from, literal_value};
use crate::kserde::json_deserialize::{
    chars_of, is_ascii_digit, is_digit, push_char, same_text, JsonNumber,
};
use crate::kserde::thing::{number_parts, NumberParts, Thing, ThingModel};

verus! {

/// heck's CamelCase of a text: its words, each with a capital first letter,
/// run together.
pub uninterp spec fn camel_case(s: Seq<char>) -> Seq<char>;

/// heck's snake_case of a text: its words in small letters, joined by `_`.
pub uninterp spec fn snake_case(s: Seq<char>) -> Seq<char>;

/// heck's `CamelCase::to_camel_case`. Its result depends on the text alone;
/// the word boundaries it finds (Unicode words, `_`, changes of case) are
/// not stated here.
#[verifier::external_body]
fn to_camel_case(s: &str) -> (r: String)
    ensures
        r@ == camel_case(s@),
{
    s.to_camel_case()
}

/// heck's `SnakeCase::to_snake_case`. Its result depends on the text alone;
/// the word boundaries it finds are not stated here.
#[verifier::external_body]
fn to_snake_case(s: &str) -> (r: String)
    ensures
        r@ == snake_case(s@),
{
    s.to_snake_case()
}

/// The value of an enumeration member in JSON.
pub enum JsonEnumValueModel {
    String(Seq<char>),
    Integer(int),
}

pub struct EnumMemberModel {
    pub name: Seq<char>,
    pub json_value: JsonEnumValueModel,
    pub description: Option<Seq<char>>,
    pub value: Option<int>,
}

pub struct RustEnumModel {
    pub name: Seq<char>,
    pub json_name: Option<Seq<char>>,
    pub description: Seq<char>,
    pub members: Seq<EnumMemberModel>,
}

pub struct RustStructPropertyModel {
    pub name: Seq<char>,
    pub json_name: Seq<char>,
    pub property_type: RustTypeModel,
    pub description: Option<Seq<char>>,
    pub default_value: Option<ThingModel>,
    pub incompatible_with: Seq<Seq<char>>,
    pub optional: bool,
}

pub struct RustStructModel {
    pub name: Seq<char>,
    pub json_name: Option<Seq<char>>,
    pub description: Seq<char>,
    pub properties: Seq<RustStructPropertyModel>,
}

/// A Rust type that the generated code uses.
pub enum RustTypeModel {
    String,
    Usize,
    Boolean,
    F32,
    Struct(RustStructModel),
    Array(int, Box<RustTypeModel>),
    Vec(Box<RustTypeModel>),
    HashMap(Box<RustTypeModel>, Box<RustTypeModel>),
    Option(Box<RustTypeModel>),
    Enum(RustEnumModel),
    OwnedThing,
    Unimplemented,
}

/// The named types made so far, in the order they were made.
pub type Registry = Seq<(Seq<char>, RustTypeModel)>;

/// Whether a type of this name was made already.
pub open spec fn has_name(reg: Registry, name: Seq<char>) -> bool {
    exists|i: int| 0 <= i < reg.len() && #[trigger] reg[i].0 == name
}

/// The registry with a type added, unless one of its name is there.
pub open spec fn register(reg: Registry, name: Seq<char>, t: RustTypeModel) -> Registry {
    if has_name(reg, name) {
        reg
    } else {
        reg.push((name, t))
    }
}

/// Whether every digit of `s` is `0`.
pub open spec fn all_zeros(s: Seq<char>) -> bool {
    forall|i: int| 0 <= i < s.len() ==> #[trigger] s[i] == '0'
}

/// Whether every character of `s` is a decimal digit.
pub open spec fn all_digits(s: Seq<char>) -> bool {
    forall|i: int| 0 <= i < s.len() ==> #[trigger] is_digit(s[i])
}

/// The whole number that a number's text writes, where it has no
/// exponent and no fraction other than zeros.
pub open spec fn whole_value(n: NumberParts) -> Option<int> {
    if n.exponent.len() == 0 && all_zeros(n.fraction) && all_digits(n.integer) {
        Some(literal_value(n.integer, n.negative))
    } else {
        None
    }
}

/// The fixed length of an array with these limits on its items: `Some(n)`
/// where both are the same whole number `n`, `Some(None)` where the length
/// is not fixed; `None` where both are given and one is no whole number
/// from 0 to `u32::MAX`.
pub open spec fn array_length(min_items: Option<NumberParts>, max_items: Option<NumberParts>) -> Option<
    Option<int>,
> {
    match (min_items, max_items) {
        (Some(lo), Some(hi)) => match (whole_value(lo), whole_value(hi)) {
            (Some(a), Some(b)) => if 0 <= a <= u32::MAX && 0 <= b <= u32::MAX {
                if a == b {
                    Some(Some(a))
                } else {
                    Some(None)
                }
            } else {
                None
            },
            _ => None,
        },
        _ => Some(None),
    }
}

/// The map type of an object schema whose values follow `p`.
pub open spec fn map_type_of(p: SchemaModel) -> Option<RustTypeModel> {
    match p.ty {
        TypeModel::Integer(_) => Some(
            RustTypeModel::HashMap(Box::new(RustTypeModel::String), Box::new(RustTypeModel::Usize)),
        ),
        TypeModel::Object { .. } => Some(
            RustTypeModel::HashMap(Box::new(RustTypeModel::String), Box::new(RustTypeModel::OwnedThing)),
        ),
        _ => None,
    }
}

/// The member that an alternative which is an enumeration gives; `None`
/// where it is no enumeration.
pub open spec fn member_of(value: SchemaModel) -> Option<Option<EnumMemberModel>> {
    match value.ty {
        TypeModel::Enum => if value.enum_values.len() == 0 {
            None
        } else {
            match value.enum_values[0] {
                EnumValueModel::Number(n) => match (value.description, whole_value(n)) {
                    (Some(d), Some(v)) => if 0 <= v <= i32::MAX {
                        Some(
                            Some(
                                EnumMemberModel {
                                    name: camel_case(d),
                                    description: None,
                                    json_value: JsonEnumValueModel::Integer(v),
                                    value: Some(v),
                                },
                            ),
                        )
                    } else {
                        None
                    },
                    _ => None,
                },
                EnumValueModel::String(x) => Some(
                    Some(
                        EnumMemberModel {
                            name: camel_case(x),
                            description: value.description,
                            json_value: JsonEnumValueModel::String(x),
                            value: None,
                        },
                    ),
                ),
            }
        },
        _ => Some(None),
    }
}

/// The members of the alternatives from `k` on.
pub open spec fn members_from(values: Seq<SchemaModel>, k: int) -> Option<Seq<EnumMemberModel>>
    decreases values.len() - k,
{
    if k < 0 || k >= values.len() {
        Some(Seq::empty())
    } else {
        match (member_of(values[k]), members_from(values, k + 1)) {
            (Some(Some(m)), Some(rest)) => Some(seq![m] + rest),
            (Some(None), Some(rest)) => Some(rest),
            _ => None,
        }
    }
}

/// The name of the field that a property becomes: its snake case, with a
/// `_` after `type`.
pub open spec fn field_name(json_name: Seq<char>) -> Seq<char> {
    let n = snake_case(json_name);
    if n == "type"@ {
        n.push('_')
    } else {
        n
    }
}

/// The Rust type of a schema, named `enum_name` where it becomes an enum,
/// and the registry after the named types it makes; `None` where the
/// schema cannot be given a type.
pub open spec fn rust_type_of(reg: Registry, enum_name: Seq<char>, s: SchemaModel) -> Option<
    (RustTypeModel, Registry),
>
    decreases s, 1int, 0int,
{
    match s.ty {
        TypeModel::String => Some((RustTypeModel::String, reg)),
        TypeModel::Boolean => Some((RustTypeModel::Boolean, reg)),
        TypeModel::Integer(_) => Some((RustTypeModel::Usize, reg)),
        TypeModel::Number(_) => Some((RustTypeModel::F32, reg)),
        TypeModel::Object { properties, additional_properties, .. } => match s.title {
            Some(title) => match s.description {
                None => None,
                Some(description) => if additional_properties.len() > 0 {
                    match map_type_of(additional_properties[0]) {
                        Some(t) => Some((t, reg)),
                        None => None,
                    }
                } else {
                    let name = camel_case(title);
                    match properties_from(reg, name, properties, 0, s) {
                        None => None,
                        Some((ps, reg2)) => {
                            let t = RustTypeModel::Struct(
                                RustStructModel { name, json_name: Some(title), description, properties: ps },
                            );
                            Some((t, register(reg2, name, t)))
                        },
                    }
                },
            },
            None => if additional_properties.len() > 0 {
                match map_type_of(additional_properties[0]) {
                    Some(t) => Some((t, reg)),
                    None => None,
                }
            } else {
                None
            },
        },
        TypeModel::Array { min_items, max_items, items } => match items {
            None => None,
            Some(b) => {
                proof {
                    lemma_items_decreases(s);
                }
                match rust_type_of(reg, enum_name, *b) {
                    None => None,
                    Some((it, reg2)) => match array_length(min_items, max_items) {
                        Some(Some(n)) => Some((RustTypeModel::Array(n, Box::new(it)), reg2)),
                        Some(None) => Some((RustTypeModel::Vec(Box::new(it)), reg2)),
                        None => None,
                    },
                }
            },
        },
        TypeModel::Any => if s.any_of.len() > 0 {
            match (s.description, members_from(s.any_of, 0)) {
                (Some(d), Some(ms)) => {
                    let t = RustTypeModel::Enum(
                        RustEnumModel { name: enum_name, json_name: s.title, description: d, members: ms },
                    );
                    Some((t, register(reg, enum_name, t)))
                },
                _ => None,
            }
        } else {
            Some((RustTypeModel::OwnedThing, reg))
        },
        TypeModel::Enum => None,
    }
}

/// The field of a struct that a property becomes, from the Rust type of
/// its schema.
pub open spec fn struct_property(p: PropertyModel, t: RustTypeModel) -> RustStructPropertyModel {
    RustStructPropertyModel {
        name: field_name(p.name),
        json_name: p.name,
        description: p.schema.description,
        optional: !p.required,
        default_value: p.schema.default,
        incompatible_with: p.incompatible_with,
        property_type: if !p.required && (p.schema.default is None || p.incompatible_with.len() > 0) {
            RustTypeModel::Option(Box::new(t))
        } else {
            t
        },
    }
}

/// The fields of the struct `name` from property `k` on, and the registry
/// after the named types they make.
pub open spec fn properties_from(
    reg: Registry,
    name: Seq<char>,
    props: Seq<PropertyModel>,
    k: int,
    holder: SchemaModel,
) -> Option<(Seq<RustStructPropertyModel>, Registry)>
    decreases holder, 0int, props.len() - k,
{
    if k < 0 || k >= props.len() || !(holder.ty matches TypeModel::Object { properties, .. }
        && properties == props) {
        Some((Seq::empty(), reg))
    } else {
        proof {
            lemma_property_decreases(holder, props, k);
        }
        match rust_type_of(reg, name + camel_case(props[k].name), props[k].schema) {
            None => None,
            Some((t, reg2)) => match properties_from(reg2, name, props, k + 1, holder) {
                None => None,
                Some((rest, reg3)) => Some((seq![struct_property(props[k], t)] + rest, reg3)),
            },
        }
    }
}

/// Whether no two named types share a name.
pub open spec fn names_distinct(reg: Registry) -> bool {
    forall|i: int, j: int| 0 <= i < j < reg.len() ==> #[trigger] reg[i].0 != #[trigger] reg[j].0
}

/// Whether `after` keeps the types of `before` in their places, and no two
/// of its types share a name.
pub open spec fn keeps_types(before: Registry, after: Registry) -> bool {
    &&& names_distinct(after)
    &&& before.len() <= after.len()
    &&& forall|i: int| 0 <= i < before.len() ==> #[trigger] after[i] == before[i]
}

/// Registering a type keeps the types before it and a name once.
pub proof fn lemma_register_keeps_types(reg: Registry, name: Seq<char>, t: RustTypeModel)
    requires
        names_distinct(reg),
    ensures
        keeps_types(reg, register(reg, name, t)),
        has_name(register(reg, name, t), name),
{
    if !has_name(reg, name) {
        let r = reg.push((name, t));
        assert(r[reg.len() as int].0 == name);
        assert forall|i: int, j: int| 0 <= i < j < r.len() implies #[trigger] r[i].0 != #[trigger] r[j].0 by {
            if j == reg.len() {
                assert(r[i] == reg[i]);
            }
        }
    }
}

/// Making the Rust type of a schema keeps the named types made before, in
/// their order, and each named type once: a struct or enum whose name was
/// made already is not made again.
pub proof fn lemma_types_kept_once(reg: Registry, enum_name: Seq<char>, s: SchemaModel)
    requires
        names_distinct(reg),
        rust_type_of(reg, enum_name, s) is Some,
    ensures
        keeps_types(reg, rust_type_of(reg, enum_name, s).unwrap().1),
    decreases s, 1int, 0int,
{
    match s.ty {
        TypeModel::Object { properties, additional_properties, .. } => {
            if s.title is Some && s.description is Some && additional_properties.len() == 0 {
                let name = camel_case(s.title.unwrap());
                lemma_fields_kept_once(reg, name, properties, 0, s);
                let (ps, reg2) = properties_from(reg, name, properties, 0, s).unwrap();
                let t = RustTypeModel::Struct(
                    RustStructModel {
                        name,
                        json_name: s.title,
                        description: s.description.unwrap(),
                        properties: ps,
                    },
                );
                lemma_register_keeps_types(reg2, name, t);
            }
        },
        TypeModel::Array { items, .. } => {
            if items is Some {
                lemma_items_decreases(s);
                lemma_types_kept_once(reg, enum_name, *items.unwrap());
            }
        },
        TypeModel::Any => {
            if s.any_of.len() > 0 {
                let t = RustTypeModel::Enum(
                    RustEnumModel {
                        name: enum_name,
                        json_name: s.title,
                        description: s.description.unwrap(),
                        members: members_from(s.any_of, 0).unwrap(),
                    },
                );
                lemma_register_keeps_types(reg, enum_name, t);
            }
        },
        _ => {},
    }
}

/// The fields from property `k` on keep the named types made before them.
pub proof fn lemma_fields_kept_once(
    reg: Registry,
    name: Seq<char>,
    props: Seq<PropertyModel>,
    k: int,
    holder: SchemaModel,
)
    requires
        names_distinct(reg),
        properties_from(reg, name, props, k, holder) is Some,
    ensures
        keeps_types(reg, properties_from(reg, name, props, k, holder).unwrap().1),
    decreases holder, 0int, props.len() - k,
{
    if 0 <= k < props.len() && (holder.ty matches TypeModel::Object { properties, .. } && properties
        == props) {
        lemma_property_decreases(holder, props, k);
        let sub = name + camel_case(props[k].name);
        lemma_types_kept_once(reg, sub, props[k].schema);
        let reg2 = rust_type_of(reg, sub, props[k].schema).unwrap().1;
        lemma_fields_kept_once(reg2, name, props, k + 1, holder);
    }
}

/// The schema of a property lies within the object schema that holds it.
pub proof fn lemma_property_decreases(holder: SchemaModel, props: Seq<PropertyModel>, k: int)
    requires
        holder.ty matches TypeModel::Object { properties, .. } && properties == props,
        0 <= k < props.len(),
    ensures
        decreases_to!(holder => props[k].schema),
{
    assert(decreases_to!(holder => holder.ty));
    assert(decreases_to!(holder.ty => holder.ty->Object_properties));
    assert(decreases_to!(props => props[k]));
    assert(decreases_to!(props[k] => props[k].schema));
}

/// The schema of an array's items lies within the array schema.
pub proof fn lemma_items_decreases(s: SchemaModel)
    requires
        s.ty matches TypeModel::Array { items, .. } && items is Some,
    ensures
        decreases_to!(s => *(s.ty->Array_items->0)),
{
    assert(decreases_to!(s => s.ty));
    assert(decreases_to!(s.ty => s.ty->Array_items));
    assert(decreases_to!(s.ty->Array_items => s.ty->Array_items->0));
}

/// The value of an enumeration member in JSON.
pub enum JsonEnumValue {
    String(String),
    Integer(i32),
}

/// A member of a generated enum.
pub struct EnumMember {
    pub name: String,
    pub json_value: JsonEnumValue,
    pub description: Option<String>,
    pub value: Option<u32>,
}

/// A generated enum.
pub struct RustEnum {
    pub name: String,
    pub json_name: Option<String>,
    pub description: String,
    pub members: Vec<EnumMember>,
}

/// A field of a generated struct.
pub struct RustStructProperty {
    pub name: String,
    pub json_name: String,
    pub property_type: RustType,
    pub description: Option<String>,
    pub default_value: Option<Thing>,
    pub incompatible_with: Vec<String>,
    pub optional: bool,
}

/// A generated struct.
pub struct RustStruct {
    pub name: String,
    pub json_name: Option<String>,
    pub description: String,
    pub properties: Vec<RustStructProperty>,
}

/// A Rust type that the generated code uses.
#[allow(non_camel_case_types)]
pub enum RustType {
    String,
    USIZE,
    Boolean,
    F32,
    Struct(RustStruct),
    Array(usize, Box<RustType>),
    Vec(Box<RustType>),
    HashMap(Box<RustType>, Box<RustType>),
    Option(Box<RustType>),
    Enum(RustEnum),
    KSerdeOwnedThing,
    Unimplemented,
}

pub open spec fn thing_option(t: Option<Thing>) -> Option<ThingModel> {
    match t {
        Some(x) => Some(x@),
        None => None,
    }
}

pub open spec fn member_model(m: EnumMember) -> EnumMemberModel {
    EnumMemberModel {
        name: m.name@,
        json_value: match m.json_value {
            JsonEnumValue::String(x) => JsonEnumValueModel::String(x@),
            JsonEnumValue::Integer(v) => JsonEnumValueModel::Integer(v as int),
        },
        description: text_option(m.description),
        value: match m.value {
            Some(v) => Some(v as int),
            None => None,
        },
    }
}

pub open spec fn members_model(v: Seq<EnumMember>) -> Seq<EnumMemberModel> {
    Seq::new(v.len(), |i: int| member_model(v[i]))
}

pub open spec fn enum_model(e: RustEnum) -> RustEnumModel {
    RustEnumModel {
        name: e.name@,
        json_name: text_option(e.json_name),
        description: e.description@,
        members: members_model(e.members@),
    }
}

/// A field standing in for none.
pub open spec fn no_field() -> RustStructPropertyModel {
    RustStructPropertyModel {
        name: Seq::empty(),
        json_name: Seq::empty(),
        property_type: RustTypeModel::Unimplemented,
        description: None,
        default_value: None,
        incompatible_with: Seq::empty(),
        optional: false,
    }
}

pub open spec fn type_model(t: RustType) -> RustTypeModel
    decreases t,
{
    match t {
        RustType::String => RustTypeModel::String,
        RustType::USIZE => RustTypeModel::Usize,
        RustType::Boolean => RustTypeModel::Boolean,
        RustType::F32 => RustTypeModel::F32,
        RustType::Struct(s) => RustTypeModel::Struct(
            RustStructModel {
                name: s.name@,
                json_name: text_option(s.json_name),
                description: s.description@,
                properties: Seq::new(
                    s.properties@.len(),
                    |i: int|
                        if 0 <= i < s.properties@.len() {
                            RustStructPropertyModel {
                                name: s.properties@[i].name@,
                                json_name: s.properties@[i].json_name@,
                                property_type: type_model(s.properties@[i].property_type),
                                description: text_option(s.properties@[i].description),
                                default_value: thing_option(s.properties@[i].default_value),
                                incompatible_with: texts_model(s.properties@[i].incompatible_with@),
                                optional: s.properties@[i].optional,
                            }
                        } else {
                            no_field()
                        },
                ),
            },
        ),
        RustType::Array(n, b) => RustTypeModel::Array(n as int, Box::new(type_model(*b))),
        RustType::Vec(b) => RustTypeModel::Vec(Box::new(type_model(*b))),
        RustType::HashMap(k, v) => RustTypeModel::HashMap(Box::new(type_model(*k)), Box::new(type_model(*v))),
        RustType::Option(b) => RustTypeModel::Option(Box::new(type_model(*b))),
        RustType::Enum(e) => RustTypeModel::Enum(enum_model(e)),
        RustType::KSerdeOwnedThing => RustTypeModel::OwnedThing,
        RustType::Unimplemented => RustTypeModel::Unimplemented,
    }
}

impl View for RustType {
    type V = RustTypeModel;

    open spec fn view(&self) -> RustTypeModel {
        type_model(*self)
    }
}

/// The model of one field.
pub open spec fn field_model(p: RustStructProperty) -> RustStructPropertyModel {
    RustStructPropertyModel {
        name: p.name@,
        json_name: p.json_name@,
        property_type: p.property_type@,
        description: text_option(p.description),
        default_value: thing_option(p.default_value),
        incompatible_with: texts_model(p.incompatible_with@),
        optional: p.optional,
    }
}

pub open spec fn fields_model(v: Seq<RustStructProperty>) -> Seq<RustStructPropertyModel> {
    Seq::new(v.len(), |i: int| field_model(v[i]))
}

/// The model of a registry.
pub open spec fn registry_model(v: Seq<(String, RustType)>) -> Registry {
    Seq::new(v.len(), |i: int| (v[i].0@, v[i].1@))
}

fn copy_text_option(o: &Option<String>) -> (r: Option<String>)
    ensures
        text_option(r) == text_option(*o),
{
    match o {
        Some(x) => Some(x.clone()),
        None => None,
    }
}

fn copy_texts(v: &Vec<String>) -> (r: Vec<String>)
    ensures
        texts_model(r@) == texts_model(v@),
{
    let mut out: Vec<String> = Vec::new();
    let mut i: usize = 0;
    while i < v.len()
        invariant
            i <= v@.len(),
            out@.len() == i,
            forall|k: int| 0 <= k < i ==> #[trigger] out@[k]@ == v@[k]@,
        decreases v@.len() - i,
    {
        out.push(v[i].clone());
        i += 1;
    }
    assert(texts_model(out@) =~= texts_model(v@));
    out
}

fn copy_member(m: &EnumMember) -> (r: EnumMember)
    ensures
        member_model(r) == member_model(*m),
{
    EnumMember {
        name: m.name.clone(),
        json_value: match &m.json_value {
            JsonEnumValue::String(x) => JsonEnumValue::String(x.clone()),
            JsonEnumValue::Integer(v) => JsonEnumValue::Integer(*v),
        },
        description: copy_text_option(&m.description),
        value: m.value,
    }
}

fn copy_enum(e: &RustEnum) -> (r: RustEnum)
    ensures
        enum_model(r) == enum_model(*e),
{
    let mut members: Vec<EnumMember> = Vec::new();
    let mut i: usize = 0;
    while i < e.members.len()
        invariant
            i <= e.members@.len(),
            members@.len() == i,
            forall|k: int| 0 <= k < i ==> #[trigger] member_model(members@[k]) == member_model(e.members@[k]),
        decreases e.members@.len() - i,
    {
        members.push(copy_member(&e.members[i]));
        i += 1;
    }
    assert(members_model(members@) =~= members_model(e.members@));
    RustEnum {
        name: e.name.clone(),
        json_name: copy_text_option(&e.json_name),
        description: e.description.clone(),
        members,
    }
}

fn copy_thing_option(o: &Option<Thing>) -> (r: Option<Thing>)
    ensures
        thing_option(r) == thing_option(*o),
{
    match o {
        Some(x) => Some(x.to_owned()),
        None => None,
    }
}

fn copy_fields(v: &Vec<RustStructProperty>) -> (r: Vec<RustStructProperty>)
    ensures
        fields_model(r@) == fields_model(v@),
    decreases v,
{
    let mut out: Vec<RustStructProperty> = Vec::new();
    let mut i: usize = 0;
    while i < v.len()
        invariant
            i <= v@.len(),
            out@.len() == i,
            forall|k: int| 0 <= k < i ==> #[trigger] field_model(out@[k]) == field_model(v@[k]),
        decreases v@.len() - i,
    {
        let p = &v[i];
        out.push(
            RustStructProperty {
                name: p.name.clone(),
                json_name: p.json_name.clone(),
                property_type: copy_type(&p.property_type),
                description: copy_text_option(&p.description),
                default_value: copy_thing_option(&p.default_value),
                incompatible_with: copy_texts(&p.incompatible_with),
                optional: p.optional,
            },
        );
        i += 1;
    }
    assert(fields_model(out@) =~= fields_model(v@));
    out
}

/// A copy of a type.
fn copy_type(t: &RustType) -> (r: RustType)
    ensures
        r@ == t@,
    decreases t,
{
    match t {
        RustType::String => RustType::String,
        RustType::USIZE => RustType::USIZE,
        RustType::Boolean => RustType::Boolean,
        RustType::F32 => RustType::F32,
        RustType::Struct(s) => {
            let properties = copy_fields(&s.properties);
            let r = RustType::Struct(
                RustStruct {
                    name: s.name.clone(),
                    json_name: copy_text_option(&s.json_name),
                    description: s.description.clone(),
                    properties,
                },
            );
            proof {
                assert(r@->Struct_0.properties =~= fields_model(properties@));
                assert(t@->Struct_0.properties =~= fields_model(s.properties@));
            }
            r
        },
        RustType::Array(n, b) => RustType::Array(*n, Box::new(copy_type(b))),
        RustType::Vec(b) => RustType::Vec(Box::new(copy_type(b))),
        RustType::HashMap(k, v) => RustType::HashMap(Box::new(copy_type(k)), Box::new(copy_type(v))),
        RustType::Option(b) => RustType::Option(Box::new(copy_type(b))),
        RustType::Enum(e) => RustType::Enum(copy_enum(e)),
        RustType::KSerdeOwnedThing => RustType::KSerdeOwnedThing,
        RustType::Unimplemented => RustType::Unimplemented,
    }
}

/// The whole number that a number writes, where it fits an `i128`.
pub(crate) fn whole_number(n: &JsonNumber) -> (r: Option<i128>)
    ensures
        r matches Some(v) ==> whole_value(number_parts(n.model())) == Some(v as int),
        r is None ==> match whole_value(number_parts(n.model())) {
            Some(v) => !fits_i128(v),
            None => true,
        },
{
    if n.exponent_digits.len() != 0 {
        return None;
    }
    let mut i: usize = 0;
    while i < n.fraction_digits.len()
        invariant
            i <= n.fraction_digits@.len(),
            forall|k: int| 0 <= k < i ==> #[trigger] n.fraction_digits@[k] == '0',
        decreases n.fraction_digits@.len() - i,
    {
        if n.fraction_digits[i] != '0' {
            return None;
        }
        i += 1;
    }
    let mut j: usize = 0;
    while j < n.integer_digits.len()
        invariant
            j <= n.integer_digits@.len(),
            forall|k: int| 0 <= k < j ==> #[trigger] is_digit(n.integer_digits@[k]),
        decreases n.integer_digits@.len() - j,
    {
        if !is_ascii_digit(n.integer_digits[j]) {
            return None;
        }
        j += 1;
    }
    assert(n.integer_digits@.subrange(0, n.integer_digits@.len() as int) =~= n.integer_digits@);
    literal_from(&n.integer_digits, 0, n.integer_digits.len(), n.negative)
}

/// The member that an alternative gives, as `member_of` says.
fn member_for(value: &Schema) -> (r: Option<Option<EnumMember>>)
    ensures
        match member_of(value@) {
            Some(Some(m)) => r matches Some(Some(x)) && member_model(x) == m,
            Some(None) => r matches Some(None),
            None => r is None,
        },
{
    match &value.schema_type {
        SchemaType::Enum => {
            if value.enum_values.len() == 0 {
                return None;
            }
            assert(value@.enum_values[0] == enum_value_model(value.enum_values@[0]));
            match &value.enum_values[0] {
                EnumValue::Number(n) => match &value.description {
                    Some(d) => match whole_number(n) {
                        Some(v) => if 0 <= v && v <= 2147483647 {
                            Some(
                                Some(
                                    EnumMember {
                                        name: to_camel_case(d.as_str()),
                                        description: None,
                                        json_value: JsonEnumValue::Integer(v as i32),
                                        value: Some(v as u32),
                                    },
                                ),
                            )
                        } else {
                            None
                        },
                        None => None,
                    },
                    None => None,
                },
                EnumValue::String(x) => Some(
                    Some(
                        EnumMember {
                            name: to_camel_case(x.as_str()),
                            description: copy_text_option(&value.description),
                            json_value: JsonEnumValue::String(x.clone()),
                            value: None,
                        },
                    ),
                ),
            }
        },
        _ => Some(None),
    }
}

/// The members of the alternatives from `k` on, as `members_from` says.
fn members_for(values: &Vec<Schema>, k: usize) -> (r: Option<Vec<EnumMember>>)
    ensures
        match members_from(schemas_model(values@), k as int) {
            Some(ms) => r matches Some(v) && members_model(v@) == ms,
            None => r is None,
        },
    decreases values@.len() - k,
{
    if k >= values.len() {
        let v: Vec<EnumMember> = Vec::new();
        assert(members_model(v@) =~= Seq::<EnumMemberModel>::empty());
        return Some(v);
    }
    assert(schemas_model(values@)[k as int] == values@[k as int]@);
    match member_for(&values[k]) {
        None => None,
        Some(m) => match members_for(values, k + 1) {
            None => None,
            Some(mut rest) => {
                let ghost before = rest@;
                match m {
                    Some(x) => {
                        rest.insert(0, x);
                        assert(members_model(rest@) =~= seq![member_model(x)] + members_model(before));
                    },
                    None => {},
                }
                Some(rest)
            },
        },
    }
}

/// The map type of an object schema whose values follow `p`.
fn map_type(p: &Schema) -> (r: Option<RustType>)
    ensures
        match map_type_of(p@) {
            Some(t) => r matches Some(x) && x@ == t,
            None => r is None,
        },
{
    match &p.schema_type {
        SchemaType::Integer(_) => {
            let r = RustType::HashMap(Box::new(RustType::String), Box::new(RustType::USIZE));
            assert(p@.ty is Integer);
            assert(type_model(RustType::String) == RustTypeModel::String);
            assert(type_model(RustType::USIZE) == RustTypeModel::Usize);
            Some(r)
        },
        SchemaType::Object { .. } => {
            let r = RustType::HashMap(Box::new(RustType::String), Box::new(RustType::KSerdeOwnedThing));
            assert(p@.ty is Object);
            assert(type_model(RustType::String) == RustTypeModel::String);
            assert(type_model(RustType::KSerdeOwnedThing) == RustTypeModel::OwnedThing);
            Some(r)
        },
        _ => {
            assert(!(p@.ty is Integer) && !(p@.ty is Object));
            None
        },
    }
}

/// `a` followed by `b`.
fn joined(a: &str, b: &str) -> (r: String)
    ensures
        r@ == a@ + b@,
{
    let mut out = a.to_owned();
    let tail = chars_of(b);
    let mut i: usize = 0;
    while i < tail.len()
        invariant
            i <= tail@.len(),
            tail@ == b@,
            out@ == a@ + b@.take(i as int),
        decreases tail@.len() - i,
    {
        push_char(&mut out, tail[i]);
        i += 1;
        assert(b@.take(i as int) =~= b@.take(i - 1).push(b@[i - 1]));
    }
    assert(b@.take(i as int) =~= b@);
    out
}

/// The field that a property becomes, given the Rust type of its schema.
fn struct_field(p: &Property, t: RustType) -> (r: RustStructProperty)
    ensures
        field_model(r) == struct_property(property_model(*p), t@),
{
    let mut name = to_snake_case(p.name.as_str());
    if same_text(name.as_str(), "type") {
        push_char(&mut name, '_');
    }
    let optional = !p.required;
    let property_type = if optional && (p.schema.default.is_none() || p.incompatible_with.len() > 0) {
        RustType::Option(Box::new(t))
    } else {
        t
    };
    RustStructProperty {
        name,
        json_name: p.name.clone(),
        property_type,
        description: copy_text_option(&p.schema.description),
        default_value: copy_thing_option(&p.schema.default),
        incompatible_with: copy_texts(&p.incompatible_with),
        optional,
    }
}

/// Makes the Rust types of schemas, and keeps each named type it makes.
pub struct RustGenerator {
    pub rust_types: Vec<(String, RustType)>,
}

impl RustGenerator {
    /// The named types made so far.
    pub open spec fn registry(&self) -> Registry {
        registry_model(self.rust_types@)
    }

    pub fn new() -> (r: Self)
        ensures
            r.registry() == Seq::<(Seq<char>, RustTypeModel)>::empty(),
    {
        let r = RustGenerator { rust_types: Vec::new() };
        assert(r.registry() =~= Seq::<(Seq<char>, RustTypeModel)>::empty());
        r
    }

    /// Keeps a copy of `t` under `name`, unless a type of that name is kept.
    fn register_type(&mut self, name: &String, t: &RustType)
        ensures
            final(self).registry() == register(old(self).registry(), name@, t@),
    {
        let ghost reg = self.registry();
        let mut i: usize = 0;
        while i < self.rust_types.len()
            invariant
                i <= self.rust_types@.len(),
                reg == self.registry(),
                forall|k: int| 0 <= k < i ==> #[trigger] reg[k].0 != name@,
            decreases self.rust_types@.len() - i,
        {
            assert(reg[i as int].0 == self.rust_types@[i as int].0@);
            if same_text(self.rust_types[i].0.as_str(), name.as_str()) {
                assert(has_name(reg, name@));
                return;
            }
            i += 1;
        }
        assert(!has_name(reg, name@));
        self.rust_types.push((name.clone(), copy_type(t)));
        assert(self.registry() =~= reg.push((name@, t@)));
    }

    /// The Rust type of a schema, named `enum_name` where it becomes an
    /// enum; each struct and enum it makes is kept, once per name. `None`
    /// where `rust_type_of` gives none.
    pub fn rust_type_from_schema(&mut self, enum_name: &str, schema: &Schema) -> (r: Option<RustType>)
        ensures
            match rust_type_of(old(self).registry(), enum_name@, schema@) {
                Some((t, reg)) => r matches Some(x) && x@ == t && final(self).registry() == reg,
                None => r is None,
            },
        decreases schema, 1int, 0int,
    {
        match &schema.schema_type {
            SchemaType::String => Some(RustType::String),
            SchemaType::Boolean => Some(RustType::Boolean),
            SchemaType::Integer(_) => Some(RustType::USIZE),
            SchemaType::Number(_) => Some(RustType::F32),
            SchemaType::Object { properties, additional_properties, .. } => {
                if additional_properties.len() > 0 {
                    assert(schema@.ty->Object_additional_properties[0] == additional_properties@[0]@);
                }
                match &schema.title {
                    Some(title) => match &schema.description {
                        None => None,
                        Some(description) => {
                            if additional_properties.len() > 0 {
                                map_type(&additional_properties[0])
                            } else {
                                let name = to_camel_case(title.as_str());
                                match self.struct_fields(&name, schema, 0) {
                                    None => None,
                                    Some(fields) => {
                                        let t = RustType::Struct(
                                            RustStruct {
                                                name: name.clone(),
                                                json_name: Some(title.clone()),
                                                description: description.clone(),
                                                properties: fields,
                                            },
                                        );
                                        proof {
                                            assert(t@->Struct_0.properties =~= fields_model(fields@));
                                        }
                                        self.register_type(&name, &t);
                                        Some(t)
                                    },
                                }
                            }
                        },
                    },
                    None => if additional_properties.len() > 0 {
                        map_type(&additional_properties[0])
                    } else {
                        None
                    },
                }
            },
            SchemaType::Array { min_items, max_items, items } => match items {
                None => None,
                Some(b) => match self.rust_type_from_schema(enum_name, b) {
                    None => None,
                    Some(it) => {
                        let length = match (min_items, max_items) {
                            (Some(lo), Some(hi)) => match (whole_number(lo), whole_number(hi)) {
                                (Some(a), Some(c)) => if 0 <= a && a <= 4294967295 && 0 <= c && c
                                    <= 4294967295 {
                                    if a == c {
                                        Some(Some(a as usize))
                                    } else {
                                        Some(None)
                                    }
                                } else {
                                    None
                                },
                                _ => None,
                            },
                            _ => Some(None),
                        };
                        match length {
                            Some(Some(n)) => Some(RustType::Array(n, Box::new(it))),
                            Some(None) => Some(RustType::Vec(Box::new(it))),
                            None => None,
                        }
                    },
                },
            },
            SchemaType::Any => {
                if schema.any_of.len() > 0 {
                    assert(schema@.any_of =~= schemas_model(schema.any_of@));
                    match &schema.description {
                        None => None,
                        Some(description) => match members_for(&schema.any_of, 0) {
                            None => None,
                            Some(members) => {
                                let t = RustType::Enum(
                                    RustEnum {
                                        name: enum_name.to_owned(),
                                        json_name: copy_text_option(&schema.title),
                                        description: description.clone(),
                                        members,
                                    },
                                );
                                let name = enum_name.to_owned();
                                self.register_type(&name, &t);
                                Some(t)
                            },
                        },
                    }
                } else {
                    Some(RustType::KSerdeOwnedThing)
                }
            },
            SchemaType::Enum => None,
        }
    }

    /// The fields of the struct `name` that the properties of `holder` from
    /// `k` on become.
    fn struct_fields(&mut self, name: &String, holder: &Schema, k: usize) -> (r: Option<
        Vec<RustStructProperty>,
    >)
        requires
            holder@.ty is Object,
        ensures
            match properties_from(
                old(self).registry(),
                name@,
                holder@.ty->Object_properties,
                k as int,
                holder@,
            ) {
                Some((ps, reg)) => r matches Some(v) && fields_model(v@) == ps && final(self).registry()
                    == reg,
                None => r is None,
            },
        decreases holder, 0int, holder@.ty->Object_properties.len() - k,
    {
        match &holder.schema_type {
            SchemaType::Object { properties, .. } => {
                if k >= properties.len() {
                    let v: Vec<RustStructProperty> = Vec::new();
                    assert(fields_model(v@) =~= Seq::<RustStructPropertyModel>::empty());
                    return Some(v);
                }
                let p = &properties[k];
                assert(holder@.ty->Object_properties[k as int] == property_model(*p));
                let part = to_camel_case(p.name.as_str());
                let enum_name = joined(name.as_str(), part.as_str());
                match self.rust_type_from_schema(enum_name.as_str(), &p.schema) {
                    None => None,
                    Some(t) => {
                        let field = struct_field(p, t);
                        match self.struct_fields(name, holder, k + 1) {
                            None => None,
                            Some(mut rest) => {
                                let ghost before = rest@;
                                rest.insert(0, field);
                                assert(fields_model(rest@) =~= seq![field_model(field)] + fields_model(before));
                                Some(rest)
                            },
                        }
                    },
                }
            },
            _ => None,
        }
    }
}

} // verus!
