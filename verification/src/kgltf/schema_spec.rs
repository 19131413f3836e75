//! What reading a JSON schema gives: the schema model and the rules by
//! which each keyword of a schema object extends it.

use vstd::prelude::*;

use crate::kserde::thing::{name_index, NumberParts, ThingModel};

verus! {

/// An allowed value of an enumeration.
pub enum EnumValueModel {
    String(Seq<char>),
    Number(NumberParts),
}

/// The limits of a number: its minimum, maximum and the number it is a
/// multiple of, each as written.
pub struct LimitsModel {
    pub minimum: Option<NumberParts>,
    pub maximum: Option<NumberParts>,
    pub multiple_of: Option<NumberParts>,
}

/// A property of an object schema.
pub struct PropertyModel {
    pub name: Seq<char>,
    pub required: bool,
    pub schema: SchemaModel,
    /// The properties that cannot be set together with this one.
    pub incompatible_with: Seq<Seq<char>>,
}

/// The kind of value a schema describes.
pub enum TypeModel {
    String,
    Integer(LimitsModel),
    Number(LimitsModel),
    Object {
        properties: Seq<PropertyModel>,
        additional_properties: Seq<SchemaModel>,
        min_properties: Option<NumberParts>,
        max_properties: Option<NumberParts>,
    },
    Array { min_items: Option<NumberParts>, max_items: Option<NumberParts>, items: Option<Box<SchemaModel>> },
    Enum,
    Boolean,
    Any,
}

/// A schema.
pub struct SchemaModel {
    pub ty: TypeModel,
    pub title: Option<Seq<char>>,
    pub description: Option<Seq<char>>,
    pub default: Option<ThingModel>,
    pub any_of: Seq<SchemaModel>,
    pub one_of: Seq<SchemaModel>,
    pub enum_values: Seq<EnumValueModel>,
}

/// The schema that nothing has extended yet.
pub open spec fn empty_schema() -> SchemaModel {
    SchemaModel {
        ty: TypeModel::Any,
        title: None,
        description: None,
        default: None,
        any_of: Seq::empty(),
        one_of: Seq::empty(),
        enum_values: Seq::empty(),
    }
}

/// No limits set.
pub open spec fn no_limits() -> LimitsModel {
    LimitsModel { minimum: None, maximum: None, multiple_of: None }
}

/// The value of the first property named `name`.
pub open spec fn field(ps: Seq<(Seq<char>, ThingModel, int)>, name: Seq<char>) -> Option<ThingModel> {
    let k = name_index(ps, name, 0);
    if k < ps.len() {
        Some(ps[k].1)
    } else {
        None
    }
}

/// A property that must be a string where it is present: `None` where it
/// is present and no string.
pub open spec fn text_field(ps: Seq<(Seq<char>, ThingModel, int)>, name: Seq<char>) -> Option<
    Option<Seq<char>>,
> {
    match field(ps, name) {
        None => Some(None),
        Some(ThingModel::String(x)) => Some(Some(x)),
        Some(_) => None,
    }
}

/// A property that must be a number where it is present.
pub open spec fn number_field(ps: Seq<(Seq<char>, ThingModel, int)>, name: Seq<char>) -> Option<
    Option<NumberParts>,
> {
    match field(ps, name) {
        None => Some(None),
        Some(ThingModel::Number(x)) => Some(Some(x)),
        Some(_) => None,
    }
}

/// The setting already made, or else the new one.
pub open spec fn either<T>(a: Option<T>, b: Option<T>) -> Option<T> {
    if a is Some {
        a
    } else {
        b
    }
}

/// Number limits extended by `minimum`, `maximum` and `multipleOf`.
pub open spec fn limits_with(l: LimitsModel, ps: Seq<(Seq<char>, ThingModel, int)>) -> Option<LimitsModel> {
    match (number_field(ps, "minimum"@), number_field(ps, "maximum"@), number_field(ps, "multipleOf"@)) {
        (Some(a), Some(b), Some(c)) => Some(
            LimitsModel {
                minimum: either(l.minimum, a),
                maximum: either(l.maximum, b),
                multiple_of: either(l.multiple_of, c),
            },
        ),
        _ => None,
    }
}

/// The strings of `items` from `k` on; `None` where one is no string.
pub open spec fn strings_from(items: Seq<ThingModel>, k: int) -> Option<Seq<Seq<char>>>
    decreases items.len() - k,
{
    if k < 0 || k >= items.len() {
        Some(Seq::empty())
    } else {
        match (items[k], strings_from(items, k + 1)) {
            (ThingModel::String(x), Some(rest)) => Some(seq![x] + rest),
            _ => None,
        }
    }
}

/// The names listed under `required`; none where it is missing.
pub open spec fn required_names(ps: Seq<(Seq<char>, ThingModel, int)>) -> Option<Seq<Seq<char>>> {
    match field(ps, "required"@) {
        None => Some(Seq::empty()),
        Some(ThingModel::Array(items)) => strings_from(items, 0),
        Some(_) => None,
    }
}

/// The enumeration values of `items` from `k` on; `None` where one is no
/// string and no number.
pub open spec fn enum_values_from(items: Seq<ThingModel>, k: int) -> Option<Seq<EnumValueModel>>
    decreases items.len() - k,
{
    if k < 0 || k >= items.len() {
        Some(Seq::empty())
    } else {
        let first = match items[k] {
            ThingModel::String(x) => Some(EnumValueModel::String(x)),
            ThingModel::Number(n) => Some(EnumValueModel::Number(n)),
            _ => None,
        };
        match (first, enum_values_from(items, k + 1)) {
            (Some(v), Some(rest)) => Some(seq![v] + rest),
            _ => None,
        }
    }
}

/// The schema after `enum`: its values are added and it becomes an
/// enumeration.
pub open spec fn enum_step(s: SchemaModel, ps: Seq<(Seq<char>, ThingModel, int)>) -> Option<SchemaModel> {
    match field(ps, "enum"@) {
        None => Some(s),
        Some(ThingModel::Array(items)) => match enum_values_from(items, 0) {
            Some(vs) => Some(SchemaModel { ty: TypeModel::Enum, enum_values: s.enum_values + vs, ..s }),
            None => None,
        },
        Some(_) => None,
    }
}

/// The first two names of a `required` list.
pub open spec fn pair_of(t: ThingModel) -> Option<(Seq<char>, Seq<char>)> {
    match t {
        ThingModel::Array(items) => if items.len() >= 2 {
            match (items[0], items[1]) {
                (ThingModel::String(a), ThingModel::String(b)) => Some((a, b)),
                _ => None,
            }
        } else {
            None
        },
        _ => None,
    }
}

/// The index of the first property named `name`, or the number of
/// properties where there is none.
pub open spec fn prop_index(props: Seq<PropertyModel>, name: Seq<char>, i: int) -> int
    decreases props.len() - i,
{
    if i < 0 || i >= props.len() {
        props.len() as int
    } else if props[i].name == name {
        i
    } else {
        prop_index(props, name, i + 1)
    }
}

/// The property at `i` with `other` added to what it is incompatible with.
pub open spec fn with_incompatible(props: Seq<PropertyModel>, i: int, other: Seq<char>) -> Seq<PropertyModel> {
    props.update(i, PropertyModel { incompatible_with: props[i].incompatible_with.push(other), ..props[i] })
}

/// Marks `a` and `b` as incompatible with each other; `None` where either
/// is no property.
pub open spec fn add_incompatible(props: Seq<PropertyModel>, a: Seq<char>, b: Seq<char>) -> Option<
    Seq<PropertyModel>,
> {
    let i = prop_index(props, a, 0);
    if i >= props.len() {
        None
    } else {
        let p1 = with_incompatible(props, i, b);
        let j = prop_index(p1, b, 0);
        if j >= p1.len() {
            None
        } else {
            Some(with_incompatible(p1, j, a))
        }
    }
}

/// The pairs under the `anyOf` of a `not`, from `k` on.
pub open spec fn any_of_pairs(props: Seq<PropertyModel>, items: Seq<ThingModel>, k: int) -> Option<
    Seq<PropertyModel>,
>
    decreases items.len() - k,
{
    if k < 0 || k >= items.len() {
        Some(props)
    } else {
        match items[k] {
            ThingModel::Object(ops) => match field(ops, "required"@) {
                Some(r) => match pair_of(r) {
                    Some((a, b)) => match add_incompatible(props, a, b) {
                        Some(p) => any_of_pairs(p, items, k + 1),
                        None => None,
                    },
                    None => None,
                },
                None => None,
            },
            _ => None,
        }
    }
}

/// The properties after `not`: its `required` pair and each `required`
/// pair under its `anyOf` become incompatible.
pub open spec fn not_rules(props: Seq<PropertyModel>, ps: Seq<(Seq<char>, ThingModel, int)>) -> Option<
    Seq<PropertyModel>,
> {
    match field(ps, "not"@) {
        None => Some(props),
        Some(ThingModel::Object(nps)) => {
            let p1 = match field(nps, "required"@) {
                None => Some(props),
                Some(r) => match pair_of(r) {
                    Some((a, b)) => add_incompatible(props, a, b),
                    None => None,
                },
            };
            match p1 {
                None => None,
                Some(p1) => match field(nps, "anyOf"@) {
                    None => Some(p1),
                    Some(ThingModel::Array(items)) => any_of_pairs(p1, items, 0),
                    Some(_) => None,
                },
            }
        },
        Some(_) => None,
    }
}

/// `order` with position `x` put after every position whose index is at
/// most that of `x`.
pub open spec fn insert_by_index(order: Seq<int>, raw: Seq<(Seq<char>, ThingModel, int)>, x: int) -> Seq<int>
    decreases order.len(),
{
    if order.len() == 0 {
        seq![x]
    } else if raw[order.last()].2 <= raw[x].2 {
        order.push(x)
    } else {
        insert_by_index(order.drop_last(), raw, x).push(order.last())
    }
}

/// The positions of the first `n` properties of a JSON object, ordered by
/// their index; properties of equal index keep their order.
pub open spec fn index_order(raw: Seq<(Seq<char>, ThingModel, int)>, n: int) -> Seq<int>
    decreases n,
{
    if n <= 0 {
        Seq::empty()
    } else {
        insert_by_index(index_order(raw, n - 1), raw, n - 1)
    }
}

/// The position of the reference named `name`, or the number of
/// references where there is none.
pub open spec fn ref_index(refs: Seq<(Seq<char>, ThingModel)>, name: Seq<char>, i: int) -> int
    decreases refs.len() - i,
{
    if i < 0 || i >= refs.len() {
        refs.len() as int
    } else if refs[i].0 == name {
        i
    } else {
        ref_index(refs, name, i + 1)
    }
}

/// The schema that a JSON value describes, where every reference it makes
/// is among `refs`; a reference is taken out of `refs` while it is being
/// read. `None` where the value is no schema.
pub open spec fn parse(t: ThingModel, refs: Seq<(Seq<char>, ThingModel)>) -> Option<SchemaModel>
    decreases refs.len(), t, 5int,
{
    extend(empty_schema(), t, refs)
}

/// `s` extended by the schema object `t`.
pub open spec fn extend(s: SchemaModel, t: ThingModel, refs: Seq<(Seq<char>, ThingModel)>) -> Option<SchemaModel>
    decreases refs.len(), t, 4int,
{
    match t {
        ThingModel::Object(ps) => {
            let r = name_index(ps, "$ref"@, 0);
            if 0 <= r < ps.len() {
                match ps[r].1 {
                    ThingModel::String(name) => {
                        let k = ref_index(refs, name, 0);
                        if 0 <= k < refs.len() {
                            extend(s, refs[k].1, refs.remove(k))
                        } else {
                            None
                        }
                    },
                    _ => None,
                }
            } else {
                extend_here(s, t, refs)
            }
        },
        _ => None,
    }
}

/// `s` extended by the keywords of the schema object `t`, which makes no
/// reference.
pub open spec fn extend_here(s: SchemaModel, t: ThingModel, refs: Seq<(Seq<char>, ThingModel)>) -> Option<
    SchemaModel,
>
    decreases refs.len(), t, 3int,
{
    match t {
        ThingModel::Object(ps) => match (text_field(ps, "title"@), text_field(ps, "description"@)) {
            (Some(title), Some(description)) => {
                let s1 = SchemaModel {
                    title: either(s.title, title),
                    description: either(s.description, description),
                    default: match field(ps, "default"@) {
                        Some(d) => Some(d),
                        None => s.default,
                    },
                    ..s
                };
                match type_step(s1, t, refs) {
                    None => None,
                    Some(s2) => match enum_step(s2, ps) {
                        None => None,
                        Some(s3) => {
                            let a = name_index(ps, "allOf"@, 0);
                            let s4 = if 0 <= a < ps.len() {
                                match ps[a].1 {
                                    ThingModel::Array(items) => {
                                        proof {
                                            lemma_field_decreases(t, ps, a);
                                        }
                                        all_of_from(s3, items, 0, refs, ps[a].1)
                                    },
                                    _ => None,
                                }
                            } else {
                                Some(s3)
                            };
                            match s4 {
                                None => None,
                                Some(s4) => {
                                    let b = name_index(ps, "anyOf"@, 0);
                                    let any = if 0 <= b < ps.len() {
                                        match ps[b].1 {
                                            ThingModel::Array(items) => {
                                                proof {
                                                    lemma_field_decreases(t, ps, b);
                                                }
                                                parse_all(s4.any_of, items, 0, refs, ps[b].1)
                                            },
                                            _ => None,
                                        }
                                    } else {
                                        Some(s4.any_of)
                                    };
                                    let c = name_index(ps, "oneOf"@, 0);
                                    let one = if 0 <= c < ps.len() {
                                        match ps[c].1 {
                                            ThingModel::Array(items) => {
                                                proof {
                                                    lemma_field_decreases(t, ps, c);
                                                }
                                                parse_all(s4.one_of, items, 0, refs, ps[c].1)
                                            },
                                            _ => None,
                                        }
                                    } else {
                                        Some(s4.one_of)
                                    };
                                    match (any, one) {
                                        (Some(any), Some(one)) => Some(SchemaModel { any_of: any, one_of: one, ..s4 }),
                                        _ => None,
                                    }
                                },
                            }
                        },
                    },
                }
            },
            _ => None,
        },
        _ => None,
    }
}

/// `s` extended by each schema of `items` from `k` on, in turn.
pub open spec fn all_of_from(
    s: SchemaModel,
    items: Seq<ThingModel>,
    k: int,
    refs: Seq<(Seq<char>, ThingModel)>,
    holder: ThingModel,
) -> Option<SchemaModel>
    decreases refs.len(), holder, items.len() - k,
{
    if k < 0 || k >= items.len() || holder != ThingModel::Array(items) {
        Some(s)
    } else {
        proof {
            lemma_item_decreases(holder, items, k);
        }
        match extend(s, items[k], refs) {
            Some(s2) => all_of_from(s2, items, k + 1, refs, holder),
            None => None,
        }
    }
}

/// `acc` followed by the schema of each of `items` from `k` on.
pub open spec fn parse_all(
    acc: Seq<SchemaModel>,
    items: Seq<ThingModel>,
    k: int,
    refs: Seq<(Seq<char>, ThingModel)>,
    holder: ThingModel,
) -> Option<Seq<SchemaModel>>
    decreases refs.len(), holder, items.len() - k,
{
    if k < 0 || k >= items.len() || holder != ThingModel::Array(items) {
        Some(acc)
    } else {
        proof {
            lemma_item_decreases(holder, items, k);
        }
        match parse(items[k], refs) {
            Some(x) => parse_all(acc.push(x), items, k + 1, refs, holder),
            None => None,
        }
    }
}

/// The schema after `type`.
pub open spec fn type_step(s: SchemaModel, t: ThingModel, refs: Seq<(Seq<char>, ThingModel)>) -> Option<
    SchemaModel,
>
    decreases refs.len(), t, 2int,
{
    match t {
        ThingModel::Object(ps) => {
            let i = name_index(ps, "type"@, 0);
            if i >= ps.len() {
                Some(s)
            } else {
                match ps[i].1 {
                    ThingModel::String(c) => if c == "boolean"@ {
                        match s.ty {
                            TypeModel::Boolean => Some(s),
                            TypeModel::Any => Some(SchemaModel { ty: TypeModel::Boolean, ..s }),
                            _ => None,
                        }
                    } else if c == "string"@ {
                        match s.ty {
                            TypeModel::String => Some(s),
                            TypeModel::Any => Some(SchemaModel { ty: TypeModel::String, ..s }),
                            _ => None,
                        }
                    } else if c == "integer"@ {
                        let base = match s.ty {
                            TypeModel::Integer(l) => Some(l),
                            TypeModel::Any => Some(no_limits()),
                            _ => None,
                        };
                        match base {
                            Some(l) => match limits_with(l, ps) {
                                Some(l2) => Some(SchemaModel { ty: TypeModel::Integer(l2), ..s }),
                                None => None,
                            },
                            None => None,
                        }
                    } else if c == "number"@ {
                        let base = match s.ty {
                            TypeModel::Number(l) => Some(l),
                            TypeModel::Any => Some(no_limits()),
                            _ => None,
                        };
                        match base {
                            Some(l) => match limits_with(l, ps) {
                                Some(l2) => Some(SchemaModel { ty: TypeModel::Number(l2), ..s }),
                                None => None,
                            },
                            None => None,
                        }
                    } else if c == "object"@ {
                        object_step(s, t, refs)
                    } else if c == "array"@ {
                        let base = match s.ty {
                            TypeModel::Array { min_items, max_items, items } => Some((min_items, max_items)),
                            TypeModel::Any => Some((None, None)),
                            _ => None,
                        };
                        let j = name_index(ps, "items"@, 0);
                        match (base, number_field(ps, "minItems"@), number_field(ps, "maxItems"@)) {
                            (Some((lo, hi)), Some(a), Some(b)) => if 0 <= j < ps.len() {
                                proof {
                                    lemma_field_decreases(t, ps, j);
                                }
                                match parse(ps[j].1, refs) {
                                    Some(x) => Some(
                                        SchemaModel {
                                            ty: TypeModel::Array {
                                                min_items: either(lo, a),
                                                max_items: either(hi, b),
                                                items: Some(Box::new(x)),
                                            },
                                            ..s
                                        },
                                    ),
                                    None => None,
                                }
                            } else {
                                None
                            },
                            _ => None,
                        }
                    } else {
                        None
                    },
                    _ => None,
                }
            }
        },
        _ => None,
    }
}

/// The schema after `"type": "object"`: its limits, additional properties,
/// properties and incompatible pairs.
pub open spec fn object_step(s: SchemaModel, t: ThingModel, refs: Seq<(Seq<char>, ThingModel)>) -> Option<
    SchemaModel,
>
    decreases refs.len(), t, 1int,
{
    match t {
        ThingModel::Object(ps) => {
            let base = match s.ty {
                TypeModel::Object { properties, additional_properties, min_properties, max_properties } => Some(
                    (properties, additional_properties, min_properties, max_properties),
                ),
                TypeModel::Any => Some((Seq::empty(), Seq::empty(), None, None)),
                _ => None,
            };
            match (base, number_field(ps, "minProperties"@), number_field(ps, "maxProperties"@)) {
                (Some((props, additional, lo, hi)), Some(a), Some(b)) => {
                    let x = name_index(ps, "additionalProperties"@, 0);
                    let additional2 = if 0 <= x < ps.len() {
                        proof {
                            lemma_field_decreases(t, ps, x);
                        }
                        match parse(ps[x].1, refs) {
                            Some(y) => Some(additional.push(y)),
                            None => None,
                        }
                    } else {
                        Some(additional)
                    };
                    let p = name_index(ps, "properties"@, 0);
                    let props2 = if 0 <= p < ps.len() {
                        proof {
                            lemma_field_decreases(t, ps, p);
                        }
                        match (required_names(ps), ps[p].1) {
                            (Some(req), ThingModel::Object(raw)) => merge_props(
                                props,
                                raw,
                                index_order(raw, raw.len() as int),
                                0,
                                req,
                                refs,
                                ps[p].1,
                            ),
                            _ => None,
                        }
                    } else {
                        Some(props)
                    };
                    match (additional2, props2) {
                        (Some(additional2), Some(props2)) => match not_rules(props2, ps) {
                            Some(props3) => Some(
                                SchemaModel {
                                    ty: TypeModel::Object {
                                        properties: props3,
                                        additional_properties: additional2,
                                        min_properties: either(lo, a),
                                        max_properties: either(hi, b),
                                    },
                                    ..s
                                },
                            ),
                            None => None,
                        },
                        _ => None,
                    }
                },
                _ => None,
            }
        },
        _ => None,
    }
}

/// The properties after reading the JSON properties `raw` in `order` from
/// `k` on. A new name goes last; a name already there takes the new
/// property only where its schema is still of any kind.
pub open spec fn merge_props(
    props: Seq<PropertyModel>,
    raw: Seq<(Seq<char>, ThingModel, int)>,
    order: Seq<int>,
    k: int,
    required: Seq<Seq<char>>,
    refs: Seq<(Seq<char>, ThingModel)>,
    holder: ThingModel,
) -> Option<Seq<PropertyModel>>
    decreases refs.len(), holder, order.len() - k,
{
    if k < 0 || k >= order.len() || holder != ThingModel::Object(raw) {
        Some(props)
    } else {
        let pos = order[k];
        if !(0 <= pos < raw.len()) {
            None
        } else {
            proof {
                lemma_field_decreases(holder, raw, pos);
            }
            match parse(raw[pos].1, refs) {
                None => None,
                Some(x) => {
                    let prop = PropertyModel {
                        name: raw[pos].0,
                        required: required.contains(raw[pos].0),
                        schema: x,
                        incompatible_with: Seq::empty(),
                    };
                    let i = prop_index(props, raw[pos].0, 0);
                    let props2 = if i < props.len() {
                        if props[i].schema.ty is Any {
                            props.update(i, prop)
                        } else {
                            props
                        }
                    } else {
                        props.push(prop)
                    };
                    merge_props(props2, raw, order, k + 1, required, refs, holder)
                }
            }
        }
    }
}

/// A property's value lies within the object that holds it.
pub proof fn lemma_field_decreases(t: ThingModel, ps: Seq<(Seq<char>, ThingModel, int)>, i: int)
    requires
        t == ThingModel::Object(ps),
        0 <= i < ps.len(),
    ensures
        decreases_to!(t => ps[i].1),
{
    assert(decreases_to!(t => t->Object_0));
    assert(decreases_to!(ps => ps[i]));
    assert(decreases_to!(ps[i] => ps[i].1));
}

/// An item lies within the array that holds it.
pub proof fn lemma_item_decreases(t: ThingModel, items: Seq<ThingModel>, k: int)
    requires
        t == ThingModel::Array(items),
        0 <= k < items.len(),
    ensures
        decreases_to!(t => items[k]),
{
    assert(decreases_to!(t => t->Array_0));
    assert(decreases_to!(items => items[k]));
}

} // verus!
