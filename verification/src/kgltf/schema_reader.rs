//! Reading a JSON schema, such as those of the glTF specification, into a
//! `Schema`.

use vstd::prelude::*;

use crate::kgltf::schema_spec::{
    add_incompatible, all_of_from, any_of_pairs, either, empty_schema, enum_step, enum_values_from,
    extend, extend_here, field, index_order, insert_by_index, limits_with, merge_props,
    no_limits, not_rules, number_field, object_step, pair_of, parse, parse_all, prop_index,
    ref_index, required_names, strings_from, text_field, type_step, with_incompatible,
    EnumValueModel, LimitsModel, PropertyModel, SchemaModel, TypeModel,
};
use crate::kserde::json_deserialize::{same_text, JsonNumber};
use crate::kserde::thing::{
    copy_number, items_model, name_index, number_parts, props_model, NumberParts, ObjectProperty,
    Thing, ThingModel,
};

verus! {

/// An allowed value of an enumeration.
pub enum EnumValue {
    String(String),
    Number(JsonNumber),
}

/// The limits of a number, each as written.
pub struct Limits {
    pub minimum: Option<JsonNumber>,
    pub maximum: Option<JsonNumber>,
    pub multiple_of: Option<JsonNumber>,
}

/// A property of an object schema.
pub struct Property {
    pub name: String,
    pub required: bool,
    pub schema: Schema,
    /// The properties that cannot be set together with this one.
    pub incompatible_with: Vec<String>,
}

/// The kind of value a schema describes.
pub enum SchemaType {
    String,
    Integer(Limits),
    Number(Limits),
    Object {
        properties: Vec<Property>,
        additional_properties: Vec<Schema>,
        min_properties: Option<JsonNumber>,
        max_properties: Option<JsonNumber>,
    },
    Array { min_items: Option<JsonNumber>, max_items: Option<JsonNumber>, items: Option<Box<Schema>> },
    Enum,
    Boolean,
    Any,
}

/// A schema read from JSON.
pub struct Schema {
    pub schema_type: SchemaType,
    pub title: Option<String>,
    pub description: Option<String>,
    pub default: Option<Thing>,
    pub any_of: Vec<Schema>,
    pub one_of: Vec<Schema>,
    pub enum_values: Vec<EnumValue>,
}

pub open spec fn number_option(n: Option<JsonNumber>) -> Option<NumberParts> {
    match n {
        Some(x) => Some(number_parts(x.model())),
        None => None,
    }
}

pub open spec fn text_option(t: Option<String>) -> Option<Seq<char>> {
    match t {
        Some(x) => Some(x@),
        None => None,
    }
}

pub open spec fn limits_model(l: Limits) -> LimitsModel {
    LimitsModel {
        minimum: number_option(l.minimum),
        maximum: number_option(l.maximum),
        multiple_of: number_option(l.multiple_of),
    }
}

pub open spec fn texts_model(v: Seq<String>) -> Seq<Seq<char>> {
    Seq::new(v.len(), |i: int| v[i]@)
}

pub open spec fn enum_value_model(e: EnumValue) -> EnumValueModel {
    match e {
        EnumValue::String(x) => EnumValueModel::String(x@),
        EnumValue::Number(n) => EnumValueModel::Number(number_parts(n.model())),
    }
}

pub open spec fn enum_values_model(v: Seq<EnumValue>) -> Seq<EnumValueModel> {
    Seq::new(v.len(), |i: int| enum_value_model(v[i]))
}

/// A property standing in for none.
pub open spec fn no_property() -> PropertyModel {
    PropertyModel { name: Seq::empty(), required: false, schema: empty_schema(), incompatible_with: Seq::empty() }
}

pub open spec fn schema_model(s: Schema) -> SchemaModel
    decreases s,
{
    SchemaModel {
        ty: match s.schema_type {
            SchemaType::String => TypeModel::String,
            SchemaType::Integer(l) => TypeModel::Integer(limits_model(l)),
            SchemaType::Number(l) => TypeModel::Number(limits_model(l)),
            SchemaType::Object { properties, additional_properties, min_properties, max_properties } =>
                TypeModel::Object {
                properties: Seq::new(
                    properties@.len(),
                    |i: int|
                        if 0 <= i < properties@.len() {
                            PropertyModel {
                                name: properties@[i].name@,
                                required: properties@[i].required,
                                schema: schema_model(properties@[i].schema),
                                incompatible_with: texts_model(properties@[i].incompatible_with@),
                            }
                        } else {
                            no_property()
                        },
                ),
                additional_properties: Seq::new(
                    additional_properties@.len(),
                    |i: int|
                        if 0 <= i < additional_properties@.len() {
                            schema_model(additional_properties@[i])
                        } else {
                            empty_schema()
                        },
                ),
                min_properties: number_option(min_properties),
                max_properties: number_option(max_properties),
            },
            SchemaType::Array { min_items, max_items, items } => TypeModel::Array {
                min_items: number_option(min_items),
                max_items: number_option(max_items),
                items: match items {
                    Some(b) => Some(Box::new(schema_model(*b))),
                    None => None,
                },
            },
            SchemaType::Enum => TypeModel::Enum,
            SchemaType::Boolean => TypeModel::Boolean,
            SchemaType::Any => TypeModel::Any,
        },
        title: text_option(s.title),
        description: text_option(s.description),
        default: match s.default {
            Some(d) => Some(d@),
            None => None,
        },
        any_of: Seq::new(
            s.any_of@.len(),
            |i: int| if 0 <= i < s.any_of@.len() { schema_model(s.any_of@[i]) } else { empty_schema() },
        ),
        one_of: Seq::new(
            s.one_of@.len(),
            |i: int| if 0 <= i < s.one_of@.len() { schema_model(s.one_of@[i]) } else { empty_schema() },
        ),
        enum_values: enum_values_model(s.enum_values@),
    }
}

impl View for Schema {
    type V = SchemaModel;

    open spec fn view(&self) -> SchemaModel {
        schema_model(*self)
    }
}

pub open spec fn schemas_model(v: Seq<Schema>) -> Seq<SchemaModel> {
    Seq::new(v.len(), |i: int| v[i]@)
}

pub open spec fn property_model(p: Property) -> PropertyModel {
    PropertyModel {
        name: p.name@,
        required: p.required,
        schema: p.schema@,
        incompatible_with: texts_model(p.incompatible_with@),
    }
}

pub open spec fn properties_model(v: Seq<Property>) -> Seq<PropertyModel> {
    Seq::new(v.len(), |i: int| property_model(v[i]))
}

pub open spec fn schema_option(r: Option<Schema>) -> Option<SchemaModel> {
    match r {
        Some(s) => Some(s@),
        None => None,
    }
}

/// The references by name.
pub open spec fn refs_model(v: Seq<(String, Thing)>) -> Seq<(Seq<char>, ThingModel)> {
    Seq::new(v.len(), |i: int| (v[i].0@, v[i].1@))
}

/// The position of the first property named `name`.
fn field_index(ps: &Vec<(String, ObjectProperty)>, name: &str) -> (k: usize)
    ensures
        k == name_index(props_model(ps@), name@, 0),
        k <= ps@.len(),
{
    let ghost m = props_model(ps@);
    let mut i: usize = 0;
    while i < ps.len()
        invariant
            i <= ps@.len(),
            m == props_model(ps@),
            name_index(m, name@, 0) == name_index(m, name@, i as int),
        decreases ps@.len() - i,
    {
        if same_text(ps[i].0.as_str(), name) {
            return i;
        }
        i += 1;
    }
    i
}

/// A property that must be a string where it is present.
fn text_field_of(ps: &Vec<(String, ObjectProperty)>, name: &str) -> (r: Option<Option<String>>)
    ensures
        match r {
            None => text_field(props_model(ps@), name@) is None,
            Some(x) => text_field(props_model(ps@), name@) == Some(text_option(x)),
        },
{
    let k = field_index(ps, name);
    if k == ps.len() {
        return Some(None);
    }
    match &ps[k].1.item {
        Thing::String(x) => Some(Some(x.clone())),
        _ => None,
    }
}

/// A property that must be a number where it is present.
fn number_field_of(ps: &Vec<(String, ObjectProperty)>, name: &str) -> (r: Option<Option<JsonNumber>>)
    ensures
        match r {
            None => number_field(props_model(ps@), name@) is None,
            Some(x) => number_field(props_model(ps@), name@) == Some(number_option(x)),
        },
{
    let k = field_index(ps, name);
    if k == ps.len() {
        return Some(None);
    }
    match &ps[k].1.item {
        Thing::Number(n) => Some(Some(copy_number(n))),
        _ => None,
    }
}

/// The view of an array is the views of its items.
proof fn lemma_array_view(t: Thing)
    requires
        t is Array,
    ensures
        t@ == ThingModel::Array(items_model(t->Array_0@)),
{
    let v = t->Array_0;
    assert(items_model(v@) =~= match t@ {
        ThingModel::Array(s) => s,
        _ => Seq::empty(),
    });
}

/// The view of an object is the views of its properties.
proof fn lemma_object_view(t: Thing)
    requires
        t is Object,
    ensures
        t@ == ThingModel::Object(props_model(t->Object_0@)),
{
    let v = t->Object_0;
    assert(props_model(v@) =~= match t@ {
        ThingModel::Object(s) => s,
        _ => Seq::empty(),
    });
}

/// The strings of `items`; `None` where one is no string.
fn strings_of(items: &Vec<Thing>) -> (r: Option<Vec<String>>)
    ensures
        match r {
            None => strings_from(items_model(items@), 0) is None,
            Some(v) => strings_from(items_model(items@), 0) == Some(texts_model(v@)),
        },
{
    let ghost m = items_model(items@);
    let mut acc: Vec<String> = Vec::new();
    let mut i: usize = 0;
    while i < items.len()
        invariant
            i <= items@.len(),
            m == items_model(items@),
            strings_from(m, 0) == match strings_from(m, i as int) {
                Some(rest) => Some(texts_model(acc@) + rest),
                None => None,
            },
        decreases items@.len() - i,
    {
        match &items[i] {
            Thing::String(x) => {
                let ghost before = acc@;
                acc.push(x.clone());
                proof {
                    match strings_from(m, i + 1) {
                        Some(rest) => {
                            assert(texts_model(acc@) =~= texts_model(before).push(x@));
                            assert(texts_model(acc@) + rest =~= texts_model(before) + (seq![x@] + rest));
                        },
                        None => {},
                    }
                }
            },
            _ => return None,
        }
        i += 1;
    }
    assert(texts_model(acc@) + Seq::<Seq<char>>::empty() =~= texts_model(acc@));
    Some(acc)
}

/// The enumeration values of `items`; `None` where one is no string and no
/// number.
fn enum_values_of(items: &Vec<Thing>) -> (r: Option<Vec<EnumValue>>)
    ensures
        match r {
            None => enum_values_from(items_model(items@), 0) is None,
            Some(v) => enum_values_from(items_model(items@), 0) == Some(enum_values_model(v@)),
        },
{
    let ghost m = items_model(items@);
    let mut acc: Vec<EnumValue> = Vec::new();
    let mut i: usize = 0;
    while i < items.len()
        invariant
            i <= items@.len(),
            m == items_model(items@),
            enum_values_from(m, 0) == match enum_values_from(m, i as int) {
                Some(rest) => Some(enum_values_model(acc@) + rest),
                None => None,
            },
        decreases items@.len() - i,
    {
        let v = match &items[i] {
            Thing::String(x) => EnumValue::String(x.clone()),
            Thing::Number(n) => EnumValue::Number(copy_number(n)),
            _ => return None,
        };
        let ghost before = acc@;
        let ghost vm = enum_value_model(v);
        assert(m[i as int] == items@[i as int]@);
        acc.push(v);
        proof {
            match enum_values_from(m, i + 1) {
                Some(rest) => {
                    assert(enum_values_model(acc@) =~= enum_values_model(before).push(vm));
                    assert(enum_values_model(acc@) + rest =~= enum_values_model(before) + (seq![vm] + rest));
                },
                None => {},
            }
        }
        i += 1;
    }
    assert(enum_values_model(acc@) + Seq::<EnumValueModel>::empty() =~= enum_values_model(acc@));
    Some(acc)
}

/// The first two names of a `required` list.
fn pair_of_thing(t: &Thing) -> (r: Option<(String, String)>)
    ensures
        match r {
            None => pair_of(t@) is None,
            Some((a, b)) => pair_of(t@) == Some((a@, b@)),
        },
{
    match t {
        Thing::Array(items) => {
            proof {
                lemma_array_view(*t);
            }
            if items.len() < 2 {
                return None;
            }
            match (&items[0], &items[1]) {
                (Thing::String(a), Thing::String(b)) => Some((a.clone(), b.clone())),
                _ => None,
            }
        },
        _ => None,
    }
}

/// The position of the first property named `name`.
fn prop_index_of(props: &Vec<Property>, name: &str) -> (k: usize)
    ensures
        k == prop_index(properties_model(props@), name@, 0),
        k <= props@.len(),
{
    let ghost m = properties_model(props@);
    let mut i: usize = 0;
    while i < props.len()
        invariant
            i <= props@.len(),
            m == properties_model(props@),
            prop_index(m, name@, 0) == prop_index(m, name@, i as int),
        decreases props@.len() - i,
    {
        if same_text(props[i].name.as_str(), name) {
            return i;
        }
        i += 1;
    }
    i
}

/// The property at `i` with `other` added to what it is incompatible with.
fn add_incompatible_at(props: Vec<Property>, i: usize, other: &String) -> (r: Vec<Property>)
    requires
        i < props@.len(),
    ensures
        properties_model(r@) == with_incompatible(properties_model(props@), i as int, other@),
{
    let mut props = props;
    let ghost old_props = props@;
    let mut p = props.remove(i);
    let ghost before = p.incompatible_with@;
    p.incompatible_with.push(other.clone());
    assert(texts_model(p.incompatible_with@) =~= texts_model(before).push(other@));
    props.insert(i, p);
    assert(props@ =~= old_props.update(i as int, p));
    assert(properties_model(props@) =~= with_incompatible(properties_model(old_props), i as int, other@));
    props
}

/// Marks `a` and `b` as incompatible with each other.
fn add_incompatible_of(props: Vec<Property>, a: &String, b: &String) -> (r: Option<Vec<Property>>)
    ensures
        match r {
            None => add_incompatible(properties_model(props@), a@, b@) is None,
            Some(v) => add_incompatible(properties_model(props@), a@, b@) == Some(properties_model(v@)),
        },
{
    let i = prop_index_of(&props, a.as_str());
    if i == props.len() {
        return None;
    }
    let p1 = add_incompatible_at(props, i, b);
    let j = prop_index_of(&p1, b.as_str());
    if j == p1.len() {
        return None;
    }
    Some(add_incompatible_at(p1, j, a))
}

/// The pairs under the `anyOf` of a `not`.
fn any_of_pairs_of(props: Vec<Property>, items: &Vec<Thing>) -> (r: Option<Vec<Property>>)
    ensures
        match r {
            None => any_of_pairs(properties_model(props@), items_model(items@), 0) is None,
            Some(v) => any_of_pairs(properties_model(props@), items_model(items@), 0) == Some(
                properties_model(v@),
            ),
        },
{
    let ghost m = items_model(items@);
    let ghost goal = any_of_pairs(properties_model(props@), m, 0);
    let mut cur = props;
    let mut i: usize = 0;
    while i < items.len()
        invariant
            i <= items@.len(),
            m == items_model(items@),
            goal == any_of_pairs(properties_model(props@), items_model(items@), 0),
            goal == any_of_pairs(properties_model(cur@), m, i as int),
        decreases items@.len() - i,
    {
        assert(m[i as int] == items@[i as int]@);
        match &items[i] {
            Thing::Object(ops) => {
                proof {
                    lemma_object_view(items@[i as int]);
                }
                let k = field_index(ops, "required");
                let ghost pm = properties_model(cur@);
                if k == ops.len() {
                    assert(field(props_model(ops@), "required"@) is None);
                    assert(any_of_pairs(pm, m, i as int) is None);
                    return None;
                }
                assert(field(props_model(ops@), "required"@) == Some(ops@[k as int].1.item@));
                match pair_of_thing(&ops[k].1.item) {
                    Some((a, b)) => match add_incompatible_of(cur, &a, &b) {
                        Some(p) => {
                            cur = p;
                        },
                        None => return None,
                    },
                    None => {
                        assert(any_of_pairs(pm, m, i as int) is None);
                        return None;
                    },
                }
            },
            _ => return None,
        }
        i += 1;
    }
    Some(cur)
}

/// The properties after `not`.
fn not_rules_of(props: Vec<Property>, ps: &Vec<(String, ObjectProperty)>) -> (r: Option<Vec<Property>>)
    ensures
        match r {
            None => not_rules(properties_model(props@), props_model(ps@)) is None,
            Some(v) => not_rules(properties_model(props@), props_model(ps@)) == Some(properties_model(v@)),
        },
{
    let k = field_index(ps, "not");
    if k == ps.len() {
        return Some(props);
    }
    match &ps[k].1.item {
        Thing::Object(nps) => {
            proof {
                lemma_object_view(ps@[k as int].1.item);
            }
            let j = field_index(nps, "required");
            let p1 = if j == nps.len() {
                props
            } else {
                match pair_of_thing(&nps[j].1.item) {
                    Some((a, b)) => match add_incompatible_of(props, &a, &b) {
                        Some(p) => p,
                        None => return None,
                    },
                    None => return None,
                }
            };
            let x = field_index(nps, "anyOf");
            if x == nps.len() {
                return Some(p1);
            }
            match &nps[x].1.item {
                Thing::Array(items) => {
                    proof {
                        lemma_array_view(nps@[x as int].1.item);
                    }
                    any_of_pairs_of(p1, items)
                },
                _ => None,
            }
        },
        _ => None,
    }
}

/// Number limits extended by `minimum`, `maximum` and `multipleOf`.
fn limits_with_of(l: Limits, ps: &Vec<(String, ObjectProperty)>) -> (r: Option<Limits>)
    ensures
        match r {
            None => limits_with(limits_model(l), props_model(ps@)) is None,
            Some(x) => limits_with(limits_model(l), props_model(ps@)) == Some(limits_model(x)),
        },
{
    let a = match number_field_of(ps, "minimum") {
        Some(a) => a,
        None => return None,
    };
    let b = match number_field_of(ps, "maximum") {
        Some(b) => b,
        None => return None,
    };
    let c = match number_field_of(ps, "multipleOf") {
        Some(c) => c,
        None => return None,
    };
    Some(
        Limits {
            minimum: if l.minimum.is_some() { l.minimum } else { a },
            maximum: if l.maximum.is_some() { l.maximum } else { b },
            multiple_of: if l.multiple_of.is_some() { l.multiple_of } else { c },
        },
    )
}

/// The schema after `enum`.
fn enum_step_of(s: Schema, ps: &Vec<(String, ObjectProperty)>) -> (r: Option<Schema>)
    ensures
        schema_option(r) == enum_step(s@, props_model(ps@)),
{
    let k = field_index(ps, "enum");
    if k == ps.len() {
        return Some(s);
    }
    match &ps[k].1.item {
        Thing::Array(items) => {
            proof {
                lemma_array_view(ps@[k as int].1.item);
            }
            match enum_values_of(items) {
                Some(vs) => {
                    let mut s = s;
                    let ghost before = s;
                    let mut vs = vs;
                    let ghost added = vs@;
                    s.enum_values.append(&mut vs);
                    s.schema_type = SchemaType::Enum;
                    proof {
                        assert(enum_values_model(s.enum_values@) =~= enum_values_model(before.enum_values@)
                            + enum_values_model(added));
                        assert(s@ =~~= SchemaModel {
                            ty: TypeModel::Enum,
                            enum_values: before@.enum_values + enum_values_model(added),
                            ..before@
                        });
                    }
                    Some(s)
                },
                None => None,
            }
        },
        _ => None,
    }
}

pub open spec fn ints_model(v: Seq<usize>) -> Seq<int> {
    Seq::new(v.len(), |i: int| v[i] as int)
}

/// `order` with position `x` put after every position whose index is at
/// most that of `x`.
fn insert_position(order: Vec<usize>, raw: &Vec<(String, ObjectProperty)>, x: usize) -> (r: Vec<usize>)
    requires
        x < raw@.len(),
        forall|k: int| 0 <= k < order@.len() ==> #[trigger] order@[k] < raw@.len(),
    ensures
        ints_model(r@) == insert_by_index(ints_model(order@), props_model(raw@), x as int),
        r@.len() == order@.len() + 1,
        forall|k: int| 0 <= k < r@.len() ==> #[trigger] r@[k] < raw@.len(),
    decreases order@.len(),
{
    let ghost om = ints_model(order@);
    if order.len() == 0 {
        let mut r = Vec::new();
        r.push(x);
        assert(ints_model(r@) =~= seq![x as int]);
        return r;
    }
    let last = order[order.len() - 1];
    assert(om.last() == last as int);
    if raw[last].1.index <= raw[x].1.index {
        let mut order = order;
        order.push(x);
        assert(ints_model(order@) =~= om.push(x as int));
        order
    } else {
        let mut order = order;
        order.pop();
        assert(ints_model(order@) =~= om.drop_last());
        let mut r = insert_position(order, raw, x);
        let ghost rm = ints_model(r@);
        r.push(last);
        assert(ints_model(r@) =~= rm.push(last as int));
        r
    }
}

/// The positions of the properties of a JSON object, ordered by their
/// index.
fn index_order_of(raw: &Vec<(String, ObjectProperty)>) -> (r: Vec<usize>)
    ensures
        ints_model(r@) == index_order(props_model(raw@), raw@.len() as int),
        forall|k: int| 0 <= k < r@.len() ==> #[trigger] r@[k] < raw@.len(),
{
    let mut order: Vec<usize> = Vec::new();
    let mut n: usize = 0;
    assert(ints_model(order@) =~= Seq::<int>::empty());
    while n < raw.len()
        invariant
            n <= raw@.len(),
            ints_model(order@) == index_order(props_model(raw@), n as int),
            forall|k: int| 0 <= k < order@.len() ==> #[trigger] order@[k] < raw@.len(),
        decreases raw@.len() - n,
    {
        order = insert_position(order, raw, n);
        n += 1;
    }
    order
}

/// Whether `v` holds `x`.
fn contains_text(v: &Vec<String>, x: &str) -> (r: bool)
    ensures
        r == texts_model(v@).contains(x@),
{
    let mut i: usize = 0;
    while i < v.len()
        invariant
            i <= v@.len(),
            forall|k: int| 0 <= k < i ==> texts_model(v@)[k] != x@,
        decreases v@.len() - i,
    {
        if same_text(v[i].as_str(), x) {
            assert(texts_model(v@)[i as int] == x@);
            return true;
        }
        i += 1;
    }
    false
}

/// The position of the reference named `name`.
fn ref_index_of(refs: &Vec<(String, Thing)>, name: &str) -> (k: usize)
    ensures
        k == ref_index(refs_model(refs@), name@, 0),
        k <= refs@.len(),
{
    let ghost m = refs_model(refs@);
    let mut i: usize = 0;
    while i < refs.len()
        invariant
            i <= refs@.len(),
            m == refs_model(refs@),
            ref_index(m, name@, 0) == ref_index(m, name@, i as int),
        decreases refs@.len() - i,
    {
        if same_text(refs[i].0.as_str(), name) {
            return i;
        }
        i += 1;
    }
    i
}

/// The references without the one at `k`.
fn refs_without(refs: &Vec<(String, Thing)>, k: usize) -> (r: Vec<(String, Thing)>)
    requires
        k < refs@.len(),
    ensures
        refs_model(r@) == refs_model(refs@).remove(k as int),
{
    let mut r: Vec<(String, Thing)> = Vec::new();
    let mut i: usize = 0;
    while i < refs.len()
        invariant
            i <= refs@.len(),
            k < refs@.len(),
            refs_model(r@) == refs_model(refs@).take(i as int).remove(if i > k { k as int } else { i as int }) || i
                <= k && refs_model(r@) == refs_model(refs@).take(i as int),
            r@.len() == if i > k { i - 1 } else { i as int },
        decreases refs@.len() - i,
    {
        if i != k {
            let ghost before = refs_model(r@);
            r.push((refs[i].0.clone(), refs[i].1.to_owned()));
            proof {
                let m = refs_model(refs@);
                assert(refs_model(r@) =~= before.push(m[i as int]));
                if i < k {
                    assert(m.take(i + 1) =~= m.take(i as int).push(m[i as int]));
                } else {
                    assert(m.take(i + 1).remove(k as int) =~= m.take(i as int).remove(k as int).push(m[i as int]));
                }
            }
        } else {
            proof {
                let m = refs_model(refs@);
                assert(m.take(i + 1).remove(k as int) =~= m.take(i as int));
            }
        }
        i += 1;
    }
    assert(refs_model(refs@).take(refs@.len() as int) =~= refs_model(refs@));
    r
}

/// The schema that nothing has extended yet.
fn new_schema() -> (r: Schema)
    ensures
        r@ == empty_schema(),
{
    let r = Schema {
        schema_type: SchemaType::Any,
        title: None,
        description: None,
        default: None,
        any_of: Vec::new(),
        one_of: Vec::new(),
        enum_values: Vec::new(),
    };
    assert(r@.any_of =~= Seq::<SchemaModel>::empty());
    assert(r@.one_of =~= Seq::<SchemaModel>::empty());
    assert(r@.enum_values =~= Seq::<EnumValueModel>::empty());
    r
}

/// The items of a JSON array.
pub open spec fn array_items(t: ThingModel) -> Seq<ThingModel> {
    match t {
        ThingModel::Array(items) => items,
        _ => Seq::empty(),
    }
}

/// The properties of a JSON object.
pub open spec fn object_props(t: ThingModel) -> Seq<(Seq<char>, ThingModel, int)> {
    match t {
        ThingModel::Object(ps) => ps,
        _ => Seq::empty(),
    }
}

/// The names listed under `required`.
fn required_of(ps: &Vec<(String, ObjectProperty)>) -> (r: Option<Vec<String>>)
    ensures
        match r {
            None => required_names(props_model(ps@)) is None,
            Some(v) => required_names(props_model(ps@)) == Some(texts_model(v@)),
        },
{
    let k = field_index(ps, "required");
    if k == ps.len() {
        let v: Vec<String> = Vec::new();
        assert(texts_model(v@) =~= Seq::<Seq<char>>::empty());
        return Some(v);
    }
    match &ps[k].1.item {
        Thing::Array(items) => {
            proof {
                lemma_array_view(ps@[k as int].1.item);
            }
            strings_of(items)
        },
        _ => None,
    }
}

/// `s` with its kind replaced.
fn with_type(s: Schema, ty: SchemaType) -> (r: Schema)
    ensures
        r.schema_type == ty,
        r@ == (SchemaModel { ty: r@.ty, ..s@ }),
{
    let ghost sm = s@;
    let Schema { schema_type, title, description, default, any_of, one_of, enum_values } = s;
    let r = Schema { schema_type: ty, title, description, default, any_of, one_of, enum_values };
    assert(r@.any_of =~= sm.any_of);
    assert(r@.one_of =~= sm.one_of);
    r
}

/// Reads the schema that a JSON value describes. Each reference that the
/// schema makes (`$ref`) is looked up by name in `refs`, which holds the
/// referenced documents, already read; while a reference is being read it
/// is taken out of `refs`, so a schema that refers back to itself reads as
/// `None`. `None` also where a value is not of the kind its keyword needs,
/// where a reference is not found, where a type is unknown or clashes with
/// the type already set, and where an incompatible pair names no property.
pub fn parse_schema(root: &Thing, refs: &Vec<(String, Thing)>) -> (r: Option<Schema>)
    ensures
        schema_option(r) == parse(root@, refs_model(refs@)),
{
    parse_of(root, refs)
}

fn parse_of(t: &Thing, refs: &Vec<(String, Thing)>) -> (r: Option<Schema>)
    ensures
        schema_option(r) == parse(t@, refs_model(refs@)),
    decreases refs@.len(), t, 5int,
{
    let s = new_schema();
    extend_of(s, t, refs)
}

fn extend_of(s: Schema, t: &Thing, refs: &Vec<(String, Thing)>) -> (r: Option<Schema>)
    ensures
        schema_option(r) == extend(s@, t@, refs_model(refs@)),
    decreases refs@.len(), t, 4int,
{
    match t {
        Thing::Object(ps) => {
            proof {
                lemma_object_view(*t);
            }
            let r = field_index(ps, "$ref");
            if r < ps.len() {
                match &ps[r].1.item {
                    Thing::String(name) => {
                        let k = ref_index_of(refs, name.as_str());
                        if k < refs.len() {
                            let rest = refs_without(refs, k);
                            assert(refs_model(refs@)[k as int].1 == refs@[k as int].1@);
                            assert(refs_model(rest@).len() == rest@.len());
                            assert(rest@.len() < refs@.len());
                            extend_of(s, &refs[k].1, &rest)
                        } else {
                            None
                        }
                    },
                    _ => None,
                }
            } else {
                extend_here_of(s, t, refs)
            }
        },
        _ => None,
    }
}

fn extend_here_of(s: Schema, t: &Thing, refs: &Vec<(String, Thing)>) -> (r: Option<Schema>)
    ensures
        schema_option(r) == extend_here(s@, t@, refs_model(refs@)),
    decreases refs@.len(), t, 3int,
{
    let ps = match t {
        Thing::Object(ps) => ps,
        _ => return None,
    };
    proof {
        lemma_object_view(*t);
    }
    let ghost pm = props_model(ps@);
    let title = match text_field_of(ps, "title") {
        Some(x) => x,
        None => return None,
    };
    let description = match text_field_of(ps, "description") {
        Some(x) => x,
        None => return None,
    };
    let d = field_index(ps, "default");
    let ghost sm = s@;
    let Schema { schema_type, title: t0, description: d0, default: df0, any_of, one_of, enum_values } = s;
    let s1 = Schema {
        schema_type,
        title: if t0.is_some() { t0 } else { title },
        description: if d0.is_some() { d0 } else { description },
        default: if d < ps.len() { Some(ps[d].1.item.to_owned()) } else { df0 },
        any_of,
        one_of,
        enum_values,
    };
    proof {
        assert(s1@.any_of =~= sm.any_of);
        assert(s1@.one_of =~= sm.one_of);
        assert(s1@ == (SchemaModel {
            title: either(sm.title, text_option(title)),
            description: either(sm.description, text_option(description)),
            default: match field(pm, "default"@) {
                Some(x) => Some(x),
                None => sm.default,
            },
            ..sm
        }));
    }
    let s2 = match type_step_of(s1, t, refs) {
        Some(x) => x,
        None => return None,
    };
    let s3 = match enum_step_of(s2, ps) {
        Some(x) => x,
        None => return None,
    };
    let a = field_index(ps, "allOf");
    let s4 = if a < ps.len() {
        match &ps[a].1.item {
            Thing::Array(_) => match all_of_of(s3, &ps[a].1.item, refs) {
                Some(x) => x,
                None => return None,
            },
            _ => return None,
        }
    } else {
        s3
    };
    let ghost m4 = s4@;
    let Schema { schema_type, title, description, default, any_of, one_of, enum_values } = s4;
    proof {
        assert(schemas_model(any_of@) =~= m4.any_of);
        assert(schemas_model(one_of@) =~= m4.one_of);
    }
    let b = field_index(ps, "anyOf");
    let any = if b < ps.len() {
        match &ps[b].1.item {
            Thing::Array(_) => match parse_all_of(any_of, &ps[b].1.item, refs) {
                Some(x) => x,
                None => return None,
            },
            _ => return None,
        }
    } else {
        any_of
    };
    let c = field_index(ps, "oneOf");
    let one = if c < ps.len() {
        match &ps[c].1.item {
            Thing::Array(_) => match parse_all_of(one_of, &ps[c].1.item, refs) {
                Some(x) => x,
                None => return None,
            },
            _ => return None,
        }
    } else {
        one_of
    };
    let s5 = Schema { schema_type, title, description, default, any_of: any, one_of: one, enum_values };
    proof {
        assert(s5@.any_of =~= schemas_model(any@));
        assert(s5@.one_of =~= schemas_model(one@));
        assert(s5@ == (SchemaModel { any_of: schemas_model(any@), one_of: schemas_model(one@), ..m4 }));
    }
    Some(s5)
}

fn all_of_of(s: Schema, holder: &Thing, refs: &Vec<(String, Thing)>) -> (r: Option<Schema>)
    requires
        holder is Array,
    ensures
        schema_option(r) == all_of_from(s@, array_items(holder@), 0, refs_model(refs@), holder@),
    decreases refs@.len(), holder, 0int,
{
    let items = match holder {
        Thing::Array(items) => items,
        _ => return None,
    };
    proof {
        lemma_array_view(*holder);
    }
    let ghost m = items_model(items@);
    let ghost goal = all_of_from(s@, m, 0, refs_model(refs@), holder@);
    let mut cur = s;
    let mut k: usize = 0;
    while k < items.len()
        invariant
            k <= items@.len(),
            m == items_model(items@),
            holder@ == ThingModel::Array(m),
            *holder == Thing::Array(*items),
            goal == all_of_from(cur@, m, k as int, refs_model(refs@), holder@),
            goal == all_of_from(s@, array_items(holder@), 0, refs_model(refs@), holder@),
        decreases items@.len() - k,
    {
        assert(m[k as int] == items@[k as int]@);
        match extend_of(cur, &items[k], refs) {
            Some(x) => {
                cur = x;
            },
            None => return None,
        }
        k += 1;
    }
    Some(cur)
}

fn parse_all_of(acc: Vec<Schema>, holder: &Thing, refs: &Vec<(String, Thing)>) -> (r: Option<Vec<Schema>>)
    requires
        holder is Array,
    ensures
        match r {
            None => parse_all(schemas_model(acc@), array_items(holder@), 0, refs_model(refs@), holder@) is None,
            Some(v) => parse_all(schemas_model(acc@), array_items(holder@), 0, refs_model(refs@), holder@)
                == Some(schemas_model(v@)),
        },
    decreases refs@.len(), holder, 0int,
{
    let items = match holder {
        Thing::Array(items) => items,
        _ => return None,
    };
    proof {
        lemma_array_view(*holder);
    }
    let ghost m = items_model(items@);
    let ghost goal = parse_all(schemas_model(acc@), m, 0, refs_model(refs@), holder@);
    let mut cur = acc;
    let mut k: usize = 0;
    while k < items.len()
        invariant
            k <= items@.len(),
            m == items_model(items@),
            holder@ == ThingModel::Array(m),
            *holder == Thing::Array(*items),
            goal == parse_all(schemas_model(cur@), m, k as int, refs_model(refs@), holder@),
            goal == parse_all(schemas_model(acc@), array_items(holder@), 0, refs_model(refs@), holder@),
        decreases items@.len() - k,
    {
        assert(m[k as int] == items@[k as int]@);
        match parse_of(&items[k], refs) {
            Some(x) => {
                let ghost before = schemas_model(cur@);
                let ghost xm = x@;
                cur.push(x);
                assert(schemas_model(cur@) =~= before.push(xm));
            },
            None => return None,
        }
        k += 1;
    }
    Some(cur)
}

fn type_step_of(s: Schema, t: &Thing, refs: &Vec<(String, Thing)>) -> (r: Option<Schema>)
    ensures
        schema_option(r) == type_step(s@, t@, refs_model(refs@)),
    decreases refs@.len(), t, 2int,
{
    let ps = match t {
        Thing::Object(ps) => ps,
        _ => return None,
    };
    proof {
        lemma_object_view(*t);
    }
    let i = field_index(ps, "type");
    if i == ps.len() {
        return Some(s);
    }
    let c = match &ps[i].1.item {
        Thing::String(c) => c,
        _ => return None,
    };
    let ghost sm = s@;
    if same_text(c.as_str(), "boolean") {
        let same = match &s.schema_type {
            SchemaType::Boolean => true,
            _ => false,
        };
        let any = match &s.schema_type {
            SchemaType::Any => true,
            _ => false,
        };
        if same {
            return Some(s);
        }
        if any {
            return Some(with_type(s, SchemaType::Boolean));
        }
        return None;
    }
    if same_text(c.as_str(), "string") {
        let same = match &s.schema_type {
            SchemaType::String => true,
            _ => false,
        };
        let any = match &s.schema_type {
            SchemaType::Any => true,
            _ => false,
        };
        if same {
            return Some(s);
        }
        if any {
            return Some(with_type(s, SchemaType::String));
        }
        return None;
    }
    let is_integer = same_text(c.as_str(), "integer");
    let is_number = same_text(c.as_str(), "number");
    if is_integer || is_number {
        let Schema { schema_type, title, description, default, any_of, one_of, enum_values } = s;
        let base = match schema_type {
            SchemaType::Integer(l) => {
                if !is_integer {
                    return None;
                }
                l
            },
            SchemaType::Number(l) => {
                if is_integer {
                    return None;
                }
                l
            },
            SchemaType::Any => Limits { minimum: None, maximum: None, multiple_of: None },
            _ => return None,
        };
        let l2 = match limits_with_of(base, ps) {
            Some(l2) => l2,
            None => return None,
        };
        let ghost lm = limits_model(l2);
        let ty = if is_integer { SchemaType::Integer(l2) } else { SchemaType::Number(l2) };
        let r = Schema { schema_type: ty, title, description, default, any_of, one_of, enum_values };
        proof {
            assert(r@.any_of =~= sm.any_of);
            assert(r@.one_of =~= sm.one_of);
        }
        return Some(r);
    }
    if same_text(c.as_str(), "object") {
        return object_step_of(s, t, refs);
    }
    if same_text(c.as_str(), "array") {
        let Schema { schema_type, title, description, default, any_of, one_of, enum_values } = s;
        let (lo, hi) = match schema_type {
            SchemaType::Array { min_items, max_items, items } => (min_items, max_items),
            SchemaType::Any => (None, None),
            _ => return None,
        };
        let a = match number_field_of(ps, "minItems") {
            Some(a) => a,
            None => return None,
        };
        let b = match number_field_of(ps, "maxItems") {
            Some(b) => b,
            None => return None,
        };
        let j = field_index(ps, "items");
        if j == ps.len() {
            return None;
        }
        let x = match parse_of(&ps[j].1.item, refs) {
            Some(x) => x,
            None => return None,
        };
        let r = Schema {
            schema_type: SchemaType::Array {
                min_items: if lo.is_some() { lo } else { a },
                max_items: if hi.is_some() { hi } else { b },
                items: Some(Box::new(x)),
            },
            title,
            description,
            default,
            any_of,
            one_of,
            enum_values,
        };
        proof {
            assert(r@.any_of =~= sm.any_of);
            assert(r@.one_of =~= sm.one_of);
        }
        return Some(r);
    }
    None
}

fn object_step_of(s: Schema, t: &Thing, refs: &Vec<(String, Thing)>) -> (r: Option<Schema>)
    ensures
        schema_option(r) == object_step(s@, t@, refs_model(refs@)),
    decreases refs@.len(), t, 1int,
{
    let ps = match t {
        Thing::Object(ps) => ps,
        _ => return None,
    };
    proof {
        lemma_object_view(*t);
    }
    let ghost sm = s@;
    let Schema { schema_type, title, description, default, any_of, one_of, enum_values } = s;
    let (props, additional, lo, hi) = match schema_type {
        SchemaType::Object { properties, additional_properties, min_properties, max_properties } => (
            properties,
            additional_properties,
            min_properties,
            max_properties,
        ),
        SchemaType::Any => (Vec::new(), Vec::new(), None, None),
        _ => return None,
    };
    proof {
        match sm.ty {
            TypeModel::Object { properties, additional_properties, .. } => {
                assert(properties_model(props@) =~= properties);
                assert(schemas_model(additional@) =~= additional_properties);
            },
            _ => {
                assert(properties_model(props@) =~= Seq::<PropertyModel>::empty());
                assert(schemas_model(additional@) =~= Seq::<SchemaModel>::empty());
            },
        }
    }
    let a = match number_field_of(ps, "minProperties") {
        Some(a) => a,
        None => return None,
    };
    let b = match number_field_of(ps, "maxProperties") {
        Some(b) => b,
        None => return None,
    };
    let x = field_index(ps, "additionalProperties");
    let additional2 = if x < ps.len() {
        match parse_of(&ps[x].1.item, refs) {
            Some(y) => {
                let mut additional = additional;
                let ghost before = schemas_model(additional@);
                let ghost ym = y@;
                additional.push(y);
                assert(schemas_model(additional@) =~= before.push(ym));
                additional
            },
            None => return None,
        }
    } else {
        additional
    };
    let p = field_index(ps, "properties");
    let props2 = if p < ps.len() {
        let req = match required_of(ps) {
            Some(r) => r,
            None => return None,
        };
        match &ps[p].1.item {
            Thing::Object(raw) => {
                proof {
                    lemma_object_view(ps@[p as int].1.item);
                }
                let order = index_order_of(raw);
                match merge_props_of(props, &ps[p].1.item, &order, &req, refs) {
                    Some(v) => v,
                    None => return None,
                }
            },
            _ => return None,
        }
    } else {
        props
    };
    let props3 = match not_rules_of(props2, ps) {
        Some(v) => v,
        None => return None,
    };
    let r = Schema {
        schema_type: SchemaType::Object {
            properties: props3,
            additional_properties: additional2,
            min_properties: if lo.is_some() { lo } else { a },
            max_properties: if hi.is_some() { hi } else { b },
        },
        title,
        description,
        default,
        any_of,
        one_of,
        enum_values,
    };
    proof {
        assert(r@.any_of =~= sm.any_of);
        assert(r@.one_of =~= sm.one_of);
        match r@.ty {
            TypeModel::Object { properties, additional_properties, .. } => {
                assert(properties =~= properties_model(props3@));
                assert(additional_properties =~= schemas_model(additional2@));
            },
            _ => {},
        }
    }
    Some(r)
}

fn merge_props_of(
    props: Vec<Property>,
    holder: &Thing,
    order: &Vec<usize>,
    required: &Vec<String>,
    refs: &Vec<(String, Thing)>,
) -> (r: Option<Vec<Property>>)
    requires
        holder is Object,
        forall|k: int| 0 <= k < order@.len() ==> #[trigger] order@[k] < object_props(holder@).len(),
    ensures
        match r {
            None => merge_props(
                properties_model(props@),
                object_props(holder@),
                ints_model(order@),
                0,
                texts_model(required@),
                refs_model(refs@),
                holder@,
            ) is None,
            Some(v) => merge_props(
                properties_model(props@),
                object_props(holder@),
                ints_model(order@),
                0,
                texts_model(required@),
                refs_model(refs@),
                holder@,
            ) == Some(properties_model(v@)),
        },
    decreases refs@.len(), holder, 0int,
{
    let raw = match holder {
        Thing::Object(raw) => raw,
        _ => return None,
    };
    proof {
        lemma_object_view(*holder);
    }
    let ghost rm = props_model(raw@);
    let ghost om = ints_model(order@);
    let ghost goal = merge_props(properties_model(props@), rm, om, 0, texts_model(required@), refs_model(refs@), holder@);
    let mut cur = props;
    let mut k: usize = 0;
    while k < order.len()
        invariant
            k <= order@.len(),
            rm == props_model(raw@),
            om == ints_model(order@),
            holder@ == ThingModel::Object(rm),
            *holder == Thing::Object(*raw),
            forall|j: int| 0 <= j < order@.len() ==> #[trigger] order@[j] < raw@.len(),
            goal == merge_props(properties_model(cur@), rm, om, k as int, texts_model(required@), refs_model(refs@), holder@),
            goal == merge_props(
                properties_model(props@),
                object_props(holder@),
                ints_model(order@),
                0,
                texts_model(required@),
                refs_model(refs@),
                holder@,
            ),
        decreases order@.len() - k,
    {
        let pos = order[k];
        assert(om[k as int] == pos as int);
        assert(rm[pos as int].1 == raw@[pos as int].1.item@);
        let x = match parse_of(&raw[pos].1.item, refs) {
            Some(x) => x,
            None => return None,
        };
        let name = raw[pos].0.clone();
        let req = contains_text(required, name.as_str());
        let prop = Property { name, required: req, schema: x, incompatible_with: Vec::new() };
        let ghost pmod = property_model(prop);
        assert(texts_model(prop.incompatible_with@) =~= Seq::<Seq<char>>::empty());
        let ghost before = properties_model(cur@);
        let i = prop_index_of(&cur, raw[pos].0.as_str());
        if i < cur.len() {
            let any = match &cur[i].schema.schema_type {
                SchemaType::Any => true,
                _ => false,
            };
            if any {
                cur.set(i, prop);
                assert(properties_model(cur@) =~= before.update(i as int, pmod));
            }
        } else {
            cur.push(prop);
            assert(properties_model(cur@) =~= before.push(pmod));
        }
        k += 1;
    }
    Some(cur)
}

} // verus!
