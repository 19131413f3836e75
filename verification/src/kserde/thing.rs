use vstd::prelude::*;

use crate::kserde::json_deserialize::{
    decode_string, digits_end, is_digit, is_white_space, number_at, number_stop, same_text, skip_ws, string_at, string_stop,
    AnyValue,
    Deserialize, JSONDeserializer, JsonNumber, RECURSIVE_LIMIT,
};
use crate::kserde::json_serialize::{
    bool_text, joined, lemma_terminated_joined, spaces, terminated, without_comma,
    JSONSerializer,
};

verus! {

/// A number's parts as they were read: its sign, the digits before and
/// after the point, the exponent's sign and its digits.
pub struct NumberParts {
    pub negative: bool,
    pub integer: Seq<char>,
    pub fraction: Seq<char>,
    pub exponent_negative: bool,
    pub exponent: Seq<char>,
}

pub open spec fn number_parts(m: (bool, Seq<char>, Seq<char>, bool, Seq<char>)) -> NumberParts {
    NumberParts {
        negative: m.0,
        integer: m.1,
        fraction: m.2,
        exponent_negative: m.3,
        exponent: m.4,
    }
}

/// A property of an object: its value, and how many properties the object
/// held when it was read.
#[derive(Debug)]
pub struct ObjectProperty {
    pub item: Thing,
    pub index: usize,
}

/// A JSON value of any kind. An object keeps its properties in the order
/// they were first read, each name once.
#[derive(Debug)]
pub enum Thing {
    String(String),
    Bool(bool),
    Number(JsonNumber),
    Object(Vec<(String, ObjectProperty)>),
    Array(Vec<Thing>),
    Null,
}

pub enum ThingModel {
    String(Seq<char>),
    Bool(bool),
    Number(NumberParts),
    Object(Seq<(Seq<char>, ThingModel, int)>),
    Array(Seq<ThingModel>),
    Null,
}

pub open spec fn thing_model(t: Thing) -> ThingModel
    decreases t,
{
    match t {
        Thing::String(s) => ThingModel::String(s@),
        Thing::Bool(b) => ThingModel::Bool(b),
        Thing::Number(n) => ThingModel::Number(number_parts(n.model())),
        Thing::Object(v) => ThingModel::Object(
            Seq::new(
                v@.len(),
                |i: int|
                    if 0 <= i < v@.len() {
                        (v@[i].0@, thing_model(v@[i].1.item), v@[i].1.index as int)
                    } else {
                        (Seq::empty(), ThingModel::Null, 0int)
                    },
            ),
        ),
        Thing::Array(v) => ThingModel::Array(
            Seq::new(
                v@.len(),
                |i: int| if 0 <= i < v@.len() { thing_model(v@[i]) } else { ThingModel::Null },
            ),
        ),
        Thing::Null => ThingModel::Null,
    }
}

impl View for Thing {
    type V = ThingModel;

    open spec fn view(&self) -> ThingModel {
        thing_model(*self)
    }
}

/// What `any` reads, without the values' own types.
pub enum AnyModel {
    String(Seq<char>),
    Bool(bool),
    Number(NumberParts),
    Object,
    Array,
    Null,
}

/// What `any` reads at `p0` at nesting depth `d`, where it stops and the
/// depth after it.
pub open spec fn any_step(src: Seq<char>, p0: int, d: int) -> (Option<AnyModel>, int, int) {
    let p = skip_ws(src, p0);
    if p >= src.len() {
        (None, p, d)
    } else if src[p] == '{' || src[p] == '[' {
        if d >= RECURSIVE_LIMIT {
            (None, p + 1, d)
        } else {
            (Some(if src[p] == '{' { AnyModel::Object } else { AnyModel::Array }), p + 1, d + 1)
        }
    } else if src[p] == '"' {
        match string_at(src, p) {
            Some((t, k)) => (Some(AnyModel::String(t)), k, d),
            None => (None, string_stop(src, p), d),
        }
    } else if src[p] == 't' || src[p] == 'f' || src[p] == 'n' {
        let len = if src[p] == 'f' { 5int } else { 4int };
        if p + len <= src.len() {
            (
                Some(
                    if src[p] == 't' {
                        AnyModel::Bool(true)
                    } else if src[p] == 'f' {
                        AnyModel::Bool(false)
                    } else {
                        AnyModel::Null
                    },
                ),
                p + len,
                d,
            )
        } else {
            (None, src.len() as int, d)
        }
    } else if src[p] == '-' || is_digit(src[p]) {
        match number_at(src, p) {
            Some((n, a, b, e, x, k)) => (Some(AnyModel::Number(number_parts((n, a, b, e, x)))), k, d),
            None => (None, number_stop(src, p), d),
        }
    } else {
        (None, p, d)
    }
}

/// What `has_property` reads at `p0` at depth `d`: a property's name, or
/// none at the end of the object or where no property stands.
pub open spec fn property_step(src: Seq<char>, p0: int, d: int) -> (Option<Seq<char>>, int, int) {
    let p = skip_ws(src, p0);
    if p >= src.len() {
        (None, p, d)
    } else if src[p] == '}' {
        if d == 0 {
            (None, p, d)
        } else {
            (None, p + 1, d - 1)
        }
    } else {
        let q = skip_ws(src, if src[p] == ',' { p + 1 } else { p });
        match string_at(src, q) {
            None => (None, string_stop(src, q), d),
            Some((name, k)) => {
                let c = skip_ws(src, k);
                if c < src.len() && src[c] == ':' {
                    (Some(name), skip_ws(src, c + 1), d)
                } else {
                    (None, if c < src.len() { c + 1 } else { c }, d)
                }
            },
        }
    }
}

/// What `has_array_value` reads at `p0` at depth `d`: whether an item
/// follows.
pub open spec fn array_step(src: Seq<char>, p0: int, d: int) -> (bool, int, int) {
    let p = skip_ws(src, p0);
    if p < src.len() && src[p] == ',' {
        (true, p + 1, d)
    } else if p < src.len() && src[p] == ']' {
        if d == 0 {
            (false, p, d)
        } else {
            (false, p + 1, d - 1)
        }
    } else {
        (true, p, d)
    }
}

/// The index of the property named `name`, or the number of properties
/// where there is none.
pub open spec fn name_index(props: Seq<(Seq<char>, ThingModel, int)>, name: Seq<char>, i: int) -> int
    decreases props.len() - i,
{
    if i < 0 || i >= props.len() {
        props.len() as int
    } else if props[i].0 == name {
        i
    } else {
        name_index(props, name, i + 1)
    }
}

/// The properties after a property is read: a new name goes last; a name
/// read before keeps its place and takes the new value. Either way the index
/// is the number of properties before.
pub open spec fn insert_property(
    props: Seq<(Seq<char>, ThingModel, int)>,
    name: Seq<char>,
    item: ThingModel,
) -> Seq<(Seq<char>, ThingModel, int)> {
    let k = name_index(props, name, 0);
    if k < props.len() {
        props.update(k, (name, item, props.len() as int))
    } else {
        props.push((name, item, props.len() as int))
    }
}

/// The value that `Thing`'s `deserialize` reads at `p` at depth `d`, where
/// it stops and the depth after it.
pub open spec fn thing_at(src: Seq<char>, p: int, d: int) -> (Option<ThingModel>, int, int)
    decreases src.len() - p, 0int,
{
    let (a, p1, d1) = any_step(src, p, d);
    match a {
        None => (None, p1, d1),
        Some(AnyModel::Object) => {
            if p < p1 <= src.len() {
                object_from(src, p1, d1, Seq::empty())
            } else {
                (None, p1, d1)
            }
        },
        Some(AnyModel::Array) => {
            if p < p1 <= src.len() {
                array_from(src, p1, d1, Seq::empty())
            } else {
                (None, p1, d1)
            }
        },
        Some(AnyModel::String(s)) => (Some(ThingModel::String(s)), p1, d1),
        Some(AnyModel::Bool(b)) => (Some(ThingModel::Bool(b)), p1, d1),
        Some(AnyModel::Number(n)) => (Some(ThingModel::Number(n)), p1, d1),
        Some(AnyModel::Null) => (Some(ThingModel::Null), p1, d1),
    }
}

/// The properties of an object from `p` on, after the properties `acc`.
/// The object ends where no property is read.
pub open spec fn object_from(
    src: Seq<char>,
    p: int,
    d: int,
    acc: Seq<(Seq<char>, ThingModel, int)>,
) -> (Option<ThingModel>, int, int)
    decreases src.len() - p, 1int,
{
    let (name, p2, d2) = property_step(src, p, d);
    match name {
        None => (Some(ThingModel::Object(acc)), p2, d2),
        Some(n) => {
            if p <= p2 <= src.len() {
                let (v, p3, d3) = thing_at(src, p2, d2);
                match v {
                    None => (None, p3, d3),
                    Some(t) => {
                        if p < p3 <= src.len() {
                            object_from(src, p3, d3, insert_property(acc, n, t))
                        } else {
                            (None, p3, d3)
                        }
                    },
                }
            } else {
                (None, p2, d2)
            }
        },
    }
}

/// The items of an array from `p` on, after the items `acc`.
pub open spec fn array_from(src: Seq<char>, p: int, d: int, acc: Seq<ThingModel>) -> (Option<
    ThingModel,
>, int, int)
    decreases src.len() - p, 1int,
{
    let (more, p2, d2) = array_step(src, p, d);
    if !more {
        (Some(ThingModel::Array(acc)), p2, d2)
    } else if p <= p2 <= src.len() {
        let (v, p3, d3) = thing_at(src, p2, d2);
        match v {
            None => (None, p3, d3),
            Some(t) => {
                if p < p3 <= src.len() {
                    array_from(src, p3, d3, acc.push(t))
                } else {
                    (None, p3, d3)
                }
            },
        }
    } else {
        (None, p2, d2)
    }
}


/// What `any` gives back, without the values' own types.
pub open spec fn any_value_model(r: Option<AnyValue>) -> Option<AnyModel> {
    match r {
        None => None,
        Some(AnyValue::String(s)) => Some(AnyModel::String(s@)),
        Some(AnyValue::Bool(b)) => Some(AnyModel::Bool(b)),
        Some(AnyValue::Number(n)) => Some(AnyModel::Number(number_parts(n.model()))),
        Some(AnyValue::Object) => Some(AnyModel::Object),
        Some(AnyValue::Array) => Some(AnyModel::Array),
        Some(AnyValue::Null) => Some(AnyModel::Null),
    }
}

/// The properties of an object, by name, value and index.
pub open spec fn props_model(v: Seq<(String, ObjectProperty)>) -> Seq<(Seq<char>, ThingModel, int)> {
    Seq::new(v.len(), |i: int| (v[i].0@, v[i].1.item@, v[i].1.index as int))
}

pub open spec fn items_model(v: Seq<Thing>) -> Seq<ThingModel> {
    Seq::new(v.len(), |i: int| v[i]@)
}

pub open spec fn thing_option_model(r: Option<Thing>) -> Option<ThingModel> {
    match r {
        Some(t) => Some(t@),
        None => None,
    }
}

fn read_any(d: &mut JSONDeserializer) -> (r: Option<AnyValue>)
    requires
        old(d).wf(),
    ensures
        final(d).wf(),
        final(d).source() == old(d).source(),
        (any_value_model(r), final(d).position(), final(d).depth()) == any_step(
            old(d).source(),
            old(d).position(),
            old(d).depth(),
        ),
        old(d).position() <= final(d).position(),
        r is Some ==> old(d).position() < final(d).position(),
{
    d.any()
}

pub(crate) fn read_property(d: &mut JSONDeserializer) -> (r: Option<String>)
    requires
        old(d).wf(),
    ensures
        final(d).wf(),
        final(d).source() == old(d).source(),
        (
            match r {
                Some(s) => Some(s@),
                None => None,
            },
            final(d).position(),
            final(d).depth(),
        ) == property_step(old(d).source(), old(d).position(), old(d).depth()),
        old(d).position() <= final(d).position(),
{
    proof {
        d.lemma_in_bounds();
    }
    d.has_property()
}

pub(crate) fn read_array_value(d: &mut JSONDeserializer) -> (r: bool)
    requires
        old(d).wf(),
    ensures
        final(d).wf(),
        final(d).source() == old(d).source(),
        (r, final(d).position(), final(d).depth()) == array_step(
            old(d).source(),
            old(d).position(),
            old(d).depth(),
        ),
        old(d).position() <= final(d).position(),
{
    d.has_array_value()
}

/// Puts a property in place: a new name goes last, a name read before takes
/// the new value where it stands.
fn insert_item(items: &mut Vec<(String, ObjectProperty)>, name: String, item: Thing)
    requires
        old(items)@.len() < usize::MAX,
    ensures
        props_model(final(items)@) == insert_property(props_model(old(items)@), name@, item@),
        final(items)@.len() <= old(items)@.len() + 1,
{
    let ghost m = props_model(items@);
    let index = items.len();
    let mut k: usize = 0;
    while k < items.len()
        invariant
            k <= items@.len(),
            items@ == old(items)@,
            index == items@.len(),
            m == props_model(items@),
            name_index(m, name@, 0) == name_index(m, name@, k as int),
        decreases items@.len() - k,
    {
        if same_text(items[k].0.as_str(), name.as_str()) {
            let property = ObjectProperty { item, index };
            let ghost entry = (name, property);
            items.set(k, (name, property));
            assert(props_model(items@) =~= insert_property(m, entry.0@, entry.1.item@));
            return ;
        }
        k += 1;
    }
    let property = ObjectProperty { item, index };
    let ghost entry = (name, property);
    items.push((name, property));
    assert(props_model(items@) =~= insert_property(m, entry.0@, entry.1.item@));
}

/// Reads a value of any kind.
fn read_thing(d: &mut JSONDeserializer) -> (r: Option<Thing>)
    requires
        old(d).wf(),
    ensures
        final(d).wf(),
        final(d).source() == old(d).source(),
        (thing_option_model(r), final(d).position(), final(d).depth()) == thing_at(
            old(d).source(),
            old(d).position(),
            old(d).depth(),
        ),
        old(d).position() <= final(d).position(),
        r is Some ==> old(d).position() < final(d).position(),
    decreases old(d).source().len() - old(d).position(), 0int,
{
    proof {
        d.lemma_in_bounds();
    }
    let a = match read_any(d) {
        Some(a) => a,
        None => return None,
    };
    match a {
        AnyValue::Object => read_object(d),
        AnyValue::Array => read_array(d),
        AnyValue::String(s) => Some(Thing::String(s)),
        AnyValue::Bool(b) => Some(Thing::Bool(b)),
        AnyValue::Number(n) => Some(Thing::Number(n)),
        AnyValue::Null => Some(Thing::Null),
    }
}

/// Reads the properties of an object whose opening brace has been read.
fn read_object(d: &mut JSONDeserializer) -> (r: Option<Thing>)
    requires
        old(d).wf(),
    ensures
        final(d).wf(),
        final(d).source() == old(d).source(),
        (thing_option_model(r), final(d).position(), final(d).depth()) == object_from(
            old(d).source(),
            old(d).position(),
            old(d).depth(),
            Seq::empty(),
        ),
        old(d).position() <= final(d).position(),
    decreases old(d).source().len() - old(d).position(), 1int,
{
    let ghost src = d.source();
    let ghost p0 = d.position();
    let ghost d0 = d.depth();
    let mut items: Vec<(String, ObjectProperty)> = Vec::new();
    proof {
        assert(props_model(items@) =~= Seq::empty());
        d.lemma_in_bounds();
    }
    loop
        invariant
            d.wf(),
            d.source() == src,
            src == old(d).source(),
            p0 == old(d).position(),
            d0 == old(d).depth(),
            0 <= p0 <= d.position(),
            items@.len() <= d.position() - p0,
            object_from(src, d.position(), d.depth(), props_model(items@)) == object_from(
                src,
                p0,
                d0,
                Seq::empty(),
            ),
        decreases src.len() - d.position(),
    {
        let ghost pos0 = d.position();
        let name = match read_property(d) {
            Some(name) => name,
            None => {
                let t = Thing::Object(items);
                proof {
                    assert(t@ == ThingModel::Object(props_model(items@))) by {
                        assert(props_model(items@) =~= match t@ {
                            ThingModel::Object(ps) => ps,
                            _ => Seq::empty(),
                        });
                    }
                }
                return Some(t);
            },
        };
        proof {
            d.lemma_in_bounds();
        }
        let item = match read_thing(d) {
            Some(item) => item,
            None => return None,
        };
        proof {
            d.lemma_in_bounds();
        }
        insert_item(&mut items, name, item);
    }
}

/// Reads the items of an array whose opening bracket has been read.
fn read_array(d: &mut JSONDeserializer) -> (r: Option<Thing>)
    requires
        old(d).wf(),
    ensures
        final(d).wf(),
        final(d).source() == old(d).source(),
        (thing_option_model(r), final(d).position(), final(d).depth()) == array_from(
            old(d).source(),
            old(d).position(),
            old(d).depth(),
            Seq::empty(),
        ),
        old(d).position() <= final(d).position(),
    decreases old(d).source().len() - old(d).position(), 1int,
{
    let ghost src = d.source();
    let ghost p0 = d.position();
    let ghost d0 = d.depth();
    let mut items: Vec<Thing> = Vec::new();
    proof {
        assert(Seq::new(items@.len(), |i: int| items@[i]@) =~= Seq::<ThingModel>::empty());
    }
    loop
        invariant
            d.wf(),
            d.source() == src,
            src == old(d).source(),
            p0 == old(d).position(),
            d0 == old(d).depth(),
            p0 <= d.position(),
            array_from(src, d.position(), d.depth(), Seq::new(items@.len(), |i: int| items@[i]@))
                == array_from(src, p0, d0, Seq::empty()),
        decreases src.len() - d.position(),
    {
        if !read_array_value(d) {
            let ghost m = Seq::new(items@.len(), |i: int| items@[i]@);
            let t = Thing::Array(items);
            proof {
                assert(m =~= match t@ {
                    ThingModel::Array(s) => s,
                    _ => Seq::empty(),
                });
            }
            return Some(t);
        }
        proof {
            d.lemma_in_bounds();
        }
        let item = match read_thing(d) {
            Some(item) => item,
            None => return None,
        };
        proof {
            d.lemma_in_bounds();
            assert(Seq::new(items@.len() + 1, |i: int| items@.push(item)[i]@) =~= Seq::new(
                items@.len(),
                |i: int| items@[i]@,
            ).push(item@));
        }
        items.push(item);
    }
}

/// `Thing` owns its text already: the owned form is the same type.
pub type ThingOwned = Thing;

/// The owned form of a property.
pub type ObjectPropertyOwned = ObjectProperty;

/// A copy of the characters.
fn copy_chars(v: &Vec<char>) -> (r: Vec<char>)
    ensures
        r@ == v@,
{
    let r = v.clone();
    assert(r@ =~= v@);
    r
}

/// A copy of a number.
pub(crate) fn copy_number(n: &JsonNumber) -> (r: JsonNumber)
    ensures
        r.model() == n.model(),
{
    JsonNumber {
        negative: n.negative,
        integer_digits: copy_chars(&n.integer_digits),
        fraction_digits: copy_chars(&n.fraction_digits),
        exponent_negative: n.exponent_negative,
        exponent_digits: copy_chars(&n.exponent_digits),
    }
}

/// Owned copies of the properties.
fn copy_properties(h: &Vec<(String, ObjectProperty)>) -> (r: Vec<(String, ObjectPropertyOwned)>)
    ensures
        props_model(r@) == props_model(h@),
    decreases h,
{
    let mut new_items: Vec<(String, ObjectPropertyOwned)> = Vec::new();
    let mut i: usize = 0;
    while i < h.len()
        invariant
            i <= h@.len(),
            new_items@.len() == i,
            forall|k: int|
                0 <= k < i ==> (#[trigger] new_items@[k]).0@ == h@[k].0@ && new_items@[k].1.item@
                    == h@[k].1.item@ && new_items@[k].1.index == h@[k].1.index,
        decreases h@.len() - i,
    {
        let (k, v) = &h[i];
        let property = ObjectPropertyOwned { item: v.item.to_owned(), index: v.index };
        new_items.push((k.clone(), property));
        i += 1;
    }
    assert(props_model(new_items@) =~= props_model(h@));
    new_items
}

/// Owned copies of the items.
fn copy_items(a: &Vec<Thing>) -> (r: Vec<Thing>)
    ensures
        r@.len() == a@.len(),
        forall|k: int| 0 <= k < a@.len() ==> #[trigger] r@[k]@ == a@[k]@,
    decreases a,
{
    let mut new_items: Vec<Thing> = Vec::new();
    let mut i: usize = 0;
    while i < a.len()
        invariant
            i <= a@.len(),
            new_items@.len() == i,
            forall|k: int| 0 <= k < i ==> #[trigger] new_items@[k]@ == a@[k]@,
        decreases a@.len() - i,
    {
        new_items.push(a[i].to_owned());
        i += 1;
    }
    new_items
}

impl Thing {
    /// A copy of this value that owns all its text.
    pub fn to_owned(&self) -> (r: ThingOwned)
        ensures
            r@ == self@,
        decreases self,
    {
        match self {
            Thing::String(s) => Thing::String(s.clone()),
            Thing::Bool(b) => Thing::Bool(*b),
            Thing::Number(n) => Thing::Number(
                JsonNumber {
                    negative: n.negative,
                    integer_digits: copy_chars(&n.integer_digits),
                    fraction_digits: copy_chars(&n.fraction_digits),
                    exponent_negative: n.exponent_negative,
                    exponent_digits: copy_chars(&n.exponent_digits),
                },
            ),
            Thing::Object(h) => {
                let new_items = copy_properties(h);
                let r = Thing::Object(new_items);
                proof {
                    assert(match r@ {
                        ThingModel::Object(ps) => ps,
                        _ => Seq::empty(),
                    } =~= props_model(new_items@));
                    assert(match self@ {
                        ThingModel::Object(ps) => ps,
                        _ => Seq::empty(),
                    } =~= props_model(h@));
                }
                r
            },
            Thing::Array(a) => {
                let new_items = copy_items(a);
                let r = Thing::Array(new_items);
                proof {
                    assert(items_model(new_items@) =~= items_model(a@));
                    assert(match r@ {
                        ThingModel::Array(s) => s,
                        _ => Seq::empty(),
                    } =~= items_model(new_items@));
                    assert(match self@ {
                        ThingModel::Array(s) => s,
                        _ => Seq::empty(),
                    } =~= items_model(a@));
                }
                r
            },
            Thing::Null => Thing::Null,
        }
    }

    /// The text, if this is a string.
    pub fn string(&self) -> (r: Option<&String>)
        ensures
            match self {
                Thing::String(s) => r == Some(s),
                _ => r is None,
            },
    {
        match self {
            Thing::String(v) => Some(v),
            _ => None,
        }
    }

    /// The truth value, if this is a boolean.
    pub fn bool(&self) -> (r: Option<bool>)
        ensures
            match self {
                Thing::Bool(b) => r == Some(*b),
                _ => r is None,
            },
    {
        match self {
            Thing::Bool(v) => Some(*v),
            _ => None,
        }
    }

    /// The number, if this is one.
    pub fn number(&self) -> (r: Option<&JsonNumber>)
        ensures
            match self {
                Thing::Number(n) => r == Some(n),
                _ => r is None,
            },
    {
        match self {
            Thing::Number(v) => Some(v),
            _ => None,
        }
    }

    /// The properties, if this is an object.
    pub fn object(&self) -> (r: Option<&Vec<(String, ObjectProperty)>>)
        ensures
            match self {
                Thing::Object(h) => r == Some(h),
                _ => r is None,
            },
    {
        match self {
            Thing::Object(v) => Some(v),
            _ => None,
        }
    }

    /// The items, if this is an array.
    pub fn array(&self) -> (r: Option<&Vec<Thing>>)
        ensures
            match self {
                Thing::Array(a) => r == Some(a),
                _ => r is None,
            },
    {
        match self {
            Thing::Array(v) => Some(v),
            _ => None,
        }
    }

    /// Reads a value of any kind from the start of `s`.
    pub fn from_json(s: &str) -> (r: Option<Thing>)
        ensures
            thing_option_model(r) == thing_at(s@, 0, 0).0,
    {
        let mut deserializer = JSONDeserializer::new(s);
        read_thing(&mut deserializer)
    }
}

impl Deserialize for Thing {
    open spec fn read_end(src: Seq<char>, p: int, d: int) -> Option<(int, int)> {
        let (t, q, e) = thing_at(src, p, d);
        if t is Some {
            Some((q, e))
        } else {
            None
        }
    }

    fn deserialize(deserializer: &mut JSONDeserializer) -> (r: Option<Self>)
        ensures
            (thing_option_model(r), final(deserializer).position(), final(deserializer).depth())
                == thing_at(
                old(deserializer).source(),
                old(deserializer).position(),
                old(deserializer).depth(),
            ),
    {
        read_thing(deserializer)
    }
}

/// The text of a number as it was read: its sign, its whole digits, the
/// point and the digits after it where there are any, and the exponent
/// where there is one.
pub open spec fn number_text(p: NumberParts) -> Seq<char> {
    (if p.negative {
        seq!['-']
    } else {
        Seq::empty()
    }) + p.integer + (if p.fraction.len() > 0 {
        seq!['.'] + p.fraction
    } else {
        Seq::empty()
    }) + (if p.exponent.len() > 0 {
        seq!['e'] + (if p.exponent_negative {
            seq!['-']
        } else {
            Seq::empty()
        }) + p.exponent
    } else {
        Seq::empty()
    })
}

/// A property on a line of its own, indented by `indentation` spaces.
pub open spec fn property_text(name: Seq<char>, value: Seq<char>, indentation: int) -> Seq<char> {
    seq!['\n'] + spaces(indentation) + seq!['"'] + name + seq!['"', ':', ' '] + value
}

/// The texts of the properties of an object whose properties are indented
/// by `indentation` spaces.
pub open spec fn property_texts(props: Seq<(Seq<char>, ThingModel, int)>, indentation: int) -> Seq<
    Seq<char>,
>
    decreases props,
{
    Seq::new(
        props.len(),
        |i: int|
            if 0 <= i < props.len() {
                property_text(props[i].0, thing_text(props[i].1, indentation), indentation)
            } else {
                Seq::empty()
            },
    )
}

/// The texts of the items of an array.
pub open spec fn item_texts(items: Seq<ThingModel>, indentation: int) -> Seq<Seq<char>>
    decreases items,
{
    Seq::new(
        items.len(),
        |i: int| if 0 <= i < items.len() { thing_text(items[i], indentation) } else { Seq::empty() },
    )
}

/// The text that `serialize` writes for `m` where properties are indented
/// by `indentation` spaces: an object puts each property on a line of its
/// own, four spaces further in, and closes on a line of its own.
pub open spec fn thing_text(m: ThingModel, indentation: int) -> Seq<char>
    decreases m,
{
    match m {
        ThingModel::String(s) => seq!['"'] + s + seq!['"'],
        ThingModel::Bool(b) => if b {
            seq!['t', 'r', 'u', 'e']
        } else {
            seq!['f', 'a', 'l', 's', 'e']
        },
        ThingModel::Number(p) => number_text(p),
        ThingModel::Object(props) => seq!['{'] + joined(property_texts(props, indentation + 4))
            + seq!['\n'] + spaces(indentation) + seq!['}'],
        ThingModel::Array(items) => seq!['['] + joined(item_texts(items, indentation)) + seq![']'],
        ThingModel::Null => seq!['n', 'u', 'l', 'l'],
    }
}

/// Whether writing `m` with properties indented by `indentation` spaces
/// keeps every indentation within a `u16`.
pub open spec fn indentation_fits(m: ThingModel, indentation: int) -> bool
    decreases m,
{
    match m {
        ThingModel::Object(props) => indentation + 4 <= u16::MAX && forall|i: int|
            0 <= i < props.len() ==> indentation_fits(#[trigger] props[i].1, indentation + 4),
        ThingModel::Array(items) => forall|i: int|
            0 <= i < items.len() ==> indentation_fits(#[trigger] items[i], indentation),
        _ => true,
    }
}

fn push_number_chars(out: &mut Vec<char>, digits: &Vec<char>)
    ensures
        final(out)@ == old(out)@ + digits@,
{
    let mut i: usize = 0;
    while i < digits.len()
        invariant
            i <= digits@.len(),
            out@ == old(out)@ + digits@.take(i as int),
        decreases digits@.len() - i,
    {
        out.push(digits[i]);
        i += 1;
        assert(out@ =~= old(out)@ + digits@.take(i as int));
    }
    assert(digits@.take(digits@.len() as int) =~= digits@);
}

/// The characters of a number as it was read.
pub(crate) fn number_chars(n: &JsonNumber) -> (r: Vec<char>)
    ensures
        r@ == number_text(number_parts(n.model())),
{
    let mut r: Vec<char> = Vec::new();
    if n.negative {
        r.push('-');
    }
    push_number_chars(&mut r, &n.integer_digits);
    if n.fraction_digits.len() > 0 {
        r.push('.');
        push_number_chars(&mut r, &n.fraction_digits);
    }
    if n.exponent_digits.len() > 0 {
        r.push('e');
        if n.exponent_negative {
            r.push('-');
        }
        push_number_chars(&mut r, &n.exponent_digits);
    }
    assert(r@ =~= number_text(number_parts(n.model())));
    r
}

fn serialize_properties(
    o: &Vec<(String, ObjectProperty)>,
    serializer: &mut JSONSerializer,
    Ghost(props): Ghost<Seq<(Seq<char>, ThingModel, int)>>,
)
    requires
        props.len() == o@.len(),
        forall|k: int|
            0 <= k < o@.len() ==> (#[trigger] props[k]).0 == o@[k].0@ && props[k].1 == o@[k].1.item@,
        forall|k: int|
            0 <= k < props.len() ==> indentation_fits(
                #[trigger] props[k].1,
                old(serializer).indentation(),
            ),
        !old(serializer).added_comma(),
    ensures
        final(serializer).text() == old(serializer).text() + terminated(
            property_texts(props, old(serializer).indentation()),
        ),
        final(serializer).indentation() == old(serializer).indentation(),
        final(serializer).added_comma() == (o@.len() > 0),
    decreases o,
{
    let ghost ind = serializer.indentation();
    let ghost start = serializer.text();
    let ghost texts = property_texts(props, ind);
    let mut i: usize = 0;
    while i < o.len()
        invariant
            i <= o@.len(),
            props.len() == o@.len(),
            forall|k: int|
                0 <= k < o@.len() ==> (#[trigger] props[k]).0 == o@[k].0@ && props[k].1
                    == o@[k].1.item@,
            forall|k: int| 0 <= k < props.len() ==> indentation_fits(#[trigger] props[k].1, ind),
            texts == property_texts(props, ind),
            serializer.indentation() == ind,
            serializer.text() == start + terminated(texts.take(i as int)),
            serializer.added_comma() == (i > 0),
        decreases o@.len() - i,
    {
        let entry = &o[i];
        assert(props[i as int].0 == entry.0@);
        assert(indentation_fits(props[i as int].1, ind));
        serializer.property_name(entry.0.as_str());
        entry.1.item.serialize(serializer);
        serializer.end_value();
        proof {
            assert(texts.take(i + 1).drop_last() =~= texts.take(i as int));
            assert(texts.take(i + 1).last() == texts[i as int]);
        }
        i += 1;
        proof {
            assert(serializer.text() =~= start + terminated(texts.take(i as int)));
        }
    }
    assert(texts.take(o@.len() as int) =~= texts);
}

fn serialize_items(a: &Vec<Thing>, serializer: &mut JSONSerializer)
    requires
        forall|k: int|
            0 <= k < a@.len() ==> indentation_fits(#[trigger] a@[k]@, old(serializer).indentation()),
        !old(serializer).added_comma(),
    ensures
        final(serializer).text() == old(serializer).text() + terminated(
            item_texts(Seq::new(a@.len(), |k: int| a@[k]@), old(serializer).indentation()),
        ),
        final(serializer).indentation() == old(serializer).indentation(),
        final(serializer).added_comma() == (a@.len() > 0),
    decreases a,
{
    let ghost ind = serializer.indentation();
    let ghost start = serializer.text();
    let ghost texts = item_texts(Seq::new(a@.len(), |k: int| a@[k]@), ind);
    let mut i: usize = 0;
    while i < a.len()
        invariant
            i <= a@.len(),
            forall|k: int| 0 <= k < a@.len() ==> indentation_fits(#[trigger] a@[k]@, ind),
            texts == item_texts(Seq::new(a@.len(), |k: int| a@[k]@), ind),
            serializer.indentation() == ind,
            serializer.text() == start + terminated(texts.take(i as int)),
            serializer.added_comma() == (i > 0),
        decreases a@.len() - i,
    {
        assert(indentation_fits(a@[i as int]@, ind));
        a[i].serialize(serializer);
        serializer.end_value();
        proof {
            assert(texts.take(i + 1).drop_last() =~= texts.take(i as int));
            assert(texts.take(i + 1).last() == texts[i as int]);
        }
        i += 1;
        proof {
            assert(serializer.text() =~= start + terminated(texts.take(i as int)));
        }
    }
    assert(texts.take(a@.len() as int) =~= texts);
}

proof fn lemma_closed_list(start: Seq<char>, open: char, texts: Seq<Seq<char>>, added_comma: bool)
    requires
        added_comma == (texts.len() > 0),
    ensures
        without_comma(start + seq![open] + terminated(texts), added_comma) == start + seq![open]
            + joined(texts),
{
    if texts.len() > 0 {
        lemma_terminated_joined(texts);
        let full = start + seq![open] + terminated(texts);
        assert(full.take(full.len() - 2) =~= start + seq![open] + joined(texts));
    } else {
        assert(joined(texts) == Seq::<char>::empty());
        assert(terminated(texts) == Seq::<char>::empty());
        assert(start + seq![open] + terminated(texts) =~= start + seq![open] + joined(texts));
    }
}

impl Thing {
    /// Writes this value as JSON text. A number is written as it was read,
    /// with its digits unchanged; an object writes its properties in the
    /// order they were first read.
    pub fn serialize(&self, serializer: &mut JSONSerializer)
        requires
            indentation_fits(self@, old(serializer).indentation()),
        ensures
            final(serializer).text() == old(serializer).text() + thing_text(
                self@,
                old(serializer).indentation(),
            ),
            final(serializer).indentation() == old(serializer).indentation(),
        decreases self,
    {
        let ghost ind = serializer.indentation();
        let ghost start = serializer.text();
        proof {
            serializer.lemma_indentation_bounds();
        }
        match self {
            Thing::String(s) => {
                serializer.string(s.as_str());
                assert(serializer.text() =~= start + thing_text(self@, ind));
            },
            Thing::Bool(b) => serializer.bool(*b),
            Thing::Number(n) => {
                let chars = number_chars(n);
                serializer.push_all(&chars);
            },
            Thing::Null => serializer.null(),
            Thing::Object(o) => {
                let ghost props = match self@ {
                    ThingModel::Object(ps) => ps,
                    _ => Seq::empty(),
                };
                serializer.begin_object();
                serialize_properties(o, serializer, Ghost(props));
                proof {
                    lemma_closed_list(start, '{', property_texts(props, ind + 4), serializer.added_comma());
                }
                serializer.end_object();
                assert(serializer.text() =~= start + thing_text(self@, ind));
            },
            Thing::Array(a) => {
                let ghost items = match self@ {
                    ThingModel::Array(s) => s,
                    _ => Seq::empty(),
                };
                assert(items =~= Seq::new(a@.len(), |k: int| a@[k]@));
                assert forall|k: int| 0 <= k < a@.len() implies indentation_fits(#[trigger] a@[k]@, ind) by {
                    assert(items[k] == a@[k]@);
                }
                serializer.begin_array();
                serialize_items(a, serializer);
                proof {
                    lemma_closed_list(start, '[', item_texts(items, ind), serializer.added_comma());
                }
                serializer.end_array();
                assert(serializer.text() =~= start + thing_text(self@, ind));
            },
        }
    }
}

/// A string with no quote and no backslash in it, a boolean, null and a
/// number written as it is read (`canonical_number`) each read back, from
/// the text that `serialize` writes for them, as themselves.
pub proof fn lemma_scalar_round_trip(m: ThingModel)
    requires
        plain_scalar(m),
    ensures
        thing_at(thing_text(m, 0), 0, 0) == (Some(m), thing_text(m, 0).len() as int, 0int),
{
    let src = thing_text(m, 0);
    lemma_scalar_starts(m);
    assert(src.subrange(0, src.len() as int) =~= src);
    assert(skip_ws(src, 0) == 0);
    lemma_scalar_at(src, 0, 0, m, 0);
}

/// Whether `m` is a string with no quote and no backslash in it, a
/// boolean, null, or a number written as it is read.
pub open spec fn plain_scalar(m: ThingModel) -> bool {
    match m {
        ThingModel::String(t) => forall|j: int| 0 <= j < t.len() ==> #[trigger] t[j] != '"' && t[j] != '\\',
        ThingModel::Bool(_) => true,
        ThingModel::Null => true,
        ThingModel::Number(n) => canonical_number(n),
        _ => false,
    }
}

/// The text of a plain scalar is not empty and starts with no white space.
proof fn lemma_scalar_starts(m: ThingModel)
    requires
        plain_scalar(m),
    ensures
        thing_text(m, 0).len() > 0,
        !is_white_space(thing_text(m, 0)[0]),
        thing_text(m, 0)[0] != '{' && thing_text(m, 0)[0] != '[',
{
    match m {
        ThingModel::Number(n) => {
            let t = number_text(n);
            if n.negative {
                assert(t[0] == '-');
            } else {
                assert(t[0] == n.integer[0]);
                assert(is_digit(n.integer[0]));
            }
        },
        _ => {},
    }
}

proof fn lemma_decode_plain_in(src: Seq<char>, q: int, t: Seq<char>, i: int)
    requires
        0 <= q,
        q + t.len() + 2 <= src.len(),
        src.subrange(q, q + t.len() + 2) == seq!['"'] + t + seq!['"'],
        forall|j: int| 0 <= j < t.len() ==> #[trigger] t[j] != '"' && t[j] != '\\',
        q + 1 <= i <= q + t.len() + 1,
    ensures
        decode_string(src, i) == Some((t.subrange(i - q - 1, t.len() as int), q + t.len() + 2)),
    decreases q + t.len() + 1 - i,
{
    let w = seq!['"'] + t + seq!['"'];
    assert(src[i] == w[i - q]);
    if i == q + t.len() + 1 {
        assert(t.subrange(i - q - 1, t.len() as int) =~= Seq::<char>::empty());
    } else {
        lemma_decode_plain_in(src, q, t, i + 1);
        assert(w[i - q] == t[i - q - 1]);
        assert(seq![t[i - q - 1]] + t.subrange(i - q, t.len() as int) =~= t.subrange(i - q - 1, t.len() as int));
    }
}

/// A plain scalar whose text stands at `q`, after white space from `p`,
/// reads as itself.
proof fn lemma_scalar_at(src: Seq<char>, p: int, q: int, m: ThingModel, d: int)
    requires
        plain_scalar(m),
        0 <= p <= q,
        q + thing_text(m, 0).len() <= src.len(),
        src.subrange(q, q + thing_text(m, 0).len()) == thing_text(m, 0),
        q + thing_text(m, 0).len() == src.len() || src[q + thing_text(m, 0).len()] == ','
            || src[q + thing_text(m, 0).len()] == ']' || src[q + thing_text(m, 0).len()] == '\n',
        skip_ws(src, p) == q,
    ensures
        thing_at(src, p, d) == (Some(m), q + thing_text(m, 0).len(), d),
{
    let w = thing_text(m, 0);
    lemma_scalar_starts(m);
    assert(src[q] == w[0]);
    match m {
        ThingModel::Number(n) => {
            lemma_number_at(src, q, n);
            if n.negative {
                assert(w[0] == '-');
            } else {
                assert(w[0] == n.integer[0]);
            }
        },
        ThingModel::String(t) => {
            lemma_decode_plain_in(src, q, t, q + 1);
            assert(t.subrange(0, t.len() as int) =~= t);
        },
        _ => {},
    }
}

/// The items from `k` on, each after `, `.
pub open spec fn rest_text(texts: Seq<Seq<char>>, k: int) -> Seq<char>
    decreases texts.len() - k,
{
    if k < 0 || k >= texts.len() {
        Seq::empty()
    } else {
        seq![',', ' '] + texts[k] + rest_text(texts, k + 1)
    }
}

proof fn lemma_joined_split(texts: Seq<Seq<char>>, k: int)
    requires
        1 <= k <= texts.len(),
    ensures
        joined(texts) == joined(texts.take(k)) + rest_text(texts, k),
    decreases texts.len() - k,
{
    if k == texts.len() {
        assert(texts.take(k) =~= texts);
        assert(joined(texts) + rest_text(texts, k) =~= joined(texts));
    } else {
        lemma_joined_split(texts, k + 1);
        assert(texts.take(k + 1).drop_last() =~= texts.take(k));
        assert(texts.take(k + 1).last() == texts[k]);
        assert(joined(texts.take(k)) + rest_text(texts, k) =~= joined(texts.take(k)) + seq![',', ' ']
            + texts[k] + rest_text(texts, k + 1));
    }
}

/// Where the items after the first `k` start in an array's text.
pub open spec fn items_end(texts: Seq<Seq<char>>, k: int) -> int {
    if k == 0 {
        1
    } else {
        1 + joined(texts.take(k)).len() as int
    }
}

#[verifier::spinoff_prover]
#[verifier::rlimit(60)]
proof fn lemma_array_items(items: Seq<ThingModel>, k: int)
    requires
        0 <= k <= items.len(),
        forall|i: int| 0 <= i < items.len() ==> plain_scalar(#[trigger] items[i]),
    ensures
        array_from(
            thing_text(ThingModel::Array(items), 0),
            items_end(item_texts(items, 0), k),
            1,
            items.take(k),
        ) == (Some(ThingModel::Array(items)), thing_text(ThingModel::Array(items), 0).len() as int, 0int),
    decreases items.len() - k,
{
    let texts = item_texts(items, 0);
    let src = thing_text(ThingModel::Array(items), 0);
    let n = items.len() as int;
    let p = items_end(texts, k);
    assert(src == seq!['['] + joined(texts) + seq![']']);
    if n == 0 {
        assert(joined(texts) =~= Seq::<char>::empty());
        assert(src[1] == ']');
        assert(items.take(0) =~= items);
    } else if k == n {
        assert(texts.take(k) =~= texts);
        assert(src[p] == ']');
        assert(items.take(k) =~= items);
    } else {
        let w = texts[k];
        assert(w == thing_text(items[k], 0));
        assert(plain_scalar(items[k]));
        let q = if k == 0 { 1 } else { p + 2 };
        if k == 0 {
            lemma_joined_split(texts, 1);
            assert(texts.take(1) =~= seq![texts[0]]);
            assert(joined(texts.take(1)) == texts[0]);
            assert(src =~= seq!['['] + w + rest_text(texts, 1) + seq![']']);
        } else {
            lemma_joined_split(texts, k);
            assert(src =~= seq!['['] + joined(texts.take(k)) + seq![',', ' '] + w + rest_text(texts, k + 1)
                + seq![']']);
            assert(src[p] == ',');
            assert(src[p + 1] == ' ');
        }
        assert(src.subrange(q, q + w.len()) =~= w);
        lemma_scalar_starts(items[k]);
        assert(src[q] == w[0]);
        assert(skip_ws(src, q) == q);
        if k + 1 < n {
            assert(rest_text(texts, k + 1)[0] == ',');
            assert(src[q + w.len()] == ',');
        } else {
            assert(rest_text(texts, k + 1) =~= Seq::<char>::empty());
            assert(src[q + w.len()] == ']');
        }
        lemma_scalar_at(src, if k == 0 { 1 } else { p + 1 }, q, items[k], 1);
        lemma_joined_split(texts, k + 1);
        assert(texts.take(k + 1).drop_last() =~= texts.take(k));
        assert(items_end(texts, k + 1) == q + w.len());
        assert(items.take(k).push(items[k]) =~= items.take(k + 1));
        lemma_array_items(items, k + 1);
    }
}

/// An array of plain scalars (strings with no quote and no backslash in
/// them, booleans, nulls and numbers written as they are read) reads back, from the text that `serialize` writes for it, as
/// itself.
pub proof fn lemma_array_round_trip(items: Seq<ThingModel>)
    requires
        forall|i: int| 0 <= i < items.len() ==> plain_scalar(#[trigger] items[i]),
    ensures
        thing_at(thing_text(ThingModel::Array(items), 0), 0, 0) == (
            Some(ThingModel::Array(items)),
            thing_text(ThingModel::Array(items), 0).len() as int,
            0int,
        ),
{
    let src = thing_text(ThingModel::Array(items), 0);
    assert(src[0] == '[');
    assert(skip_ws(src, 0) == 0);
    assert(items.take(0) =~= Seq::<ThingModel>::empty());
    lemma_array_items(items, 0);
}

/// Whether a number is written as the reader reads it back: whole digits
/// without a leading zero (but for `0` itself), digits after the point,
/// and an exponent without a leading zero, negative only where there is
/// one.
pub open spec fn canonical_number(n: NumberParts) -> bool {
    &&& n.integer.len() > 0
    &&& forall|x: int| 0 <= x < n.integer.len() ==> is_digit(#[trigger] n.integer[x])
    &&& (n.integer.len() == 1 || n.integer[0] != '0')
    &&& forall|x: int| 0 <= x < n.fraction.len() ==> is_digit(#[trigger] n.fraction[x])
    &&& forall|x: int| 0 <= x < n.exponent.len() ==> is_digit(#[trigger] n.exponent[x])
    &&& (n.exponent.len() > 0 ==> n.exponent[0] != '0')
    &&& (n.exponent.len() == 0 ==> !n.exponent_negative)
}

proof fn lemma_digits_end_at(src: Seq<char>, j: int, e: int)
    requires
        0 <= j <= e <= src.len(),
        forall|x: int| j <= x < e ==> is_digit(#[trigger] src[x]),
        e == src.len() || !is_digit(src[e]),
    ensures
        digits_end(src, j) == e,
    decreases e - j,
{
    if j < e {
        lemma_digits_end_at(src, j + 1, e);
    }
}

/// A canonical number whose text stands at `q`, followed by the end, a
/// comma or a closing bracket, reads as itself.
#[verifier::spinoff_prover]
#[verifier::rlimit(100)]
proof fn lemma_number_at(src: Seq<char>, q: int, n: NumberParts)
    requires
        canonical_number(n),
        0 <= q,
        q + number_text(n).len() <= src.len(),
        src.subrange(q, q + number_text(n).len()) == number_text(n),
        q + number_text(n).len() == src.len() || src[q + number_text(n).len()] == ','
            || src[q + number_text(n).len()] == ']' || src[q + number_text(n).len()] == '\n',
    ensures
        number_at(src, q) == Some(
            (n.negative, n.integer, n.fraction, n.exponent_negative, n.exponent, q + number_text(n).len()),
        ),
{
    let t = number_text(n);
    let end = q + t.len();
    let sl: int = if n.negative { 1 } else { 0 };
    let il = n.integer.len() as int;
    let fl = n.fraction.len() as int;
    let pl: int = if fl > 0 { fl + 1 } else { 0 };
    let xl = n.exponent.len() as int;
    let el: int = if xl > 0 { 1 + (if n.exponent_negative { 1int } else { 0 }) + xl } else { 0 };
    let sign = if n.negative { seq!['-'] } else { Seq::<char>::empty() };
    let point = if fl > 0 { seq!['.'] + n.fraction } else { Seq::<char>::empty() };
    let ex = if xl > 0 {
        seq!['e'] + (if n.exponent_negative { seq!['-'] } else { Seq::<char>::empty() }) + n.exponent
    } else {
        Seq::<char>::empty()
    };
    assert(t == sign + n.integer + point + ex);
    assert(t.len() == sl + il + pl + el);
    assert forall|x: int| 0 <= x < t.len() implies src[q + x] == #[trigger] t[x] by {
        assert(src.subrange(q, end)[x] == src[q + x]);
    }
    let j = q + sl;
    if n.negative {
        assert(src[q] == t[0]);
    }
    assert forall|x: int| j <= x < j + il implies is_digit(#[trigger] src[x]) by {
        assert(src[x] == t[x - q]);
        assert(t[x - q] == n.integer[x - j]);
    }
    assert(src[j] == n.integer[0]) by {
        assert(src[j] == t[sl]);
    }
    let k = j + il;
    if k < src.len() {
        if k < end {
            assert(src[k] == t[sl + il]);
            if fl > 0 {
                assert(t[sl + il] == '.');
            } else {
                assert(t[sl + il] == 'e');
            }
        }
    }
    if n.integer[0] != '0' {
        lemma_digits_end_at(src, j, k);
    }
    let k2 = k + pl;
    if fl > 0 {
        assert(src[k] == '.');
        assert forall|x: int| k + 1 <= x < k2 implies is_digit(#[trigger] src[x]) by {
            assert(src[x] == t[x - q]);
            assert(t[x - q] == n.fraction[x - k - 1]);
        }
        if k2 < src.len() && k2 < end {
            assert(src[k2] == t[sl + il + pl]);
            assert(t[sl + il + pl] == 'e');
        }
        lemma_digits_end_at(src, k + 1, k2);
        assert(src.subrange(k + 1, k2) =~= n.fraction) by {
            assert forall|x: int| 0 <= x < fl implies src.subrange(k + 1, k2)[x] == n.fraction[x] by {
                assert(src[k + 1 + x] == t[sl + il + 1 + x]);
            }
        }
    }
    assert(src.subrange(j, k) =~= n.integer) by {
        assert forall|x: int| 0 <= x < il implies src.subrange(j, k)[x] == n.integer[x] by {
            assert(src[j + x] == t[sl + x]);
        }
    }
    if xl > 0 {
        let e0 = k2 + 1;
        assert(src[k2] == t[sl + il + pl]);
        let nl: int = if n.exponent_negative { 1 } else { 0 };
        let e1 = e0 + nl;
        assert(src[e0] == t[sl + il + pl + 1]);
        assert(src[e1] == t[sl + il + pl + 1 + nl]);
        assert(t[sl + il + pl + 1 + nl] == n.exponent[0]);
        assert forall|x: int| e1 <= x < end implies is_digit(#[trigger] src[x]) by {
            assert(src[x] == t[x - q]);
            assert(t[x - q] == n.exponent[x - e1]);
        }
        lemma_digits_end_at(src, e1, end);
        assert(src.subrange(e1, end) =~= n.exponent) by {
            assert forall|x: int| 0 <= x < xl implies src.subrange(e1, end)[x] == n.exponent[x] by {
                assert(src[e1 + x] == t[sl + il + pl + 1 + nl + x]);
            }
        }
    }
}

proof fn lemma_ws_run(src: Seq<char>, i: int, j: int)
    requires
        0 <= i <= j <= src.len(),
        forall|x: int| i <= x < j ==> is_white_space(#[trigger] src[x]),
        j == src.len() || !is_white_space(src[j]),
    ensures
        skip_ws(src, i) == j,
    decreases j - i,
{
    if i < j {
        lemma_ws_run(src, i + 1, j);
    }
}

proof fn lemma_name_absent(props: Seq<(Seq<char>, ThingModel, int)>, name: Seq<char>, i: int)
    requires
        0 <= i <= props.len(),
        forall|j: int| i <= j < props.len() ==> #[trigger] props[j].0 != name,
    ensures
        name_index(props, name, i) == props.len(),
    decreases props.len() - i,
{
    if i < props.len() {
        lemma_name_absent(props, name, i + 1);
    }
}

/// Whether property `i` reads back as itself: a name with no quote and no
/// backslash that no property before it has, a plain scalar value, and its
/// own place as index.
pub open spec fn plain_property(props: Seq<(Seq<char>, ThingModel, int)>, i: int) -> bool {
    &&& forall|j: int| 0 <= j < props[i].0.len() ==> #[trigger] props[i].0[j] != '"' && props[i].0[j] != '\\'
    &&& plain_scalar(props[i].1)
    &&& props[i].2 == i
    &&& forall|j: int| 0 <= j < i ==> #[trigger] props[j].0 != props[i].0
}

/// A property whose text stands at `ws`, reached from `p0` directly or
/// after `, `, reads as its name and then its value.
#[verifier::spinoff_prover]
#[verifier::rlimit(100)]
proof fn lemma_property_at(src: Seq<char>, p0: int, ws: int, name: Seq<char>, value: ThingModel)
    requires
        1 <= p0,
        p0 == ws || (p0 + 2 == ws && src[p0] == ',' && src[p0 + 1] == ' '),
        forall|j: int| 0 <= j < name.len() ==> #[trigger] name[j] != '"' && name[j] != '\\',
        plain_scalar(value),
        ws + property_text(name, thing_text(value, 4), 4).len() <= src.len(),
        src.subrange(ws, ws + property_text(name, thing_text(value, 4), 4).len()) == property_text(
            name,
            thing_text(value, 4),
            4,
        ),
        ws + property_text(name, thing_text(value, 4), 4).len() == src.len()
            || src[ws + property_text(name, thing_text(value, 4), 4).len()] == ','
            || src[ws + property_text(name, thing_text(value, 4), 4).len()] == '\n',
    ensures
        property_step(src, p0, 1) == (Some(name), ws + name.len() + 9, 1int),
        thing_at(src, ws + name.len() + 9, 1) == (
            Some(value),
            ws + property_text(name, thing_text(value, 4), 4).len(),
            1int,
        ),
{
    let vt = thing_text(value, 4);
    assert(vt == thing_text(value, 0));
    let w = property_text(name, vt, 4);
    assert(w =~= seq!['\n'] + spaces(4) + seq!['"'] + name + seq!['"', ':', ' '] + vt);
    assert forall|x: int| 0 <= x < w.len() implies src[ws + x] == #[trigger] w[x] by {
        assert(src.subrange(ws, ws + w.len())[x] == src[ws + x]);
    }
    let qn = ws + 5;
    assert forall|x: int| ws <= x < qn implies is_white_space(#[trigger] src[x]) by {
        assert(src[x] == w[x - ws]);
    }
    assert(src[qn] == w[5]);
    if p0 == ws {
        lemma_ws_run(src, ws, qn);
    } else {
        assert(is_white_space(src[p0 + 1]));
        lemma_ws_run(src, p0 + 1, qn);
        lemma_ws_run(src, p0, p0);
    }
    lemma_ws_run(src, qn, qn);
    let nl = name.len() as int;
    assert(src.subrange(qn, qn + nl + 2) =~= seq!['"'] + name + seq!['"']) by {
        assert forall|x: int| 0 <= x < nl + 2 implies src.subrange(qn, qn + nl + 2)[x] == (seq!['"'] + name
            + seq!['"'])[x] by {
            assert(src[qn + x] == w[5 + x]);
        }
    }
    lemma_decode_plain_in(src, qn, name, qn + 1);
    assert(name.subrange(0, nl) =~= name);
    let c = qn + nl + 2;
    assert(src[c] == w[5 + nl + 2]);
    assert(src[c + 1] == w[5 + nl + 3]);
    lemma_ws_run(src, c, c);
    let vs = c + 2;
    assert(src.subrange(vs, vs + vt.len()) =~= vt) by {
        assert forall|x: int| 0 <= x < vt.len() implies src.subrange(vs, vs + vt.len())[x] == vt[x] by {
            assert(src[vs + x] == w[5 + nl + 4 + x]);
        }
    }
    lemma_scalar_starts(value);
    assert(src[vs] == vt[0]);
    lemma_ws_run(src, c + 1, vs);
    lemma_scalar_at(src, vs, vs, value, 1);
}

#[verifier::spinoff_prover]
#[verifier::rlimit(100)]
proof fn lemma_object_props(props: Seq<(Seq<char>, ThingModel, int)>, k: int)
    requires
        0 <= k <= props.len(),
        forall|i: int| 0 <= i < props.len() ==> #[trigger] plain_property(props, i),
    ensures
        object_from(
            thing_text(ThingModel::Object(props), 0),
            items_end(property_texts(props, 4), k),
            1,
            props.take(k),
        ) == (Some(ThingModel::Object(props)), thing_text(ThingModel::Object(props), 0).len() as int, 0int),
    decreases props.len() - k,
{
    let texts = property_texts(props, 4);
    let src = thing_text(ThingModel::Object(props), 0);
    let n = props.len() as int;
    let p = items_end(texts, k);
    assert(spaces(0) =~= Seq::<char>::empty());
    assert(src == seq!['{'] + joined(texts) + seq!['\n'] + spaces(0) + seq!['}']);
    assert(src =~= seq!['{'] + joined(texts) + seq!['\n', '}']);
    if n == 0 || k == n {
        if n == 0 {
            assert(joined(texts) =~= Seq::<char>::empty());
        } else {
            assert(texts.take(k) =~= texts);
        }
        assert(src[p] == '\n');
        assert(src[p + 1] == '}');
        assert(is_white_space(src[p]));
        lemma_ws_run(src, p, p + 1);
        assert(props.take(k) =~= props);
    } else {
        let name = props[k].0;
        let value = props[k].1;
        assert(plain_property(props, k));
        let w = texts[k];
        assert(w == property_text(name, thing_text(value, 4), 4));
        let ws = if k == 0 { 1 } else { p + 2 };
        if k == 0 {
            lemma_joined_split(texts, 1);
            assert(texts.take(1) =~= seq![texts[0]]);
            assert(joined(texts.take(1)) == texts[0]);
            assert(src =~= seq!['{'] + w + rest_text(texts, 1) + seq!['\n', '}']);
        } else {
            lemma_joined_split(texts, k);
            assert(src =~= seq!['{'] + joined(texts.take(k)) + seq![',', ' '] + w + rest_text(texts, k + 1)
                + seq!['\n', '}']);
            assert(src[p] == ',');
            assert(src[p + 1] == ' ');
        }
        assert(src.subrange(ws, ws + w.len()) =~= w);
        if k + 1 < n {
            assert(rest_text(texts, k + 1)[0] == ',');
            assert(src[ws + w.len()] == ',');
        } else {
            assert(rest_text(texts, k + 1) =~= Seq::<char>::empty());
            assert(src[ws + w.len()] == '\n');
        }
        lemma_property_at(src, p, ws, name, value);
        lemma_name_absent(props.take(k), name, 0);
        assert(props.take(k).push(props[k]) =~= props.take(k + 1));
        lemma_joined_split(texts, k + 1);
        assert(texts.take(k + 1).drop_last() =~= texts.take(k));
        assert(items_end(texts, k + 1) == ws + w.len());
        lemma_object_props(props, k + 1);
    }
}

/// An object whose properties have distinct names with no quote and no
/// backslash, plain scalar values, and their places as indices reads back,
/// from the text that `serialize` writes for it, as itself.
pub proof fn lemma_object_round_trip(props: Seq<(Seq<char>, ThingModel, int)>)
    requires
        forall|i: int| 0 <= i < props.len() ==> #[trigger] plain_property(props, i),
    ensures
        thing_at(thing_text(ThingModel::Object(props), 0), 0, 0) == (
            Some(ThingModel::Object(props)),
            thing_text(ThingModel::Object(props), 0).len() as int,
            0int,
        ),
{
    let src = thing_text(ThingModel::Object(props), 0);
    assert(src[0] == '{');
    assert(skip_ws(src, 0) == 0);
    assert(props.take(0) =~= Seq::<(Seq<char>, ThingModel, int)>::empty());
    lemma_object_props(props, 0);
}

/// The text written for a boolean is the one a `Thing` writes, and it
/// reads back as the same boolean.
pub proof fn lemma_bool_text_reads_back(b: bool)
    ensures
        crate::kserde::json_serialize::Serialize::json_text(&b, 0) == bool_text(b),
        bool_text(b) == thing_text(ThingModel::Bool(b), 0),
        thing_at(bool_text(b), 0, 0) == (Some(ThingModel::Bool(b)), bool_text(b).len() as int, 0int),
{
    lemma_scalar_round_trip(ThingModel::Bool(b));
}

} // verus!
