use vstd::prelude::*;

use std::collections::HashMap;

use crate::kserde::json_deserialize::{
    lemma_skip_ws_bounds, same_text, skip_ws, Deserialize, JSONDeserializer, RECURSIVE_LIMIT,
};
use crate::kserde::thing::{array_step, property_step, read_array_value, read_property};

verus! {

/// Whether `begin_array` (for `[`) or `begin_object` (for `{`) at `p`, at
/// depth `d`, finds its bracket.
pub open spec fn opens(src: Seq<char>, p: int, d: int, bracket: char) -> bool {
    let q = skip_ws(src, p);
    d < RECURSIVE_LIMIT && q < src.len() && src[q] == bracket
}

/// Whether, after the bracket that opens at `p`, the next character that
/// is not white space is `close`.
pub open spec fn closes_at_once(src: Seq<char>, p: int, close: char) -> bool {
    let q = skip_ws(src, skip_ws(src, p) + 1);
    q < src.len() && src[q] == close
}

/// Where the items of an array from `p` on, at depth `d`, end, and the
/// depth after the closing bracket; `None` where an item cannot be read.
pub open spec fn items_end<T: Deserialize>(src: Seq<char>, p: int, d: int) -> Option<(int, int)>
    decreases src.len() - p,
{
    let (more, p2, d2) = array_step(src, p, d);
    if !more {
        Some((p2, d2))
    } else {
        match T::read_end(src, p2, d2) {
            None => None,
            Some((p3, d3)) => if p < p3 <= src.len() {
                items_end::<T>(src, p3, d3)
            } else {
                None
            },
        }
    }
}

impl<T: Deserialize> Deserialize for Vec<T> {
    open spec fn read_end(src: Seq<char>, p: int, d: int) -> Option<(int, int)> {
        if opens(src, p, d, '[') {
            items_end::<T>(src, skip_ws(src, p) + 1, d + 1)
        } else {
            None
        }
    }

    /// Reads an array, item by item. `None` where no array opens and where
    /// an item cannot be read; `[]` reads as an empty `Vec`.
    fn deserialize(deserializer: &mut JSONDeserializer) -> (r: Option<Self>)
        ensures
            ({
                let src = old(deserializer).source();
                let p = old(deserializer).position();
                let d = old(deserializer).depth();
                &&& !opens(src, p, d, '[') ==> r is None
                &&& opens(src, p, d, '[') && closes_at_once(src, p, ']') ==> {
                    &&& r matches Some(v) && v@.len() == 0
                    &&& final(deserializer).depth() == d
                    &&& final(deserializer).position() == skip_ws(src, skip_ws(src, p) + 1) + 1
                }
            }),
    {
        let ghost src = deserializer.source();
        let ghost p0 = deserializer.position();
        let ghost d0 = deserializer.depth();
        proof {
            lemma_skip_ws_bounds(src, p0);
            deserializer.lemma_in_bounds();
        }
        if !deserializer.begin_array() {
            return None;
        }
        let ghost p1 = deserializer.position();
        let mut items: Vec<T> = Vec::new();
        loop
            invariant_except_break
                items@.len() == 0 ==> deserializer.position() == p1 && deserializer.depth() == d0 + 1,
                items_end::<T>(src, deserializer.position(), deserializer.depth()) == items_end::<T>(
                    src,
                    p1,
                    d0 + 1,
                ),
            invariant
                deserializer.wf(),
                deserializer.source() == src,
                src == old(deserializer).source(),
                p0 == old(deserializer).position(),
                d0 == old(deserializer).depth(),
                0 <= d0,
                p0 < deserializer.position(),
                p1 == skip_ws(src, p0) + 1,
                closes_at_once(src, p0, ']') ==> items@.len() == 0,
            ensures
                deserializer.wf(),
                deserializer.source() == src,
                p0 < deserializer.position(),
                closes_at_once(src, p0, ']') ==> items@.len() == 0,
                items_end::<T>(src, p1, d0 + 1) == Some((deserializer.position(), deserializer.depth())),
                items@.len() == 0 && skip_ws(src, p1) < src.len() && src[skip_ws(src, p1)] == ']'
                    ==> deserializer.position() == skip_ws(src, p1) + 1 && deserializer.depth() == d0,
            decreases src.len() - deserializer.position(),
        {
            proof {
                deserializer.lemma_in_bounds();
            }
            let ghost before = deserializer.position();
            let ghost depth = deserializer.depth();
            let more = read_array_value(deserializer);
            if !more {
                break;
            }
            match T::deserialize(deserializer) {
                Some(item) => items.push(item),
                None => return None,
            }
            proof {
                deserializer.lemma_in_bounds();
                assert(before < deserializer.position());
                assert(items_end::<T>(src, before, depth) == items_end::<T>(
                    src,
                    deserializer.position(),
                    deserializer.depth(),
                ));
            }
        }
        Some(items)
    }
}


/// `std`'s conversion of a `Vec` into an array of `N` items: it succeeds
/// exactly where the `Vec` holds `N` items, and keeps them in order.
#[verifier::external_body]
fn array_from_vec<T, const N: usize>(v: Vec<T>) -> (r: Option<[T; N]>)
    ensures
        match r {
            Some(a) => v@.len() == N && a@ == v@,
            None => v@.len() != N,
        },
{
    match <[T; N]>::try_from(v) {
        Ok(a) => Some(a),
        Err(_) => None,
    }
}

/// Where exactly `n` more items of an array from `p` on, at depth `d`,
/// and the closing bracket after them end, and the depth after it.
pub open spec fn counted_items_end<T: Deserialize>(src: Seq<char>, p: int, d: int, n: nat) -> Option<
    (int, int),
>
    decreases n,
{
    let (more, p2, d2) = array_step(src, p, d);
    if n == 0 {
        if more {
            None
        } else {
            Some((p2, d2))
        }
    } else if !more {
        None
    } else {
        match T::read_end(src, p2, d2) {
            None => None,
            Some((p3, d3)) => counted_items_end::<T>(src, p3, d3, (n - 1) as nat),
        }
    }
}

impl<T: Deserialize, const N: usize> Deserialize for [T; N] {
    open spec fn read_end(src: Seq<char>, p: int, d: int) -> Option<(int, int)> {
        if opens(src, p, d, '[') {
            counted_items_end::<T>(src, skip_ws(src, p) + 1, d + 1, N as nat)
        } else {
            None
        }
    }

    /// Reads an array of exactly `N` items. `None` where no array opens,
    /// where an item cannot be read and where the array does not close
    /// after `N` items.
    fn deserialize(deserializer: &mut JSONDeserializer) -> (r: Option<Self>)
        ensures
            ({
                let src = old(deserializer).source();
                let p = old(deserializer).position();
                let d = old(deserializer).depth();
                &&& !opens(src, p, d, '[') ==> r is None
                &&& N == 0 ==> (r is Some <==> opens(src, p, d, '[') && closes_at_once(src, p, ']'))
            }),
    {
        let ghost src = deserializer.source();
        let ghost p0 = deserializer.position();
        let ghost d0 = deserializer.depth();
        proof {
            lemma_skip_ws_bounds(src, p0);
            deserializer.lemma_in_bounds();
        }
        if !deserializer.begin_array() {
            return None;
        }
        let ghost p1 = deserializer.position();
        let mut items: Vec<T> = Vec::new();
        let mut i: usize = 0;
        while i < N
            invariant
                deserializer.wf(),
                deserializer.source() == src,
                src == old(deserializer).source(),
                p0 == old(deserializer).position(),
                d0 == old(deserializer).depth(),
                0 <= d0,
                p1 == skip_ws(src, p0) + 1,
                i == 0 ==> deserializer.position() == p1 && deserializer.depth() == d0 + 1,
                p0 < deserializer.position(),
                items@.len() == i,
                i <= N,
                counted_items_end::<T>(src, deserializer.position(), deserializer.depth(), (N - i) as nat)
                    == counted_items_end::<T>(src, p1, d0 + 1, N as nat),
            decreases N - i,
        {
            let ghost before = deserializer.position();
            let ghost depth = deserializer.depth();
            if !read_array_value(deserializer) {
                return None;
            }
            match T::deserialize(deserializer) {
                Some(item) => items.push(item),
                None => return None,
            }
            proof {
                assert(counted_items_end::<T>(src, before, depth, (N - i) as nat)
                    == counted_items_end::<T>(
                    src,
                    deserializer.position(),
                    deserializer.depth(),
                    (N - i - 1) as nat,
                ));
            }
            i += 1;
        }
        if read_array_value(deserializer) {
            return None;
        }
        array_from_vec(items)
    }
}

/// Where the properties of an object from `p` on, at depth `d`, end, and
/// the depth after them; `None` where a value cannot be read. The object
/// ends where no property name is read.
pub open spec fn entries_end<T: Deserialize>(src: Seq<char>, p: int, d: int) -> Option<(int, int)>
    decreases src.len() - p,
{
    let (name, p2, d2) = property_step(src, p, d);
    match name {
        None => Some((p2, d2)),
        Some(_) => match T::read_end(src, p2, d2) {
            None => None,
            Some((p3, d3)) => if p < p3 <= src.len() {
                entries_end::<T>(src, p3, d3)
            } else {
                None
            },
        },
    }
}

impl<T: Deserialize> Deserialize for HashMap<String, T> {
    open spec fn read_end(src: Seq<char>, p: int, d: int) -> Option<(int, int)> {
        if opens(src, p, d, '{') {
            entries_end::<T>(src, skip_ws(src, p) + 1, d + 1)
        } else {
            None
        }
    }

    /// Reads an object into a map from each property's name to its value;
    /// a name read again takes the later value. `None` where no object
    /// opens and where a value cannot be read; `{}` reads as an empty map.
    fn deserialize(deserializer: &mut JSONDeserializer) -> (r: Option<Self>)
        ensures
            ({
                let src = old(deserializer).source();
                let p = old(deserializer).position();
                let d = old(deserializer).depth();
                &&& !opens(src, p, d, '{') ==> r is None
                &&& opens(src, p, d, '{') && closes_at_once(src, p, '}') ==> (r matches Some(m)
                    && m@ == Map::<String, T>::empty())
            }),
    {
        let ghost src = deserializer.source();
        let ghost p0 = deserializer.position();
        let ghost d0 = deserializer.depth();
        proof {
            lemma_skip_ws_bounds(src, p0);
            deserializer.lemma_in_bounds();
        }
        if !deserializer.begin_object() {
            return None;
        }
        let ghost p1 = deserializer.position();
        let mut map: HashMap<String, T> = HashMap::new();
        let mut read_any: bool = false;
        loop
            invariant_except_break
                !read_any ==> deserializer.position() == p1 && deserializer.depth() == d0 + 1,
                entries_end::<T>(src, deserializer.position(), deserializer.depth()) == entries_end::<T>(
                    src,
                    p1,
                    d0 + 1,
                ),
            invariant
                deserializer.wf(),
                deserializer.source() == src,
                src == old(deserializer).source(),
                p0 == old(deserializer).position(),
                d0 == old(deserializer).depth(),
                0 <= d0,
                p0 < deserializer.position(),
                p1 == skip_ws(src, p0) + 1,
                !read_any ==> map@ == Map::<String, T>::empty(),
                closes_at_once(src, p0, '}') ==> !read_any,
            ensures
                deserializer.wf(),
                deserializer.source() == src,
                p0 < deserializer.position(),
                !read_any ==> map@ == Map::<String, T>::empty(),
                closes_at_once(src, p0, '}') ==> !read_any,
                entries_end::<T>(src, p1, d0 + 1) == Some((deserializer.position(), deserializer.depth())),
            decreases src.len() - deserializer.position(),
        {
            proof {
                deserializer.lemma_in_bounds();
            }
            let ghost before = deserializer.position();
            let ghost depth = deserializer.depth();
            match read_property(deserializer) {
                Some(name) => match T::deserialize(deserializer) {
                    Some(value) => {
                        map.insert(name, value);
                        read_any = true;
                    },
                    None => return None,
                },
                None => break,
            }
            proof {
                deserializer.lemma_in_bounds();
                assert(before < deserializer.position());
                assert(entries_end::<T>(src, before, depth) == entries_end::<T>(
                    src,
                    deserializer.position(),
                    deserializer.depth(),
                ));
            }
        }
        Some(map)
    }
}

/// Where reading goes on after `begin_object` at `p`, at depth `d`.
pub open spec fn after_open(src: Seq<char>, p: int, d: int) -> int {
    let q = skip_ws(src, p);
    if d >= RECURSIVE_LIMIT {
        p
    } else if q < src.len() {
        q + 1
    } else {
        q
    }
}

/// The depth after `begin_object` at `p`, at depth `d`.
pub open spec fn depth_after_open(src: Seq<char>, p: int, d: int) -> int {
    if opens(src, p, d, '{') {
        d + 1
    } else {
        d
    }
}

/// What reading a property named `name` and then its value gives at
/// `p`, at depth `d`: where the value ends and the depth after it; `None`
/// where the next property has another name or none, or its value cannot
/// be read.
pub open spec fn named_value_end<A: Deserialize>(src: Seq<char>, p: int, d: int, name: Seq<char>) -> Option<
    (int, int),
> {
    let (n, p2, d2) = property_step(src, p, d);
    if n == Some(name) {
        A::read_end(src, p2, d2)
    } else {
        None
    }
}

/// Reads the next property; its value where its name is `name`.
fn read_named<A: Deserialize>(deserializer: &mut JSONDeserializer, name: &str) -> (r: Option<A>)
    requires
        old(deserializer).wf(),
    ensures
        final(deserializer).wf(),
        final(deserializer).source() == old(deserializer).source(),
        r is Some ==> old(deserializer).position() < final(deserializer).position(),
        r is Some <==> named_value_end::<A>(
            old(deserializer).source(),
            old(deserializer).position(),
            old(deserializer).depth(),
            name@,
        ) is Some,
        r is Some ==> named_value_end::<A>(
            old(deserializer).source(),
            old(deserializer).position(),
            old(deserializer).depth(),
            name@,
        ) == Some((final(deserializer).position(), final(deserializer).depth())),
{
    match read_property(deserializer) {
        Some(n) => if same_text(n.as_str(), name) {
            A::deserialize(deserializer)
        } else {
            None
        },
        None => None,
    }
}

/// Opens an object, whatever is found there.
fn open_object(deserializer: &mut JSONDeserializer)
    requires
        old(deserializer).wf(),
    ensures
        final(deserializer).wf(),
        final(deserializer).source() == old(deserializer).source(),
        old(deserializer).position() <= final(deserializer).position(),
        final(deserializer).position() == after_open(
            old(deserializer).source(),
            old(deserializer).position(),
            old(deserializer).depth(),
        ),
        final(deserializer).depth() == depth_after_open(
            old(deserializer).source(),
            old(deserializer).position(),
            old(deserializer).depth(),
        ),
{
    proof {
        lemma_skip_ws_bounds(old(deserializer).source(), old(deserializer).position());
    }
    deserializer.begin_object();
}

impl<A: Deserialize> Deserialize for (A,) {
    open spec fn read_end(src: Seq<char>, p: int, d: int) -> Option<(int, int)> {
        named_value_end::<A>(src, after_open(src, p, d), depth_after_open(src, p, d), seq!['a'])
    }

    /// Opens an object, whatever is found, and reads its first property,
    /// which must be named `a`; its value is the item.
    fn deserialize(deserializer: &mut JSONDeserializer) -> (r: Option<Self>) {
        proof {
            reveal_strlit("a");
            assert("a"@ =~= seq!['a']);
        }
        open_object(deserializer);
        match read_named::<A>(deserializer, "a") {
            Some(a) => Some((a,)),
            None => None,
        }
    }
}

impl<A: Deserialize, B: Deserialize> Deserialize for (A, B) {
    open spec fn read_end(src: Seq<char>, p: int, d: int) -> Option<(int, int)> {
        match named_value_end::<A>(src, after_open(src, p, d), depth_after_open(src, p, d), seq!['a']) {
            None => None,
            Some((q, e)) => named_value_end::<B>(src, q, e, seq!['b']),
        }
    }

    /// Opens an object, whatever is found, and reads its properties, which
    /// must be named `a` and then `b`; their values are the items.
    fn deserialize(deserializer: &mut JSONDeserializer) -> (r: Option<Self>) {
        proof {
            reveal_strlit("a");
            assert("a"@ =~= seq!['a']);
            reveal_strlit("b");
            assert("b"@ =~= seq!['b']);
        }
        open_object(deserializer);
        let a = match read_named::<A>(deserializer, "a") {
            Some(a) => a,
            None => return None,
        };
        match read_named::<B>(deserializer, "b") {
            Some(b) => Some((a, b)),
            None => None,
        }
    }
}

impl<A: Deserialize, B: Deserialize, C: Deserialize> Deserialize for (A, B, C) {
    open spec fn read_end(src: Seq<char>, p: int, d: int) -> Option<(int, int)> {
        match named_value_end::<A>(src, after_open(src, p, d), depth_after_open(src, p, d), seq!['a']) {
            None => None,
            Some((q, e)) => match named_value_end::<B>(src, q, e, seq!['b']) {
                None => None,
                Some((q2, e2)) => named_value_end::<C>(src, q2, e2, seq!['c']),
            },
        }
    }

    /// Opens an object, whatever is found, and reads its properties, which
    /// must be named `a`, `b` and then `c`; their values are the items.
    fn deserialize(deserializer: &mut JSONDeserializer) -> (r: Option<Self>) {
        proof {
            reveal_strlit("a");
            assert("a"@ =~= seq!['a']);
            reveal_strlit("b");
            assert("b"@ =~= seq!['b']);
            reveal_strlit("c");
            assert("c"@ =~= seq!['c']);
        }
        open_object(deserializer);
        let a = match read_named::<A>(deserializer, "a") {
            Some(a) => a,
            None => return None,
        };
        let b = match read_named::<B>(deserializer, "b") {
            Some(b) => b,
            None => return None,
        };
        match read_named::<C>(deserializer, "c") {
            Some(c) => Some((a, b, c)),
            None => None,
        }
    }
}

} // verus!
