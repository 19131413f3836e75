use vstd::prelude::*;

verus! {

/// Merges two settings of one limit of a schema: the one already set wins.
pub fn combine_option<T>(a: Option<T>, b: Option<T>) -> (r: Option<T>)
    ensures
        r == (if a is Some {
            a
        } else {
            b
        }),
{
    if a.is_some() {
        a
    } else {
        b
    }
}

} // verus!
