//! Helpers for lists.

use vstd::prelude::*;

verus! {

/// Reverses a list.
pub fn reversed<T>(list: Vec<T>) -> (out: Vec<T>)
    ensures
        out@ == list@.reverse(),
{
    let ghost given = list@;
    let mut list = list;
    let mut out: Vec<T> = Vec::new();
    while list.len() > 0
        invariant
            list.len() <= given.len(),
            list@ == given.take(list.len() as int),
            out.len() == given.len() - list.len(),
            forall|j: int| 0 <= j < out.len() ==> out[j] == given[given.len() - 1 - j],
        decreases list.len(),
    {
        let ghost n = list.len() as int;
        let item = list.pop().unwrap();
        proof {
            assert(item == given[n - 1]);
            assert(list@ =~= given.take(n - 1));
        }
        out.push(item);
    }
    assert(out@ =~= given.reverse());
    out
}

} // verus!
