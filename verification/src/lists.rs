//! Lists: turning them round, and copies of their strings.

use vstd::prelude::*;
use crate::text::{opt_str, strs};

verus! {

/// A list from its end to its beginning.
pub fn reversed<T>(v: Vec<T>) -> (r: Vec<T>)
    ensures
        r@ == v@.reverse(),
{
    let ghost all = v@;
    let mut rest = v;
    let mut out: Vec<T> = Vec::new();
    while rest.len() > 0
        invariant
            rest@ == all.take(rest@.len() as int),
            rest@.len() + out@.len() == all.len(),
            forall|k: int| 0 <= k < out.len() ==> #[trigger] out@[k] == all[all.len() - 1 - k],
        decreases rest.len(),
    {
        let ghost n = rest@.len() as int;
        if let Some(x) = rest.pop() {
            assert(x == all[n - 1]);
            out.push(x);
        }
        assert(rest@ =~= all.take(n - 1));
    }
    assert(out@ =~= all.reverse());
    out
}

/// A list with the same strings.
pub fn copy_strings(v: &Vec<String>) -> (r: Vec<String>)
    ensures
        strs(r@) == strs(v@),
{
    let r = v.clone();
    assert(strs(r@) =~= strs(v@));
    r
}

/// The same string, where there is one.
pub fn copy_opt(o: &Option<String>) -> (r: Option<String>)
    ensures
        r == *o,
        opt_str(r) == opt_str(*o),
{
    match o {
        Some(s) => Some(s.clone()),
        None => None,
    }
}

} // verus!
