//! Exact copies of values, with the copy known to equal what was copied.

use vstd::prelude::*;

verus! {

/// A value that can be copied exactly.
pub trait Replicate: Sized {
    /// An exact copy.
    fn replicate(&self) -> (r: Self)
        ensures
            r == *self,
    ;
}

impl Replicate for String {
    fn replicate(&self) -> (r: Self) {
        self.clone()
    }
}

/// Copy every element of `v`, in order.
pub fn replicate_all<T: Replicate>(v: &Vec<T>) -> (out: Vec<T>)
    ensures
        out@ == v@,
{
    let mut out: Vec<T> = Vec::new();
    let mut i: usize = 0;
    while i < v.len()
        invariant
            i <= v.len(),
            out@ == v@.take(i as int),
        decreases v.len() - i,
    {
        out.push(v[i].replicate());
        assert(v@.take(i + 1) =~= v@.take(i as int).push(v@[i as int]));
        i = i + 1;
    }
    assert(v@.take(v.len() as int) =~= v@);
    out
}

} // verus!
