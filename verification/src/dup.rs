//! Copies that keep the contents: the deep view of a copy is that of the value.

use vstd::prelude::*;

verus! {

/// A value that can be copied with its contents.
pub trait Duplicate: DeepView + Sized {
    /// A copy with the same contents.
    fn dup(&self) -> (r: Self)
        ensures
            r.deep_view() == self.deep_view(),
    ;
}

impl Duplicate for String {
    fn dup(&self) -> (r: Self) {
        self.clone()
    }
}

impl Duplicate for u64 {
    fn dup(&self) -> (r: Self) {
        *self
    }
}

impl<T: Duplicate> Duplicate for Option<T> {
    fn dup(&self) -> (r: Self) {
        match self {
            Some(x) => Some(x.dup()),
            None => None,
        }
    }
}

impl<A: Duplicate, B: Duplicate> Duplicate for (A, B) {
    fn dup(&self) -> (r: Self) {
        (self.0.dup(), self.1.dup())
    }
}

impl<T: Duplicate> Duplicate for Vec<T> {
    fn dup(&self) -> (r: Self) {
        let mut r: Vec<T> = Vec::with_capacity(self.len());
        let mut i: usize = 0;
        while i < self.len()
            invariant
                i <= self@.len(),
                r@.len() == i,
                forall|j: int| 0 <= j < i ==> r@[j].deep_view() == self@[j].deep_view(),
            decreases self@.len() - i,
        {
            r.push(self[i].dup());
            i += 1;
        }
        proof {
            assert(r.deep_view() =~= self.deep_view());
        }
        r
    }
}

} // verus!
