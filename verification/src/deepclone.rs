//! Structure-preserving duplication.
//!
//! Every non-mutating record operation hands back a structurally independent
//! copy. `DeepClone` captures what such a copy must satisfy: the duplicate is
//! indistinguishable from the original at the level of its mathematical model
//! (`deep_view`).
use vstd::prelude::*;

verus! {

/// A clone whose result has exactly the model of the original.
pub trait DeepClone: DeepView + Sized {
    /// Returns a structurally independent value with the same `deep_view`.
    fn deep_clone(&self) -> (r: Self)
        ensures
            r.deep_view() == self.deep_view(),
    ;
}

impl DeepClone for bool {
    fn deep_clone(&self) -> (r: Self) {
        *self
    }
}

impl DeepClone for u8 {
    fn deep_clone(&self) -> (r: Self) {
        *self
    }
}

impl DeepClone for u32 {
    fn deep_clone(&self) -> (r: Self) {
        *self
    }
}

impl DeepClone for u64 {
    fn deep_clone(&self) -> (r: Self) {
        *self
    }
}

impl DeepClone for i64 {
    fn deep_clone(&self) -> (r: Self) {
        *self
    }
}

impl DeepClone for String {
    fn deep_clone(&self) -> (r: Self) {
        self.clone()
    }
}

impl<T: DeepClone> DeepClone for Option<T> {
    fn deep_clone(&self) -> (r: Self) {
        match self {
            Some(x) => Some(x.deep_clone()),
            None => None,
        }
    }
}

impl<A: DeepClone, B: DeepClone> DeepClone for (A, B) {
    fn deep_clone(&self) -> (r: Self) {
        (self.0.deep_clone(), self.1.deep_clone())
    }
}

impl<A: DeepClone, B: DeepClone, C: DeepClone> DeepClone for (A, B, C) {
    fn deep_clone(&self) -> (r: Self) {
        (self.0.deep_clone(), self.1.deep_clone(), self.2.deep_clone())
    }
}

impl<A: DeepClone, B: DeepClone, C: DeepClone, D: DeepClone> DeepClone for (A, B, C, D) {
    fn deep_clone(&self) -> (r: Self) {
        (self.0.deep_clone(), self.1.deep_clone(), self.2.deep_clone(), self.3.deep_clone())
    }
}

impl<T: DeepClone> DeepClone for Vec<T> {
    fn deep_clone(&self) -> (r: Self) {
        let n = self.len();
        let mut out: Vec<T> = Vec::new();
        let mut i: usize = 0;
        proof {
            assert(out.deep_view() =~= self.deep_view().take(0int));
        }
        while i < n
            invariant
                n == self@.len(),
                i <= n,
                out.deep_view() == self.deep_view().take(i as int),
            decreases n - i,
        {
            let c = self[i].deep_clone();
            let ghost pre_dv = out.deep_view();
            out.push(c);
            proof {
                assert(self.deep_view()[i as int] == self@[i as int].deep_view());
                assert(out.deep_view() =~= pre_dv.push(self.deep_view()[i as int]));
                assert(out.deep_view() =~= self.deep_view().take(i + 1int));
            }
            i += 1;
        }
        proof {
            assert(self.deep_view().take(n as int) =~= self.deep_view());
        }
        out
    }
}

} // verus!
