//! Logistic activation over a whole buffer.

use vstd::prelude::*;
use crate::fixed::{Fixed, spec_sigmoid};

verus! {

/// Elementwise logistic activation.
pub trait Sigmoid: Sized {
    /// Relation between a buffer before and after activation.
    spec fn sigmoid_rel(pre: Self, post: Self) -> bool;

    /// Activate every element in place.
    fn sigmoid_inplace(&mut self)
        ensures
            Self::sigmoid_rel(*old(self), *final(self)),
    ;

    /// Activate every element into a fresh buffer.
    fn sigmoid(&self) -> (r: Self)
        ensures
            Self::sigmoid_rel(*self, r),
    ;
}

impl Sigmoid for Vec<Fixed> {
    /// The output has the input's length and each element is the logistic
    /// sigmoid of the corresponding input element.
    open spec fn sigmoid_rel(pre: Self, post: Self) -> bool {
        &&& post@.len() == pre@.len()
        &&& forall|i: int| 0 <= i < pre@.len() ==> post@[i]@ == spec_sigmoid(#[trigger] pre@[i]@)
    }

    fn sigmoid_inplace(&mut self) {
        let r = self.sigmoid();
        *self = r;
    }

    fn sigmoid(&self) -> (r: Self) {
        let mut out: Vec<Fixed> = Vec::new();
        let mut i: usize = 0;
        while i < self.len()
            invariant
                i <= self@.len(),
                out@.len() == i,
                forall|k: int| 0 <= k < i ==> out@[k]@ == spec_sigmoid(#[trigger] self@[k]@),
            decreases self@.len() - i,
        {
            out.push(self[i].sigmoid());
            i = i + 1;
        }
        out
    }
}

} // verus!
