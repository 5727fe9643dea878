//! Uniform random fills for matrices and vectors.
use vstd::prelude::*;

use crate::num::Num;

verus! {

pub struct Generator {}

impl Generator {
    /// `size` independent samples, each in `[low, high)`.
    pub fn random_elements<T: Num>(low: T, high: T, size: usize) -> (r: Vec<T>)
        requires
            low.lt_spec(high),
        ensures
            r@.len() == size,
            forall|i: int|
                0 <= i < size ==> !(#[trigger] r@[i]).lt_spec(low) && r@[i].lt_spec(high),
    {
        let mut elements: Vec<T> = Vec::new();
        let mut k: usize = 0;
        while k < size
            invariant
                low.lt_spec(high),
                k <= size,
                elements@.len() == k,
                forall|i: int|
                    0 <= i < k ==> !(#[trigger] elements@[i]).lt_spec(low)
                        && elements@[i].lt_spec(high),
            decreases size - k,
        {
            elements.push(T::random_between(low, high));
            k = k + 1;
        }
        elements
    }
}

} // verus!
