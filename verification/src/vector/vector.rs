//! Dense vectors: flat storage plus an orientation tag.
use vstd::prelude::*;

use crate::generator::Generator;
use crate::matrix::matrix::lemma_cell_index;
use crate::matrix::matrix::Matrix;
use crate::matrix::size::Size;
use crate::num::Num;
use crate::vector::shape::Shape;

verus! {

/// The left fold that an elementwise product-and-accumulate loop computes:
/// starting from the additive identity, add `a[i] * b[i]` for `i` rising.
pub open spec fn dot_spec<T: Num>(a: Seq<T>, b: Seq<T>) -> T
    recommends
        a.len() == b.len(),
    decreases a.len(),
{
    if a.len() == 0 {
        T::zero_spec()
    } else {
        dot_spec(a.drop_last(), b.drop_last()).plus_spec(a.last().times_spec(b.last()))
    }
}

pub struct Vector<T> {
    pub elements: Vec<T>,
    pub shape: Shape,
}

impl<T: Num> Vector<T> {
    pub fn new(elements: Vec<T>, shape: Shape) -> (v: Vector<T>)
        ensures
            v.elements@ == elements@,
            v.shape == shape,
    {
        Vector { elements, shape }
    }

    pub fn size(&self) -> (n: usize)
        ensures
            n == self.elements@.len(),
    {
        self.elements.len()
    }

    /// Flips the orientation in place; the elements stay untouched.
    pub fn transpose(&mut self)
        ensures
            final(self).elements@ == old(self).elements@,
            final(self).shape == (if old(self).shape == Shape::Row {
                Shape::Col
            } else {
                Shape::Row
            }),
    {
        self.shape = if self.shape == Shape::Row {
            Shape::Col
        } else {
            Shape::Row
        }
    }

    pub fn get(&self, index: usize) -> (r: Option<&T>)
        ensures
            index < self.elements@.len() ==> r == Some(&self.elements@[index as int]),
            index >= self.elements@.len() ==> r is None,
    {
        if index < self.elements.len() {
            Some(&self.elements[index])
        } else {
            None
        }
    }

    /// A fresh vector of `size` uniform samples from `[low, high)`.
    pub fn random(low: T, high: T, size: usize, shape: Shape) -> (v: Vector<T>)
        requires
            low.lt_spec(high),
        ensures
            v.elements@.len() == size,
            forall|i: int|
                0 <= i < size ==> !(#[trigger] v.elements@[i]).lt_spec(low)
                    && v.elements@[i].lt_spec(high),
            v.shape == shape,
    {
        Vector { elements: Generator::random_elements(low, high, size), shape }
    }

    /// True exactly when the two vectors hold the same elements in the same
    /// order; the orientation tags play no part.
    pub fn equals(&self, other: &Vector<T>) -> (r: bool)
        ensures
            r == (self.elements@ == other.elements@),
    {
        if self.elements.len() != other.elements.len() {
            return false;
        }
        let n: usize = self.elements.len();
        let mut i: usize = 0;
        while i < n
            invariant
                n == self.elements@.len(),
                n == other.elements@.len(),
                i <= n,
                forall|j: int| 0 <= j < i ==> self.elements@[j] == other.elements@[j],
            decreases n - i,
        {
            if !self.elements[i].eq_val(other.elements[i]) {
                return false;
            }
            i = i + 1;
        }
        proof {
            assert(self.elements@ =~= other.elements@);
        }
        true
    }

    /// The scalar product of two equal-length vectors, whatever their
    /// orientations; unequal lengths are rejected.
    pub fn dot(&self, right: &Vector<T>) -> (r: Result<T, &'static str>)
        ensures
            match r {
                Ok(p) => self.elements@.len() == right.elements@.len() && p == dot_spec(
                    self.elements@,
                    right.elements@,
                ),
                Err(_) => self.elements@.len() != right.elements@.len(),
            },
    {
        if self.size() != right.size() {
            return Err("invalid vectors size");
        }

        let n: usize = self.elements.len();
        let mut product: T = T::zero();
        let mut i: usize = 0;
        while i < n
            invariant
                n == self.elements@.len(),
                n == right.elements@.len(),
                i <= n,
                product == dot_spec(
                    self.elements@.take(i as int),
                    right.elements@.take(i as int),
                ),
            decreases n - i,
        {
            proof {
                assert(self.elements@.take(i + 1).drop_last() =~= self.elements@.take(i as int));
                assert(right.elements@.take(i + 1).drop_last() =~= right.elements@.take(i as int));
            }
            product = product.plus(self.elements[i].times(right.elements[i]));
            i = i + 1;
        }
        proof {
            assert(self.elements@.take(n as int) =~= self.elements@);
            assert(right.elements@.take(n as int) =~= right.elements@);
        }
        Ok(product)
    }

    /// The outer product: a `self.size x right.size` matrix whose cell
    /// `(r, c)` holds `self[r] * right[c]`. Always defined for non-empty
    /// operands.
    pub fn outer(&self, right: &Vector<T>) -> (m: Matrix<T>)
        requires
            self.elements@.len() > 0,
            right.elements@.len() > 0,
        ensures
            m.wf(),
            m.size.rows == self.elements@.len(),
            m.size.cols == right.elements@.len(),
            forall|r: int, c: int|
                0 <= r < self.elements@.len() && 0 <= c < right.elements@.len()
                    ==> #[trigger] m.ent(r, c) == self.elements@[r].times_spec(
                    right.elements@[c],
                ),
    {
        let rows: usize = self.elements.len();
        let cols: usize = right.elements.len();
        let ghost u: Seq<T> = self.elements@;
        let ghost v: Seq<T> = right.elements@;
        let mut elements: Vec<T> = Vec::new();
        let mut r: usize = 0;
        while r < rows
            invariant
                rows == u.len(),
                cols == v.len(),
                u == self.elements@,
                v == right.elements@,
                cols > 0,
                r <= rows,
                elements@.len() == r * cols,
                forall|k: int|
                    0 <= k < elements@.len() ==> #[trigger] elements@[k] == u[k
                        / cols as int].times_spec(v[k % cols as int]),
            decreases rows - r,
        {
            let mut c: usize = 0;
            while c < cols
                invariant
                    rows == u.len(),
                    cols == v.len(),
                    u == self.elements@,
                    v == right.elements@,
                    r < rows,
                    c <= cols,
                    elements@.len() == r * cols + c,
                    forall|k: int|
                        0 <= k < elements@.len() ==> #[trigger] elements@[k] == u[k
                            / cols as int].times_spec(v[k % cols as int]),
                decreases cols - c,
            {
                let mut cell: T = T::zero();
                cell = cell.plus(self.elements[r].times(right.elements[c]));
                proof {
                    T::lemma_plus_zero(u[r as int].times_spec(v[c as int]));
                    lemma_cell_index(rows as int, cols as int, r as int, c as int);
                }
                elements.push(cell);
                c = c + 1;
            }
            proof {
                assert((r + 1) * cols == r * cols + cols) by (nonlinear_arith);
            }
            r = r + 1;
        }
        let m = Matrix { elements, size: Size::new(rows, cols) };
        proof {
            assert forall|rr: int, cc: int|
                0 <= rr < u.len() && 0 <= cc < v.len() implies #[trigger] m.ent(rr, cc)
                == u[rr].times_spec(v[cc]) by {
                lemma_cell_index(rows as int, cols as int, rr, cc);
            }
        }
        m
    }

    /// Scales every element in place: each becomes `val * element`.
    pub fn mul(&mut self, val: T)
        ensures
            final(self).elements@.len() == old(self).elements@.len(),
            forall|i: int|
                0 <= i < old(self).elements@.len() ==> final(self).elements@[i] == val.times_spec(
                    #[trigger] old(self).elements@[i],
                ),
            final(self).shape == old(self).shape,
    {
        let n: usize = self.elements.len();
        let mut i: usize = 0;
        while i < n
            invariant
                n == self.elements@.len(),
                i <= n,
                self.shape == old(self).shape,
                forall|j: int| i <= j < n ==> self.elements@[j] == old(self).elements@[j],
                forall|j: int|
                    0 <= j < i ==> self.elements@[j] == val.times_spec(
                        #[trigger] old(self).elements@[j],
                    ),
            decreases n - i,
        {
            self.elements[i] = val.times(self.elements[i]);
            i = i + 1;
        }
    }

    /// Shifts every element in place: each becomes `val + element`.
    pub fn add(&mut self, val: T)
        ensures
            final(self).elements@.len() == old(self).elements@.len(),
            forall|i: int|
                0 <= i < old(self).elements@.len() ==> final(self).elements@[i] == val.plus_spec(
                    #[trigger] old(self).elements@[i],
                ),
            final(self).shape == old(self).shape,
    {
        let n: usize = self.elements.len();
        let mut i: usize = 0;
        while i < n
            invariant
                n == self.elements@.len(),
                i <= n,
                self.shape == old(self).shape,
                forall|j: int| i <= j < n ==> self.elements@[j] == old(self).elements@[j],
                forall|j: int|
                    0 <= j < i ==> self.elements@[j] == val.plus_spec(
                        #[trigger] old(self).elements@[j],
                    ),
            decreases n - i,
        {
            self.elements[i] = val.plus(self.elements[i]);
            i = i + 1;
        }
    }

    /// A pure elementwise transform: hands `f` the pair `(val, element)` for
    /// each element and collects the results, leaving the vector untouched.
    pub fn map<F: Fn(T, T) -> T>(&self, val: T, f: F) -> (r: Vec<T>)
        requires
            forall|i: int|
                0 <= i < self.elements@.len() ==> call_requires(
                    f,
                    (val, #[trigger] self.elements@[i]),
                ),
        ensures
            r@.len() == self.elements@.len(),
            forall|i: int|
                0 <= i < self.elements@.len() ==> call_ensures(
                    f,
                    (val, self.elements@[i]),
                    #[trigger] r@[i],
                ),
    {
        let n: usize = self.elements.len();
        let mut out: Vec<T> = Vec::new();
        let mut i: usize = 0;
        while i < n
            invariant
                n == self.elements@.len(),
                i <= n,
                out@.len() == i,
                forall|i0: int|
                    0 <= i0 < n ==> call_requires(f, (val, #[trigger] self.elements@[i0])),
                forall|j: int|
                    0 <= j < i ==> call_ensures(f, (val, self.elements@[j]), #[trigger] out@[j]),
            decreases n - i,
        {
            out.push(f(val, self.elements[i]));
            i = i + 1;
        }
        out
    }

    pub fn elements(&self) -> (r: &Vec<T>)
        ensures
            r@ == self.elements@,
    {
        &self.elements
    }

    pub fn shape(&self) -> (r: &Shape)
        ensures
            *r == self.shape,
    {
        &self.shape
    }
}

} // verus!
