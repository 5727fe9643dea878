//! Solving a square linear system by Gaussian elimination with partial
//! pivoting.
//!
//! The specification mirrors the computation exactly: the working matrix
//! after each elimination step, the pivot choice, and the back-substitution
//! folds are all written out as spec functions over sequences, and `solve`'s
//! contract says the returned vector is precisely the value of that
//! recurrence — or that the recurrence hits a pivot equal to the additive
//! identity and no solution is returned.
use vstd::prelude::*;

use crate::matrix::matrix::lemma_cell_index;
use crate::matrix::matrix::rows_view;
use crate::matrix::matrix::Matrix;
use crate::num::Num;
use crate::vector::shape::Shape;
use crate::vector::vector::Vector;

verus! {

/// The `n x (n + 1)` working matrix `[A | b]` of the square system
/// `A x = b`.
pub open spec fn augmented_spec<T: Num>(a: Seq<T>, b: Seq<T>, n: int) -> Seq<Seq<T>> {
    Seq::new(
        n as nat,
        |r: int|
            Seq::new(
                (n + 1) as nat,
                |c: int|
                    if c < n {
                        a[r * n + c]
                    } else {
                        b[r]
                    },
            ),
    )
}

/// The row among `k..j` whose column-`k` entry has the largest absolute
/// value, scanning downward and keeping the earliest row on ties.
pub open spec fn pivot_spec<T: Num>(m: Seq<Seq<T>>, k: int, j: int) -> int
    recommends
        k < j,
    decreases j - k,
{
    if j <= k + 1 {
        k
    } else {
        let p = pivot_spec(m, k, j - 1);
        if (m[p][k].abs_spec()).lt_spec(m[j - 1][k].abs_spec()) {
            j - 1
        } else {
            p
        }
    }
}

/// Both rows of a swap, as an update of the whole matrix.
pub open spec fn swap_rows_spec<T>(m: Seq<Seq<T>>, k: int, p: int) -> Seq<Seq<T>> {
    m.update(k, m[p]).update(p, m[k])
}

/// Row `i` after elimination step `k`: entries left of column `k` kept,
/// the column-`k` entry replaced by the additive identity outright, and
/// every entry to the right reduced by the pivot row scaled with the
/// row's ratio `m[i][k] / m[k][k]`.
pub open spec fn eliminate_row_spec<T: Num>(m: Seq<Seq<T>>, k: int, n: int, i: int) -> Seq<T> {
    Seq::new(
        (n + 1) as nat,
        |j: int|
            if j < k {
                m[i][j]
            } else if j == k {
                T::zero_spec()
            } else {
                m[i][j].minus_spec(m[k][j].times_spec(m[i][k].div_spec(m[k][k])))
            },
    )
}

/// One whole step of forward elimination on column `k`: swap the pivot row
/// up to position `k`, then cancel column `k` in every row below it.
pub open spec fn step_spec<T: Num>(m: Seq<Seq<T>>, k: int, n: int) -> Seq<Seq<T>> {
    let s = swap_rows_spec(m, k, pivot_spec(m, k, n));
    Seq::new(
        n as nat,
        |i: int|
            if i <= k {
                s[i]
            } else {
                eliminate_row_spec(s, k, n, i)
            },
    )
}

/// Forward elimination from column `k` on: the row-echelon working matrix,
/// or nothing if some pivot equals the additive identity exactly.
pub open spec fn elim_spec<T: Num>(m: Seq<Seq<T>>, k: int, n: int) -> Option<Seq<Seq<T>>>
    decreases n - k,
{
    if k >= n {
        Some(m)
    } else if m[pivot_spec(m, k, n)][k] == T::zero_spec() {
        None
    } else {
        elim_spec(step_spec(m, k, n), k + 1, n)
    }
}

/// The accumulator of the back-substitution fold for row `i`, after the
/// columns `i + 1 .. j` have been folded in; `xs` holds the solution
/// entries for rows `i + 1 .. n`, so `xs[t]` is entry `i + 1 + t`.
pub open spec fn back_acc_spec<T: Num>(m: Seq<Seq<T>>, n: int, i: int, xs: Seq<T>, j: int) -> T
    decreases j - i,
{
    if j <= i + 1 {
        m[i][n]
    } else {
        back_acc_spec(m, n, i, xs, j - 1).minus_spec(
            m[i][j - 1].times_spec(xs[j - 1 - (i + 1)]),
        )
    }
}

/// The solution entries for rows `i .. n` of the eliminated working matrix,
/// computed bottom-up: each entry folds the entries below it into the
/// augmented column and divides by the diagonal.
pub open spec fn back_solve_spec<T: Num>(m: Seq<Seq<T>>, n: int, i: int) -> Seq<T>
    decreases n - i,
{
    if i < 0 || i >= n {
        Seq::empty()
    } else {
        let xs = back_solve_spec(m, n, i + 1);
        seq![back_acc_spec(m, n, i, xs, n).div_spec(m[i][i])] + xs
    }
}

/// What the solver computes: eliminate the augmented matrix of the system,
/// then back-substitute — or report no solution on an exact-zero pivot.
pub open spec fn solve_spec<T: Num>(a: Seq<T>, b: Seq<T>, n: int) -> Option<Seq<T>> {
    match elim_spec(augmented_spec(a, b, n), 0, n) {
        Some(m) => Some(back_solve_spec(m, n, 0)),
        None => None,
    }
}

/// A copy of one working row.
fn copy_row<T: Num>(v: &Vec<T>) -> (r: Vec<T>)
    ensures
        r@ == v@,
{
    let n: usize = v.len();
    let mut out: Vec<T> = Vec::new();
    let mut i: usize = 0;
    while i < n
        invariant
            n == v@.len(),
            i <= n,
            out@ == v@.take(i as int),
        decreases n - i,
    {
        out.push(v[i]);
        proof {
            assert(out@ =~= v@.take(i + 1));
        }
        i = i + 1;
    }
    proof {
        assert(v@.take(n as int) =~= v@);
    }
    out
}

/// Builds the working matrix `[A | b]` row by row.
fn build_augmented<T: Num>(a: &Matrix<T>, b: &Vector<T>, n: usize) -> (w: Vec<Vec<T>>)
    requires
        a.wf(),
        a.size.rows == n,
        a.size.cols == n,
        b.elements@.len() == n,
    ensures
        w@.len() == n,
        forall|i: int| 0 <= i < n ==> (#[trigger] w@[i])@.len() == n + 1,
        rows_view(w@) == augmented_spec(a.elements@, b.elements@, n as int),
{
    let ghost aug = augmented_spec(a.elements@, b.elements@, n as int);
    let mut work: Vec<Vec<T>> = Vec::new();
    let mut r: usize = 0;
    while r < n
        invariant
            a.wf(),
            a.size.rows == n,
            a.size.cols == n,
            b.elements@.len() == n,
            aug == augmented_spec(a.elements@, b.elements@, n as int),
            r <= n,
            work@.len() == r,
            forall|i: int| 0 <= i < r ==> (#[trigger] work@[i])@.len() == n + 1,
            forall|i: int| 0 <= i < r ==> (#[trigger] work@[i])@ == aug[i],
        decreases n - r,
    {
        let mut row: Vec<T> = a.get_row(r);
        row.push(b.elements[r]);
        proof {
            lemma_cell_index(n as int, n as int, r as int, n - 1);
            assert(row@ =~= aug[r as int]);
        }
        work.push(row);
        r = r + 1;
    }
    proof {
        assert(rows_view(work@) =~= aug);
    }
    work
}

/// Scans rows `k..n` of column `k` for the entry of largest absolute value.
fn find_pivot<T: Num>(work: &Vec<Vec<T>>, k: usize, n: usize) -> (p: usize)
    requires
        work@.len() == n,
        k < n,
        forall|i: int| 0 <= i < n ==> (#[trigger] work@[i])@.len() == n + 1,
    ensures
        p == pivot_spec(rows_view(work@), k as int, n as int),
        k <= p < n,
{
    let ghost w = rows_view(work@);
    let mut i_max: usize = k;
    let mut max: T = work[k][k].absolute();
    let mut i: usize = k + 1;
    while i < n
        invariant
            work@.len() == n,
            k < n,
            forall|i0: int| 0 <= i0 < n ==> (#[trigger] work@[i0])@.len() == n + 1,
            w == rows_view(work@),
            k + 1 <= i <= n,
            k <= i_max < i,
            max == w[i_max as int][k as int].abs_spec(),
            i_max == pivot_spec(w, k as int, i as int),
        decreases n - i,
    {
        let abs: T = work[i][k].absolute();
        proof {
            assert(w[i as int] == work@[i as int]@);
        }
        if abs.gt(max) {
            i_max = i;
            max = abs;
        }
        i = i + 1;
    }
    i_max
}

/// Performs elimination step `k` in place: swaps the chosen pivot row `p`
/// up to position `k`, then cancels column `k` in every row below it.
fn eliminate_step<T: Num>(work: &mut Vec<Vec<T>>, k: usize, p: usize, n: usize)
    requires
        old(work)@.len() == n,
        k < n,
        k <= p < n,
        n < usize::MAX,
        forall|i: int| 0 <= i < n ==> (#[trigger] old(work)@[i])@.len() == n + 1,
        p == pivot_spec(rows_view(old(work)@), k as int, n as int),
        rows_view(old(work)@)[p as int][k as int] != T::zero_spec(),
    ensures
        final(work)@.len() == n,
        forall|i: int| 0 <= i < n ==> (#[trigger] final(work)@[i])@.len() == n + 1,
        rows_view(final(work)@) == step_spec(rows_view(old(work)@), k as int, n as int),
{
    let ghost w0 = rows_view(old(work)@);
    let ghost s = swap_rows_spec(w0, k as int, p as int);

    let rk: Vec<T> = copy_row(&work[k]);
    let rp: Vec<T> = copy_row(&work[p]);
    work[p] = rk;
    work[k] = rp;
    proof {
        assert forall|i0: int| 0 <= i0 < n implies #[trigger] rows_view(work@)[i0]
            == s[i0] by {
            assert(rows_view(work@)[i0] == work@[i0]@);
        }
    }

    let mut i: usize = k + 1;
    while i < n
        invariant
            work@.len() == n,
            forall|i0: int| 0 <= i0 < n ==> (#[trigger] work@[i0])@.len() == n + 1,
            k < n,
            k + 1 <= i <= n,
            n < usize::MAX,
            s == swap_rows_spec(w0, k as int, p as int),
            k <= p < n,
            s[k as int][k as int] != T::zero_spec(),
            forall|i0: int| 0 <= i0 <= k ==> #[trigger] rows_view(work@)[i0] == s[i0],
            forall|i0: int|
                k < i0 < i ==> #[trigger] rows_view(work@)[i0] == eliminate_row_spec(
                    s,
                    k as int,
                    n as int,
                    i0,
                ),
            forall|i0: int| i <= i0 < n ==> #[trigger] rows_view(work@)[i0] == s[i0],
        decreases n - i,
    {
        let ghost before = rows_view(work@);
        let ghost target = eliminate_row_spec(s, k as int, n as int, i as int);
        proof {
            assert(rows_view(work@)[i as int] == work@[i as int]@);
            assert(rows_view(work@)[k as int] == work@[k as int]@);
        }
        let mut newrow: Vec<T> = Vec::new();
        let mut j: usize = 0;
        while j < n + 1
            invariant
                work@.len() == n,
                forall|i0: int| 0 <= i0 < n ==> (#[trigger] work@[i0])@.len() == n + 1,
                k < n,
                k < i < n,
                j <= n + 1,
                n < usize::MAX,
                rows_view(work@) == before,
                before[k as int] == s[k as int],
                before[i as int] == s[i as int],
                s[k as int].len() == n + 1,
                s[i as int].len() == n + 1,
                s[k as int][k as int] != T::zero_spec(),
                target == eliminate_row_spec(s, k as int, n as int, i as int),
                newrow@.len() == j,
                forall|j0: int| 0 <= j0 < j ==> #[trigger] newrow@[j0] == target[j0],
            decreases n + 1 - j,
        {
            proof {
                assert(work@[i as int]@ == rows_view(work@)[i as int]);
                assert(work@[k as int]@ == rows_view(work@)[k as int]);
            }
            if j < k {
                newrow.push(work[i][j]);
            } else if j == k {
                newrow.push(T::zero());
            } else {
                let factor: T = work[i][k].divide(work[k][k]);
                let val: T = work[i][j].minus(work[k][j].times(factor));
                newrow.push(val);
            }
            j = j + 1;
        }
        proof {
            assert(newrow@ =~= target);
        }
        work[i] = newrow;
        proof {
            assert forall|i0: int| 0 <= i0 < n && i0 != i implies #[trigger] rows_view(
                work@,
            )[i0] == before[i0] by {
                assert(rows_view(work@)[i0] == work@[i0]@);
            }
            assert(rows_view(work@)[i as int] == target);
        }
        i = i + 1;
    }
    proof {
        assert forall|i0: int| 0 <= i0 < n implies #[trigger] rows_view(work@)[i0]
            == step_spec(w0, k as int, n as int)[i0] by {
            assert(rows_view(work@)[i0] == work@[i0]@);
        }
        assert(rows_view(work@) =~= step_spec(w0, k as int, n as int));
    }
}

/// Solves the upper-triangular system left by forward elimination, from the
/// last row up.
fn back_substitute<T: Num>(work: &Vec<Vec<T>>, n: usize) -> (x: Vec<T>)
    requires
        work@.len() == n,
        n >= 1,
        forall|i: int| 0 <= i < n ==> (#[trigger] work@[i])@.len() == n + 1,
        forall|i: int| 0 <= i < n ==> #[trigger] rows_view(work@)[i][i] != T::zero_spec(),
    ensures
        x@ == back_solve_spec(rows_view(work@), n as int, 0),
        x@.len() == n,
{
    let ghost w = rows_view(work@);
    let mut x: Vec<T> = Vec::new();
    let mut t: usize = 0;
    while t < n
        invariant
            t <= n,
            x@.len() == t,
        decreases n - t,
    {
        x.push(T::zero());
        t = t + 1;
    }

    let mut i: usize = n;
    while i > 0
        invariant
            work@.len() == n,
            n >= 1,
            forall|i0: int| 0 <= i0 < n ==> (#[trigger] work@[i0])@.len() == n + 1,
            forall|i0: int| 0 <= i0 < n ==> #[trigger] w[i0][i0] != T::zero_spec(),
            w == rows_view(work@),
            i <= n,
            x@.len() == n,
            forall|t0: int|
                i <= t0 < n ==> #[trigger] x@[t0] == back_solve_spec(w, n as int, t0)[0],
        decreases i,
    {
        i = i - 1;
        let ghost xs = back_solve_spec(w, n as int, i + 1);
        proof {
            lemma_back_solve_len(w, n as int, i + 1);
            assert(w[i as int] == work@[i as int]@);
        }
        let mut acc: T = work[i][n];
        let mut j: usize = i + 1;
        while j < n
            invariant
                work@.len() == n,
                n >= 1,
                forall|i0: int| 0 <= i0 < n ==> (#[trigger] work@[i0])@.len() == n + 1,
                w == rows_view(work@),
                i < n,
                i + 1 <= j <= n,
                x@.len() == n,
                forall|t0: int|
                    i < t0 < n ==> #[trigger] x@[t0] == back_solve_spec(w, n as int, t0)[0],
                xs == back_solve_spec(w, n as int, i + 1),
                xs.len() == n - i - 1,
                acc == back_acc_spec(w, n as int, i as int, xs, j as int),
            decreases n - j,
        {
            proof {
                lemma_back_solve_index(w, n as int, i + 1, j as int);
                assert(w[i as int] == work@[i as int]@);
            }
            acc = acc.minus(work[i][j].times(x[j]));
            j = j + 1;
        }
        proof {
            assert(w[i as int] == work@[i as int]@);
        }
        let xi: T = acc.divide(work[i][i]);
        x[i] = xi;
        proof {
            assert(back_solve_spec(w, n as int, i as int)[0] == xi);
        }
    }
    proof {
        lemma_back_solve_len(w, n as int, 0);
        assert forall|t0: int| 0 <= t0 < n implies x@[t0] == back_solve_spec(
            w,
            n as int,
            0,
        )[t0] by {
            lemma_back_solve_index(w, n as int, 0, t0);
        }
        assert(x@ =~= back_solve_spec(w, n as int, 0));
    }
    x
}

/// The chosen pivot row lies in the scanned range.
pub(crate) proof fn lemma_pivot_bounds<T: Num>(m: Seq<Seq<T>>, k: int, j: int)
    requires
        k < j,
    ensures
        k <= pivot_spec(m, k, j) < j,
    decreases j - k,
{
    if j <= k + 1 {
    } else {
        lemma_pivot_bounds(m, k, j - 1);
    }
}

/// Back substitution yields one entry per remaining row.
pub(crate) proof fn lemma_back_solve_len<T: Num>(m: Seq<Seq<T>>, n: int, i: int)
    requires
        0 <= i <= n,
    ensures
        back_solve_spec(m, n, i).len() == n - i,
    decreases n - i,
{
    if i < n {
        lemma_back_solve_len(m, n, i + 1);
    }
}

/// Entry `t` of the tail solution starting at row `i` is the head of the
/// tail solution starting at row `i + t`.
pub(crate) proof fn lemma_back_solve_index<T: Num>(m: Seq<Seq<T>>, n: int, i: int, t: int)
    requires
        0 <= i <= t < n,
    ensures
        back_solve_spec(m, n, i)[t - i] == back_solve_spec(m, n, t)[0],
    decreases t - i,
{
    lemma_back_solve_len(m, n, i + 1);
    if i < t {
        lemma_back_solve_index(m, n, i + 1, t);
    }
}

pub struct GaussianElimination {}

impl GaussianElimination {
    /// Solves `a * x = b` for square `a` by Gaussian elimination with
    /// partial pivoting.
    ///
    /// A system whose shapes disagree is rejected with an error. Otherwise
    /// the result is exactly what the specification recurrence computes:
    /// `None` when elimination meets a pivot equal to the additive identity
    /// (a singular system), and otherwise the back-substituted solution as
    /// a column vector.
    pub fn solve<T: Num>(a: Matrix<T>, b: Vector<T>) -> (res: Result<
        Option<Vector<T>>,
        &'static str,
    >)
        requires
            a.wf(),
        ensures
            match res {
                Ok(opt) => {
                    &&& a.size.rows == a.size.cols
                    &&& a.size.rows == b.elements@.len()
                    &&& match opt {
                        Some(x) => {
                            &&& solve_spec(
                                a.elements@,
                                b.elements@,
                                b.elements@.len() as int,
                            ) == Some(x.elements@)
                            &&& x.shape == Shape::Col
                            &&& x.elements@.len() == b.elements@.len()
                        },
                        None => solve_spec(
                            a.elements@,
                            b.elements@,
                            b.elements@.len() as int,
                        ) is None,
                    }
                },
                Err(_) => !(a.size.rows == a.size.cols && a.size.rows == b.elements@.len()),
            },
    {
        let n: usize = b.size();
        if a.size.rows() != a.size.cols() || a.size.cols() != n {
            return Err("system dimensions do not match");
        }

        let an: usize = a.elements.len();
        proof {
            assert(n >= 1 && n < usize::MAX) by (nonlinear_arith)
                requires
                    an == n * n,
                    n > 0,
                    an <= usize::MAX,
                    usize::MAX >= 2,
            ;
        }

        let mut work: Vec<Vec<T>> = build_augmented(&a, &b, n);
        let ghost m0 = rows_view(work@);

        let mut k: usize = 0;
        while k < n
            invariant
                work@.len() == n,
                forall|i: int| 0 <= i < n ==> (#[trigger] work@[i])@.len() == n + 1,
                1 <= n < usize::MAX,
                k <= n,
                a.wf(),
                a.size.rows == n,
                a.size.cols == n,
                b.elements@.len() == n,
                m0 == augmented_spec(a.elements@, b.elements@, n as int),
                elim_spec(m0, 0, n as int) == elim_spec(rows_view(work@), k as int, n as int),
                forall|i: int| 0 <= i < k ==> #[trigger] rows_view(work@)[i][i] != T::zero_spec(),
            decreases n - k,
        {
            let ghost w = rows_view(work@);
            let p: usize = find_pivot(&work, k, n);
            proof {
                assert(w[p as int] == work@[p as int]@);
            }
            if work[p][k].eq_val(T::zero()) {
                proof {
                    assert(elim_spec(w, k as int, n as int) is None);
                }
                return Ok(None);
            }
            eliminate_step(&mut work, k, p, n);
            proof {
                let w1 = rows_view(work@);
                assert(w1 == step_spec(w, k as int, n as int));
                assert(elim_spec(w, k as int, n as int) == elim_spec(w1, k + 1, n as int));
                lemma_pivot_bounds(w, k as int, n as int);
                assert forall|i: int| 0 <= i < k + 1 implies #[trigger] w1[i][i]
                    != T::zero_spec() by {
                    let s = swap_rows_spec(w, k as int, p as int);
                    if i < k {
                        assert(w1[i] == s[i]);
                        assert(s[i] == w[i]);
                    } else {
                        assert(w1[k as int] == s[k as int]);
                        assert(s[k as int] == w[p as int]);
                    }
                }
            }
            k = k + 1;
        }

        proof {
            assert(elim_spec(m0, 0, n as int) == Some(rows_view(work@)));
        }
        let x: Vec<T> = back_substitute(&work, n);
        Ok(Some(Vector::new(x, Shape::Col)))
    }
}

} // verus!
