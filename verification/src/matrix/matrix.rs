//! Dense matrices: row-major flat storage plus a size, and their algebra.
use vstd::prelude::*;

use crate::generator::Generator;
use crate::matrix::size::Size;
use crate::num::Num;
use crate::vector::shape::Shape;
use crate::vector::vector::dot_spec;
use crate::vector::vector::Vector;

verus! {

/// The element sequences of a nested grid of rows.
pub open spec fn rows_view<T>(data: Seq<Vec<T>>) -> Seq<Seq<T>> {
    data.map_values(|r: Vec<T>| r@)
}

/// Every row of the grid holds exactly `cols` elements.
pub open spec fn is_grid<T>(g: Seq<Seq<T>>, cols: int) -> bool {
    forall|i: int| 0 <= i < g.len() ==> (#[trigger] g[i]).len() == cols
}

/// Row-major storage of the transpose: entry `(j, i)` of the result is entry
/// `(i, j)` of a matrix with `rows` rows and `cols` columns.
pub open spec fn transpose_spec<T>(m: Seq<T>, rows: int, cols: int) -> Seq<T>
    recommends
        m.len() == rows * cols,
{
    Seq::new((rows * cols) as nat, |k: int| m[(k % rows) * cols + k / rows])
}

/// Row `r` of a row-major matrix with `cols` columns.
pub open spec fn row_of<T>(m: Seq<T>, cols: int, r: int) -> Seq<T> {
    m.subrange(r * cols, r * cols + cols)
}

/// Column `c` of a row-major matrix with `rows` rows and `cols` columns.
pub open spec fn col_of<T>(m: Seq<T>, rows: int, cols: int, c: int) -> Seq<T> {
    Seq::new(rows as nat, |i: int| m[i * cols + c])
}

/// Row-major storage of the matrix product of `a` (shape `arows x inner`)
/// and `b` (shape `inner x bcols`): each cell is the scalar product of a row
/// of `a` and a column of `b`.
pub open spec fn product_spec<T: Num>(
    a: Seq<T>,
    b: Seq<T>,
    arows: int,
    inner: int,
    bcols: int,
) -> Seq<T> {
    Seq::new(
        (arows * bcols) as nat,
        |k: int| dot_spec(row_of(a, inner, k / bcols), col_of(b, inner, bcols, k % bcols)),
    )
}

/// Elementwise `a[i] + coef * b[i]`.
pub open spec fn add_with_coef_spec<T: Num>(a: Seq<T>, b: Seq<T>, coef: T) -> Seq<T> {
    Seq::new(a.len(), |i: int| a[i].plus_spec(coef.times_spec(b[i])))
}

/// Elementwise `a[i] * val`.
pub open spec fn scale_spec<T: Num>(a: Seq<T>, val: T) -> Seq<T> {
    Seq::new(a.len(), |i: int| a[i].times_spec(val))
}

/// The left fold that a summing loop computes: starting from the additive
/// identity, add each element in storage order.
pub open spec fn sum_spec<T: Num>(s: Seq<T>) -> T
    decreases s.len(),
{
    if s.len() == 0 {
        T::zero_spec()
    } else {
        sum_spec(s.drop_last()).plus_spec(s.last())
    }
}

/// A cell index computed as `row * cols + col` stays inside the storage and
/// decomposes back into its row and column.
pub(crate) proof fn lemma_cell_index(rows: int, cols: int, r: int, c: int)
    requires
        0 <= r < rows,
        0 <= c < cols,
    ensures
        0 <= r * cols + c < rows * cols,
        (r * cols + c) / cols == r,
        (r * cols + c) % cols == c,
{
    assert(0 <= r * cols + c < rows * cols) by (nonlinear_arith)
        requires
            0 <= r < rows,
            0 <= c < cols,
    ;
    vstd::arithmetic::div_mod::lemma_fundamental_div_mod_converse(r * cols + c, cols, r, c);
}

pub struct Matrix<T> {
    pub elements: Vec<T>,
    pub size: Size,
}

impl<T: Num> Matrix<T> {
    /// The storage holds exactly one element per cell, and neither extent is
    /// zero. Every constructor establishes this and every operation keeps it.
    pub open spec fn wf(self) -> bool {
        &&& self.elements@.len() == self.size.rows * self.size.cols
        &&& self.size.rows > 0
        &&& self.size.cols > 0
    }

    /// Entry at row `r`, column `c` of the row-major storage.
    pub open spec fn ent(self, r: int, c: int) -> T {
        self.elements@[r * self.size.cols + c]
    }

    /// Builds a matrix from a non-empty rectangular grid of rows, flattened
    /// in row-major order; the size is the outer length by the inner length.
    pub fn new(data: &Vec<Vec<T>>) -> (m: Matrix<T>)
        requires
            data@.len() > 0,
            data@[0]@.len() > 0,
            is_grid(rows_view(data@), data@[0]@.len() as int),
        ensures
            m.wf(),
            m.size.rows == data@.len(),
            m.size.cols == data@[0]@.len(),
            m.elements@ == rows_view(data@).flatten(),
    {
        let rows: usize = data.len();
        let cols: usize = data[0].len();
        let mut elements: Vec<T> = Vec::new();
        let mut i: usize = 0;
        while i < rows
            invariant
                rows == data@.len(),
                cols == data@[0]@.len(),
                is_grid(rows_view(data@), cols as int),
                i <= rows,
                elements@ == rows_view(data@.take(i as int)).flatten(),
                elements@.len() == i * cols,
            decreases rows - i,
        {
            let row: &Vec<T> = &data[i];
            let mut j: usize = 0;
            proof {
                assert(rows_view(data@)[i as int] == data@[i as int]@);
            }
            while j < cols
                invariant
                    rows == data@.len(),
                    cols == data@[0]@.len(),
                    is_grid(rows_view(data@), cols as int),
                    i < rows,
                    row == &data@[i as int],
                    row@.len() == cols,
                    j <= cols,
                    elements@ == rows_view(data@.take(i as int)).flatten() + row@.take(j as int),
                    elements@.len() == i * cols + j,
                decreases cols - j,
            {
                elements.push(row[j]);
                proof {
                    assert(row@.take(j + 1) =~= row@.take(j as int).push(row@[j as int]));
                    assert(elements@ == rows_view(data@.take(i as int)).flatten() + row@.take(
                        j + 1,
                    ));
                }
                j = j + 1;
            }
            proof {
                assert(row@.take(cols as int) =~= row@);
                lemma_flatten_push(rows_view(data@.take(i as int)), row@);
                assert(rows_view(data@.take(i as int)).push(row@) =~= rows_view(
                    data@.take(i + 1),
                ));
                assert((i + 1) * cols == i * cols + cols) by (nonlinear_arith);
            }
            i = i + 1;
        }
        proof {
            assert(data@.take(rows as int) =~= data@);
        }
        Matrix { elements, size: Size::new(rows, cols) }
    }

    /// A fresh `rows x cols` matrix of uniform samples from `[low, high)`.
    pub fn random(low: T, high: T, rows: usize, cols: usize) -> (m: Matrix<T>)
        requires
            low.lt_spec(high),
            rows > 0,
            cols > 0,
        ensures
            m.wf(),
            m.size.rows == rows,
            m.size.cols == cols,
            forall|k: int|
                0 <= k < m.elements@.len() ==> !(#[trigger] m.elements@[k]).lt_spec(low)
                    && m.elements@[k].lt_spec(high),
    {
        let mut elements: Vec<T> = Vec::new();
        let mut r: usize = 0;
        while r < rows
            invariant
                low.lt_spec(high),
                r <= rows,
                elements@.len() == r * cols,
                forall|k: int|
                    0 <= k < elements@.len() ==> !(#[trigger] elements@[k]).lt_spec(low)
                        && elements@[k].lt_spec(high),
            decreases rows - r,
        {
            let mut chunk: Vec<T> = Generator::random_elements(low, high, cols);
            elements.append(&mut chunk);
            proof {
                assert((r + 1) * cols == r * cols + cols) by (nonlinear_arith);
            }
            r = r + 1;
        }
        Matrix { elements, size: Size::new(rows, cols) }
    }

    /// The matrix with rows and columns exchanged: entry `(j, i)` of the
    /// result is entry `(i, j)` of `self`.
    pub fn transpose(&self) -> (m: Matrix<T>)
        requires
            self.wf(),
        ensures
            m.wf(),
            m.size.rows == self.size.cols,
            m.size.cols == self.size.rows,
            m.elements@ == transpose_spec(
                self.elements@,
                self.size.rows as int,
                self.size.cols as int,
            ),
    {
        let rows: usize = self.size.rows();
        let cols: usize = self.size.cols();
        let n: usize = self.elements.len();
        let mut elements: Vec<T> = Vec::new();
        let mut j: usize = 0;
        while j < cols
            invariant
                self.wf(),
                rows == self.size.rows,
                cols == self.size.cols,
                n == self.elements@.len(),
                j <= cols,
                elements@.len() == j * rows,
                forall|k: int|
                    0 <= k < elements@.len() ==> #[trigger] elements@[k] == self.elements@[(k
                        % rows as int) * cols + k / rows as int],
            decreases cols - j,
        {
            let mut i: usize = 0;
            while i < rows
                invariant
                    self.wf(),
                    rows == self.size.rows,
                    cols == self.size.cols,
                    n == self.elements@.len(),
                    j < cols,
                    i <= rows,
                    elements@.len() == j * rows + i,
                    forall|k: int|
                        0 <= k < elements@.len() ==> #[trigger] elements@[k] == self.elements@[(k
                            % rows as int) * cols + k / rows as int],
                decreases rows - i,
            {
                proof {
                    lemma_cell_index(rows as int, cols as int, i as int, j as int);
                    lemma_cell_index(cols as int, rows as int, j as int, i as int);
                }
                elements.push(self.elements[i * cols + j]);
                i = i + 1;
            }
            proof {
                assert((j + 1) * rows == j * rows + rows) by (nonlinear_arith);
            }
            j = j + 1;
        }
        proof {
            assert(cols * rows == rows * cols) by (nonlinear_arith);
            assert(elements@ =~= transpose_spec(
                self.elements@,
                self.size.rows as int,
                self.size.cols as int,
            ));
        }
        Matrix { elements, size: Size::new(cols, rows) }
    }

    /// The matrix product; defined exactly when the inner extents agree,
    /// that is when `self.cols == right.rows`. Each cell of the result is
    /// the scalar product of a row of `self` and a column of `right`.
    pub fn product(&self, right: &Matrix<T>) -> (res: Result<Matrix<T>, &'static str>)
        requires
            self.wf(),
            right.wf(),
        ensures
            match res {
                Ok(m) => {
                    &&& self.size.cols == right.size.rows
                    &&& m.wf()
                    &&& m.size.rows == self.size.rows
                    &&& m.size.cols == right.size.cols
                    &&& m.elements@ == product_spec(
                        self.elements@,
                        right.elements@,
                        self.size.rows as int,
                        self.size.cols as int,
                        right.size.cols as int,
                    )
                },
                Err(_) => self.size.cols != right.size.rows,
            },
    {
        if self.size.cols() != right.size.rows() {
            return Err("product is not defined");
        }

        let arows: usize = self.size.rows();
        let inner: usize = self.size.cols();
        let bcols: usize = right.size.cols();
        let an: usize = self.elements.len();
        let bn: usize = right.elements.len();
        let ghost a: Seq<T> = self.elements@;
        let ghost b: Seq<T> = right.elements@;
        let mut elements: Vec<T> = Vec::new();
        let mut r: usize = 0;
        while r < arows
            invariant
                self.wf(),
                right.wf(),
                arows == self.size.rows,
                inner == self.size.cols,
                inner == right.size.rows,
                bcols == right.size.cols,
                an == a.len(),
                bn == b.len(),
                a == self.elements@,
                b == right.elements@,
                r <= arows,
                elements@.len() == r * bcols,
                forall|k: int|
                    0 <= k < elements@.len() ==> #[trigger] elements@[k] == dot_spec(
                        row_of(a, inner as int, k / bcols as int),
                        col_of(b, inner as int, bcols as int, k % bcols as int),
                    ),
            decreases arows - r,
        {
            let mut c: usize = 0;
            while c < bcols
                invariant
                    self.wf(),
                    right.wf(),
                    arows == self.size.rows,
                    inner == self.size.cols,
                    inner == right.size.rows,
                    bcols == right.size.cols,
                    an == a.len(),
                    bn == b.len(),
                    a == self.elements@,
                    b == right.elements@,
                    r < arows,
                    c <= bcols,
                    elements@.len() == r * bcols + c,
                    forall|k: int|
                        0 <= k < elements@.len() ==> #[trigger] elements@[k] == dot_spec(
                            row_of(a, inner as int, k / bcols as int),
                            col_of(b, inner as int, bcols as int, k % bcols as int),
                        ),
                decreases bcols - c,
            {
                let ghost arow: Seq<T> = row_of(a, inner as int, r as int);
                let ghost bcol: Seq<T> = col_of(b, inner as int, bcols as int, c as int);
                proof {
                    lemma_cell_index(arows as int, inner as int, r as int, inner - 1);
                    assert(arow.len() == inner);
                    assert(bcol.len() == inner);
                }
                let mut cell: T = T::zero();
                let mut i: usize = 0;
                while i < inner
                    invariant
                        self.wf(),
                        right.wf(),
                        arows == self.size.rows,
                        inner == self.size.cols,
                        inner == right.size.rows,
                        bcols == right.size.cols,
                        an == a.len(),
                        bn == b.len(),
                        a == self.elements@,
                        b == right.elements@,
                        r < arows,
                        c < bcols,
                        i <= inner,
                        arow == row_of(a, inner as int, r as int),
                        bcol == col_of(b, inner as int, bcols as int, c as int),
                        arow.len() == inner,
                        bcol.len() == inner,
                        cell == dot_spec(arow.take(i as int), bcol.take(i as int)),
                    decreases inner - i,
                {
                    proof {
                        lemma_cell_index(arows as int, inner as int, r as int, i as int);
                        lemma_cell_index(arows as int, inner as int, r as int, inner - 1);
                        lemma_cell_index(inner as int, bcols as int, i as int, c as int);
                        assert(arow.take(i + 1).drop_last() =~= arow.take(i as int));
                        assert(bcol.take(i + 1).drop_last() =~= bcol.take(i as int));
                        assert(arow[i as int] == a[r * inner + i]);
                        assert(bcol[i as int] == b[i * bcols + c]);
                    }
                    cell = cell.plus(
                        self.elements[r * inner + i].times(right.elements[i * bcols + c]),
                    );
                    i = i + 1;
                }
                proof {
                    assert(arow.take(inner as int) =~= arow);
                    assert(bcol.take(inner as int) =~= bcol);
                    lemma_cell_index(arows as int, bcols as int, r as int, c as int);
                }
                elements.push(cell);
                c = c + 1;
            }
            proof {
                assert((r + 1) * bcols == r * bcols + bcols) by (nonlinear_arith);
            }
            r = r + 1;
        }
        proof {
            assert(elements@ =~= product_spec(
                a,
                b,
                arows as int,
                inner as int,
                bcols as int,
            ));
        }
        Ok(Matrix { elements, size: Size::new(arows, bcols) })
    }

    /// The product with a vector read as a column; defined exactly when
    /// `self.cols` equals the vector's length. The result is a column vector
    /// whose entries are the scalar products of the rows of `self` with the
    /// vector.
    pub fn vector_product(&self, vector: &Vector<T>) -> (res: Result<Vector<T>, &'static str>)
        requires
            self.wf(),
        ensures
            match res {
                Ok(v) => {
                    &&& self.size.cols == vector.elements@.len()
                    &&& v.shape == Shape::Col
                    &&& v.elements@.len() == self.size.rows
                    &&& forall|r: int|
                        0 <= r < self.size.rows ==> #[trigger] v.elements@[r] == dot_spec(
                            row_of(self.elements@, self.size.cols as int, r),
                            vector.elements@,
                        )
                },
                Err(_) => self.size.cols != vector.elements@.len(),
            },
    {
        if self.size.cols() != vector.size() {
            return Err("product is not defined");
        }

        let rows: usize = self.size.rows();
        let cols: usize = self.size.cols();
        let an: usize = self.elements.len();
        let ghost a: Seq<T> = self.elements@;
        let ghost x: Seq<T> = vector.elements@;
        let mut elements: Vec<T> = Vec::new();
        let mut r: usize = 0;
        while r < rows
            invariant
                self.wf(),
                rows == self.size.rows,
                cols == self.size.cols,
                cols == x.len(),
                an == a.len(),
                a == self.elements@,
                x == vector.elements@,
                r <= rows,
                elements@.len() == r,
                forall|k: int|
                    0 <= k < r ==> #[trigger] elements@[k] == dot_spec(
                        row_of(a, cols as int, k),
                        x,
                    ),
            decreases rows - r,
        {
            let ghost arow: Seq<T> = row_of(a, cols as int, r as int);
            proof {
                lemma_cell_index(rows as int, cols as int, r as int, cols - 1);
                assert(arow.len() == cols);
            }
            let mut cell: T = T::zero();
            let mut c: usize = 0;
            while c < cols
                invariant
                    self.wf(),
                    rows == self.size.rows,
                    cols == self.size.cols,
                    cols == x.len(),
                    an == a.len(),
                    a == self.elements@,
                    x == vector.elements@,
                    r < rows,
                    c <= cols,
                    arow == row_of(a, cols as int, r as int),
                    arow.len() == cols,
                    cell == dot_spec(arow.take(c as int), x.take(c as int)),
                decreases cols - c,
            {
                proof {
                    lemma_cell_index(rows as int, cols as int, r as int, c as int);
                    lemma_cell_index(rows as int, cols as int, r as int, cols - 1);
                    assert(arow.take(c + 1).drop_last() =~= arow.take(c as int));
                    assert(x.take(c + 1).drop_last() =~= x.take(c as int));
                    assert(arow[c as int] == a[r * cols + c]);
                }
                cell = cell.plus(self.elements[r * cols + c].times(vector.elements[c]));
                c = c + 1;
            }
            proof {
                assert(arow.take(cols as int) =~= arow);
                assert(x.take(cols as int) =~= x);
            }
            elements.push(cell);
            r = r + 1;
        }
        Ok(Vector::new(elements, Shape::Col))
    }

    /// The elementwise sum; defined whenever the two matrices hold the same
    /// number of cells, as the storage layout is shared.
    pub fn add(&self, right: &Matrix<T>) -> (res: Result<Matrix<T>, &'static str>)
        requires
            self.wf(),
            right.wf(),
        ensures
            match res {
                Ok(m) => {
                    &&& self.size.rows * self.size.cols == right.size.rows * right.size.cols
                    &&& m.wf()
                    &&& m.size == self.size
                    &&& m.elements@ == add_with_coef_spec(
                        self.elements@,
                        right.elements@,
                        T::one_spec(),
                    )
                },
                Err(_) => self.size.rows * self.size.cols != right.size.rows * right.size.cols,
            },
    {
        match self.add_with_coeficient(right, T::one()) {
            Ok(elements) => Ok(Matrix { elements, size: self.size.clone() }),
            Err(e) => Err(e),
        }
    }

    /// The elementwise difference, computed as addition with coefficient
    /// minus one.
    pub fn subtract(&self, right: &Matrix<T>) -> (res: Result<Matrix<T>, &'static str>)
        requires
            self.wf(),
            right.wf(),
        ensures
            match res {
                Ok(m) => {
                    &&& self.size.rows * self.size.cols == right.size.rows * right.size.cols
                    &&& m.wf()
                    &&& m.size == self.size
                    &&& m.elements@ == add_with_coef_spec(
                        self.elements@,
                        right.elements@,
                        T::minus_one_spec(),
                    )
                },
                Err(_) => self.size.rows * self.size.cols != right.size.rows * right.size.cols,
            },
    {
        match self.add_with_coeficient(right, T::minus_one()) {
            Ok(elements) => Ok(Matrix { elements, size: self.size.clone() }),
            Err(e) => Err(e),
        }
    }

    /// Every element multiplied by `val`; same shape.
    pub fn scalar(&self, val: T) -> (m: Matrix<T>)
        requires
            self.wf(),
        ensures
            m.wf(),
            m.size == self.size,
            m.elements@ == scale_spec(self.elements@, val),
    {
        let n: usize = self.elements.len();
        let mut elements: Vec<T> = Vec::new();
        let mut i: usize = 0;
        while i < n
            invariant
                n == self.elements@.len(),
                i <= n,
                elements@.len() == i,
                forall|k: int|
                    0 <= k < i ==> #[trigger] elements@[k] == self.elements@[k].times_spec(val),
            decreases n - i,
        {
            elements.push(self.elements[i].times(val));
            i = i + 1;
        }
        proof {
            assert(elements@ =~= scale_spec(self.elements@, val));
        }
        Matrix { elements, size: self.size.clone() }
    }

    /// True exactly when the two matrices hold the same elements in the same
    /// storage order; the sizes play no part beyond the element count.
    pub fn equals(&self, matrix: &Matrix<T>) -> (r: bool)
        ensures
            r == (self.elements@ == matrix.elements@),
    {
        if self.elements.len() != matrix.elements.len() {
            return false;
        }
        let n: usize = self.elements.len();
        let mut i: usize = 0;
        while i < n
            invariant
                n == self.elements@.len(),
                n == matrix.elements@.len(),
                i <= n,
                forall|j: int| 0 <= j < i ==> self.elements@[j] == matrix.elements@[j],
            decreases n - i,
        {
            if !self.elements[i].eq_val(matrix.elements[i]) {
                return false;
            }
            i = i + 1;
        }
        proof {
            assert(self.elements@ =~= matrix.elements@);
        }
        true
    }

    /// The left fold of all elements under addition, in storage order.
    pub fn sum(&self) -> (r: T)
        ensures
            r == sum_spec(self.elements@),
    {
        let n: usize = self.elements.len();
        let mut acc: T = T::zero();
        let mut i: usize = 0;
        while i < n
            invariant
                n == self.elements@.len(),
                i <= n,
                acc == sum_spec(self.elements@.take(i as int)),
            decreases n - i,
        {
            proof {
                assert(self.elements@.take(i + 1).drop_last() =~= self.elements@.take(i as int));
            }
            acc = acc.plus(self.elements[i]);
            i = i + 1;
        }
        proof {
            assert(self.elements@.take(n as int) =~= self.elements@);
        }
        acc
    }

    /// The sum divided by the element count; asks the caller to rule out a
    /// count that maps to the additive identity, as division by it is not
    /// defined.
    pub fn mean(&self) -> (r: T)
        requires
            self.wf(),
            T::from_usize_spec(self.elements@.len() as usize) != T::zero_spec(),
        ensures
            r == sum_spec(self.elements@).div_spec(
                T::from_usize_spec(self.elements@.len() as usize),
            ),
    {
        let count: T = T::from_usize(self.elements.len());
        self.sum().divide(count)
    }

    pub fn get(&self, row: usize, col: usize) -> (r: Option<&T>)
        requires
            self.wf(),
        ensures
            row < self.size.rows && col < self.size.cols ==> r == Some(
                &self.elements@[row * self.size.cols + col],
            ),
            !(row < self.size.rows && col < self.size.cols) ==> r is None,
    {
        if row < self.size.rows() && col < self.size.cols() {
            proof {
                lemma_cell_index(
                    self.size.rows as int,
                    self.size.cols as int,
                    row as int,
                    col as int,
                );
            }
            let index: usize = self.get_index(row, col);
            Some(&self.elements[index])
        } else {
            None
        }
    }

    /// Replaces one cell in place; the only mutation a matrix admits.
    pub fn set(&mut self, row: usize, col: usize, val: T)
        requires
            old(self).wf(),
            row < old(self).size.rows,
            col < old(self).size.cols,
        ensures
            final(self).wf(),
            final(self).size == old(self).size,
            final(self).elements@ == old(self).elements@.update(
                row * old(self).size.cols + col,
                val,
            ),
    {
        proof {
            lemma_cell_index(
                self.size.rows as int,
                self.size.cols as int,
                row as int,
                col as int,
            );
        }
        let index: usize = self.get_index(row, col);
        self.elements[index] = val;
    }

    /// A copy of row `row`: the `cols` elements starting at `row * cols`.
    pub fn get_row(&self, row: usize) -> (r: Vec<T>)
        requires
            self.wf(),
            row < self.size.rows,
        ensures
            r@ == row_of(self.elements@, self.size.cols as int, row as int),
    {
        let cols: usize = self.size.cols();
        let n: usize = self.elements.len();
        proof {
            lemma_cell_index(self.size.rows as int, cols as int, row as int, cols - 1);
        }
        let base: usize = row * cols;
        let mut out: Vec<T> = Vec::new();
        let mut j: usize = 0;
        while j < cols
            invariant
                self.wf(),
                cols == self.size.cols,
                row < self.size.rows,
                base == row * cols,
                n == self.elements@.len(),
                base + cols <= n,
                j <= cols,
                out@ =~= self.elements@.subrange(base as int, base + j),
            decreases cols - j,
        {
            out.push(self.elements[base + j]);
            proof {
                assert(out@ =~= self.elements@.subrange(base as int, base + j + 1));
            }
            j = j + 1;
        }
        out
    }

    pub fn size(&self) -> (s: &Size)
        ensures
            s == &self.size,
    {
        &self.size
    }

    /// The number of cells, `rows * cols`.
    pub fn order(&self) -> (r: usize)
        requires
            self.wf(),
        ensures
            r == self.size.rows * self.size.cols,
    {
        let n: usize = self.elements.len();
        proof {
            assert(self.size.rows * self.size.cols == n);
        }
        self.size.rows() * self.size.cols()
    }

    fn has_same_order(&self, other: &Matrix<T>) -> (r: bool)
        requires
            self.wf(),
            other.wf(),
        ensures
            r == (self.size.rows * self.size.cols == other.size.rows * other.size.cols),
    {
        self.order() == other.order()
    }

    fn add_with_coeficient(&self, right: &Matrix<T>, coeficient: T) -> (res: Result<
        Vec<T>,
        &'static str,
    >)
        requires
            self.wf(),
            right.wf(),
        ensures
            match res {
                Ok(v) => {
                    &&& self.size.rows * self.size.cols == right.size.rows * right.size.cols
                    &&& v@ == add_with_coef_spec(self.elements@, right.elements@, coeficient)
                },
                Err(_) => self.size.rows * self.size.cols != right.size.rows * right.size.cols,
            },
    {
        if !self.has_same_order(right) {
            return Err("matrices must have the same order");
        }

        let n: usize = self.elements.len();
        let mut elements: Vec<T> = Vec::new();
        let mut i: usize = 0;
        while i < n
            invariant
                n == self.elements@.len(),
                n == right.elements@.len(),
                i <= n,
                elements@.len() == i,
                forall|k: int|
                    0 <= k < i ==> #[trigger] elements@[k] == self.elements@[k].plus_spec(
                        coeficient.times_spec(right.elements@[k]),
                    ),
            decreases n - i,
        {
            elements.push(self.elements[i].plus(coeficient.times(right.elements[i])));
            i = i + 1;
        }
        proof {
            assert(elements@ =~= add_with_coef_spec(self.elements@, right.elements@, coeficient));
        }
        Ok(elements)
    }

    fn get_index(&self, row: usize, col: usize) -> (r: usize)
        requires
            self.wf(),
            row < self.size.rows,
            col < self.size.cols,
            row * self.size.cols + col < self.elements@.len(),
        ensures
            r == row * self.size.cols + col,
    {
        let n: usize = self.elements.len();
        proof {
            assert(row * self.size.cols + col < n);
        }
        row * self.size.cols() + col
    }
}

/// The largest element of a non-empty sequence, scanned left to right.
pub open spec fn max_spec(s: Seq<i32>) -> i32
    recommends
        s.len() > 0,
    decreases s.len(),
{
    if s.len() <= 1 {
        s[0]
    } else {
        let m = max_spec(s.drop_last());
        if s.last() > m {
            s.last()
        } else {
            m
        }
    }
}

/// The smallest element of a non-empty sequence, scanned left to right.
pub open spec fn min_spec(s: Seq<i32>) -> i32
    recommends
        s.len() > 0,
    decreases s.len(),
{
    if s.len() <= 1 {
        s[0]
    } else {
        let m = min_spec(s.drop_last());
        if s.last() < m {
            s.last()
        } else {
            m
        }
    }
}

impl Matrix<i32> {
    /// The largest element.
    pub fn max(&self) -> (r: i32)
        requires
            self.elements@.len() > 0,
        ensures
            r == max_spec(self.elements@),
    {
        let n: usize = self.elements.len();
        let mut m: i32 = self.elements[0];
        let mut i: usize = 1;
        while i < n
            invariant
                n == self.elements@.len(),
                1 <= i <= n,
                m == max_spec(self.elements@.take(i as int)),
            decreases n - i,
        {
            proof {
                assert(self.elements@.take(i + 1).drop_last() =~= self.elements@.take(i as int));
            }
            if self.elements[i] > m {
                m = self.elements[i];
            }
            i = i + 1;
        }
        proof {
            assert(self.elements@.take(n as int) =~= self.elements@);
        }
        m
    }

    /// The smallest element.
    pub fn min(&self) -> (r: i32)
        requires
            self.elements@.len() > 0,
        ensures
            r == min_spec(self.elements@),
    {
        let n: usize = self.elements.len();
        let mut m: i32 = self.elements[0];
        let mut i: usize = 1;
        while i < n
            invariant
                n == self.elements@.len(),
                1 <= i <= n,
                m == min_spec(self.elements@.take(i as int)),
            decreases n - i,
        {
            proof {
                assert(self.elements@.take(i + 1).drop_last() =~= self.elements@.take(i as int));
            }
            if self.elements[i] < m {
                m = self.elements[i];
            }
            i = i + 1;
        }
        proof {
            assert(self.elements@.take(n as int) =~= self.elements@);
        }
        m
    }
}

/// Law: transposing twice gives the storage back unchanged. Together with
/// the size swap in `transpose`'s contract, a double transpose reproduces
/// the original matrix, size included.
pub proof fn lemma_transpose_involution<T>(m: Seq<T>, rows: int, cols: int)
    requires
        m.len() == rows * cols,
        rows > 0,
        cols > 0,
    ensures
        transpose_spec(transpose_spec(m, rows, cols), cols, rows) == m,
{
    let t = transpose_spec(m, rows, cols);
    let tt = transpose_spec(t, cols, rows);
    assert(cols * rows == rows * cols) by (nonlinear_arith);
    assert forall|k: int| 0 <= k < m.len() implies tt[k] == m[k] by {
        let r = k / cols;
        let c = k % cols;
        vstd::arithmetic::div_mod::lemma_fundamental_div_mod(k, cols);
        vstd::arithmetic::div_mod::lemma_mod_division_less_than_divisor(k, cols);
        vstd::arithmetic::div_mod::lemma_multiply_divide_lt(k, cols, rows);
        lemma_cell_index(cols, rows, c, r);
        assert(tt[k] == t[c * rows + r]);
        assert(t[c * rows + r] == m[((c * rows + r) % rows) * cols + (c * rows + r) / rows]);
        assert(r * cols + c == k) by {
            assert(cols * r == r * cols) by (nonlinear_arith);
        }
        assert(m[r * cols + c] == m[k]);
    }
    assert(tt =~= m);
}

/// Law: adding an all-zero matrix of the same order changes nothing, so the
/// sum compares equal to the left operand.
pub proof fn lemma_add_zero_identity<T: Num>(a: Seq<T>, z: Seq<T>)
    requires
        z.len() == a.len(),
        forall|i: int| 0 <= i < z.len() ==> z[i] == T::zero_spec(),
    ensures
        add_with_coef_spec(a, z, T::one_spec()) == a,
{
    assert forall|i: int| 0 <= i < a.len() implies add_with_coef_spec(a, z, T::one_spec())[i]
        == a[i] by {
        T::lemma_times_one(z[i]);
        T::lemma_plus_zero(a[i]);
    }
    assert(add_with_coef_spec(a, z, T::one_spec()) =~= a);
}

/// A rectangular grid flattens to one element per cell.
pub proof fn lemma_grid_flatten_len<T>(g: Seq<Seq<T>>, cols: int)
    requires
        is_grid(g, cols),
        cols >= 0,
    ensures
        g.flatten().len() == g.len() * cols,
    decreases g.len(),
{
    if g.len() == 0 {
    } else {
        assert(is_grid(g.drop_first(), cols)) by {
            assert(forall|i: int|
                0 <= i < g.drop_first().len() ==> #[trigger] g.drop_first()[i] == g[i + 1]);
        }
        lemma_grid_flatten_len(g.drop_first(), cols);
        assert(g[0].len() == cols);
        assert(g.flatten().len() == cols + (g.len() - 1) * cols);
        assert(cols + (g.len() - 1) * cols == g.len() * cols) by (nonlinear_arith);
    }
}

/// Law: flattening a rectangular grid in row-major order and slicing row `r`
/// back out reproduces the grid's row `r` exactly.
pub proof fn lemma_row_round_trip<T>(g: Seq<Seq<T>>, cols: int, r: int)
    requires
        is_grid(g, cols),
        cols >= 0,
        0 <= r < g.len(),
    ensures
        row_of(g.flatten(), cols, r) == g[r],
    decreases r,
{
    lemma_grid_flatten_len(g, cols);
    assert((r + 1) * cols <= g.len() * cols) by (nonlinear_arith)
        requires
            0 <= r < g.len(),
            cols >= 0,
    ;
    assert(r * cols + cols == (r + 1) * cols) by (nonlinear_arith);
    if r == 0 {
        assert(cols <= g.len() * cols) by (nonlinear_arith)
            requires
                g.len() >= 1,
                cols >= 0,
        ;
        assert(g.flatten() == g.first() + g.drop_first().flatten());
        assert forall|i: int| 0 <= i < cols implies g.flatten()[i] == g[0][i] by {
            assert(g.flatten()[i] == (g.first() + g.drop_first().flatten())[i]);
            assert((g.first() + g.drop_first().flatten())[i] == g.first()[i]);
        }
        assert(g[0].len() == cols);
        assert(0 * cols == 0);
        assert(g.flatten().subrange(0, cols) =~= g[0]);
        assert(row_of(g.flatten(), cols, 0) =~= g[0]);
    } else {
        assert(is_grid(g.drop_first(), cols)) by {
            assert(forall|i: int|
                0 <= i < g.drop_first().len() ==> #[trigger] g.drop_first()[i] == g[i + 1]);
        }
        lemma_row_round_trip(g.drop_first(), cols, r - 1);
        lemma_grid_flatten_len(g.drop_first(), cols);
        assert(g.flatten() == g.first() + g.drop_first().flatten());
        assert((r - 1) * cols == r * cols - cols) by (nonlinear_arith);
        assert(row_of(g.flatten(), cols, r) =~= row_of(g.drop_first().flatten(), cols, r - 1));
        assert(g.drop_first()[r - 1] == g[r]);
    }
}

/// Flattening a grid extended by one more row appends that row's elements.
pub(crate) proof fn lemma_flatten_push<T>(g: Seq<Seq<T>>, row: Seq<T>)
    ensures
        g.push(row).flatten() == g.flatten() + row,
    decreases g.len(),
{
    if g.len() == 0 {
        assert(g.push(row) =~= seq![row]);
        g.push(row).lemma_flatten_one_element();
        assert(g.flatten() + row =~= row);
    } else {
        assert(g.push(row).drop_first() =~= g.drop_first().push(row));
        lemma_flatten_push(g.drop_first(), row);
        assert(g.push(row).flatten() == g.push(row).first() + g.push(row).drop_first().flatten());
        assert(g.push(row).first() == g.first());
        assert(g.first() + (g.drop_first().flatten() + row) =~= (g.first()
            + g.drop_first().flatten()) + row);
    }
}

} // verus!
