//! Dense two-dimensional matrix, stored row by row.

use vstd::prelude::*;
use crate::error::EngineError;
use crate::scalar::{is_difference, is_exact, is_product, is_sum, is_zero, Scalar};

verus! {

/// The mathematical content of a matrix: its shape and its cells, row by row.
pub struct Grid<T> {
    pub rows: nat,
    pub cols: nat,
    pub cells: Seq<T>,
}

impl<T> Grid<T> {
    /// The grid is the content of some matrix: the shape and the number of
    /// cells agree, and rows and columns can be counted in an `i32`.
    pub open spec fn wf(self) -> bool {
        &&& self.cells.len() == self.rows * self.cols
        &&& self.rows <= i32::MAX
        &&& self.cols <= i32::MAX
    }

    /// The cell in row `i` and column `j`.
    pub open spec fn at(self, i: int, j: int) -> T {
        self.cells[i * self.cols + j]
    }

    /// `i` and `j` name a cell of the grid.
    pub open spec fn has(self, i: int, j: int) -> bool {
        0 <= i < self.rows && 0 <= j < self.cols
    }

    /// `self` and `other` have as many rows and as many columns.
    pub open spec fn same_shape(self, other: Grid<T>) -> bool {
        self.rows == other.rows && self.cols == other.cols
    }

    /// The grid with rows and columns swapped: its cell `(j, i)` is cell
    /// `(i, j)` of `self`.
    pub open spec fn transposed(self) -> Grid<T> {
        Grid {
            rows: self.cols,
            cols: self.rows,
            cells: Seq::new(
                self.cells.len(),
                |k: int| self.at(k % (self.rows as int), k / (self.rows as int)),
            ),
        }
    }
}

/// `m` has the shape of `a`, and each of its cells is a value that `f` may
/// return for the cell of `a` in the same place and that place's row and
/// column.
pub open spec fn is_mapped<T, F: Fn(T, i32, i32) -> T>(a: Grid<T>, f: F, m: Grid<T>) -> bool {
    &&& m.same_shape(a)
    &&& m.wf()
    &&& forall|i: i32, j: i32|
        a.has(i as int, j as int) ==> call_ensures(
            f,
            (a.at(i as int, j as int), i, j),
            #[trigger] m.at(i as int, j as int),
        )
}

/// `m` has the shape of `a`, and each of its cells is a value that `f` may
/// return for the cell of `a` in the same place.
pub open spec fn is_applied<T, F: Fn(T) -> T>(a: Grid<T>, f: F, m: Grid<T>) -> bool {
    &&& m.same_shape(a)
    &&& m.wf()
    &&& forall|i: int, j: int| m.has(i, j) ==> call_ensures(f, (a.at(i, j),), #[trigger] m.at(i, j))
}

/// Each cell of `m` is a value that `draw` may return.
pub open spec fn is_drawn<T, F: Fn() -> T>(draw: F, m: Grid<T>) -> bool {
    &&& m.wf()
    &&& forall|i: int, j: int| m.has(i, j) ==> call_ensures(draw, (), #[trigger] m.at(i, j))
}

/// The one-column grid that holds `cells`, in order.
pub open spec fn column<T>(cells: Seq<T>) -> Grid<T> {
    Grid { rows: cells.len(), cols: 1, cells }
}

/// `m` has the shape of `a`, and each of its cells is a sum of the cell of `a`
/// and the cell of `b` in the same place.
pub open spec fn is_matrix_sum<T: Scalar>(a: Grid<T>, b: Grid<T>, m: Grid<T>) -> bool {
    &&& m.same_shape(a)
    &&& m.wf()
    &&& forall|i: int, j: int| m.has(i, j) ==> is_sum(a.at(i, j), b.at(i, j), #[trigger] m.at(i, j))
}

/// `m` has the shape of `a`, and each of its cells is a difference of the cell
/// of `a` and the cell of `b` in the same place.
pub open spec fn is_matrix_difference<T: Scalar>(a: Grid<T>, b: Grid<T>, m: Grid<T>) -> bool {
    &&& m.same_shape(a)
    &&& m.wf()
    &&& forall|i: int, j: int|
        m.has(i, j) ==> is_difference(a.at(i, j), b.at(i, j), #[trigger] m.at(i, j))
}

/// `m` has the shape of `a`, and each of its cells is a sum of the cell of `a`
/// in the same place and `s`.
pub open spec fn is_scalar_sum<T: Scalar>(a: Grid<T>, s: T, m: Grid<T>) -> bool {
    &&& m.same_shape(a)
    &&& m.wf()
    &&& forall|i: int, j: int| m.has(i, j) ==> is_sum(a.at(i, j), s, #[trigger] m.at(i, j))
}

/// `m` has the shape of `a`, and each of its cells is a difference of the cell
/// of `a` in the same place and `s`.
pub open spec fn is_scalar_difference<T: Scalar>(a: Grid<T>, s: T, m: Grid<T>) -> bool {
    &&& m.same_shape(a)
    &&& m.wf()
    &&& forall|i: int, j: int| m.has(i, j) ==> is_difference(a.at(i, j), s, #[trigger] m.at(i, j))
}

/// `m` has the shape of `a`, and each of its cells is a product of the cell of
/// `a` in the same place and `s`.
pub open spec fn is_scalar_product<T: Scalar>(a: Grid<T>, s: T, m: Grid<T>) -> bool {
    &&& m.same_shape(a)
    &&& m.wf()
    &&& forall|i: int, j: int| m.has(i, j) ==> is_product(a.at(i, j), s, #[trigger] m.at(i, j))
}

/// `acc` may come of adding up, in index order and starting from a zero, the
/// products of the first `n` cells of row `i` of `a` with the first `n` cells
/// of column `j` of `b`.
pub open spec fn is_dot<T: Scalar>(a: Grid<T>, i: int, b: Grid<T>, j: int, n: nat, acc: T) -> bool
    decreases n,
{
    if n == 0 {
        is_zero(acc)
    } else {
        exists|prev: T, term: T|
            is_dot(a, i, b, j, (n - 1) as nat, prev)
            && #[trigger] is_product(a.at(i, n - 1), b.at(n - 1, j), term)
            && #[trigger] is_sum(prev, term, acc)
    }
}

/// `m` is a matrix product of `a` and `b`: cell `(i, j)` of `m` is a dot
/// product of row `i` of `a` and column `j` of `b`.
pub open spec fn is_matrix_product<T: Scalar>(a: Grid<T>, b: Grid<T>, m: Grid<T>) -> bool {
    &&& m.rows == a.rows
    &&& m.cols == b.cols
    &&& m.wf()
    &&& forall|i: int, j: int| m.has(i, j) ==> is_dot(a, i, b, j, a.cols, #[trigger] m.at(i, j))
}

/// The grid of the given shape and cells.
spec fn grid_of<T>(rows: i32, cols: i32, cells: Seq<T>) -> Grid<T> {
    Grid { rows: rows as nat, cols: cols as nat, cells }
}

/// A dense `rows` by `cols` matrix.
#[derive(Debug)]
pub struct Matrix<T> {
    rows: i32,
    cols: i32,
    data: Vec<T>,
}

impl<T> View for Matrix<T> {
    type V = Grid<T>;

    closed spec fn view(&self) -> Grid<T> {
        grid_of(self.rows, self.cols, self.data@)
    }
}

impl<T> Matrix<T> {
    #[verifier::type_invariant]
    spec fn inv(self) -> bool {
        &&& 0 <= self.rows
        &&& 0 <= self.cols
        &&& self.data@.len() == self.rows * self.cols
        &&& self.rows * self.cols <= usize::MAX
    }
}

/// Fills a `rows` by `cols` matrix row by row, asking `cell` for each entry in
/// turn.
fn build<T: Copy, F: Fn(i32, i32) -> T>(rows: i32, cols: i32, cell: F) -> (m: Matrix<T>)
    requires
        0 <= rows,
        0 <= cols,
        rows * cols <= usize::MAX,
        forall|i: i32, j: i32| 0 <= i < rows && 0 <= j < cols ==> call_requires(cell, (i, j)),
    ensures
        m@.rows == rows,
        m@.cols == cols,
        m@.wf(),
        forall|i: i32, j: i32|
            0 <= i < rows && 0 <= j < cols ==> call_ensures(
                cell,
                (i, j),
                #[trigger] m@.at(i as int, j as int),
            ),
{
    let mut data: Vec<T> = Vec::new();
    let mut i: i32 = 0;
    while i < rows
        invariant
            0 <= i <= rows,
            0 <= cols,
            data@.len() == i * cols,
            forall|p: i32, q: i32| 0 <= p < rows && 0 <= q < cols ==> call_requires(cell, (p, q)),
            forall|p: i32, q: i32|
                0 <= p < i && 0 <= q < cols ==> call_ensures(
                    cell,
                    (p, q),
                    #[trigger] grid_of(rows, cols, data@).at(p as int, q as int),
                ),
        decreases rows - i,
    {
        let mut j: i32 = 0;
        while j < cols
            invariant
                0 <= i < rows,
                0 <= j <= cols,
                data@.len() == i * cols + j,
                forall|p: i32, q: i32|
                    0 <= p < rows && 0 <= q < cols ==> call_requires(cell, (p, q)),
                forall|p: i32, q: i32|
                    (0 <= p < i && 0 <= q < cols) || (p == i && 0 <= q < j) ==> call_ensures(
                        cell,
                        (p, q),
                        #[trigger] grid_of(rows, cols, data@).at(p as int, q as int),
                    ),
            decreases cols - j,
        {
            let x: T = cell(i, j);
            let ghost before = data@;
            data.push(x);
            proof {
                assert forall|p: i32, q: i32|
                    (0 <= p < i && 0 <= q < cols) || (p == i && 0 <= q < j + 1) implies call_ensures(
                    cell,
                    (p, q),
                    #[trigger] grid_of(rows, cols, data@).at(p as int, q as int),
                ) by {
                    if p == i && q == j {
                    } else {
                        if p < i {
                            lemma_cell_index(p as int, q as int, i as int, cols as int);
                        }
                        assert(grid_of(rows, cols, data@).at(p as int, q as int) == grid_of(
                            rows,
                            cols,
                            before,
                        ).at(p as int, q as int));
                    }
                }
            }
            j = j + 1;
        }
        proof {
            assert((i + 1) * cols == i * cols + cols) by (nonlinear_arith);
        }
        i = i + 1;
    }
    Matrix { rows, cols, data }
}

/// A vector that holds the items of `items`, in order.
fn copy_of<T: Copy>(items: &[T]) -> (v: Vec<T>)
    ensures
        v@ == items@,
{
    let mut v: Vec<T> = Vec::new();
    let mut k: usize = 0;
    while k < items.len()
        invariant
            k <= items@.len(),
            v@ == items@.subrange(0, k as int),
        decreases items@.len() - k,
    {
        v.push(items[k]);
        k = k + 1;
        proof {
            assert(v@ =~= items@.subrange(0, k as int));
        }
    }
    proof {
        assert(v@ =~= items@);
    }
    v
}

impl<T: Copy> Clone for Matrix<T> {
    /// A matrix of the same shape and cells.
    fn clone(&self) -> (m: Matrix<T>)
        ensures
            m@ == self@,
    {
        proof {
            use_type_invariant(self);
        }
        Matrix { rows: self.rows, cols: self.cols, data: copy_of(self.data.as_slice()) }
    }
}

impl<T: Copy> Matrix<T> {
    /// Number of rows.
    pub fn rows(&self) -> (r: i32)
        ensures
            r == self@.rows,
            self@.wf(),
    {
        proof {
            use_type_invariant(self);
        }
        self.rows
    }

    /// Number of columns.
    pub fn cols(&self) -> (c: i32)
        ensures
            c == self@.cols,
            self@.wf(),
    {
        proof {
            use_type_invariant(self);
        }
        self.cols
    }

    /// The column matrix that holds `arr`, in order.
    pub fn from_array(arr: &[T]) -> (m: Matrix<T>)
        requires
            arr@.len() <= i32::MAX,
        ensures
            m@ == column(arr@),
    {
        let data: Vec<T> = copy_of(arr);
        Matrix { rows: arr.len() as i32, cols: 1, data }
    }

    /// The cells, row by row.
    pub fn to_array(self) -> (v: Vec<T>)
        ensures
            v@ == self@.cells,
    {
        self.data
    }

    /// A matrix of the same shape whose cells are drawn, row by row, from
    /// `draw`.
    pub fn randomize<F: Fn() -> T>(&self, draw: &F) -> (m: Matrix<T>)
        requires
            call_requires(*draw, ()),
        ensures
            m@.same_shape(self@),
            is_drawn(*draw, m@),
    {
        proof {
            use_type_invariant(self);
        }
        let entry = |i: i32, j: i32| -> (x: T)
            ensures
                call_ensures(*draw, (), x),
            { draw() };
        let m = build(self.rows, self.cols, entry);
        proof {
            assert forall|i: int, j: int| m@.has(i, j) implies call_ensures(
                *draw,
                (),
                #[trigger] m@.at(i, j),
            ) by {
                assert(call_ensures(entry, (i as i32, j as i32), m@.at(i as i32 as int, j as i32 as int)));
            }
        }
        m
    }

    /// A matrix of the same shape whose cell `(i, j)` is `f(x, i, j)`, where
    /// `x` is cell `(i, j)` of `self`.
    pub fn map<F: Fn(T, i32, i32) -> T>(&self, f: F) -> (m: Matrix<T>)
        requires
            forall|i: i32, j: i32|
                self@.has(i as int, j as int) ==> call_requires(
                    f,
                    (#[trigger] self@.at(i as int, j as int), i, j),
                ),
        ensures
            is_mapped(self@, f, m@),
    {
        proof {
            use_type_invariant(self);
        }
        let g = &f;
        let entry = |i: i32, j: i32| -> (y: T)
            requires
                self@.has(i as int, j as int),
            ensures
                call_ensures(*g, (self@.at(i as int, j as int), i, j), y),
            { g(self.cell(i, j), i, j) };
        build(self.rows, self.cols, entry)
    }

    /// A matrix of the same shape whose cell `(i, j)` is `f(x)`, where `x` is
    /// cell `(i, j)` of `self`.
    pub fn apply<F: Fn(T) -> T>(&self, f: &F) -> (m: Matrix<T>)
        requires
            forall|x: T| call_requires(*f, (x,)),
        ensures
            is_applied(self@, *f, m@),
    {
        let at_cell = |x: T, i: i32, j: i32| -> (y: T)
            ensures
                call_ensures(*f, (x,), y),
            { f(x) };
        let m = self.map(at_cell);
        proof {
            use_type_invariant(self);
            assert forall|i: int, j: int| m@.has(i, j) implies call_ensures(
                *f,
                (self@.at(i, j),),
                #[trigger] m@.at(i, j),
            ) by {
                assert(call_ensures(
                    at_cell,
                    (self@.at(i as i32 as int, j as i32 as int), i as i32, j as i32),
                    m@.at(i as i32 as int, j as i32 as int),
                ));
            }
        }
        m
    }

    /// The transposed matrix: its cell `(j, i)` is cell `(i, j)` of `self`.
    pub fn transpose(&self) -> (m: Matrix<T>)
        ensures
            m@ == self@.transposed(),
    {
        proof {
            use_type_invariant(self);
            assert(self.rows * self.cols == self.cols * self.rows) by (nonlinear_arith);
        }
        let entry = |i: i32, j: i32| -> (x: T)
            requires
                self@.has(j as int, i as int),
            ensures
                x == self@.at(j as int, i as int),
            { self.cell(j, i) };
        let m = build(self.cols, self.rows, entry);
        proof {
            let t = self@.transposed();
            assert forall|i: int, j: int| m@.has(i, j) implies m@.at(i, j) == t.at(i, j) by {
                assert(call_ensures(entry, (i as i32, j as i32), m@.at(i as i32 as int, j as i32 as int)));
                lemma_transposed_at(self@, j, i);
            }
            lemma_grid_ext(m@, t);
        }
        m
    }

    /// The cell in row `i` and column `j`.
    pub fn cell(&self, i: i32, j: i32) -> (x: T)
        requires
            self@.has(i as int, j as int),
        ensures
            x == self@.at(i as int, j as int),
    {
        proof {
            use_type_invariant(self);
            lemma_cell_index(i as int, j as int, self.rows as int, self.cols as int);
        }
        self.data[i as usize * self.cols as usize + j as usize]
    }
}

impl<T: Scalar> Matrix<T> {
    /// A `rows` by `cols` matrix filled with zeros.
    pub fn new(rows: i32, cols: i32) -> (m: Matrix<T>)
        requires
            0 <= rows,
            0 <= cols,
            rows * cols <= usize::MAX,
        ensures
            m@.rows == rows,
            m@.cols == cols,
            m@.wf(),
            forall|i: int, j: int| m@.has(i, j) ==> is_zero(#[trigger] m@.at(i, j)),
    {
        let zero = |i: i32, j: i32| -> (z: T)
            ensures
                is_zero(z),
            { T::zero() };
        let m = build(rows, cols, zero);
        proof {
            assert forall|i: int, j: int| m@.has(i, j) implies is_zero(#[trigger] m@.at(i, j)) by {
                assert(call_ensures(zero, (i as i32, j as i32), m@.at(i as i32 as int, j as i32 as int)));
            }
        }
        m
    }

    /// Each cell multiplied by `rhs`.
    pub fn mul(&self, rhs: T) -> (m: Matrix<T>)
        ensures
            is_scalar_product(self@, rhs, m@),
    {
        let scaled = |x: T, i: i32, j: i32| -> (y: T)
            ensures
                is_product(x, rhs, y),
            { x.times(rhs) };
        let m = self.map(scaled);
        proof {
            use_type_invariant(self);
            assert forall|i: int, j: int| m@.has(i, j) implies is_product(
                self@.at(i, j),
                rhs,
                #[trigger] m@.at(i, j),
            ) by {
                assert(call_ensures(
                    scaled,
                    (self@.at(i as i32 as int, j as i32 as int), i as i32, j as i32),
                    m@.at(i as i32 as int, j as i32 as int),
                ));
            }
        }
        m
    }

    /// Each cell with `rhs` added to it.
    pub fn add(&self, rhs: T) -> (m: Matrix<T>)
        ensures
            is_scalar_sum(self@, rhs, m@),
    {
        let shifted = |x: T, i: i32, j: i32| -> (y: T)
            ensures
                is_sum(x, rhs, y),
            { x.plus(rhs) };
        let m = self.map(shifted);
        proof {
            use_type_invariant(self);
            assert forall|i: int, j: int| m@.has(i, j) implies is_sum(
                self@.at(i, j),
                rhs,
                #[trigger] m@.at(i, j),
            ) by {
                assert(call_ensures(
                    shifted,
                    (self@.at(i as i32 as int, j as i32 as int), i as i32, j as i32),
                    m@.at(i as i32 as int, j as i32 as int),
                ));
            }
        }
        m
    }

    /// Each cell with `rhs` subtracted from it.
    pub fn sub(&self, rhs: T) -> (m: Matrix<T>)
        ensures
            is_scalar_difference(self@, rhs, m@),
    {
        let shifted = |x: T, i: i32, j: i32| -> (y: T)
            ensures
                is_difference(x, rhs, y),
            { x.minus(rhs) };
        let m = self.map(shifted);
        proof {
            use_type_invariant(self);
            assert forall|i: int, j: int| m@.has(i, j) implies is_difference(
                self@.at(i, j),
                rhs,
                #[trigger] m@.at(i, j),
            ) by {
                assert(call_ensures(
                    shifted,
                    (self@.at(i as i32 as int, j as i32 as int), i as i32, j as i32),
                    m@.at(i as i32 as int, j as i32 as int),
                ));
            }
        }
        m
    }

    /// Cell-by-cell sum `self + rhs`.
    ///
    /// Fails with [`EngineError::ShapeMismatch`] exactly when the two shapes
    /// differ.
    pub fn add_m(&self, rhs: &Matrix<T>) -> (r: Result<Matrix<T>, EngineError>)
        ensures
            match r {
                Ok(m) => self@.same_shape(rhs@) && is_matrix_sum(self@, rhs@, m@),
                Err(e) => e == EngineError::ShapeMismatch && !self@.same_shape(rhs@),
            },
    {
        proof {
            use_type_invariant(self);
            use_type_invariant(rhs);
        }
        if self.rows != rhs.rows || self.cols != rhs.cols {
            return Err(EngineError::ShapeMismatch);
        }
        let entry = |i: i32, j: i32| -> (y: T)
            requires
                self@.has(i as int, j as int),
            ensures
                is_sum(self@.at(i as int, j as int), rhs@.at(i as int, j as int), y),
            { self.cell(i, j).plus(rhs.cell(i, j)) };
        let m = build(self.rows, self.cols, entry);
        proof {
            assert forall|i: int, j: int| m@.has(i, j) implies is_sum(
                self@.at(i, j),
                rhs@.at(i, j),
                #[trigger] m@.at(i, j),
            ) by {
                assert(call_ensures(entry, (i as i32, j as i32), m@.at(i as i32 as int, j as i32 as int)));
            }
        }
        Ok(m)
    }

    /// Cell-by-cell difference `self - rhs`.
    ///
    /// Fails with [`EngineError::ShapeMismatch`] exactly when the two shapes
    /// differ.
    pub fn sub_m(&self, rhs: &Matrix<T>) -> (r: Result<Matrix<T>, EngineError>)
        ensures
            match r {
                Ok(m) => self@.same_shape(rhs@) && is_matrix_difference(self@, rhs@, m@),
                Err(e) => e == EngineError::ShapeMismatch && !self@.same_shape(rhs@),
            },
    {
        proof {
            use_type_invariant(self);
            use_type_invariant(rhs);
        }
        if self.rows != rhs.rows || self.cols != rhs.cols {
            return Err(EngineError::ShapeMismatch);
        }
        let entry = |i: i32, j: i32| -> (y: T)
            requires
                self@.has(i as int, j as int),
            ensures
                is_difference(self@.at(i as int, j as int), rhs@.at(i as int, j as int), y),
            { self.cell(i, j).minus(rhs.cell(i, j)) };
        let m = build(self.rows, self.cols, entry);
        proof {
            assert forall|i: int, j: int| m@.has(i, j) implies is_difference(
                self@.at(i, j),
                rhs@.at(i, j),
                #[trigger] m@.at(i, j),
            ) by {
                assert(call_ensures(entry, (i as i32, j as i32), m@.at(i as i32 as int, j as i32 as int)));
            }
        }
        Ok(m)
    }

    /// Dot product of row `i` of `self` and column `j` of `rhs`.
    fn dot(&self, i: i32, rhs: &Matrix<T>, j: i32) -> (acc: T)
        requires
            self@.cols == rhs@.rows,
            0 <= i < self@.rows,
            0 <= j < rhs@.cols,
        ensures
            is_dot(self@, i as int, rhs@, j as int, self@.cols, acc),
    {
        proof {
            use_type_invariant(self);
            use_type_invariant(rhs);
        }
        let mut acc: T = T::zero();
        let mut k: i32 = 0;
        while k < self.cols
            invariant
                0 <= k <= self.cols,
                self@.cols == rhs@.rows,
                self@.cols == self.cols,
                0 <= i < self@.rows,
                0 <= j < rhs@.cols,
                is_dot(self@, i as int, rhs@, j as int, k as nat, acc),
            decreases self.cols - k,
        {
            let term: T = self.cell(i, k).times(rhs.cell(k, j));
            let next: T = acc.plus(term);
            proof {
                let n = (k + 1) as nat;
                assert(is_dot(self@, i as int, rhs@, j as int, (n - 1) as nat, acc));
                assert(is_product(self@.at(i as int, n - 1), rhs@.at(n - 1, j as int), term));
                assert(is_sum(acc, term, next));
            }
            acc = next;
            k = k + 1;
        }
        acc
    }

    /// Matrix product `self * rhs`.
    ///
    /// Fails with [`EngineError::ShapeMismatch`] exactly when `self` has not as
    /// many columns as `rhs` has rows.
    pub fn cross_product(&self, rhs: &Matrix<T>) -> (r: Result<Matrix<T>, EngineError>)
        requires
            self@.rows * rhs@.cols <= usize::MAX,
        ensures
            match r {
                Ok(m) => self@.cols == rhs@.rows && is_matrix_product(self@, rhs@, m@),
                Err(e) => e == EngineError::ShapeMismatch && self@.cols != rhs@.rows,
            },
    {
        proof {
            use_type_invariant(self);
            use_type_invariant(rhs);
        }
        if self.cols != rhs.rows {
            return Err(EngineError::ShapeMismatch);
        }
        let entry = |i: i32, j: i32| -> (acc: T)
            requires
                0 <= i < self@.rows,
                0 <= j < rhs@.cols,
            ensures
                is_dot(self@, i as int, rhs@, j as int, self@.cols, acc),
            { self.dot(i, rhs, j) };
        let m = build(self.rows, rhs.cols, entry);
        proof {
            assert forall|i: int, j: int| m@.has(i, j) implies is_dot(
                self@,
                i,
                rhs@,
                j,
                self@.cols,
                #[trigger] m@.at(i, j),
            ) by {
                assert(call_ensures(entry, (i as i32, j as i32), m@.at(i as i32 as int, j as i32 as int)));
            }
        }
        Ok(m)
    }
}

/// A cell's position in the row-by-row order lies inside the grid's cells.
pub proof fn lemma_cell_index(i: int, j: int, rows: int, cols: int)
    requires
        0 <= i < rows,
        0 <= j < cols,
    ensures
        0 <= i * cols,
        0 <= i * cols + j < rows * cols,
        i * cols + j < (i + 1) * cols,
        (i + 1) * cols <= rows * cols,
{
    assert(i * cols + j < (i + 1) * cols) by (nonlinear_arith)
        requires
            0 <= j < cols,
    ;
    assert((i + 1) * cols <= rows * cols) by (nonlinear_arith)
        requires
            0 <= i < rows,
            0 <= cols,
    ;
    assert(0 <= i * cols) by (nonlinear_arith)
        requires
            0 <= i,
            0 <= cols,
    ;
}

/// Every position in the row-by-row order is that of one cell: the one in row
/// `k / cols` and column `k % cols`.
pub proof fn lemma_cell_of_index(k: int, rows: int, cols: int)
    requires
        0 <= k < rows * cols,
        0 <= rows,
        0 <= cols,
    ensures
        0 < cols,
        0 <= k / cols < rows,
        0 <= k % cols < cols,
        (k / cols) * cols + k % cols == k,
{
    assert(0 < cols) by (nonlinear_arith)
        requires
            0 <= k < rows * cols,
            0 <= cols,
    ;
    vstd::arithmetic::div_mod::lemma_fundamental_div_mod(k, cols);
    vstd::arithmetic::div_mod::lemma_mod_bound(k, cols);
    let i = k / cols;
    let j = k % cols;
    assert(cols * i == i * cols) by (nonlinear_arith);
    assert(0 <= i < rows) by (nonlinear_arith)
        requires
            0 <= k < rows * cols,
            0 < cols,
            k == i * cols + j,
            0 <= j < cols,
    ;
}

/// The cell at position `i * cols + j` of the row-by-row order, with
/// `0 <= j < cols`, is the one in row `i` and column `j`.
pub proof fn lemma_index_of_cell(i: int, j: int, cols: int)
    requires
        0 <= i,
        0 <= j < cols,
    ensures
        (i * cols + j) / cols == i,
        (i * cols + j) % cols == j,
{
    vstd::arithmetic::div_mod::lemma_fundamental_div_mod_converse(i * cols + j, cols, i, j);
}

/// Two grids of one shape that agree cell by cell are equal.
pub proof fn lemma_grid_ext<T>(a: Grid<T>, b: Grid<T>)
    requires
        a.wf(),
        b.wf(),
        a.same_shape(b),
        forall|i: int, j: int| a.has(i, j) ==> a.at(i, j) == b.at(i, j),
    ensures
        a == b,
{
    assert forall|k: int| 0 <= k < a.cells.len() implies a.cells[k] == b.cells[k] by {
        lemma_cell_of_index(k, a.rows as int, a.cols as int);
        let i = k / (a.cols as int);
        let j = k % (a.cols as int);
        assert(a.has(i, j));
        assert(a.at(i, j) == b.at(i, j));
    }
    assert(a.cells =~= b.cells);
}

/// Cell `(j, i)` of the transposed grid is cell `(i, j)` of the grid.
pub proof fn lemma_transposed_at<T>(a: Grid<T>, i: int, j: int)
    requires
        a.wf(),
        a.has(i, j),
    ensures
        a.transposed().wf(),
        a.transposed().has(j, i),
        a.transposed().at(j, i) == a.at(i, j),
{
    assert(a.rows * a.cols == a.cols * a.rows) by (nonlinear_arith);
    lemma_cell_index(j, i, a.cols as int, a.rows as int);
    lemma_index_of_cell(j, i, a.rows as int);
}

/// Transposing twice gives the grid back.
pub proof fn lemma_transpose_twice<T>(a: Grid<T>)
    requires
        a.wf(),
    ensures
        a.transposed().transposed() == a,
{
    let t = a.transposed();
    let tt = t.transposed();
    assert(a.rows * a.cols == a.cols * a.rows) by (nonlinear_arith);
    assert(t.wf());
    assert(tt.wf());
    assert forall|i: int, j: int| tt.has(i, j) implies tt.at(i, j) == a.at(i, j) by {
        lemma_transposed_at(a, i, j);
        lemma_transposed_at(t, j, i);
    }
    lemma_grid_ext(tt, a);
}

/// Mapping with a function that returns its first argument gives the grid
/// back.
pub proof fn lemma_map_identity<T, F: Fn(T, i32, i32) -> T>(a: Grid<T>, f: F, m: Grid<T>)
    requires
        a.wf(),
        is_mapped(a, f, m),
        forall|x: T, i: i32, j: i32, y: T| call_ensures(f, (x, i, j), y) ==> y == x,
    ensures
        m == a,
{
    assert forall|i: int, j: int| m.has(i, j) implies m.at(i, j) == a.at(i, j) by {
        assert(call_ensures(
            f,
            (a.at(i as i32 as int, j as i32 as int), i as i32, j as i32),
            m.at(i as i32 as int, j as i32 as int),
        ));
    }
    lemma_grid_ext(m, a);
}

/// Where subtracting undoes adding in the number type, subtracting a grid
/// from the sum of another grid with it gives that other grid back.
pub proof fn lemma_add_then_sub<T: Scalar>(a: Grid<T>, b: Grid<T>, sum: Grid<T>, back: Grid<T>)
    requires
        a.wf(),
        b.wf(),
        a.same_shape(b),
        is_matrix_sum(a, b, sum),
        is_matrix_difference(sum, b, back),
        forall|x: T, y: T, s: T, d: T| #[trigger] is_sum(x, y, s) && #[trigger] is_difference(s, y, d) ==> d == x,
    ensures
        back == a,
{
    assert forall|i: int, j: int| back.has(i, j) implies back.at(i, j) == a.at(i, j) by {
        assert(is_sum(a.at(i, j), b.at(i, j), sum.at(i, j)));
        assert(is_difference(sum.at(i, j), b.at(i, j), back.at(i, j)));
    }
    lemma_grid_ext(back, a);
}

/// With exact arithmetic a dot product has one value.
pub proof fn lemma_dot_unique<T: Scalar>(a: Grid<T>, i: int, b: Grid<T>, j: int, n: nat, x: T, y: T)
    requires
        is_exact::<T>(),
        is_dot(a, i, b, j, n, x),
        is_dot(a, i, b, j, n, y),
    ensures
        x == y,
    decreases n,
{
    if n > 0 {
        let (p1, t1) = choose|prev: T, term: T|
            is_dot(a, i, b, j, (n - 1) as nat, prev) && #[trigger] is_product(
                a.at(i, n - 1),
                b.at(n - 1, j),
                term,
            ) && #[trigger] is_sum(prev, term, x);
        let (p2, t2) = choose|prev: T, term: T|
            is_dot(a, i, b, j, (n - 1) as nat, prev) && #[trigger] is_product(
                a.at(i, n - 1),
                b.at(n - 1, j),
                term,
            ) && #[trigger] is_sum(prev, term, y);
        lemma_dot_unique(a, i, b, j, (n - 1) as nat, p1, p2);
    }
}

/// With exact arithmetic two matrices have one product.
pub proof fn lemma_matrix_product_unique<T: Scalar>(a: Grid<T>, b: Grid<T>, m: Grid<T>, other: Grid<T>)
    requires
        is_exact::<T>(),
        is_matrix_product(a, b, m),
        is_matrix_product(a, b, other),
    ensures
        m == other,
{
    assert forall|i: int, j: int| m.has(i, j) implies m.at(i, j) == other.at(i, j) by {
        lemma_dot_unique(a, i, b, j, a.cols, m.at(i, j), other.at(i, j));
    }
    lemma_grid_ext(m, other);
}

/// With exact arithmetic two matrices have one sum.
pub proof fn lemma_matrix_sum_unique<T: Scalar>(a: Grid<T>, b: Grid<T>, m: Grid<T>, other: Grid<T>)
    requires
        is_exact::<T>(),
        is_matrix_sum(a, b, m),
        is_matrix_sum(a, b, other),
    ensures
        m == other,
{
    assert forall|i: int, j: int| m.has(i, j) implies m.at(i, j) == other.at(i, j) by {
        assert(is_sum(a.at(i, j), b.at(i, j), m.at(i, j)));
        assert(is_sum(a.at(i, j), b.at(i, j), other.at(i, j)));
    }
    lemma_grid_ext(m, other);
}

/// A function with one result for each argument, applied cell by cell, has
/// one result for each matrix.
pub proof fn lemma_applied_unique<T, F: Fn(T) -> T>(a: Grid<T>, f: F, m: Grid<T>, other: Grid<T>)
    requires
        is_applied(a, f, m),
        is_applied(a, f, other),
        forall|x: T, y: T, z: T| #[trigger] call_ensures(f, (x,), y) && #[trigger] call_ensures(f, (x,), z) ==> y == z,
    ensures
        m == other,
{
    assert forall|i: int, j: int| m.has(i, j) implies m.at(i, j) == other.at(i, j) by {
        assert(call_ensures(f, (a.at(i, j),), m.at(i, j)));
        assert(call_ensures(f, (a.at(i, j),), other.at(i, j)));
    }
    lemma_grid_ext(m, other);
}

} // verus!
