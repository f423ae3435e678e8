//! `Matrix`: a dense, non-empty, rectangular matrix of `isize` cells.
use crate::arith::{
    add_wrapped, lemma_wrap_add, lemma_wrap_in_range, lemma_wrap_mul, lemma_wrap_sub, mul_wrapped, sub_wrapped, wrap,
};
use crate::blocks::{lemma_flatten_blocks_of, Blocks};
use crate::error::MatrixError;
use crate::laws::lemma_strassen_matches_naive;
use crate::model::{
    chunked, dot, grid_of, is_matrix, lemma_resized_same, lemma_resized_shape,
    lemma_dot_2, lemma_mat_mul_shape, lemma_resized_twice, mat_add, mat_mul, num_cols, resized,
    strassen_product, strassen_size, zero_grid, Grid,
};
use vstd::prelude::*;

verus! {

/// A dense matrix of `isize` cells with at least one row and one column.
///
/// Coordinates in the public API are 1-based: `(1, 1)` is the top-left cell.
#[derive(Debug, PartialEq, Eq)]
pub struct Matrix {
    cells: Vec<Vec<isize>>,
}

impl View for Matrix {
    type V = Grid;

    closed spec fn view(&self) -> Grid {
        grid_of(self.cells@)
    }
}

impl Clone for Matrix {
    /// A deep copy.
    fn clone(&self) -> (r: Self)
        ensures
            r@ == self@,
    {
        proof {
            use_type_invariant(self);
        }
        let mut cells: Vec<Vec<isize>> = Vec::new();
        let mut i: usize = 0;
        while i < self.cells.len()
            invariant
                i <= self@.len(),
                is_matrix(self@),
                cells@.len() == i,
                forall|k: int| 0 <= k < i ==> #[trigger] cells@[k]@ == self@[k],
            decreases self@.len() - i,
        {
            let row = &self.cells[i];
            let mut copy: Vec<isize> = Vec::new();
            let mut j: usize = 0;
            while j < row.len()
                invariant
                    j <= row@.len(),
                    copy@ == row@.subrange(0, j as int),
                decreases row@.len() - j,
            {
                copy.push(row[j]);
                j += 1;
                proof {
                    assert(copy@ =~= row@.subrange(0, j as int));
                }
            }
            proof {
                assert(copy@ =~= row@);
            }
            cells.push(copy);
            i += 1;
        }
        proof {
            assert(grid_of(cells@) =~= self@);
        }
        Matrix { cells }
    }
}

/// A vector of `cols` zeros.
fn zero_row(cols: usize) -> (r: Vec<isize>)
    ensures
        r@ == Seq::new(cols as nat, |j: int| 0isize),
{
    let mut row: Vec<isize> = Vec::new();
    let mut j: usize = 0;
    while j < cols
        invariant
            j <= cols,
            row@ == Seq::new(j as nat, |c: int| 0isize),
        decreases cols - j,
    {
        row.push(0);
        j += 1;
        proof {
            assert(row@ =~= Seq::new(j as nat, |c: int| 0isize));
        }
    }
    row
}

impl Matrix {
    #[verifier::type_invariant]
    pub(crate) open spec fn well_formed(&self) -> bool {
        is_matrix(self@)
    }

    /// A matrix holding `cells`, one vector per row.
    ///
    /// Fails with `ShapeError` when there are no rows, the first row is
    /// empty, or the rows differ in length.
    pub fn new(cells: Vec<Vec<isize>>) -> (r: Result<Matrix, MatrixError>)
        ensures
            match r {
                Ok(m) => is_matrix(grid_of(cells@)) && m@ == grid_of(cells@),
                Err(e) => !is_matrix(grid_of(cells@)) && e == MatrixError::ShapeError,
            },
    {
        if cells.len() == 0 {
            return Err(MatrixError::ShapeError);
        }
        let cols = cells[0].len();
        if cols == 0 {
            return Err(MatrixError::ShapeError);
        }
        let mut i: usize = 1;
        while i < cells.len()
            invariant
                1 <= i <= cells.len(),
                cols == cells@[0]@.len(),
                forall|k: int| 0 <= k < i ==> #[trigger] cells@[k]@.len() == cols,
            decreases cells.len() - i,
        {
            if cells[i].len() != cols {
                proof {
                    assert(grid_of(cells@)[i as int].len() != num_cols(grid_of(cells@)));
                }
                return Err(MatrixError::ShapeError);
            }
            i += 1;
        }
        Ok(Matrix { cells })
    }

    /// The all-zero matrix of `rows` rows and `cols` columns.
    pub fn zeroes(rows: usize, cols: usize) -> (r: Matrix)
        requires
            rows >= 1,
            cols >= 1,
        ensures
            r@ == zero_grid(rows as nat, cols as nat),
    {
        let mut cells: Vec<Vec<isize>> = Vec::new();
        let mut i: usize = 0;
        while i < rows
            invariant
                i <= rows,
                cells@.len() == i,
                forall|k: int| 0 <= k < i ==> #[trigger] cells@[k]@ == Seq::new(cols as nat, |j: int| 0isize),
            decreases rows - i,
        {
            cells.push(zero_row(cols));
            i += 1;
        }
        proof {
            assert(grid_of(cells@) =~= zero_grid(rows as nat, cols as nat));
        }
        Matrix { cells }
    }

    /// The `rows` by `cols` matrix filled row by row from `list`.
    ///
    /// Fails with `ShapeError` when `list` does not hold exactly
    /// `rows * cols` values, or when either dimension is 0.
    pub fn from_list(rows: usize, cols: usize, list: Vec<isize>) -> (r: Result<Matrix, MatrixError>)
        ensures
            match r {
                Ok(m) => {
                    &&& rows >= 1 && cols >= 1 && list@.len() == rows * cols
                    &&& m@ == chunked(list@, rows as nat, cols as nat)
                },
                Err(e) => {
                    &&& rows == 0 || cols == 0 || list@.len() != rows * cols
                    &&& e == MatrixError::ShapeError
                },
            },
    {
        let n = list.len();
        if rows == 0 || cols == 0 {
            return Err(MatrixError::ShapeError);
        }
        let size = match rows.checked_mul(cols) {
            Some(s) => s,
            None => {
                return Err(MatrixError::ShapeError);
            },
        };
        if n != size {
            return Err(MatrixError::ShapeError);
        }
        let ghost target = chunked(list@, rows as nat, cols as nat);
        let mut cells: Vec<Vec<isize>> = Vec::new();
        let mut base: usize = 0;
        let mut i: usize = 0;
        while i < rows
            invariant
                i <= rows,
                cols >= 1,
                list@.len() == rows * cols,
                size == rows * cols,
                list@.len() == size,
                base == i * cols,
                target == chunked(list@, rows as nat, cols as nat),
                cells@.len() == i,
                forall|k: int| 0 <= k < i ==> #[trigger] cells@[k]@ == target[k],
            decreases rows - i,
        {
            proof {
                assert((i + 1) * cols == i * cols + cols) by (nonlinear_arith);
                assert((i + 1) * cols <= rows * cols) by (nonlinear_arith)
                    requires
                        i + 1 <= rows,
                ;
            }
            let mut row: Vec<isize> = Vec::new();
            let mut j: usize = 0;
            while j < cols
                invariant
                    j <= cols,
                    i < rows,
                    base == i * cols,
                    base + cols <= size,
                    list@.len() == size,
                    target == chunked(list@, rows as nat, cols as nat),
                    row@ == target[i as int].subrange(0, j as int),
                decreases cols - j,
            {
                row.push(list[base + j]);
                j += 1;
                proof {
                    assert(row@ =~= target[i as int].subrange(0, j as int));
                }
            }
            proof {
                assert(row@ =~= target[i as int]);
            }
            cells.push(row);
            base += cols;
            i += 1;
        }
        proof {
            assert(grid_of(cells@) =~= target);
        }
        Ok(Matrix { cells })
    }

    /// A copy of `mat` with `rows` rows and `cols` columns: the overlapping
    /// top-left part is kept, new cells are 0, cells beyond the new shape are
    /// dropped.
    ///
    /// Grows and shrinks are done as separate passes, each axis growing or
    /// shrinking as the target asks.
    pub fn from_matrix(rows: usize, cols: usize, mat: &Matrix) -> (r: Matrix)
        requires
            rows >= 1,
            cols >= 1,
        ensures
            r@ == resized(mat@, rows as nat, cols as nat),
    {
        proof {
            use_type_invariant(mat);
        }
        let mut out = mat.clone();
        let grow_rows = rows >= mat.rows();
        let grow_cols = cols >= mat.cols();
        let ghost g = mat@;
        let ghost (r0, c0) = (g.len(), num_cols(g));
        if grow_rows && grow_cols {
            let _ = out.upsize(rows, cols);
        } else if grow_rows {
            let _ = out.upsize(rows, out.cols());
            proof {
                lemma_resized_same(g);
                lemma_resized_shape(g, rows as nat, c0);
            }
            let _ = out.downsize(out.rows(), cols);
            proof {
                lemma_resized_twice(g, rows as nat, c0, rows as nat, cols as nat);
            }
        } else if grow_cols {
            let _ = out.downsize(rows, out.cols());
            proof {
                lemma_resized_same(g);
                lemma_resized_shape(g, rows as nat, c0);
            }
            let _ = out.upsize(out.rows(), cols);
            proof {
                lemma_resized_twice(g, rows as nat, c0, rows as nat, cols as nat);
            }
        } else {
            let _ = out.downsize(rows, cols);
        }
        out
    }

    /// A copy of this matrix cut or zero-padded to `rows` by `cols`.
    fn resized_copy(&self, rows: usize, cols: usize) -> (r: Matrix)
        requires
            rows >= 1,
            cols >= 1,
        ensures
            r@ == resized(self@, rows as nat, cols as nat),
    {
        let ghost target = resized(self@, rows as nat, cols as nat);
        let mut cells: Vec<Vec<isize>> = Vec::new();
        let mut i: usize = 0;
        while i < rows
            invariant
                i <= rows,
                target == resized(self@, rows as nat, cols as nat),
                cells@.len() == i,
                forall|k: int| 0 <= k < i ==> #[trigger] cells@[k]@ == target[k],
            decreases rows - i,
        {
            let mut row: Vec<isize> = Vec::new();
            let mut j: usize = 0;
            while j < cols
                invariant
                    j <= cols,
                    i < rows,
                    target == resized(self@, rows as nat, cols as nat),
                    row@ == target[i as int].subrange(0, j as int),
                decreases cols - j,
            {
                let v = if i < self.cells.len() && j < self.cells[i].len() {
                    self.cells[i][j]
                } else {
                    0
                };
                row.push(v);
                j += 1;
                proof {
                    assert(row@ =~= target[i as int].subrange(0, j as int));
                }
            }
            proof {
                assert(row@ =~= target[i as int]);
            }
            cells.push(row);
            i += 1;
        }
        proof {
            assert(grid_of(cells@) =~= target);
        }
        Matrix { cells }
    }

    /// Grows the matrix in place to `new_rows` by `new_cols`, filling the new
    /// cells with 0.
    ///
    /// Fails with `InvalidResize`, leaving the matrix as it was, when either
    /// new dimension is smaller than the current one.
    pub fn upsize(&mut self, new_rows: usize, new_cols: usize) -> (r: Result<(), MatrixError>)
        ensures
            match r {
                Ok(()) => {
                    &&& new_rows >= old(self)@.len() && new_cols >= num_cols(old(self)@)
                    &&& final(self)@ == resized(old(self)@, new_rows as nat, new_cols as nat)
                },
                Err(e) => {
                    &&& !(new_rows >= old(self)@.len() && new_cols >= num_cols(old(self)@))
                    &&& e == MatrixError::InvalidResize
                    &&& final(self)@ == old(self)@
                },
            },
    {
        proof {
            use_type_invariant(&*self);
        }
        if new_rows < self.rows() || new_cols < self.cols() {
            return Err(MatrixError::InvalidResize);
        }
        *self = self.resized_copy(new_rows, new_cols);
        Ok(())
    }

    /// Shrinks the matrix in place to `new_rows` by `new_cols`, dropping the
    /// rows and columns beyond them.
    ///
    /// Fails with `InvalidResize`, leaving the matrix as it was, when either
    /// new dimension is larger than the current one or is 0.
    pub fn downsize(&mut self, new_rows: usize, new_cols: usize) -> (r: Result<(), MatrixError>)
        ensures
            match r {
                Ok(()) => {
                    &&& 1 <= new_rows <= old(self)@.len() && 1 <= new_cols <= num_cols(old(self)@)
                    &&& final(self)@ == resized(old(self)@, new_rows as nat, new_cols as nat)
                },
                Err(e) => {
                    &&& !(1 <= new_rows <= old(self)@.len() && 1 <= new_cols <= num_cols(
                        old(self)@,
                    ))
                    &&& e == MatrixError::InvalidResize
                    &&& final(self)@ == old(self)@
                },
            },
    {
        if new_rows > self.rows() || new_cols > self.cols() || new_rows == 0 || new_cols == 0 {
            return Err(MatrixError::InvalidResize);
        }
        *self = self.resized_copy(new_rows, new_cols);
        Ok(())
    }

    /// The cell at 0-based `(i, j)`.
    pub(crate) fn at(&self, i: usize, j: usize) -> (r: isize)
        requires
            i < self@.len(),
            j < num_cols(self@),
        ensures
            r == self@[i as int][j as int],
    {
        proof {
            use_type_invariant(self);
            assert(self@[i as int].len() == num_cols(self@));
        }
        self.cells[i][j]
    }

    /// The matrix with the given rows, already known to be valid.
    pub(crate) fn from_rows(cells: Vec<Vec<isize>>) -> (r: Matrix)
        requires
            is_matrix(grid_of(cells@)),
        ensures
            r@ == grid_of(cells@),
    {
        Matrix { cells }
    }

    /// The 2 by 2 matrix with rows `(c11, c12)` and `(c21, c22)`.
    pub(crate) fn square2(c11: isize, c12: isize, c21: isize, c22: isize) -> (r: Matrix)
        ensures
            r@ == seq![seq![c11, c12], seq![c21, c22]],
    {
        let cells = vec![vec![c11, c12], vec![c21, c22]];
        proof {
            assert(grid_of(cells@) =~= seq![seq![c11, c12], seq![c21, c22]]);
        }
        Matrix { cells }
    }

    /// The number of rows.
    pub fn rows(&self) -> (r: usize)
        ensures
            r == self@.len(),
    {
        self.cells.len()
    }

    /// The number of columns.
    pub fn cols(&self) -> (r: usize)
        ensures
            r == num_cols(self@),
    {
        proof {
            use_type_invariant(self);
        }
        self.cells[0].len()
    }

    /// The cell in row `row` and column `col`, both counted from 1.
    ///
    /// Fails with `IndexOutOfBounds` when either coordinate is outside the
    /// matrix.
    pub fn get(&self, row: usize, col: usize) -> (r: Result<isize, MatrixError>)
        ensures
            match r {
                Ok(v) => {
                    &&& 1 <= row <= self@.len() && 1 <= col <= num_cols(self@)
                    &&& v == self@[row - 1][col - 1]
                },
                Err(e) => {
                    &&& !(1 <= row <= self@.len() && 1 <= col <= num_cols(self@))
                    &&& e == MatrixError::IndexOutOfBounds
                },
            },
    {
        proof {
            use_type_invariant(self);
        }
        if row < 1 || row > self.cells.len() || col < 1 || col > self.cells[0].len() {
            return Err(MatrixError::IndexOutOfBounds);
        }
        proof {
            assert(self@[row - 1].len() == num_cols(self@));
        }
        Ok(self.cells[row - 1][col - 1])
    }

    /// The cellwise sum of this matrix and `b`, each cell wrapping on
    /// overflow.
    ///
    /// Fails with `DimensionMismatch` when the shapes differ.
    pub fn add(&self, b: &Matrix) -> (r: Result<Matrix, MatrixError>)
        ensures
            match r {
                Ok(c) => {
                    &&& self@.len() == b@.len() && num_cols(self@) == num_cols(b@)
                    &&& c@ == mat_add(self@, b@)
                },
                Err(e) => {
                    &&& !(self@.len() == b@.len() && num_cols(self@) == num_cols(b@))
                    &&& e == MatrixError::DimensionMismatch
                },
            },
    {
        proof {
            use_type_invariant(self);
            use_type_invariant(b);
        }
        let rows = self.rows();
        let cols = self.cols();
        if rows != b.rows() || cols != b.cols() {
            return Err(MatrixError::DimensionMismatch);
        }
        let ghost target = mat_add(self@, b@);
        let mut cells: Vec<Vec<isize>> = Vec::new();
        let mut i: usize = 0;
        while i < rows
            invariant
                i <= rows,
                rows == self@.len() && rows == b@.len(),
                cols == num_cols(self@) && cols == num_cols(b@),
                is_matrix(self@) && is_matrix(b@),
                target == mat_add(self@, b@),
                cells@.len() == i,
                forall|k: int| 0 <= k < i ==> #[trigger] cells@[k]@ == target[k],
            decreases rows - i,
        {
            proof {
                assert(self@[i as int].len() == cols && b@[i as int].len() == cols);
            }
            let mut row: Vec<isize> = Vec::new();
            let mut j: usize = 0;
            while j < cols
                invariant
                    j <= cols,
                    i < rows,
                    rows == self@.len() && rows == b@.len(),
                    cols == num_cols(self@),
                    self@[i as int].len() == cols && b@[i as int].len() == cols,
                    target == mat_add(self@, b@),
                    row@ == target[i as int].subrange(0, j as int),
                decreases cols - j,
            {
                row.push(add_wrapped(self.cells[i][j], b.cells[i][j]));
                j += 1;
                proof {
                    assert(row@ =~= target[i as int].subrange(0, j as int));
                }
            }
            proof {
                assert(row@ =~= target[i as int]);
            }
            cells.push(row);
            i += 1;
        }
        proof {
            assert(grid_of(cells@) =~= target);
        }
        Ok(Matrix { cells })
    }

    /// Replaces this matrix by its sum with `b`.
    ///
    /// Fails with `DimensionMismatch`, leaving the matrix as it was, when the
    /// shapes differ.
    pub fn add_assign(&mut self, b: &Matrix) -> (r: Result<(), MatrixError>)
        ensures
            match r {
                Ok(()) => {
                    &&& old(self)@.len() == b@.len() && num_cols(old(self)@) == num_cols(b@)
                    &&& final(self)@ == mat_add(old(self)@, b@)
                },
                Err(e) => {
                    &&& !(old(self)@.len() == b@.len() && num_cols(old(self)@) == num_cols(b@))
                    &&& e == MatrixError::DimensionMismatch
                    &&& final(self)@ == old(self)@
                },
            },
    {
        match self.add(b) {
            Ok(c) => {
                *self = c;
                Ok(())
            },
            Err(e) => Err(e),
        }
    }

    /// The product of this matrix and `b` by the textbook triple loop, each
    /// sum and product wrapping on overflow.
    ///
    /// Fails with `DimensionMismatch` when this matrix's column count differs
    /// from `b`'s row count.
    pub fn multiply(&self, b: &Matrix) -> (r: Result<Matrix, MatrixError>)
        ensures
            match r {
                Ok(c) => num_cols(self@) == b@.len() && c@ == mat_mul(self@, b@),
                Err(e) => num_cols(self@) != b@.len() && e == MatrixError::DimensionMismatch,
            },
    {
        proof {
            use_type_invariant(self);
            use_type_invariant(b);
        }
        let rows = self.rows();
        let inner = self.cols();
        let cols = b.cols();
        if inner != b.rows() {
            return Err(MatrixError::DimensionMismatch);
        }
        let ghost target = mat_mul(self@, b@);
        let mut cells: Vec<Vec<isize>> = Vec::new();
        let mut i: usize = 0;
        while i < rows
            invariant
                i <= rows,
                rows == self@.len(),
                inner == num_cols(self@) && inner == b@.len(),
                cols == num_cols(b@),
                is_matrix(self@) && is_matrix(b@),
                target == mat_mul(self@, b@),
                cells@.len() == i,
                forall|k: int| 0 <= k < i ==> #[trigger] cells@[k]@ == target[k],
            decreases rows - i,
        {
            proof {
                assert(self@[i as int].len() == inner);
            }
            let mut row: Vec<isize> = Vec::new();
            let mut j: usize = 0;
            while j < cols
                invariant
                    j <= cols,
                    i < rows,
                    rows == self@.len(),
                    inner == num_cols(self@) && inner == b@.len(),
                    cols == num_cols(b@),
                    is_matrix(b@),
                    self@[i as int].len() == inner,
                    target == mat_mul(self@, b@),
                    row@ == target[i as int].subrange(0, j as int),
                decreases cols - j,
            {
                let mut acc: isize = 0;
                let mut k: usize = 0;
                proof {
                    lemma_wrap_in_range(0);
                }
                while k < inner
                    invariant
                        k <= inner,
                        i < self@.len(),
                        j < cols,
                        inner == num_cols(self@) && inner == b@.len(),
                        cols == num_cols(b@),
                        is_matrix(b@),
                        self@[i as int].len() == inner,
                        acc == wrap(dot(self@, b@, i as int, j as int, k as nat)),
                    decreases inner - k,
                {
                    proof {
                        assert(b@[k as int].len() == cols);
                    }
                    let p = mul_wrapped(self.cells[i][k], b.cells[k][j]);
                    proof {
                        lemma_wrap_add(
                            dot(self@, b@, i as int, j as int, k as nat),
                            self@[i as int][k as int] * b@[k as int][j as int],
                        );
                        lemma_wrap_in_range(acc as int);
                    }
                    acc = add_wrapped(acc, p);
                    k += 1;
                }
                row.push(acc);
                j += 1;
                proof {
                    assert(row@ =~= target[i as int].subrange(0, j as int));
                }
            }
            proof {
                assert(row@ =~= target[i as int]);
            }
            cells.push(row);
            i += 1;
        }
        proof {
            assert(grid_of(cells@) =~= target);
        }
        Ok(Matrix { cells })
    }

    /// Replaces this matrix by its product with `b`.
    ///
    /// Fails with `DimensionMismatch`, leaving the matrix as it was, when this
    /// matrix's column count differs from `b`'s row count.
    pub fn mul_assign(&mut self, b: &Matrix) -> (r: Result<(), MatrixError>)
        ensures
            match r {
                Ok(()) => {
                    &&& num_cols(old(self)@) == b@.len()
                    &&& final(self)@ == mat_mul(old(self)@, b@)
                },
                Err(e) => {
                    &&& num_cols(old(self)@) != b@.len()
                    &&& e == MatrixError::DimensionMismatch
                    &&& final(self)@ == old(self)@
                },
            },
    {
        match self.multiply(b) {
            Ok(c) => {
                *self = c;
                Ok(())
            },
            Err(e) => Err(e),
        }
    }

    /// The product of this matrix and `b` by block Strassen: both operands are
    /// zero-padded to the smallest even square that holds them, split into
    /// 2 by 2 blocks, multiplied block-wise with the Strassen 2 by 2 scheme,
    /// joined again and cut to this matrix's rows by `b`'s columns. Two
    /// 2 by 2 operands go straight to the 2 by 2 scheme.
    ///
    /// For conformable operands this is their ordinary product; otherwise it
    /// is the product of the operands padded with zeros to a common inner
    /// dimension.
    pub fn strass(&self, b: &Matrix) -> (r: Matrix)
        requires
            strassen_size(self@, b@) <= usize::MAX,
        ensures
            r@ == strassen_product(self@, b@),
            num_cols(self@) == b@.len() ==> r@ == mat_mul(self@, b@),
    {
        proof {
            use_type_invariant(self);
            use_type_invariant(b);
            lemma_mat_mul_shape(self@, b@);
            if num_cols(self@) == b@.len() {
                lemma_strassen_matches_naive(self@, b@);
            }
        }
        if self.rows() == b.rows() && self.rows() == 2 && self.cols() == b.cols() && self.cols() == 2 {
            proof {
                lemma_resized_same(self@);
                lemma_resized_same(b@);
                lemma_resized_same(mat_mul(self@, b@));
            }
            return self.strass_inner(b);
        }
        let out_rows = self.rows();
        let out_cols = b.cols();
        let mut size = self.rows();
        if self.cols() > size {
            size = self.cols();
        }
        if b.rows() > size {
            size = b.rows();
        }
        if b.cols() > size {
            size = b.cols();
        }
        if size % 2 != 0 {
            size = size + 1;
        }
        let ghost s = strassen_size(self@, b@);
        assert(size == s);
        let pa = Matrix::from_matrix(size, size, self);
        let pb = Matrix::from_matrix(size, size, b);
        let ghost (pav, pbv) = (pa@, pb@);
        proof {
            lemma_resized_shape(self@, s, s);
            lemma_resized_shape(b@, s, s);
        }
        let ba = match Blocks::from_matrix(pa) {
            Ok(x) => x,
            Err(_) => vstd::pervasive::unreached(),
        };
        let bb = match Blocks::from_matrix(pb) {
            Ok(x) => x,
            Err(_) => vstd::pervasive::unreached(),
        };
        let bc = ba.strass(&bb);
        let res = bc.to_matrix();
        proof {
            lemma_flatten_blocks_of(pav);
            lemma_flatten_blocks_of(pbv);
            lemma_mat_mul_shape(pav, pbv);
            lemma_flatten_blocks_of(mat_mul(pav, pbv));
        }
        Matrix::from_matrix(out_rows, out_cols, &res)
    }

    /// The product of two 2 by 2 matrices by Strassen's scheme: seven
    /// products of sums, recombined into the four cells. Every sum, difference
    /// and product wraps on overflow.
    pub fn strass_inner(&self, b: &Matrix) -> (r: Matrix)
        requires
            self@.len() == 2 && num_cols(self@) == 2,
            b@.len() == 2 && num_cols(b@) == 2,
        ensures
            r@ == mat_mul(self@, b@),
    {
        proof {
            use_type_invariant(self);
            use_type_invariant(b);
            assert(self@[1].len() == 2 && b@[1].len() == 2);
        }
        let a11 = self.cells[0][0];
        let a12 = self.cells[0][1];
        let a21 = self.cells[1][0];
        let a22 = self.cells[1][1];
        let b11 = b.cells[0][0];
        let b12 = b.cells[0][1];
        let b21 = b.cells[1][0];
        let b22 = b.cells[1][1];

        let (c11, c12, c21, c22) = strassen_cells(a11, a12, a21, a22, b11, b12, b21, b22);
        proof {
            lemma_dot_2(self@, b@);
        }
        let cells = vec![vec![c11, c12], vec![c21, c22]];
        proof {
            assert(grid_of(cells@)[0] =~= mat_mul(self@, b@)[0]);
            assert(grid_of(cells@)[1] =~= mat_mul(self@, b@)[1]);
            assert(grid_of(cells@) =~= mat_mul(self@, b@));
        }
        Matrix { cells }
    }
}

/// The four cells of the product of the 2 by 2 matrices with rows
/// `(a11, a12), (a21, a22)` and `(b11, b12), (b21, b22)`, computed from
/// Strassen's seven products.
fn strassen_cells(
    a11: isize,
    a12: isize,
    a21: isize,
    a22: isize,
    b11: isize,
    b12: isize,
    b21: isize,
    b22: isize,
) -> (r: (isize, isize, isize, isize))
    ensures
        r.0 == wrap(a11 * b11 + a12 * b21),
        r.1 == wrap(a11 * b12 + a12 * b22),
        r.2 == wrap(a21 * b11 + a22 * b21),
        r.3 == wrap(a21 * b12 + a22 * b22),
{
    let m1 = mul_wrapped(add_wrapped(a11, a22), add_wrapped(b11, b22));
    let m2 = mul_wrapped(add_wrapped(a21, a22), b11);
    let m3 = mul_wrapped(a11, sub_wrapped(b12, b22));
    let m4 = mul_wrapped(a22, sub_wrapped(b21, b11));
    let m5 = mul_wrapped(add_wrapped(a11, a12), b22);
    let m6 = mul_wrapped(sub_wrapped(a21, a11), add_wrapped(b11, b12));
    let m7 = mul_wrapped(sub_wrapped(a12, a22), add_wrapped(b21, b22));

    let c11 = add_wrapped(sub_wrapped(add_wrapped(m1, m4), m5), m7);
    let c12 = add_wrapped(m3, m5);
    let c21 = add_wrapped(m2, m4);
    let c22 = add_wrapped(add_wrapped(sub_wrapped(m1, m2), m3), m6);

    proof {
        let (x11, x12, x21, x22) = (a11 as int, a12 as int, a21 as int, a22 as int);
        let (y11, y12, y21, y22) = (b11 as int, b12 as int, b21 as int, b22 as int);
        lemma_wrap_in_range(x11);
        lemma_wrap_in_range(x12);
        lemma_wrap_in_range(x21);
        lemma_wrap_in_range(x22);
        lemma_wrap_in_range(y11);
        lemma_wrap_in_range(y12);
        lemma_wrap_in_range(y21);
        lemma_wrap_in_range(y22);
        let p1 = (x11 + x22) * (y11 + y22);
        let p2 = (x21 + x22) * y11;
        let p3 = x11 * (y12 - y22);
        let p4 = x22 * (y21 - y11);
        let p5 = (x11 + x12) * y22;
        let p6 = (x21 - x11) * (y11 + y12);
        let p7 = (x12 - x22) * (y21 + y22);
        lemma_wrap_mul(x11 + x22, y11 + y22);
        lemma_wrap_mul(x21 + x22, y11);
        lemma_wrap_mul(x11, y12 - y22);
        lemma_wrap_mul(x22, y21 - y11);
        lemma_wrap_mul(x11 + x12, y22);
        lemma_wrap_mul(x21 - x11, y11 + y12);
        lemma_wrap_mul(x12 - x22, y21 + y22);
        lemma_wrap_add(p1, p4);
        lemma_wrap_sub(p1 + p4, p5);
        lemma_wrap_add(p1 + p4 - p5, p7);
        lemma_wrap_add(p3, p5);
        lemma_wrap_add(p2, p4);
        lemma_wrap_sub(p1, p2);
        lemma_wrap_add(p1 - p2, p3);
        lemma_wrap_add(p1 - p2 + p3, p6);
        lemma_strassen_2x2(x11, x12, x21, x22, y11, y12, y21, y22);
    }
    (c11, c12, c21, c22)
}

/// The seven Strassen products recombine into the four cells of the 2 by 2
/// product.
proof fn lemma_strassen_2x2(
    a11: int,
    a12: int,
    a21: int,
    a22: int,
    b11: int,
    b12: int,
    b21: int,
    b22: int,
)
    ensures
        (a11 + a22) * (b11 + b22) + a22 * (b21 - b11) - (a11 + a12) * b22 + (a12 - a22) * (b21
            + b22) == a11 * b11 + a12 * b21,
        a11 * (b12 - b22) + (a11 + a12) * b22 == a11 * b12 + a12 * b22,
        (a21 + a22) * b11 + a22 * (b21 - b11) == a21 * b11 + a22 * b21,
        (a11 + a22) * (b11 + b22) - (a21 + a22) * b11 + a11 * (b12 - b22) + (a21 - a11) * (b11
            + b12) == a21 * b12 + a22 * b22,
{
    assert((a11 + a22) * (b11 + b22) == a11 * b11 + a11 * b22 + a22 * b11 + a22 * b22)
        by (nonlinear_arith);
    assert((a21 + a22) * b11 == a21 * b11 + a22 * b11) by (nonlinear_arith);
    assert(a11 * (b12 - b22) == a11 * b12 - a11 * b22) by (nonlinear_arith);
    assert(a22 * (b21 - b11) == a22 * b21 - a22 * b11) by (nonlinear_arith);
    assert((a11 + a12) * b22 == a11 * b22 + a12 * b22) by (nonlinear_arith);
    assert((a21 - a11) * (b11 + b12) == a21 * b11 + a21 * b12 - a11 * b11 - a11 * b12)
        by (nonlinear_arith);
    assert((a12 - a22) * (b21 + b22) == a12 * b21 + a12 * b22 - a22 * b21 - a22 * b22)
        by (nonlinear_arith);
}

} // verus!
