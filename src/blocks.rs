//! `Blocks`: a matrix of even dimensions viewed as a grid of 2 by 2 blocks,
//! and block-wise Strassen multiplication.
use crate::arith::{lemma_wrap_add, lemma_wrap_in_range, wrap};
use crate::error::MatrixError;
use crate::matrix::Matrix;
use crate::model::{
    dot, grid_of, has_shape, is_matrix, lemma_dot_2, mat_mul, num_cols, Grid,
};
use vstd::prelude::*;

verus! {

/// The number of block columns: the length of the first block row.
pub open spec fn block_cols(v: Seq<Seq<Grid>>) -> nat {
    if v.len() > 0 {
        v[0].len()
    } else {
        0
    }
}

/// `v` is a valid block grid: at least one block row and one block column,
/// all block rows of equal length, every block 2 by 2, and a flat shape whose
/// dimensions fit in `usize`.
pub open spec fn is_block_grid(v: Seq<Seq<Grid>>) -> bool {
    &&& v.len() >= 1
    &&& block_cols(v) >= 1
    &&& 2 * v.len() <= usize::MAX
    &&& 2 * block_cols(v) <= usize::MAX
    &&& forall|r: int| 0 <= r < v.len() ==> #[trigger] v[r].len() == block_cols(v)
    &&& forall|r: int, c: int|
        0 <= r < v.len() && 0 <= c < v[r].len() ==> has_shape(#[trigger] v[r][c], 2, 2)
}

/// The flat matrix that a block grid stands for: cell `(i, j)` is cell
/// `(i % 2, j % 2)` of block `(i / 2, j / 2)`.
pub open spec fn flatten(v: Seq<Seq<Grid>>) -> Grid {
    Seq::new(
        2 * v.len(),
        |i: int| Seq::new(2 * block_cols(v), |j: int| v[i / 2][j / 2][i % 2][j % 2]),
    )
}

/// The 2 by 2 block of `g` whose top-left cell is `(2 * r, 2 * c)`.
pub open spec fn block_at(g: Grid, r: int, c: int) -> Grid {
    Seq::new(2, |p: int| Seq::new(2, |q: int| g[2 * r + p][2 * c + q]))
}

/// The grid of 2 by 2 blocks of a matrix with even dimensions.
pub open spec fn blocks_of(g: Grid) -> Seq<Seq<Grid>> {
    Seq::new(g.len() / 2, |r: int| Seq::new(num_cols(g) / 2, |c: int| block_at(g, r, c)))
}

/// The exact sum, over the first `n` block columns `t`, of cell `(p, q)` of
/// the 2 by 2 product of block `(i, t)` of `a` and block `(t, j)` of `b`.
spec fn block_dot(a: Seq<Seq<Grid>>, b: Seq<Seq<Grid>>, i: int, j: int, p: int, q: int, n: nat) -> int
    decreases n,
{
    if n == 0 {
        0
    } else {
        block_dot(a, b, i, j, p, q, (n - 1) as nat) + dot(a[i][n - 1], b[n - 1][j], p, q, 2)
    }
}

/// The 2 by 2 block that accumulates the first `n` block products for
/// output block `(i, j)`.
spec fn partial_block(a: Seq<Seq<Grid>>, b: Seq<Seq<Grid>>, i: int, j: int, n: nat) -> Grid {
    Seq::new(2, |p: int| Seq::new(2, |q: int| wrap(block_dot(a, b, i, j, p, q, n))))
}

/// Summing 2 by 2 block products over the first `n` block columns is summing
/// flat products over the first `2 * n` columns.
proof fn lemma_block_dot_flat(
    a: Seq<Seq<Grid>>,
    b: Seq<Seq<Grid>>,
    i: int,
    j: int,
    p: int,
    q: int,
    n: nat,
)
    requires
        is_block_grid(a),
        is_block_grid(b),
        block_cols(a) == b.len(),
        0 <= i < a.len(),
        0 <= j < block_cols(b),
        0 <= p < 2,
        0 <= q < 2,
        n <= block_cols(a),
    ensures
        block_dot(a, b, i, j, p, q, n) == dot(flatten(a), flatten(b), 2 * i + p, 2 * j + q, 2 * n),
    decreases n,
{
    if n > 0 {
        let (fa, fb) = (flatten(a), flatten(b));
        let (r, c, t) = (2 * i + p, 2 * j + q, (n - 1) as int);
        lemma_block_dot_flat(a, b, i, j, p, q, (n - 1) as nat);
        lemma_dot_2(a[i][t], b[t][j]);
        assert(r / 2 == i && r % 2 == p && c / 2 == j && c % 2 == q);
        assert((2 * t) / 2 == t && (2 * t) % 2 == 0 && (2 * t + 1) / 2 == t && (2 * t + 1) % 2 == 1);
        assert(a[i].len() == block_cols(a));
        assert(fa[r][2 * t] == a[i][t][p][0]);
        assert(fa[r][2 * t + 1] == a[i][t][p][1]);
        assert(fb[2 * t][c] == b[t][j][0][q]);
        assert(fb[2 * t + 1][c] == b[t][j][1][q]);
        assert(dot(fa, fb, r, c, (2 * n) as nat) == dot(fa, fb, r, c, (2 * t + 1) as nat) + fa[r][2
            * t + 1] as int * fb[2 * t + 1][c] as int);
        assert(dot(fa, fb, r, c, (2 * t + 1) as nat) == dot(fa, fb, r, c, (2 * t) as nat) + fa[r][2
            * t] as int * fb[2 * t][c] as int);
    }
}

/// Splitting a matrix of even dimensions into 2 by 2 blocks and flattening
/// them again gives back the matrix.
pub proof fn lemma_flatten_blocks_of(g: Grid)
    requires
        is_matrix(g),
        g.len() % 2 == 0,
        num_cols(g) % 2 == 0,
    ensures
        flatten(blocks_of(g)) == g,
{
    let f = flatten(blocks_of(g));
    assert(blocks_of(g).len() == g.len() / 2);
    assert(block_cols(blocks_of(g)) == num_cols(g) / 2);
    assert forall|i: int| 0 <= i < g.len() implies #[trigger] f[i] == g[i] by {
        assert(g[i].len() == num_cols(g));
        assert forall|j: int| 0 <= j < num_cols(g) implies #[trigger] f[i][j] == g[i][j] by {
            assert(2 * (i / 2) + i % 2 == i);
            assert(2 * (j / 2) + j % 2 == j);
        }
        assert(f[i] =~= g[i]);
    }
    assert(f =~= g);
}

/// A grid of 2 by 2 matrices that together form one matrix of twice as many
/// rows and columns.
#[derive(Debug, PartialEq, Eq)]
pub struct Blocks {
    mats: Vec<Vec<Matrix>>,
}

impl View for Blocks {
    type V = Seq<Seq<Grid>>;

    closed spec fn view(&self) -> Seq<Seq<Grid>> {
        self.mats@.map_values(|row: Vec<Matrix>| row@.map_values(|m: Matrix| m@))
    }
}

impl Clone for Blocks {
    /// A deep copy.
    fn clone(&self) -> (r: Self)
        ensures
            r@ == self@,
    {
        proof {
            use_type_invariant(self);
        }
        let mut mats: Vec<Vec<Matrix>> = Vec::new();
        let mut i: usize = 0;
        while i < self.mats.len()
            invariant
                i <= self@.len(),
                is_block_grid(self@),
                mats@.len() == i,
                forall|k: int| 0 <= k < i ==> (#[trigger] mats@[k])@.len() == self@[k].len(),
                forall|k: int, c: int|
                    0 <= k < i && 0 <= c < self@[k].len() ==> (#[trigger] mats@[k]@[c])@ == self@[k][c],
            decreases self@.len() - i,
        {
            let row = &self.mats[i];
            proof {
                assert(self@[i as int] == row@.map_values(|m: Matrix| m@));
            }
            let mut copy: Vec<Matrix> = Vec::new();
            let mut j: usize = 0;
            while j < row.len()
                invariant
                    j <= row@.len(),
                    i < self@.len(),
                    self@[i as int] == row@.map_values(|m: Matrix| m@),
                    copy@.len() == j,
                    forall|c: int| 0 <= c < j ==> (#[trigger] copy@[c])@ == self@[i as int][c],
                decreases row@.len() - j,
            {
                copy.push(row[j].clone());
                j += 1;
            }
            mats.push(copy);
            i += 1;
        }
        proof {
            let v = mats@.map_values(|row: Vec<Matrix>| row@.map_values(|m: Matrix| m@));
            assert forall|k: int| 0 <= k < self@.len() implies #[trigger] v[k] == self@[k] by {
                assert(v[k] =~= self@[k]);
            }
            assert(v =~= self@);
        }
        Blocks { mats }
    }
}

impl Blocks {
    #[verifier::type_invariant]
    spec fn well_formed(&self) -> bool {
        is_block_grid(self@)
    }

    /// A block grid holding `mats`, one vector per block row.
    ///
    /// Fails with `InvalidBlockShape` when there are no block rows, the first
    /// block row is empty, the block rows differ in length, a block is not
    /// 2 by 2, or the flat matrix would have more than `usize::MAX` rows or
    /// columns.
    pub fn new(mats: Vec<Vec<Matrix>>) -> (r: Result<Blocks, MatrixError>)
        ensures
            ({
                let v = mats@.map_values(|row: Vec<Matrix>| row@.map_values(|m: Matrix| m@));
                match r {
                    Ok(b) => is_block_grid(v) && b@ == v,
                    Err(e) => !is_block_grid(v) && e == MatrixError::InvalidBlockShape,
                }
            }),
    {
        let ghost v = mats@.map_values(|row: Vec<Matrix>| row@.map_values(|m: Matrix| m@));
        if mats.len() == 0 {
            return Err(MatrixError::InvalidBlockShape);
        }
        let cols = mats[0].len();
        if cols == 0 || mats.len() > usize::MAX / 2 || cols > usize::MAX / 2 {
            return Err(MatrixError::InvalidBlockShape);
        }
        let mut r: usize = 0;
        while r < mats.len()
            invariant
                r <= mats@.len(),
                v == mats@.map_values(|row: Vec<Matrix>| row@.map_values(|m: Matrix| m@)),
                cols == block_cols(v),
                forall|k: int| 0 <= k < r ==> #[trigger] v[k].len() == cols,
                forall|k: int, c: int|
                    0 <= k < r && 0 <= c < v[k].len() ==> has_shape(#[trigger] v[k][c], 2, 2),
            decreases mats@.len() - r,
        {
            let row = &mats[r];
            if row.len() != cols {
                proof {
                    assert(v[r as int].len() != block_cols(v));
                }
                return Err(MatrixError::InvalidBlockShape);
            }
            let mut c: usize = 0;
            while c < cols
                invariant
                    c <= cols,
                    r < mats@.len(),
                    *row == mats@[r as int],
                    row@.len() == cols,
                    v == mats@.map_values(|row: Vec<Matrix>| row@.map_values(|m: Matrix| m@)),
                    forall|k: int| 0 <= k < c ==> has_shape(#[trigger] v[r as int][k], 2, 2),
                decreases cols - c,
            {
                let m = &row[c];
                if m.rows() != 2 || m.cols() != 2 {
                    proof {
                        assert(v[r as int][c as int] == m@);
                    }
                    return Err(MatrixError::InvalidBlockShape);
                }
                proof {
                    use_type_invariant(m);
                    assert(v[r as int][c as int] == m@);
                }
                c += 1;
            }
            r += 1;
        }
        Ok(Blocks { mats })
    }

    /// The number of block rows.
    pub fn rows(&self) -> (r: usize)
        ensures
            r == self@.len(),
    {
        self.mats.len()
    }

    /// The number of block columns.
    pub fn cols(&self) -> (r: usize)
        ensures
            r == block_cols(self@),
    {
        proof {
            use_type_invariant(self);
        }
        self.mats[0].len()
    }

    /// The block in block row `row` and block column `col`, both counted
    /// from 1.
    ///
    /// Fails with `IndexOutOfBounds` when either coordinate is outside the
    /// grid.
    pub fn get(&self, row: usize, col: usize) -> (r: Result<&Matrix, MatrixError>)
        ensures
            match r {
                Ok(m) => {
                    &&& 1 <= row <= self@.len() && 1 <= col <= block_cols(self@)
                    &&& m@ == self@[row - 1][col - 1]
                },
                Err(e) => {
                    &&& !(1 <= row <= self@.len() && 1 <= col <= block_cols(self@))
                    &&& e == MatrixError::IndexOutOfBounds
                },
            },
    {
        proof {
            use_type_invariant(self);
        }
        if row < 1 || row > self.mats.len() || col < 1 || col > self.mats[0].len() {
            return Err(MatrixError::IndexOutOfBounds);
        }
        proof {
            assert(self@[row - 1] == self.mats@[row - 1]@.map_values(|m: Matrix| m@));
            assert(self@[row - 1].len() == block_cols(self@));
        }
        Ok(&self.mats[row - 1][col - 1])
    }

    /// The 2 by 2 blocks of `mat`, whose dimensions must both be even: block
    /// `(r, c)` holds the cells of rows `2r, 2r + 1` and columns `2c, 2c + 1`
    /// (0-based).
    ///
    /// Fails with `InvalidBlockShape` when either dimension is odd.
    pub fn from_matrix(mat: Matrix) -> (r: Result<Blocks, MatrixError>)
        ensures
            match r {
                Ok(b) => {
                    &&& mat@.len() % 2 == 0 && num_cols(mat@) % 2 == 0
                    &&& b@ == blocks_of(mat@)
                },
                Err(e) => {
                    &&& !(mat@.len() % 2 == 0 && num_cols(mat@) % 2 == 0)
                    &&& e == MatrixError::InvalidBlockShape
                },
            },
    {
        proof {
            use_type_invariant(&mat);
        }
        let rows = mat.rows();
        let cols = mat.cols();
        if rows % 2 != 0 || cols % 2 != 0 {
            return Err(MatrixError::InvalidBlockShape);
        }
        let ghost target = blocks_of(mat@);
        let mut mats: Vec<Vec<Matrix>> = Vec::new();
        let mut r: usize = 0;
        while r < rows / 2
            invariant
                r <= rows / 2,
                rows == mat@.len() && cols == num_cols(mat@),
                rows % 2 == 0 && cols % 2 == 0,
                is_matrix(mat@),
                target == blocks_of(mat@),
                mats@.len() == r,
                forall|k: int| 0 <= k < r ==> (#[trigger] mats@[k])@.len() == cols / 2,
                forall|k: int, c: int|
                    0 <= k < r && 0 <= c < cols / 2 ==> (#[trigger] mats@[k]@[c])@ == target[k][c],
            decreases rows / 2 - r,
        {
            let mut row: Vec<Matrix> = Vec::new();
            let mut c: usize = 0;
            while c < cols / 2
                invariant
                    c <= cols / 2,
                    r < rows / 2,
                    rows == mat@.len() && cols == num_cols(mat@),
                    rows % 2 == 0 && cols % 2 == 0,
                    target == blocks_of(mat@),
                    row@.len() == c,
                    forall|k: int| 0 <= k < c ==> (#[trigger] row@[k])@ == target[r as int][k],
                decreases cols / 2 - c,
            {
                let blk = Matrix::square2(
                    mat.at(2 * r, 2 * c),
                    mat.at(2 * r, 2 * c + 1),
                    mat.at(2 * r + 1, 2 * c),
                    mat.at(2 * r + 1, 2 * c + 1),
                );
                proof {
                    let t = target[r as int][c as int];
                    assert(blk@[0] =~= t[0]);
                    assert(blk@[1] =~= t[1]);
                    assert(blk@ =~= t);
                }
                row.push(blk);
                c += 1;
            }
            mats.push(row);
            r += 1;
        }
        proof {
            let v = mats@.map_values(|row: Vec<Matrix>| row@.map_values(|m: Matrix| m@));
            assert forall|k: int| 0 <= k < rows / 2 implies #[trigger] v[k] == target[k] by {
                assert(v[k] =~= target[k]);
            }
            assert(v =~= target);
        }
        Ok(Blocks { mats })
    }

    /// The flat matrix that this block grid stands for, with twice as many
    /// rows and columns as there are blocks.
    pub fn to_matrix(self) -> (r: Matrix)
        ensures
            r@ == flatten(self@),
    {
        proof {
            use_type_invariant(&self);
        }
        let rows = 2 * self.rows();
        let cols = 2 * self.cols();
        let ghost target = flatten(self@);
        let mut cells: Vec<Vec<isize>> = Vec::new();
        let mut i: usize = 0;
        while i < rows
            invariant
                i <= rows,
                rows == 2 * self@.len() && cols == 2 * block_cols(self@),
                is_block_grid(self@),
                target == flatten(self@),
                cells@.len() == i,
                forall|k: int| 0 <= k < i ==> #[trigger] cells@[k]@ == target[k],
            decreases rows - i,
        {
            let mut row: Vec<isize> = Vec::new();
            let mut j: usize = 0;
            while j < cols
                invariant
                    j <= cols,
                    i < rows,
                    rows == 2 * self@.len() && cols == 2 * block_cols(self@),
                    is_block_grid(self@),
                    target == flatten(self@),
                    row@ == target[i as int].subrange(0, j as int),
                decreases cols - j,
            {
                proof {
                    let bi = (i / 2) as int;
                    assert(self@[bi] == self.mats@[bi]@.map_values(|m: Matrix| m@));
                    assert(self@[bi].len() == block_cols(self@));
                }
                let blk = &self.mats[i / 2][j / 2];
                proof {
                    assert(blk@ == self@[(i / 2) as int][(j / 2) as int]);
                    assert(has_shape(self@[(i / 2) as int][(j / 2) as int], 2, 2));
                }
                row.push(blk.at(i % 2, j % 2));
                j += 1;
                proof {
                    assert(row@ =~= target[i as int].subrange(0, j as int));
                }
            }
            proof {
                assert(row@ =~= target[i as int]);
            }
            cells.push(row);
            i += 1;
        }
        proof {
            assert(grid_of(cells@) =~= target);
        }
        Matrix::from_rows(cells)
    }

    /// The block product of this grid and `b`: output block `(i, j)` is the
    /// sum over `t` of the Strassen 2 by 2 product of block `(i, t)` and block
    /// `(t, j)`, every sum wrapping on overflow. Taken flat, this is the
    /// ordinary product of the two flat matrices.
    pub fn strass(&self, b: &Blocks) -> (r: Blocks)
        requires
            block_cols(self@) == b@.len(),
        ensures
            r@ == blocks_of(mat_mul(flatten(self@), flatten(b@))),
    {
        proof {
            use_type_invariant(self);
            use_type_invariant(b);
        }
        let rows = self.rows();
        let inner = self.cols();
        let cols = b.cols();
        let ghost (av, bv) = (self@, b@);
        let ghost target = blocks_of(mat_mul(flatten(av), flatten(bv)));
        let mut mats: Vec<Vec<Matrix>> = Vec::new();
        let mut i: usize = 0;
        while i < rows
            invariant
                i <= rows,
                av == self@ && bv == b@,
                rows == av.len() && inner == block_cols(av) && inner == bv.len() && cols == block_cols(bv),
                is_block_grid(av) && is_block_grid(bv),
                mats@.len() == i,
                forall|k: int| 0 <= k < i ==> (#[trigger] mats@[k])@.len() == cols,
                forall|k: int, c: int|
                    0 <= k < i && 0 <= c < cols ==> (#[trigger] mats@[k]@[c])@ == partial_block(
                        av,
                        bv,
                        k,
                        c,
                        inner as nat,
                    ),
            decreases rows - i,
        {
            let mut row: Vec<Matrix> = Vec::new();
            let mut j: usize = 0;
            while j < cols
                invariant
                    j <= cols,
                    i < rows,
                    av == self@ && bv == b@,
                    rows == av.len() && inner == block_cols(av) && inner == bv.len() && cols
                        == block_cols(bv),
                    is_block_grid(av) && is_block_grid(bv),
                    row@.len() == j,
                    forall|c: int|
                        0 <= c < j ==> (#[trigger] row@[c])@ == partial_block(
                            av,
                            bv,
                            i as int,
                            c,
                            inner as nat,
                        ),
                decreases cols - j,
            {
                let mut acc = Matrix::zeroes(2, 2);
                proof {
                    lemma_wrap_in_range(0);
                    let z = partial_block(av, bv, i as int, j as int, 0);
                    assert(forall|p: int, q: int| #[trigger] block_dot(av, bv, i as int, j as int, p, q, 0) == 0);
                    assert(acc@[0] =~= z[0]);
                    assert(acc@[1] =~= z[1]);
                    assert(acc@ =~= z);
                }
                let mut k: usize = 0;
                while k < inner
                    invariant
                        k <= inner,
                        i < rows,
                        j < cols,
                        av == self@ && bv == b@,
                        rows == av.len() && inner == block_cols(av) && inner == bv.len() && cols
                            == block_cols(bv),
                        is_block_grid(av) && is_block_grid(bv),
                        acc@ == partial_block(av, bv, i as int, j as int, k as nat),
                    decreases inner - k,
                {
                    proof {
                        assert(av[i as int] == self.mats@[i as int]@.map_values(|m: Matrix| m@));
                        assert(av[i as int].len() == inner);
                        assert(bv[k as int] == b.mats@[k as int]@.map_values(|m: Matrix| m@));
                        assert(bv[k as int].len() == cols);
                        assert(has_shape(av[i as int][k as int], 2, 2));
                        assert(has_shape(bv[k as int][j as int], 2, 2));
                    }
                    let lhs = &self.mats[i][k];
                    let rhs = &b.mats[k][j];
                    let prod = lhs.strass_inner(rhs);
                    let ghost before = acc@;
                    let _ = acc.add_assign(&prod);
                    proof {
                        let (ab, bb) = (av[i as int][k as int], bv[k as int][j as int]);
                        assert forall|p: int, q: int| 0 <= p < 2 && 0 <= q < 2 implies #[trigger] acc@[p][q]
                            == partial_block(av, bv, i as int, j as int, (k + 1) as nat)[p][q] by {
                            lemma_wrap_add(
                                block_dot(av, bv, i as int, j as int, p, q, k as nat),
                                dot(ab, bb, p, q, 2),
                            );
                        }
                        assert(acc@[0] =~= partial_block(av, bv, i as int, j as int, (k + 1) as nat)[0]);
                        assert(acc@[1] =~= partial_block(av, bv, i as int, j as int, (k + 1) as nat)[1]);
                        assert(acc@ =~= partial_block(av, bv, i as int, j as int, (k + 1) as nat));
                    }
                    k += 1;
                }
                row.push(acc);
                j += 1;
            }
            mats.push(row);
            i += 1;
        }
        proof {
            let v = mats@.map_values(|row: Vec<Matrix>| row@.map_values(|m: Matrix| m@));
            let fm = mat_mul(flatten(av), flatten(bv));
            assert forall|k: int| 0 <= k < rows implies #[trigger] v[k] == target[k] by {
                assert forall|c: int| 0 <= c < cols implies #[trigger] v[k][c] == target[k][c] by {
                    assert forall|p: int, q: int| 0 <= p < 2 && 0 <= q < 2 implies #[trigger] v[k][c][p][q]
                        == target[k][c][p][q] by {
                        lemma_block_dot_flat(av, bv, k, c, p, q, inner as nat);
                    }
                    assert(v[k][c][0] =~= target[k][c][0]);
                    assert(v[k][c][1] =~= target[k][c][1]);
                    assert(v[k][c] =~= target[k][c]);
                }
                assert(v[k] =~= target[k]);
            }
            assert(v =~= target);
        }
        Blocks { mats }
    }
}

} // verus!
