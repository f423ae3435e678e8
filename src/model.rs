//! The mathematical model of a matrix: a sequence of rows of `isize` cells.
//!
//! Indices in this model are 0-based; the executable API is 1-based.
use crate::arith::wrap;
use vstd::prelude::*;

verus! {

/// A matrix as a sequence of rows.
pub type Grid = Seq<Seq<isize>>;

/// The rows of a vector of row vectors, as sequences.
pub open spec fn grid_of(rows: Seq<Vec<isize>>) -> Grid {
    rows.map_values(|r: Vec<isize>| r@)
}

/// The number of columns: the length of the first row (0 when there is none).
pub open spec fn num_cols(g: Grid) -> nat {
    if g.len() > 0 {
        g[0].len()
    } else {
        0
    }
}

/// `g` has exactly `rows` rows of exactly `cols` cells each.
pub open spec fn has_shape(g: Grid, rows: nat, cols: nat) -> bool {
    &&& g.len() == rows
    &&& forall|i: int| 0 <= i < rows ==> #[trigger] g[i].len() == cols
}

/// `g` is a valid matrix: at least one row, at least one column, and all rows
/// of equal length.
pub open spec fn is_matrix(g: Grid) -> bool {
    &&& g.len() >= 1
    &&& num_cols(g) >= 1
    &&& has_shape(g, g.len(), num_cols(g))
}

/// The cell at `(i, j)`, or 0 where `(i, j)` lies outside `g`.
pub open spec fn entry(g: Grid, i: int, j: int) -> isize {
    if 0 <= i < g.len() && 0 <= j < g[i].len() {
        g[i][j]
    } else {
        0
    }
}

/// The all-zero `rows` by `cols` matrix.
pub open spec fn zero_grid(rows: nat, cols: nat) -> Grid {
    Seq::new(rows, |i: int| Seq::new(cols, |j: int| 0isize))
}

/// `g` cut or zero-padded to `rows` by `cols`: the overlapping top-left part
/// is kept, cells outside `g` are 0.
pub open spec fn resized(g: Grid, rows: nat, cols: nat) -> Grid {
    Seq::new(rows, |i: int| Seq::new(cols, |j: int| entry(g, i, j)))
}

/// The `rows` by `cols` matrix whose rows are consecutive runs of `list`.
pub open spec fn chunked(list: Seq<isize>, rows: nat, cols: nat) -> Grid {
    Seq::new(rows, |i: int| Seq::new(cols, |j: int| list[i * cols + j]))
}

/// The `n` by `n` identity matrix.
pub open spec fn identity(n: nat) -> Grid {
    Seq::new(n, |i: int| Seq::new(n, |j: int| if i == j { 1isize } else { 0isize }))
}

/// The exact sum of `a[i][k] * b[k][j]` over `k < n`.
pub open spec fn dot(a: Grid, b: Grid, i: int, j: int, n: nat) -> int
    decreases n,
{
    if n == 0 {
        0
    } else {
        dot(a, b, i, j, (n - 1) as nat) + a[i][n - 1] as int * b[n - 1][j] as int
    }
}

/// The product of `a` and `b`, each cell wrapped into `isize`.
pub open spec fn mat_mul(a: Grid, b: Grid) -> Grid {
    Seq::new(
        a.len(),
        |i: int| Seq::new(num_cols(b), |j: int| wrap(dot(a, b, i, j, num_cols(a)))),
    )
}

/// The cellwise sum of `a` and `b`, each cell wrapped into `isize`.
pub open spec fn mat_add(a: Grid, b: Grid) -> Grid {
    Seq::new(
        a.len(),
        |i: int| Seq::new(num_cols(a), |j: int| wrap(a[i][j] as int + b[i][j] as int)),
    )
}

/// The side of the square that the Strassen pipeline pads both operands to:
/// the smallest even number not below any of their dimensions.
pub open spec fn strassen_size(a: Grid, b: Grid) -> nat {
    let m = vstd::math::max(
        vstd::math::max(a.len() as int, num_cols(a) as int),
        vstd::math::max(b.len() as int, num_cols(b) as int),
    );
    if m % 2 == 0 {
        m as nat
    } else {
        (m + 1) as nat
    }
}

/// What the Strassen pipeline computes: both operands zero-padded to the
/// `strassen_size` square, multiplied, and cut to `a`'s rows by `b`'s columns.
pub open spec fn strassen_product(a: Grid, b: Grid) -> Grid {
    let s = strassen_size(a, b);
    resized(mat_mul(resized(a, s, s), resized(b, s, s)), a.len(), num_cols(b))
}

/// Resizing twice equals resizing once to the second shape, provided the
/// first resize cuts nothing that the second one keeps.
pub proof fn lemma_resized_twice(g: Grid, r1: nat, c1: nat, r2: nat, c2: nat)
    requires
        is_matrix(g),
        r2 <= r1 || g.len() <= r1,
        c2 <= c1 || num_cols(g) <= c1,
    ensures
        resized(resized(g, r1, c1), r2, c2) == resized(g, r2, c2),
{
    assert forall|i: int| 0 <= i < r2 implies #[trigger] resized(resized(g, r1, c1), r2, c2)[i]
        == resized(g, r2, c2)[i] by {
        if 0 <= i < g.len() {
            assert(g[i].len() == num_cols(g));
        }
        assert(resized(resized(g, r1, c1), r2, c2)[i] =~= resized(g, r2, c2)[i]);
    }
    assert(resized(resized(g, r1, c1), r2, c2) =~= resized(g, r2, c2));
}

/// Resizing a matrix to its own shape leaves it unchanged.
pub proof fn lemma_resized_same(g: Grid)
    requires
        is_matrix(g),
    ensures
        resized(g, g.len(), num_cols(g)) == g,
{
    assert forall|i: int| 0 <= i < g.len() implies #[trigger] resized(g, g.len(), num_cols(g))[i]
        == g[i] by {
        assert(g[i].len() == num_cols(g));
        assert(resized(g, g.len(), num_cols(g))[i] =~= g[i]);
    }
    assert(resized(g, g.len(), num_cols(g)) =~= g);
}

/// A resized matrix is a valid matrix of the requested shape.
pub proof fn lemma_resized_shape(g: Grid, rows: nat, cols: nat)
    requires
        rows >= 1,
        cols >= 1,
    ensures
        is_matrix(resized(g, rows, cols)),
        has_shape(resized(g, rows, cols), rows, cols),
        num_cols(resized(g, rows, cols)) == cols,
{
}

/// The cells of a product with inner dimension 2.
pub proof fn lemma_dot_2(a: Grid, b: Grid)
    ensures
        forall|i: int, j: int|
            #[trigger] dot(a, b, i, j, 2) == a[i][0] as int * b[0][j] as int + a[i][1] as int
                * b[1][j] as int,
{
    assert forall|i: int, j: int|
        #[trigger] dot(a, b, i, j, 2) == a[i][0] as int * b[0][j] as int + a[i][1] as int
            * b[1][j] as int by {
        assert(dot(a, b, i, j, 0) == 0);
        assert(dot(a, b, i, j, 1) == a[i][0] as int * b[0][j] as int);
    }
}

/// A product of valid matrices is a valid matrix with the rows of `a` and
/// the columns of `b`.
pub proof fn lemma_mat_mul_shape(a: Grid, b: Grid)
    requires
        is_matrix(a),
        is_matrix(b),
    ensures
        is_matrix(mat_mul(a, b)),
        has_shape(mat_mul(a, b), a.len(), num_cols(b)),
        num_cols(mat_mul(a, b)) == num_cols(b),
{
}

/// Zero-padding both factors to `s` columns and rows leaves each partial dot
/// product unchanged: the padding only adds zero terms.
pub proof fn lemma_dot_padded(a: Grid, b: Grid, s: nat, i: int, j: int, k: nat)
    requires
        is_matrix(a),
        is_matrix(b),
        num_cols(a) == b.len(),
        a.len() <= s && num_cols(a) <= s && num_cols(b) <= s,
        0 <= i < a.len(),
        0 <= j < num_cols(b),
        k <= s,
    ensures
        dot(resized(a, s, s), resized(b, s, s), i, j, k) == dot(
            a,
            b,
            i,
            j,
            vstd::math::min(k as int, num_cols(a) as int) as nat,
        ),
    decreases k,
{
    if k > 0 {
        lemma_dot_padded(a, b, s, i, j, (k - 1) as nat);
        let t = k - 1;
        assert(a[i].len() == num_cols(a));
        if t < num_cols(a) {
            assert(b[t].len() == num_cols(b));
        }
    }
}

/// Multiplying by the identity keeps a partial dot product's one term.
proof fn lemma_dot_identity(a: Grid, i: int, j: int, k: nat)
    requires
        is_matrix(a),
        0 <= i < a.len(),
        0 <= j < num_cols(a),
        k <= num_cols(a),
    ensures
        dot(a, identity(num_cols(a)), i, j, k) == if j < k {
            a[i][j] as int
        } else {
            0
        },
    decreases k,
{
    if k > 0 {
        lemma_dot_identity(a, i, j, (k - 1) as nat);
    }
}

/// A matrix times the identity of its column count is the matrix itself.
pub proof fn lemma_mat_mul_identity(a: Grid)
    requires
        is_matrix(a),
    ensures
        mat_mul(a, identity(num_cols(a))) == a,
{
    let n = num_cols(a);
    let m = mat_mul(a, identity(n));
    assert forall|i: int| 0 <= i < a.len() implies #[trigger] m[i] == a[i] by {
        assert(a[i].len() == n);
        assert forall|j: int| 0 <= j < n implies #[trigger] m[i][j] == a[i][j] by {
            lemma_dot_identity(a, i, j, n);
            crate::arith::lemma_wrap_in_range(a[i][j] as int);
        }
        assert(m[i] =~= a[i]);
    }
    assert(m =~= a);
}

} // verus!
