//! Properties that relate several operations of the library.
use crate::model::{
    identity, is_matrix, lemma_dot_padded, lemma_mat_mul_identity, lemma_resized_same, lemma_resized_shape,
    lemma_resized_twice, mat_mul, num_cols, resized, strassen_product, strassen_size, Grid,
};
use vstd::prelude::*;

verus! {

/// Growing a matrix to at least its own shape and then shrinking it back to
/// its own shape gives back the matrix: growing loses nothing.
pub proof fn lemma_reshape_round_trip(g: Grid, rows: nat, cols: nat)
    requires
        is_matrix(g),
        rows >= g.len(),
        cols >= num_cols(g),
    ensures
        resized(resized(g, rows, cols), g.len(), num_cols(g)) == g,
{
    lemma_resized_twice(g, rows, cols, g.len(), num_cols(g));
    lemma_resized_same(g);
}

/// For conformable matrices the Strassen pipeline (pad to an even square,
/// multiply, cut back) computes the ordinary product: zero padding adds only
/// zero terms to every retained cell.
pub proof fn lemma_strassen_matches_naive(a: Grid, b: Grid)
    requires
        is_matrix(a),
        is_matrix(b),
        num_cols(a) == b.len(),
    ensures
        strassen_product(a, b) == mat_mul(a, b),
{
    let s = strassen_size(a, b);
    let (pa, pb) = (resized(a, s, s), resized(b, s, s));
    let sp = strassen_product(a, b);
    let mm = mat_mul(a, b);
    lemma_resized_shape(a, s, s);
    lemma_resized_shape(b, s, s);
    assert forall|i: int| 0 <= i < a.len() implies #[trigger] sp[i] == mm[i] by {
        assert forall|j: int| 0 <= j < num_cols(b) implies #[trigger] sp[i][j] == mm[i][j] by {
            lemma_dot_padded(a, b, s, i, j, s);
            assert(mat_mul(pa, pb)[i].len() == s);
        }
        assert(sp[i] =~= mm[i]);
    }
    assert(sp =~= mm);
}

/// Multiplying by the identity through the Strassen pipeline gives back the
/// matrix.
pub proof fn lemma_strassen_identity(a: Grid)
    requires
        is_matrix(a),
    ensures
        strassen_product(a, identity(num_cols(a))) == a,
{
    let n = num_cols(a);
    assert(is_matrix(identity(n)));
    lemma_strassen_matches_naive(a, identity(n));
    lemma_mat_mul_identity(a);
}

} // verus!
