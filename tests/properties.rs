use matrix_rs::blocks::Blocks;
use matrix_rs::error::MatrixError;
use matrix_rs::matrix::Matrix;

fn m(cells: Vec<Vec<isize>>) -> Matrix {
    Matrix::new(cells).unwrap()
}

fn fl(rows: usize, cols: usize, list: Vec<isize>) -> Matrix {
    Matrix::from_list(rows, cols, list).unwrap()
}

fn identity(n: usize) -> Matrix {
    let mut list = vec![0isize; n * n];
    for i in 0..n {
        list[i * n + i] = 1;
    }
    fl(n, n, list)
}

#[test]
fn reshape_grow_then_shrink_restores() {
    let a = fl(2, 3, vec![1, -2, 3, 4, 5, -6]);
    let grown = Matrix::from_matrix(5, 4, &a);
    assert_eq!(grown.rows(), 5);
    assert_eq!(grown.cols(), 4);
    assert_eq!(grown.get(5, 4), Ok(0));
    assert_eq!(Matrix::from_matrix(2, 3, &grown), a);
}

#[test]
fn reshape_mixed_grow_rows_shrink_cols() {
    let a = fl(2, 3, vec![1, 2, 3, 4, 5, 6]);
    assert_eq!(Matrix::from_matrix(3, 2, &a), m(vec![vec![1, 2], vec![4, 5], vec![0, 0]]));
}

#[test]
fn reshape_mixed_shrink_rows_grow_cols() {
    let a = fl(3, 2, vec![1, 2, 3, 4, 5, 6]);
    assert_eq!(Matrix::from_matrix(2, 3, &a), m(vec![vec![1, 2, 0], vec![3, 4, 0]]));
}

#[test]
fn reshape_keeps_left_column() {
    let a = fl(2, 2, vec![1, 2, 3, 4]);
    assert_eq!(Matrix::from_matrix(2, 1, &a), m(vec![vec![1], vec![3]]));
}

#[test]
fn blocks_round_trip() {
    let a = fl(2, 4, vec![1, 2, 3, 4, 5, 6, 7, 8]);
    let b = Blocks::from_matrix(a.clone()).unwrap();
    assert_eq!(b.rows(), 1);
    assert_eq!(b.cols(), 2);
    assert_eq!(b.get(1, 2), Ok(&fl(2, 2, vec![3, 4, 7, 8])));
    assert_eq!(b.to_matrix(), a);
}

#[test]
fn strass_matches_multiply_rectangular() {
    let cases = vec![
        (fl(1, 2, vec![1, 2]), fl(2, 1, vec![3, 4])),
        (fl(2, 1, vec![1, 2]), fl(1, 2, vec![3, 4])),
        (fl(3, 1, vec![1, 2, 3]), fl(1, 3, vec![4, 5, 6])),
        (fl(2, 3, vec![1, -2, 3, 0, 5, 7]), fl(3, 4, (1..=12).collect())),
    ];
    for (a, b) in cases {
        assert_eq!(Ok(a.strass(&b)), a.multiply(&b));
    }
}

#[test]
fn strass_asym_1x2_2x1() {
    let a = m(vec![vec![1, 2]]);
    let b = m(vec![vec![3], vec![4]]);
    assert_eq!(a.strass(&b), m(vec![vec![11]]));
}

#[test]
fn strass_3x1_1x3() {
    let a = m(vec![vec![1], vec![2], vec![3]]);
    let b = m(vec![vec![4, 5, 6]]);
    assert_eq!(a.strass(&b), m(vec![vec![4, 5, 6], vec![8, 10, 12], vec![12, 15, 18]]));
}

#[test]
fn strass_identity_5x5() {
    let a = fl(5, 5, (-12..13).collect());
    assert_eq!(a.strass(&identity(5)), a);
}

#[test]
fn strass_identity_rectangular() {
    let a = fl(2, 3, vec![9, -8, 7, 6, 5, -4]);
    assert_eq!(a.strass(&identity(3)), a);
}

#[test]
fn strass_non_conformable_pads_with_zeros() {
    // inner dimensions 2 and 3: the missing row of the left factor counts as zeros
    let a = fl(1, 2, vec![1, 2]);
    let b = fl(3, 1, vec![3, 4, 5]);
    assert_eq!(a.strass(&b), m(vec![vec![11]]));
    assert_eq!(a.multiply(&b), Err(MatrixError::DimensionMismatch));
}

#[test]
fn multiply_wraps_on_overflow() {
    let a = m(vec![vec![isize::MAX, 1], vec![1, 1]]);
    let b = m(vec![vec![2, 0], vec![1, 0]]);
    let naive = a.multiply(&b).unwrap();
    assert_eq!(naive.get(1, 1), Ok(isize::MAX.wrapping_mul(2).wrapping_add(1)));
    assert_eq!(naive, a.strass(&b));
}

#[test]
fn add_cellwise() {
    let a = fl(2, 3, vec![1, 2, 3, 4, 5, 6]);
    let b = fl(2, 3, vec![10, 20, 30, 40, 50, -60]);
    assert_eq!(a.add(&b), Ok(fl(2, 3, vec![11, 22, 33, 44, 55, -54])));
    let mut c = a.clone();
    assert_eq!(c.add_assign(&b), Ok(()));
    assert_eq!(c, fl(2, 3, vec![11, 22, 33, 44, 55, -54]));
}

#[test]
fn add_wraps_on_overflow() {
    let a = m(vec![vec![isize::MAX]]);
    let b = m(vec![vec![1]]);
    assert_eq!(a.add(&b), Ok(m(vec![vec![isize::MIN]])));
}

#[test]
fn add_dimension_mismatch() {
    let a = fl(2, 3, vec![1, 2, 3, 4, 5, 6]);
    let b = fl(3, 2, vec![1, 2, 3, 4, 5, 6]);
    assert_eq!(a.add(&b), Err(MatrixError::DimensionMismatch));
    let mut c = a.clone();
    assert_eq!(c.add_assign(&b), Err(MatrixError::DimensionMismatch));
    assert_eq!(c, a);
}

#[test]
fn multiply_dimension_mismatch() {
    let a = fl(2, 3, vec![1, 2, 3, 4, 5, 6]);
    let mut c = a.clone();
    assert_eq!(a.multiply(&a), Err(MatrixError::DimensionMismatch));
    assert_eq!(c.mul_assign(&a), Err(MatrixError::DimensionMismatch));
    assert_eq!(c, a);
}

#[test]
fn zeroes_grow_to_3x3() {
    let mut z = Matrix::zeroes(2, 3);
    assert_eq!(z.upsize(3, 3), Ok(()));
    assert_eq!(z, Matrix::zeroes(3, 3));
}

#[test]
fn invalid_resizes() {
    let mut a = fl(2, 2, vec![1, 2, 3, 4]);
    assert_eq!(a.upsize(1, 3), Err(MatrixError::InvalidResize));
    assert_eq!(a.upsize(3, 1), Err(MatrixError::InvalidResize));
    assert_eq!(a.downsize(3, 2), Err(MatrixError::InvalidResize));
    assert_eq!(a.downsize(2, 0), Err(MatrixError::InvalidResize));
    assert_eq!(a, fl(2, 2, vec![1, 2, 3, 4]));
}

#[test]
fn shape_errors() {
    assert_eq!(Matrix::new(vec![]), Err(MatrixError::ShapeError));
    assert_eq!(Matrix::new(vec![vec![]]), Err(MatrixError::ShapeError));
    assert_eq!(Matrix::from_list(2, 2, vec![1, 2, 3]), Err(MatrixError::ShapeError));
    assert_eq!(Matrix::from_list(0, 0, vec![]), Err(MatrixError::ShapeError));
    assert_eq!(Matrix::from_list(usize::MAX, 2, vec![1, 2]), Err(MatrixError::ShapeError));
}

#[test]
fn index_out_of_bounds() {
    let a = fl(2, 3, vec![1, 2, 3, 4, 5, 6]);
    assert_eq!(a.get(0, 1), Err(MatrixError::IndexOutOfBounds));
    assert_eq!(a.get(1, 0), Err(MatrixError::IndexOutOfBounds));
    assert_eq!(a.get(3, 1), Err(MatrixError::IndexOutOfBounds));
    assert_eq!(a.get(2, 4), Err(MatrixError::IndexOutOfBounds));
    assert_eq!(a.get(2, 3), Ok(6));
    let b = Blocks::from_matrix(Matrix::zeroes(2, 2)).unwrap();
    assert_eq!(b.get(2, 1), Err(MatrixError::IndexOutOfBounds));
}

#[test]
fn invalid_block_shapes() {
    assert_eq!(Blocks::from_matrix(Matrix::zeroes(3, 2)), Err(MatrixError::InvalidBlockShape));
    assert_eq!(Blocks::from_matrix(Matrix::zeroes(2, 1)), Err(MatrixError::InvalidBlockShape));
    assert_eq!(Blocks::new(vec![]), Err(MatrixError::InvalidBlockShape));
    assert_eq!(
        Blocks::new(vec![vec![Matrix::zeroes(2, 2)], vec![Matrix::zeroes(2, 3)]]),
        Err(MatrixError::InvalidBlockShape)
    );
    assert_eq!(
        Blocks::new(vec![vec![Matrix::zeroes(2, 2), Matrix::zeroes(2, 2)], vec![Matrix::zeroes(2, 2)]]),
        Err(MatrixError::InvalidBlockShape)
    );
}

#[test]
fn strass_inner_2x2() {
    let a = m(vec![vec![1, 2], vec![3, 4]]);
    let b = m(vec![vec![5, 6], vec![7, 8]]);
    assert_eq!(a.strass_inner(&b), m(vec![vec![19, 22], vec![43, 50]]));
}

#[test]
fn block_strass_rectangular() {
    let a = Blocks::from_matrix(fl(2, 4, vec![1, 2, 3, 4, 5, 6, 7, 8])).unwrap();
    let b = Blocks::from_matrix(fl(4, 2, vec![1, 0, 0, 1, 2, 0, 0, 2])).unwrap();
    let c = a.strass(&b);
    assert_eq!(c.rows(), 1);
    assert_eq!(c.cols(), 1);
    assert_eq!(c.to_matrix(), m(vec![vec![7, 10], vec![19, 22]]));
}
