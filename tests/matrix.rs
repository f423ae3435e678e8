use matrix_rs::blocks::Blocks;
use matrix_rs::error::MatrixError;
use matrix_rs::matrix::Matrix;

fn m(cells: Vec<Vec<isize>>) -> Matrix {
    Matrix::new(cells).unwrap()
}

fn fl(rows: usize, cols: usize, list: Vec<isize>) -> Matrix {
    Matrix::from_list(rows, cols, list).unwrap()
}

fn quarters() -> Blocks {
    Blocks::new(vec![
        vec![fl(2, 2, vec![1, 2, 5, 6]), fl(2, 2, vec![3, 4, 7, 8])],
        vec![fl(2, 2, vec![9, 10, 13, 14]), fl(2, 2, vec![11, 12, 15, 16])],
    ])
    .unwrap()
}

#[test]
fn new() {
    let mat = fl(2, 2, vec![1, 2, 3, 4]);
    let list = vec![vec![1, 2], vec![3, 4]];
    let result = Matrix::new(list).unwrap();
    assert_eq!(mat, result)
}

#[test]
fn zeroes() {
    let mat = m(vec![vec![0isize; 2]; 2]);
    let result = Matrix::zeroes(2, 2);
    assert_eq!(mat, result)
}

#[test]
fn from_list() {
    let mat = m(vec![vec![1, 2], vec![3, 4]]);
    let list = vec![1, 2, 3, 4];
    let result = Matrix::from_list(2, 2, list).unwrap();
    assert_eq!(mat, result)
}

#[test]
fn upsize() {
    let mat = m(vec![vec![1, 2, 0], vec![3, 4, 0], vec![0, 0, 0]]);
    let mut result = fl(2, 2, vec![1, 2, 3, 4]);
    assert_eq!(result.upsize(3, 3), Ok(()));
    assert_eq!(mat, result)
}

#[test]
fn asymmetric_upsize_cols() {
    let mat = m(vec![vec![1, 2, 0], vec![3, 4, 0]]);
    let mut result = fl(2, 2, vec![1, 2, 3, 4]);
    assert_eq!(result.upsize(2, 3), Ok(()));
    assert_eq!(mat, result)
}

#[test]
fn asymmetric_upsize_rows() {
    let mat = m(vec![vec![1, 2], vec![3, 4], vec![0, 0]]);
    let mut result = fl(2, 2, vec![1, 2, 3, 4]);
    assert_eq!(result.upsize(3, 2), Ok(()));
    assert_eq!(mat, result)
}

#[test]
fn downsize() {
    let mat = m(vec![vec![1, 2], vec![3, 4]]);
    let mut result = fl(3, 3, vec![1, 2, 0, 3, 4, 0, 0, 0, 0]);
    assert_eq!(result.downsize(2, 2), Ok(()));
    assert_eq!(mat, result)
}

#[test]
fn asymmetric_downsize_rows() {
    let mat = m(vec![vec![1, 2, 0], vec![3, 4, 0]]);
    let mut result = fl(3, 3, vec![1, 2, 0, 3, 4, 0, 0, 0, 0]);
    assert_eq!(result.downsize(2, 3), Ok(()));
    assert_eq!(mat, result)
}

#[test]
fn asymmetric_downsize_cols() {
    let mat = m(vec![vec![1, 2], vec![3, 4], vec![0, 0]]);
    let mut result = fl(3, 3, vec![1, 2, 0, 3, 4, 0, 0, 0, 0]);
    assert_eq!(result.downsize(3, 2), Ok(()));
    assert_eq!(mat, result)
}

#[test]
fn from_mat_2x2_3x3() {
    let a = fl(2, 2, vec![1, 2, 3, 4]);
    let mat = fl(3, 3, vec![1, 2, 0, 3, 4, 0, 0, 0, 0]);
    let result = Matrix::from_matrix(3, 3, &a);
    assert_eq!(mat, result)
}

#[test]
fn from_mat_3x3_2x2() {
    let a = fl(3, 3, vec![1, 2, 0, 3, 4, 0, 0, 0, 0]);
    let mat = fl(2, 2, vec![1, 2, 3, 4]);
    let result = Matrix::from_matrix(2, 2, &a);
    assert_eq!(mat, result)
}

#[test]
fn from_mat_2x2_2x1() {
    let a = fl(2, 2, vec![1, 2, 3, 4]);
    let mat = fl(2, 1, vec![1, 3]);
    let result = Matrix::from_matrix(2, 1, &a);
    assert_eq!(mat, result)
}

#[test]
fn from_mat_2x2_1x2() {
    let a = fl(2, 2, vec![1, 2, 3, 4]);
    let mat = fl(1, 2, vec![1, 2]);
    let result = Matrix::from_matrix(1, 2, &a);
    assert_eq!(mat, result)
}

#[test]
fn index_2x2() {
    let mat = m(vec![vec![1, 2], vec![3, 4]]);
    assert_eq!(Ok(1), mat.get(1, 1));
    assert_eq!(Ok(2), mat.get(1, 2));
    assert_eq!(Ok(3), mat.get(2, 1));
    assert_eq!(Ok(4), mat.get(2, 2));
}

#[test]
fn index_3x3() {
    let mat = m(vec![vec![1, 2, 3], vec![4, 5, 6], vec![7, 8, 9]]);
    assert_eq!(Ok(1), mat.get(1, 1));
    assert_eq!(Ok(2), mat.get(1, 2));
    assert_eq!(Ok(3), mat.get(1, 3));
    assert_eq!(Ok(4), mat.get(2, 1));
    assert_eq!(Ok(5), mat.get(2, 2));
    assert_eq!(Ok(6), mat.get(2, 3));
    assert_eq!(Ok(7), mat.get(3, 1));
    assert_eq!(Ok(8), mat.get(3, 2));
    assert_eq!(Ok(9), mat.get(3, 3));
}

#[test]
fn strass_mul() {
    let a = m(vec![vec![1, 2], vec![3, 4]]);
    let b = m(vec![vec![1, 2], vec![3, 4]]);
    let mat = m(vec![vec![7, 10], vec![15, 22]]);
    assert_eq!(mat, a.strass(&b));
}

#[test]
fn strass_ident_mul() {
    let a = m(vec![vec![1, 2], vec![3, 4]]);
    let b = m(vec![vec![1, 0], vec![0, 1]]);
    let mat = m(vec![vec![1, 2], vec![3, 4]]);
    assert_eq!(mat, a.strass(&b));
}

#[test]
fn strass_mul_3x3() {
    let a = fl(3, 3, (1..=9).collect());
    let b = fl(3, 3, (1..=9).collect());
    let mat = fl(3, 3, vec![30, 36, 42, 66, 81, 96, 102, 126, 150]);
    assert_eq!(mat, a.strass(&b));
}

#[test]
fn strass_ident_mul_3x3() {
    let a = fl(3, 3, (1..=9).collect());
    let b = m(vec![vec![1, 0, 0], vec![0, 1, 0], vec![0, 0, 1]]);
    let mat = fl(3, 3, (1..=9).collect());
    assert_eq!(mat, a.strass(&b));
}

#[test]
fn strass_mul_4x4() {
    let a = fl(4, 4, (1..=16).collect());
    let b = fl(4, 4, (1..=16).collect());
    let mat = fl(
        4,
        4,
        vec![90, 100, 110, 120, 202, 228, 254, 280, 314, 356, 398, 440, 426, 484, 542, 600],
    );
    assert_eq!(mat, a.strass(&b));
}

#[test]
fn strass_ident_mul_4x4() {
    let a = fl(4, 4, (1..=16).collect());
    let b = m(vec![
        vec![1, 0, 0, 0],
        vec![0, 1, 0, 0],
        vec![0, 0, 1, 0],
        vec![0, 0, 0, 1],
    ]);
    let mat = fl(4, 4, (1..=16).collect());
    assert_eq!(mat, a.strass(&b));
}

#[test]
fn mul_2x2() {
    let a = m(vec![vec![1, 2], vec![3, 4]]);
    let b = m(vec![vec![1, 2], vec![3, 4]]);
    let mat = m(vec![vec![7, 10], vec![15, 22]]);
    assert_eq!(Ok(mat), a.multiply(&b));
}

#[test]
fn mul_3x3() {
    let a = m(vec![vec![1, 2, 3], vec![4, 5, 6], vec![7, 8, 9]]);
    let b = m(vec![vec![1, 2, 3], vec![4, 5, 6], vec![7, 8, 9]]);
    let mat = fl(3, 3, vec![30, 36, 42, 66, 81, 96, 102, 126, 150]);
    assert_eq!(Ok(mat), a.multiply(&b));
}

#[test]
fn asym_1x2_2x1_mul() {
    let a = m(vec![vec![1, 2]]);
    let b = m(vec![vec![3], vec![4]]);
    let mat = m(vec![vec![11]]);
    assert_eq!(Ok(mat), a.multiply(&b));
}

#[test]
fn asym_2x1_1x2_mul() {
    let a = m(vec![vec![1], vec![2]]);
    let b = m(vec![vec![3, 4]]);
    let mat = m(vec![vec![3, 4], vec![6, 8]]);
    assert_eq!(Ok(mat), a.multiply(&b));
}

#[test]
fn asym_3x1_1x3_mul() {
    let a = m(vec![vec![1], vec![2], vec![3]]);
    let b = m(vec![vec![4, 5, 6]]);
    let mat = m(vec![vec![4, 5, 6], vec![8, 10, 12], vec![12, 15, 18]]);
    assert_eq!(Ok(mat), a.multiply(&b));
}

#[test]
fn ident_mul() {
    let a = m(vec![vec![1, 2], vec![3, 4]]);
    let b = m(vec![vec![1, 0], vec![0, 1]]);
    let mat = m(vec![vec![1, 2], vec![3, 4]]);
    assert_eq!(Ok(mat), a.multiply(&b));
}

#[test]
fn mul_assign() {
    let mut a = m(vec![vec![1, 2], vec![3, 4]]);
    let b = m(vec![vec![1, 2], vec![3, 4]]);
    assert_eq!(a.mul_assign(&b), Ok(()));
    let mat = m(vec![vec![7, 10], vec![15, 22]]);
    assert_eq!(mat, a);
}

#[test]
fn indent_mul_assign() {
    let mut a = m(vec![vec![1, 2], vec![3, 4]]);
    let b = m(vec![vec![1, 0], vec![0, 1]]);
    assert_eq!(a.mul_assign(&b), Ok(()));
    let mat = m(vec![vec![1, 2], vec![3, 4]]);
    assert_eq!(mat, a);
}

#[test]
fn block_from_mat_4x4() {
    let mat = fl(4, 4, (1..=16).collect());
    let a = Blocks::from_matrix(mat).unwrap();
    let blk = quarters();
    assert_eq!(blk, a);
}

#[test]
fn mat_from_block_4x4() {
    let block = quarters();
    let a = Blocks::to_matrix(block);
    let mat = fl(4, 4, (1..=16).collect());
    assert_eq!(mat, a);
}

#[test]
fn block_strass_4x4() {
    let a = quarters();
    let b = a.clone();
    let block = Blocks::new(vec![
        vec![fl(2, 2, vec![90, 100, 202, 228]), fl(2, 2, vec![110, 120, 254, 280])],
        vec![fl(2, 2, vec![314, 356, 426, 484]), fl(2, 2, vec![398, 440, 542, 600])],
    ])
    .unwrap();
    assert_eq!(block, a.strass(&b))
}

#[test]
fn shape_error_on_ragged_rows() {
    assert_eq!(Matrix::new(vec![vec![1, 2], vec![3]]), Err(MatrixError::ShapeError));
}
