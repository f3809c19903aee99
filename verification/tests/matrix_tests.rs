use aqlm::functional::cat_row;
use aqlm::matrix::Matrix;

#[test]
fn test_matrix() {
    let data: Vec<f32> = (0..6).map(|v| v as f32).collect();
    let m1 = Matrix::from_vec((3, 2), data.clone());
    assert_eq!(m1.shape(), (3, 2));
    assert_eq!(m1.n_rows(), 3);
    assert_eq!(m1.n_cols(), 2);

    let m2 = Matrix::from_slice((3, 2), &data);
    assert_eq!(m2.shape(), (3, 2));
    assert_eq!(m2.n_rows(), 3);
    assert_eq!(m2.n_cols(), 2);

    assert_eq!(m1.shape(), m2.shape());
    assert_eq!(m1.data(), m2.data());
}

#[test]
fn test_reshape() {
    let data: Vec<f32> = (0..6).map(|v| v as f32).collect();
    let m = Matrix::from_vec((3, 2), data.clone());
    let m = m.reshape((2, 3));
    assert_eq!(m.shape(), (2, 3));
    assert_eq!(m.data(), &data);
}

#[test]
fn test_get_rows() {
    let first = Matrix::from_vec((3, 2), vec![0.0f32, 1.0, 2.0, 3.0, 4.0, 5.0]);
    let picked = first.get_rows(&vec![2, 0]);
    assert_eq!(picked.shape(), (2, 2));
    assert_eq!(picked.data(), &vec![4.0f32, 5.0, 0.0, 1.0]);
    assert_eq!(first.get_row(1), vec![2.0f32, 3.0]);
}

#[test]
fn test_transpose() {
    let matrix = Matrix::from_vec((2, 3), vec![1.0f32, 2.0, 3.0, 4.0, 5.0, 6.0]);
    let transposed = matrix.transpose();
    assert_eq!(transposed.shape(), (3, 2));
    assert_eq!(transposed.data(), &vec![1.0f32, 4.0, 2.0, 5.0, 3.0, 6.0]);
}

#[test]
fn test_transpose_involution() {
    let matrix = Matrix::from_vec((2, 3), vec![1.0f32, 2.0, 3.0, 4.0, 5.0, 6.0]);
    let back = matrix.transpose().transpose();
    assert_eq!(back.shape(), (2, 3));
    assert_eq!(back.data(), matrix.data());
}

#[test]
fn test_size_is_rows_times_cols() {
    let m = Matrix::from_vec((4, 3), (0..12).map(|v| v as f32).collect());
    assert_eq!(m.size(), 12);
    assert_eq!(m.size(), m.n_rows() * m.n_cols());
}

#[test]
fn test_sample_strided() {
    // A (2, 4) matrix; pull the (2, 2) sub-matrix of columns 1 and 3.
    let m = Matrix::from_vec((2, 4), (0..8).map(|v| v as f32).collect());
    let s = m.sample((2, 2), (4, 2), 1);
    assert_eq!(s.shape(), (2, 2));
    assert_eq!(s.data(), &vec![1.0f32, 3.0, 5.0, 7.0]);
}

#[test]
fn test_add() {
    let matrix1 = Matrix::from_vec((2, 2), vec![1.0f32, 2.0, 3.0, 4.0]);
    let matrix2 = Matrix::from_vec((2, 2), vec![1.0f32, 1.0, 1.0, 1.0]);
    let result = matrix1.binary_operation(&matrix2, |a, b, _| a + b);
    assert_eq!(result.data(), &vec![2.0f32, 3.0, 4.0, 5.0]);
}

#[test]
fn test_add_row() {
    let matrix = Matrix::from_vec((2, 2), vec![1.0f32, 2.0, 3.0, 4.0]);
    let row = vec![1.0f32, 2.0];
    let result = matrix.binary_operation_row(&row, |a, b, _| a + b);
    assert_eq!(result.data(), &vec![2.0f32, 4.0, 4.0, 6.0]);
}

#[test]
fn test_multiply() {
    let matrix1 = Matrix::from_vec((2, 2), vec![1.0f32, 2.0, 3.0, 4.0]);
    let matrix2 = Matrix::from_vec((2, 2), vec![1.0f32, 2.0, 3.0, 4.0]);
    let result = matrix1.binary_operation(&matrix2, |a, b, _| a * b);
    assert_eq!(result.data(), &vec![1.0f32, 4.0, 9.0, 16.0]);
}

#[test]
fn test_multiply_row() {
    let matrix = Matrix::from_vec((2, 2), vec![1.0f32, 2.0, 3.0, 4.0]);
    let row = vec![1.0f32, 2.0];
    let result = matrix.binary_operation_row(&row, |a, b, _| a * b);
    assert_eq!(result.data(), &vec![1.0f32, 4.0, 3.0, 8.0]);
}

#[test]
fn test_add_scalar() {
    let mat = Matrix::from_vec((2, 2), vec![1.0f32, 2.0, 3.0, 4.0]);
    let result = mat.scalar_operation(|x, _| x + 1.0f32);
    assert_eq!(result.data(), &vec![2.0f32, 3.0, 4.0, 5.0]);
}

#[test]
fn test_multiply_scalar() {
    let mat = Matrix::from_vec((2, 2), vec![1.0f32, 2.0, 3.0, 4.0]);
    let result = mat.scalar_operation(|x, _| x * 2.0f32);
    assert_eq!(result.data(), &vec![2.0f32, 4.0, 6.0, 8.0]);
}

#[test]
fn test_squared() {
    let mat = Matrix::from_vec((2, 2), vec![1.0f32, 2.0, 3.0, 4.0]);
    let result = mat.scalar_operation(|x, _| x * x);
    assert_eq!(result.data(), &vec![1.0f32, 4.0, 9.0, 16.0]);
}

#[test]
fn test_rsqrt() {
    let mat = Matrix::from_vec((2, 1), vec![1.0f32, 0.25]);
    let result = mat.scalar_operation(|x: f32, _| 1.0f32 / x.sqrt());
    assert_eq!(result.data(), &vec![1.0f32, 2.0]);
}

#[test]
fn test_scalar_operation_positions() {
    let matrix = Matrix::from_vec((2, 3), vec![0.0f32; 6]);
    let result = matrix.scalar_operation(|_, (y, x)| (y * 10 + x) as f32);
    assert_eq!(result.data(), &vec![0.0f32, 1.0, 2.0, 10.0, 11.0, 12.0]);
}

#[test]
fn test_cat_row_single_rows() {
    let a = Matrix::from_vec((1, 2), vec![1.0f32, 2.0]);
    let b = Matrix::from_vec((1, 3), vec![3.0f32, 4.0, 5.0]);
    let c = Matrix::from_vec((1, 1), vec![6.0f32]);
    let r = cat_row(&vec![a, b, c]);
    assert_eq!(r.shape(), (1, 6));
    assert_eq!(r.data(), &vec![1.0f32, 2.0, 3.0, 4.0, 5.0, 6.0]);
}
