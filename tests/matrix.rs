use metrics_store::matrix::{dot_product, matrix_multiply, Matrix, MatrixError};

#[test]
fn test_matrix_multiply() -> Result<(), MatrixError> {
    let mxa = Matrix::new(vec![1, 2, 3, 4, 5, 6], 2, 3);
    let mxb = Matrix::new(vec![1, 2, 3, 4, 5, 6], 3, 2);
    let mxc = matrix_multiply(&mxa, &mxb)?;
    assert_eq!(mxc.col, 2);
    assert_eq!(mxc.row, 2);
    assert_eq!(mxc.to_debug_string(), "Matrix(row=2, col=2, {22 28, 49 64})");
    Ok(())
}

#[test]
fn dot_product_sums_pairwise_products() {
    assert_eq!(dot_product(&[1, 2, 3], &[4, -5, 6]), Ok(12));
    assert_eq!(dot_product(&[], &[]), Ok(0));
}

#[test]
fn dot_product_rejects_unequal_lengths() {
    assert_eq!(dot_product(&[1, 2], &[1]), Err(MatrixError::DimensionMismatch));
}

#[test]
fn dot_product_reports_overflow() {
    assert_eq!(dot_product(&[i64::MAX], &[2]), Err(MatrixError::Overflow));
    assert_eq!(dot_product(&[i64::MAX, 1], &[1, 1]), Err(MatrixError::Overflow));
    assert_eq!(dot_product(&[i64::MAX, -1], &[1, 1]), Ok(i64::MAX - 1));
}

#[test]
fn multiply_rejects_mismatched_shapes() {
    let mxa = Matrix::new(vec![1, 2, 3, 4, 5, 6], 2, 3);
    let mxb = Matrix::new(vec![1, 2, 3, 4], 2, 2);
    assert!(matches!(matrix_multiply(&mxa, &mxb), Err(MatrixError::DimensionMismatch)));
}

#[test]
fn multiply_reports_overflow() {
    let mxa = Matrix::new(vec![i64::MAX, 1], 1, 2);
    let mxb = Matrix::new(vec![2, 1], 2, 1);
    assert!(matches!(matrix_multiply(&mxa, &mxb), Err(MatrixError::Overflow)));
}

#[test]
fn multiply_by_identity_keeps_entries() {
    let mxa = Matrix::new(vec![-7, 0, 12, 3], 2, 2);
    let id = Matrix::new(vec![1, 0, 0, 1], 2, 2);
    let mxc = matrix_multiply(&mxa, &id).unwrap();
    assert_eq!(mxc.data, vec![-7, 0, 12, 3]);
    assert_eq!(mxc.to_display_string(), "{-7 0, 12 3}");
}

#[test]
fn text_of_empty_and_single_matrices() {
    assert_eq!(Matrix::new(vec![], 0, 0).to_debug_string(), "Matrix(row=0, col=0, {})");
    assert_eq!(Matrix::new(vec![-42], 1, 1).to_display_string(), "{-42}");
    assert_eq!(Matrix::new(vec![], 2, 0).to_display_string(), "{, }");
}

#[test]
fn text_reads_only_the_first_row_times_col_entries() {
    let m = Matrix::new(vec![1, 2, 3, 4, 99], 2, 2);
    assert_eq!(m.to_display_string(), "{1 2, 3 4}");
}

#[test]
fn text_of_extreme_and_zero_entries() {
    let m = Matrix::new(vec![i64::MIN, 0, i64::MAX, -10], 2, 2);
    assert_eq!(
        m.to_debug_string(),
        "Matrix(row=2, col=2, {-9223372036854775808 0, 9223372036854775807 -10})"
    );
}
