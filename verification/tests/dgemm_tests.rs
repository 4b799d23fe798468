use benchmark_kernel::config::MatrixLayout;
use benchmark_kernel::dgemm::{
    dgemm_call_args, dgemm_check_c_fill, dgemm_check_operands, dgemm_checked_index, dgemm_expected,
};

#[test]
fn row_major_call_arguments() {
    let a = dgemm_call_args(MatrixLayout::RowMajor, false, true, 3, 4, 5);
    assert_eq!((a.layout, a.transa, a.transb), (101, 0, 1));
    assert_eq!((a.m, a.n, a.k), (3, 4, 5));
    assert_eq!((a.lda, a.ldb, a.ldc), (5, 4, 4));
}

#[test]
fn col_major_call_arguments() {
    let a = dgemm_call_args(MatrixLayout::ColMajor, true, false, 3, 4, 5);
    assert_eq!((a.layout, a.transa, a.transb), (102, 1, 0));
    assert_eq!((a.lda, a.ldb, a.ldc), (3, 5, 3));
}

#[test]
fn sizes_are_passed_as_c_ints() {
    let a = dgemm_call_args(MatrixLayout::RowMajor, false, false, 4294967295, 2147483648, 7);
    assert_eq!(a.m, -1);
    assert_eq!(a.n, i32::MIN);
    assert_eq!(a.k, 7);
}

#[test]
fn row_major_operands() {
    let (a, b) = dgemm_check_operands(MatrixLayout::RowMajor, 2, 3, 2);
    assert_eq!(a, vec![1, 1, 2, 2]);
    assert_eq!(b, vec![1, 2, 3, 1, 2, 3]);
}

#[test]
fn col_major_operands() {
    let (a, b) = dgemm_check_operands(MatrixLayout::ColMajor, 2, 3, 2);
    assert_eq!(a, vec![1, 2, 1, 2]);
    assert_eq!(b, vec![1, 1, 2, 2, 3, 3]);
}

#[test]
fn empty_operands() {
    let (a, b) = dgemm_check_operands(MatrixLayout::RowMajor, 0, 5, 0);
    assert!(a.is_empty() && b.is_empty());
}

#[test]
fn expected_values() {
    assert_eq!(dgemm_expected(100, 0, 0), -900);
    assert_eq!(dgemm_expected(3, 1, 2), 3 * 2 * 3 - 1000);
    assert_eq!(dgemm_expected(0, 5, 5), -1000);
    let big = dgemm_expected(u32::MAX, u32::MAX, u32::MAX);
    assert_eq!(big, (u32::MAX as i128) * (1i128 << 32) * (1i128 << 32) - 1000);
}

#[test]
fn checked_indices() {
    assert_eq!(dgemm_checked_index(MatrixLayout::RowMajor, 3, 4, 2, 3), 11);
    assert_eq!(dgemm_checked_index(MatrixLayout::ColMajor, 3, 4, 2, 3), 11);
    assert_eq!(dgemm_checked_index(MatrixLayout::ColMajor, 3, 2, 0, 1), 3);
    assert_eq!(dgemm_checked_index(MatrixLayout::ColMajor, 5, 4, 4, 0), 4);
}

/// Multiplies the result test's operands the way a correct kernel does and compares
/// with what the test expects at the positions it reads.
fn reference_product_matches(layout: MatrixLayout, m: u32, n: u32, k: u32) {
    let (a, b) = dgemm_check_operands(layout, m, n, k);
    let (mu, nu, ku) = (m as usize, n as usize, k as usize);
    let mut c = vec![dgemm_check_c_fill() as i128; mu * nu];
    for i in 0..mu {
        for j in 0..nu {
            let mut sum = 0i128;
            for p in 0..ku {
                let (ai, bi) = match layout {
                    MatrixLayout::RowMajor => (i * ku + p, p * nu + j),
                    MatrixLayout::ColMajor => (p * mu + i, j * ku + p),
                };
                sum += a[ai] as i128 * b[bi] as i128;
            }
            let ci = match layout {
                MatrixLayout::RowMajor => i * nu + j,
                MatrixLayout::ColMajor => j * mu + i,
            };
            c[ci] += sum;
        }
    }
    for i in 0..m {
        for j in 0..n {
            let idx = dgemm_checked_index(layout, m, n, i, j);
            assert_eq!(c[idx], dgemm_expected(k, i, j));
        }
    }
}

#[test]
fn check_agrees_with_a_correct_kernel() {
    reference_product_matches(MatrixLayout::RowMajor, 3, 5, 4);
    reference_product_matches(MatrixLayout::RowMajor, 1, 1, 1);
    reference_product_matches(MatrixLayout::ColMajor, 4, 4, 3);
    reference_product_matches(MatrixLayout::ColMajor, 3, 2, 4);
    reference_product_matches(MatrixLayout::ColMajor, 2, 5, 3);
    reference_product_matches(MatrixLayout::RowMajor, 5, 2, 1);
}

#[test]
fn non_square_col_major_check() {
    // element (0, 1) of a 3 x 2 column-major C is stored at 1 * 3 + 0
    assert_eq!(dgemm_checked_index(MatrixLayout::ColMajor, 3, 2, 0, 1), 3);
    reference_product_matches(MatrixLayout::ColMajor, 3, 2, 2);
    reference_product_matches(MatrixLayout::ColMajor, 1, 4, 2);
}

#[test]
fn c_fill_value() {
    assert_eq!(dgemm_check_c_fill(), -1000);
}
