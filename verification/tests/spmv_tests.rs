use benchmark_kernel::spmv::{
    build_stencil_matrix, spmv_buffer_sizes, spmv_expected, spmv_grid_fits, spmv_input_vector, spmv_output_vector,
    spmv_row_count, spmv_rows,
};

/// The stencil matrix laid out row by row with plain loops over the offsets.
fn reference_matrix(n: usize) -> (Vec<u32>, Vec<i32>) {
    let nrow = n * n * n;
    let mut cols = vec![0u32; nrow * 32 + 1024];
    let mut vals = vec![0i32; nrow * 32 + 1024];
    let n = n as i32;
    for i in 0..n * n * n {
        let (xi, yi, zi) = (i % n, i / n % n, i / n / n);
        let (mut l, mut u) = (0usize, 0usize);
        for dz in -1..2 {
            for dy in -1..2 {
                for dx in -1..2 {
                    let (nx, ny, nz) = (xi + dx, yi + dy, zi + dz);
                    if 0 <= nx && nx < n && 0 <= ny && ny < n && 0 <= nz && nz < n {
                        let ni = nz * n * n + ny * n + nx;
                        let base = i as usize * 32;
                        if ni < i {
                            cols[base + l] = ni as u32;
                            vals[base + l] = -1;
                            l += 1;
                        } else if ni == i {
                            cols[base + 16] = ni as u32;
                            vals[base + 16] = 26;
                        } else {
                            cols[base + 17 + u] = ni as u32;
                            vals[base + 17 + u] = -1;
                            u += 1;
                        }
                    }
                }
            }
        }
    }
    (cols, vals)
}

#[test]
fn matrix_matches_reference() {
    for n in 0..6u32 {
        let (c, w) = build_stencil_matrix(n);
        let (rc, rw) = reference_matrix(n as usize);
        assert_eq!(c, rc, "columns for n = {}", n);
        assert_eq!(w, rw, "values for n = {}", n);
    }
}

#[test]
fn single_point_grid() {
    let (c, w) = build_stencil_matrix(1);
    assert_eq!(c.len(), 32 + 1024);
    assert_eq!(w[16], 26);
    assert_eq!(c[16], 0);
    assert_eq!(w.iter().filter(|&&v| v != 0).count(), 1);
    assert_eq!(spmv_expected(1), vec![52]);
}

#[test]
fn corner_and_interior_rows() {
    let (c, w) = build_stencil_matrix(3);
    // row 0 (a corner) has 7 upper neighbors and no lower ones
    assert_eq!(&w[0..17], &[0; 16].iter().cloned().chain([26]).collect::<Vec<i32>>()[..]);
    assert_eq!(&c[17..24], &[1, 3, 4, 9, 10, 12, 13]);
    // row 13 (the center) has 13 neighbors on each side
    let base = 13 * 32;
    assert_eq!(w[base..base + 13].iter().all(|&v| v == -1), true);
    assert_eq!(w[base + 13..base + 16].iter().all(|&v| v == 0), true);
    assert_eq!(w[base + 16], 26);
    assert_eq!(w[base + 17..base + 30].iter().all(|&v| v == -1), true);
    assert_eq!(&w[base + 30..base + 32], &[0, 0]);
    assert_eq!(c[base + 12], 12);
    assert_eq!(c[base + 17], 14);
    let e = spmv_expected(3);
    assert_eq!(e[13], 0);
    assert_eq!(e[0], 2 * (27 - 8));
}

#[test]
fn matrix_times_twos_is_expected() {
    for n in 1..6u32 {
        let (c, w) = build_stencil_matrix(n);
        let rows = (n * n * n) as usize;
        let x: Vec<i64> = spmv_input_vector(n).iter().map(|&v| v as i64).collect();
        assert_eq!(x.len(), rows + 1024);
        let e = spmv_expected(n);
        assert_eq!(e.len(), rows);
        for i in 0..rows {
            let y: i64 = (0..32).map(|s| w[i * 32 + s] as i64 * x[c[i * 32 + s] as usize]).sum();
            assert_eq!(y, e[i] as i64, "row {} for n = {}", i, n);
        }
    }
}

#[test]
fn grid_limits() {
    assert!(spmv_grid_fits(0));
    assert!(spmv_grid_fits(104));
    assert!(spmv_grid_fits(1290));
    assert!(!spmv_grid_fits(1291));
    assert!(!spmv_grid_fits(u32::MAX));
}

#[test]
fn buffer_sizes() {
    let s = spmv_buffer_sizes(104);
    assert_eq!(s.matrix, 104 * 104 * 104 * 32 + 1024);
    assert_eq!(s.vector, 104 * 104 * 104 + 1024);
    assert_eq!(s.scratch, 64);
    assert_eq!(spmv_rows(104), 1124864);
    assert_eq!(spmv_rows(u32::MAX), (u32::MAX as u128).pow(3));
}

#[test]
fn test_vectors() {
    assert_eq!(spmv_row_count(3), 27);
    let x = spmv_input_vector(2);
    assert_eq!(x.len(), 8 + 1024);
    assert!(x[..8].iter().all(|&v| v == 2));
    assert!(x[8..].iter().all(|&v| v == 0));
    let y = spmv_output_vector(2);
    assert_eq!(y.len(), 8 + 1024);
    assert!(y[..8].iter().all(|&v| v == 999));
    assert!(y[8..].iter().all(|&v| v == 0));
    assert_eq!(spmv_input_vector(0), vec![0; 1024]);
}
