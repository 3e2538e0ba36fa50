use dense_matrix::Matrix;

fn demo() -> Matrix<f64> {
    Matrix::from_rows(vec![
        vec![1.0, 1.0, 0.0],
        vec![-2.0, 2.0, 1.0],
        vec![0.0, 1.0, -1.0],
    ])
}

fn entries(a: &Matrix<f64>) -> Vec<Vec<f64>> {
    let mut out = Vec::new();
    for i in 0..a.rows() {
        let mut row = Vec::new();
        for j in 0..a.cols() {
            row.push(a.get(i, j));
        }
        out.push(row);
    }
    out
}

fn close(a: f64, b: f64) -> bool {
    (a - b).abs() < 1e-9
}

#[test]
fn determinant_of_single_entry() {
    let a = Matrix::from_rows(vec![vec![-4.5]]);
    assert_eq!(a.determinant(), -4.5);
}

#[test]
fn determinant_of_two_by_two() {
    let a = Matrix::from_rows(vec![vec![1.0, 2.0], vec![3.0, 4.0]]);
    assert_eq!(a.determinant(), -2.0);
}

#[test]
fn determinant_of_demo_matrix() {
    // 1 * (2 * -1 - 1 * 1) - 1 * (-2 * -1 - 1 * 0) + 0 = -5
    assert_eq!(demo().determinant(), -5.0);
}

#[test]
fn determinant_matches_expansion_along_other_rows() {
    let a = demo();
    let e = entries(&a);
    let det2 = |r: [[f64; 2]; 2]| r[0][0] * r[1][1] - r[0][1] * r[1][0];
    let along = |row: usize| -> f64 {
        let mut sum = 0.0;
        for j in 0..3 {
            let m = a.minor(row, j);
            let me = entries(&m);
            let d = det2([[me[0][0], me[0][1]], [me[1][0], me[1][1]]]);
            let sign = if (row + j) % 2 == 0 { 1.0 } else { -1.0 };
            sum += e[row][j] * sign * d;
        }
        sum
    };
    let d = a.determinant();
    assert!(close(d, along(0)));
    assert!(close(d, along(1)));
    assert!(close(d, along(2)));
}

#[test]
fn determinant_of_identity_is_one() {
    for n in 1..7 {
        let a = Matrix::identity(n, n, 0.0, 1.0);
        assert_eq!(a.determinant(), 1.0);
    }
}

#[test]
fn determinant_of_upper_triangular() {
    let a = Matrix::from_rows(vec![
        vec![2.0, 7.0, -1.0, 3.0],
        vec![0.0, 3.0, 5.0, 1.0],
        vec![0.0, 0.0, -1.0, 4.0],
        vec![0.0, 0.0, 0.0, 0.5],
    ]);
    assert!(close(a.determinant(), -3.0));
}

#[test]
fn swapping_rows_negates_determinant() {
    let mut a = demo();
    let before = a.determinant();
    a.swap_rows(0, 2);
    assert!(close(a.determinant(), -before));
    let mut b = Matrix::from_rows(vec![vec![1.0, 2.0], vec![3.0, 4.0]]);
    b.swap_rows(1, 0);
    assert_eq!(b.determinant(), 2.0);
}

#[test]
fn scaling_a_row_scales_determinant() {
    let mut a = demo();
    let before = a.determinant();
    assert!(a.scale_row(1, 2.0));
    assert!(close(a.determinant(), 2.0 * before));
    assert_eq!(entries(&a)[1], vec![-4.0, 4.0, 2.0]);
}

#[test]
fn scale_row_changes_only_that_row() {
    let mut a = demo();
    assert!(a.scale_row(2, -3.0));
    assert_eq!(
        entries(&a),
        vec![vec![1.0, 1.0, 0.0], vec![-2.0, 2.0, 1.0], vec![0.0, -3.0, 3.0]]
    );
}

#[test]
fn add_scaled_row_adds_multiple() {
    let mut a = demo();
    assert!(a.add_scaled_row(2, 0, -1.0));
    assert_eq!(
        entries(&a),
        vec![vec![1.0, 1.0, 0.0], vec![-2.0, 2.0, 1.0], vec![-1.0, 0.0, -1.0]]
    );
}

#[test]
fn add_scaled_row_keeps_determinant() {
    let mut a = demo();
    assert!(a.add_scaled_row(1, 0, 2.0));
    assert_eq!(entries(&a)[1], vec![0.0, 4.0, 1.0]);
    assert!(close(a.determinant(), -5.0));
}

#[test]
fn add_scaled_row_on_wide_matrix() {
    let mut a = Matrix::from_rows(vec![vec![1.0, 2.0, 3.0, 4.0], vec![1.0, 1.0, 1.0, 1.0]]);
    assert!(a.add_scaled_row(0, 1, 10.0));
    assert_eq!(entries(&a)[0], vec![11.0, 12.0, 13.0, 14.0]);
}

#[test]
fn row_reduce_two_by_two() {
    let mut a = Matrix::from_rows(vec![vec![2.0, 1.0], vec![4.0, 3.0]]);
    a.row_reduce();
    assert_eq!(entries(&a), vec![vec![4.0, 3.0], vec![0.0, -0.5]]);
}

#[test]
fn row_reduce_demo_matrix() {
    let mut a = demo();
    a.row_reduce();
    assert_eq!(
        entries(&a),
        vec![vec![-2.0, 2.0, 1.0], vec![0.0, 2.0, 0.5], vec![0.0, 0.0, -1.25]]
    );
}

#[test]
fn row_reduce_skips_zero_column() {
    let mut a = Matrix::from_rows(vec![vec![0.0, 1.0], vec![0.0, 2.0]]);
    a.row_reduce();
    assert_eq!(entries(&a), vec![vec![0.0, 2.0], vec![0.0, 0.0]]);
}

#[test]
fn row_reduce_dependent_rows() {
    let mut a = Matrix::from_rows(vec![vec![2.0, 4.0], vec![1.0, 2.0]]);
    a.row_reduce();
    assert_eq!(entries(&a), vec![vec![2.0, 4.0], vec![0.0, 0.0]]);
}

#[test]
fn row_reduce_zero_row_goes_last() {
    let mut a = Matrix::from_rows(vec![
        vec![0.0, 0.0, 0.0],
        vec![1.0, 2.0, 3.0],
        vec![2.0, 4.0, 7.0],
    ]);
    a.row_reduce();
    assert_eq!(
        entries(&a),
        vec![vec![2.0, 4.0, 7.0], vec![0.0, 0.0, -0.5], vec![0.0, 0.0, 0.0]]
    );
}

#[test]
fn row_reduce_eliminates_equal_rows() {
    let mut a = Matrix::from_rows(vec![vec![1.0, 0.0], vec![1.0, 0.0]]);
    a.row_reduce();
    assert_eq!(entries(&a), vec![vec![1.0, 0.0], vec![0.0, 0.0]]);
}

#[test]
fn row_reduce_orders_leading_columns() {
    let mut a = Matrix::from_rows(vec![vec![0.0, 1.0], vec![1.0, 0.0]]);
    a.row_reduce();
    assert_eq!(entries(&a), vec![vec![1.0, 0.0], vec![0.0, 1.0]]);
    let mut b = Matrix::from_rows(vec![vec![0.0, 0.0], vec![1.0, 0.0]]);
    b.row_reduce();
    assert_eq!(entries(&b), vec![vec![1.0, 0.0], vec![0.0, 0.0]]);
}

#[test]
fn row_reduce_picks_largest_pivot() {
    let mut a = Matrix::from_rows(vec![vec![1.0, 0.0], vec![2.0, 0.0]]);
    a.row_reduce();
    assert_eq!(entries(&a), vec![vec![2.0, 0.0], vec![0.0, 0.0]]);
}

#[test]
fn row_reduce_keeps_determinant_up_to_sign() {
    let a = demo();
    let mut r = demo();
    r.row_reduce();
    assert!(close(r.determinant().abs(), a.determinant().abs()));
}

#[test]
fn row_reduce_gives_echelon_form() {
    let mut a = Matrix::from_rows(vec![
        vec![0.0, 2.0, 1.0, -1.0],
        vec![3.0, 1.0, 0.0, 2.0],
        vec![6.0, 4.0, 1.0, 3.0],
        vec![0.0, 0.0, 0.0, 0.0],
    ]);
    a.row_reduce();
    let e = entries(&a);
    let lead = |row: &Vec<f64>| row.iter().position(|x| *x != 0.0);
    let mut last: Option<usize> = None;
    let mut seen_zero_row = false;
    for i in 0..e.len() {
        match lead(&e[i]) {
            Some(k) => {
                assert!(!seen_zero_row);
                if let Some(p) = last {
                    assert!(k > p);
                }
                for r in i + 1..e.len() {
                    assert_eq!(e[r][k], 0.0);
                }
                last = Some(k);
            }
            None => seen_zero_row = true,
        }
    }
}

#[test]
fn row_reduce_keeps_shape_and_boundary() {
    let a = Matrix::from_rows(vec![vec![1.0], vec![3.0]]);
    let mut c = a.augment(Matrix::from_rows(vec![vec![2.0], vec![4.0]]));
    c.row_reduce();
    assert_eq!(c.rows(), 2);
    assert_eq!(c.cols(), 2);
    assert_eq!(c.augment_boundary(), Some(1));
    assert_eq!(entries(&c)[0], vec![3.0, 4.0]);
    assert_eq!(entries(&c)[1][0], 0.0);
}

#[test]
fn zero_scalar_is_refused() {
    let mut a = demo();
    assert!(!a.scale_row(0, 0.0));
    assert!(!a.scale_row(1, -0.0));
    assert!(!a.add_scaled_row(0, 1, 0.0));
    assert!(!a.add_scaled_row(2, 0, -0.0));
    assert_eq!(entries(&a), entries(&demo()));
    assert!(a.scale_row(0, 1.0));
    assert!(a.add_scaled_row(2, 0, 1.0));
}
