use dense_matrix::Matrix;

fn demo() -> Matrix<f64> {
    Matrix::from_rows(vec![
        vec![1.0, 1.0, 0.0],
        vec![-2.0, 2.0, 1.0],
        vec![0.0, 1.0, -1.0],
    ])
}

fn entries(a: &Matrix<f64>) -> Vec<Vec<f64>> {
    let mut out = Vec::new();
    for i in 0..a.rows() {
        let mut row = Vec::new();
        for j in 0..a.cols() {
            row.push(a.get(i, j));
        }
        out.push(row);
    }
    out
}

#[test]
fn from_rows_keeps_shape_and_entries() {
    let a = demo();
    assert_eq!(a.rows(), 3);
    assert_eq!(a.cols(), 3);
    assert_eq!(a.augment_boundary(), None);
    assert_eq!(a.get(1, 0), -2.0);
    assert_eq!(a.get(2, 2), -1.0);
}

#[test]
fn identity_square() {
    let a = Matrix::identity(3, 3, 0.0, 1.0);
    assert_eq!(
        entries(&a),
        vec![vec![1.0, 0.0, 0.0], vec![0.0, 1.0, 0.0], vec![0.0, 0.0, 1.0]]
    );
}

#[test]
fn identity_rectangular() {
    let a = Matrix::identity(2, 3, 0.0, 1.0);
    assert_eq!(a.rows(), 2);
    assert_eq!(a.cols(), 3);
    assert_eq!(entries(&a), vec![vec![1.0, 0.0, 0.0], vec![0.0, 1.0, 0.0]]);
    let b = Matrix::identity(3, 1, 0.0, 1.0);
    assert_eq!(entries(&b), vec![vec![1.0], vec![0.0], vec![0.0]]);
}

#[test]
fn identity_without_rows() {
    let a = Matrix::identity(0, 4, 0.0, 1.0);
    assert_eq!(a.rows(), 0);
    assert_eq!(a.cols(), 4);
}

#[test]
fn transpose_of_rectangular() {
    let a = Matrix::from_rows(vec![vec![1.0, 2.0, 3.0], vec![4.0, 5.0, 6.0]]);
    let t = a.transpose();
    assert_eq!(t.rows(), 3);
    assert_eq!(t.cols(), 2);
    assert_eq!(entries(&t), vec![vec![1.0, 4.0], vec![2.0, 5.0], vec![3.0, 6.0]]);
    assert_eq!(t.augment_boundary(), None);
}

#[test]
fn transpose_twice_is_identity_map() {
    let a = Matrix::from_rows(vec![vec![1.5, -2.0, 3.25], vec![4.0, 0.0, 6.0]]);
    let tt = a.transpose().transpose();
    assert_eq!(tt.rows(), a.rows());
    assert_eq!(tt.cols(), a.cols());
    assert_eq!(entries(&tt), entries(&a));
}

#[test]
fn minor_deletes_row_and_column() {
    let a = demo();
    let m = a.minor(0, 1);
    assert_eq!(m.rows(), 2);
    assert_eq!(m.cols(), 2);
    assert_eq!(entries(&m), vec![vec![-2.0, 1.0], vec![0.0, -1.0]]);
    let last = a.minor(2, 2);
    assert_eq!(entries(&last), vec![vec![1.0, 1.0], vec![-2.0, 2.0]]);
}

#[test]
fn minor_of_rectangular() {
    let a = Matrix::from_rows(vec![vec![1.0, 2.0, 3.0], vec![4.0, 5.0, 6.0]]);
    let m = a.minor(1, 0);
    assert_eq!(m.rows(), 1);
    assert_eq!(m.cols(), 2);
    assert_eq!(entries(&m), vec![vec![2.0, 3.0]]);
}

#[test]
fn augment_concatenates_rows() {
    let a = Matrix::from_rows(vec![vec![1.0, 2.0], vec![3.0, 4.0]]);
    let b = Matrix::from_rows(vec![vec![5.0], vec![6.0]]);
    let c = a.augment(b);
    assert_eq!(c.rows(), 2);
    assert_eq!(c.cols(), 3);
    assert_eq!(c.augment_boundary(), Some(2));
    assert_eq!(entries(&c), vec![vec![1.0, 2.0, 5.0], vec![3.0, 4.0, 6.0]]);
}

#[test]
fn augment_with_identity() {
    let a = demo();
    let c = a.augment(Matrix::identity(3, 3, 0.0, 1.0));
    assert_eq!(c.cols(), 6);
    assert_eq!(c.augment_boundary(), Some(3));
    assert_eq!(entries(&c)[1], vec![-2.0, 2.0, 1.0, 0.0, 1.0, 0.0]);
}

#[test]
fn swap_rows_exchanges() {
    let mut a = demo();
    a.swap_rows(0, 2);
    assert_eq!(
        entries(&a),
        vec![vec![0.0, 1.0, -1.0], vec![-2.0, 2.0, 1.0], vec![1.0, 1.0, 0.0]]
    );
    a.swap_rows(1, 1);
    assert_eq!(entries(&a)[1], vec![-2.0, 2.0, 1.0]);
}

#[test]
fn swap_rows_keeps_boundary() {
    let a = Matrix::from_rows(vec![vec![1.0], vec![2.0]]);
    let mut c = a.augment(Matrix::from_rows(vec![vec![3.0], vec![4.0]]));
    c.swap_rows(1, 0);
    assert_eq!(c.augment_boundary(), Some(1));
    assert_eq!(entries(&c), vec![vec![2.0, 4.0], vec![1.0, 3.0]]);
}

#[test]
fn set_replaces_one_entry() {
    let mut a = Matrix::identity(2, 2, 0.0, 1.0);
    a.set(0, 1, 7.5);
    assert_eq!(entries(&a), vec![vec![1.0, 7.5], vec![0.0, 1.0]]);
}

#[test]
fn integer_entries() {
    let a = Matrix::from_rows(vec![vec![1i64, 2], vec![3, 4]]);
    let t = a.transpose();
    assert_eq!(t.get(0, 1), 3);
    assert_eq!(t.get(1, 0), 2);
}
