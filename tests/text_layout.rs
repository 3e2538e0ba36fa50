use dense_matrix::render;
use dense_matrix::Matrix;

fn cells(a: &Matrix<f64>, precision: Option<usize>) -> Vec<Vec<String>> {
    let mut out = Vec::new();
    for i in 0..a.rows() {
        let mut row = Vec::new();
        for j in 0..a.cols() {
            let x = a.get(i, j);
            row.push(match precision {
                Some(p) => format!("{:.*}", p, x),
                None => format!("{}", x),
            });
        }
        out.push(row);
    }
    out
}

fn text(a: &Matrix<f64>, precision: Option<usize>) -> String {
    render(&cells(a, precision), a.augment_boundary())
}

#[test]
fn single_entry_has_no_box() {
    let a = Matrix::from_rows(vec![vec![5.0]]);
    assert_eq!(text(&a, None), "[5]");
}

#[test]
fn no_rows_is_empty_brackets() {
    let a = Matrix::identity(0, 0, 0.0, 1.0);
    assert_eq!(text(&a, None), "[]");
    let b = Matrix::identity(0, 3, 0.0, 1.0);
    assert_eq!(text(&b, None), "[]");
    let none: Vec<Vec<String>> = Vec::new();
    assert_eq!(render(&none, Some(1)), "[]");
}

#[test]
fn single_row_is_space_separated() {
    let a = Matrix::from_rows(vec![vec![1.0, -2.5, 30.0]]);
    assert_eq!(text(&a, None), "[1 -2.5 30]");
}

#[test]
fn single_row_ignores_boundary() {
    let a = Matrix::from_rows(vec![vec![1.0]]);
    let c = a.augment(Matrix::from_rows(vec![vec![2.0]]));
    assert_eq!(text(&c, None), "[1 2]");
}

#[test]
fn boxed_columns_align_right() {
    assert_eq!(text(&demo(), None), "┌ 1 1  0┐\n│-2 2  1│\n└ 0 1 -1┘\n");
}

#[test]
fn boxed_two_rows() {
    let a = Matrix::from_rows(vec![vec![10.0, 2.0], vec![3.0, 400.0]]);
    assert_eq!(text(&a, None), "┌10   2┐\n└ 3 400┘\n");
}

#[test]
fn boxed_with_boundary() {
    let a = Matrix::from_rows(vec![vec![1.0, 2.0], vec![3.0, 4.0]]);
    let c = a.augment(Matrix::from_rows(vec![vec![5.0], vec![-6.0]]));
    assert_eq!(text(&c, None), "┌1 2 │  5┐\n└3 4 │ -6┘\n");
}

#[test]
fn boxed_with_precision() {
    let a = Matrix::from_rows(vec![vec![1.0, 0.5], vec![-12.25, 3.0]]);
    assert_eq!(text(&a, Some(2)), "┌  1.00 0.50┐\n└-12.25 3.00┘\n");
}

#[test]
fn widths_count_characters() {
    let grid = vec![
        vec!["é".to_string(), "x".to_string()],
        vec!["ab".to_string(), "│".to_string()],
    ];
    assert_eq!(render(&grid, None), "┌ é x┐\n└ab │┘\n");
}

fn demo() -> Matrix<f64> {
    Matrix::from_rows(vec![
        vec![1.0, 1.0, 0.0],
        vec![-2.0, 2.0, 1.0],
        vec![0.0, 1.0, -1.0],
    ])
}
