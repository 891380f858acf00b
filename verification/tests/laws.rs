use concurrency::{dot_product, greet, multiply, Error, Matrix, Vector};

#[test]
fn greet_keeps_inner_and_outer_spaces() {
    assert_eq!(greet(" bob ").unwrap(), "Hello,  bob !");
}

#[test]
fn greet_treats_unicode_white_space_as_blank() {
    assert!(matches!(greet("\u{3000}\t\n "), Err(Error::EmptyName)));
    assert!(matches!(greet("\u{85}\u{a0}"), Err(Error::EmptyName)));
    assert_eq!(greet("\u{200b}").unwrap(), "Hello, \u{200b}!");
}

#[test]
fn dot_product_is_symmetric() {
    let x = vec![3, -7, 11, 0];
    let y = vec![-2, 5, 4, 9];
    let xy = dot_product(Vector::new(x.clone()), Vector::new(y.clone())).unwrap();
    let yx = dot_product(Vector::new(y), Vector::new(x)).unwrap();
    assert_eq!(xy, yx);
    assert_eq!(xy, -6 - 35 + 44);
}

#[test]
fn dot_product_of_empty_vectors_is_zero() {
    let empty: Vec<i64> = Vec::new();
    assert_eq!(dot_product(Vector::new(empty.clone()), Vector::new(empty)).unwrap(), 0);
}

#[test]
fn vector_derefs_to_its_elements() {
    let v = Vector::new(vec![4, 5, 6]);
    assert_eq!(v.len(), 3);
    assert_eq!(v[1], 5);
}

#[test]
fn multiply_rejects_mismatched_shapes() {
    let a = Matrix::new(vec![1, 2, 3, 4, 5, 6], 2, 3);
    let b = Matrix::new(vec![1, 2, 3, 4], 2, 2);
    match multiply(&a, &b) {
        Err(Error::MatrixShapeMismatch { a_col, b_row }) => {
            assert_eq!(a_col, 3);
            assert_eq!(b_row, 2);
        }
        Err(other) => panic!("unexpected error {other:?}"),
        Ok(_) => panic!("unexpected success"),
    }
}

#[test]
fn multiply_reports_a_short_column() {
    // Seven elements in a 3 x 2 matrix: column 0 has four, column 1 three.
    let a = Matrix::new(vec![1, 2, 3], 1, 3);
    let b = Matrix::new(vec![1, 2, 3, 4, 5, 6, 7], 3, 2);
    match multiply(&a, &b) {
        Err(Error::DotProductLengthMismatch { a, b }) => {
            assert_eq!(a, 3);
            assert_eq!(b, 4);
        }
        Err(other) => panic!("unexpected error {other:?}"),
        Ok(_) => panic!("unexpected success"),
    }
}

#[test]
fn multiply_by_identity_keeps_the_matrix() {
    let a = Matrix::new(vec![-1, 2, 30, 4], 2, 2);
    let id = Matrix::new(vec![1, 0, 0, 1], 2, 2);
    let c = multiply(&a, &id).unwrap();
    assert_eq!(c.to_string(), "{-1 2, 30 4}");
    assert_eq!(c.row_count(), 2);
    assert_eq!(c.col_count(), 2);
    assert_eq!(c.data_len(), 4);
}

#[test]
fn multiply_with_no_rows_gives_an_empty_matrix() {
    let a = Matrix::new(Vec::new(), 0, 3);
    let b = Matrix::new(vec![1, 2, 3, 4, 5, 6], 3, 2);
    let c = multiply(&a, &b).unwrap();
    assert_eq!(c.to_string(), "{}");
    assert_eq!(c.debug_string(), "Matrix(row=0, col=2, {})");
}

#[test]
fn matrix_text_of_a_row_and_a_column() {
    let row = Matrix::new(vec![i64::MIN, 0, i64::MAX], 1, 3);
    assert_eq!(row.to_string(), "{-9223372036854775808 0 9223372036854775807}");
    let col = Matrix::new(vec![7, -8, 9], 3, 1);
    assert_eq!(col.to_string(), "{7, -8, 9}");
    let hollow = Matrix::new(Vec::<i64>::new(), 2, 0);
    assert_eq!(hollow.to_string(), "{, }");
}

#[test]
fn matrix_rows_and_columns() {
    let m = Matrix::new(vec![1, 2, 3, 4, 5, 6], 2, 3);
    assert_eq!(m.row_values(1), vec![4, 5, 6]);
    assert_eq!(m.column_values(2), vec![3, 6]);
}

#[test]
fn dot_product_fits_tells_overflow_apart() {
    let big = Vector::new(vec![i64::MAX, 1]);
    let one = Vector::new(vec![1, 1]);
    assert!(!concurrency::dot_product_fits(&big, &one));
    let small = Vector::new(vec![i64::MAX - 1, 1]);
    assert!(concurrency::dot_product_fits(&small, &one));
    assert_eq!(dot_product(small, one).unwrap(), i64::MAX);
    let neg = Vector::new(vec![i64::MIN, 1]);
    let two = Vector::new(vec![-1, 0]);
    assert!(!concurrency::dot_product_fits(&neg, &two));
}

#[test]
fn multiply_twice_gives_the_same_matrix() {
    let a = Matrix::new(vec![2, -3, 5, 7, 11, -13], 3, 2);
    let b = Matrix::new(vec![1, 4, -6, 0, 9, 8, -2, 3], 2, 4);
    let c1 = multiply(&a, &b).unwrap();
    let c2 = multiply(&a, &b).unwrap();
    assert_eq!(c1.debug_string(), c2.debug_string());
    for i in 0..3 {
        assert_eq!(c1.row_values(i), c2.row_values(i));
    }
    assert_eq!(c1.to_string(), "{-25 -16 -6 -9, 68 76 -44 21, -106 -60 -40 -39}");
}
