use concurrency::{add, dot_product, greet, multiply, Error, Matrix, Result, Vector};

#[test]
fn it_works() {
    assert_eq!(add(2, 2), 4);
}

#[test]
fn async_test_works() {
    assert_eq!(add(1, 1), 2);
}

#[test]
fn add_works_from_outside() {
    assert_eq!(add(40, 2), 42);
}

#[test]
fn greet_formats_message() {
    assert_eq!(greet("world").unwrap(), "Hello, world!");
}

#[test]
fn greet_rejects_blank_name() {
    assert!(greet("   ").is_err());
}

#[test]
fn greet_error_is_public_and_matchable() {
    let err = greet("").unwrap_err();
    assert!(matches!(err, Error::EmptyName));
}

#[test]
fn test_dot_product_success() -> Result<()> {
    let a = Vector::new(Vec::from([1, 2, 3]));
    let b = Vector::new(Vec::from([4, 5, 6]));
    assert_eq!(dot_product(a, b)?, 32);
    Ok(())
}

#[test]
fn test_dot_product_len_error() {
    let a = Vector::new(Vec::from([1, 2, 3]));
    let b = Vector::new(Vec::from([4, 5]));
    match dot_product(a, b) {
        Err(Error::DotProductLengthMismatch { a, b }) => {
            assert_eq!(a, 3);
            assert_eq!(b, 2);
        }
        other => panic!("期望长度不匹配，实际是 {other:?}"),
    }
}

#[test]
fn test_multiply_success() -> Result<()> {
    let a = Matrix::new(vec![1, 2, 3, 4, 5, 6], 2, 3);
    let b = Matrix::new(vec![1, 2, 3, 4, 5, 6], 3, 2);
    let c = multiply(&a, &b)?;

    assert_eq!(format!("{}", c.to_string()), "{22 28, 49 64}");
    assert_eq!(format!("{}", c.debug_string()), "Matrix(row=2, col=2, {22 28, 49 64})");
    Ok(())
}
