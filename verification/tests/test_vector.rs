use la::error::Error;
use la::vector::{dot, vadd, vdiv, vscale, vsub, Vector};

#[test]
fn test_vector_addition() {
    let a: Vector<u8, 2> = Vector::from([1, 2]);
    let b: Vector<u8, 2> = Vector::from([2, 3]);
    let c: Vector<u8, 2> = Vector::from([3, 5]);
    assert_eq!((a + b), c);
}

#[test]
fn test_vector_subtraction() {
    let a: Vector<u8, 2> = Vector::from([2, 3]);
    let b: Vector<u8, 2> = Vector::from([1, 2]);
    let c: Vector<u8, 2> = Vector::from([1, 1]);
    assert_eq!((a - b), c);
}

#[test]
fn test_vector_scalar_multiplication() {
    let a: Vector<u8, 2> = Vector::from([1, 2]);
    let b: Vector<u8, 2> = Vector::from([2, 4]);
    assert_eq!((a * 2), b);
}

#[test]
fn test_vector_scalar_division() {
    let a: Vector<u8, 2> = Vector::from([4, 2]);
    let b: Vector<u8, 2> = Vector::from([2, 1]);
    assert_eq!((a / 2), b);
}

#[test]
fn dot_product() {
    let a: Vector<u8, 2> = Vector::from([4, 2]);
    let b: Vector<u8, 2> = Vector::from([2, 1]);
    assert_eq!((a * b), 10);
}

#[test]
fn vector_functions_agree_with_operators() {
    let a: Vector<i8, 3> = Vector::from([4, -2, 7]);
    let b: Vector<i8, 3> = Vector::from([2, 1, -3]);
    assert_eq!(vadd(a, b), Vector::from([6, -1, 4]));
    assert_eq!(vsub(a, b), Vector::from([2, -3, 10]));
    assert_eq!(vscale(3, a), Vector::from([12, -6, 21]));
    assert_eq!(vdiv(2, a), Vector::from([2, -1, 3]));
    assert_eq!(dot(a, b), 8 - 2 - 21);
}

#[test]
fn dot_product_is_symmetric() {
    let a: Vector<u8, 3> = Vector::from([4, 2, 9]);
    let b: Vector<u8, 3> = Vector::from([2, 1, 5]);
    assert_eq!(dot(a, b), dot(b, a));
    assert_eq!(dot(a, b), 55);
}

#[test]
fn dot_product_of_empty_vectors_is_zero() {
    let a: Vector<u8, 0> = Vector::from([]);
    assert_eq!(dot(a, a), 0);
}

#[test]
fn integer_arithmetic_wraps() {
    let a: Vector<u8, 2> = Vector::from([200, 3]);
    let b: Vector<u8, 2> = Vector::from([100, 5]);
    assert_eq!(vadd(a, b), Vector::from([44, 8]));
    assert_eq!(vsub(b, a), Vector::from([156, 2]));
    assert_eq!(vscale(2, a), Vector::from([144, 6]));
}

#[test]
fn signed_division_truncates_toward_zero() {
    let a: Vector<i8, 4> = Vector::from([-7, 7, -128, 0]);
    assert_eq!(vdiv(2, a), Vector::from([-3, 3, -64, 0]));
    assert_eq!(vdiv(-1, a), Vector::from([7, -7, -128, 0]));
    assert_eq!(vdiv(-2, a), Vector::from([3, -3, 64, 0]));
}

#[test]
fn vector_to_array_round_trip() {
    let a: Vector<usize, 3> = Vector::from([7, 8, 9]);
    assert_eq!(a.to_array(), [7, 8, 9]);
    assert_eq!(a.len(), 3);
}

#[test]
fn vector_get_and_set() {
    let mut a: Vector<u8, 3> = Vector::from([7, 8, 9]);
    assert_eq!(a.get(0), Ok(7));
    assert_eq!(a.get(2), Ok(9));
    assert_eq!(a.get(3), Err(Error::IndexOutOfRange));
    assert_eq!(a.set(1, 5), Ok(()));
    assert_eq!(a, Vector::from([7, 5, 9]));
    assert_eq!(a.set(3, 1), Err(Error::IndexOutOfRange));
    assert_eq!(a, Vector::from([7, 5, 9]));
}

#[test]
fn vector_to_matrix_is_a_column() {
    let a: Vector<u8, 3> = Vector::from([7, 8, 9]);
    assert_eq!(a.to_matrix().to_array(), [[7], [8], [9]]);
}
