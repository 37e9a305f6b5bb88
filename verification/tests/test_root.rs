use la::{Matrix, Vector};

#[test]
fn add() {
    let a: Matrix<u8, 2, 2> = Matrix::from([[1, 1], [1, 1]]);
    let b: Matrix<u8, 2, 2> = Matrix::from([[1, 0], [0, 1]]);
    let c: Matrix<u8, 2, 2> = Matrix::from([[2, 1], [1, 2]]);
    assert_eq!((a + b), c);
}

#[test]
fn sub() {
    let a: Matrix<u8, 2, 2> = Matrix::from([[1, 1], [1, 1]]);
    let b: Matrix<u8, 2, 2> = Matrix::from([[1, 0], [0, 1]]);
    let c: Matrix<u8, 2, 2> = Matrix::from([[0, 1], [1, 0]]);
    assert_eq!((a - b), c);
}

#[test]
fn mul() {
    let a: Matrix<u8, 2, 2> = Matrix::from([[1, 1], [1, 1]]);
    let b: Matrix<u8, 2, 2> = Matrix::from([[1, 0], [0, 1]]);
    assert_eq!((a * b), a);

    let v: Vector<u8, 2> = Vector::from([1, 1]);
    assert_eq!((b * v), v);

    assert_eq!((v * v), 2u8);

    let z: Matrix<u8, 2, 2> = Matrix::from([[0, 0], [0, 0]]);
    assert_eq!((a * 0), z);

    let z: Vector<u8, 2> = Vector::from([0, 0]);
    assert_eq!((v * 0), z);
}

#[test]
fn div() {
    let a: Matrix<u8, 2, 2> = Matrix::from([[4, 2], [2, 0]]);
    let b: Matrix<u8, 2, 2> = Matrix::from([[2, 1], [1, 0]]);
    assert_eq!((a / 2), b);

    let v: Vector<u8, 2> = Vector::from([4, 2]);
    let w: Vector<u8, 2> = Vector::from([2, 1]);
    assert_eq!((v / 2), w);
}

#[test]
fn reduce() {
    let a: Matrix<u8, 2, 2> = Matrix::from([[2, 2], [2, 2]]);
    let b: Matrix<u8, 2, 2> = Matrix::from([[1, 1], [0, 0]]);
    assert_eq!(a.reduce(), b);
    assert_eq!(a.rank(), 1);
}
