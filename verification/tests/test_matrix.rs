use la::error::Error;
use la::field::Field;
use la::matrix::{
    identity, inverse, madd, maugment, mdiv, mmul, mscale, msub, outer, vaugment, vmul, zero,
    Matrix,
};
use la::vector::Vector;

/// A floating-point scalar: the arithmetic of `f64`, with exact comparison.
#[derive(Debug, Copy, Clone, PartialEq)]
struct Real(f64);

impl Field for Real {
    fn zero_spec() -> Real {
        Real(0.0)
    }
    fn one_spec() -> Real {
        Real(1.0)
    }
    fn plus(self, rhs: Real) -> Real {
        Real(self.0 + rhs.0)
    }
    fn minus(self, rhs: Real) -> Real {
        Real(self.0 - rhs.0)
    }
    fn times(self, rhs: Real) -> Real {
        Real(self.0 * rhs.0)
    }
    fn over(self, rhs: Real) -> Real {
        Real(self.0 / rhs.0)
    }
    fn from_index_spec(n: usize) -> Option<Real> {
        Some(Real(n as f64))
    }
    fn zero() -> Real {
        Real(0.0)
    }
    fn one() -> Real {
        Real(1.0)
    }
    fn add(self, rhs: Real) -> Real {
        Real(self.0 + rhs.0)
    }
    fn sub(self, rhs: Real) -> Real {
        Real(self.0 - rhs.0)
    }
    fn mul(self, rhs: Real) -> Real {
        Real(self.0 * rhs.0)
    }
    fn div(self, rhs: Real) -> Real {
        Real(self.0 / rhs.0)
    }
    fn same(self, rhs: Real) -> bool {
        self.0 == rhs.0
    }
    fn from_index(n: usize) -> Option<Real> {
        Some(Real(n as f64))
    }
}

fn reals<const R: usize, const C: usize>(a: [[f64; C]; R]) -> Matrix<Real, R, C> {
    let mut out = [[Real(0.0); C]; R];
    for i in 0..R {
        for j in 0..C {
            out[i][j] = Real(a[i][j]);
        }
    }
    Matrix::from(out)
}

#[test]
fn test_matrix_addition() {
    let a: Matrix<u8, 2, 2> = Matrix::from([[1, 1], [1, 1]]);
    let b: Matrix<u8, 2, 2> = Matrix::from([[1, 0], [0, 1]]);
    let c: Matrix<u8, 2, 2> = Matrix::from([[2, 1], [1, 2]]);
    assert_eq!((a + b), c);
}

#[test]
fn test_matrix_subtraction() {
    let a: Matrix<u8, 2, 2> = Matrix::from([[1, 1], [1, 1]]);
    let b: Matrix<u8, 2, 2> = Matrix::from([[1, 0], [0, 1]]);
    let c: Matrix<u8, 2, 2> = Matrix::from([[0, 1], [1, 0]]);
    assert_eq!((a - b), c);
}

#[test]
fn test_matrix_scalar_multiplication() {
    let a: Matrix<u8, 2, 2> = Matrix::from([[1, 2], [3, 4]]);
    let b: Matrix<u8, 2, 2> = Matrix::from([[2, 4], [6, 8]]);
    assert_eq!((a * 2), b);
}

#[test]
fn test_matrix_scalar_division() {
    let a: Matrix<u8, 2, 2> = Matrix::from([[4, 2], [2, 0]]);
    let b: Matrix<u8, 2, 2> = Matrix::from([[2, 1], [1, 0]]);
    assert_eq!((a / 2), b);
}

#[test]
fn matrix_multiplication() {
    let a: Matrix<u8, 2, 2> = Matrix::from([[1, 1], [1, 1]]);
    let b: Matrix<u8, 2, 2> = Matrix::from([[1, 2], [3, 4]]);
    let c: Matrix<u8, 2, 2> = Matrix::from([[4, 6], [4, 6]]);
    assert_eq!((a * b), c);
}

#[test]
fn vector_matrix_multiplication() {
    let a: Matrix<u8, 2, 2> = Matrix::from([[1, 2], [3, 4]]);
    let v: Vector<u8, 2> = Vector::from([1, 2]);
    let w: Vector<u8, 2> = Vector::from([5, 11]);
    assert_eq!((a * v), w);
}

#[test]
fn matrix_augmentation() {
    let a: Matrix<u8, 2, 2> = Matrix::from([[1, 1], [3, 3]]);
    let b: Matrix<u8, 2, 2> = Matrix::from([[2, 2], [4, 4]]);
    let c: Matrix<u8, 2, 4> = Matrix::from([[1, 1, 2, 2], [3, 3, 4, 4]]);
    assert_eq!(maugment(a, b), c);
}

#[test]
fn vector_augmentation() {
    let a: Matrix<u8, 2, 2> = Matrix::from([[1, 1], [3, 3]]);
    let v: Vector<u8, 2> = Vector::from([2, 4]);
    let b: Matrix<u8, 2, 3> = Matrix::from([[1, 1, 2], [3, 3, 4]]);
    assert_eq!(vaugment(a, v), b);
}

#[test]
fn reduction() {
    let a: Matrix<u8, 2, 2> = Matrix::from([[2, 2], [2, 2]]);
    let b: Matrix<u8, 2, 2> = Matrix::from([[1, 1], [0, 0]]);
    assert_eq!(a.reduce(), b);
    assert_eq!(a.rank(), 1);
}

#[test]
fn inversion() {
    let a: Matrix<Real, 2, 2> = reals([[1.0, 2.0], [3.0, 4.0]]);
    let b: Matrix<Real, 2, 2> = reals([[-2.0, 1.0], [1.5, -0.5]]);
    assert_eq!(inverse::<Real, 2, 4>(a), Ok(b));
}

#[test]
fn outer_product() {
    let v: Vector<usize, 3> = Vector::from([1, 2, 3]);
    let a: Matrix<usize, 3, 3> = Matrix::from([[1, 2, 3], [2, 4, 6], [3, 6, 9]]);
    assert_eq!(outer(v, v), a);
}

#[test]
fn inversion_of_a_singular_matrix_is_refused() {
    let a: Matrix<Real, 2, 2> = reals([[1.0, 2.0], [2.0, 4.0]]);
    assert_eq!(inverse::<Real, 2, 4>(a), Err(Error::NotInvertible));
    let z: Matrix<u8, 3, 3> = zero();
    assert_eq!(inverse::<u8, 3, 6>(z), Err(Error::NotInvertible));
}

#[test]
fn inverse_times_matrix_is_identity() {
    let a: Matrix<Real, 3, 3> = reals([[2.0, 0.0, 0.0], [0.0, 4.0, 0.0], [1.0, 0.0, 8.0]]);
    let b = inverse::<Real, 3, 6>(a).unwrap();
    assert_eq!(b, reals([[0.5, 0.0, 0.0], [0.0, 0.25, 0.0], [-0.0625, 0.0, 0.125]]));
    let one: Matrix<Real, 3, 3> = identity();
    assert_eq!(mmul(a, b), one);
    assert_eq!(mmul(b, a), one);
}

#[test]
fn inversion_needs_a_row_swap() {
    let a: Matrix<i8, 2, 2> = Matrix::from([[0, 1], [1, 0]]);
    assert_eq!(inverse::<i8, 2, 4>(a), Ok(a));
}

#[test]
fn integer_inverse_is_not_always_an_inverse() {
    let a: Matrix<u8, 1, 1> = Matrix::from([[2]]);
    let b = inverse::<u8, 1, 2>(a).unwrap();
    assert_eq!(b, Matrix::from([[0]]));
    assert_eq!(mmul(a, b), Matrix::from([[0]]));
}

#[test]
fn reduction_is_idempotent() {
    let a: Matrix<i8, 3, 4> = Matrix::from([[0, 2, 4, 6], [1, 1, 1, 1], [2, 4, 6, 9]]);
    let once = a.reduce();
    assert_eq!(once.reduce(), once);
    let r: Matrix<Real, 3, 4> =
        reals([[0.0, 2.0, 4.0, 6.0], [1.0, 1.0, 1.0, 1.0], [2.0, 4.0, 6.0, 9.0]]);
    let once = r.reduce();
    assert_eq!(once, reals([[1.0, 0.0, -1.0, 0.0], [0.0, 1.0, 2.0, 0.0], [0.0, 0.0, 0.0, 1.0]]));
    assert_eq!(once.reduce(), once);
}

#[test]
fn reduction_skips_a_column_without_pivot() {
    let a: Matrix<u8, 2, 3> = Matrix::from([[0, 0, 3], [0, 0, 6]]);
    assert_eq!(a.reduce(), Matrix::from([[0, 0, 1], [0, 0, 0]]));
    assert_eq!(a.rank(), 1);
}

#[test]
fn reduction_takes_the_first_non_zero_entry_as_pivot() {
    let a: Matrix<i8, 3, 2> = Matrix::from([[0, 1], [2, 4], [3, 9]]);
    assert_eq!(a.reduce(), Matrix::from([[1, 0], [0, 1], [0, 0]]));
    assert_eq!(a.rank(), 2);
}

#[test]
fn rank_of_zero_and_identity() {
    let z: Matrix<u8, 3, 3> = zero();
    assert_eq!(z.rank(), 0);
    let r: Matrix<u8, 2, 4> = Matrix::from([[0; 4]; 2]);
    assert_eq!(r.rank(), 0);
    let one: Matrix<u8, 4, 4> = identity();
    assert_eq!(one.rank(), 4);
    assert_eq!(one.reduce(), one);
    let e: Matrix<u8, 0, 0> = identity();
    assert_eq!(e.rank(), 0);
}

#[test]
fn transpose_twice_is_the_matrix() {
    let a: Matrix<u8, 2, 3> = Matrix::from([[1, 2, 3], [4, 5, 6]]);
    let t: Matrix<u8, 3, 2> = a.transpose();
    assert_eq!(t, Matrix::from([[1, 4], [2, 5], [3, 6]]));
    assert_eq!(t.transpose(), a);
}

#[test]
fn rectangular_product() {
    let a: Matrix<u8, 2, 3> = Matrix::from([[1, 2, 3], [4, 5, 6]]);
    let b: Matrix<u8, 3, 1> = Matrix::from([[1], [0], [2]]);
    assert_eq!(mmul(a, b), Matrix::from([[7], [16]]));
    let v: Vector<u8, 3> = Vector::from([1, 0, 2]);
    assert_eq!(vmul(a, v), Vector::from([7, 16]));
}

#[test]
fn rows_columns_and_entries() {
    let mut a: Matrix<u8, 2, 3> = Matrix::from([[1, 2, 3], [4, 5, 6]]);
    assert_eq!(a.rows(), 2);
    assert_eq!(a.columns(), 3);
    assert_eq!(a.to_array(), [[1, 2, 3], [4, 5, 6]]);
    assert_eq!(a.get_row(1), Vector::from([4, 5, 6]));
    assert_eq!(a.get_column(2), Vector::from([3, 6]));
    assert_eq!(a.get(1, 2), Ok(6));
    assert_eq!(a.get(2, 0), Err(Error::IndexOutOfRange));
    assert_eq!(a.get(0, 3), Err(Error::IndexOutOfRange));
    assert_eq!(a.set(0, 1, 9), Ok(()));
    assert_eq!(a, Matrix::from([[1, 9, 3], [4, 5, 6]]));
    assert_eq!(a.set(2, 1, 9), Err(Error::IndexOutOfRange));
    assert_eq!(a, Matrix::from([[1, 9, 3], [4, 5, 6]]));
}

#[test]
fn swap_exchanges_two_rows() {
    let a: Matrix<u8, 3, 2> = Matrix::from([[1, 2], [3, 4], [5, 6]]);
    assert_eq!(a.swap(0, 2), Matrix::from([[5, 6], [3, 4], [1, 2]]));
    assert_eq!(a.swap(1, 1), a);
}

#[test]
fn matrix_functions_agree_with_operators() {
    let a: Matrix<i8, 2, 2> = Matrix::from([[4, -2], [6, 8]]);
    let b: Matrix<i8, 2, 2> = Matrix::from([[1, 1], [-1, 2]]);
    assert_eq!(madd(a, b), Matrix::from([[5, -1], [5, 10]]));
    assert_eq!(msub(a, b), Matrix::from([[3, -3], [7, 6]]));
    assert_eq!(mscale(2, a), Matrix::from([[8, -4], [12, 16]]));
    assert_eq!(mdiv(2, a), Matrix::from([[2, -1], [3, 4]]));
}

#[test]
fn identity_and_zero() {
    let one: Matrix<i8, 2, 2> = identity();
    assert_eq!(one, Matrix::from([[1, 0], [0, 1]]));
    let z: Matrix<i8, 2, 2> = zero();
    assert_eq!(z, Matrix::from([[0, 0], [0, 0]]));
}
