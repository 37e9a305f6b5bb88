use la::error::Error;
use la::polynomial::{padd, pdiv, pscale, psub, Polynomial};
use la::vector::Vector;

#[test]
fn test_polynomial_addition() {
    let a: Polynomial<u8> = Polynomial::from(vec![1, 2, 3]);
    let b: Polynomial<u8> = Polynomial::from(vec![4, 5]);
    let c: Polynomial<u8> = Polynomial::from(vec![5, 7, 3]);
    assert_eq!((a + b), c);

    let a: Polynomial<u8> = Polynomial::from(vec![1, 2, 3]);
    let b: Polynomial<u8> = Polynomial::from(vec![4, 5]);
    let c: Polynomial<u8> = Polynomial::from(vec![5, 7, 3]);
    assert_eq!((b + a), c);
}

#[test]
fn test_polynomial_subtraction() {
    let a: Polynomial<i8> = Polynomial::from(vec![1, 2]);
    let b: Polynomial<i8> = Polynomial::from(vec![1, 2, 3]);
    let c: Polynomial<i8> = Polynomial::from(vec![0, 0, -3]);
    assert_eq!((a - b), c);
}

#[test]
fn test_polynomial_scalar_multiplication() {
    let a: Polynomial<u8> = Polynomial::from(vec![1, 2]);
    let b: Polynomial<u8> = Polynomial::from(vec![2, 4]);
    assert_eq!((a * 2), b);
}

#[test]
fn test_polynomial_scalar_division() {
    let a: Polynomial<u8> = Polynomial::from(vec![4, 2]);
    let b: Polynomial<u8> = Polynomial::from(vec![2, 1]);
    assert_eq!((a / 2), b);
}

#[test]
fn application() {
    let a: Polynomial<u8> = Polynomial::from(vec![1, 2, 3]);
    assert_eq!(a.at(2), 17);
}

#[test]
fn derivatation() {
    let a: Polynomial<u8> = Polynomial::from(vec![1, 2, 3]);
    let b: Polynomial<u8> = Polynomial::from(vec![2, 6]);
    assert_eq!(a.derivative(), b);
}

#[test]
fn integration() {
    let a: Polynomial<u8> = Polynomial::from(vec![1, 2]);
    let b: Polynomial<u8> = Polynomial::from(vec![0, 1, 1]);
    assert_eq!(a.integral(), b);
}

fn poly(c: &[i8]) -> Polynomial<i8> {
    Polynomial::from(c.to_vec())
}

#[test]
fn polynomial_addition_is_commutative_and_associative() {
    let a = [1, 2, 3];
    let b = [4, 5];
    let c = [-7];
    assert_eq!(padd(poly(&a), poly(&b)), padd(poly(&b), poly(&a)));
    assert_eq!(
        padd(padd(poly(&a), poly(&b)), poly(&c)),
        padd(poly(&a), padd(poly(&b), poly(&c)))
    );
    assert_eq!(padd(padd(poly(&a), poly(&b)), poly(&c)), poly(&[-2, 7, 3]));
}

#[test]
fn polynomial_functions_agree_with_operators() {
    assert_eq!(psub(poly(&[1, 2, 3]), poly(&[1, 1])), poly(&[0, 1, 3]));
    assert_eq!(psub(poly(&[1, 2]), poly(&[1, 2])), poly(&[0, 0]));
    assert_eq!(pscale(-2, poly(&[1, 2, 3])), poly(&[-2, -4, -6]));
    assert_eq!(pdiv(2, poly(&[4, -7, 1])), poly(&[2, -3, 0]));
}

#[test]
fn derivative_of_integral_on_exact_quotients() {
    let a: Polynomial<u8> = Polynomial::from(vec![1, 2]);
    assert_eq!(a.integral().derivative(), Polynomial::from(vec![1, 2]));
    let b: Polynomial<u8> = Polynomial::from(vec![1, 1]);
    assert_eq!(b.integral(), Polynomial::from(vec![0, 1, 0]));
    assert_eq!(b.integral().derivative(), Polynomial::from(vec![1, 0]));
}

#[test]
fn empty_and_constant_polynomials() {
    let e: Polynomial<u8> = Polynomial::from(vec![]);
    assert_eq!(e.len(), 0);
    assert_eq!(e.at(5), 0);
    assert_eq!(e.derivative(), Polynomial::from(vec![]));
    assert_eq!(e.integral(), Polynomial::from(vec![0]));
    let c: Polynomial<u8> = Polynomial::from(vec![9]);
    assert_eq!(c.len(), 1);
    assert_eq!(c.degree(), 0);
    assert_eq!(c.at(5), 9);
    assert_eq!(c.derivative(), Polynomial::from(vec![]));
    assert_eq!(c.integral(), Polynomial::from(vec![0, 9]));
}

#[test]
fn degree_and_length() {
    let a: Polynomial<u8> = Polynomial::from(vec![1, 2, 3]);
    assert_eq!(a.len(), 3);
    assert_eq!(a.degree(), 2);
}

#[test]
fn evaluation_adds_each_power() {
    let a: Polynomial<i8> = Polynomial::from(vec![-1, 0, 2, 1]);
    assert_eq!(a.at(-3), -1 + 18 - 27);
    assert_eq!(a.at(0), -1);
}

#[test]
fn conversions_to_and_from_vectors() {
    let a: Polynomial<u8> = Polynomial::from(vec![1, 2, 3]);
    let short: Vector<u8, 2> = a.clone().into();
    assert_eq!(short, Vector::from([1, 2]));
    let long: Vector<u8, 5> = a.clone().into();
    assert_eq!(long, Vector::from([1, 2, 3, 0, 0]));
    let back: Polynomial<u8> = Polynomial::from(long);
    assert_eq!(back, Polynomial::from(vec![1, 2, 3, 0, 0]));
    let coefficients: Vec<u8> = a.into();
    assert_eq!(coefficients, vec![1, 2, 3]);
}

#[test]
fn polynomial_get_and_set() {
    let mut a: Polynomial<u8> = Polynomial::from(vec![1, 2, 3]);
    assert_eq!(a.get(0), Ok(1));
    assert_eq!(a.get(2), Ok(3));
    assert_eq!(a.get(3), Err(Error::IndexOutOfRange));
    assert_eq!(a.set(1, 7), Ok(()));
    assert_eq!(a, Polynomial::from(vec![1, 7, 3]));
    assert_eq!(a.set(3, 7), Err(Error::IndexOutOfRange));
    assert_eq!(a, Polynomial::from(vec![1, 7, 3]));
}

#[test]
fn derivative_multiplies_by_the_power() {
    let a: Polynomial<i8> = Polynomial::from(vec![5, -1, 2, 3, 1]);
    assert_eq!(a.derivative(), Polynomial::from(vec![-1, 4, 9, 4]));
}

#[test]
fn integral_divides_by_the_raised_power() {
    let a: Polynomial<i8> = Polynomial::from(vec![5, -4, 9, 8]);
    assert_eq!(a.integral(), Polynomial::from(vec![0, 5, -2, 3, 2]));
}
