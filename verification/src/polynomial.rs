//! Polynomials in one variable, as sequences of coefficients from the constant term up.

use vstd::prelude::*;
use crate::algebra::sum_to;
use crate::error::Error;
use crate::field::{
    exact_division, lemma_over_times, lemma_plus_associates, lemma_plus_commutes, ring_laws, Field,
};
use crate::vector::{lemma_vector_of, vector_of, Vector};

verus! {

/// A polynomial: the coefficient of the `i`-th power stands at index `i`.
/// Its view is the sequence of its coefficients.
#[derive(Debug, Clone, PartialEq)]
pub struct Polynomial<F: Field>(Vec<F>);

impl<F: Field> View for Polynomial<F> {
    type V = Seq<F>;

    closed spec fn view(&self) -> Seq<F> {
        self.0@
    }
}

/// A polynomial whose coefficients are those of `s`.
pub open spec fn polynomial_of<F: Field>(s: Seq<F>) -> Polynomial<F> {
    choose|p: Polynomial<F>| p@ == s
}

/// The coefficient `c` multiplied `i` times by `x` from the right.
pub open spec fn power_term<F: Field>(c: F, x: F, i: nat) -> F
    decreases i,
{
    if i == 0 {
        c
    } else {
        power_term(c, x, (i - 1) as nat).times(x)
    }
}

/// The terms of a polynomial at `x`, by index.
pub open spec fn terms<F: Field>(p: Seq<F>, x: F) -> spec_fn(int) -> F {
    |i: int| power_term(p[i], x, i as nat)
}

/// The value of the polynomial at `x`: its terms added up from the constant term.
pub open spec fn eval_spec<F: Field>(p: Seq<F>, x: F) -> F {
    sum_to(terms(p, x), p.len())
}

/// Every coefficient multiplied by `scalar` from the left.
pub open spec fn pscale_spec<F: Field>(scalar: F, p: Seq<F>) -> Seq<F> {
    Seq::new(p.len(), |i: int| scalar.times(p[i]))
}

/// Every coefficient divided by `scalar`.
pub open spec fn pdiv_spec<F: Field>(scalar: F, p: Seq<F>) -> Seq<F> {
    Seq::new(p.len(), |i: int| p[i].over(scalar))
}

/// The sum of two polynomials. Where both have a coefficient, the one of the
/// shorter polynomial stands on the left of the sum (that of `right` where
/// the lengths are equal); beyond that the longer one's coefficients follow.
pub open spec fn padd_spec<F: Field>(left: Seq<F>, right: Seq<F>) -> Seq<F> {
    if left.len() < right.len() {
        Seq::new(
            right.len(),
            |i: int|
                if i < left.len() {
                    left[i].plus(right[i])
                } else {
                    right[i]
                },
        )
    } else {
        Seq::new(
            left.len(),
            |i: int|
                if i < right.len() {
                    right[i].plus(left[i])
                } else {
                    left[i]
                },
        )
    }
}

/// The difference of two polynomials. Beyond the end of `left` the
/// coefficients of `right` are subtracted from zero; beyond the end of
/// `right` those of `left` follow.
pub open spec fn psub_spec<F: Field>(left: Seq<F>, right: Seq<F>) -> Seq<F> {
    Seq::new(
        if left.len() < right.len() {
            right.len()
        } else {
            left.len()
        },
        |i: int|
            if i < left.len() && i < right.len() {
                left[i].minus(right[i])
            } else if i < left.len() {
                left[i]
            } else {
                F::zero_spec().minus(right[i])
            },
    )
}

/// The scalar for the natural number `n`; meaningful where the type can hold it.
pub open spec fn index_scalar<F: Field>(n: int) -> F {
    F::from_index_spec(n as usize).unwrap()
}

/// Whether the type holds a scalar for each of the numbers `from`, ..., `to - 1`.
pub open spec fn indices_representable<F: Field>(from: int, to: int) -> bool {
    forall|n: int| from <= n < to ==> (#[trigger] F::from_index_spec(n as usize)).is_some()
}

/// Whether the scalars for the numbers `from`, ..., `to - 1` can be divided by.
pub open spec fn indices_invertible<F: Field>(from: int, to: int) -> bool {
    forall|n: int| from <= n < to ==> #[trigger] index_scalar::<F>(n) != F::zero_spec()
}

/// The derivative: the coefficient of the `(k + 1)`-th power times `k + 1`, at index `k`.
pub open spec fn derivative_spec<F: Field>(p: Seq<F>) -> Seq<F> {
    Seq::new(
        if p.len() == 0 {
            0
        } else {
            (p.len() - 1) as nat
        },
        |k: int| p[k + 1].times(index_scalar::<F>(k + 1)),
    )
}

/// The integral from zero: zero as the constant term, then the coefficient
/// of the `k`-th power divided by `k + 1`, at index `k + 1`.
pub open spec fn integral_spec<F: Field>(p: Seq<F>) -> Seq<F> {
    Seq::new(
        p.len() + 1,
        |k: int|
            if k == 0 {
                F::zero_spec()
            } else {
                p[k - 1].over(index_scalar::<F>(k))
            },
    )
}

/// The first `n` coefficients, with zeros where the polynomial has none.
pub open spec fn truncate_spec<F: Field>(p: Seq<F>, n: nat) -> Seq<F> {
    Seq::new(
        n,
        |i: int|
            if i < p.len() {
                p[i]
            } else {
                F::zero_spec()
            },
    )
}

impl<F: Field> From<Vec<F>> for Polynomial<F> {
    fn from(vec: Vec<F>) -> (p: Polynomial<F>)
        ensures
            p@ == vec@,
    {
        Polynomial(vec)
    }
}

impl<F: Field> vstd::std_specs::convert::FromSpecImpl<Vec<F>> for Polynomial<F> {
    open spec fn obeys_from_spec() -> bool {
        true
    }

    closed spec fn from_spec(vec: Vec<F>) -> Polynomial<F> {
        Polynomial(vec)
    }
}

impl<F: Field> Polynomial<F> {
    /// The number of coefficients.
    pub fn len(&self) -> (n: usize)
        ensures
            n == self@.len(),
    {
        self.0.len()
    }

    /// The coefficient of the `index`-th power, or `IndexOutOfRange`.
    pub fn get(&self, index: usize) -> (coefficient: Result<F, Error>)
        ensures
            index < self@.len() ==> coefficient == Ok::<F, Error>(self@[index as int]),
            index >= self@.len() ==> coefficient == Err::<F, Error>(Error::IndexOutOfRange),
    {
        if index < self.0.len() {
            Ok(self.0[index])
        } else {
            Err(Error::IndexOutOfRange)
        }
    }

    /// Replaces the coefficient of the `index`-th power by `value`; where the
    /// polynomial has no such coefficient it stays as it is and the result is
    /// `IndexOutOfRange`.
    pub fn set(&mut self, index: usize, value: F) -> (done: Result<(), Error>)
        ensures
            index < old(self)@.len() ==> done == Ok::<(), Error>(()) && final(self)@ == old(
                self,
            )@.update(index as int, value),
            index >= old(self)@.len() ==> done == Err::<(), Error>(Error::IndexOutOfRange)
                && final(self)@ == old(self)@,
    {
        if index < self.0.len() {
            self.0[index] = value;
            Ok(())
        } else {
            Err(Error::IndexOutOfRange)
        }
    }

    /// The degree: one less than the number of coefficients. A polynomial
    /// without coefficients has none.
    pub fn degree(&self) -> (d: usize)
        requires
            self@.len() > 0,
        ensures
            d == self@.len() - 1,
    {
        self.0.len() - 1
    }

    /// The value at `x`.
    pub fn at(&self, x: F) -> (y: F)
        ensures
            y == eval_spec(self@, x),
    {
        let mut y: F = F::zero();
        for i in 0..self.0.len()
            invariant
                y == sum_to(terms(self@, x), i as nat),
        {
            let mut summand: F = self.0[i];
            for k in 0..i
                invariant
                    i < self@.len(),
                    summand == power_term(self@[i as int], x, k as nat),
            {
                summand = summand.mul(x);
            }
            y = y.add(summand);
        }
        y
    }

    /// The derivative. Each power that occurs must have a scalar of its own.
    pub fn derivative(&self) -> (derived: Polynomial<F>)
        requires
            indices_representable::<F>(1, self@.len() as int),
        ensures
            derived@ == derivative_spec(self@),
    {
        let mut result: Vec<F> = Vec::new();
        let mut i: usize = 1;
        while i < self.0.len()
            invariant
                indices_representable::<F>(1, self@.len() as int),
                1 <= i,
                i <= self@.len() || i == 1,
                result@.len() == i - 1,
                forall|k: int|
                    0 <= k < i - 1 ==> result@[k] == self@[k + 1].times(index_scalar::<F>(k + 1)),
            decreases self@.len() - i,
        {
            assert(F::from_index_spec(i as int as usize).is_some());
            let factor: F = F::from_index(i).unwrap();
            result.push(self.0[i].mul(factor));
            i += 1;
        }
        assert(result@ =~= derivative_spec(self@));
        Polynomial(result)
    }

    /// The integral from zero. Each power that occurs, raised by one, must
    /// have a scalar of its own, and one that can be divided by. Where
    /// division is exact, the derivative of the integral is the polynomial.
    pub fn integral(&self) -> (integrated: Polynomial<F>)
        requires
            self@.len() < usize::MAX,
            indices_representable::<F>(1, self@.len() as int + 1),
            indices_invertible::<F>(1, self@.len() as int + 1),
        ensures
            integrated@ == integral_spec(self@),
            exact_division::<F>() ==> derivative_spec(integrated@) == self@,
    {
        proof {
            if exact_division::<F>() {
                lemma_derivative_of_integral(self@);
            }
        }
        let mut result: Vec<F> = Vec::new();
        result.push(F::zero());
        for i in 0..self.0.len()
            invariant
                self@.len() < usize::MAX,
                indices_representable::<F>(1, self@.len() as int + 1),
                indices_invertible::<F>(1, self@.len() as int + 1),
                result@.len() == i + 1,
                result@[0] == F::zero_spec(),
                forall|k: int|
                    1 <= k < i + 1 ==> result@[k] == self@[k - 1].over(index_scalar::<F>(k)),
        {
            assert(F::from_index_spec((i + 1) as int as usize).is_some());
            assert(index_scalar::<F>(i + 1) != F::zero_spec());
            let divisor: F = F::from_index(i + 1).unwrap();
            result.push(self.0[i].div(divisor));
        }
        assert(result@ =~= integral_spec(self@));
        Polynomial(result)
    }
}

/// Every coefficient multiplied by `scalar` from the left.
pub fn pscale<F: Field>(scalar: F, polynomial: Polynomial<F>) -> (scaled: Polynomial<F>)
    ensures
        scaled@ == pscale_spec(scalar, polynomial@),
{
    let mut result: Vec<F> = Vec::new();
    for i in 0..polynomial.0.len()
        invariant
            result@.len() == i,
            forall|k: int| 0 <= k < i ==> result@[k] == scalar.times(polynomial@[k]),
    {
        result.push(scalar.mul(polynomial.0[i]));
    }
    assert(result@ =~= pscale_spec(scalar, polynomial@));
    Polynomial(result)
}

/// Every coefficient divided by `scalar`, which must not be zero.
pub fn pdiv<F: Field>(scalar: F, polynomial: Polynomial<F>) -> (divided: Polynomial<F>)
    requires
        scalar != F::zero_spec(),
    ensures
        divided@ == pdiv_spec(scalar, polynomial@),
{
    let mut result: Vec<F> = Vec::new();
    for i in 0..polynomial.0.len()
        invariant
            scalar != F::zero_spec(),
            result@.len() == i,
            forall|k: int| 0 <= k < i ==> result@[k] == polynomial@[k].over(scalar),
    {
        result.push(polynomial.0[i].div(scalar));
    }
    assert(result@ =~= pdiv_spec(scalar, polynomial@));
    Polynomial(result)
}

/// The sum of two polynomials, coefficient by coefficient. Over a ring the
/// order of the two does not matter.
pub fn padd<F: Field>(left: Polynomial<F>, right: Polynomial<F>) -> (sum: Polynomial<F>)
    ensures
        sum@ == padd_spec(left@, right@),
        ring_laws::<F>() ==> sum@ == padd_spec(right@, left@),
{
    proof {
        if ring_laws::<F>() {
            lemma_padd_commutes(left@, right@);
        }
    }
    let mut result: Vec<F> = Vec::new();
    let (short, long) = if left.0.len() < right.0.len() {
        (left.0, right.0)
    } else {
        (right.0, left.0)
    };
    for i in 0..short.len()
        invariant
            short@.len() <= long@.len(),
            result@.len() == i,
            forall|k: int| 0 <= k < i ==> result@[k] == short@[k].plus(long@[k]),
    {
        result.push(short[i].add(long[i]));
    }
    for i in short.len()..long.len()
        invariant
            short@.len() <= long@.len(),
            result@.len() == i,
            forall|k: int| 0 <= k < short@.len() ==> result@[k] == short@[k].plus(long@[k]),
            forall|k: int| short@.len() <= k < i ==> result@[k] == long@[k],
    {
        result.push(long[i]);
    }
    assert(result@ =~= padd_spec(left@, right@));
    Polynomial(result)
}

/// The difference of two polynomials, coefficient by coefficient.
pub fn psub<F: Field>(left: Polynomial<F>, right: Polynomial<F>) -> (difference: Polynomial<F>)
    ensures
        difference@ == psub_spec(left@, right@),
{
    let mut result: Vec<F> = Vec::new();
    if left.0.len() < right.0.len() {
        for i in 0..left.0.len()
            invariant
                left@.len() < right@.len(),
                result@.len() == i,
                forall|k: int| 0 <= k < i ==> result@[k] == left@[k].minus(right@[k]),
        {
            result.push(left.0[i].sub(right.0[i]));
        }
        for i in left.0.len()..right.0.len()
            invariant
                left@.len() < right@.len(),
                result@.len() == i,
                forall|k: int| 0 <= k < left@.len() ==> result@[k] == left@[k].minus(right@[k]),
                forall|k: int|
                    left@.len() <= k < i ==> result@[k] == F::zero_spec().minus(right@[k]),
        {
            result.push(F::zero().sub(right.0[i]));
        }
    } else {
        for i in 0..right.0.len()
            invariant
                right@.len() <= left@.len(),
                result@.len() == i,
                forall|k: int| 0 <= k < i ==> result@[k] == left@[k].minus(right@[k]),
        {
            result.push(left.0[i].sub(right.0[i]));
        }
        for i in right.0.len()..left.0.len()
            invariant
                right@.len() <= left@.len(),
                result@.len() == i,
                forall|k: int| 0 <= k < right@.len() ==> result@[k] == left@[k].minus(right@[k]),
                forall|k: int| right@.len() <= k < i ==> result@[k] == left@[k],
        {
            result.push(left.0[i]);
        }
    }
    assert(result@ =~= psub_spec(left@, right@));
    Polynomial(result)
}

impl<F: Field, const R: usize> From<Vector<F, R>> for Polynomial<F> {
    /// The polynomial whose coefficients are the entries of the vector.
    fn from(vector: Vector<F, R>) -> (p: Polynomial<F>)
        ensures
            p@ == vector@,
    {
        let array: [F; R] = vector.to_array();
        let mut result: Vec<F> = Vec::new();
        for i in 0..R
            invariant
                array@ == vector@,
                result@.len() == i,
                forall|k: int| 0 <= k < i ==> result@[k] == array@[k],
        {
            result.push(array[i]);
        }
        assert(result@ =~= vector@);
        Polynomial(result)
    }
}

/// Two polynomials with the same coefficients need not be one value to the
/// verifier, so the conversion's result is stated by its coefficients, in
/// the contract of `from`, and not as one particular polynomial.
impl<F: Field, const R: usize> vstd::std_specs::convert::FromSpecImpl<Vector<F, R>> for Polynomial<F> {
    open spec fn obeys_from_spec() -> bool {
        false
    }

    open spec fn from_spec(vector: Vector<F, R>) -> Polynomial<F> {
        polynomial_of(vector@)
    }
}

impl<F: Field> Into<Vec<F>> for Polynomial<F> {
    fn into(self) -> Vec<F> {
        self.0
    }
}

impl<F: Field> vstd::std_specs::convert::IntoSpecImpl<Vec<F>> for Polynomial<F> {
    open spec fn obeys_into_spec() -> bool {
        true
    }

    closed spec fn into_spec(self) -> Vec<F> {
        self.0
    }
}

/// The coefficients that the conversion to `Vec` hands out are those of the polynomial.
pub proof fn lemma_into_vec<F: Field>(p: Polynomial<F>)
    ensures
        vstd::std_specs::convert::IntoSpec::<Vec<F>>::into_spec(p)@ == p@,
{
}

impl<F: Field, const R: usize> Into<Vector<F, R>> for Polynomial<F> {
    /// The first `R` coefficients, with zeros where the polynomial has
    /// fewer: coefficients from index `R` on are lost.
    fn into(self) -> Vector<F, R> {
        let mut array: [F; R] = [F::zero(); R];
        let mut i: usize = 0;
        while (i < R) && (i < self.0.len())
            invariant
                i <= R,
                i <= self@.len(),
                forall|k: int| 0 <= k < i ==> array@[k] == self@[k],
                forall|k: int| i <= k < R ==> array@[k] == F::zero_spec(),
            decreases R - i,
        {
            array[i] = self.0[i];
            i += 1;
        }
        assert(array@ =~= truncate_spec(self@, R as nat));
        let vector = Vector::from(array);
        proof {
            lemma_vector_of(vector);
        }
        vector
    }
}

impl<F: Field, const R: usize> vstd::std_specs::convert::IntoSpecImpl<Vector<F, R>> for Polynomial<F> {
    open spec fn obeys_into_spec() -> bool {
        true
    }

    open spec fn into_spec(self) -> Vector<F, R> {
        vector_of(truncate_spec(self@, R as nat))
    }
}

impl<F: Field> core::ops::Add<Polynomial<F>> for Polynomial<F> {
    type Output = Polynomial<F>;

    fn add(self, right: Polynomial<F>) -> (sum: Polynomial<F>)
        ensures
            sum@ == padd_spec(self@, right@),
    {
        padd(self, right)
    }
}

/// Two polynomials with the same coefficients need not be one value to the
/// verifier, so the operator's result is stated by its coefficients, in the
/// contract of `add`, and not as one particular polynomial.
impl<F: Field> vstd::std_specs::ops::AddSpecImpl<Polynomial<F>> for Polynomial<F> {
    open spec fn obeys_add_spec() -> bool {
        false
    }

    open spec fn add_req(self, right: Polynomial<F>) -> bool {
        true
    }

    open spec fn add_spec(self, right: Polynomial<F>) -> Polynomial<F> {
        polynomial_of(padd_spec(self@, right@))
    }
}

impl<F: Field> core::ops::Sub<Polynomial<F>> for Polynomial<F> {
    type Output = Polynomial<F>;

    fn sub(self, right: Polynomial<F>) -> (difference: Polynomial<F>)
        ensures
            difference@ == psub_spec(self@, right@),
    {
        psub(self, right)
    }
}

/// Two polynomials with the same coefficients need not be one value to the
/// verifier, so the operator's result is stated by its coefficients, in the
/// contract of `sub`, and not as one particular polynomial.
impl<F: Field> vstd::std_specs::ops::SubSpecImpl<Polynomial<F>> for Polynomial<F> {
    open spec fn obeys_sub_spec() -> bool {
        false
    }

    open spec fn sub_req(self, right: Polynomial<F>) -> bool {
        true
    }

    open spec fn sub_spec(self, right: Polynomial<F>) -> Polynomial<F> {
        polynomial_of(psub_spec(self@, right@))
    }
}

impl<F: Field> core::ops::Mul<F> for Polynomial<F> {
    type Output = Polynomial<F>;

    fn mul(self, scalar: F) -> (scaled: Polynomial<F>)
        ensures
            scaled@ == pscale_spec(scalar, self@),
    {
        pscale(scalar, self)
    }
}

/// Two polynomials with the same coefficients need not be one value to the
/// verifier, so the operator's result is stated by its coefficients, in the
/// contract of `mul`, and not as one particular polynomial.
impl<F: Field> vstd::std_specs::ops::MulSpecImpl<F> for Polynomial<F> {
    open spec fn obeys_mul_spec() -> bool {
        false
    }

    open spec fn mul_req(self, scalar: F) -> bool {
        true
    }

    open spec fn mul_spec(self, scalar: F) -> Polynomial<F> {
        polynomial_of(pscale_spec(scalar, self@))
    }
}

impl<F: Field> core::ops::Div<F> for Polynomial<F> {
    type Output = Polynomial<F>;

    fn div(self, scalar: F) -> (divided: Polynomial<F>)
        ensures
            divided@ == pdiv_spec(scalar, self@),
    {
        pdiv(scalar, self)
    }
}

/// Two polynomials with the same coefficients need not be one value to the
/// verifier, so the operator's result is stated by its coefficients, in the
/// contract of `div`, and not as one particular polynomial.
impl<F: Field> vstd::std_specs::ops::DivSpecImpl<F> for Polynomial<F> {
    open spec fn obeys_div_spec() -> bool {
        false
    }

    open spec fn div_req(self, scalar: F) -> bool {
        scalar != F::zero_spec()
    }

    open spec fn div_spec(self, scalar: F) -> Polynomial<F> {
        polynomial_of(pdiv_spec(scalar, self@))
    }
}

/// Polynomial addition is commutative over a ring.
pub proof fn lemma_padd_commutes<F: Field>(a: Seq<F>, b: Seq<F>)
    requires
        ring_laws::<F>(),
    ensures
        padd_spec(a, b) == padd_spec(b, a),
{
    let left = padd_spec(a, b);
    let right = padd_spec(b, a);
    assert forall|i: int| 0 <= i < left.len() implies left[i] == right[i] by {
        if i < a.len() && i < b.len() {
            lemma_plus_commutes(a[i], b[i]);
        }
    }
    assert(left =~= right);
}

/// Polynomial addition is associative over a ring.
pub proof fn lemma_padd_associates<F: Field>(a: Seq<F>, b: Seq<F>, c: Seq<F>)
    requires
        ring_laws::<F>(),
    ensures
        padd_spec(padd_spec(a, b), c) == padd_spec(a, padd_spec(b, c)),
{
    let left = padd_spec(padd_spec(a, b), c);
    let right = padd_spec(a, padd_spec(b, c));
    assert(left.len() == right.len());
    assert forall|i: int| 0 <= i < left.len() implies left[i] == right[i] by {
        if i < a.len() && i < b.len() && i < c.len() {
            lemma_plus_commutes(a[i], b[i]);
            lemma_plus_commutes(b[i], c[i]);
            lemma_plus_commutes(a[i].plus(b[i]), c[i]);
            lemma_plus_commutes(a[i], b[i].plus(c[i]));
            lemma_plus_associates(a[i], b[i], c[i]);
        } else if i < a.len() && i < b.len() {
            lemma_plus_commutes(a[i], b[i]);
        } else if i < a.len() && i < c.len() {
            lemma_plus_commutes(a[i], c[i]);
        } else if i < b.len() && i < c.len() {
            lemma_plus_commutes(b[i], c[i]);
        }
    }
    assert(left =~= right);
}

/// The derivative of the integral of a polynomial is the polynomial, where
/// division is exact and each power that occurs, raised by one, has a scalar
/// of its own that is not zero.
pub proof fn lemma_derivative_of_integral<F: Field>(p: Seq<F>)
    requires
        exact_division::<F>(),
        indices_invertible::<F>(1, p.len() as int + 1),
    ensures
        derivative_spec(integral_spec(p)) == p,
{
    let back = derivative_spec(integral_spec(p));
    assert forall|k: int| 0 <= k < p.len() implies back[k] == p[k] by {
        assert(index_scalar::<F>(k + 1) != F::zero_spec());
        lemma_over_times(p[k], index_scalar::<F>(k + 1));
    }
    assert(back =~= p);
}

} // verus!
