//! The scalar abstraction that every vector, matrix and polynomial is built over.

use vstd::prelude::*;

verus! {

/// A scalar type: two distinguished elements, the four arithmetic operations,
/// equality, and the scalars that stand for the natural numbers.
///
/// Each operation is described by a specification function, and the executable
/// method computes exactly that function. Division is only ever asked for a
/// divisor that differs from zero. Nothing is demanded of how the operations
/// relate to one another: the algebraic laws that some results rest on are the
/// predicates [`ring_laws`], [`pivot_laws`] and [`exact_division`].
pub trait Field: Copy + Sized {
    /// The additive identity.
    spec fn zero_spec() -> Self;

    /// The multiplicative identity.
    spec fn one_spec() -> Self;

    /// The sum of two scalars.
    spec fn plus(self, rhs: Self) -> Self;

    /// The difference of two scalars.
    spec fn minus(self, rhs: Self) -> Self;

    /// The product of two scalars.
    spec fn times(self, rhs: Self) -> Self;

    /// The quotient of two scalars; meaningful where `rhs` is not zero.
    spec fn over(self, rhs: Self) -> Self;

    /// The scalar that stands for the natural number `n`, where the type can hold it.
    spec fn from_index_spec(n: usize) -> Option<Self>;

    /// The additive identity.
    fn zero() -> (r: Self)
        ensures
            r == Self::zero_spec(),
    ;

    /// The multiplicative identity.
    fn one() -> (r: Self)
        ensures
            r == Self::one_spec(),
    ;

    /// The sum of two scalars.
    fn add(self, rhs: Self) -> (r: Self)
        ensures
            r == self.plus(rhs),
    ;

    /// The difference of two scalars.
    fn sub(self, rhs: Self) -> (r: Self)
        ensures
            r == self.minus(rhs),
    ;

    /// The product of two scalars.
    fn mul(self, rhs: Self) -> (r: Self)
        ensures
            r == self.times(rhs),
    ;

    /// The quotient of two scalars; the divisor must not be zero.
    fn div(self, rhs: Self) -> (r: Self)
        requires
            rhs != Self::zero_spec(),
        ensures
            r == self.over(rhs),
    ;

    /// Tells whether two scalars are the same element.
    fn same(self, rhs: Self) -> (r: bool)
        ensures
            r == (self == rhs),
    ;

    /// The scalar that stands for `n`, or nothing where the type cannot hold it.
    fn from_index(n: usize) -> (r: Option<Self>)
        ensures
            r == Self::from_index_spec(n),
    ;
}

/// Addition and multiplication make `F` a commutative ring with identity, and
/// subtraction undoes addition.
#[verifier::opaque]
pub open spec fn ring_laws<F: Field>() -> bool {
    &&& forall|a: F, b: F| a.plus(b) == b.plus(a)
    &&& forall|a: F, b: F, c: F| a.plus(b).plus(c) == a.plus(b.plus(c))
    &&& forall|a: F| a.plus(F::zero_spec()) == a
    &&& forall|a: F, b: F| a.minus(b).plus(b) == a
    &&& forall|a: F, b: F| a.times(b) == b.times(a)
    &&& forall|a: F, b: F, c: F| a.times(b).times(c) == a.times(b.times(c))
    &&& forall|a: F| a.times(F::one_spec()) == a
    &&& forall|a: F, b: F, c: F| a.times(b.plus(c)) == a.times(b).plus(a.times(c))
}

/// What row reduction asks of division: one is not zero, a non-zero scalar
/// divided by itself is one, and dividing by one changes nothing.
#[verifier::opaque]
pub open spec fn pivot_laws<F: Field>() -> bool {
    &&& F::one_spec() != F::zero_spec()
    &&& forall|a: F| a != F::zero_spec() ==> a.over(a) == F::one_spec()
    &&& forall|a: F| a.over(F::one_spec()) == a
}

/// Division by a non-zero scalar undoes multiplication by it.
#[verifier::opaque]
pub open spec fn exact_division<F: Field>() -> bool {
    forall|a: F, b: F| b != F::zero_spec() ==> a.over(b).times(b) == a
}

/// `F` is a field: a commutative ring in which one is not zero and every
/// non-zero scalar can be divided by.
pub open spec fn field_laws<F: Field>() -> bool {
    &&& ring_laws::<F>()
    &&& exact_division::<F>()
    &&& F::one_spec() != F::zero_spec()
}

/// Addition commutes in a ring.
pub proof fn lemma_plus_commutes<F: Field>(a: F, b: F)
    requires
        ring_laws::<F>(),
    ensures
        a.plus(b) == b.plus(a),
{
    reveal(ring_laws);
}

/// Addition associates in a ring.
pub proof fn lemma_plus_associates<F: Field>(a: F, b: F, c: F)
    requires
        ring_laws::<F>(),
    ensures
        a.plus(b).plus(c) == a.plus(b.plus(c)),
{
    reveal(ring_laws);
}

/// Zero is neutral for addition, on either side.
pub proof fn lemma_plus_zero<F: Field>(a: F)
    requires
        ring_laws::<F>(),
    ensures
        a.plus(F::zero_spec()) == a,
        F::zero_spec().plus(a) == a,
{
    reveal(ring_laws);
}

/// Subtraction undoes addition: `(a - b) + b` is `a`.
pub proof fn lemma_minus_plus<F: Field>(a: F, b: F)
    requires
        ring_laws::<F>(),
    ensures
        a.minus(b).plus(b) == a,
{
    reveal(ring_laws);
}

/// Multiplication commutes in a ring.
pub proof fn lemma_times_commutes<F: Field>(a: F, b: F)
    requires
        ring_laws::<F>(),
    ensures
        a.times(b) == b.times(a),
{
    reveal(ring_laws);
}

/// Multiplication associates in a ring.
pub proof fn lemma_times_associates<F: Field>(a: F, b: F, c: F)
    requires
        ring_laws::<F>(),
    ensures
        a.times(b).times(c) == a.times(b.times(c)),
{
    reveal(ring_laws);
}

/// One is neutral for multiplication, on either side.
pub proof fn lemma_times_one<F: Field>(a: F)
    requires
        ring_laws::<F>(),
    ensures
        a.times(F::one_spec()) == a,
        F::one_spec().times(a) == a,
{
    reveal(ring_laws);
}

/// Multiplication distributes over addition, from either side.
pub proof fn lemma_distributes<F: Field>(a: F, b: F, c: F)
    requires
        ring_laws::<F>(),
    ensures
        a.times(b.plus(c)) == a.times(b).plus(a.times(c)),
        b.plus(c).times(a) == b.times(a).plus(c.times(a)),
{
    reveal(ring_laws);
}

/// A summand that stands on the right of both sides of an equation can be dropped.
pub proof fn lemma_plus_cancels<F: Field>(a: F, b: F, c: F)
    requires
        ring_laws::<F>(),
        a.plus(c) == b.plus(c),
    ensures
        a == b,
{
    let n = F::zero_spec().minus(c);
    lemma_minus_plus(F::zero_spec(), c);
    lemma_plus_commutes(n, c);
    lemma_plus_associates(a, c, n);
    lemma_plus_associates(b, c, n);
    lemma_plus_zero(a);
    lemma_plus_zero(b);
}

/// Subtracting zero changes nothing, and a scalar minus itself is zero.
pub proof fn lemma_minus_basics<F: Field>(a: F)
    requires
        ring_laws::<F>(),
    ensures
        a.minus(F::zero_spec()) == a,
        a.minus(a) == F::zero_spec(),
{
    lemma_minus_plus(a, F::zero_spec());
    lemma_plus_zero(a.minus(F::zero_spec()));
    lemma_minus_plus(a, a);
    lemma_plus_zero(a);
    lemma_plus_cancels(a.minus(a), F::zero_spec(), a);
}

/// Zero times anything is zero, on either side.
pub proof fn lemma_times_zero<F: Field>(a: F)
    requires
        ring_laws::<F>(),
    ensures
        a.times(F::zero_spec()) == F::zero_spec(),
        F::zero_spec().times(a) == F::zero_spec(),
{
    let z = F::zero_spec();
    lemma_plus_zero(z);
    lemma_distributes(a, z, z);
    lemma_plus_zero(a.times(z));
    lemma_plus_cancels(a.times(z), z, a.times(z));
    lemma_times_commutes(a, z);
}

/// What [`pivot_laws`] says, for one scalar.
pub proof fn lemma_pivot_laws<F: Field>(a: F)
    requires
        pivot_laws::<F>(),
    ensures
        F::one_spec() != F::zero_spec(),
        a != F::zero_spec() ==> a.over(a) == F::one_spec(),
        a.over(F::one_spec()) == a,
{
    reveal(pivot_laws);
}

/// What [`exact_division`] says, for one quotient.
pub proof fn lemma_over_times<F: Field>(a: F, b: F)
    requires
        exact_division::<F>(),
        b != F::zero_spec(),
    ensures
        a.over(b).times(b) == a,
{
    reveal(exact_division);
}

/// A field obeys the laws that row reduction asks of division.
pub proof fn lemma_field_has_pivot_laws<F: Field>()
    requires
        field_laws::<F>(),
    ensures
        pivot_laws::<F>(),
{
    let one = F::one_spec();
    assert forall|a: F| a != F::zero_spec() implies a.over(a) == one by {
        // (a / a) * a == a == 1 * a, and a can be cancelled through its inverse 1 / a.
        let inv = one.over(a);
        lemma_over_times(a, a);
        lemma_over_times(one, a);
        lemma_times_commutes(inv, a);
        lemma_times_associates(a.over(a), a, inv);
        lemma_times_one(a.over(a));
    }
    assert forall|a: F| a.over(one) == a by {
        lemma_over_times(a, one);
        lemma_times_one(a.over(one));
    }
    reveal(pivot_laws);
}

/// The difference is the one scalar that gives `a` when `b` is added to it.
pub proof fn lemma_minus_unique<F: Field>(z: F, a: F, b: F)
    requires
        ring_laws::<F>(),
        z.plus(b) == a,
    ensures
        z == a.minus(b),
{
    lemma_minus_plus(a, b);
    lemma_plus_cancels(z, a.minus(b), b);
}

/// Four summands can be paired either way: `(p + q) + (r + t)` is `(p + r) + (q + t)`.
pub proof fn lemma_plus_interchange<F: Field>(p: F, q: F, r: F, t: F)
    requires
        ring_laws::<F>(),
    ensures
        p.plus(q).plus(r.plus(t)) == p.plus(r).plus(q.plus(t)),
{
    lemma_plus_associates(p, q, r.plus(t));
    lemma_plus_associates(q, r, t);
    lemma_plus_commutes(q, r);
    lemma_plus_associates(r, q, t);
    lemma_plus_associates(p, r, q.plus(t));
}

/// Multiplication distributes over subtraction, from either side.
pub proof fn lemma_distributes_minus<F: Field>(a: F, b: F, c: F)
    requires
        ring_laws::<F>(),
    ensures
        a.times(b.minus(c)) == a.times(b).minus(a.times(c)),
        b.minus(c).times(a) == b.times(a).minus(c.times(a)),
{
    lemma_minus_plus(b, c);
    lemma_distributes(a, b.minus(c), c);
    lemma_minus_unique(a.times(b.minus(c)), a.times(b), a.times(c));
    lemma_minus_unique(b.minus(c).times(a), b.times(a), c.times(a));
}

/// `(x - y) + (z + y)` is `x + z`.
pub proof fn lemma_minus_then_plus<F: Field>(x: F, y: F, z: F)
    requires
        ring_laws::<F>(),
    ensures
        x.minus(y).plus(z.plus(y)) == x.plus(z),
{
    lemma_plus_commutes(z, y);
    lemma_plus_associates(x.minus(y), y, z);
    lemma_minus_plus(x, y);
}

/// In a field, dividing is multiplying by the inverse: `a / b` is `a * (1 / b)`,
/// and `1 / b` times `b` is one, on either side.
pub proof fn lemma_over_is_times_inverse<F: Field>(a: F, b: F)
    requires
        field_laws::<F>(),
        b != F::zero_spec(),
    ensures
        a.over(b) == a.times(F::one_spec().over(b)),
        F::one_spec().over(b).times(b) == F::one_spec(),
        b.times(F::one_spec().over(b)) == F::one_spec(),
{
    let one = F::one_spec();
    let inv = one.over(b);
    lemma_over_times(one, b);
    lemma_times_commutes(inv, b);
    lemma_over_times(a, b);
    // a / b == (a / b) * (b * inv) == ((a / b) * b) * inv == a * inv
    lemma_times_one(a.over(b));
    lemma_times_associates(a.over(b), b, inv);
}

} // verus!
