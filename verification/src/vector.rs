//! Fixed-length vectors and their arithmetic.

use vstd::prelude::*;
use crate::algebra::{dot_spec, lemma_dot_symmetric, products, sum_to};
use crate::error::Error;
use crate::field::{ring_laws, Field};
use crate::matrix::Matrix;

verus! {

/// An ordered sequence of `R` scalars. Its view is the sequence of its entries.
#[derive(Debug, Copy, Clone, PartialEq)]
pub struct Vector<F: Field, const R: usize>([F; R]);

impl<F: Field, const R: usize> View for Vector<F, R> {
    type V = Seq<F>;

    closed spec fn view(&self) -> Seq<F> {
        self.0@
    }
}

/// The vector whose entries are those of `s`, a sequence of length `R`.
pub open spec fn vector_of<F: Field, const R: usize>(s: Seq<F>) -> Vector<F, R> {
    choose|v: Vector<F, R>| v@ == s
}

/// A vector has `R` entries and is determined by them.
pub proof fn lemma_vector_of<F: Field, const R: usize>(v: Vector<F, R>)
    ensures
        v@.len() == R,
        vector_of::<F, R>(v@) == v,
{
    let w = vector_of::<F, R>(v@);
    assert(w@ == v@);
    assert(w.0 =~= v.0);
}

/// Every entry of `v` multiplied by `scalar` from the left.
pub open spec fn vscale_spec<F: Field>(scalar: F, v: Seq<F>) -> Seq<F> {
    Seq::new(v.len(), |i: int| scalar.times(v[i]))
}

/// Every entry of `v` divided by `scalar`.
pub open spec fn vdiv_spec<F: Field>(scalar: F, v: Seq<F>) -> Seq<F> {
    Seq::new(v.len(), |i: int| v[i].over(scalar))
}

/// The sums of the entries of two sequences, index by index.
pub open spec fn vadd_spec<F: Field>(left: Seq<F>, right: Seq<F>) -> Seq<F> {
    Seq::new(left.len(), |i: int| left[i].plus(right[i]))
}

/// The differences of the entries of two sequences, index by index.
pub open spec fn vsub_spec<F: Field>(left: Seq<F>, right: Seq<F>) -> Seq<F> {
    Seq::new(left.len(), |i: int| left[i].minus(right[i]))
}

/// The single-column grid that holds the entries of `v` from top to bottom.
pub open spec fn column_of<F>(v: Seq<F>) -> Seq<Seq<F>> {
    Seq::new(v.len(), |i: int| seq![v[i]])
}

impl<F: Field, const R: usize> Vector<F, R> {
    /// The vector with the given entries.
    pub fn from(array: [F; R]) -> (v: Vector<F, R>)
        ensures
            v@ == array@,
    {
        Vector(array)
    }

    /// The entries, as an array.
    pub fn to_array(&self) -> (array: [F; R])
        ensures
            array@ == self@,
    {
        self.0
    }

    /// The number of entries.
    pub fn len(&self) -> (n: usize)
        ensures
            n == R,
            self@.len() == R,
    {
        R
    }

    /// The entry at `index`, or `IndexOutOfRange`.
    pub fn get(&self, index: usize) -> (entry: Result<F, Error>)
        ensures
            index < R ==> entry == Ok::<F, Error>(self@[index as int]),
            index >= R ==> entry == Err::<F, Error>(Error::IndexOutOfRange),
    {
        if index < R {
            Ok(self.0[index])
        } else {
            Err(Error::IndexOutOfRange)
        }
    }

    /// Replaces the entry at `index` by `value`; where `index` is out of
    /// range the vector stays as it is and the result is `IndexOutOfRange`.
    pub fn set(&mut self, index: usize, value: F) -> (done: Result<(), Error>)
        ensures
            index < R ==> done == Ok::<(), Error>(()) && final(self)@ == old(self)@.update(
                index as int,
                value,
            ),
            index >= R ==> done == Err::<(), Error>(Error::IndexOutOfRange) && *final(self)
                == *old(self),
    {
        if index < R {
            self.0[index] = value;
            Ok(())
        } else {
            Err(Error::IndexOutOfRange)
        }
    }

    /// The vector as a matrix of one column.
    pub fn to_matrix(&self) -> (m: Matrix<F, R, 1>)
        ensures
            m@ == column_of(self@),
    {
        let mut column: [[F; 1]; R] = [[F::zero(); 1]; R];
        for i in 0..R
            invariant
                forall|k: int| 0 <= k < i ==> column@[k]@ == seq![self.0@[k]],
        {
            column[i][0] = self.0[i];
            assert(column@[i as int]@ =~= seq![self.0@[i as int]]);
        }
        assert(crate::matrix::grid(column) =~~= column_of(self@));
        Matrix::from(column)
    }
}

/// Every entry of the vector multiplied by `scalar` from the left.
pub fn vscale<F: Field, const R: usize>(scalar: F, vector: Vector<F, R>) -> (scaled: Vector<F, R>)
    ensures
        scaled@ == vscale_spec(scalar, vector@),
{
    let mut result: [F; R] = [F::zero(); R];
    for i in 0..R
        invariant
            forall|k: int| 0 <= k < i ==> result@[k] == scalar.times(vector.0@[k]),
    {
        result[i] = scalar.mul(vector.0[i]);
    }
    Vector::from(result)
}

/// Every entry of the vector divided by `scalar`, which must not be zero.
pub fn vdiv<F: Field, const R: usize>(scalar: F, vector: Vector<F, R>) -> (divided: Vector<F, R>)
    requires
        scalar != F::zero_spec(),
    ensures
        divided@ == vdiv_spec(scalar, vector@),
{
    let mut result: [F; R] = [F::zero(); R];
    for i in 0..R
        invariant
            scalar != F::zero_spec(),
            forall|k: int| 0 <= k < i ==> result@[k] == vector.0@[k].over(scalar),
    {
        result[i] = vector.0[i].div(scalar);
    }
    Vector::from(result)
}

/// The sum of two vectors, entry by entry.
pub fn vadd<F: Field, const R: usize>(left: Vector<F, R>, right: Vector<F, R>) -> (sum: Vector<F, R>)
    ensures
        sum@ == vadd_spec(left@, right@),
{
    let mut result: [F; R] = [F::zero(); R];
    for i in 0..R
        invariant
            forall|k: int| 0 <= k < i ==> result@[k] == left.0@[k].plus(right.0@[k]),
    {
        result[i] = left.0[i].add(right.0[i]);
    }
    Vector::from(result)
}

/// The difference of two vectors, entry by entry.
pub fn vsub<F: Field, const R: usize>(left: Vector<F, R>, right: Vector<F, R>) -> (difference:
    Vector<F, R>)
    ensures
        difference@ == vsub_spec(left@, right@),
{
    let mut result: [F; R] = [F::zero(); R];
    for i in 0..R
        invariant
            forall|k: int| 0 <= k < i ==> result@[k] == left.0@[k].minus(right.0@[k]),
    {
        result[i] = left.0[i].sub(right.0[i]);
    }
    Vector::from(result)
}

/// The dot product: the products of the entries, index by index, added up
/// from the left. Over a ring it is symmetric.
pub fn dot<F: Field, const R: usize>(left: Vector<F, R>, right: Vector<F, R>) -> (product: F)
    ensures
        product == dot_spec(left@, right@),
        ring_laws::<F>() ==> product == dot_spec(right@, left@),
{
    proof {
        lemma_vector_of(left);
        lemma_vector_of(right);
        if ring_laws::<F>() {
            lemma_dot_symmetric(left@, right@);
        }
    }
    let mut product: F = F::zero();
    for i in 0..R
        invariant
            product == sum_to(products(left@, right@), i as nat),
    {
        product = product.add(left.0[i].mul(right.0[i]));
    }
    product
}

impl<F: Field, const R: usize> core::ops::Add<Vector<F, R>> for Vector<F, R> {
    type Output = Vector<F, R>;

    fn add(self, right: Vector<F, R>) -> (sum: Vector<F, R>)
        ensures
            sum@ == vadd_spec(self@, right@),
    {
        let sum = vadd(self, right);
        proof {
            lemma_vector_of(sum);
        }
        sum
    }
}

impl<F: Field, const R: usize> vstd::std_specs::ops::AddSpecImpl<Vector<F, R>> for Vector<F, R> {
    open spec fn obeys_add_spec() -> bool {
        true
    }

    open spec fn add_req(self, right: Vector<F, R>) -> bool {
        true
    }

    open spec fn add_spec(self, right: Vector<F, R>) -> Vector<F, R> {
        vector_of(vadd_spec(self@, right@))
    }
}

impl<F: Field, const R: usize> core::ops::Sub<Vector<F, R>> for Vector<F, R> {
    type Output = Vector<F, R>;

    fn sub(self, right: Vector<F, R>) -> (difference: Vector<F, R>)
        ensures
            difference@ == vsub_spec(self@, right@),
    {
        let difference = vsub(self, right);
        proof {
            lemma_vector_of(difference);
        }
        difference
    }
}

impl<F: Field, const R: usize> vstd::std_specs::ops::SubSpecImpl<Vector<F, R>> for Vector<F, R> {
    open spec fn obeys_sub_spec() -> bool {
        true
    }

    open spec fn sub_req(self, right: Vector<F, R>) -> bool {
        true
    }

    open spec fn sub_spec(self, right: Vector<F, R>) -> Vector<F, R> {
        vector_of(vsub_spec(self@, right@))
    }
}

impl<F: Field, const R: usize> core::ops::Mul<F> for Vector<F, R> {
    type Output = Vector<F, R>;

    fn mul(self, scalar: F) -> (scaled: Vector<F, R>)
        ensures
            scaled@ == vscale_spec(scalar, self@),
    {
        let scaled = vscale(scalar, self);
        proof {
            lemma_vector_of(scaled);
        }
        scaled
    }
}

impl<F: Field, const R: usize> vstd::std_specs::ops::MulSpecImpl<F> for Vector<F, R> {
    open spec fn obeys_mul_spec() -> bool {
        true
    }

    open spec fn mul_req(self, scalar: F) -> bool {
        true
    }

    open spec fn mul_spec(self, scalar: F) -> Vector<F, R> {
        vector_of(vscale_spec(scalar, self@))
    }
}

impl<F: Field, const R: usize> core::ops::Div<F> for Vector<F, R> {
    type Output = Vector<F, R>;

    fn div(self, scalar: F) -> (divided: Vector<F, R>)
        ensures
            divided@ == vdiv_spec(scalar, self@),
    {
        let divided = vdiv(scalar, self);
        proof {
            lemma_vector_of(divided);
        }
        divided
    }
}

impl<F: Field, const R: usize> vstd::std_specs::ops::DivSpecImpl<F> for Vector<F, R> {
    open spec fn obeys_div_spec() -> bool {
        true
    }

    open spec fn div_req(self, scalar: F) -> bool {
        scalar != F::zero_spec()
    }

    open spec fn div_spec(self, scalar: F) -> Vector<F, R> {
        vector_of(vdiv_spec(scalar, self@))
    }
}

impl<F: Field, const R: usize> core::ops::Mul<Vector<F, R>> for Vector<F, R> {
    type Output = F;

    fn mul(self, right: Vector<F, R>) -> (product: F) {
        dot(self, right)
    }
}

impl<F: Field, const R: usize> vstd::std_specs::ops::MulSpecImpl<Vector<F, R>> for Vector<F, R> {
    open spec fn obeys_mul_spec() -> bool {
        true
    }

    open spec fn mul_req(self, right: Vector<F, R>) -> bool {
        true
    }

    open spec fn mul_spec(self, right: Vector<F, R>) -> F {
        dot_spec(self@, right@)
    }
}

} // verus!
