//! The type `u128` as scalars: arithmetic modulo two to the 128, and division that
//! truncates.

use vstd::prelude::*;
use vstd::arithmetic::div_mod::lemma_div_basics_3;
use vstd::arithmetic::mul::lemma_mul_is_commutative;
use crate::field::{pivot_laws, ring_laws, Field};
use crate::scalars::residues::lemma_residues;

verus! {

/// `num::zero` at `u128`: the integer 0.
#[verifier::external_body]
fn u128_zero() -> (r: u128)
    ensures
        r == 0,
{
    num::zero::<u128>()
}

/// `num::one` at `u128`: the integer 1.
#[verifier::external_body]
fn u128_one() -> (r: u128)
    ensures
        r == 1,
{
    num::one::<u128>()
}

/// `num::cast` from `usize` to `u128`: always the same number, since a
/// machine word has at most 64 bits.
#[verifier::external_body]
fn u128_from_index(n: usize) -> (r: Option<u128>)
    ensures
        r == Some(n as u128),
{
    num::cast::<usize, u128>(n)
}

impl Field for u128 {
    open spec fn zero_spec() -> u128 {
        0
    }

    open spec fn one_spec() -> u128 {
        1
    }

    open spec fn plus(self, rhs: u128) -> u128 {
        vstd::wrapping::u128_specs::wrapping_add(self, rhs)
    }

    open spec fn minus(self, rhs: u128) -> u128 {
        vstd::wrapping::u128_specs::wrapping_sub(self, rhs)
    }

    open spec fn times(self, rhs: u128) -> u128 {
        vstd::wrapping::u128_specs::wrapping_mul(self, rhs)
    }

    open spec fn over(self, rhs: u128) -> u128 {
        (self / rhs) as u128
    }

    open spec fn from_index_spec(n: usize) -> Option<u128> {
        Some(n as u128)
    }

    fn zero() -> u128 {
        u128_zero()
    }

    fn one() -> u128 {
        u128_one()
    }

    fn add(self, rhs: u128) -> u128 {
        self.wrapping_add(rhs)
    }

    fn sub(self, rhs: u128) -> u128 {
        self.wrapping_sub(rhs)
    }

    fn mul(self, rhs: u128) -> u128 {
        self.wrapping_mul(rhs)
    }

    fn div(self, rhs: u128) -> u128 {
        self / rhs
    }

    fn same(self, rhs: u128) -> bool {
        self == rhs
    }

    fn from_index(n: usize) -> Option<u128> {
        u128_from_index(n)
    }
}

/// The sum and the product of two scalars are those of the whole numbers,
/// modulo two to the 128.
#[verifier::spinoff_prover]
pub proof fn lemma_u128_residues(a: u128, b: u128)
    ensures
        a.plus(b) as int == (a as int + b as int) % (u128::MAX + 1),
        a.times(b) as int == (a as int * b as int) % (u128::MAX + 1),
        a.times(b) == b.times(a),
{
    let product = a as int * b as int;
    lemma_mul_is_commutative(a as int, b as int);
    assert(a as nat * b as nat == product);
    assert(b as nat * a as nat == product);
}

/// Multiplication associates.
#[verifier::spinoff_prover]
pub proof fn lemma_u128_times_associates(a: u128, b: u128, c: u128)
    ensures
        a.times(b).times(c) == a.times(b.times(c)),
{
    let p = a.times(b);
    let q = b.times(c);
    lemma_u128_residues(a, b);
    lemma_u128_residues(b, c);
    lemma_u128_residues(p, c);
    lemma_u128_residues(a, q);
    lemma_residues(a as int, b as int, c as int, (u128::MAX + 1));
    assert(p.times(c) as int == a.times(q) as int);
}

/// Multiplication distributes over addition.
#[verifier::spinoff_prover]
pub proof fn lemma_u128_distributes(a: u128, b: u128, c: u128)
    ensures
        a.times(b.plus(c)) == a.times(b).plus(a.times(c)),
{
    let p = a.times(b);
    let r = a.times(c);
    let s = b.plus(c);
    lemma_u128_residues(a, b);
    lemma_u128_residues(a, c);
    lemma_u128_residues(b, c);
    lemma_u128_residues(a, s);
    lemma_u128_residues(p, r);
    lemma_residues(a as int, b as int, c as int, (u128::MAX + 1));
    assert(a.times(s) as int == p.plus(r) as int);
}

/// The type `u128`, with wrapping arithmetic, obeys the laws of a ring.
#[verifier::spinoff_prover]
pub proof fn lemma_u128_ring()
    ensures
        ring_laws::<u128>(),
{
    assert forall|a: u128, b: u128| #[trigger] a.times(b) == b.times(a) by {
        lemma_u128_residues(a, b);
    }
    assert forall|a: u128, b: u128, c: u128| #[trigger]
        a.times(b).times(c) == a.times(b.times(c)) by {
        lemma_u128_times_associates(a, b, c);
    }
    assert forall|a: u128, b: u128, c: u128| #[trigger]
        a.times(b.plus(c)) == a.times(b).plus(a.times(c)) by {
        lemma_u128_distributes(a, b, c);
    }
    assert forall|a: u128| #[trigger] a.times(1) == a by {
        lemma_u128_residues(a, 1);
        assert(a as int * 1 == a as int);
    }
    reveal(ring_laws);
}

/// The type `u128`, with truncating division, obeys the pivot laws.
pub proof fn lemma_u128_pivots()
    ensures
        pivot_laws::<u128>(),
{
    assert forall|a: u128| a != 0 implies #[trigger] a.over(a) == 1 by {
        lemma_div_basics_3(a as int);
    }
    reveal(pivot_laws);
}

} // verus!
