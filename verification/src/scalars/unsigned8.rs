//! The type `u8` as scalars: arithmetic modulo 256, and division that
//! truncates.

use vstd::prelude::*;
use vstd::arithmetic::div_mod::lemma_div_basics_3;
use vstd::arithmetic::mul::lemma_mul_is_commutative;
use crate::field::{pivot_laws, ring_laws, Field};
use crate::scalars::residues::lemma_residues;

verus! {

/// `num::zero` at `u8`: the integer 0.
#[verifier::external_body]
fn u8_zero() -> (r: u8)
    ensures
        r == 0,
{
    num::zero::<u8>()
}

/// `num::one` at `u8`: the integer 1.
#[verifier::external_body]
fn u8_one() -> (r: u8)
    ensures
        r == 1,
{
    num::one::<u8>()
}

/// `num::cast` from `usize` to `u8`: the same number where it is at most
/// `u8::MAX`, nothing otherwise.
#[verifier::external_body]
fn u8_from_index(n: usize) -> (r: Option<u8>)
    ensures
        r == (if n <= u8::MAX { Some(n as u8) } else { None }),
{
    num::cast::<usize, u8>(n)
}

impl Field for u8 {
    open spec fn zero_spec() -> u8 {
        0
    }

    open spec fn one_spec() -> u8 {
        1
    }

    open spec fn plus(self, rhs: u8) -> u8 {
        vstd::wrapping::u8_specs::wrapping_add(self, rhs)
    }

    open spec fn minus(self, rhs: u8) -> u8 {
        vstd::wrapping::u8_specs::wrapping_sub(self, rhs)
    }

    open spec fn times(self, rhs: u8) -> u8 {
        vstd::wrapping::u8_specs::wrapping_mul(self, rhs)
    }

    open spec fn over(self, rhs: u8) -> u8 {
        (self / rhs) as u8
    }

    open spec fn from_index_spec(n: usize) -> Option<u8> {
        if n <= u8::MAX { Some(n as u8) } else { None }
    }

    fn zero() -> u8 {
        u8_zero()
    }

    fn one() -> u8 {
        u8_one()
    }

    fn add(self, rhs: u8) -> u8 {
        self.wrapping_add(rhs)
    }

    fn sub(self, rhs: u8) -> u8 {
        self.wrapping_sub(rhs)
    }

    fn mul(self, rhs: u8) -> u8 {
        self.wrapping_mul(rhs)
    }

    fn div(self, rhs: u8) -> u8 {
        self / rhs
    }

    fn same(self, rhs: u8) -> bool {
        self == rhs
    }

    fn from_index(n: usize) -> Option<u8> {
        u8_from_index(n)
    }
}

/// The sum and the product of two scalars are those of the whole numbers,
/// modulo 256.
#[verifier::spinoff_prover]
pub proof fn lemma_u8_residues(a: u8, b: u8)
    ensures
        a.plus(b) as int == (a as int + b as int) % 0x100,
        a.times(b) as int == (a as int * b as int) % 0x100,
        a.times(b) == b.times(a),
{
    let product = a as int * b as int;
    lemma_mul_is_commutative(a as int, b as int);
    assert(a as nat * b as nat == product);
    assert(b as nat * a as nat == product);
}

/// Multiplication associates.
#[verifier::spinoff_prover]
pub proof fn lemma_u8_times_associates(a: u8, b: u8, c: u8)
    ensures
        a.times(b).times(c) == a.times(b.times(c)),
{
    let p = a.times(b);
    let q = b.times(c);
    lemma_u8_residues(a, b);
    lemma_u8_residues(b, c);
    lemma_u8_residues(p, c);
    lemma_u8_residues(a, q);
    lemma_residues(a as int, b as int, c as int, 0x100);
    assert(p.times(c) as int == a.times(q) as int);
}

/// Multiplication distributes over addition.
#[verifier::spinoff_prover]
pub proof fn lemma_u8_distributes(a: u8, b: u8, c: u8)
    ensures
        a.times(b.plus(c)) == a.times(b).plus(a.times(c)),
{
    let p = a.times(b);
    let r = a.times(c);
    let s = b.plus(c);
    lemma_u8_residues(a, b);
    lemma_u8_residues(a, c);
    lemma_u8_residues(b, c);
    lemma_u8_residues(a, s);
    lemma_u8_residues(p, r);
    lemma_residues(a as int, b as int, c as int, 0x100);
    assert(a.times(s) as int == p.plus(r) as int);
}

/// The type `u8`, with wrapping arithmetic, obeys the laws of a ring.
#[verifier::spinoff_prover]
pub proof fn lemma_u8_ring()
    ensures
        ring_laws::<u8>(),
{
    assert forall|a: u8, b: u8| #[trigger] a.times(b) == b.times(a) by {
        lemma_u8_residues(a, b);
    }
    assert forall|a: u8, b: u8, c: u8| #[trigger]
        a.times(b).times(c) == a.times(b.times(c)) by {
        lemma_u8_times_associates(a, b, c);
    }
    assert forall|a: u8, b: u8, c: u8| #[trigger]
        a.times(b.plus(c)) == a.times(b).plus(a.times(c)) by {
        lemma_u8_distributes(a, b, c);
    }
    assert forall|a: u8| #[trigger] a.times(1) == a by {
        lemma_u8_residues(a, 1);
        assert(a as int * 1 == a as int);
    }
    reveal(ring_laws);
}

/// The type `u8`, with truncating division, obeys the pivot laws.
pub proof fn lemma_u8_pivots()
    ensures
        pivot_laws::<u8>(),
{
    assert forall|a: u8| a != 0 implies #[trigger] a.over(a) == 1 by {
        lemma_div_basics_3(a as int);
    }
    reveal(pivot_laws);
}

} // verus!
