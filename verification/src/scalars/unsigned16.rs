//! The type `u16` as scalars: arithmetic modulo two to the 16, and division that
//! truncates.

use vstd::prelude::*;
use vstd::arithmetic::div_mod::lemma_div_basics_3;
use vstd::arithmetic::mul::lemma_mul_is_commutative;
use crate::field::{pivot_laws, ring_laws, Field};
use crate::scalars::residues::lemma_residues;

verus! {

/// `num::zero` at `u16`: the integer 0.
#[verifier::external_body]
fn u16_zero() -> (r: u16)
    ensures
        r == 0,
{
    num::zero::<u16>()
}

/// `num::one` at `u16`: the integer 1.
#[verifier::external_body]
fn u16_one() -> (r: u16)
    ensures
        r == 1,
{
    num::one::<u16>()
}

/// `num::cast` from `usize` to `u16`: the same number where it is at most
/// `u16::MAX`, nothing otherwise.
#[verifier::external_body]
fn u16_from_index(n: usize) -> (r: Option<u16>)
    ensures
        r == (if n <= u16::MAX { Some(n as u16) } else { None }),
{
    num::cast::<usize, u16>(n)
}

impl Field for u16 {
    open spec fn zero_spec() -> u16 {
        0
    }

    open spec fn one_spec() -> u16 {
        1
    }

    open spec fn plus(self, rhs: u16) -> u16 {
        vstd::wrapping::u16_specs::wrapping_add(self, rhs)
    }

    open spec fn minus(self, rhs: u16) -> u16 {
        vstd::wrapping::u16_specs::wrapping_sub(self, rhs)
    }

    open spec fn times(self, rhs: u16) -> u16 {
        vstd::wrapping::u16_specs::wrapping_mul(self, rhs)
    }

    open spec fn over(self, rhs: u16) -> u16 {
        (self / rhs) as u16
    }

    open spec fn from_index_spec(n: usize) -> Option<u16> {
        if n <= u16::MAX { Some(n as u16) } else { None }
    }

    fn zero() -> u16 {
        u16_zero()
    }

    fn one() -> u16 {
        u16_one()
    }

    fn add(self, rhs: u16) -> u16 {
        self.wrapping_add(rhs)
    }

    fn sub(self, rhs: u16) -> u16 {
        self.wrapping_sub(rhs)
    }

    fn mul(self, rhs: u16) -> u16 {
        self.wrapping_mul(rhs)
    }

    fn div(self, rhs: u16) -> u16 {
        self / rhs
    }

    fn same(self, rhs: u16) -> bool {
        self == rhs
    }

    fn from_index(n: usize) -> Option<u16> {
        u16_from_index(n)
    }
}

/// The sum and the product of two scalars are those of the whole numbers,
/// modulo two to the 16.
#[verifier::spinoff_prover]
pub proof fn lemma_u16_residues(a: u16, b: u16)
    ensures
        a.plus(b) as int == (a as int + b as int) % 0x1_0000,
        a.times(b) as int == (a as int * b as int) % 0x1_0000,
        a.times(b) == b.times(a),
{
    let product = a as int * b as int;
    lemma_mul_is_commutative(a as int, b as int);
    assert(a as nat * b as nat == product);
    assert(b as nat * a as nat == product);
}

/// Multiplication associates.
#[verifier::spinoff_prover]
pub proof fn lemma_u16_times_associates(a: u16, b: u16, c: u16)
    ensures
        a.times(b).times(c) == a.times(b.times(c)),
{
    let p = a.times(b);
    let q = b.times(c);
    lemma_u16_residues(a, b);
    lemma_u16_residues(b, c);
    lemma_u16_residues(p, c);
    lemma_u16_residues(a, q);
    lemma_residues(a as int, b as int, c as int, 0x1_0000);
    assert(p.times(c) as int == a.times(q) as int);
}

/// Multiplication distributes over addition.
#[verifier::spinoff_prover]
pub proof fn lemma_u16_distributes(a: u16, b: u16, c: u16)
    ensures
        a.times(b.plus(c)) == a.times(b).plus(a.times(c)),
{
    let p = a.times(b);
    let r = a.times(c);
    let s = b.plus(c);
    lemma_u16_residues(a, b);
    lemma_u16_residues(a, c);
    lemma_u16_residues(b, c);
    lemma_u16_residues(a, s);
    lemma_u16_residues(p, r);
    lemma_residues(a as int, b as int, c as int, 0x1_0000);
    assert(a.times(s) as int == p.plus(r) as int);
}

/// The type `u16`, with wrapping arithmetic, obeys the laws of a ring.
#[verifier::spinoff_prover]
pub proof fn lemma_u16_ring()
    ensures
        ring_laws::<u16>(),
{
    assert forall|a: u16, b: u16| #[trigger] a.times(b) == b.times(a) by {
        lemma_u16_residues(a, b);
    }
    assert forall|a: u16, b: u16, c: u16| #[trigger]
        a.times(b).times(c) == a.times(b.times(c)) by {
        lemma_u16_times_associates(a, b, c);
    }
    assert forall|a: u16, b: u16, c: u16| #[trigger]
        a.times(b.plus(c)) == a.times(b).plus(a.times(c)) by {
        lemma_u16_distributes(a, b, c);
    }
    assert forall|a: u16| #[trigger] a.times(1) == a by {
        lemma_u16_residues(a, 1);
        assert(a as int * 1 == a as int);
    }
    reveal(ring_laws);
}

/// The type `u16`, with truncating division, obeys the pivot laws.
pub proof fn lemma_u16_pivots()
    ensures
        pivot_laws::<u16>(),
{
    assert forall|a: u16| a != 0 implies #[trigger] a.over(a) == 1 by {
        lemma_div_basics_3(a as int);
    }
    reveal(pivot_laws);
}

} // verus!
