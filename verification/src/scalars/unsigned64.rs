//! The type `u64` as scalars: arithmetic modulo two to the 64, and division that
//! truncates.

use vstd::prelude::*;
use vstd::arithmetic::div_mod::lemma_div_basics_3;
use vstd::arithmetic::mul::lemma_mul_is_commutative;
use crate::field::{pivot_laws, ring_laws, Field};
use crate::scalars::residues::lemma_residues;

verus! {

/// `num::zero` at `u64`: the integer 0.
#[verifier::external_body]
fn u64_zero() -> (r: u64)
    ensures
        r == 0,
{
    num::zero::<u64>()
}

/// `num::one` at `u64`: the integer 1.
#[verifier::external_body]
fn u64_one() -> (r: u64)
    ensures
        r == 1,
{
    num::one::<u64>()
}

/// `num::cast` from `usize` to `u64`: always the same number, since a
/// machine word has at most 64 bits.
#[verifier::external_body]
fn u64_from_index(n: usize) -> (r: Option<u64>)
    ensures
        r == Some(n as u64),
{
    num::cast::<usize, u64>(n)
}

impl Field for u64 {
    open spec fn zero_spec() -> u64 {
        0
    }

    open spec fn one_spec() -> u64 {
        1
    }

    open spec fn plus(self, rhs: u64) -> u64 {
        vstd::wrapping::u64_specs::wrapping_add(self, rhs)
    }

    open spec fn minus(self, rhs: u64) -> u64 {
        vstd::wrapping::u64_specs::wrapping_sub(self, rhs)
    }

    open spec fn times(self, rhs: u64) -> u64 {
        vstd::wrapping::u64_specs::wrapping_mul(self, rhs)
    }

    open spec fn over(self, rhs: u64) -> u64 {
        (self / rhs) as u64
    }

    open spec fn from_index_spec(n: usize) -> Option<u64> {
        Some(n as u64)
    }

    fn zero() -> u64 {
        u64_zero()
    }

    fn one() -> u64 {
        u64_one()
    }

    fn add(self, rhs: u64) -> u64 {
        self.wrapping_add(rhs)
    }

    fn sub(self, rhs: u64) -> u64 {
        self.wrapping_sub(rhs)
    }

    fn mul(self, rhs: u64) -> u64 {
        self.wrapping_mul(rhs)
    }

    fn div(self, rhs: u64) -> u64 {
        self / rhs
    }

    fn same(self, rhs: u64) -> bool {
        self == rhs
    }

    fn from_index(n: usize) -> Option<u64> {
        u64_from_index(n)
    }
}

/// The sum and the product of two scalars are those of the whole numbers,
/// modulo two to the 64.
#[verifier::spinoff_prover]
pub proof fn lemma_u64_residues(a: u64, b: u64)
    ensures
        a.plus(b) as int == (a as int + b as int) % 0x1_0000_0000_0000_0000,
        a.times(b) as int == (a as int * b as int) % 0x1_0000_0000_0000_0000,
        a.times(b) == b.times(a),
{
    let product = a as int * b as int;
    lemma_mul_is_commutative(a as int, b as int);
    assert(a as nat * b as nat == product);
    assert(b as nat * a as nat == product);
}

/// Multiplication associates.
#[verifier::spinoff_prover]
pub proof fn lemma_u64_times_associates(a: u64, b: u64, c: u64)
    ensures
        a.times(b).times(c) == a.times(b.times(c)),
{
    let p = a.times(b);
    let q = b.times(c);
    lemma_u64_residues(a, b);
    lemma_u64_residues(b, c);
    lemma_u64_residues(p, c);
    lemma_u64_residues(a, q);
    lemma_residues(a as int, b as int, c as int, 0x1_0000_0000_0000_0000);
    assert(p.times(c) as int == a.times(q) as int);
}

/// Multiplication distributes over addition.
#[verifier::spinoff_prover]
pub proof fn lemma_u64_distributes(a: u64, b: u64, c: u64)
    ensures
        a.times(b.plus(c)) == a.times(b).plus(a.times(c)),
{
    let p = a.times(b);
    let r = a.times(c);
    let s = b.plus(c);
    lemma_u64_residues(a, b);
    lemma_u64_residues(a, c);
    lemma_u64_residues(b, c);
    lemma_u64_residues(a, s);
    lemma_u64_residues(p, r);
    lemma_residues(a as int, b as int, c as int, 0x1_0000_0000_0000_0000);
    assert(a.times(s) as int == p.plus(r) as int);
}

/// The type `u64`, with wrapping arithmetic, obeys the laws of a ring.
#[verifier::spinoff_prover]
pub proof fn lemma_u64_ring()
    ensures
        ring_laws::<u64>(),
{
    assert forall|a: u64, b: u64| #[trigger] a.times(b) == b.times(a) by {
        lemma_u64_residues(a, b);
    }
    assert forall|a: u64, b: u64, c: u64| #[trigger]
        a.times(b).times(c) == a.times(b.times(c)) by {
        lemma_u64_times_associates(a, b, c);
    }
    assert forall|a: u64, b: u64, c: u64| #[trigger]
        a.times(b.plus(c)) == a.times(b).plus(a.times(c)) by {
        lemma_u64_distributes(a, b, c);
    }
    assert forall|a: u64| #[trigger] a.times(1) == a by {
        lemma_u64_residues(a, 1);
        assert(a as int * 1 == a as int);
    }
    reveal(ring_laws);
}

/// The type `u64`, with truncating division, obeys the pivot laws.
pub proof fn lemma_u64_pivots()
    ensures
        pivot_laws::<u64>(),
{
    assert forall|a: u64| a != 0 implies #[trigger] a.over(a) == 1 by {
        lemma_div_basics_3(a as int);
    }
    reveal(pivot_laws);
}

} // verus!
