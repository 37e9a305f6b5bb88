//! The type `usize` as scalars: arithmetic modulo the number of machine
//! words, and division that truncates.

use vstd::prelude::*;
use vstd::arithmetic::div_mod::lemma_div_basics_3;
use vstd::arithmetic::mul::lemma_mul_is_commutative;
use crate::field::{pivot_laws, ring_laws, Field};
use crate::scalars::residues::lemma_residues;

verus! {

/// `num::zero` at `usize`: the integer 0.
#[verifier::external_body]
fn usize_zero() -> (r: usize)
    ensures
        r == 0,
{
    num::zero::<usize>()
}

/// `num::one` at `usize`: the integer 1.
#[verifier::external_body]
fn usize_one() -> (r: usize)
    ensures
        r == 1,
{
    num::one::<usize>()
}

/// `num::cast` from `usize` to `usize`: always the same number.
#[verifier::external_body]
fn usize_from_index(n: usize) -> (r: Option<usize>)
    ensures
        r == Some(n),
{
    num::cast::<usize, usize>(n)
}

impl Field for usize {
    open spec fn zero_spec() -> usize {
        0
    }

    open spec fn one_spec() -> usize {
        1
    }

    open spec fn plus(self, rhs: usize) -> usize {
        vstd::wrapping::usize_specs::wrapping_add(self, rhs)
    }

    open spec fn minus(self, rhs: usize) -> usize {
        vstd::wrapping::usize_specs::wrapping_sub(self, rhs)
    }

    open spec fn times(self, rhs: usize) -> usize {
        vstd::wrapping::usize_specs::wrapping_mul(self, rhs)
    }

    open spec fn over(self, rhs: usize) -> usize {
        (self / rhs) as usize
    }

    open spec fn from_index_spec(n: usize) -> Option<usize> {
        Some(n)
    }

    fn zero() -> usize {
        usize_zero()
    }

    fn one() -> usize {
        usize_one()
    }

    fn add(self, rhs: usize) -> usize {
        self.wrapping_add(rhs)
    }

    fn sub(self, rhs: usize) -> usize {
        self.wrapping_sub(rhs)
    }

    fn mul(self, rhs: usize) -> usize {
        self.wrapping_mul(rhs)
    }

    fn div(self, rhs: usize) -> usize {
        self / rhs
    }

    fn same(self, rhs: usize) -> bool {
        self == rhs
    }

    fn from_index(n: usize) -> Option<usize> {
        usize_from_index(n)
    }
}

/// The number of machine words: two to the 32 or two to the 64.
pub open spec fn word_range() -> int {
    usize::MAX + 1
}

/// The sum and the product of two machine words are those of the whole
/// numbers, modulo the number of machine words.
#[verifier::spinoff_prover]
pub proof fn lemma_usize_residues(a: usize, b: usize)
    ensures
        a.plus(b) as int == (a as int + b as int) % word_range(),
        a.times(b) as int == (a as int * b as int) % word_range(),
        a.times(b) == b.times(a),
{
    let x = a as int;
    let y = b as int;
    let product = x * y;
    lemma_mul_is_commutative(x, y);
    assert(a as nat * b as nat == product);
    assert(b as nat * a as nat == product);
    if usize::MAX == 0xffff_ffff {
        assert(word_range() == 0x1_0000_0000);
        assert(a.plus(b) as int == (x + y) % 0x1_0000_0000);
        assert(a.times(b) as int == product % 0x1_0000_0000);
    } else {
        assert(word_range() == 0x1_0000_0000_0000_0000);
        assert(a.plus(b) as int == (x + y) % 0x1_0000_0000_0000_0000);
        assert(a.times(b) as int == product % 0x1_0000_0000_0000_0000);
    }
}

/// Multiplication associates.
#[verifier::spinoff_prover]
pub proof fn lemma_usize_times_associates(a: usize, b: usize, c: usize)
    ensures
        a.times(b).times(c) == a.times(b.times(c)),
{
    let p = a.times(b);
    let q = b.times(c);
    lemma_usize_residues(a, b);
    lemma_usize_residues(b, c);
    lemma_usize_residues(p, c);
    lemma_usize_residues(a, q);
    lemma_residues(a as int, b as int, c as int, word_range());
    assert(p.times(c) as int == a.times(q) as int);
}

/// Multiplication distributes over addition.
#[verifier::spinoff_prover]
pub proof fn lemma_usize_distributes(a: usize, b: usize, c: usize)
    ensures
        a.times(b.plus(c)) == a.times(b).plus(a.times(c)),
{
    let p = a.times(b);
    let r = a.times(c);
    let s = b.plus(c);
    lemma_usize_residues(a, b);
    lemma_usize_residues(a, c);
    lemma_usize_residues(b, c);
    lemma_usize_residues(a, s);
    lemma_usize_residues(p, r);
    lemma_residues(a as int, b as int, c as int, word_range());
    assert(a.times(s) as int == p.plus(r) as int);
}

/// The type `usize`, with wrapping arithmetic, obeys the laws of a ring.
#[verifier::spinoff_prover]
pub proof fn lemma_usize_ring()
    ensures
        ring_laws::<usize>(),
{
    assert forall|a: usize, b: usize| #[trigger] a.times(b) == b.times(a) by {
        lemma_usize_residues(a, b);
    }
    assert forall|a: usize, b: usize, c: usize| #[trigger]
        a.times(b).times(c) == a.times(b.times(c)) by {
        lemma_usize_times_associates(a, b, c);
    }
    assert forall|a: usize, b: usize, c: usize| #[trigger]
        a.times(b.plus(c)) == a.times(b).plus(a.times(c)) by {
        lemma_usize_distributes(a, b, c);
    }
    assert forall|a: usize| #[trigger] a.times(1) == a by {
        lemma_usize_residues(a, 1);
        assert(a as int * 1 == a as int);
        if usize::MAX == 0xffff_ffff {
            assert((a as int) % 0x1_0000_0000 == a as int);
        } else {
            assert((a as int) % 0x1_0000_0000_0000_0000 == a as int);
        }
    }
    reveal(ring_laws);
}

/// The type `usize`, with truncating division, obeys the pivot laws.
pub proof fn lemma_usize_pivots()
    ensures
        pivot_laws::<usize>(),
{
    assert forall|a: usize| a != 0 implies #[trigger] a.over(a) == 1 by {
        lemma_div_basics_3(a as int);
    }
    reveal(pivot_laws);
}

} // verus!
