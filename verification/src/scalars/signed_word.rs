//! The type `isize` as scalars: arithmetic modulo the number of machine words, and division that
//! truncates toward zero.

use vstd::prelude::*;
use vstd::arithmetic::div_mod::lemma_div_basics_3;
use vstd::arithmetic::mul::lemma_mul_is_commutative;
use crate::field::{pivot_laws, ring_laws, Field};
use crate::scalars::residues::{
    lemma_congruences, lemma_truncated_quotient_bound, truncated_quotient,
};
use crate::scalars::word::word_range;

verus! {

/// `num::zero` at `isize`: the integer 0.
#[verifier::external_body]
fn isize_zero() -> (r: isize)
    ensures
        r == 0,
{
    num::zero::<isize>()
}

/// `num::one` at `isize`: the integer 1.
#[verifier::external_body]
fn isize_one() -> (r: isize)
    ensures
        r == 1,
{
    num::one::<isize>()
}

/// `num::cast` from `usize` to `isize`: the same number where it is at most
/// `isize::MAX`, nothing otherwise.
#[verifier::external_body]
fn isize_from_index(n: usize) -> (r: Option<isize>)
    ensures
        r == (if n <= isize::MAX { Some(n as isize) } else { None }),
{
    num::cast::<usize, isize>(n)
}

impl Field for isize {
    open spec fn zero_spec() -> isize {
        0
    }

    open spec fn one_spec() -> isize {
        1
    }

    open spec fn plus(self, rhs: isize) -> isize {
        vstd::wrapping::isize_specs::wrapping_add(self, rhs)
    }

    open spec fn minus(self, rhs: isize) -> isize {
        vstd::wrapping::isize_specs::wrapping_sub(self, rhs)
    }

    open spec fn times(self, rhs: isize) -> isize {
        vstd::wrapping::isize_specs::wrapping_mul(self, rhs)
    }

    /// The truncated quotient; the one quotient that the type cannot hold,
    /// of the least value by minus one, wraps to the least value.
    open spec fn over(self, rhs: isize) -> isize {
        if self == isize::MIN && rhs == -1 {
            isize::MIN
        } else {
            truncated_quotient(self as int, rhs as int) as isize
        }
    }

    open spec fn from_index_spec(n: usize) -> Option<isize> {
        if n <= isize::MAX { Some(n as isize) } else { None }
    }

    fn zero() -> isize {
        isize_zero()
    }

    fn one() -> isize {
        isize_one()
    }

    fn add(self, rhs: isize) -> isize {
        self.wrapping_add(rhs)
    }

    fn sub(self, rhs: isize) -> isize {
        self.wrapping_sub(rhs)
    }

    fn mul(self, rhs: isize) -> isize {
        self.wrapping_mul(rhs)
    }

    fn div(self, rhs: isize) -> isize {
        let quotient = self.checked_div(rhs);
        proof {
            let x = self as int;
            let d = rhs as int;
            lemma_truncated_quotient_bound(x, d);
            if x == 0 {
                assert(quotient == Some(0isize));
            } else if x > 0 && d > 0 {
                assert(quotient == Some((x / d) as isize));
            } else if x < 0 && d < 0 {
                assert((x * -1) / (d * -1) == (-x) / (-d));
                if x == isize::MIN && d == -1 {
                    assert(-d == 1);
                    assert((-x) / (-d) == (-x) / 1);
                    assert(quotient.is_none());
                } else {
                    assert(quotient == Some(((-x) / (-d)) as isize));
                }
            } else if x < 0 {
                assert(((x * -1) / d) * -1 == -((-x) / d));
                assert(quotient == Some((-((-x) / d)) as isize));
            } else {
                assert((x / (d * -1)) * -1 == -(x / (-d)));
                assert(quotient == Some((-(x / (-d))) as isize));
            }
        }
        match quotient {
            Some(q) => q,
            None => isize::MIN,
        }
    }

    fn same(self, rhs: isize) -> bool {
        self == rhs
    }

    fn from_index(n: usize) -> Option<isize> {
        isize_from_index(n)
    }
}

/// The product of two scalars is congruent to their product as whole
/// numbers, modulo the number of machine words.
#[verifier::spinoff_prover]
pub proof fn lemma_isize_times(a: isize, b: isize)
    ensures
        (a.times(b) as int) % word_range() == (a as int * b as int) % word_range(),
        a.times(b) == b.times(a),
{
    let product = a as int * b as int;
    lemma_mul_is_commutative(a as int, b as int);
    if usize::MAX == 0xffff_ffff {
        assert(word_range() == 0x1_0000_0000);
        assert((a.times(b) as int) % 0x1_0000_0000 == product % 0x1_0000_0000);
    } else {
        assert(word_range() == 0x1_0000_0000_0000_0000);
        assert((a.times(b) as int) % 0x1_0000_0000_0000_0000 == product
            % 0x1_0000_0000_0000_0000);
    }
}

/// The sum of two scalars is congruent to their sum as whole numbers, modulo
/// the number of machine words.
#[verifier::spinoff_prover]
pub proof fn lemma_isize_sum(a: isize, b: isize)
    ensures
        (a.plus(b) as int) % word_range() == (a as int + b as int) % word_range(),
{
    let sum = a as int + b as int;
    if usize::MAX == 0xffff_ffff {
        assert(word_range() == 0x1_0000_0000);
        assert((a.plus(b) as int) % 0x1_0000_0000 == sum % 0x1_0000_0000);
    } else {
        assert(word_range() == 0x1_0000_0000_0000_0000);
        assert((a.plus(b) as int) % 0x1_0000_0000_0000_0000 == sum % 0x1_0000_0000_0000_0000);
    }
}

/// Two scalars that are congruent modulo the number of machine words are the same.
#[verifier::spinoff_prover]
pub proof fn lemma_isize_same(a: isize, b: isize)
    requires
        (a as int) % word_range() == (b as int) % word_range(),
    ensures
        a == b,
{
    if usize::MAX == 0xffff_ffff {
        assert(word_range() == 0x1_0000_0000);
        assert((a as int) % 0x1_0000_0000 == (b as int) % 0x1_0000_0000);
    } else {
        assert(word_range() == 0x1_0000_0000_0000_0000);
        assert((a as int) % 0x1_0000_0000_0000_0000 == (b as int) % 0x1_0000_0000_0000_0000);
    }
}

/// Multiplication associates.
#[verifier::spinoff_prover]
pub proof fn lemma_isize_times_associates(a: isize, b: isize, c: isize)
    ensures
        a.times(b).times(c) == a.times(b.times(c)),
{
    let p = a.times(b);
    let q = b.times(c);
    lemma_isize_times(a, b);
    lemma_isize_times(b, c);
    lemma_isize_times(a, c);
    lemma_congruences(
        a as int,
        b as int,
        c as int,
        p as int,
        q as int,
        b as int + c as int,
        a.times(c) as int,
        word_range(),
    );
    lemma_isize_times(p, c);
    lemma_isize_times(a, q);
    lemma_isize_same(p.times(c), a.times(q));
}

/// Multiplication distributes over addition.
#[verifier::spinoff_prover]
pub proof fn lemma_isize_distributes(a: isize, b: isize, c: isize)
    ensures
        a.times(b.plus(c)) == a.times(b).plus(a.times(c)),
{
    let p = a.times(b);
    let r = a.times(c);
    let s = b.plus(c);
    lemma_isize_times(a, b);
    lemma_isize_times(b, c);
    lemma_isize_times(a, c);
    lemma_isize_sum(b, c);
    lemma_congruences(
        a as int,
        b as int,
        c as int,
        p as int,
        b.times(c) as int,
        s as int,
        r as int,
        word_range(),
    );
    lemma_isize_times(a, s);
    lemma_isize_sum(p, r);
    lemma_isize_same(a.times(s), p.plus(r));
}

/// The type `isize`, with wrapping arithmetic, obeys the laws of a ring.
#[verifier::spinoff_prover]
pub proof fn lemma_isize_ring()
    ensures
        ring_laws::<isize>(),
{
    assert forall|a: isize, b: isize| #[trigger] a.times(b) == b.times(a) by {
        lemma_isize_times(a, b);
    }
    assert forall|a: isize, b: isize, c: isize| #[trigger]
        a.times(b).times(c) == a.times(b.times(c)) by {
        lemma_isize_times_associates(a, b, c);
    }
    assert forall|a: isize, b: isize, c: isize| #[trigger]
        a.times(b.plus(c)) == a.times(b).plus(a.times(c)) by {
        lemma_isize_distributes(a, b, c);
    }
    assert forall|a: isize| #[trigger] a.times(1) == a by {
        lemma_isize_times(a, 1);
        assert(a as int * 1 == a as int);
        lemma_isize_same(a.times(1), a);
    }
    reveal(ring_laws);
}

/// The type `isize`, with truncating division, obeys the pivot laws.
pub proof fn lemma_isize_pivots()
    ensures
        pivot_laws::<isize>(),
{
    assert forall|a: isize| a != 0 implies #[trigger] a.over(a) == 1 by {
        lemma_div_basics_3(a as int);
        lemma_div_basics_3(-(a as int));
    }
    assert forall|a: isize| #[trigger] a.over(1) == a by {
        assert(-((-(a as int)) / 1) == a as int);
    }
    reveal(pivot_laws);
}

} // verus!
