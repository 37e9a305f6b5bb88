//! The type `i128` as scalars: arithmetic modulo two to the 128, and division that
//! truncates toward zero.

use vstd::prelude::*;
use vstd::arithmetic::div_mod::lemma_div_basics_3;
use vstd::arithmetic::mul::lemma_mul_is_commutative;
use crate::field::{pivot_laws, ring_laws, Field};
use crate::scalars::residues::{
    lemma_congruences, lemma_truncated_quotient_bound, truncated_quotient,
};

verus! {

/// `num::zero` at `i128`: the integer 0.
#[verifier::external_body]
fn i128_zero() -> (r: i128)
    ensures
        r == 0,
{
    num::zero::<i128>()
}

/// `num::one` at `i128`: the integer 1.
#[verifier::external_body]
fn i128_one() -> (r: i128)
    ensures
        r == 1,
{
    num::one::<i128>()
}

/// `num::cast` from `usize` to `i128`: always the same number, since a
/// machine word has at most 64 bits.
#[verifier::external_body]
fn i128_from_index(n: usize) -> (r: Option<i128>)
    ensures
        r == Some(n as i128),
{
    num::cast::<usize, i128>(n)
}

impl Field for i128 {
    open spec fn zero_spec() -> i128 {
        0
    }

    open spec fn one_spec() -> i128 {
        1
    }

    open spec fn plus(self, rhs: i128) -> i128 {
        vstd::wrapping::i128_specs::wrapping_add(self, rhs)
    }

    open spec fn minus(self, rhs: i128) -> i128 {
        vstd::wrapping::i128_specs::wrapping_sub(self, rhs)
    }

    open spec fn times(self, rhs: i128) -> i128 {
        vstd::wrapping::i128_specs::wrapping_mul(self, rhs)
    }

    /// The truncated quotient; the one quotient that the type cannot hold,
    /// of the least value by minus one, wraps to the least value.
    open spec fn over(self, rhs: i128) -> i128 {
        if self == i128::MIN && rhs == -1 {
            i128::MIN
        } else {
            truncated_quotient(self as int, rhs as int) as i128
        }
    }

    open spec fn from_index_spec(n: usize) -> Option<i128> {
        Some(n as i128)
    }

    fn zero() -> i128 {
        i128_zero()
    }

    fn one() -> i128 {
        i128_one()
    }

    fn add(self, rhs: i128) -> i128 {
        self.wrapping_add(rhs)
    }

    fn sub(self, rhs: i128) -> i128 {
        self.wrapping_sub(rhs)
    }

    fn mul(self, rhs: i128) -> i128 {
        self.wrapping_mul(rhs)
    }

    fn div(self, rhs: i128) -> i128 {
        let quotient = self.checked_div(rhs);
        proof {
            let x = self as int;
            let d = rhs as int;
            lemma_truncated_quotient_bound(x, d);
            if x == 0 {
                assert(quotient == Some(0i128));
            } else if x > 0 && d > 0 {
                assert(quotient == Some((x / d) as i128));
            } else if x < 0 && d < 0 {
                assert((x * -1) / (d * -1) == (-x) / (-d));
                if x == i128::MIN && d == -1 {
                    assert(-d == 1);
                    assert((-x) / (-d) == (-x) / 1);
                    assert(quotient.is_none());
                } else {
                    assert(quotient == Some(((-x) / (-d)) as i128));
                }
            } else if x < 0 {
                assert(((x * -1) / d) * -1 == -((-x) / d));
                assert(quotient == Some((-((-x) / d)) as i128));
            } else {
                assert((x / (d * -1)) * -1 == -(x / (-d)));
                assert(quotient == Some((-(x / (-d))) as i128));
            }
        }
        match quotient {
            Some(q) => q,
            None => i128::MIN,
        }
    }

    fn same(self, rhs: i128) -> bool {
        self == rhs
    }

    fn from_index(n: usize) -> Option<i128> {
        i128_from_index(n)
    }
}

/// The product of two scalars is congruent to their product as whole
/// numbers, modulo two to the 128.
#[verifier::spinoff_prover]
pub proof fn lemma_i128_times(a: i128, b: i128)
    ensures
        (a.times(b) as int) % (u128::MAX + 1) == (a as int * b as int) % (u128::MAX + 1),
        a.times(b) == b.times(a),
{
    lemma_mul_is_commutative(a as int, b as int);
}

/// Multiplication associates.
#[verifier::spinoff_prover]
pub proof fn lemma_i128_times_associates(a: i128, b: i128, c: i128)
    ensures
        a.times(b).times(c) == a.times(b.times(c)),
{
    let p = a.times(b);
    let q = b.times(c);
    lemma_i128_times(a, b);
    lemma_i128_times(b, c);
    lemma_i128_times(a, c);
    lemma_congruences(
        a as int,
        b as int,
        c as int,
        p as int,
        q as int,
        b as int + c as int,
        a.times(c) as int,
        (u128::MAX + 1),
    );
    lemma_i128_times(p, c);
    lemma_i128_times(a, q);
}

/// Multiplication distributes over addition.
#[verifier::spinoff_prover]
pub proof fn lemma_i128_distributes(a: i128, b: i128, c: i128)
    ensures
        a.times(b.plus(c)) == a.times(b).plus(a.times(c)),
{
    let p = a.times(b);
    let r = a.times(c);
    let s = b.plus(c);
    lemma_i128_times(a, b);
    lemma_i128_times(b, c);
    lemma_i128_times(a, c);
    assert((s as int) % (u128::MAX + 1) == (b as int + c as int) % (u128::MAX + 1));
    lemma_congruences(
        a as int,
        b as int,
        c as int,
        p as int,
        b.times(c) as int,
        s as int,
        r as int,
        (u128::MAX + 1),
    );
    lemma_i128_times(a, s);
    assert((p.plus(r) as int) % (u128::MAX + 1) == (p as int + r as int) % (u128::MAX + 1));
}

/// The type `i128`, with wrapping arithmetic, obeys the laws of a ring.
#[verifier::spinoff_prover]
pub proof fn lemma_i128_ring()
    ensures
        ring_laws::<i128>(),
{
    assert forall|a: i128, b: i128| #[trigger] a.times(b) == b.times(a) by {
        lemma_i128_times(a, b);
    }
    assert forall|a: i128, b: i128, c: i128| #[trigger]
        a.times(b).times(c) == a.times(b.times(c)) by {
        lemma_i128_times_associates(a, b, c);
    }
    assert forall|a: i128, b: i128, c: i128| #[trigger]
        a.times(b.plus(c)) == a.times(b).plus(a.times(c)) by {
        lemma_i128_distributes(a, b, c);
    }
    assert forall|a: i128| #[trigger] a.times(1) == a by {
        lemma_i128_times(a, 1);
        assert(a as int * 1 == a as int);
    }
    reveal(ring_laws);
}

/// The type `i128`, with truncating division, obeys the pivot laws.
pub proof fn lemma_i128_pivots()
    ensures
        pivot_laws::<i128>(),
{
    assert forall|a: i128| a != 0 implies #[trigger] a.over(a) == 1 by {
        lemma_div_basics_3(a as int);
        lemma_div_basics_3(-(a as int));
    }
    assert forall|a: i128| #[trigger] a.over(1) == a by {
        assert(-((-(a as int)) / 1) == a as int);
    }
    reveal(pivot_laws);
}

} // verus!
