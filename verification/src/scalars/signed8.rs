//! The type `i8` as scalars: arithmetic modulo 256, and division that
//! truncates toward zero.

use vstd::prelude::*;
use vstd::arithmetic::div_mod::lemma_div_basics_3;
use vstd::arithmetic::mul::lemma_mul_is_commutative;
use crate::field::{pivot_laws, ring_laws, Field};
use crate::scalars::residues::{
    lemma_congruences, lemma_truncated_quotient_bound, truncated_quotient,
};

verus! {

/// `num::zero` at `i8`: the integer 0.
#[verifier::external_body]
fn i8_zero() -> (r: i8)
    ensures
        r == 0,
{
    num::zero::<i8>()
}

/// `num::one` at `i8`: the integer 1.
#[verifier::external_body]
fn i8_one() -> (r: i8)
    ensures
        r == 1,
{
    num::one::<i8>()
}

/// `num::cast` from `usize` to `i8`: the same number where it is at most
/// `i8::MAX`, nothing otherwise.
#[verifier::external_body]
fn i8_from_index(n: usize) -> (r: Option<i8>)
    ensures
        r == (if n <= i8::MAX { Some(n as i8) } else { None }),
{
    num::cast::<usize, i8>(n)
}

impl Field for i8 {
    open spec fn zero_spec() -> i8 {
        0
    }

    open spec fn one_spec() -> i8 {
        1
    }

    open spec fn plus(self, rhs: i8) -> i8 {
        vstd::wrapping::i8_specs::wrapping_add(self, rhs)
    }

    open spec fn minus(self, rhs: i8) -> i8 {
        vstd::wrapping::i8_specs::wrapping_sub(self, rhs)
    }

    open spec fn times(self, rhs: i8) -> i8 {
        vstd::wrapping::i8_specs::wrapping_mul(self, rhs)
    }

    /// The truncated quotient; the one quotient that the type cannot hold,
    /// of the least value by minus one, wraps to the least value.
    open spec fn over(self, rhs: i8) -> i8 {
        if self == i8::MIN && rhs == -1 {
            i8::MIN
        } else {
            truncated_quotient(self as int, rhs as int) as i8
        }
    }

    open spec fn from_index_spec(n: usize) -> Option<i8> {
        if n <= i8::MAX { Some(n as i8) } else { None }
    }

    fn zero() -> i8 {
        i8_zero()
    }

    fn one() -> i8 {
        i8_one()
    }

    fn add(self, rhs: i8) -> i8 {
        self.wrapping_add(rhs)
    }

    fn sub(self, rhs: i8) -> i8 {
        self.wrapping_sub(rhs)
    }

    fn mul(self, rhs: i8) -> i8 {
        self.wrapping_mul(rhs)
    }

    fn div(self, rhs: i8) -> i8 {
        let quotient = self.checked_div(rhs);
        proof {
            let x = self as int;
            let d = rhs as int;
            lemma_truncated_quotient_bound(x, d);
            if x == 0 {
                assert(quotient == Some(0i8));
            } else if x > 0 && d > 0 {
                assert(quotient == Some((x / d) as i8));
            } else if x < 0 && d < 0 {
                assert((x * -1) / (d * -1) == (-x) / (-d));
                if x == i8::MIN && d == -1 {
                    assert(-d == 1);
                    assert((-x) / (-d) == (-x) / 1);
                    assert(quotient.is_none());
                } else {
                    assert(quotient == Some(((-x) / (-d)) as i8));
                }
            } else if x < 0 {
                assert(((x * -1) / d) * -1 == -((-x) / d));
                assert(quotient == Some((-((-x) / d)) as i8));
            } else {
                assert((x / (d * -1)) * -1 == -(x / (-d)));
                assert(quotient == Some((-(x / (-d))) as i8));
            }
        }
        match quotient {
            Some(q) => q,
            None => i8::MIN,
        }
    }

    fn same(self, rhs: i8) -> bool {
        self == rhs
    }

    fn from_index(n: usize) -> Option<i8> {
        i8_from_index(n)
    }
}

/// The product of two scalars is congruent to their product as whole
/// numbers, modulo 256.
#[verifier::spinoff_prover]
pub proof fn lemma_i8_times(a: i8, b: i8)
    ensures
        (a.times(b) as int) % 0x100 == (a as int * b as int) % 0x100,
        a.times(b) == b.times(a),
{
    lemma_mul_is_commutative(a as int, b as int);
}

/// Multiplication associates.
#[verifier::spinoff_prover]
pub proof fn lemma_i8_times_associates(a: i8, b: i8, c: i8)
    ensures
        a.times(b).times(c) == a.times(b.times(c)),
{
    let p = a.times(b);
    let q = b.times(c);
    lemma_i8_times(a, b);
    lemma_i8_times(b, c);
    lemma_i8_times(a, c);
    lemma_congruences(
        a as int,
        b as int,
        c as int,
        p as int,
        q as int,
        b as int + c as int,
        a.times(c) as int,
        0x100,
    );
    lemma_i8_times(p, c);
    lemma_i8_times(a, q);
}

/// Multiplication distributes over addition.
#[verifier::spinoff_prover]
pub proof fn lemma_i8_distributes(a: i8, b: i8, c: i8)
    ensures
        a.times(b.plus(c)) == a.times(b).plus(a.times(c)),
{
    let p = a.times(b);
    let r = a.times(c);
    let s = b.plus(c);
    lemma_i8_times(a, b);
    lemma_i8_times(b, c);
    lemma_i8_times(a, c);
    assert((s as int) % 0x100 == (b as int + c as int) % 0x100);
    lemma_congruences(
        a as int,
        b as int,
        c as int,
        p as int,
        b.times(c) as int,
        s as int,
        r as int,
        0x100,
    );
    lemma_i8_times(a, s);
    assert((p.plus(r) as int) % 0x100 == (p as int + r as int) % 0x100);
}

/// The type `i8`, with wrapping arithmetic, obeys the laws of a ring.
#[verifier::spinoff_prover]
pub proof fn lemma_i8_ring()
    ensures
        ring_laws::<i8>(),
{
    assert forall|a: i8, b: i8| #[trigger] a.times(b) == b.times(a) by {
        lemma_i8_times(a, b);
    }
    assert forall|a: i8, b: i8, c: i8| #[trigger]
        a.times(b).times(c) == a.times(b.times(c)) by {
        lemma_i8_times_associates(a, b, c);
    }
    assert forall|a: i8, b: i8, c: i8| #[trigger]
        a.times(b.plus(c)) == a.times(b).plus(a.times(c)) by {
        lemma_i8_distributes(a, b, c);
    }
    assert forall|a: i8| #[trigger] a.times(1) == a by {
        lemma_i8_times(a, 1);
        assert(a as int * 1 == a as int);
    }
    reveal(ring_laws);
}

/// The type `i8`, with truncating division, obeys the pivot laws.
pub proof fn lemma_i8_pivots()
    ensures
        pivot_laws::<i8>(),
{
    assert forall|a: i8| a != 0 implies #[trigger] a.over(a) == 1 by {
        lemma_div_basics_3(a as int);
        lemma_div_basics_3(-(a as int));
    }
    assert forall|a: i8| #[trigger] a.over(1) == a by {
        assert(-((-(a as int)) / 1) == a as int);
    }
    reveal(pivot_laws);
}

} // verus!
