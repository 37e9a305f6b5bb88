//! The type `i32` as scalars: arithmetic modulo two to the 32, and division that
//! truncates toward zero.

use vstd::prelude::*;
use vstd::arithmetic::div_mod::lemma_div_basics_3;
use vstd::arithmetic::mul::lemma_mul_is_commutative;
use crate::field::{pivot_laws, ring_laws, Field};
use crate::scalars::residues::{
    lemma_congruences, lemma_truncated_quotient_bound, truncated_quotient,
};

verus! {

/// `num::zero` at `i32`: the integer 0.
#[verifier::external_body]
fn i32_zero() -> (r: i32)
    ensures
        r == 0,
{
    num::zero::<i32>()
}

/// `num::one` at `i32`: the integer 1.
#[verifier::external_body]
fn i32_one() -> (r: i32)
    ensures
        r == 1,
{
    num::one::<i32>()
}

/// `num::cast` from `usize` to `i32`: the same number where it is at most
/// `i32::MAX`, nothing otherwise.
#[verifier::external_body]
fn i32_from_index(n: usize) -> (r: Option<i32>)
    ensures
        r == (if n <= i32::MAX { Some(n as i32) } else { None }),
{
    num::cast::<usize, i32>(n)
}

impl Field for i32 {
    open spec fn zero_spec() -> i32 {
        0
    }

    open spec fn one_spec() -> i32 {
        1
    }

    open spec fn plus(self, rhs: i32) -> i32 {
        vstd::wrapping::i32_specs::wrapping_add(self, rhs)
    }

    open spec fn minus(self, rhs: i32) -> i32 {
        vstd::wrapping::i32_specs::wrapping_sub(self, rhs)
    }

    open spec fn times(self, rhs: i32) -> i32 {
        vstd::wrapping::i32_specs::wrapping_mul(self, rhs)
    }

    /// The truncated quotient; the one quotient that the type cannot hold,
    /// of the least value by minus one, wraps to the least value.
    open spec fn over(self, rhs: i32) -> i32 {
        if self == i32::MIN && rhs == -1 {
            i32::MIN
        } else {
            truncated_quotient(self as int, rhs as int) as i32
        }
    }

    open spec fn from_index_spec(n: usize) -> Option<i32> {
        if n <= i32::MAX { Some(n as i32) } else { None }
    }

    fn zero() -> i32 {
        i32_zero()
    }

    fn one() -> i32 {
        i32_one()
    }

    fn add(self, rhs: i32) -> i32 {
        self.wrapping_add(rhs)
    }

    fn sub(self, rhs: i32) -> i32 {
        self.wrapping_sub(rhs)
    }

    fn mul(self, rhs: i32) -> i32 {
        self.wrapping_mul(rhs)
    }

    fn div(self, rhs: i32) -> i32 {
        let quotient = self.checked_div(rhs);
        proof {
            let x = self as int;
            let d = rhs as int;
            lemma_truncated_quotient_bound(x, d);
            if x == 0 {
                assert(quotient == Some(0i32));
            } else if x > 0 && d > 0 {
                assert(quotient == Some((x / d) as i32));
            } else if x < 0 && d < 0 {
                assert((x * -1) / (d * -1) == (-x) / (-d));
                if x == i32::MIN && d == -1 {
                    assert(-d == 1);
                    assert((-x) / (-d) == (-x) / 1);
                    assert(quotient.is_none());
                } else {
                    assert(quotient == Some(((-x) / (-d)) as i32));
                }
            } else if x < 0 {
                assert(((x * -1) / d) * -1 == -((-x) / d));
                assert(quotient == Some((-((-x) / d)) as i32));
            } else {
                assert((x / (d * -1)) * -1 == -(x / (-d)));
                assert(quotient == Some((-(x / (-d))) as i32));
            }
        }
        match quotient {
            Some(q) => q,
            None => i32::MIN,
        }
    }

    fn same(self, rhs: i32) -> bool {
        self == rhs
    }

    fn from_index(n: usize) -> Option<i32> {
        i32_from_index(n)
    }
}

/// The product of two scalars is congruent to their product as whole
/// numbers, modulo two to the 32.
#[verifier::spinoff_prover]
pub proof fn lemma_i32_times(a: i32, b: i32)
    ensures
        (a.times(b) as int) % 0x1_0000_0000 == (a as int * b as int) % 0x1_0000_0000,
        a.times(b) == b.times(a),
{
    lemma_mul_is_commutative(a as int, b as int);
}

/// Multiplication associates.
#[verifier::spinoff_prover]
pub proof fn lemma_i32_times_associates(a: i32, b: i32, c: i32)
    ensures
        a.times(b).times(c) == a.times(b.times(c)),
{
    let p = a.times(b);
    let q = b.times(c);
    lemma_i32_times(a, b);
    lemma_i32_times(b, c);
    lemma_i32_times(a, c);
    lemma_congruences(
        a as int,
        b as int,
        c as int,
        p as int,
        q as int,
        b as int + c as int,
        a.times(c) as int,
        0x1_0000_0000,
    );
    lemma_i32_times(p, c);
    lemma_i32_times(a, q);
}

/// Multiplication distributes over addition.
#[verifier::spinoff_prover]
pub proof fn lemma_i32_distributes(a: i32, b: i32, c: i32)
    ensures
        a.times(b.plus(c)) == a.times(b).plus(a.times(c)),
{
    let p = a.times(b);
    let r = a.times(c);
    let s = b.plus(c);
    lemma_i32_times(a, b);
    lemma_i32_times(b, c);
    lemma_i32_times(a, c);
    assert((s as int) % 0x1_0000_0000 == (b as int + c as int) % 0x1_0000_0000);
    lemma_congruences(
        a as int,
        b as int,
        c as int,
        p as int,
        b.times(c) as int,
        s as int,
        r as int,
        0x1_0000_0000,
    );
    lemma_i32_times(a, s);
    assert((p.plus(r) as int) % 0x1_0000_0000 == (p as int + r as int) % 0x1_0000_0000);
}

/// The type `i32`, with wrapping arithmetic, obeys the laws of a ring.
#[verifier::spinoff_prover]
pub proof fn lemma_i32_ring()
    ensures
        ring_laws::<i32>(),
{
    assert forall|a: i32, b: i32| #[trigger] a.times(b) == b.times(a) by {
        lemma_i32_times(a, b);
    }
    assert forall|a: i32, b: i32, c: i32| #[trigger]
        a.times(b).times(c) == a.times(b.times(c)) by {
        lemma_i32_times_associates(a, b, c);
    }
    assert forall|a: i32, b: i32, c: i32| #[trigger]
        a.times(b.plus(c)) == a.times(b).plus(a.times(c)) by {
        lemma_i32_distributes(a, b, c);
    }
    assert forall|a: i32| #[trigger] a.times(1) == a by {
        lemma_i32_times(a, 1);
        assert(a as int * 1 == a as int);
    }
    reveal(ring_laws);
}

/// The type `i32`, with truncating division, obeys the pivot laws.
pub proof fn lemma_i32_pivots()
    ensures
        pivot_laws::<i32>(),
{
    assert forall|a: i32| a != 0 implies #[trigger] a.over(a) == 1 by {
        lemma_div_basics_3(a as int);
        lemma_div_basics_3(-(a as int));
    }
    assert forall|a: i32| #[trigger] a.over(1) == a by {
        assert(-((-(a as int)) / 1) == a as int);
    }
    reveal(pivot_laws);
}

} // verus!
