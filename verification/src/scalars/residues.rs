//! Whole numbers modulo a range, and quotients that truncate toward zero:
//! what the integer scalars share.

use vstd::prelude::*;
use vstd::arithmetic::div_mod::{lemma_add_mod_noop, lemma_mul_mod_noop_general};
use vstd::arithmetic::mul::{lemma_mul_is_associative, lemma_mul_is_distributive_add};

verus! {

/// The quotient of two integers, rounded toward zero.
pub open spec fn truncated_quotient(x: int, d: int) -> int {
    if x == 0 {
        0
    } else if x > 0 && d > 0 {
        x / d
    } else if x < 0 && d < 0 {
        (-x) / (-d)
    } else if x < 0 {
        -((-x) / d)
    } else {
        -(x / (-d))
    }
}

/// The quotient of a natural number by a positive one lies between zero and
/// the number, and below the number where the divisor exceeds one.
pub proof fn lemma_quotient_bound(a: int, b: int)
    requires
        a >= 0,
        b > 0,
    ensures
        0 <= a / b <= a,
        a > 0 && b > 1 ==> a / b < a,
{
    assert(0 <= a / b <= a) by (nonlinear_arith)
        requires
            a >= 0,
            b > 0,
    ;
    if a > 0 && b > 1 {
        assert(a / b < a) by (nonlinear_arith)
            requires
                a > 0,
                b > 1,
        ;
    }
}

/// A truncated quotient is no larger in magnitude than the dividend, and
/// smaller where the dividend is negative and the divisor below minus one.
pub proof fn lemma_truncated_quotient_bound(x: int, d: int)
    requires
        d != 0,
    ensures
        x >= 0 ==> -x <= truncated_quotient(x, d) <= x,
        x < 0 ==> x <= truncated_quotient(x, d) <= -x,
        x < 0 && d < -1 ==> truncated_quotient(x, d) < -x,
{
    if x > 0 && d > 0 {
        lemma_quotient_bound(x, d);
    } else if x < 0 && d < 0 {
        lemma_quotient_bound(-x, -d);
    } else if x < 0 {
        lemma_quotient_bound(-x, d);
    } else if x > 0 {
        lemma_quotient_bound(x, -d);
    }
}

/// What the laws of a ring ask of products, for whole numbers taken modulo `m`.
pub proof fn lemma_residues(x: int, y: int, z: int, m: int)
    requires
        m > 0,
    ensures
        (((x * y) % m) * z) % m == (x * ((y * z) % m)) % m,
        (x * ((y + z) % m)) % m == (((x * y) % m) + ((x * z) % m)) % m,
{
    lemma_mul_mod_noop_general(x * y, z, m);
    lemma_mul_mod_noop_general(x, y * z, m);
    lemma_mul_is_associative(x, y, z);
    lemma_mul_mod_noop_general(x, y + z, m);
    lemma_add_mod_noop(x * y, x * z, m);
    lemma_mul_is_distributive_add(x, y, z);
}

/// What the laws of a ring ask of products, for whole numbers that are only
/// known modulo `m`: `p`, `q`, `s` and `r` stand for `x * y`, `y * z`,
/// `y + z` and `x * z`.
pub proof fn lemma_congruences(x: int, y: int, z: int, p: int, q: int, s: int, r: int, m: int)
    requires
        m > 0,
        p % m == (x * y) % m,
        q % m == (y * z) % m,
        s % m == (y + z) % m,
        r % m == (x * z) % m,
    ensures
        (p * z) % m == (x * q) % m,
        (x * s) % m == (p + r) % m,
{
    lemma_mul_mod_noop_general(p, z, m);
    lemma_mul_mod_noop_general(x * y, z, m);
    lemma_mul_mod_noop_general(x, q, m);
    lemma_mul_mod_noop_general(x, y * z, m);
    lemma_mul_is_associative(x, y, z);
    lemma_mul_mod_noop_general(x, s, m);
    lemma_mul_mod_noop_general(x, y + z, m);
    lemma_add_mod_noop(p, r, m);
    lemma_add_mod_noop(x * y, x * z, m);
    lemma_mul_is_distributive_add(x, y, z);
}

} // verus!
