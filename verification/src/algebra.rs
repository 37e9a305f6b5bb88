//! Finite sums of scalars, and what the laws of a ring say about them.

use vstd::prelude::*;
use crate::field::{
    lemma_distributes, lemma_minus_basics, lemma_minus_plus, lemma_minus_unique,
    lemma_plus_associates, lemma_plus_cancels, lemma_plus_commutes, lemma_plus_interchange,
    lemma_plus_zero, lemma_times_commutes, lemma_times_zero, ring_laws, Field,
};

verus! {

/// The sum `f(0) + f(1) + ... + f(n - 1)`, added up from the left, starting at zero.
pub open spec fn sum_to<F: Field>(f: spec_fn(int) -> F, n: nat) -> F
    decreases n,
{
    if n == 0 {
        F::zero_spec()
    } else {
        sum_to(f, (n - 1) as nat).plus(f(n - 1))
    }
}

/// The products of the entries of two sequences, index by index.
pub open spec fn products<F: Field>(u: Seq<F>, v: Seq<F>) -> spec_fn(int) -> F {
    |k: int| u[k].times(v[k])
}

/// The dot product of two sequences of the same length.
pub open spec fn dot_spec<F: Field>(u: Seq<F>, v: Seq<F>) -> F {
    sum_to(products(u, v), u.len())
}

/// Sums of functions that agree below `n` are equal.
pub proof fn lemma_sum_agree<F: Field>(f: spec_fn(int) -> F, g: spec_fn(int) -> F, n: nat)
    requires
        forall|k: int| 0 <= k < n ==> #[trigger] f(k) == g(k),
    ensures
        sum_to(f, n) == sum_to(g, n),
    decreases n,
{
    if n > 0 {
        lemma_sum_agree(f, g, (n - 1) as nat);
    }
}

/// The dot product is symmetric: `u . v` is `v . u` for sequences of one
/// length over a ring.
pub proof fn lemma_dot_symmetric<F: Field>(u: Seq<F>, v: Seq<F>)
    requires
        ring_laws::<F>(),
        u.len() == v.len(),
    ensures
        dot_spec(u, v) == dot_spec(v, u),
{
    assert forall|k: int| 0 <= k < u.len() implies #[trigger] products(u, v)(k) == products(v, u)(
        k,
    ) by {
        lemma_times_commutes(u[k], v[k]);
    }
    lemma_sum_agree(products(u, v), products(v, u), u.len());
}

/// A sum of zeros is zero.
pub proof fn lemma_sum_of_zeros<F: Field>(f: spec_fn(int) -> F, n: nat)
    requires
        ring_laws::<F>(),
        forall|k: int| 0 <= k < n ==> #[trigger] f(k) == F::zero_spec(),
    ensures
        sum_to(f, n) == F::zero_spec(),
    decreases n,
{
    if n > 0 {
        lemma_sum_of_zeros(f, (n - 1) as nat);
        lemma_plus_zero(F::zero_spec());
    }
}

/// A factor common to every summand can be taken out of the sum, to the right.
pub proof fn lemma_sum_scaled<F: Field>(f: spec_fn(int) -> F, g: spec_fn(int) -> F, q: F, n: nat)
    requires
        ring_laws::<F>(),
        forall|k: int| 0 <= k < n ==> #[trigger] g(k) == f(k).times(q),
    ensures
        sum_to(g, n) == sum_to(f, n).times(q),
    decreases n,
{
    if n == 0 {
        lemma_times_zero(q);
    } else {
        lemma_sum_scaled(f, g, q, (n - 1) as nat);
        lemma_distributes(q, sum_to(f, (n - 1) as nat), f(n - 1));
    }
}

/// The sum of `f(k) - s * g(k)` is the sum of `f` minus `s` times the sum of `g`.
pub proof fn lemma_sum_minus_scaled<F: Field>(
    f: spec_fn(int) -> F,
    g: spec_fn(int) -> F,
    h: spec_fn(int) -> F,
    s: F,
    n: nat,
)
    requires
        ring_laws::<F>(),
        forall|k: int| 0 <= k < n ==> #[trigger] h(k) == f(k).minus(s.times(g(k))),
    ensures
        sum_to(h, n) == sum_to(f, n).minus(s.times(sum_to(g, n))),
    decreases n,
{
    let zero = F::zero_spec();
    if n == 0 {
        lemma_times_zero(s);
        lemma_minus_basics(zero);
    } else {
        let m = (n - 1) as nat;
        lemma_sum_minus_scaled(f, g, h, s, m);
        let x = sum_to(f, m);
        let y = sum_to(g, m);
        let a = f(n - 1);
        let b = g(n - 1);
        // ((x - s y) + (a - s b)) + (s y + s b) == x + a
        lemma_plus_interchange(x.minus(s.times(y)), a.minus(s.times(b)), s.times(y), s.times(b));
        lemma_minus_plus(x, s.times(y));
        lemma_minus_plus(a, s.times(b));
        lemma_distributes(s, y, b);
        lemma_minus_unique(sum_to(h, n), x.plus(a), s.times(y.plus(b)));
    }
}

/// A sum whose summands are zero except at `i` is the summand at `i`.
pub proof fn lemma_sum_single<F: Field>(f: spec_fn(int) -> F, i: int, n: nat)
    requires
        ring_laws::<F>(),
        0 <= i < n,
        forall|k: int| 0 <= k < n && k != i ==> #[trigger] f(k) == F::zero_spec(),
    ensures
        sum_to(f, n) == f(i),
    decreases n,
{
    let m = (n - 1) as nat;
    if i == n - 1 {
        lemma_sum_of_zeros(f, m);
        lemma_plus_zero(f(i));
    } else {
        lemma_sum_single(f, i, m);
        lemma_plus_zero(f(i));
    }
}

/// Changing one summand changes the sum by as much: where `g` is `f` except
/// at `a`, the sum of `g` plus `f(a)` is the sum of `f` plus `g(a)`.
pub proof fn lemma_sum_one_changed<F: Field>(
    f: spec_fn(int) -> F,
    g: spec_fn(int) -> F,
    a: int,
    n: nat,
)
    requires
        ring_laws::<F>(),
        0 <= a < n,
        forall|k: int| 0 <= k < n && k != a ==> #[trigger] g(k) == f(k),
    ensures
        sum_to(g, n).plus(f(a)) == sum_to(f, n).plus(g(a)),
    decreases n,
{
    let m = (n - 1) as nat;
    if a == n - 1 {
        lemma_sum_agree(g, f, m);
        lemma_plus_associates(sum_to(f, m), g(a), f(a));
        lemma_plus_associates(sum_to(f, m), f(a), g(a));
        lemma_plus_commutes(f(a), g(a));
    } else {
        lemma_sum_one_changed(f, g, a, m);
        let x = sum_to(g, m);
        let y = sum_to(f, m);
        let t = f(n - 1);
        // (x + t) + f(a) == (x + f(a)) + t == (y + g(a)) + t == (y + t) + g(a)
        lemma_plus_associates(x, t, f(a));
        lemma_plus_commutes(t, f(a));
        lemma_plus_associates(x, f(a), t);
        lemma_plus_associates(y, g(a), t);
        lemma_plus_commutes(g(a), t);
        lemma_plus_associates(y, t, g(a));
    }
}

/// Changing two summands without changing what they add up to leaves the sum as it is.
pub proof fn lemma_sum_two_changed<F: Field>(
    f: spec_fn(int) -> F,
    g: spec_fn(int) -> F,
    a: int,
    b: int,
    n: nat,
)
    requires
        ring_laws::<F>(),
        0 <= a < n,
        0 <= b < n,
        a != b,
        forall|k: int| 0 <= k < n && k != a && k != b ==> #[trigger] g(k) == f(k),
        g(a).plus(g(b)) == f(a).plus(f(b)),
    ensures
        sum_to(g, n) == sum_to(f, n),
{
    let h = |k: int|
        if k == a {
            g(a)
        } else {
            f(k)
        };
    lemma_sum_one_changed(f, h, a, n);
    lemma_sum_one_changed(h, g, b, n);
    let sf = sum_to(f, n);
    let sg = sum_to(g, n);
    let sh = sum_to(h, n);
    // sh + f(a) == sf + g(a);  sg + f(b) == sh + g(b)
    // (sg + f(b)) + f(a) == (sh + g(b)) + f(a) == (sh + f(a)) + g(b) == (sf + g(a)) + g(b)
    lemma_plus_associates(sh, g(b), f(a));
    lemma_plus_commutes(g(b), f(a));
    lemma_plus_associates(sh, f(a), g(b));
    lemma_plus_associates(sf, g(a), g(b));
    lemma_plus_associates(sg, f(b), f(a));
    lemma_plus_commutes(f(b), f(a));
    lemma_plus_cancels(sg, sf, f(a).plus(f(b)));
}

} // verus!
