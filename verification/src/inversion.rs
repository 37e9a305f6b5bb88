//! Why the inverse that row reduction reads off the augmented grid is an
//! inverse: over a field, for a square grid of full rank, the product with
//! it is the identity on either side.

use vstd::prelude::*;
use crate::algebra::{
    dot_spec, lemma_sum_agree, lemma_sum_minus_scaled, lemma_sum_scaled, lemma_sum_single,
    lemma_sum_two_changed, products, sum_to,
};
use crate::echelon::{
    echelon, lemma_find_pivot, lemma_increasing_below, lemma_pivot_step_echelon,
    lemma_pivot_step_shape, lemma_rank_is_pivot_count,
};
use crate::field::{
    field_laws, lemma_distributes, lemma_distributes_minus, lemma_field_has_pivot_laws,
    lemma_minus_basics, lemma_minus_then_plus, lemma_over_is_times_inverse, lemma_plus_commutes,
    lemma_times_associates, lemma_times_commutes, lemma_times_one, lemma_times_zero, ring_laws,
    Field,
};
use crate::matrix::{
    column_spec, identity_spec, inverse_spec, maugment_spec, mmul_spec, right_block,
};
use crate::reduction::{
    find_pivot, is_grid, normalize, pivot_step, rank_spec, reduce_from, reduce_spec, swap_spec,
    width,
};

verus! {

/// The columns of `m` before column `upto`.
pub open spec fn left_block<F>(m: Seq<Seq<F>>, upto: int) -> Seq<Seq<F>> {
    Seq::new(m.len(), |i: int| m[i].subrange(0, upto))
}

/// The search for a pivot in a column of the left block looks at the same entries.
pub proof fn lemma_left_block_find_pivot<F: Field>(
    m: Seq<Seq<F>>,
    rows: nat,
    cols: nat,
    upto: int,
    col: int,
    from: int,
)
    requires
        is_grid(m, rows, cols),
        0 <= col < upto <= cols,
        0 <= from <= rows,
    ensures
        find_pivot(left_block(m, upto), col, from) == find_pivot(m, col, from),
    decreases rows - from,
{
    if from < rows {
        assert(left_block(m, upto)[from][col] == m[from][col]);
        lemma_left_block_find_pivot(m, rows, cols, upto, col, from + 1);
    }
}

/// Row reduction of the left block of a grid is the left block of the row
/// reduction of the grid, as long as only columns of the left block are scanned.
pub proof fn lemma_left_block_reduce<F: Field>(
    m: Seq<Seq<F>>,
    rows: nat,
    cols: nat,
    upto: nat,
    row: nat,
    col: nat,
)
    requires
        is_grid(m, rows, cols),
        col <= upto <= cols,
        row <= rows,
    ensures
        reduce_from(left_block(m, upto as int), row, col, upto) == (
            left_block(reduce_from(m, row, col, upto).0, upto as int),
            reduce_from(m, row, col, upto).1,
        ),
    decreases upto - col,
{
    let left = left_block(m, upto as int);
    if col >= upto || row >= rows {
    } else {
        lemma_left_block_find_pivot(m, rows, cols, upto as int, col as int, row as int);
        let found = find_pivot(m, col as int, row as int);
        lemma_find_pivot(m, col as int, row as int);
        if found >= rows {
            lemma_left_block_reduce(m, rows, cols, upto, row, col + 1);
        } else {
            let next = pivot_step(m, row as int, col as int, found);
            lemma_pivot_step_shape(m, rows, cols, row as int, col as int, found);
            let s = swap_spec(m, row as int, found);
            let n = normalize(s, row as int, col as int);
            assert(is_grid(s, rows, cols));
            assert(is_grid(n, rows, cols));
            let ls = swap_spec(left, row as int, found);
            let ln = normalize(ls, row as int, col as int);
            assert(ls =~~= left_block(s, upto as int));
            assert(ln =~~= left_block(n, upto as int));
            assert(pivot_step(left, row as int, col as int, found) =~~= left_block(
                next,
                upto as int,
            ));
            lemma_left_block_reduce(next, rows, cols, upto, row + 1, col + 1);
        }
    }
}

/// Once the cursor has reached the bottom, scanning further columns changes nothing.
pub proof fn lemma_reduce_from_extend<F: Field>(
    m: Seq<Seq<F>>,
    row: nat,
    col: nat,
    limit: nat,
    further: nat,
)
    requires
        limit <= further,
        reduce_from(m, row, col, limit).1 >= m.len(),
    ensures
        reduce_from(m, row, col, further) == reduce_from(m, row, col, limit),
    decreases limit - col,
{
    if col >= limit || row >= m.len() {
    } else {
        let found = find_pivot(m, col as int, row as int);
        if found >= m.len() {
            lemma_reduce_from_extend(m, row, col + 1, limit, further);
        } else {
            let next = pivot_step(m, row as int, col as int, found);
            assert(next.len() == m.len());
            lemma_reduce_from_extend(next, row + 1, col + 1, limit, further);
        }
    }
}

/// A pivot step, described on whole rows: the pivot row is the found row
/// times the inverse of its pivot entry, and every other row has its own
/// entry in the pivot column times the new pivot row subtracted.
pub proof fn lemma_pivot_step_rows<F: Field>(
    m: Seq<Seq<F>>,
    rows: nat,
    cols: nat,
    pivots: Seq<int>,
    col: int,
    found: int,
)
    requires
        field_laws::<F>(),
        is_grid(m, rows, cols),
        echelon(m, pivots, col),
        0 <= col < cols,
        pivots.len() <= found < rows,
        m[found][col] != F::zero_spec(),
    ensures
        ({
            let row = pivots.len() as int;
            let s = swap_spec(m, row, found);
            let q = F::one_spec().over(m[found][col]);
            let e = pivot_step(m, row, col, found);
            &&& forall|j: int| 0 <= j < cols ==> #[trigger] e[row][j] == s[row][j].times(q)
            &&& forall|i: int, j: int|
                0 <= i < rows && i != row && 0 <= j < cols ==> #[trigger] e[i][j] == s[i][j].minus(
                    s[i][col].times(e[row][j]),
                )
        }),
{
    let zero = F::zero_spec();
    let row = pivots.len() as int;
    let s = swap_spec(m, row, found);
    let pivot = m[found][col];
    let q = F::one_spec().over(pivot);
    let n = normalize(s, row, col);
    let e = pivot_step(m, row, col, found);
    assert(is_grid(s, rows, cols));
    assert(is_grid(n, rows, cols));
    assert forall|j: int| 0 <= j < cols implies #[trigger] e[row][j] == s[row][j].times(q) by {
        if j < col {
            assert(m[found][j] == zero);
            lemma_times_zero(q);
        } else {
            lemma_over_is_times_inverse(s[row][j], pivot);
        }
    }
    assert forall|i: int, j: int| 0 <= i < rows && i != row && 0 <= j < cols implies #[trigger] e[i][j]
        == s[i][j].minus(s[i][col].times(e[row][j])) by {
        if j < col {
            assert(m[found][j] == zero);
            assert(e[row][j] == zero);
            lemma_times_zero(s[i][col]);
            lemma_minus_basics(s[i][j]);
        }
    }
}

/// The second `n` entries of a row of `2 * n` entries.
pub open spec fn right_half<F>(v: Seq<F>, n: nat) -> Seq<F> {
    v.subrange(n as int, 2 * n as int)
}

/// The row `v`, of two halves of length `n`, has as its left half the
/// product of its right half with the grid `a`.
pub open spec fn solves<F: Field>(v: Seq<F>, a: Seq<Seq<F>>, n: nat) -> bool {
    forall|j: int|
        0 <= j < n ==> #[trigger] v[j] == dot_spec(right_half(v, n), column_spec(a, j))
}

/// A multiple of a row that solves, solves.
pub proof fn lemma_solves_scaled<F: Field>(v: Seq<F>, scaled: Seq<F>, a: Seq<Seq<F>>, n: nat, q: F)
    requires
        ring_laws::<F>(),
        is_grid(a, n, n),
        v.len() == 2 * n,
        scaled.len() == 2 * n,
        solves(v, a, n),
        forall|j: int| 0 <= j < 2 * n ==> #[trigger] scaled[j] == v[j].times(q),
    ensures
        solves(scaled, a, n),
{
    assert forall|j: int| 0 <= j < n implies #[trigger] scaled[j] == dot_spec(
        right_half(scaled, n),
        column_spec(a, j),
    ) by {
        let f = products(right_half(v, n), column_spec(a, j));
        let g = products(right_half(scaled, n), column_spec(a, j));
        assert forall|k: int| 0 <= k < n implies #[trigger] g(k) == f(k).times(q) by {
            let x = v[n + k];
            let y = a[k][j];
            assert(scaled[n + k] == x.times(q));
            lemma_times_associates(x, q, y);
            lemma_times_commutes(q, y);
            lemma_times_associates(x, y, q);
        }
        lemma_sum_scaled(f, g, q, n);
    }
}

/// A row that solves, minus a multiple of another that solves, solves.
pub proof fn lemma_solves_combined<F: Field>(
    v: Seq<F>,
    w: Seq<F>,
    combined: Seq<F>,
    a: Seq<Seq<F>>,
    n: nat,
    s: F,
)
    requires
        ring_laws::<F>(),
        is_grid(a, n, n),
        v.len() == 2 * n,
        w.len() == 2 * n,
        combined.len() == 2 * n,
        solves(v, a, n),
        solves(w, a, n),
        forall|j: int| 0 <= j < 2 * n ==> #[trigger] combined[j] == v[j].minus(s.times(w[j])),
    ensures
        solves(combined, a, n),
{
    assert forall|j: int| 0 <= j < n implies #[trigger] combined[j] == dot_spec(
        right_half(combined, n),
        column_spec(a, j),
    ) by {
        let f = products(right_half(v, n), column_spec(a, j));
        let g = products(right_half(w, n), column_spec(a, j));
        let h = products(right_half(combined, n), column_spec(a, j));
        assert forall|k: int| 0 <= k < n implies #[trigger] h(k) == f(k).minus(s.times(g(k))) by {
            let x = v[n + k];
            let y = w[n + k];
            let c = a[k][j];
            assert(combined[n + k] == x.minus(s.times(y)));
            lemma_distributes_minus(c, x, s.times(y));
            lemma_times_associates(s, y, c);
        }
        lemma_sum_minus_scaled(f, g, h, s, n);
        assert(v[j] == sum_to(f, n));
        assert(w[j] == sum_to(g, n));
    }
}

/// Every row of a grid augmented by the identity solves for that grid.
pub proof fn lemma_augmented_solves<F: Field>(a: Seq<Seq<F>>, n: nat, i: int)
    requires
        ring_laws::<F>(),
        is_grid(a, n, n),
        0 <= i < n,
    ensures
        solves(maugment_spec(a, identity_spec::<F>(n))[i], a, n),
{
    let v = maugment_spec(a, identity_spec::<F>(n))[i];
    assert forall|j: int| 0 <= j < n implies #[trigger] v[j] == dot_spec(
        right_half(v, n),
        column_spec(a, j),
    ) by {
        let f = products(right_half(v, n), column_spec(a, j));
        assert forall|k: int| 0 <= k < n && k != i implies #[trigger] f(k) == F::zero_spec() by {
            lemma_times_zero(a[k][j]);
        }
        lemma_sum_single(f, i, n);
        lemma_times_one(a[i][j]);
    }
}

/// A pivot step keeps every row solving.
pub proof fn lemma_pivot_step_solves<F: Field>(
    a: Seq<Seq<F>>,
    n: nat,
    m: Seq<Seq<F>>,
    pivots: Seq<int>,
    col: int,
    found: int,
)
    requires
        field_laws::<F>(),
        is_grid(a, n, n),
        is_grid(m, n, 2 * n),
        echelon(m, pivots, col),
        0 <= col < 2 * n,
        pivots.len() <= found < n,
        m[found][col] != F::zero_spec(),
        forall|i: int| 0 <= i < n ==> solves(#[trigger] m[i], a, n),
    ensures
        forall|i: int|
            0 <= i < n ==> solves(#[trigger] pivot_step(m, pivots.len() as int, col, found)[i], a, n),
{
    let row = pivots.len() as int;
    let s = swap_spec(m, row, found);
    let q = F::one_spec().over(m[found][col]);
    let e = pivot_step(m, row, col, found);
    lemma_pivot_step_rows(m, n, 2 * n, pivots, col, found);
    lemma_pivot_step_shape(m, n, 2 * n, row, col, found);
    assert(is_grid(s, n, 2 * n));
    assert forall|i: int| 0 <= i < n implies solves(#[trigger] s[i], a, n) by {
        if i == row {
            assert(s[i] == m[found]);
        } else if i == found {
            assert(s[i] == m[row]);
        } else {
            assert(s[i] == m[i]);
        }
    }
    lemma_solves_scaled(s[row], e[row], a, n, q);
    assert forall|i: int| 0 <= i < n implies solves(#[trigger] e[i], a, n) by {
        if i != row {
            lemma_solves_combined(s[i], e[row], e[i], a, n, s[i][col]);
        }
    }
}

/// The rows of `target` are the combinations of the rows of `m` whose
/// coefficients are the rows of `u`: the product of `u` with `m` is `target`.
pub open spec fn recovers<F: Field>(
    u: Seq<Seq<F>>,
    m: Seq<Seq<F>>,
    target: Seq<Seq<F>>,
    n: nat,
    cols: nat,
) -> bool {
    &&& is_grid(u, n, n)
    &&& forall|a: int, j: int|
        0 <= a < n && 0 <= j < cols ==> #[trigger] target[a][j] == dot_spec(
            u[a],
            column_spec(m, j),
        )
}

/// Exchanging two rows of `m` is undone by exchanging the same two columns
/// of the coefficients, which are returned.
pub proof fn lemma_recovers_swapped<F: Field>(
    u: Seq<Seq<F>>,
    m: Seq<Seq<F>>,
    target: Seq<Seq<F>>,
    n: nat,
    cols: nat,
    r: int,
    p: int,
) -> (u2: Seq<Seq<F>>)
    requires
        ring_laws::<F>(),
        is_grid(m, n, cols),
        recovers(u, m, target, n, cols),
        0 <= r < n,
        0 <= p < n,
    ensures
        recovers(u2, swap_spec(m, r, p), target, n, cols),
{
    let m2 = swap_spec(m, r, p);
    let u2 = Seq::new(
        n,
        |a: int|
            Seq::new(
                n,
                |k: int|
                    if k == r {
                        u[a][p]
                    } else if k == p {
                        u[a][r]
                    } else {
                        u[a][k]
                    },
            ),
    );
    assert forall|a: int, j: int| 0 <= a < n && 0 <= j < cols implies #[trigger] target[a][j]
        == dot_spec(u2[a], column_spec(m2, j)) by {
        let f = products(u[a], column_spec(m, j));
        let g = products(u2[a], column_spec(m2, j));
        if r == p {
            lemma_sum_agree(g, f, n);
        } else {
            lemma_plus_commutes(f(r), f(p));
            lemma_sum_two_changed(f, g, r, p, n);
        }
    }
    u2
}

/// Multiplying row `r` of `m` by `q` is undone by multiplying column `r` of
/// the coefficients by the inverse of `q`; the new coefficients are returned.
pub proof fn lemma_recovers_scaled<F: Field>(
    u: Seq<Seq<F>>,
    m: Seq<Seq<F>>,
    m2: Seq<Seq<F>>,
    target: Seq<Seq<F>>,
    n: nat,
    cols: nat,
    r: int,
    inverse: F,
    q: F,
) -> (u2: Seq<Seq<F>>)
    requires
        ring_laws::<F>(),
        is_grid(m, n, cols),
        is_grid(m2, n, cols),
        recovers(u, m, target, n, cols),
        0 <= r < n,
        inverse.times(q) == F::one_spec(),
        forall|j: int| 0 <= j < cols ==> #[trigger] m2[r][j] == m[r][j].times(q),
        forall|i: int| 0 <= i < n && i != r ==> #[trigger] m2[i] == m[i],
    ensures
        recovers(u2, m2, target, n, cols),
{
    let u2 = Seq::new(
        n,
        |a: int|
            Seq::new(
                n,
                |k: int|
                    if k == r {
                        u[a][r].times(inverse)
                    } else {
                        u[a][k]
                    },
            ),
    );
    assert forall|a: int, j: int| 0 <= a < n && 0 <= j < cols implies #[trigger] target[a][j]
        == dot_spec(u2[a], column_spec(m2, j)) by {
        let f = products(u[a], column_spec(m, j));
        let g = products(u2[a], column_spec(m2, j));
        assert forall|k: int| 0 <= k < n implies #[trigger] g(k) == f(k) by {
            if k == r {
                let x = u[a][r];
                let y = m[r][j];
                // (x * inverse) * (y * q) == x * (y * (inverse * q)) == x * y
                lemma_times_associates(x, inverse, y.times(q));
                lemma_times_associates(inverse, y, q);
                lemma_times_commutes(inverse, y);
                lemma_times_associates(y, inverse, q);
                lemma_times_one(y);
            } else {
                assert(m2[k] == m[k]);
            }
        }
        lemma_sum_agree(g, f, n);
    }
    u2
}

/// Subtracting `s` times row `r` from row `i` of `m` is undone by adding `s`
/// times column `i` of the coefficients to their column `r`; the new
/// coefficients are returned.
pub proof fn lemma_recovers_one_row<F: Field>(
    u: Seq<Seq<F>>,
    m: Seq<Seq<F>>,
    m2: Seq<Seq<F>>,
    target: Seq<Seq<F>>,
    n: nat,
    cols: nat,
    i: int,
    r: int,
    s: F,
) -> (u2: Seq<Seq<F>>)
    requires
        ring_laws::<F>(),
        is_grid(m, n, cols),
        is_grid(m2, n, cols),
        recovers(u, m, target, n, cols),
        0 <= r < n,
        0 <= i < n,
        i != r,
        forall|j: int| 0 <= j < cols ==> #[trigger] m2[i][j] == m[i][j].minus(s.times(m[r][j])),
        forall|k: int| 0 <= k < n && k != i ==> #[trigger] m2[k] == m[k],
    ensures
        recovers(u2, m2, target, n, cols),
{
    let u2 = Seq::new(
        n,
        |a: int|
            Seq::new(
                n,
                |k: int|
                    if k == r {
                        u[a][r].plus(u[a][i].times(s))
                    } else {
                        u[a][k]
                    },
            ),
    );
    assert forall|a: int, j: int| 0 <= a < n && 0 <= j < cols implies #[trigger] target[a][j]
        == dot_spec(u2[a], column_spec(m2, j)) by {
        let f = products(u[a], column_spec(m, j));
        let g = products(u2[a], column_spec(m2, j));
        assert forall|k: int| 0 <= k < n && k != i && k != r implies #[trigger] g(k) == f(k) by {
            assert(m2[k] == m[k]);
        }
        let ui = u[a][i];
        let ur = u[a][r];
        let mi = m[i][j];
        let mr = m[r][j];
        assert(m2[r] == m[r]);
        // g(i) == ui * mi - ui * (s * mr);  g(r) == ur * mr + ui * (s * mr)
        lemma_distributes_minus(ui, mi, s.times(mr));
        lemma_distributes(mr, ur, ui.times(s));
        lemma_times_associates(ui, s, mr);
        lemma_minus_then_plus(ui.times(mi), ui.times(s.times(mr)), ur.times(mr));
        assert(g(i) == ui.times(mi).minus(ui.times(s.times(mr))));
        assert(g(r) == ur.times(mr).plus(ui.times(s.times(mr))));
        lemma_sum_two_changed(f, g, i, r, n);
    }
    u2
}

/// The grid in which the rows before `done`, but for row `r`, are those of
/// `after`, and the others those of `before`.
pub open spec fn rows_mixed<F>(before: Seq<Seq<F>>, after: Seq<Seq<F>>, r: int, done: int) -> Seq<
    Seq<F>,
> {
    Seq::new(
        before.len(),
        |i: int|
            if i < done && i != r {
                after[i]
            } else {
                before[i]
            },
    )
}

/// Clearing a column with the help of row `r` can be undone, row by row; the
/// coefficients that recover the target from the rows cleared so far are returned.
pub proof fn lemma_recovers_cleared<F: Field>(
    u: Seq<Seq<F>>,
    m: Seq<Seq<F>>,
    m2: Seq<Seq<F>>,
    target: Seq<Seq<F>>,
    n: nat,
    cols: nat,
    r: int,
    col: int,
    done: nat,
) -> (u2: Seq<Seq<F>>)
    requires
        ring_laws::<F>(),
        is_grid(m, n, cols),
        is_grid(m2, n, cols),
        recovers(u, m, target, n, cols),
        0 <= r < n,
        0 <= col < cols,
        done <= n,
        forall|i: int, j: int|
            0 <= i < n && i != r && 0 <= j < cols ==> #[trigger] m2[i][j] == m[i][j].minus(
                m[i][col].times(m[r][j]),
            ),
    ensures
        recovers(u2, rows_mixed(m, m2, r, done as int), target, n, cols),
    decreases done,
{
    if done == 0 {
        assert(rows_mixed(m, m2, r, 0) =~~= m);
        u
    } else {
        let i = (done - 1) as int;
        let earlier = lemma_recovers_cleared(u, m, m2, target, n, cols, r, col, (done - 1) as nat);
        let mid = rows_mixed(m, m2, r, i);
        let next = rows_mixed(m, m2, r, done as int);
        if i == r {
            assert(next =~~= mid);
            earlier
        } else {
            assert(is_grid(mid, n, cols));
            assert(is_grid(next, n, cols));
            assert(mid[r] == m[r]);
            assert(mid[i] == m[i]);
            assert(next[i] == m2[i]);
            lemma_recovers_one_row(earlier, mid, next, target, n, cols, i, r, m[i][col])
        }
    }
}

/// A pivot step can be undone: from coefficients that recover the target
/// from the rows before the step, coefficients that recover it from the rows
/// after the step are obtained.
pub proof fn lemma_pivot_step_recovers<F: Field>(
    u: Seq<Seq<F>>,
    m: Seq<Seq<F>>,
    target: Seq<Seq<F>>,
    n: nat,
    cols: nat,
    pivots: Seq<int>,
    col: int,
    found: int,
) -> (u2: Seq<Seq<F>>)
    requires
        field_laws::<F>(),
        is_grid(m, n, cols),
        echelon(m, pivots, col),
        recovers(u, m, target, n, cols),
        0 <= col < cols,
        pivots.len() <= found < n,
        m[found][col] != F::zero_spec(),
    ensures
        recovers(u2, pivot_step(m, pivots.len() as int, col, found), target, n, cols),
{
    let row = pivots.len() as int;
    let pivot = m[found][col];
    let q = F::one_spec().over(pivot);
    let s = swap_spec(m, row, found);
    let e = pivot_step(m, row, col, found);
    lemma_pivot_step_rows(m, n, cols, pivots, col, found);
    lemma_pivot_step_shape(m, n, cols, row, col, found);
    lemma_over_is_times_inverse(pivot, pivot);
    assert(is_grid(s, n, cols));
    let u_swapped = lemma_recovers_swapped(u, m, target, n, cols, row, found);
    // The rows after scaling the pivot row and before clearing the column.
    let scaled = s.update(row, e[row]);
    assert(is_grid(scaled, n, cols));
    let u_scaled = lemma_recovers_scaled(u_swapped, s, scaled, target, n, cols, row, pivot, q);
    assert forall|i: int, j: int| 0 <= i < n && i != row && 0 <= j < cols implies #[trigger] e[i][j]
        == scaled[i][j].minus(scaled[i][col].times(scaled[row][j])) by {
        assert(scaled[i] == s[i]);
    }
    let u_cleared = lemma_recovers_cleared(u_scaled, scaled, e, target, n, cols, row, col, n);
    assert(rows_mixed(scaled, e, row, n as int) =~~= e);
    u_cleared
}

/// What holds of the augmented grid while its left half is reduced: the
/// echelon form, that every row solves for `a`, and that the target can be
/// recovered. The pivot columns and the recovering coefficients at the end
/// are returned.
pub proof fn lemma_augmented_reduce<F: Field>(
    a: Seq<Seq<F>>,
    n: nat,
    target: Seq<Seq<F>>,
    m: Seq<Seq<F>>,
    pivots: Seq<int>,
    col: nat,
    u: Seq<Seq<F>>,
) -> (last: (Seq<int>, Seq<Seq<F>>))
    requires
        field_laws::<F>(),
        is_grid(a, n, n),
        is_grid(m, n, 2 * n),
        echelon(m, pivots, col as int),
        col <= n,
        forall|i: int| 0 <= i < n ==> solves(#[trigger] m[i], a, n),
        recovers(u, m, target, n, 2 * n),
    ensures
        ({
            let end = reduce_from(m, pivots.len(), col, n);
            &&& is_grid(end.0, n, 2 * n)
            &&& echelon(end.0, last.0, n as int)
            &&& last.0.len() == end.1
            &&& forall|i: int| 0 <= i < n ==> solves(#[trigger] end.0[i], a, n)
            &&& recovers(last.1, end.0, target, n, 2 * n)
        }),
    decreases n - col,
{
    let row = pivots.len();
    if col >= n || row >= n {
        (pivots, u)
    } else {
        let found = find_pivot(m, col as int, row as int);
        lemma_find_pivot(m, col as int, row as int);
        if found >= n {
            lemma_augmented_reduce(a, n, target, m, pivots, col + 1, u)
        } else {
            lemma_field_has_pivot_laws::<F>();
            let next = pivot_step(m, row as int, col as int, found);
            lemma_pivot_step_shape(m, n, 2 * n, row as int, col as int, found);
            lemma_pivot_step_echelon(m, n, 2 * n, pivots, col as int, found);
            lemma_pivot_step_solves(a, n, m, pivots, col as int, found);
            let u2 = lemma_pivot_step_recovers(u, m, target, n, 2 * n, pivots, col as int, found);
            lemma_augmented_reduce(a, n, target, next, pivots.push(col as int), col + 1, u2)
        }
    }
}

/// A strictly increasing sequence of `n` naturals below `n` counts up from zero.
pub proof fn lemma_increasing_fills(s: Seq<int>, k: int)
    requires
        forall|i: int| 0 <= i < s.len() ==> 0 <= #[trigger] s[i] < s.len(),
        forall|i: int, j: int| 0 <= i < j < s.len() ==> #[trigger] s[i] < #[trigger] s[j],
        0 <= k < s.len(),
    ensures
        s[k] == k,
{
    lemma_increasing_below(s, s.len() as int);
    lemma_increasing_upper(s, k);
}

/// In a strictly increasing sequence of integers the entry at `k` lies below
/// the last entry by at least the number of entries between them.
pub proof fn lemma_increasing_upper(s: Seq<int>, k: int)
    requires
        forall|i: int, j: int| 0 <= i < j < s.len() ==> #[trigger] s[i] < #[trigger] s[j],
        0 <= k < s.len(),
    ensures
        s[k] + (s.len() - 1 - k) <= s[s.len() - 1],
    decreases s.len() - k,
{
    if k < s.len() - 1 {
        lemma_increasing_upper(s, k + 1);
        assert(s[k] < s[k + 1]);
    }
}

/// The inverse read off the reduced augmented grid is an inverse: for a
/// square grid of full rank over a field, its product with the grid is the
/// identity, on either side.
pub proof fn lemma_inverse_is_inverse<F: Field>(a: Seq<Seq<F>>, n: nat)
    requires
        field_laws::<F>(),
        is_grid(a, n, n),
        rank_spec(a) == n,
    ensures
        is_grid(inverse_spec(a), n, n),
        mmul_spec(a, inverse_spec(a), n) == identity_spec::<F>(n),
        mmul_spec(inverse_spec(a), a, n) == identity_spec::<F>(n),
{
    let zero = F::zero_spec();
    let one = F::one_spec();
    let eye = identity_spec::<F>(n);
    let start = maugment_spec(a, eye);
    let b = inverse_spec(a);
    assert(is_grid(start, n, 2 * n));
    if n == 0 {
        assert(mmul_spec(a, b, n) =~~= eye);
        assert(mmul_spec(b, a, n) =~~= eye);
        assert(b.len() == reduce_spec(start).len());
    } else {
        lemma_field_has_pivot_laws::<F>();
        // The state before the first column.
        assert forall|i: int| 0 <= i < n implies solves(#[trigger] start[i], a, n) by {
            lemma_augmented_solves(a, n, i);
        }
        assert forall|x: int, j: int| 0 <= x < n && 0 <= j < 2 * n implies #[trigger] start[x][j]
            == dot_spec(eye[x], column_spec(start, j)) by {
            let f = products(eye[x], column_spec(start, j));
            assert forall|k: int| 0 <= k < n && k != x implies #[trigger] f(k) == zero by {
                lemma_times_zero(start[k][j]);
            }
            lemma_sum_single(f, x, n);
            lemma_times_one(start[x][j]);
        }
        assert(is_grid(eye, n, n));
        assert(recovers(eye, start, start, n, 2 * n));
        let (pivots, u) = lemma_augmented_reduce(a, n, start, start, Seq::empty(), 0, eye);
        let end = reduce_from(start, 0, 0, n);
        let done = end.0;
        // The left half is reduced as the grid itself is, so it has full rank.
        lemma_left_block_reduce(start, n, 2 * n, n, 0, 0);
        assert(left_block(start, n as int) =~~= a);
        assert(width(a) == n);
        lemma_rank_is_pivot_count(a, n, n);
        assert(end.1 == n);
        lemma_reduce_from_extend(start, 0, 0, n, 2 * n);
        assert(width(start) == 2 * n);
        assert(reduce_spec(start) == done);
        assert(b =~~= right_block(done, n as int));
        assert(is_grid(b, n, n));
        // With a pivot in every column the left half is the identity.
        assert forall|k: int| 0 <= k < n implies #[trigger] pivots[k] == k by {
            lemma_increasing_fills(pivots, k);
        }
        assert forall|i: int, j: int| 0 <= i < n && 0 <= j < n implies #[trigger] done[i][j]
            == eye[i][j] by {
            assert(pivots[j] == j);
            if i == j {
                assert(done[j][pivots[j]] == one);
            } else {
                assert(done[i][pivots[j]] == zero);
            }
        }
        // Every row solves: the right half times the grid is the left half.
        assert forall|i: int, j: int| 0 <= i < n && 0 <= j < n implies #[trigger] mmul_spec(
            b,
            a,
            n,
        )[i][j] == eye[i][j] by {
            assert(solves(done[i], a, n));
            assert(b[i] =~= right_half(done[i], n));
            assert(done[i][j] == dot_spec(right_half(done[i], n), column_spec(a, j)));
        }
        assert(mmul_spec(b, a, n) =~~= eye);
        // The coefficients that recover the start from the end are the grid itself.
        assert forall|x: int, j: int| 0 <= x < n && 0 <= j < n implies #[trigger] u[x][j]
            == a[x][j] by {
            let f = products(u[x], column_spec(done, j));
            assert forall|k: int| 0 <= k < n && k != j implies #[trigger] f(k) == zero by {
                assert(done[k][j] == eye[k][j]);
                lemma_times_zero(u[x][k]);
            }
            lemma_sum_single(f, j, n);
            assert(done[j][j] == eye[j][j]);
            lemma_times_one(u[x][j]);
            assert(start[x][j] == dot_spec(u[x], column_spec(done, j)));
        }
        assert(u =~~= a);
        assert forall|x: int, j: int| 0 <= x < n && 0 <= j < n implies #[trigger] mmul_spec(
            a,
            b,
            n,
        )[x][j] == eye[x][j] by {
            assert(start[x][n + j] == dot_spec(u[x], column_spec(done, n + j)));
            assert(column_spec(done, n + j) =~= column_spec(b, j));
            assert(start[x][n + j] == eye[x][j]);
        }
        assert(mmul_spec(a, b, n) =~~= eye);
    }
}

} // verus!
