//! What row reduction achieves: the reduced row-echelon form, that reducing
//! twice changes nothing, and what the rank counts.
//!
//! The results here hold for scalars that form a ring and obey the pivot
//! laws; every field does, and so do the integers with wrapping arithmetic
//! and truncating division.

use vstd::prelude::*;
use crate::field::{
    lemma_minus_basics, lemma_pivot_laws, lemma_times_one, lemma_times_zero, pivot_laws, ring_laws,
    Field,
};
use crate::matrix::{identity_spec, zero_spec};
use crate::reduction::{
    eliminate, find_pivot, first_zero_row, is_grid, is_zero_row, normalize, pivot_count,
    pivot_step, rank_spec, reduce_from, reduce_spec, swap_spec, width,
};

verus! {

/// The grid is in reduced row-echelon form in its columns before `col`, with
/// the pivots of its leading rows in the columns `pivots`: row `k` has zeros
/// before column `pivots[k]` and one in it, that column is zero in every
/// other row, the pivot columns increase from row to row, and the rows
/// without a pivot are zero before `col`.
pub open spec fn echelon<F: Field>(m: Seq<Seq<F>>, pivots: Seq<int>, col: int) -> bool {
    &&& pivots.len() <= m.len()
    &&& forall|k: int| 0 <= k < pivots.len() ==> 0 <= #[trigger] pivots[k] < col
    &&& forall|a: int, b: int|
        0 <= a < b < pivots.len() ==> #[trigger] pivots[a] < #[trigger] pivots[b]
    &&& forall|k: int, j: int|
        0 <= k < pivots.len() && 0 <= j < pivots[k] ==> #[trigger] m[k][j] == F::zero_spec()
    &&& forall|k: int| 0 <= k < pivots.len() ==> m[k][#[trigger] pivots[k]] == F::one_spec()
    &&& forall|k: int, i: int|
        0 <= k < pivots.len() && 0 <= i < m.len() && i != k ==> #[trigger] m[i][pivots[k]]
            == F::zero_spec()
    &&& forall|i: int, j: int|
        pivots.len() <= i < m.len() && 0 <= j < col ==> #[trigger] m[i][j] == F::zero_spec()
}

/// The grid of `cols` columns is in reduced row-echelon form, with its
/// pivots in the columns `pivots`: each of the leading `pivots.len()` rows
/// has one as its first non-zero entry, strictly right of the pivots above
/// it and alone in its column, and all the other rows are zero.
pub open spec fn is_reduced<F: Field>(m: Seq<Seq<F>>, cols: nat, pivots: Seq<int>) -> bool {
    echelon(m, pivots, cols as int)
}

/// What `find_pivot` finds: every row from `from` up to the result has zero
/// in column `col`, and the row at the result, if there is one, does not.
pub proof fn lemma_find_pivot<F: Field>(m: Seq<Seq<F>>, col: int, from: int)
    requires
        0 <= from <= m.len(),
    ensures
        from <= find_pivot(m, col, from) <= m.len(),
        forall|i: int| from <= i < find_pivot(m, col, from) ==> (#[trigger] m[i])[col] == F::zero_spec(),
        find_pivot(m, col, from) < m.len() ==> m[find_pivot(m, col, from)][col] != F::zero_spec(),
    decreases m.len() - from,
{
    if from < m.len() && m[from][col] == F::zero_spec() {
        lemma_find_pivot(m, col, from + 1);
    }
}

/// Where every row from `from` on has zero in column `col`, no pivot is found.
pub proof fn lemma_find_pivot_none<F: Field>(m: Seq<Seq<F>>, col: int, from: int)
    requires
        0 <= from <= m.len(),
        forall|i: int| from <= i < m.len() ==> (#[trigger] m[i])[col] == F::zero_spec(),
    ensures
        find_pivot(m, col, from) == m.len(),
    decreases m.len() - from,
{
    if from < m.len() {
        lemma_find_pivot_none(m, col, from + 1);
    }
}

/// A pivot step keeps the shape of the grid.
pub proof fn lemma_pivot_step_shape<F: Field>(
    m: Seq<Seq<F>>,
    rows: nat,
    cols: nat,
    row: int,
    col: int,
    found: int,
)
    requires
        is_grid(m, rows, cols),
        0 <= row <= found < rows,
    ensures
        is_grid(pivot_step(m, row, col, found), rows, cols),
{
    let s = swap_spec(m, row, found);
    assert(is_grid(s, rows, cols));
    let n = normalize(s, row, col);
    assert(is_grid(n, rows, cols));
}

/// A pivot step extends the echelon form by one row and one column.
pub proof fn lemma_pivot_step_echelon<F: Field>(
    m: Seq<Seq<F>>,
    rows: nat,
    cols: nat,
    pivots: Seq<int>,
    col: int,
    found: int,
)
    requires
        ring_laws::<F>(),
        pivot_laws::<F>(),
        is_grid(m, rows, cols),
        echelon(m, pivots, col),
        0 <= col < cols,
        pivots.len() <= found < rows,
        m[found][col] != F::zero_spec(),
    ensures
        echelon(pivot_step(m, pivots.len() as int, col, found), pivots.push(col), col + 1),
{
    let row = pivots.len() as int;
    let zero = F::zero_spec();
    let one = F::one_spec();
    let s = swap_spec(m, row, found);
    let n = normalize(s, row, col);
    let e = eliminate(n, row, col);
    let next = pivots.push(col);
    let pivot = m[found][col];
    assert(e == pivot_step(m, row, col, found));
    lemma_pivot_laws(pivot);
    assert(is_grid(s, rows, cols));
    assert(is_grid(n, rows, cols));
    assert(n[row][col] == one);
    // Before column `col` nothing changes but the order of two rows that are zero there.
    assert forall|i: int, j: int| 0 <= i < rows && 0 <= j < col implies #[trigger] e[i][j] == (if i
        < row {
        m[i][j]
    } else {
        zero
    }) by {
        if i == row {
            assert(m[found][j] == zero);
        } else if i == found {
            assert(m[row][j] == zero);
        } else if i > row {
            assert(m[i][j] == zero);
        }
    }
    // The new pivot column holds one in the pivot row and zero elsewhere.
    assert forall|i: int| 0 <= i < rows implies #[trigger] e[i][col] == (if i == row {
        one
    } else {
        zero
    }) by {
        if i != row {
            let x = n[i][col];
            lemma_times_one(x);
            lemma_minus_basics(x);
        }
    }
    // In the rows above, the earlier pivot columns are left of `col` and untouched.
    assert forall|k: int| 0 <= k < next.len() implies 0 <= #[trigger] next[k] < col + 1 by {
        if k < row {
            assert(next[k] == pivots[k]);
        }
    }
    assert forall|a: int, b: int| 0 <= a < b < next.len() implies #[trigger] next[a]
        < #[trigger] next[b] by {
        assert(next[a] == pivots[a]);
        if b < row {
            assert(next[b] == pivots[b]);
        }
    }
    assert forall|k: int, j: int| 0 <= k < next.len() && 0 <= j < next[k] implies #[trigger] e[k][j]
        == zero by {
        if k < row {
            assert(next[k] == pivots[k]);
            assert(m[k][j] == zero);
        }
    }
    assert forall|k: int| 0 <= k < next.len() implies e[k][#[trigger] next[k]] == one by {
        if k < row {
            assert(next[k] == pivots[k]);
            assert(e[k][pivots[k]] == m[k][pivots[k]]);
        }
    }
    assert forall|k: int, i: int|
        0 <= k < next.len() && 0 <= i < e.len() && i != k implies #[trigger] e[i][next[k]]
        == zero by {
        if k < row {
            assert(next[k] == pivots[k]);
            let j = pivots[k];
            assert(e[i][j] == (if i < row {
                m[i][j]
            } else {
                zero
            }));
            if i < row {
                assert(m[i][pivots[k]] == zero);
            }
        }
    }
    assert forall|i: int, j: int| next.len() <= i < e.len() && 0 <= j < col + 1 implies #[trigger] e[i][j]
        == zero by {
        if j < col {
            assert(e[i][j] == (if i < row {
                m[i][j]
            } else {
                zero
            }));
        }
    }
}

/// From a state in echelon form the procedure, run up to column `limit`,
/// ends in echelon form up to that column; the pivot columns it ends with are
/// returned, and there are as many of them as the procedure counts pivots.
pub proof fn lemma_reduce_from_echelon<F: Field>(
    m: Seq<Seq<F>>,
    rows: nat,
    cols: nat,
    limit: nat,
    pivots: Seq<int>,
    col: nat,
) -> (last: Seq<int>)
    requires
        ring_laws::<F>(),
        pivot_laws::<F>(),
        is_grid(m, rows, cols),
        echelon(m, pivots, col as int),
        col <= limit <= cols,
    ensures
        is_grid(reduce_from(m, pivots.len(), col, limit).0, rows, cols),
        echelon(reduce_from(m, pivots.len(), col, limit).0, last, limit as int),
        last.len() == reduce_from(m, pivots.len(), col, limit).1,
    decreases limit - col,
{
    let row = pivots.len();
    if col >= limit || row >= rows {
        pivots
    } else {
        let found = find_pivot(m, col as int, row as int);
        lemma_find_pivot(m, col as int, row as int);
        if found >= rows {
            lemma_reduce_from_echelon(m, rows, cols, limit, pivots, col + 1)
        } else {
            let next = pivot_step(m, row as int, col as int, found);
            lemma_pivot_step_shape(m, rows, cols, row as int, col as int, found);
            lemma_pivot_step_echelon(m, rows, cols, pivots, col as int, found);
            lemma_reduce_from_echelon(next, rows, cols, limit, pivots.push(col as int), col + 1)
        }
    }
}

/// Row reduction gives a grid of the same shape in reduced row-echelon form;
/// the pivot columns are returned, and their number is the pivot count.
pub proof fn lemma_reduce_is_reduced<F: Field>(m: Seq<Seq<F>>, rows: nat, cols: nat) -> (pivots:
    Seq<int>)
    requires
        ring_laws::<F>(),
        pivot_laws::<F>(),
        is_grid(m, rows, cols),
    ensures
        is_grid(reduce_spec(m), rows, cols),
        is_reduced(reduce_spec(m), cols, pivots),
        pivots.len() == pivot_count(m),
{
    if rows == 0 {
        Seq::empty()
    } else {
        lemma_reduce_from_echelon(m, rows, cols, cols, Seq::empty(), 0)
    }
}

/// On a grid in reduced row-echelon form the procedure changes nothing, from
/// any state whose cursor stands below exactly the pivots left of `col`.
pub proof fn lemma_reduce_from_fixed<F: Field>(
    m: Seq<Seq<F>>,
    rows: nat,
    cols: nat,
    pivots: Seq<int>,
    row: nat,
    col: nat,
)
    requires
        ring_laws::<F>(),
        pivot_laws::<F>(),
        is_grid(m, rows, cols),
        is_reduced(m, cols, pivots),
        row <= pivots.len(),
        col <= cols,
        forall|k: int| 0 <= k < row ==> #[trigger] pivots[k] < col,
        forall|k: int| row <= k < pivots.len() ==> #[trigger] pivots[k] >= col,
    ensures
        reduce_from(m, row, col, cols) == (m, pivots.len()),
    decreases cols - col,
{
    let zero = F::zero_spec();
    if col >= cols {
        if row < pivots.len() {
            assert(pivots[row as int] < cols);
        }
    } else if row >= rows {
    } else if row < pivots.len() && pivots[row as int] == col {
        let r = row as int;
        let c = col as int;
        assert(m[r][c] == F::one_spec());
        lemma_pivot_laws(zero);
        assert(find_pivot(m, c, r) == r);
        let s = swap_spec(m, r, r);
        assert(s =~~= m);
        let n = normalize(m, r, c);
        assert forall|j: int| 0 <= j < cols implies #[trigger] n[r][j] == m[r][j] by {
            lemma_pivot_laws(m[r][j]);
        }
        assert(n =~~= m);
        let e = eliminate(m, r, c);
        assert forall|i: int, j: int| 0 <= i < rows && 0 <= j < cols implies #[trigger] e[i][j]
            == m[i][j] by {
            if i != r && j >= c {
                assert(m[i][pivots[r]] == zero);
                lemma_times_zero(m[r][j]);
                lemma_minus_basics(m[i][j]);
            }
        }
        assert(e =~~= m);
        assert(pivot_step(m, r, c, r) == m);
        assert forall|k: int| row + 1 <= k < pivots.len() implies #[trigger] pivots[k] >= col
            + 1 by {
            assert(pivots[r] < pivots[k]);
        }
        lemma_reduce_from_fixed(m, rows, cols, pivots, row + 1, col + 1);
    } else {
        assert forall|i: int| row <= i < m.len() implies (#[trigger] m[i])[col as int] == zero by {
            if i < pivots.len() {
                assert(pivots[i] >= col);
                if i == row {
                    assert(pivots[i] != col);
                } else {
                    assert(pivots[row as int] < pivots[i]);
                }
                assert(m[i][col as int] == zero);
            } else {
                assert(m[i][col as int] == zero);
            }
        }
        lemma_find_pivot_none(m, col as int, row as int);
        lemma_reduce_from_fixed(m, rows, cols, pivots, row, col + 1);
    }
}

/// Row reduction is idempotent: reducing a reduced grid changes nothing.
pub proof fn lemma_reduce_idempotent<F: Field>(m: Seq<Seq<F>>, rows: nat, cols: nat)
    requires
        ring_laws::<F>(),
        pivot_laws::<F>(),
        is_grid(m, rows, cols),
    ensures
        reduce_spec(reduce_spec(m)) == reduce_spec(m),
{
    if rows > 0 {
        let pivots = lemma_reduce_is_reduced(m, rows, cols);
        let e = reduce_spec(m);
        assert(width(e) == cols);
        lemma_reduce_from_fixed(e, rows, cols, pivots, 0, 0);
    }
}

/// In a grid in reduced row-echelon form the first entirely zero row, looked
/// for from any of the pivot rows on, is the first row without pivot.
pub proof fn lemma_first_zero_row_of_reduced<F: Field>(
    m: Seq<Seq<F>>,
    rows: nat,
    cols: nat,
    pivots: Seq<int>,
    from: int,
)
    requires
        pivot_laws::<F>(),
        is_grid(m, rows, cols),
        is_reduced(m, cols, pivots),
        0 <= from <= pivots.len(),
    ensures
        first_zero_row(m, from) == pivots.len(),
    decreases pivots.len() - from,
{
    lemma_pivot_laws(F::zero_spec());
    if from < pivots.len() {
        assert(m[from][pivots[from]] == F::one_spec());
        assert(!is_zero_row(m[from]));
        lemma_first_zero_row_of_reduced(m, rows, cols, pivots, from + 1);
    } else if from < rows {
        assert forall|j: int| 0 <= j < m[from].len() implies m[from][j] == F::zero_spec() by {
            assert(m[from][j] == F::zero_spec());
        }
    }
}

/// The rank is the number of pivots that row reduction finds.
pub proof fn lemma_rank_is_pivot_count<F: Field>(m: Seq<Seq<F>>, rows: nat, cols: nat)
    requires
        ring_laws::<F>(),
        pivot_laws::<F>(),
        is_grid(m, rows, cols),
    ensures
        rank_spec(m) == pivot_count(m),
        rank_spec(m) <= rows,
        rank_spec(m) <= cols,
{
    let pivots = lemma_reduce_is_reduced(m, rows, cols);
    lemma_first_zero_row_of_reduced(reduce_spec(m), rows, cols, pivots, 0);
    lemma_increasing_below(pivots, cols as int);
}

/// A strictly increasing sequence of naturals below `bound` has at most `bound` entries.
pub proof fn lemma_increasing_below(s: Seq<int>, bound: int)
    requires
        forall|k: int| 0 <= k < s.len() ==> 0 <= #[trigger] s[k] < bound,
        forall|a: int, b: int| 0 <= a < b < s.len() ==> #[trigger] s[a] < #[trigger] s[b],
    ensures
        s.len() <= bound || s.len() == 0,
        forall|k: int| 0 <= k < s.len() ==> k <= #[trigger] s[k],
    decreases s.len(),
{
    if s.len() > 0 {
        let t = s.drop_last();
        lemma_increasing_below(t, bound);
        let n = s.len() - 1;
        if n > 0 {
            assert(t[n - 1] == s[n - 1]);
            assert(s[n - 1] < s[n]);
        }
        assert forall|k: int| 0 <= k < s.len() implies k <= #[trigger] s[k] by {
            if k < n {
                assert(t[k] == s[k]);
            }
        }
        assert(n <= s[n]);
    }
}

/// On a grid of zeros the procedure finds no pivot and changes nothing.
pub proof fn lemma_reduce_from_zero<F: Field>(rows: nat, cols: nat, col: nat)
    requires
        col <= cols,
    ensures
        reduce_from(zero_spec::<F>(rows, cols), 0, col, cols) == (zero_spec::<F>(rows, cols), 0nat),
    decreases cols - col,
{
    let m = zero_spec::<F>(rows, cols);
    if col < cols && rows > 0 {
        lemma_find_pivot_none(m, col as int, 0);
        lemma_reduce_from_zero::<F>(rows, cols, col + 1);
    }
}

/// The rank of a grid of zeros is zero.
pub proof fn lemma_rank_of_zero<F: Field>(rows: nat, cols: nat)
    ensures
        reduce_spec(zero_spec::<F>(rows, cols)) == zero_spec::<F>(rows, cols),
        rank_spec(zero_spec::<F>(rows, cols)) == 0,
{
    let m = zero_spec::<F>(rows, cols);
    lemma_reduce_from_zero::<F>(rows, width(m), 0);
    if rows > 0 {
        assert(width(m) == cols);
        assert(is_zero_row(m[0]));
    }
}

/// The identity is its own reduced form, and its rank is its dimension.
pub proof fn lemma_rank_of_identity<F: Field>(d: nat)
    requires
        ring_laws::<F>(),
        pivot_laws::<F>(),
    ensures
        reduce_spec(identity_spec::<F>(d)) == identity_spec::<F>(d),
        rank_spec(identity_spec::<F>(d)) == d,
{
    let m = identity_spec::<F>(d);
    let pivots = Seq::new(d, |k: int| k);
    assert(is_grid(m, d, d));
    assert(is_reduced(m, d, pivots));
    if d > 0 {
        assert(width(m) == d);
        lemma_reduce_from_fixed(m, d, d, pivots, 0, 0);
    }
    lemma_first_zero_row_of_reduced(m, d, d, pivots, 0);
}

} // verus!
