//! Row reduction as a mathematical procedure on grids of scalars.
//!
//! A grid is a sequence of rows, each a sequence of scalars. The procedure
//! walks the columns from left to right with a cursor row; in each column it
//! looks for the first non-zero entry at or below the cursor, brings that row
//! up to the cursor, scales it so that the entry becomes one, and clears the
//! column in every other row.

use vstd::prelude::*;
use crate::field::Field;

verus! {

/// Whether `m` has `rows` rows of `cols` entries each.
pub open spec fn is_grid<F>(m: Seq<Seq<F>>, rows: nat, cols: nat) -> bool {
    &&& m.len() == rows
    &&& forall|i: int| 0 <= i < rows ==> (#[trigger] m[i]).len() == cols
}

/// The number of columns of a grid: the length of its first row, and zero for
/// a grid without rows.
pub open spec fn width<F>(m: Seq<Seq<F>>) -> nat {
    if m.len() == 0 {
        0
    } else {
        m[0].len()
    }
}

/// The index of the first row at or after `from` whose entry in column `col`
/// is not zero, or the number of rows if there is none.
pub open spec fn find_pivot<F: Field>(m: Seq<Seq<F>>, col: int, from: int) -> int
    decreases m.len() - from,
{
    if from >= m.len() {
        m.len() as int
    } else if m[from][col] != F::zero_spec() {
        from
    } else {
        find_pivot(m, col, from + 1)
    }
}

/// The grid with rows `a` and `b` exchanged.
pub open spec fn swap_spec<F>(m: Seq<Seq<F>>, a: int, b: int) -> Seq<Seq<F>> {
    Seq::new(
        m.len(),
        |i: int|
            if i == a {
                m[b]
            } else if i == b {
                m[a]
            } else {
                m[i]
            },
    )
}

/// The row with every entry from column `col` on divided by `pivot`.
pub open spec fn scale_row<F: Field>(row: Seq<F>, col: int, pivot: F) -> Seq<F> {
    Seq::new(
        row.len(),
        |j: int|
            if j >= col {
                row[j].over(pivot)
            } else {
                row[j]
            },
    )
}

/// The row with `row[col]` times the pivot row subtracted from it, from
/// column `col` on.
pub open spec fn eliminate_row<F: Field>(row: Seq<F>, pivot_row: Seq<F>, col: int) -> Seq<F> {
    Seq::new(
        row.len(),
        |j: int|
            if j >= col {
                row[j].minus(row[col].times(pivot_row[j]))
            } else {
                row[j]
            },
    )
}

/// The grid with the row at `row` scaled by its own entry in column `col`.
pub open spec fn normalize<F: Field>(m: Seq<Seq<F>>, row: int, col: int) -> Seq<Seq<F>> {
    m.update(row, scale_row(m[row], col, m[row][col]))
}

/// The grid with column `col` cleared in every row but `row`, by subtracting
/// multiples of the row at `row`.
pub open spec fn eliminate<F: Field>(m: Seq<Seq<F>>, row: int, col: int) -> Seq<Seq<F>> {
    Seq::new(
        m.len(),
        |i: int|
            if i == row {
                m[i]
            } else {
                eliminate_row(m[i], m[row], col)
            },
    )
}

/// One pivot: the row at `found` comes up to `row`, is scaled to have one in
/// column `col`, and clears that column everywhere else.
pub open spec fn pivot_step<F: Field>(m: Seq<Seq<F>>, row: int, col: int, found: int) -> Seq<
    Seq<F>,
> {
    eliminate(normalize(swap_spec(m, row, found), row, col), row, col)
}

/// The procedure from the state in which the cursor is at `row` and the
/// columns before `col` are done: the final grid, and the final cursor, which
/// is the number of pivots found in all.
pub open spec fn reduce_from<F: Field>(m: Seq<Seq<F>>, row: nat, col: nat, cols: nat) -> (
    Seq<Seq<F>>,
    nat,
)
    decreases cols - col,
{
    if col >= cols || row >= m.len() {
        (m, row)
    } else {
        let found = find_pivot(m, col as int, row as int);
        if found >= m.len() {
            reduce_from(m, row, col + 1, cols)
        } else {
            reduce_from(pivot_step(m, row as int, col as int, found), row + 1, col + 1, cols)
        }
    }
}

/// The reduced row-echelon form that the procedure gives for `m`.
pub open spec fn reduce_spec<F: Field>(m: Seq<Seq<F>>) -> Seq<Seq<F>> {
    reduce_from(m, 0, 0, width(m)).0
}

/// The number of pivots that the procedure finds in `m`.
pub open spec fn pivot_count<F: Field>(m: Seq<Seq<F>>) -> nat {
    reduce_from(m, 0, 0, width(m)).1
}

/// Whether every entry of the row is zero.
pub open spec fn is_zero_row<F: Field>(row: Seq<F>) -> bool {
    forall|j: int| 0 <= j < row.len() ==> row[j] == F::zero_spec()
}

/// The index of the first row at or after `from` that is entirely zero, or
/// the number of rows if there is none.
pub open spec fn first_zero_row<F: Field>(m: Seq<Seq<F>>, from: int) -> int
    decreases m.len() - from,
{
    if from >= m.len() {
        m.len() as int
    } else if is_zero_row(m[from]) {
        from
    } else {
        first_zero_row(m, from + 1)
    }
}

/// The rank of `m`: the number of leading rows of its reduced form that are
/// not entirely zero.
pub open spec fn rank_spec<F: Field>(m: Seq<Seq<F>>) -> nat {
    first_zero_row(reduce_spec(m), 0) as nat
}

} // verus!
