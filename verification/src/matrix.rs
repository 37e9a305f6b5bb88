//! Fixed-shape matrices: construction, arithmetic, row reduction, rank and inversion.

use vstd::prelude::*;
use crate::algebra::dot_spec;
use crate::echelon::{
    is_reduced, lemma_rank_is_pivot_count, lemma_reduce_idempotent, lemma_reduce_is_reduced,
};
use crate::error::Error;
use crate::field::{field_laws, pivot_laws, ring_laws, Field};
use crate::inversion::lemma_inverse_is_inverse;
use crate::reduction::{
    eliminate, eliminate_row, find_pivot, first_zero_row, is_grid, is_zero_row, normalize,
    pivot_count, pivot_step, rank_spec, reduce_from, reduce_spec, swap_spec,
};
use crate::vector::{dot, lemma_vector_of, vector_of, Vector};

verus! {

/// A grid of `R` rows of `C` scalars each. Its view is the sequence of its
/// rows, each a sequence of `C` scalars.
#[derive(Debug, Copy, Clone, PartialEq)]
pub struct Matrix<F: Field, const R: usize, const C: usize>([[F; C]; R]);

/// The rows of a nested array, each as a sequence.
pub open spec fn grid<F, const R: usize, const C: usize>(a: [[F; C]; R]) -> Seq<Seq<F>> {
    Seq::new(R as nat, |i: int| a@[i]@)
}

impl<F: Field, const R: usize, const C: usize> View for Matrix<F, R, C> {
    type V = Seq<Seq<F>>;

    closed spec fn view(&self) -> Seq<Seq<F>> {
        grid(self.0)
    }
}

/// The matrix whose rows are those of `m`, a grid of `R` rows and `C` columns.
pub open spec fn matrix_of<F: Field, const R: usize, const C: usize>(m: Seq<Seq<F>>) -> Matrix<
    F,
    R,
    C,
> {
    choose|a: Matrix<F, R, C>| a@ == m
}

/// A matrix has `R` rows of `C` entries and is determined by them.
pub proof fn lemma_matrix_of<F: Field, const R: usize, const C: usize>(a: Matrix<F, R, C>)
    ensures
        is_grid(a@, R as nat, C as nat),
        matrix_of::<F, R, C>(a@) == a,
{
    let b = matrix_of::<F, R, C>(a@);
    assert(b@ == a@);
    assert forall|i: int| 0 <= i < R implies b.0@[i] == a.0@[i] by {
        assert(b@[i] == a@[i]);
        assert(b.0@[i] =~= a.0@[i]);
    }
    assert(b.0 =~= a.0);
}

/// Column `j` of a grid, from top to bottom.
pub open spec fn column_spec<F>(m: Seq<Seq<F>>, j: int) -> Seq<F> {
    Seq::new(m.len(), |i: int| m[i][j])
}

/// The grid of `cols` columns turned so that its columns become rows.
pub open spec fn transpose_spec<F>(m: Seq<Seq<F>>, cols: nat) -> Seq<Seq<F>> {
    Seq::new(cols, |j: int| column_spec(m, j))
}

/// Every entry multiplied by `scalar` from the left.
pub open spec fn mscale_spec<F: Field>(scalar: F, m: Seq<Seq<F>>) -> Seq<Seq<F>> {
    Seq::new(m.len(), |i: int| Seq::new(m[i].len(), |j: int| scalar.times(m[i][j])))
}

/// Every entry divided by `scalar`.
pub open spec fn mdiv_spec<F: Field>(scalar: F, m: Seq<Seq<F>>) -> Seq<Seq<F>> {
    Seq::new(m.len(), |i: int| Seq::new(m[i].len(), |j: int| m[i][j].over(scalar)))
}

/// The sums of the entries of two grids of one shape, place by place.
pub open spec fn madd_spec<F: Field>(left: Seq<Seq<F>>, right: Seq<Seq<F>>) -> Seq<Seq<F>> {
    Seq::new(left.len(), |i: int| Seq::new(left[i].len(), |j: int| left[i][j].plus(right[i][j])))
}

/// The differences of the entries of two grids of one shape, place by place.
pub open spec fn msub_spec<F: Field>(left: Seq<Seq<F>>, right: Seq<Seq<F>>) -> Seq<Seq<F>> {
    Seq::new(left.len(), |i: int| Seq::new(left[i].len(), |j: int| left[i][j].minus(right[i][j])))
}

/// Each row of `left` followed by the row of `right` at the same index.
pub open spec fn maugment_spec<F>(left: Seq<Seq<F>>, right: Seq<Seq<F>>) -> Seq<Seq<F>> {
    Seq::new(left.len(), |i: int| left[i] + right[i])
}

/// Each row of `left` followed by the entry of `right` at the same index.
pub open spec fn vaugment_spec<F>(left: Seq<Seq<F>>, right: Seq<F>) -> Seq<Seq<F>> {
    Seq::new(left.len(), |i: int| left[i].push(right[i]))
}

/// The product of two grids, the right one of `cols` columns: the entry at
/// `(i, j)` is the dot product of row `i` of `left` with column `j` of `right`.
pub open spec fn mmul_spec<F: Field>(left: Seq<Seq<F>>, right: Seq<Seq<F>>, cols: nat) -> Seq<
    Seq<F>,
> {
    Seq::new(left.len(), |i: int| Seq::new(cols, |j: int| dot_spec(left[i], column_spec(right, j))))
}

/// The product of a grid with a column: entry `i` is the dot product of row
/// `i` with `right`.
pub open spec fn vmul_spec<F: Field>(left: Seq<Seq<F>>, right: Seq<F>) -> Seq<F> {
    Seq::new(left.len(), |i: int| dot_spec(left[i], right))
}

/// The outer product: the entry at `(i, j)` is `left[i]` times `right[j]`.
pub open spec fn outer_spec<F: Field>(left: Seq<F>, right: Seq<F>) -> Seq<Seq<F>> {
    Seq::new(left.len(), |i: int| Seq::new(right.len(), |j: int| left[i].times(right[j])))
}

/// The identity grid of dimension `d`: one on the diagonal and zero elsewhere.
pub open spec fn identity_spec<F: Field>(d: nat) -> Seq<Seq<F>> {
    Seq::new(
        d,
        |i: int|
            Seq::new(
                d,
                |j: int|
                    if i == j {
                        F::one_spec()
                    } else {
                        F::zero_spec()
                    },
            ),
    )
}

/// The grid of the given shape that holds zero everywhere.
pub open spec fn zero_spec<F: Field>(rows: nat, cols: nat) -> Seq<Seq<F>> {
    Seq::new(rows, |i: int| Seq::new(cols, |j: int| F::zero_spec()))
}

/// The columns of `m` from column `from` on.
pub open spec fn right_block<F>(m: Seq<Seq<F>>, from: int) -> Seq<Seq<F>> {
    Seq::new(m.len(), |i: int| m[i].subrange(from, m[i].len() as int))
}

/// The inverse that reduction gives for a square grid: the right half of the
/// reduced form of the grid augmented by the identity.
pub open spec fn inverse_spec<F: Field>(m: Seq<Seq<F>>) -> Seq<Seq<F>> {
    right_block(reduce_spec(maugment_spec(m, identity_spec::<F>(m.len()))), m.len() as int)
}

/// The index of the first row at or after `from` whose entry in column `col`
/// is not zero, or `R` if there is none.
fn first_nonzero<F: Field, const R: usize, const C: usize>(
    a: &[[F; C]; R],
    col: usize,
    from: usize,
) -> (found: usize)
    requires
        col < C,
        from <= R,
    ensures
        found == find_pivot(grid(*a), col as int, from as int),
        from <= found <= R,
        found < R ==> a@[found as int]@[col as int] != F::zero_spec(),
{
    let zero = F::zero();
    let mut i: usize = from;
    while i < R
        invariant
            from <= i <= R,
            col < C,
            zero == F::zero_spec(),
            find_pivot(grid(*a), col as int, from as int) == find_pivot(
                grid(*a),
                col as int,
                i as int,
            ),
        decreases R - i,
    {
        if !a[i][col].same(zero) {
            return i;
        }
        i += 1;
    }
    R
}

/// Divides the row at `row`, from column `col` on, by its entry in column `col`.
fn scale_from<F: Field, const R: usize, const C: usize>(a: &mut [[F; C]; R], row: usize, col: usize)
    requires
        row < R,
        col < C,
        old(a)@[row as int]@[col as int] != F::zero_spec(),
    ensures
        grid(*final(a)) == normalize(grid(*old(a)), row as int, col as int),
{
    let scale: F = a[row][col];
    let mut j: usize = col;
    while j < C
        invariant
            row < R,
            col <= j <= C,
            scale == old(a)@[row as int]@[col as int],
            scale != F::zero_spec(),
            forall|i: int| 0 <= i < R && i != row ==> a@[i] == old(a)@[i],
            forall|b: int|
                0 <= b < C ==> a@[row as int]@[b] == (if col <= b < j {
                    old(a)@[row as int]@[b].over(scale)
                } else {
                    old(a)@[row as int]@[b]
                }),
        decreases C - j,
    {
        a[row][j] = a[row][j].div(scale);
        j += 1;
    }
    assert(grid(*a) =~~= normalize(grid(*old(a)), row as int, col as int));
}

/// Subtracts from every row but `row` its entry in column `col` times the row
/// at `row`, from column `col` on.
fn clear_column<F: Field, const R: usize, const C: usize>(
    a: &mut [[F; C]; R],
    row: usize,
    col: usize,
)
    requires
        row < R,
        col < C,
    ensures
        grid(*final(a)) == eliminate(grid(*old(a)), row as int, col as int),
{
    let mut i: usize = 0;
    while i < R
        invariant
            row < R,
            col < C,
            i <= R,
            a@[row as int] == old(a)@[row as int],
            forall|k: int| i <= k < R ==> a@[k] == old(a)@[k],
            forall|k: int|
                0 <= k < i && k != row ==> a@[k]@ == eliminate_row(
                    old(a)@[k]@,
                    old(a)@[row as int]@,
                    col as int,
                ),
        decreases R - i,
    {
        if i != row {
            let scale: F = a[i][col];
            let ghost before = *a;
            let mut j: usize = col;
            while j < C
                invariant
                    row < R,
                    i < R,
                    i != row,
                    col <= j <= C,
                    scale == before@[i as int]@[col as int],
                    forall|k: int| 0 <= k < R && k != i ==> a@[k] == before@[k],
                    forall|b: int|
                        0 <= b < C ==> a@[i as int]@[b] == (if col <= b < j {
                            before@[i as int]@[b].minus(scale.times(before@[row as int]@[b]))
                        } else {
                            before@[i as int]@[b]
                        }),
                decreases C - j,
            {
                a[i][j] = a[i][j].sub(scale.mul(a[row][j]));
                j += 1;
            }
            assert(a@[i as int]@ =~= eliminate_row(
                old(a)@[i as int]@,
                old(a)@[row as int]@,
                col as int,
            ));
            assert forall|k: int| 0 <= k < i && k != row implies a@[k]@ == eliminate_row(
                old(a)@[k]@,
                old(a)@[row as int]@,
                col as int,
            ) by {
                assert(a@[k] == before@[k]);
            }
        }
        i += 1;
    }
    assert(grid(*a) =~~= eliminate(grid(*old(a)), row as int, col as int));
}

/// Tells whether every entry of the row is zero.
fn row_is_zero<F: Field, const C: usize>(row: &[F; C]) -> (empty: bool)
    ensures
        empty == is_zero_row(row@),
{
    let zero = F::zero();
    let mut j: usize = 0;
    while j < C
        invariant
            j <= C,
            zero == F::zero_spec(),
            forall|b: int| 0 <= b < j ==> row@[b] == F::zero_spec(),
        decreases C - j,
    {
        if !row[j].same(zero) {
            return false;
        }
        j += 1;
    }
    true
}

impl<F: Field, const R: usize, const C: usize> Matrix<F, R, C> {
    /// The matrix with the given rows.
    pub fn from(array: [[F; C]; R]) -> (m: Matrix<F, R, C>)
        ensures
            m@ == grid(array),
    {
        Matrix(array)
    }

    /// The rows, as a nested array.
    pub fn to_array(&self) -> (array: [[F; C]; R])
        ensures
            grid(array) == self@,
    {
        self.0
    }

    /// The number of rows.
    pub fn rows(&self) -> (n: usize)
        ensures
            n == R,
            self@.len() == R,
    {
        R
    }

    /// The number of columns.
    pub fn columns(&self) -> (n: usize)
        ensures
            n == C,
            forall|i: int| 0 <= i < R ==> (#[trigger] self@[i]).len() == C,
    {
        C
    }

    /// The entry at row `row` and column `column`, or `IndexOutOfRange`.
    pub fn get(&self, row: usize, column: usize) -> (entry: Result<F, Error>)
        ensures
            row < R && column < C ==> entry == Ok::<F, Error>(self@[row as int][column as int]),
            !(row < R && column < C) ==> entry == Err::<F, Error>(Error::IndexOutOfRange),
    {
        if row < R && column < C {
            Ok(self.0[row][column])
        } else {
            Err(Error::IndexOutOfRange)
        }
    }

    /// Replaces the entry at row `row` and column `column` by `value`; where
    /// the place is out of range the matrix stays as it is and the result is
    /// `IndexOutOfRange`.
    pub fn set(&mut self, row: usize, column: usize, value: F) -> (done: Result<(), Error>)
        ensures
            row < R && column < C ==> done == Ok::<(), Error>(()) && final(self)@ == old(self)@.update(
                row as int,
                old(self)@[row as int].update(column as int, value),
            ),
            !(row < R && column < C) ==> done == Err::<(), Error>(Error::IndexOutOfRange)
                && *final(self) == *old(self),
    {
        if row < R && column < C {
            self.0[row][column] = value;
            assert(self@ =~~= old(self)@.update(
                row as int,
                old(self)@[row as int].update(column as int, value),
            ));
            Ok(())
        } else {
            Err(Error::IndexOutOfRange)
        }
    }

    /// The row at `row_index`, which must be a valid row index.
    pub fn get_row(&self, row_index: usize) -> (row: Vector<F, C>)
        requires
            row_index < R,
        ensures
            row@ == self@[row_index as int],
    {
        Vector::from(self.0[row_index])
    }

    /// The column at `column_index`, which must be a valid column index.
    pub fn get_column(&self, column_index: usize) -> (column: Vector<F, R>)
        requires
            column_index < C,
        ensures
            column@ == column_spec(self@, column_index as int),
    {
        let mut column: [F; R] = [F::zero(); R];
        for i in 0..R
            invariant
                column_index < C,
                forall|k: int| 0 <= k < i ==> column@[k] == self.0@[k]@[column_index as int],
        {
            column[i] = self.0[i][column_index];
        }
        Vector::from(column)
    }

    /// The transpose: the entry at `(j, i)` is the entry of the matrix at
    /// `(i, j)`. Transposing twice gives the matrix back.
    pub fn transpose(&self) -> (transposed: Matrix<F, C, R>)
        ensures
            transposed@ == transpose_spec(self@, C as nat),
            transpose_spec(transposed@, R as nat) == self@,
    {
        let mut result: [[F; R]; C] = [[F::zero(); R]; C];
        for i in 0..R
            invariant
                forall|a: int, b: int|
                    0 <= a < i && 0 <= b < C ==> result@[b]@[a] == self.0@[a]@[b],
        {
            for j in 0..C
                invariant
                    0 <= i < R,
                    forall|a: int, b: int|
                        0 <= a < i && 0 <= b < C ==> result@[b]@[a] == self.0@[a]@[b],
                    forall|b: int| 0 <= b < j ==> result@[b]@[i as int] == self.0@[i as int]@[b],
            {
                result[j][i] = self.0[i][j];
            }
        }
        assert(grid(result) =~~= transpose_spec(self@, C as nat));
        proof {
            lemma_matrix_of(*self);
            lemma_transpose_twice(self@, R as nat, C as nat);
        }
        Matrix::from(result)
    }

    /// The matrix with two rows exchanged; both must be valid row indices.
    pub fn swap(&self, first_row: usize, second_row: usize) -> (swapped: Matrix<F, R, C>)
        requires
            first_row < R,
            second_row < R,
        ensures
            swapped@ == swap_spec(self@, first_row as int, second_row as int),
    {
        let mut result: [[F; C]; R] = self.0;
        let temp: [F; C] = result[first_row];
        result[first_row] = result[second_row];
        result[second_row] = temp;
        assert(grid(result) =~~= swap_spec(self@, first_row as int, second_row as int));
        Matrix::from(result)
    }

    /// The reduced row-echelon form, by Gaussian elimination that takes as
    /// pivot the first non-zero entry it meets in each column.
    ///
    /// Over scalars that obey the laws of a ring and the pivot laws the result
    /// is in reduced row-echelon form, and reducing it again changes nothing.
    pub fn reduce(&self) -> (reduced: Matrix<F, R, C>)
        ensures
            reduced@ == reduce_spec(self@),
            ring_laws::<F>() && pivot_laws::<F>() ==> reduce_spec(reduced@) == reduced@,
            ring_laws::<F>() && pivot_laws::<F>() ==> exists|pivots: Seq<int>|
                is_reduced(reduced@, C as nat, pivots) && pivots.len() == pivot_count(self@),
    {
        let mut result: [[F; C]; R] = self.0;
        let mut row: usize = 0;
        let mut col: usize = 0;
        while col < C && row < R
            invariant
                row <= R,
                col <= C,
                reduce_from(grid(result), row as nat, col as nat, C as nat) == reduce_from(
                    self@,
                    0,
                    0,
                    C as nat,
                ),
            decreases C - col,
        {
            let found = first_nonzero(&result, col, row);
            if found < R {
                let ghost before = grid(result);
                let temp: [F; C] = result[row];
                result[row] = result[found];
                result[found] = temp;
                assert(grid(result) =~~= swap_spec(before, row as int, found as int));
                scale_from(&mut result, row, col);
                clear_column(&mut result, row, col);
                assert(grid(result) == pivot_step(before, row as int, col as int, found as int));
                row += 1;
            }
            col += 1;
        }
        proof {
            lemma_matrix_of(*self);
            if ring_laws::<F>() && pivot_laws::<F>() {
                lemma_reduce_idempotent(self@, R as nat, C as nat);
                let pivots = lemma_reduce_is_reduced(self@, R as nat, C as nat);
                assert(is_reduced(reduce_spec(self@), C as nat, pivots));
            }
        }
        Matrix::from(result)
    }

    /// The rank: the number of leading rows of the reduced form that are not
    /// entirely zero.
    ///
    /// Over scalars that obey the laws of a ring and the pivot laws this is
    /// the number of pivots that the reduction finds.
    pub fn rank(&self) -> (rank: usize)
        ensures
            rank == rank_spec(self@),
            rank <= R,
            ring_laws::<F>() && pivot_laws::<F>() ==> rank == pivot_count(self@) && rank <= C,
    {
        let reduced: Matrix<F, R, C> = self.reduce();
        proof {
            lemma_matrix_of(*self);
            if ring_laws::<F>() && pivot_laws::<F>() {
                lemma_rank_is_pivot_count(self@, R as nat, C as nat);
            }
        }
        let mut first_empty_row: usize = 0;
        while first_empty_row < R
            invariant
                first_empty_row <= R,
                reduced@ == reduce_spec(self@),
                first_zero_row(reduced@, 0) == first_zero_row(reduced@, first_empty_row as int),
                ring_laws::<F>() && pivot_laws::<F>() ==> rank_spec(self@) == pivot_count(self@)
                    && rank_spec(self@) <= C,
            decreases R - first_empty_row,
        {
            if row_is_zero(&reduced.0[first_empty_row]) {
                return first_empty_row;
            }
            first_empty_row += 1;
        }
        first_empty_row
    }
}

/// Every entry of the matrix multiplied by `scalar` from the left.
pub fn mscale<F: Field, const R: usize, const C: usize>(scalar: F, matrix: Matrix<F, R, C>) -> (scaled:
    Matrix<F, R, C>)
    ensures
        scaled@ == mscale_spec(scalar, matrix@),
{
    let mut result: [[F; C]; R] = [[F::zero(); C]; R];
    for i in 0..R
        invariant
            forall|a: int, b: int|
                0 <= a < i && 0 <= b < C ==> result@[a]@[b] == scalar.times(matrix.0@[a]@[b]),
    {
        for j in 0..C
            invariant
                0 <= i < R,
                forall|a: int, b: int|
                    0 <= a < i && 0 <= b < C ==> result@[a]@[b] == scalar.times(matrix.0@[a]@[b]),
                forall|b: int|
                    0 <= b < j ==> result@[i as int]@[b] == scalar.times(matrix.0@[i as int]@[b]),
        {
            result[i][j] = scalar.mul(matrix.0[i][j]);
        }
    }
    assert(grid(result) =~~= mscale_spec(scalar, matrix@));
    Matrix::from(result)
}

/// Every entry of the matrix divided by `scalar`, which must not be zero.
pub fn mdiv<F: Field, const R: usize, const C: usize>(scalar: F, matrix: Matrix<F, R, C>) -> (divided:
    Matrix<F, R, C>)
    requires
        scalar != F::zero_spec(),
    ensures
        divided@ == mdiv_spec(scalar, matrix@),
{
    let mut result: [[F; C]; R] = [[F::zero(); C]; R];
    for i in 0..R
        invariant
            scalar != F::zero_spec(),
            forall|a: int, b: int|
                0 <= a < i && 0 <= b < C ==> result@[a]@[b] == matrix.0@[a]@[b].over(scalar),
    {
        for j in 0..C
            invariant
                0 <= i < R,
                scalar != F::zero_spec(),
                forall|a: int, b: int|
                    0 <= a < i && 0 <= b < C ==> result@[a]@[b] == matrix.0@[a]@[b].over(scalar),
                forall|b: int|
                    0 <= b < j ==> result@[i as int]@[b] == matrix.0@[i as int]@[b].over(scalar),
        {
            result[i][j] = matrix.0[i][j].div(scalar);
        }
    }
    assert(grid(result) =~~= mdiv_spec(scalar, matrix@));
    Matrix::from(result)
}

/// The sum of two matrices of one shape, entry by entry.
pub fn madd<F: Field, const R: usize, const C: usize>(
    left: Matrix<F, R, C>,
    right: Matrix<F, R, C>,
) -> (sum: Matrix<F, R, C>)
    ensures
        sum@ == madd_spec(left@, right@),
{
    let mut result: [[F; C]; R] = [[F::zero(); C]; R];
    for i in 0..R
        invariant
            forall|a: int, b: int|
                0 <= a < i && 0 <= b < C ==> result@[a]@[b] == left.0@[a]@[b].plus(right.0@[a]@[b]),
    {
        for j in 0..C
            invariant
                0 <= i < R,
                forall|a: int, b: int|
                    0 <= a < i && 0 <= b < C ==> result@[a]@[b] == left.0@[a]@[b].plus(
                        right.0@[a]@[b],
                    ),
                forall|b: int|
                    0 <= b < j ==> result@[i as int]@[b] == left.0@[i as int]@[b].plus(
                        right.0@[i as int]@[b],
                    ),
        {
            result[i][j] = left.0[i][j].add(right.0[i][j]);
        }
    }
    assert(grid(result) =~~= madd_spec(left@, right@));
    Matrix::from(result)
}

/// The difference of two matrices of one shape, entry by entry.
pub fn msub<F: Field, const R: usize, const C: usize>(
    left: Matrix<F, R, C>,
    right: Matrix<F, R, C>,
) -> (difference: Matrix<F, R, C>)
    ensures
        difference@ == msub_spec(left@, right@),
{
    let mut result: [[F; C]; R] = [[F::zero(); C]; R];
    for i in 0..R
        invariant
            forall|a: int, b: int|
                0 <= a < i && 0 <= b < C ==> result@[a]@[b] == left.0@[a]@[b].minus(
                    right.0@[a]@[b],
                ),
    {
        for j in 0..C
            invariant
                0 <= i < R,
                forall|a: int, b: int|
                    0 <= a < i && 0 <= b < C ==> result@[a]@[b] == left.0@[a]@[b].minus(
                        right.0@[a]@[b],
                    ),
                forall|b: int|
                    0 <= b < j ==> result@[i as int]@[b] == left.0@[i as int]@[b].minus(
                        right.0@[i as int]@[b],
                    ),
        {
            result[i][j] = left.0[i][j].sub(right.0[i][j]);
        }
    }
    assert(grid(result) =~~= msub_spec(left@, right@));
    Matrix::from(result)
}

/// The two matrices side by side: each row of `left` followed by the row of
/// `right` at the same index. `C1C2` must be the sum of `C1` and `C2`.
pub fn maugment<
    F: Field,
    const R: usize,
    const C1: usize,
    const C2: usize,
    const C1C2: usize,
>(left: Matrix<F, R, C1>, right: Matrix<F, R, C2>) -> (joined: Matrix<F, R, C1C2>)
    requires
        C1 + C2 == C1C2,
    ensures
        joined@ == maugment_spec(left@, right@),
{
    let mut result: [[F; C1C2]; R] = [[F::zero(); C1C2]; R];
    for i in 0..R
        invariant
            C1 + C2 == C1C2,
            forall|a: int| 0 <= a < i ==> result@[a]@ == left.0@[a]@ + right.0@[a]@,
    {
        for j in 0..C1
            invariant
                0 <= i < R,
                C1 + C2 == C1C2,
                forall|a: int| 0 <= a < i ==> result@[a]@ == left.0@[a]@ + right.0@[a]@,
                forall|b: int| 0 <= b < j ==> result@[i as int]@[b] == left.0@[i as int]@[b],
        {
            result[i][j] = left.0[i][j];
        }
        for j in 0..C2
            invariant
                0 <= i < R,
                C1 + C2 == C1C2,
                forall|a: int| 0 <= a < i ==> result@[a]@ == left.0@[a]@ + right.0@[a]@,
                forall|b: int| 0 <= b < C1 ==> result@[i as int]@[b] == left.0@[i as int]@[b],
                forall|b: int| 0 <= b < j ==> result@[i as int]@[C1 + b] == right.0@[i as int]@[b],
        {
            result[i][j + C1] = right.0[i][j];
        }
        assert(result@[i as int]@ =~= left.0@[i as int]@ + right.0@[i as int]@);
    }
    assert(grid(result) =~~= maugment_spec(left@, right@));
    Matrix::from(result)
}

/// The matrix with the vector appended as its last column. `C1` must be `C + 1`.
pub fn vaugment<F: Field, const R: usize, const C: usize, const C1: usize>(
    left: Matrix<F, R, C>,
    right: Vector<F, R>,
) -> (joined: Matrix<F, R, C1>)
    requires
        C1 == C + 1,
    ensures
        joined@ == vaugment_spec(left@, right@),
{
    let mut result: [[F; C1]; R] = [[F::zero(); C1]; R];
    let entries: [F; R] = right.to_array();
    for i in 0..R
        invariant
            C1 == C + 1,
            entries@ == right@,
            forall|a: int| 0 <= a < i ==> result@[a]@ == left.0@[a]@.push(entries@[a]),
    {
        for j in 0..C
            invariant
                0 <= i < R,
                C1 == C + 1,
                forall|a: int| 0 <= a < i ==> result@[a]@ == left.0@[a]@.push(entries@[a]),
                forall|b: int| 0 <= b < j ==> result@[i as int]@[b] == left.0@[i as int]@[b],
        {
            result[i][j] = left.0[i][j];
        }
        result[i][C] = entries[i];
        assert(result@[i as int]@ =~= left.0@[i as int]@.push(entries@[i as int]));
    }
    assert(grid(result) =~~= vaugment_spec(left@, right@));
    Matrix::from(result)
}

/// The matrix product: the entry at `(i, j)` is the dot product of row `i`
/// of `left` with column `j` of `right`.
pub fn mmul<F: Field, const L: usize, const M: usize, const N: usize>(
    left: Matrix<F, L, M>,
    right: Matrix<F, M, N>,
) -> (product: Matrix<F, L, N>)
    ensures
        product@ == mmul_spec(left@, right@, N as nat),
{
    let mut result: [[F; N]; L] = [[F::zero(); N]; L];
    for i in 0..L
        invariant
            forall|a: int, b: int|
                0 <= a < i && 0 <= b < N ==> result@[a]@[b] == dot_spec(
                    left@[a],
                    column_spec(right@, b),
                ),
    {
        for j in 0..N
            invariant
                0 <= i < L,
                forall|a: int, b: int|
                    0 <= a < i && 0 <= b < N ==> result@[a]@[b] == dot_spec(
                        left@[a],
                        column_spec(right@, b),
                    ),
                forall|b: int|
                    0 <= b < j ==> result@[i as int]@[b] == dot_spec(
                        left@[i as int],
                        column_spec(right@, b),
                    ),
        {
            result[i][j] = dot(left.get_row(i), right.get_column(j));
        }
    }
    assert(grid(result) =~~= mmul_spec(left@, right@, N as nat));
    Matrix::from(result)
}

/// The product of a matrix with a vector: entry `i` is the dot product of
/// row `i` of the matrix with the vector.
pub fn vmul<F: Field, const R: usize, const C: usize>(left: Matrix<F, R, C>, right: Vector<F, C>) -> (product:
    Vector<F, R>)
    ensures
        product@ == vmul_spec(left@, right@),
{
    let mut result: [F; R] = [F::zero(); R];
    for i in 0..R
        invariant
            forall|a: int| 0 <= a < i ==> result@[a] == dot_spec(left@[a], right@),
    {
        result[i] = dot(left.get_row(i), right);
    }
    let product = Vector::from(result);
    assert(product@ =~= vmul_spec(left@, right@));
    product
}

/// The outer product: the entry at `(i, j)` is `left[i]` times `right[j]`.
pub fn outer<F: Field, const R: usize, const C: usize>(left: Vector<F, R>, right: Vector<F, C>) -> (product:
    Matrix<F, R, C>)
    ensures
        product@ == outer_spec(left@, right@),
{
    let mut result: [[F; C]; R] = [[F::zero(); C]; R];
    let u: [F; R] = left.to_array();
    let v: [F; C] = right.to_array();
    for i in 0..R
        invariant
            u@ == left@,
            v@ == right@,
            forall|a: int, b: int|
                0 <= a < i && 0 <= b < C ==> result@[a]@[b] == u@[a].times(v@[b]),
    {
        for j in 0..C
            invariant
                0 <= i < R,
                forall|a: int, b: int|
                    0 <= a < i && 0 <= b < C ==> result@[a]@[b] == u@[a].times(v@[b]),
                forall|b: int| 0 <= b < j ==> result@[i as int]@[b] == u@[i as int].times(v@[b]),
        {
            result[i][j] = u[i].mul(v[j]);
        }
    }
    assert(grid(result) =~~= outer_spec(left@, right@));
    Matrix::from(result)
}

/// The identity matrix of dimension `D`.
pub fn identity<F: Field, const D: usize>() -> (one: Matrix<F, D, D>)
    ensures
        one@ == identity_spec::<F>(D as nat),
{
    let mut result: [[F; D]; D] = [[F::zero(); D]; D];
    for i in 0..D
        invariant
            forall|a: int, b: int|
                0 <= a < D && 0 <= b < D ==> result@[a]@[b] == (if a == b && a < i {
                    F::one_spec()
                } else {
                    F::zero_spec()
                }),
    {
        result[i][i] = F::one();
    }
    assert(grid(result) =~~= identity_spec::<F>(D as nat));
    Matrix::from(result)
}

/// The square matrix of dimension `D` that holds zero everywhere.
pub fn zero<F: Field, const D: usize>() -> (nothing: Matrix<F, D, D>)
    ensures
        nothing@ == zero_spec::<F>(D as nat, D as nat),
{
    let result: [[F; D]; D] = [[F::zero(); D]; D];
    assert(grid(result) =~~= zero_spec::<F>(D as nat, D as nat));
    Matrix::from(result)
}

/// The inverse of a square matrix of full rank, read off the reduced form of
/// the matrix augmented by the identity; `NotInvertible` for any other matrix.
/// Over a field the product of the matrix with its inverse is the identity,
/// on either side.
pub fn inverse<F: Field, const R: usize, const R2: usize>(matrix: Matrix<F, R, R>) -> (inverted:
    Result<Matrix<F, R, R>, Error>)
    requires
        R + R == R2,
    ensures
        rank_spec(matrix@) == R ==> inverted.is_ok() && inverted.unwrap()@ == inverse_spec(
            matrix@,
        ),
        rank_spec(matrix@) != R ==> inverted == Err::<Matrix<F, R, R>, Error>(
            Error::NotInvertible,
        ),
        field_laws::<F>() && rank_spec(matrix@) == R ==> mmul_spec(
            matrix@,
            inverted.unwrap()@,
            R as nat,
        ) == identity_spec::<F>(R as nat) && mmul_spec(inverted.unwrap()@, matrix@, R as nat)
            == identity_spec::<F>(R as nat),
{
    if matrix.rank() != R {
        return Err(Error::NotInvertible);
    }
    proof {
        lemma_matrix_of(matrix);
        if field_laws::<F>() {
            lemma_inverse_is_inverse(matrix@, R as nat);
        }
    }
    let augmented: Matrix<F, R, R2> = maugment(matrix, identity());
    let reduced: Matrix<F, R, R2> = augmented.reduce();
    let mut result: [[F; R]; R] = [[F::zero(); R]; R];
    for i in 0..R
        invariant
            R + R == R2,
            forall|a: int, b: int| 0 <= a < i && 0 <= b < R ==> result@[a]@[b] == reduced@[a][R + b],
    {
        for j in 0..R
            invariant
                0 <= i < R,
                R + R == R2,
                forall|a: int, b: int|
                    0 <= a < i && 0 <= b < R ==> result@[a]@[b] == reduced@[a][R + b],
                forall|b: int| 0 <= b < j ==> result@[i as int]@[b] == reduced@[i as int][R + b],
        {
            result[i][j] = reduced.0[i][j + R];
        }
    }
    proof {
        lemma_matrix_of(matrix);
        lemma_matrix_of(reduced);
        assert(grid(result) =~~= right_block(reduced@, R as int));
    }
    Ok(Matrix::from(result))
}

impl<F: Field, const R: usize, const C: usize> core::ops::Add<Matrix<F, R, C>> for Matrix<F, R, C> {
    type Output = Matrix<F, R, C>;

    fn add(self, right: Matrix<F, R, C>) -> (sum: Matrix<F, R, C>)
        ensures
            sum@ == madd_spec(self@, right@),
    {
        let sum = madd(self, right);
        proof {
            lemma_matrix_of(sum);
        }
        sum
    }
}

impl<F: Field, const R: usize, const C: usize> vstd::std_specs::ops::AddSpecImpl<Matrix<F, R, C>> for Matrix<F, R, C> {
    open spec fn obeys_add_spec() -> bool {
        true
    }

    open spec fn add_req(self, right: Matrix<F, R, C>) -> bool {
        true
    }

    open spec fn add_spec(self, right: Matrix<F, R, C>) -> Matrix<F, R, C> {
        matrix_of(madd_spec(self@, right@))
    }
}

impl<F: Field, const R: usize, const C: usize> core::ops::Sub<Matrix<F, R, C>> for Matrix<F, R, C> {
    type Output = Matrix<F, R, C>;

    fn sub(self, right: Matrix<F, R, C>) -> (difference: Matrix<F, R, C>)
        ensures
            difference@ == msub_spec(self@, right@),
    {
        let difference = msub(self, right);
        proof {
            lemma_matrix_of(difference);
        }
        difference
    }
}

impl<F: Field, const R: usize, const C: usize> vstd::std_specs::ops::SubSpecImpl<Matrix<F, R, C>> for Matrix<F, R, C> {
    open spec fn obeys_sub_spec() -> bool {
        true
    }

    open spec fn sub_req(self, right: Matrix<F, R, C>) -> bool {
        true
    }

    open spec fn sub_spec(self, right: Matrix<F, R, C>) -> Matrix<F, R, C> {
        matrix_of(msub_spec(self@, right@))
    }
}

impl<F: Field, const R: usize, const C: usize> core::ops::Mul<F> for Matrix<F, R, C> {
    type Output = Matrix<F, R, C>;

    fn mul(self, scalar: F) -> (scaled: Matrix<F, R, C>)
        ensures
            scaled@ == mscale_spec(scalar, self@),
    {
        let scaled = mscale(scalar, self);
        proof {
            lemma_matrix_of(scaled);
        }
        scaled
    }
}

impl<F: Field, const R: usize, const C: usize> vstd::std_specs::ops::MulSpecImpl<F> for Matrix<F, R, C> {
    open spec fn obeys_mul_spec() -> bool {
        true
    }

    open spec fn mul_req(self, scalar: F) -> bool {
        true
    }

    open spec fn mul_spec(self, scalar: F) -> Matrix<F, R, C> {
        matrix_of(mscale_spec(scalar, self@))
    }
}

impl<F: Field, const R: usize, const C: usize> core::ops::Div<F> for Matrix<F, R, C> {
    type Output = Matrix<F, R, C>;

    fn div(self, scalar: F) -> (divided: Matrix<F, R, C>)
        ensures
            divided@ == mdiv_spec(scalar, self@),
    {
        let divided = mdiv(scalar, self);
        proof {
            lemma_matrix_of(divided);
        }
        divided
    }
}

impl<F: Field, const R: usize, const C: usize> vstd::std_specs::ops::DivSpecImpl<F> for Matrix<F, R, C> {
    open spec fn obeys_div_spec() -> bool {
        true
    }

    open spec fn div_req(self, scalar: F) -> bool {
        scalar != F::zero_spec()
    }

    open spec fn div_spec(self, scalar: F) -> Matrix<F, R, C> {
        matrix_of(mdiv_spec(scalar, self@))
    }
}

impl<F: Field, const L: usize, const M: usize, const N: usize> core::ops::Mul<Matrix<F, M, N>> for Matrix<F, L, M> {
    type Output = Matrix<F, L, N>;

    fn mul(self, right: Matrix<F, M, N>) -> (product: Matrix<F, L, N>)
        ensures
            product@ == mmul_spec(self@, right@, N as nat),
    {
        let product = mmul(self, right);
        proof {
            lemma_matrix_of(product);
        }
        product
    }
}

impl<F: Field, const L: usize, const M: usize, const N: usize> vstd::std_specs::ops::MulSpecImpl<Matrix<F, M, N>> for Matrix<F, L, M> {
    open spec fn obeys_mul_spec() -> bool {
        true
    }

    open spec fn mul_req(self, right: Matrix<F, M, N>) -> bool {
        true
    }

    open spec fn mul_spec(self, right: Matrix<F, M, N>) -> Matrix<F, L, N> {
        matrix_of(mmul_spec(self@, right@, N as nat))
    }
}

impl<F: Field, const R: usize, const C: usize> core::ops::Mul<Vector<F, C>> for Matrix<F, R, C> {
    type Output = Vector<F, R>;

    fn mul(self, right: Vector<F, C>) -> (product: Vector<F, R>)
        ensures
            product@ == vmul_spec(self@, right@),
    {
        let product = vmul(self, right);
        proof {
            lemma_vector_of(product);
        }
        product
    }
}

impl<F: Field, const R: usize, const C: usize> vstd::std_specs::ops::MulSpecImpl<Vector<F, C>> for Matrix<F, R, C> {
    open spec fn obeys_mul_spec() -> bool {
        true
    }

    open spec fn mul_req(self, right: Vector<F, C>) -> bool {
        true
    }

    open spec fn mul_spec(self, right: Vector<F, C>) -> Vector<F, R> {
        vector_of(vmul_spec(self@, right@))
    }
}

/// Transposing twice gives the grid back.
pub proof fn lemma_transpose_twice<F>(m: Seq<Seq<F>>, rows: nat, cols: nat)
    requires
        is_grid(m, rows, cols),
    ensures
        transpose_spec(transpose_spec(m, cols), rows) == m,
{
    assert(transpose_spec(transpose_spec(m, cols), rows) =~~= m);
}

} // verus!
