//! Graphs held as adjacency matrices.

use vstd::prelude::*;
use crate::matrix::{grid, lemma_matrix_of, matrix_of, Matrix};

verus! {

/// A graph on `N` vertices, as its `N` by `N` adjacency matrix. Its view is
/// the sequence of the matrix's rows.
#[derive(Debug, Copy, Clone, PartialEq)]
pub struct Graph<const N: usize>([[u8; N]; N]);

impl<const N: usize> View for Graph<N> {
    type V = Seq<Seq<u8>>;

    closed spec fn view(&self) -> Seq<Seq<u8>> {
        grid(self.0)
    }
}

/// The graph whose adjacency matrix has the rows of `m`.
pub open spec fn graph_of<const N: usize>(m: Seq<Seq<u8>>) -> Graph<N> {
    choose|g: Graph<N>| g@ == m
}

/// A graph is determined by the rows of its adjacency matrix.
pub proof fn lemma_graph_of<const N: usize>(g: Graph<N>)
    ensures
        graph_of::<N>(g@) == g,
{
    let h = graph_of::<N>(g@);
    assert(h@ == g@);
    assert forall|i: int| 0 <= i < N implies h.0@[i] == g.0@[i] by {
        assert(h@[i] == g@[i]);
        assert(h.0@[i] =~= g.0@[i]);
    }
    assert(h.0 =~= g.0);
}

impl<const N: usize> From<[[u8; N]; N]> for Graph<N> {
    fn from(array: [[u8; N]; N]) -> (g: Graph<N>)
        ensures
            g@ == grid(array),
    {
        let g = Graph(array);
        proof {
            lemma_graph_of(g);
        }
        g
    }
}

impl<const N: usize> vstd::std_specs::convert::FromSpecImpl<[[u8; N]; N]> for Graph<N> {
    open spec fn obeys_from_spec() -> bool {
        true
    }

    open spec fn from_spec(array: [[u8; N]; N]) -> Graph<N> {
        graph_of(grid(array))
    }
}

impl<const N: usize> Into<[[u8; N]; N]> for Graph<N> {
    fn into(self) -> [[u8; N]; N] {
        self.0
    }
}

impl<const N: usize> vstd::std_specs::convert::IntoSpecImpl<[[u8; N]; N]> for Graph<N> {
    open spec fn obeys_into_spec() -> bool {
        true
    }

    closed spec fn into_spec(self) -> [[u8; N]; N] {
        self.0
    }
}

/// The array that the conversion hands out holds the rows of the graph.
pub proof fn lemma_into_array<const N: usize>(g: Graph<N>)
    ensures
        grid(vstd::std_specs::convert::IntoSpec::<[[u8; N]; N]>::into_spec(g)) == g@,
{
}

impl<const N: usize> From<Matrix<u8, N, N>> for Graph<N> {
    fn from(matrix: Matrix<u8, N, N>) -> (g: Graph<N>)
        ensures
            g@ == matrix@,
    {
        let g = Graph(matrix.to_array());
        proof {
            lemma_graph_of(g);
        }
        g
    }
}

impl<const N: usize> vstd::std_specs::convert::FromSpecImpl<Matrix<u8, N, N>> for Graph<N> {
    open spec fn obeys_from_spec() -> bool {
        true
    }

    open spec fn from_spec(matrix: Matrix<u8, N, N>) -> Graph<N> {
        graph_of(matrix@)
    }
}

impl<const N: usize> Into<Matrix<u8, N, N>> for Graph<N> {
    fn into(self) -> Matrix<u8, N, N> {
        let matrix = Matrix::from(self.0);
        proof {
            lemma_matrix_of(matrix);
        }
        matrix
    }
}

impl<const N: usize> vstd::std_specs::convert::IntoSpecImpl<Matrix<u8, N, N>> for Graph<N> {
    open spec fn obeys_into_spec() -> bool {
        true
    }

    open spec fn into_spec(self) -> Matrix<u8, N, N> {
        matrix_of(self@)
    }
}

} // verus!
