//! Shared items of the schedule's dependency graphs.
use vstd::prelude::*;

verus! {

/// Edge direction.
#[derive(Clone, Copy, Debug, PartialEq, Eq, Hash, PartialOrd, Ord, Structural)]
pub enum Direction {
    /// An `Outgoing` edge is an outward edge *from* the current node.
    Outgoing,
    /// An `Incoming` edge is an inbound edge *to* the current node.
    Incoming,
}

/// Specifies what kind of edge should be added to the dependency graph.
#[derive(Clone, Copy, Debug, PartialEq, Eq, Hash, PartialOrd, Ord, Structural)]
pub enum DependencyKind {
    /// A node that should be preceded.
    Before,
    /// A node that should be succeeded.
    After,
}

/// Converts 2D row-major pair of indices into a 1D array index.
pub fn index(row: usize, col: usize, num_cols: usize) -> (r: usize)
    requires
        col < num_cols,
        row * num_cols + col <= usize::MAX,
    ensures
        r == row * num_cols + col,
{
    (row * num_cols) + col
}

/// Converts a 1D array index into a 2D row-major pair of indices.
pub fn row_col(index: usize, num_cols: usize) -> (r: (usize, usize))
    requires
        num_cols > 0,
    ensures
        r.0 == index / num_cols,
        r.1 == index % num_cols,
{
    (index / num_cols, index % num_cols)
}

/// Converting a row and column to an index and back gives the same row and
/// column.
pub proof fn lemma_row_col_of_index(row: usize, col: usize, num_cols: usize)
    requires
        col < num_cols,
    ensures
        (row * num_cols + col) / (num_cols as int) == row,
        (row * num_cols + col) % (num_cols as int) == col,
{
    vstd::arithmetic::div_mod::lemma_fundamental_div_mod_converse(
        row * num_cols + col,
        num_cols as int,
        row as int,
        col as int,
    );
}

/// Converting an index to a row and column and back gives the same index.
pub proof fn lemma_index_of_row_col(idx: usize, num_cols: usize)
    requires
        num_cols > 0,
    ensures
        (idx / num_cols) * num_cols + idx % num_cols == idx,
        idx % num_cols < num_cols,
{
    vstd::arithmetic::div_mod::lemma_fundamental_div_mod(idx as int, num_cols as int);
    assert((idx / num_cols) * num_cols == num_cols * (idx / num_cols)) by (nonlinear_arith);
}

} // verus!
