//! Three verified searches over implicit integer structures.
//!
//! A complete binary tree over the indices `0 .. size` is traversed breadth
//! first ([`bfs`]) and depth first ([`dfs`]), and an implicitly sorted
//! sequence in which position `i` holds the value `i` is bisected ([`bsearch`]).
//! None of the structures is materialized: children and cell values are
//! computed from index arithmetic alone.  Each search reports whether
//! `target` occurs, and each is proved to return `true` exactly when
//! `target < size`.

use vstd::prelude::*;

pub mod binary;
pub mod breadth;
pub mod depth;
pub mod tree;

pub use binary::bsearch;
pub use binary::bsearch_count;
pub use breadth::bfs;
pub use depth::dfs;

verus! {

/// Breadth-first and depth-first search agree on every input: any pair of
/// results that meets the two search contracts for the same `size` and
/// `target` is a pair of equal booleans, even though the traversal orders
/// behind the two contracts differ.
pub proof fn lemma_bfs_dfs_agree(size: usize, target: usize, bfs_found: bool, dfs_found: bool)
    requires
        bfs_found == (target < size),
        dfs_found == (target < size),
    ensures
        bfs_found == dfs_found,
{
}

/// An empty structure holds nothing: with `size` zero, any result that
/// meets one of the three search contracts is false, whatever the target.
pub proof fn lemma_empty_not_found(size: usize, target: usize, found: bool)
    requires
        size == 0,
        found == (target < size),
    ensures
        !found,
{
}

} // verus!
