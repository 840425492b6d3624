//! Model of the implicit complete binary tree over the indices `0 .. size`.
//!
//! The tree is never materialized: node `i` has the children `2*i + 1` and
//! `2*i + 2`, and a child exists exactly when its index is below `size`.
//! Every node `j >= 1` therefore has the unique parent `(j - 1) / 2`, and the
//! path from the root to any node is obtained by walking upward from it.

use vstd::prelude::*;

verus! {

/// Index of the left child of node `i`.
pub open spec fn left(i: int) -> int {
    2 * i + 1
}

/// Index of the right child of node `i`.
pub open spec fn right(i: int) -> int {
    2 * i + 2
}

/// Holds when node `a` lies on the path from the root down to node `j`,
/// endpoints included.
pub open spec fn on_path(a: int, j: int) -> bool
    decreases j,
{
    if j < 0 {
        false
    } else if a == j {
        true
    } else if j == 0 {
        false
    } else {
        on_path(a, (j - 1) / 2)
    }
}

/// The tree is fully connected: the root lies on the path to every node.
pub proof fn lemma_root_on_path(j: int)
    requires
        0 <= j,
    ensures
        on_path(0, j),
    decreases j,
{
    if j > 0 {
        lemma_root_on_path((j - 1) / 2);
    }
}

/// A strict ancestor `a` of node `j` has a child that is itself on the path
/// to `j` (possibly `j` itself), and that child's index does not exceed `j`.
pub proof fn lemma_path_step(a: int, j: int) -> (c: int)
    requires
        on_path(a, j),
        a != j,
    ensures
        c == left(a) || c == right(a),
        on_path(c, j),
        c <= j,
    decreases j,
{
    let p: int = (j - 1) / 2;
    if p == a {
        j
    } else {
        let c: int = lemma_path_step(a, p);
        c
    }
}

/// Number of tree nodes in the subtree rooted at `i`, counting only indices
/// below `size`.  An out-of-range root contributes nothing.
pub open spec fn weight(size: int, i: int) -> nat
    decreases size - i,
{
    if i < 0 || size <= i {
        0
    } else {
        let lw: nat = if left(i) < size {
            weight(size, left(i))
        } else {
            0
        };
        let rw: nat = if right(i) < size {
            weight(size, right(i))
        } else {
            0
        };
        1 + lw + rw
    }
}

/// Combined weight of all pending nodes in a work list.  Each loop iteration
/// of a traversal removes one node and adds its in-range children, so this
/// quantity shrinks by exactly one per iteration and bounds the work left.
pub open spec fn total_weight(size: int, q: Seq<usize>) -> nat
    decreases q.len(),
{
    if q.len() == 0 {
        0
    } else {
        weight(size, q[0] as int) + total_weight(size, q.drop_first())
    }
}

/// Appending a node adds exactly its weight to the total.
pub proof fn lemma_total_weight_push(size: int, q: Seq<usize>, x: usize)
    ensures
        total_weight(size, q.push(x)) == total_weight(size, q) + weight(size, x as int),
    decreases q.len(),
{
    if q.len() == 0 {
        assert(q.push(x).drop_first() =~= Seq::<usize>::empty());
        assert(total_weight(size, Seq::<usize>::empty()) == 0);
    } else {
        lemma_total_weight_push(size, q.drop_first(), x);
        assert(q.push(x).drop_first() =~= q.drop_first().push(x));
        assert(total_weight(size, q.push(x)) == weight(size, q[0] as int) + total_weight(
            size,
            q.drop_first().push(x),
        ));
    }
}

/// The total weight splits off the last pending node as well.
pub proof fn lemma_total_weight_last(size: int, q: Seq<usize>)
    requires
        q.len() > 0,
    ensures
        total_weight(size, q) == total_weight(size, q.drop_last()) + weight(
            size,
            q.last() as int,
        ),
    decreases q.len(),
{
    if q.len() == 1 {
        assert(q.drop_last() =~= Seq::<usize>::empty());
        assert(q.drop_first() =~= Seq::<usize>::empty());
    } else {
        lemma_total_weight_last(size, q.drop_first());
        assert(q.drop_first().drop_last() =~= q.drop_last().drop_first());
        assert(q.drop_last()[0] == q[0]);
        assert(total_weight(size, q) == weight(size, q[0] as int) + total_weight(
            size,
            q.drop_first(),
        ));
        assert(total_weight(size, q.drop_last()) == weight(size, q[0] as int) + total_weight(
            size,
            q.drop_last().drop_first(),
        ));
    }
}

/// All pending node indices lie below `size`.
pub open spec fn all_below(q: Seq<usize>, size: usize) -> bool {
    forall|k: int| 0 <= k < q.len() ==> (#[trigger] q[k]) < size
}

/// Some pending node in `q` lies on the path from the root to `target`.
pub open spec fn has_path_to(q: Seq<usize>, target: int) -> bool {
    exists|k: int| 0 <= k < q.len() && on_path((#[trigger] q[k]) as int, target)
}

} // verus!
