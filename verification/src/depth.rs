//! Depth-first search over the implicit complete binary tree.

use vstd::prelude::*;
use crate::tree::{
    left, right, on_path, weight, total_weight, all_below, has_path_to, lemma_root_on_path,
    lemma_path_step, lemma_total_weight_push, lemma_total_weight_last,
};

verus! {

/// Traverses the implicit complete binary tree on the indices `0 .. size`
/// with an explicit LIFO stack, starting from the root, and reports whether
/// `target` was reached.  The right child is pushed before the left one, so
/// each left subtree is visited before its sibling, giving a pre-order walk.
/// The traversal order differs from the breadth-first one, but the tree is
/// the same fully connected one, so the search likewise succeeds exactly
/// when `target < size`.
pub fn dfs(size: usize, target: usize) -> (found: bool)
    ensures
        found == (target < size),
{
    if size == 0 {
        return false;
    }
    let mut st: Vec<usize> = Vec::new();
    st.push(0);
    proof {
        lemma_root_on_path(target as int);
        assert(st@[0] == 0usize);
        if target < size {
            assert(on_path((st@[0]) as int, target as int));
        }
    }
    while st.len() != 0
        invariant
            all_below(st@, size),
            target < size ==> has_path_to(st@, target as int),
        decreases total_weight(size as int, st@),
    {
        let ghost q0: Seq<usize> = st@;
        let i: usize = st.pop().unwrap();
        proof {
            assert(q0[q0.len() - 1] < size);
            lemma_total_weight_last(size as int, q0);
        }
        if i == target {
            return true;
        }
        let ghost qs: Seq<usize> = st@;
        proof {
            assert(qs =~= q0.drop_last());
        }
        if i < size / 2 {
            let l: usize = 2 * i + 1;
            if l + 1 < size {
                proof {
                    lemma_total_weight_push(size as int, qs, (l + 1) as usize);
                }
                st.push(l + 1);
            }
            let ghost q1: Seq<usize> = st@;
            proof {
                lemma_total_weight_push(size as int, q1, l);
            }
            st.push(l);
        }
        proof {
            // The guard `i < size / 2` holds exactly when the left child
            // exists, and the inner check exactly when the right child does.
            assert((i < size / 2) <==> left(i as int) < size);
            // One node was consumed and replaced by its in-range children,
            // so the total weight fell by one.
            assert(weight(size as int, i as int) == 1 + (if left(i as int) < size {
                weight(size as int, left(i as int))
            } else {
                0
            }) + (if right(i as int) < size {
                weight(size as int, right(i as int))
            } else {
                0
            }));
            assert(total_weight(size as int, st@) < total_weight(size as int, q0));
            // Every stacked index is still a tree node.
            assert forall|k: int| 0 <= k < st@.len() implies (#[trigger] st@[k]) < size by {
                if k < qs.len() {
                    assert(q0[k] < size);
                    assert(st@[k] == q0[k]);
                }
            }
            // If the target is a node at all, some stacked index still lies
            // on the path from the root to it.
            if target < size {
                let k0: int = choose|k: int|
                    0 <= k < q0.len() && on_path((q0[k]) as int, target as int);
                if k0 == q0.len() - 1 {
                    let c: int = lemma_path_step(i as int, target as int);
                    assert(c < size);
                    if c == left(i as int) {
                        assert((st@[st@.len() - 1]) as int == c);
                        assert(has_path_to(st@, target as int));
                    } else {
                        assert((st@[qs.len() as int]) as int == c);
                        assert(has_path_to(st@, target as int));
                    }
                } else {
                    assert(st@[k0] == q0[k0]);
                    assert(has_path_to(st@, target as int));
                }
            }
        }
    }
    proof {
        if target < size {
            assert(has_path_to(st@, target as int));
            assert(false);
        }
    }
    false
}

} // verus!
