//! Breadth-first search over the implicit complete binary tree.

use std::collections::VecDeque;
use vstd::prelude::*;
use crate::tree::{
    left, right, on_path, weight, total_weight, all_below, has_path_to, lemma_root_on_path,
    lemma_path_step, lemma_total_weight_push,
};

verus! {

/// Traverses the implicit complete binary tree on the indices `0 .. size`
/// level by level, starting from the root, with a FIFO work queue, and
/// reports whether `target` was reached.  Node `i` has the children
/// `2*i + 1` and `2*i + 2`, each present exactly when below `size`.  The
/// tree is fully connected, so the search succeeds exactly when `target`
/// is one of its nodes, that is, when `target < size`.
pub fn bfs(size: usize, target: usize) -> (found: bool)
    ensures
        found == (target < size),
{
    if size == 0 {
        return false;
    }
    let mut q: VecDeque<usize> = VecDeque::new();
    q.push_back(0);
    proof {
        lemma_root_on_path(target as int);
        assert(q@[0] == 0usize);
        if target < size {
            assert(on_path((q@[0]) as int, target as int));
        }
    }
    while q.len() != 0
        invariant
            all_below(q@, size),
            target < size ==> has_path_to(q@, target as int),
        decreases total_weight(size as int, q@),
    {
        let ghost q0: Seq<usize> = q@;
        let i: usize = q.pop_front().unwrap();
        proof {
            assert(q0[0] < size);
        }
        if i == target {
            return true;
        }
        let ghost qs: Seq<usize> = q@;
        proof {
            assert(qs =~= q0.drop_first());
        }
        if i < size / 2 {
            let l: usize = 2 * i + 1;
            proof {
                lemma_total_weight_push(size as int, qs, l);
            }
            q.push_back(l);
            let ghost q1: Seq<usize> = q@;
            if l + 1 < size {
                proof {
                    lemma_total_weight_push(size as int, q1, (l + 1) as usize);
                }
                q.push_back(l + 1);
            }
        }
        proof {
            // The check `i < size / 2` holds exactly when the left child
            // exists, and the inner check exactly when the right child does.
            assert((i < size / 2) <==> left(i as int) < size);
            // One node of weight at least one was consumed and replaced by
            // its in-range children, so the total weight fell by one.
            assert(weight(size as int, i as int) == 1 + (if left(i as int) < size {
                weight(size as int, left(i as int))
            } else {
                0
            }) + (if right(i as int) < size {
                weight(size as int, right(i as int))
            } else {
                0
            }));
            assert(total_weight(size as int, q0) == weight(size as int, i as int) + total_weight(
                size as int,
                qs,
            ));
            assert(total_weight(size as int, q@) < total_weight(size as int, q0));
            // Every queued index is still a tree node.
            assert forall|k: int| 0 <= k < q@.len() implies (#[trigger] q@[k]) < size by {
                if k < qs.len() {
                    assert(q0[k + 1] < size);
                    assert(q@[k] == q0[k + 1]);
                }
            }
            // If the target is a node at all, some queued index still lies
            // on the path from the root to it.
            if target < size {
                let k0: int = choose|k: int|
                    0 <= k < q0.len() && on_path((q0[k]) as int, target as int);
                if k0 == 0 {
                    let c: int = lemma_path_step(i as int, target as int);
                    assert(c < size);
                    if c == left(i as int) {
                        assert((q@[qs.len() as int]) as int == c);
                        assert(has_path_to(q@, target as int));
                    } else {
                        assert((q@[qs.len() as int + 1]) as int == c);
                        assert(has_path_to(q@, target as int));
                    }
                } else {
                    assert(q@[k0 - 1] == q0[k0]);
                    assert(has_path_to(q@, target as int));
                }
            }
        }
    }
    proof {
        if target < size {
            assert(has_path_to(q@, target as int));
            assert(false);
        }
    }
    false
}

} // verus!
