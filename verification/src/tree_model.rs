//! The mathematical model of a labeled ordered tree: a sequence of nodes in
//! insertion order, each carrying its label and the index of its parent
//! (`-1` for the root).  Children of a node are the nodes naming it as
//! parent, ordered by index, which is insertion order.

use vstd::prelude::*;

verus! {

/// One node of the model: the label's characters and the parent index.
pub type NodeModel = (Seq<char>, int);

/// A whole tree: nodes in insertion order.
pub type TreeShape = Seq<NodeModel>;

/// A well-formed shape: the first node is the only root and every later
/// node's parent precedes it.  This is exactly what root-first insertion
/// produces.
pub open spec fn shape_wf(nodes: TreeShape) -> bool {
    &&& (nodes.len() > 0 ==> nodes[0].1 == -1)
    &&& (forall|i: int| 1 <= i < nodes.len() ==> 0 <= #[trigger] nodes[i].1 < i)
}

/// The children of node `i` found among the first `n` nodes, ascending.
pub open spec fn children_upto(nodes: TreeShape, i: int, n: int) -> Seq<int>
    decreases n,
{
    if n <= 0 {
        Seq::<int>::empty()
    } else if nodes[n - 1].1 == i {
        children_upto(nodes, i, n - 1).push(n - 1)
    } else {
        children_upto(nodes, i, n - 1)
    }
}

/// The children of node `i`, in insertion order.
pub open spec fn child_indexes(nodes: TreeShape, i: int) -> Seq<int> {
    children_upto(nodes, i, nodes.len() as int)
}

/// Every child index lies strictly between its parent and `n`, children are
/// ascending, and membership is exactly `parent == i`.
pub proof fn lemma_children_upto(nodes: TreeShape, i: int, n: int)
    requires
        n <= nodes.len(),
    ensures
        forall|k: int|
            0 <= k < children_upto(nodes, i, n).len() ==> {
                let j = #[trigger] children_upto(nodes, i, n)[k];
                0 <= j < n && nodes[j].1 == i
            },
        forall|k1: int, k2: int|
            0 <= k1 < k2 < children_upto(nodes, i, n).len() ==> #[trigger] children_upto(
                nodes,
                i,
                n,
            )[k1] < #[trigger] children_upto(nodes, i, n)[k2],
        forall|j: int| 0 <= j < n && nodes[j].1 == i ==> children_upto(nodes, i, n).contains(j),
    decreases n,
{
    if n > 0 {
        lemma_children_upto(nodes, i, n - 1);
        let prev = children_upto(nodes, i, n - 1);
        let cur = children_upto(nodes, i, n);
        assert forall|k: int| 0 <= k < cur.len() implies {
            let j = #[trigger] cur[k];
            0 <= j < n && nodes[j].1 == i
        } by {
            if k < prev.len() {
                assert(cur[k] == prev[k]);
            } else {
                assert(nodes[n - 1].1 == i);
                assert(cur == prev.push(n - 1));
                assert(cur[k] == n - 1);
            }
        }
        assert forall|k1: int, k2: int| 0 <= k1 < k2 < cur.len() implies #[trigger] cur[k1]
            < #[trigger] cur[k2] by {
            if k2 < prev.len() {
                assert(cur[k1] == prev[k1] && cur[k2] == prev[k2]);
            } else {
                assert(nodes[n - 1].1 == i);
                assert(cur == prev.push(n - 1));
                assert(cur[k2] == n - 1);
                assert(cur[k1] == prev[k1]);
                assert(prev[k1] < n - 1);
            }
        }
        assert forall|j: int| 0 <= j < n && nodes[j].1 == i implies children_upto(
            nodes,
            i,
            n,
        ).contains(j) by {
            let prev = children_upto(nodes, i, n - 1);
            let cur = children_upto(nodes, i, n);
            if j < n - 1 {
                assert(prev.contains(j));
                let k = choose|k: int| 0 <= k < prev.len() && prev[k] == j;
                if nodes[n - 1].1 == i {
                    assert(cur == prev.push(n - 1));
                    assert(cur[k] == j);
                } else {
                    assert(cur == prev);
                    assert(cur[k] == j);
                }
            } else {
                assert(j == n - 1 && nodes[n - 1].1 == i);
                assert(cur == prev.push(n - 1));
                assert(cur[cur.len() - 1] == j);
            }
        }
    }
}

/// The chain of ancestors of node `i`: parent first, root last.
pub open spec fn ancestor_chain(nodes: TreeShape, i: int) -> Seq<int>
    decreases (if i >= 0 {
        i
    } else {
        0
    }),
{
    if 0 <= i < nodes.len() && 0 <= nodes[i].1 < i {
        seq![nodes[i].1] + ancestor_chain(nodes, nodes[i].1)
    } else {
        Seq::<int>::empty()
    }
}

/// Every ancestor is a valid index below its descendant.
pub proof fn lemma_ancestor_chain_bounds(nodes: TreeShape, i: int)
    ensures
        forall|k: int|
            0 <= k < ancestor_chain(nodes, i).len() ==> 0 <= #[trigger] ancestor_chain(
                nodes,
                i,
            )[k] < i,
    decreases (if i >= 0 {
        i
    } else {
        0
    }),
{
    if 0 <= i < nodes.len() && 0 <= nodes[i].1 < i {
        let p = nodes[i].1;
        lemma_ancestor_chain_bounds(nodes, p);
        let c = ancestor_chain(nodes, i);
        assert(c == seq![p] + ancestor_chain(nodes, p));
        assert forall|k: int| 0 <= k < c.len() implies 0 <= #[trigger] c[k] < i by {
            if k == 0 {
                assert(c[k] == p);
            } else {
                assert(c[k] == ancestor_chain(nodes, p)[k - 1]);
            }
        }
    }
}

} // verus!
