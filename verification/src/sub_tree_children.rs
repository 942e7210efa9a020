//! Subtree child counting: for every node, how many nodes its subtree holds
//! down to the leaves.  With `as_leaves` set only the leaves are counted
//! (a leaf counts itself as one); otherwise every node of the subtree
//! counts, the node itself included.

use vstd::prelude::*;
use id_tree::Tree;
use id_tree::NodeId;
use crate::errors::LibError;
use crate::tree_model::TreeShape;
use crate::tree_model::shape_wf;
use crate::tree_model::child_indexes;
use crate::tree_model::lemma_children_upto;
use crate::tree_store::tree_nodes;
use crate::tree_store::tree_canon;
use crate::tree_store::id_in_tree;
use crate::tree_store::node_index;
use crate::tree_store::tree_children_of;
use crate::tree_store::tree_try_root;
use crate::tree_store::tree_label_of;

verus! {

/// The count of node `i`'s subtree: one for a leaf; otherwise the children's
/// counts, plus one for the node itself unless only leaves are counted.
pub open spec fn count_spec(nodes: TreeShape, i: int, as_leaves: bool) -> int
    decreases nodes.len() - i, 1int, 0int,
{
    if 0 <= i < nodes.len() {
        let ks = child_indexes(nodes, i);
        if ks.len() == 0 {
            1
        } else {
            (if as_leaves {
                0int
            } else {
                1int
            }) + count_kids(nodes, i, ks, 0, as_leaves)
        }
    } else {
        0
    }
}

/// The summed counts of the children `ks[t..]` of node `i`.
pub open spec fn count_kids(nodes: TreeShape, i: int, ks: Seq<int>, t: int, as_leaves: bool) -> int
    decreases nodes.len() - i, 0int, (if ks.len() - t >= 0 {
        ks.len() - t
    } else {
        0int
    }),
{
    if t >= ks.len() {
        0
    } else if i < ks[t] < nodes.len() {
        count_spec(nodes, ks[t], as_leaves) + count_kids(nodes, i, ks, t + 1, as_leaves)
    } else {
        count_kids(nodes, i, ks, t + 1, as_leaves)
    }
}

/// Counts are never negative.
pub proof fn lemma_count_nonneg(nodes: TreeShape, i: int, as_leaves: bool)
    ensures
        count_spec(nodes, i, as_leaves) >= 0,
    decreases nodes.len() - i, 1int, 0int,
{
    if 0 <= i < nodes.len() {
        let ks = child_indexes(nodes, i);
        if ks.len() != 0 {
            lemma_count_kids_nonneg(nodes, i, ks, 0, as_leaves);
        }
    }
}

pub proof fn lemma_count_kids_nonneg(
    nodes: TreeShape,
    i: int,
    ks: Seq<int>,
    t: int,
    as_leaves: bool,
)
    ensures
        count_kids(nodes, i, ks, t, as_leaves) >= 0,
    decreases nodes.len() - i, 0int, (if ks.len() - t >= 0 {
        ks.len() - t
    } else {
        0int
    }),
{
    if t < ks.len() {
        if i < ks[t] < nodes.len() {
            lemma_count_nonneg(nodes, ks[t], as_leaves);
        }
        lemma_count_kids_nonneg(nodes, i, ks, t + 1, as_leaves);
    }
}

/// The (label, count) pairs of node `i`'s subtree in pre-order.
pub open spec fn pairs_sub(nodes: TreeShape, i: int, as_leaves: bool) -> Seq<(Seq<char>, int)>
    decreases nodes.len() - i, 1int, 0int,
{
    if 0 <= i < nodes.len() {
        seq![(nodes[i].0, count_spec(nodes, i, as_leaves))] + pairs_kids(
            nodes,
            i,
            child_indexes(nodes, i),
            0,
            as_leaves,
        )
    } else {
        Seq::<(Seq<char>, int)>::empty()
    }
}

/// The pre-order pairs of the subtrees of the children `ks[t..]`.
pub open spec fn pairs_kids(nodes: TreeShape, i: int, ks: Seq<int>, t: int, as_leaves: bool) -> Seq<
    (Seq<char>, int),
>
    decreases nodes.len() - i, 0int, (if ks.len() - t >= 0 {
        ks.len() - t
    } else {
        0int
    }),
{
    if t >= ks.len() {
        Seq::<(Seq<char>, int)>::empty()
    } else if i < ks[t] < nodes.len() {
        pairs_sub(nodes, ks[t], as_leaves) + pairs_kids(nodes, i, ks, t + 1, as_leaves)
    } else {
        pairs_kids(nodes, i, ks, t + 1, as_leaves)
    }
}

/// The models of a vector of (label, count) pairs.
pub open spec fn pair_models(v: Seq<(String, usize)>) -> Seq<(Seq<char>, int)> {
    v.map_values(|p: (String, usize)| (p.0@, p.1 as int))
}

/// Whether a node has no children.
pub fn is_leaf(t: &Tree<String>, id: &NodeId) -> (r: Result<bool, LibError>)
    requires
        tree_canon(*t),
        id_in_tree(*t, *id),
    ensures
        (match r {
            Ok(b) => b == (child_indexes(tree_nodes(*t), node_index(*id)).len() == 0),
            Err(_) => false,
        }),
{
    let kids: Vec<NodeId> = tree_children_of(t, id);
    proof {
        assert(kids@.map_values(|c: NodeId| node_index(c)).len() == kids@.len());
    }
    Ok(kids.len() == 0)
}

/// The subtree count of one node.
pub fn subtree_count(t: &Tree<String>, id: &NodeId, as_leaves: bool) -> (r: Result<usize, LibError>)
    requires
        tree_canon(*t),
        shape_wf(tree_nodes(*t)),
        id_in_tree(*t, *id),
        0 <= node_index(*id) < tree_nodes(*t).len(),
    ensures
        (match r {
            Ok(c) => c as int == count_spec(tree_nodes(*t), node_index(*id), as_leaves),
            Err(e) => e == LibError::ArithmeticOverflow && count_spec(
                tree_nodes(*t),
                node_index(*id),
                as_leaves,
            ) > usize::MAX,
        }),
    decreases tree_nodes(*t).len() - node_index(*id), 1int, 0int,
{
    let ghost nodes = tree_nodes(*t);
    let ghost i = node_index(*id);
    let kids: Vec<NodeId> = tree_children_of(t, id);
    let ghost ks = child_indexes(nodes, i);
    proof {
        lemma_children_upto(nodes, i, nodes.len() as int);
        assert(kids@.map_values(|c: NodeId| node_index(c)).len() == kids@.len());
    }
    if kids.len() == 0 {
        return Ok(1);
    }
    let mut total: usize = if as_leaves {
        0
    } else {
        1
    };
    let ghost base: int = if as_leaves {
        0int
    } else {
        1int
    };
    let mut k: usize = 0;
    while k < kids.len()
        invariant
            k <= kids@.len(),
            tree_canon(*t),
            shape_wf(nodes),
            nodes == tree_nodes(*t),
            i == node_index(*id),
            0 <= i < nodes.len(),
            ks == child_indexes(nodes, i),
            (kids@.map_values(|c: NodeId| node_index(c)) == ks),
            forall|j: int| 0 <= j < kids@.len() ==> id_in_tree(*t, #[trigger] kids@[j]),
            ks.len() == kids@.len(),
            base == (if as_leaves {
                0int
            } else {
                1int
            }),
            base + count_kids(nodes, i, ks, 0, as_leaves) == total + count_kids(
                nodes,
                i,
                ks,
                k as int,
                as_leaves,
            ),
        decreases kids@.len() - k,
    {
        proof {
            lemma_children_upto(nodes, i, nodes.len() as int);
            assert(node_index(kids@[k as int]) == ks[k as int]);
            assert(0 <= ks[k as int] < nodes.len() && nodes[ks[k as int]].1 == i);
            if ks[k as int] == 0 {
                assert(nodes[0].1 == -1);
                assert(false);
            }
            assert(0 <= nodes[ks[k as int]].1 < ks[k as int]);
            assert(i < ks[k as int] < nodes.len());
        }
        let ghost kid = ks[k as int];
        let c: usize = match subtree_count(t, &kids[k], as_leaves) {
            Ok(c) => c,
            Err(e) => {
                proof {
                    lemma_count_kids_nonneg(nodes, i, ks, k as int + 1, as_leaves);
                    assert(count_kids(nodes, i, ks, k as int, as_leaves) == count_spec(
                        nodes,
                        kid,
                        as_leaves,
                    ) + count_kids(nodes, i, ks, k as int + 1, as_leaves));
                    assert(count_spec(nodes, i, as_leaves) == base + count_kids(
                        nodes,
                        i,
                        ks,
                        0,
                        as_leaves,
                    ));
                    assert(count_spec(nodes, i, as_leaves) > usize::MAX);
                }
                return Err(e);
            },
        };
        let next: usize = match total.checked_add(c) {
            Some(x) => x,
            None => {
                proof {
                    lemma_count_kids_nonneg(nodes, i, ks, k as int + 1, as_leaves);
                    assert(count_kids(nodes, i, ks, k as int, as_leaves) == count_spec(
                        nodes,
                        kid,
                        as_leaves,
                    ) + count_kids(nodes, i, ks, k as int + 1, as_leaves));
                    assert(count_spec(nodes, i, as_leaves) == base + count_kids(
                        nodes,
                        i,
                        ks,
                        0,
                        as_leaves,
                    ));
                    assert(count_spec(nodes, i, as_leaves) > usize::MAX);
                }
                return Err(LibError::ArithmeticOverflow);
            },
        };
        total = next;
        k = k + 1;
    }
    Ok(total)
}

/// Appends the pre-order (label, count) pairs of one subtree.
fn collect_pairs(
    t: &Tree<String>,
    id: &NodeId,
    as_leaves: bool,
    out: &mut Vec<(String, usize)>,
) -> (r: Result<(), LibError>)
    requires
        tree_canon(*t),
        shape_wf(tree_nodes(*t)),
        id_in_tree(*t, *id),
        0 <= node_index(*id) < tree_nodes(*t).len(),
    ensures
        (match r {
            Ok(()) => pair_models(final(out)@) == pair_models(old(out)@) + pairs_sub(
                tree_nodes(*t),
                node_index(*id),
                as_leaves,
            ),
            Err(e) => e == LibError::ArithmeticOverflow,
        }),
    decreases tree_nodes(*t).len() - node_index(*id), 1int, 0int,
{
    let ghost nodes = tree_nodes(*t);
    let ghost i = node_index(*id);
    let count: usize = match subtree_count(t, id, as_leaves) {
        Ok(c) => c,
        Err(e) => {
            return Err(e);
        },
    };
    let label: String = tree_label_of(t, id);
    let ghost before = out@;
    proof {
        assert(pair_models(before.push((label, count))) =~= pair_models(before) + seq![
            (label@, count as int),
        ]);
    }
    out.push((label, count));
    let kids: Vec<NodeId> = tree_children_of(t, id);
    let ghost ks = child_indexes(nodes, i);
    proof {
        lemma_children_upto(nodes, i, nodes.len() as int);
        assert(kids@.map_values(|c: NodeId| node_index(c)).len() == kids@.len());
    }
    let mut k: usize = 0;
    while k < kids.len()
        invariant
            k <= kids@.len(),
            tree_canon(*t),
            shape_wf(nodes),
            nodes == tree_nodes(*t),
            i == node_index(*id),
            0 <= i < nodes.len(),
            ks == child_indexes(nodes, i),
            (kids@.map_values(|c: NodeId| node_index(c)) == ks),
            forall|j: int| 0 <= j < kids@.len() ==> id_in_tree(*t, #[trigger] kids@[j]),
            ks.len() == kids@.len(),
            pair_models(out@) + pairs_kids(nodes, i, ks, k as int, as_leaves) == pair_models(
                old(out)@,
            ) + pairs_sub(nodes, i, as_leaves),
        decreases kids@.len() - k,
    {
        proof {
            lemma_children_upto(nodes, i, nodes.len() as int);
            assert(node_index(kids@[k as int]) == ks[k as int]);
            assert(0 <= ks[k as int] < nodes.len() && nodes[ks[k as int]].1 == i);
            if ks[k as int] == 0 {
                assert(nodes[0].1 == -1);
                assert(false);
            }
            assert(0 <= nodes[ks[k as int]].1 < ks[k as int]);
            assert(i < ks[k as int] < nodes.len());
        }
        match collect_pairs(t, &kids[k], as_leaves, out) {
            Ok(()) => (),
            Err(e) => {
                return Err(e);
            },
        }
        k = k + 1;
        proof {
            assert(pair_models(out@) + pairs_kids(nodes, i, ks, k as int, as_leaves) =~~= pair_models(
                old(out)@,
            ) + pairs_sub(nodes, i, as_leaves));
        }
    }
    Ok(())
}

/// The pre-order (label, count) pairs of the whole tree: each node's label
/// with the size of its subtree, leaves only or all nodes.
pub fn get_sub_children(t: &Tree<String>, as_leaves: bool) -> (r: Result<
    Vec<(String, usize)>,
    LibError,
>)
    requires
        tree_canon(*t),
        shape_wf(tree_nodes(*t)),
    ensures
        (match r {
            Ok(v) => tree_nodes(*t).len() > 0 && pair_models(v@) == pairs_sub(
                tree_nodes(*t),
                0,
                as_leaves,
            ),
            Err(e) => (e == LibError::EmptyStructure && tree_nodes(*t).len() == 0) || e
                == LibError::ArithmeticOverflow,
        }),
{
    let root: NodeId = match tree_try_root(t) {
        Some(id) => id,
        None => {
            return Err(LibError::EmptyStructure);
        },
    };
    let mut out: Vec<(String, usize)> = Vec::new();
    match collect_pairs(t, &root, as_leaves, &mut out) {
        Ok(()) => {
            proof {
                assert(pair_models(out@) =~~= pairs_sub(tree_nodes(*t), 0, as_leaves));
            }
            Ok(out)
        },
        Err(e) => Err(e),
    }
}

/// The subtree count computed under a recursion budget, capped at the
/// machine range: exhausting the budget on a node that still has children
/// reports the nesting error, and a sum past the range reports overflow.
pub open spec fn count_fuel(nodes: TreeShape, i: int, as_leaves: bool, fuel: nat) -> Result<
    int,
    LibError,
>
    decreases fuel, 1int, 0int,
{
    if !(0 <= i < nodes.len()) {
        Err(LibError::TokenIdOutOfRange)
    } else {
        let ks = child_indexes(nodes, i);
        if ks.len() == 0 {
            Ok(1)
        } else {
            count_fuel_kids(
                nodes,
                ks,
                0,
                as_leaves,
                fuel,
                (if as_leaves {
                    0int
                } else {
                    1int
                }),
            )
        }
    }
}

/// The left-to-right accumulation of the budgeted counts of `ks[t..]` onto
/// `acc`, each child counted with one budget unit less.
pub open spec fn count_fuel_kids(
    nodes: TreeShape,
    ks: Seq<int>,
    t: int,
    as_leaves: bool,
    fuel: nat,
    acc: int,
) -> Result<int, LibError>
    decreases fuel, 0int, (if ks.len() - t >= 0 {
        ks.len() - t
    } else {
        0int
    }),
{
    if t >= ks.len() {
        Ok(acc)
    } else if fuel == 0 {
        Err(LibError::TooDeep)
    } else {
        match count_fuel(nodes, ks[t], as_leaves, (fuel - 1) as nat) {
            Err(e) => Err(e),
            Ok(c) => {
                if acc + c > usize::MAX {
                    Err(LibError::ArithmeticOverflow)
                } else {
                    count_fuel_kids(nodes, ks, t + 1, as_leaves, fuel, acc + c)
                }
            },
        }
    }
}

/// A budgeted count lies between zero and the machine range.
pub proof fn lemma_count_fuel_range(nodes: TreeShape, i: int, as_leaves: bool, fuel: nat)
    ensures
        (match count_fuel(nodes, i, as_leaves, fuel) {
            Ok(c) => 0 <= c <= usize::MAX,
            Err(_) => true,
        }),
    decreases fuel, 1int, 0int,
{
    if 0 <= i < nodes.len() {
        let ks = child_indexes(nodes, i);
        if ks.len() != 0 {
            lemma_count_fuel_kids_range(
                nodes,
                ks,
                0,
                as_leaves,
                fuel,
                (if as_leaves {
                    0int
                } else {
                    1int
                }),
            );
        }
    }
}

pub proof fn lemma_count_fuel_kids_range(
    nodes: TreeShape,
    ks: Seq<int>,
    t: int,
    as_leaves: bool,
    fuel: nat,
    acc: int,
)
    requires
        0 <= acc <= usize::MAX,
    ensures
        (match count_fuel_kids(nodes, ks, t, as_leaves, fuel, acc) {
            Ok(c) => acc <= c <= usize::MAX,
            Err(_) => true,
        }),
    decreases fuel, 0int, (if ks.len() - t >= 0 {
        ks.len() - t
    } else {
        0int
    }),
{
    if t < ks.len() && fuel > 0 {
        lemma_count_fuel_range(nodes, ks[t], as_leaves, (fuel - 1) as nat);
        match count_fuel(nodes, ks[t], as_leaves, (fuel - 1) as nat) {
            Err(_) => (),
            Ok(c) => {
                if acc + c <= usize::MAX {
                    lemma_count_fuel_kids_range(nodes, ks, t + 1, as_leaves, fuel, acc + c);
                }
            },
        }
    }
}

/// The budgeted count, executably and without preconditions: on a canonical
/// well-formed tree it reports `count_fuel` of the node exactly.
pub fn subtree_count_fuel(t: &Tree<String>, id: &NodeId, as_leaves: bool, fuel: usize) -> (r:
    Result<usize, LibError>)
    ensures
        (tree_canon(*t) && shape_wf(tree_nodes(*t)) && id_in_tree(*t, *id)) ==> (match count_fuel(
            tree_nodes(*t),
            node_index(*id),
            as_leaves,
            fuel as nat,
        ) {
            Ok(c) => r == Result::<usize, LibError>::Ok(c as usize) && c == c as usize as int,
            Err(e) => r == Result::<usize, LibError>::Err(e),
        }),
    decreases fuel, 1int, 0int,
{
    let ghost nodes = tree_nodes(*t);
    let ghost i = node_index(*id);
    let ghost good = tree_canon(*t) && shape_wf(tree_nodes(*t)) && id_in_tree(*t, *id);
    let kids: Vec<NodeId> = match crate::tree_store::tree_try_children(t, id) {
        Some(v) => v,
        None => {
            return Err(LibError::TokenIdOutOfRange);
        },
    };
    let ghost ks = child_indexes(nodes, i);
    proof {
        if good {
            assert(kids@.map_values(|c: NodeId| node_index(c)).len() == kids@.len());
        }
    }
    if kids.len() == 0 {
        return Ok(1);
    }
    let mut total: usize = if as_leaves {
        0
    } else {
        1
    };
    let mut k: usize = 0;
    while k < kids.len()
        invariant
            k <= kids@.len(),
            kids@.len() > 0,
            nodes == tree_nodes(*t),
            i == node_index(*id),
            ks == child_indexes(nodes, i),
            good == (tree_canon(*t) && shape_wf(tree_nodes(*t)) && id_in_tree(*t, *id)),
            good ==> (0 <= i < nodes.len() && kids@.map_values(|c: NodeId| node_index(c)) == ks
                && ks.len() == kids@.len() && (forall|j: int|
                0 <= j < kids@.len() ==> id_in_tree(*t, #[trigger] kids@[j]))),
            good ==> (count_fuel(nodes, i, as_leaves, fuel as nat) == count_fuel_kids(
                nodes,
                ks,
                k as int,
                as_leaves,
                fuel as nat,
                total as int,
            )),
        decreases kids@.len() - k,
    {
        if fuel == 0 {
            return Err(LibError::TooDeep);
        }
        proof {
            if good {
                assert(node_index(kids@[k as int]) == ks[k as int]);
            }
        }
        let c: usize = match subtree_count_fuel(t, &kids[k], as_leaves, fuel - 1) {
            Ok(c) => c,
            Err(e) => {
                return Err(e);
            },
        };
        let next: usize = match total.checked_add(c) {
            Some(x) => x,
            None => {
                return Err(LibError::ArithmeticOverflow);
            },
        };
        total = next;
        k = k + 1;
    }
    Ok(total)
}

/// With enough budget on a well-formed shape, the budgeted count is the
/// plain count whenever nothing along the way exceeds the machine range.
pub proof fn lemma_count_fuel_eq(nodes: TreeShape, i: int, as_leaves: bool, fuel: nat)
    requires
        shape_wf(nodes),
        0 <= i < nodes.len(),
        fuel >= nodes.len() - i,
        count_spec(nodes, i, as_leaves) <= usize::MAX,
    ensures
        count_fuel(nodes, i, as_leaves, fuel) == Result::<int, LibError>::Ok(
            count_spec(nodes, i, as_leaves),
        ),
    decreases nodes.len() - i, 1int, 0int,
{
    let ks = child_indexes(nodes, i);
    lemma_children_upto(nodes, i, nodes.len() as int);
    if ks.len() != 0 {
        let base: int = if as_leaves {
            0int
        } else {
            1int
        };
        lemma_count_fuel_kids_eq(nodes, i, ks, 0, as_leaves, fuel, base);
    }
}

pub proof fn lemma_count_fuel_kids_eq(
    nodes: TreeShape,
    i: int,
    ks: Seq<int>,
    t: int,
    as_leaves: bool,
    fuel: nat,
    acc: int,
)
    requires
        shape_wf(nodes),
        0 <= i < nodes.len(),
        ks == child_indexes(nodes, i),
        0 <= t <= ks.len(),
        fuel >= nodes.len() - i,
        acc >= 0,
        acc + count_kids(nodes, i, ks, t, as_leaves) <= usize::MAX,
    ensures
        count_fuel_kids(nodes, ks, t, as_leaves, fuel, acc) == Result::<int, LibError>::Ok(
            acc + count_kids(nodes, i, ks, t, as_leaves),
        ),
    decreases nodes.len() - i, 0int, ks.len() - t,
{
    lemma_children_upto(nodes, i, nodes.len() as int);
    lemma_count_kids_nonneg(nodes, i, ks, t, as_leaves);
    if t < ks.len() {
        let c = ks[t];
        assert(0 <= c < nodes.len() && nodes[c].1 == i);
        if c == 0 {
            assert(nodes[0].1 == -1);
            assert(false);
        }
        assert(i < c);
        assert(fuel >= 1);
        lemma_count_nonneg(nodes, c, as_leaves);
        lemma_count_kids_nonneg(nodes, i, ks, t + 1, as_leaves);
        lemma_count_fuel_eq(nodes, c, as_leaves, (fuel - 1) as nat);
        lemma_count_fuel_kids_eq(
            nodes,
            i,
            ks,
            t + 1,
            as_leaves,
            fuel,
            acc + count_spec(nodes, c, as_leaves),
        );
    }
}

} // verus!
