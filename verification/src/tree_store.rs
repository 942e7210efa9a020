//! Trusted bindings to the `id_tree` crate.
//!
//! The library stores its labeled trees in `id_tree::Tree<String>` and only
//! ever builds them root-first: one insert as root into an empty tree, then
//! inserts under existing nodes.  Such a tree is *canonical*: its node slots
//! are all occupied, slot indexes follow insertion order, every node's
//! children list holds exactly the indexes naming it as parent in ascending
//! order, and the root sits at index zero.  `tree_canon` names that state;
//! `tree_nodes` names the (label, parent index) sequence of the slots;
//! `node_index` names the slot index a `NodeId` carries; `id_in_tree` names
//! whether a `NodeId` was issued by this tree and still points at a slot.

use vstd::prelude::*;
use id_tree::Tree;
use id_tree::NodeId;
use crate::tree_model::TreeShape;
use crate::tree_model::child_indexes;
use crate::tree_model::ancestor_chain;

verus! {

#[verifier::external_type_specification]
#[verifier::external_body]
#[verifier::reject_recursive_types(T)]
pub struct ExTree<T>(Tree<T>);

#[verifier::external_type_specification]
#[verifier::external_body]
pub struct ExNodeId(NodeId);

/// The (label, parent index) sequence held by the tree's slots.
pub uninterp spec fn tree_nodes(t: Tree<String>) -> TreeShape;

/// The slot index carried inside a `NodeId`.
pub uninterp spec fn node_index(id: NodeId) -> int;

/// Whether `id` was issued by `t` and points at an occupied slot of it.
pub uninterp spec fn id_in_tree(t: Tree<String>, id: NodeId) -> bool;

/// Whether `t` is in the canonical state described in the module comment.
pub uninterp spec fn tree_canon(t: Tree<String>) -> bool;

/// Relies on the derived `Clone` of `id_tree::NodeId`: the clone carries the
/// same tree id and slot index as the original.
pub assume_specification[ <NodeId as Clone>::clone ](id: &NodeId) -> (r: NodeId)
    ensures
        r == *id,
;

/// Relies on `id_tree::Tree::new`: a fresh tree has no root and no slots.
#[verifier::external_body]
pub fn tree_new() -> (t: Tree<String>)
    ensures
        tree_canon(t),
        tree_nodes(t) == Seq::<(Seq<char>, int)>::empty(),
{
    Tree::new()
}

/// Relies on `id_tree::Tree::insert` with `AsRoot`: on an empty tree it
/// occupies slot zero with a parentless node and returns that slot's id;
/// it never returns an error.
#[verifier::external_body]
pub fn tree_insert_root(t: &mut Tree<String>, label: String) -> (id: NodeId)
    requires
        tree_canon(*old(t)),
        tree_nodes(*old(t)).len() == 0,
    ensures
        tree_canon(*final(t)),
        tree_nodes(*final(t)) == seq![(label@, -1int)],
        id_in_tree(*final(t), id),
        node_index(id) == 0,
{
    t.insert(id_tree::Node::new(label), id_tree::InsertBehavior::AsRoot).unwrap()
}

/// Relies on `id_tree::Tree::insert` with `UnderNode`: with no freed slots it
/// appends a slot at the end, records the given parent, appends the new index
/// to the parent's children, and returns the new slot's id; it errors only on
/// a `NodeId` the tree did not issue.
#[verifier::external_body]
pub fn tree_insert_under(t: &mut Tree<String>, label: String, parent: &NodeId) -> (id: NodeId)
    requires
        tree_canon(*old(t)),
        id_in_tree(*old(t), *parent),
    ensures
        tree_canon(*final(t)),
        0 <= node_index(*parent) < tree_nodes(*old(t)).len(),
        tree_nodes(*final(t)) == tree_nodes(*old(t)).push((label@, node_index(*parent))),
        id_in_tree(*final(t), id),
        node_index(id) == tree_nodes(*old(t)).len(),
        forall|o: NodeId| id_in_tree(*old(t), o) ==> id_in_tree(*final(t), o),
{
    t.insert(id_tree::Node::new(label), id_tree::InsertBehavior::UnderNode(parent)).unwrap()
}

/// Relies on `id_tree::Tree::root_node_id`: it returns the id of the root
/// slot, or `None` on a tree without nodes.
#[verifier::external_body]
pub fn tree_root_id(t: &Tree<String>) -> (r: Option<NodeId>)
    requires
        tree_canon(*t),
    ensures
        (match r {
            Option::Some(id) => tree_nodes(*t).len() > 0 && id_in_tree(*t, id) && node_index(id)
                == 0,
            Option::None => tree_nodes(*t).len() == 0,
        }),
{
    t.root_node_id().cloned()
}

/// Relies on `id_tree::Tree::get` and `Node::data`: a valid id yields its
/// slot's node, whose data is the label stored at insertion.
#[verifier::external_body]
pub fn tree_label_of(t: &Tree<String>, id: &NodeId) -> (r: String)
    requires
        tree_canon(*t),
        id_in_tree(*t, *id),
    ensures
        r@ == tree_nodes(*t)[node_index(*id)].0,
{
    t.get(id).unwrap().data().clone()
}

/// Relies on `id_tree::Tree::children_ids`: for a valid id it iterates the
/// node's children list, which in a canonical tree holds exactly the ids of
/// the slots naming this node as parent, in ascending index order.
#[verifier::external_body]
pub fn tree_children_of(t: &Tree<String>, id: &NodeId) -> (r: Vec<NodeId>)
    requires
        tree_canon(*t),
        id_in_tree(*t, *id),
    ensures
        (r@.map_values(|c: NodeId| node_index(c)) == child_indexes(
            tree_nodes(*t),
            node_index(*id),
        )),
        forall|k: int| 0 <= k < r@.len() ==> id_in_tree(*t, #[trigger] r@[k]),
{
    t.children_ids(id).unwrap().cloned().collect()
}

/// Relies on `id_tree::Tree::ancestor_ids`: for a valid id it walks the
/// parent references upward, yielding the parent first and the root last.
#[verifier::external_body]
pub fn tree_ancestors_of(t: &Tree<String>, id: &NodeId) -> (r: Vec<NodeId>)
    requires
        tree_canon(*t),
        id_in_tree(*t, *id),
    ensures
        (r@.map_values(|c: NodeId| node_index(c)) == ancestor_chain(
            tree_nodes(*t),
            node_index(*id),
        )),
        forall|k: int| 0 <= k < r@.len() ==> id_in_tree(*t, #[trigger] r@[k]),
{
    t.ancestor_ids(id).unwrap().cloned().collect()
}

/// Relies on `id_tree::Tree::root_node_id`, total form: it returns the root
/// slot's id, which the tree issued, and in a canonical tree the root is
/// slot zero and exists exactly when the tree has nodes.
#[verifier::external_body]
pub fn tree_try_root(t: &Tree<String>) -> (r: Option<NodeId>)
    ensures
        (match r {
            Option::Some(id) => id_in_tree(*t, id) && (tree_canon(*t) ==> tree_nodes(*t).len() > 0
                && 0 <= node_index(id) < tree_nodes(*t).len() && node_index(id) == 0),
            Option::None => tree_canon(*t) ==> tree_nodes(*t).len() == 0,
        }),
{
    t.root_node_id().cloned()
}

/// Relies on `id_tree::Tree::get` and `Node::data`, total form: `get`
/// succeeds exactly on ids the tree issued and still holds, and then yields
/// the slot's stored label.
#[verifier::external_body]
pub fn tree_try_label(t: &Tree<String>, id: &NodeId) -> (r: Option<String>)
    ensures
        (match r {
            Option::Some(s) => id_in_tree(*t, *id) && 0 <= node_index(*id) < tree_nodes(*t).len()
                && s@ == tree_nodes(*t)[node_index(*id)].0,
            Option::None => !id_in_tree(*t, *id),
        }),
{
    match t.get(id) {
        Ok(node) => Some(node.data().clone()),
        Err(_) => None,
    }
}

/// Relies on `id_tree::Tree::children_ids`, total form: it succeeds exactly
/// on valid ids, yields ids the tree issued, and in a canonical tree the
/// children list holds exactly the slots naming this node as parent, in
/// ascending index order.
#[verifier::external_body]
pub fn tree_try_children(t: &Tree<String>, id: &NodeId) -> (r: Option<Vec<NodeId>>)
    ensures
        (match r {
            Option::Some(v) => id_in_tree(*t, *id) && (0 <= node_index(*id) < tree_nodes(
                *t,
            ).len()) && (tree_canon(*t) ==> v@.map_values(|c: NodeId| node_index(c))
                == child_indexes(tree_nodes(*t), node_index(*id))) && (forall|k: int|
                0 <= k < v@.len() ==> id_in_tree(*t, #[trigger] v@[k])),
            Option::None => !id_in_tree(*t, *id),
        }),
{
    match t.children_ids(id) {
        Ok(it) => Some(it.cloned().collect()),
        Err(_) => None,
    }
}

/// Relies on `id_tree::Tree::clone`: the clone copies every slot, parent and
/// children list at the same indexes.  The clone issues its own ids, so
/// nothing is claimed about old ids against the clone.
#[verifier::external_body]
pub fn tree_clone(t: &Tree<String>) -> (r: Tree<String>)
    requires
        tree_canon(*t),
    ensures
        tree_canon(r),
        tree_nodes(r) == tree_nodes(*t),
{
    t.clone()
}

/// Relies on `id_tree::Tree::traverse_pre_order_ids`: it visits every node
/// reachable from the root exactly once, and in a canonical tree every slot
/// is reachable from the root.
#[verifier::external_body]
pub fn tree_node_count(t: &Tree<String>) -> (n: usize)
    requires
        tree_canon(*t),
    ensures
        n == tree_nodes(*t).len(),
{
    match t.root_node_id() {
        None => 0,
        Some(root) => t.traverse_pre_order_ids(root).unwrap().count(),
    }
}

} // verus!
