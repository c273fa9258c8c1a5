//! The node store: an `id_tree::Tree`, and what this crate relies on of it.
use super::syntax_tree::NodeData;
use super::tree_model::{inserted, is_forest, removed, swapped, with_leaf, Slot};
use id_tree::NodeId;
use vstd::prelude::*;

verus! {

#[verifier::external_type_specification]
#[verifier::external_body]
#[verifier::reject_recursive_types(T)]
pub struct ExTree<T>(id_tree::Tree<T>);

#[verifier::external_type_specification]
#[verifier::external_body]
pub struct ExNodeId(id_tree::NodeId);

#[verifier::external_type_specification]
pub struct ExNodeIdError(id_tree::NodeIdError);

/// The nodes that the tree holds, each with its data, its parent and its children.
pub uninterp spec fn tree_nodes(t: id_tree::Tree<NodeData>) -> Map<id_tree::NodeId, Slot>;

/// The tree's root, if it has one.
pub uninterp spec fn tree_root(t: id_tree::Tree<NodeData>) -> Option<id_tree::NodeId>;

/// An empty tree with room for `capacity` nodes.
///
/// Stands for `TreeBuilder::new().with_node_capacity(..).build()`, which makes a tree
/// without nodes and without a root.
#[verifier::external_body]
pub(crate) fn new_tree(capacity: usize) -> (tree: id_tree::Tree<NodeData>)
    ensures
        tree_nodes(tree) =~= Map::empty(),
        tree_root(tree) is None,
{
    id_tree::TreeBuilder::new().with_node_capacity(capacity).build()
}

/// A copy of a node id.
///
/// Stands for `NodeId::clone`, which `NodeId` derives.
#[verifier::external_body]
pub(crate) fn copy_id(id: &NodeId) -> (out: NodeId)
    ensures
        out == *id,
{
    id.clone()
}

/// The id of the root.
///
/// Stands for `Tree::root_node_id`, which hands out the root that the tree recorded.
#[verifier::external_body]
pub(crate) fn root_id(t: &id_tree::Tree<NodeData>) -> (root: Option<NodeId>)
    ensures
        root == tree_root(*t),
{
    t.root_node_id().cloned()
}

/// The data of a node and the ids of its children, in their order.
///
/// Stands for `Tree::get`, `Node::data` and `Node::children`. `get` fails exactly for
/// an id whose node is not in this tree: an id of another tree, or of a node that was
/// removed.
#[verifier::external_body]
pub(crate) fn read_node(t: &id_tree::Tree<NodeData>, id: &NodeId) -> (res: Result<
    (NodeData, Vec<NodeId>),
    id_tree::NodeIdError,
>)
    ensures
        res is Ok <==> tree_nodes(*t).dom().contains(*id),
        res matches Ok(node) ==> node.0 == tree_nodes(*t)[*id].data,
        res matches Ok(node) ==> node.1@ == tree_nodes(*t)[*id].children,
{
    t.get(id).map(|node| (*node.data(), node.children().clone()))
}

/// The data of a node.
pub fn node_data(t: &id_tree::Tree<NodeData>, id: &NodeId) -> (res: Result<
    NodeData,
    id_tree::NodeIdError,
>)
    ensures
        res is Ok <==> tree_nodes(*t).dom().contains(*id),
        res matches Ok(data) ==> data == tree_nodes(*t)[*id].data,
{
    match read_node(t, id) {
        Ok((data, _)) => Ok(data),
        Err(e) => Err(e),
    }
}

/// The ids of a node's children, in their order.
pub fn node_children(t: &id_tree::Tree<NodeData>, id: &NodeId) -> (res: Result<
    Vec<NodeId>,
    id_tree::NodeIdError,
>)
    ensures
        res is Ok <==> tree_nodes(*t).dom().contains(*id),
        res matches Ok(children) ==> children@ == tree_nodes(*t)[*id].children,
{
    match read_node(t, id) {
        Ok((_, children)) => Ok(children),
        Err(e) => Err(e),
    }
}

/// Puts a new node into the tree: as the last child of `parent`, or, without one, as
/// the root of a tree that has none.
///
/// Stands for `Tree::insert`, with `InsertBehavior::UnderNode` or
/// `InsertBehavior::AsRoot`. Under a node it fails, and changes nothing, exactly if
/// the node is not in the tree; as the root it always succeeds. The new node gets an
/// id that no node of the tree has, and has no children.
#[verifier::external_body]
pub(crate) fn insert_node(t: &mut id_tree::Tree<NodeData>, data: NodeData, parent: Option<
    &NodeId,
>) -> (res: Result<NodeId, id_tree::NodeIdError>)
    requires
        parent is None ==> tree_root(*old(t)) is None,
    ensures
        res is Ok <==> (parent matches Some(p) ==> tree_nodes(*old(t)).dom().contains(*p)),
        res is Err ==> tree_nodes(*final(t)) == tree_nodes(*old(t)),
        res is Err ==> tree_root(*final(t)) == tree_root(*old(t)),
        res matches Ok(id) ==> !tree_nodes(*old(t)).dom().contains(id),
        res matches Ok(id) ==> tree_nodes(*final(t)) == inserted(
            tree_nodes(*old(t)),
            parent,
            id,
            data,
        ),
        res matches Ok(id) ==> tree_root(*final(t)) == if parent is None {
            Some(id)
        } else {
            tree_root(*old(t))
        },
{
    let place = match parent {
        Some(p) => id_tree::InsertBehavior::UnderNode(p),
        None => id_tree::InsertBehavior::AsRoot,
    };
    t.insert(id_tree::Node::new(data), place)
}

/// Puts the first node into a tree that has no root, as its root.
pub fn insert_root(t: &mut id_tree::Tree<NodeData>, data: NodeData) -> (res: Result<
    NodeId,
    id_tree::NodeIdError,
>)
    requires
        tree_root(*old(t)) is None,
    ensures
        res is Ok,
        res matches Ok(id) ==> !tree_nodes(*old(t)).dom().contains(id),
        res matches Ok(id) ==> tree_nodes(*final(t)) == tree_nodes(*old(t)).insert(
            id,
            (Slot { data, parent: None, children: Seq::empty() }),
        ),
        res matches Ok(id) ==> tree_root(*final(t)) == Some(id),
{
    insert_node(t, data, None)
}

/// Puts a new node into the tree as the last child of `parent`.
pub fn insert_under(t: &mut id_tree::Tree<NodeData>, data: NodeData, parent: &NodeId) -> (res:
    Result<NodeId, id_tree::NodeIdError>)
    ensures
        res is Ok <==> tree_nodes(*old(t)).dom().contains(*parent),
        tree_root(*final(t)) == tree_root(*old(t)),
        res is Err ==> tree_nodes(*final(t)) == tree_nodes(*old(t)),
        res matches Ok(id) ==> !tree_nodes(*old(t)).dom().contains(id),
        res matches Ok(id) ==> tree_nodes(*final(t)) == with_leaf(
            tree_nodes(*old(t)),
            *parent,
            id,
            data,
        ),
{
    insert_node(t, data, Some(parent))
}

/// Lets a node and its parent change places.
///
/// Stands for `Tree::swap_nodes` with `SwapBehavior::TakeChildren`, for a node
/// `lower` whose parent is `upper`. `lower` takes the place of `upper` among the
/// children of the parent of `upper`, or, if `upper` has no parent and is the root,
/// as the root; `upper` is taken out of its own children and becomes the last child
/// of `lower`. Both keep their other children.
#[verifier::external_body]
pub(crate) fn swap_with_child(t: &mut id_tree::Tree<NodeData>, upper: &NodeId, lower: &NodeId) -> (res:
    Result<(), id_tree::NodeIdError>)
    requires
        is_forest(tree_nodes(*old(t))),
        tree_nodes(*old(t)).dom().contains(*upper),
        tree_nodes(*old(t)).dom().contains(*lower),
        tree_nodes(*old(t))[*lower].parent == Some(*upper),
    ensures
        res is Ok,
        tree_nodes(*final(t)) == swapped(tree_nodes(*old(t)), *upper, *lower),
        tree_root(*final(t)) == if tree_nodes(*old(t))[*upper].parent is None && tree_root(
            *old(t),
        ) == Some(*upper) {
            Some(*lower)
        } else {
            tree_root(*old(t))
        },
{
    t.swap_nodes(upper, lower, id_tree::SwapBehavior::TakeChildren)
}

/// Takes a node without children out of the tree.
///
/// Stands for `Tree::remove_node` with `RemoveBehavior::DropChildren`. The node
/// leaves the tree and the children of its parent; if it was the root, the tree has
/// no root afterwards.
#[verifier::external_body]
pub(crate) fn remove_leaf(t: &mut id_tree::Tree<NodeData>, id: NodeId) -> (res: Result<
    (),
    id_tree::NodeIdError,
>)
    requires
        tree_nodes(*old(t)).dom().contains(id),
        tree_nodes(*old(t))[id].children.len() == 0,
        tree_nodes(*old(t))[id].parent matches Some(p) ==> tree_nodes(*old(t)).dom().contains(p),
    ensures
        res is Ok,
        tree_nodes(*final(t)) == removed(tree_nodes(*old(t)), id),
        tree_root(*final(t)) == if tree_root(*old(t)) == Some(id) {
            None
        } else {
            tree_root(*old(t))
        },
{
    t.remove_node(id, id_tree::RemoveBehavior::DropChildren).map(|_| ())
}

} // verus!
