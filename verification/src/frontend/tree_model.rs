//! The mathematical model of the node store: a forest of slots, and the tree that
//! hangs below a node.
use super::syntax_tree::NodeData;
use id_tree::NodeId;
use vstd::prelude::*;

verus! {

/// What the store holds for one node: its data, its parent, and its children in
/// their order.
pub struct Slot {
    pub data: NodeData,
    pub parent: Option<NodeId>,
    pub children: Seq<NodeId>,
}

/// The model of the store: the slot of each node that is in it.
pub type Nodes = Map<NodeId, Slot>;

/// Whether `rank` shows that the nodes form a forest: every child is in the store,
/// is listed once, names its parent, and has a smaller rank than its parent.
pub open spec fn ranked(nodes: Nodes, rank: Map<NodeId, nat>) -> bool {
    forall|id: NodeId| #[trigger]
        nodes.dom().contains(id) ==> {
            &&& rank.dom().contains(id)
            &&& nodes[id].children.no_duplicates()
            &&& forall|k: int|
                0 <= k < nodes[id].children.len() ==> {
                    let c = #[trigger] nodes[id].children[k];
                    &&& nodes.dom().contains(c)
                    &&& rank[c] < rank[id]
                    &&& nodes[c].parent == Some(id)
                }
            &&& (nodes[id].parent matches Some(p) ==> nodes.dom().contains(p)
                && nodes[p].children.contains(id))
        }
}

/// Whether the nodes form a forest.
pub open spec fn is_forest(nodes: Nodes) -> bool {
    exists|rank: Map<NodeId, nat>| ranked(nodes, rank)
}

/// A rank that shows that the nodes form a forest, where they do.
pub open spec fn some_rank(nodes: Nodes) -> Map<NodeId, nat> {
    choose|rank: Map<NodeId, nat>| ranked(nodes, rank)
}

/// The height of a node in a forest.
pub open spec fn height(nodes: Nodes, id: NodeId) -> nat {
    some_rank(nodes)[id]
}

/// A tree of nodes: the model of a syntax tree.
pub struct Stx {
    pub data: NodeData,
    pub children: Seq<Stx>,
}

/// The tree that hangs below the node `id`.
pub open spec fn subtree(nodes: Nodes, id: NodeId) -> Stx
    decreases height(nodes, id),
    when is_forest(nodes) && nodes.dom().contains(id)
{
    Stx {
        data: nodes[id].data,
        children: Seq::new(
            nodes[id].children.len(),
            |k: int|
                if 0 <= k < nodes[id].children.len() {
                    subtree(nodes, nodes[id].children[k])
                } else {
                    arbitrary()
                },
        ),
    }
}

/// The trees that hang below the nodes `ids`.
pub open spec fn subtrees(nodes: Nodes, ids: Seq<NodeId>) -> Seq<Stx> {
    Seq::new(ids.len(), |k: int| subtree(nodes, ids[k]))
}

/// In a forest, a node's children are in the store and lie lower than the node.
pub proof fn lemma_child(nodes: Nodes, id: NodeId, k: int)
    requires
        is_forest(nodes),
        nodes.dom().contains(id),
        0 <= k < nodes[id].children.len(),
    ensures
        nodes.dom().contains(nodes[id].children[k]),
        height(nodes, nodes[id].children[k]) < height(nodes, id),
        nodes[nodes[id].children[k]].parent == Some(id),
{
    assert(ranked(nodes, some_rank(nodes)));
    let c = nodes[id].children[k];
}

/// The tree below a node is the node's data over the trees below its children.
pub proof fn lemma_subtree(nodes: Nodes, id: NodeId)
    requires
        is_forest(nodes),
        nodes.dom().contains(id),
    ensures
        subtree(nodes, id) == (Stx {
            data: nodes[id].data,
            children: subtrees(nodes, nodes[id].children),
        }),
{
    assert(subtree(nodes, id).children =~= subtrees(nodes, nodes[id].children));
}

/// The tree below a node is the same in two forests that agree, in data and children,
/// on every node that lies no higher in the first than the node does.
pub proof fn lemma_subtree_frame(a: Nodes, b: Nodes, id: NodeId)
    requires
        is_forest(a),
        is_forest(b),
        a.dom().contains(id),
        forall|y: NodeId|
            a.dom().contains(y) && height(a, y) <= height(a, id) ==> #[trigger] b.dom().contains(
                y,
            ) && b[y].data == a[y].data && b[y].children == a[y].children,
    ensures
        subtree(b, id) == subtree(a, id),
    decreases height(a, id),
{
    lemma_subtree(a, id);
    lemma_subtree(b, id);
    assert(b.dom().contains(id));
    let kids = a[id].children;
    assert forall|k: int| 0 <= k < kids.len() implies subtree(b, kids[k]) == subtree(
        a,
        kids[k],
    ) by {
        lemma_child(a, id, k);
        lemma_subtree_frame(a, b, kids[k]);
    }
    assert(subtrees(b, kids) =~= subtrees(a, kids));
}

/// The store with a new node `z` that holds `data`: as the last child of the parent, or
/// without a parent.
pub open spec fn inserted(nodes: Nodes, parent: Option<&NodeId>, z: NodeId, data: NodeData) -> Nodes {
    match parent {
        Some(p) => with_leaf(nodes, *p, z, data),
        None => nodes.insert(z, Slot { data, parent: None, children: Seq::empty() }),
    }
}

/// The store with a new node `z` that holds `data`, as the last child of `p`.
pub open spec fn with_leaf(nodes: Nodes, p: NodeId, z: NodeId, data: NodeData) -> Nodes {
    nodes.insert(
        p,
        Slot { data: nodes[p].data, parent: nodes[p].parent, children: nodes[p].children.push(z) },
    ).insert(z, Slot { data, parent: Some(p), children: Seq::empty() })
}

/// A forest with a new leaf is a forest.
pub proof fn lemma_with_leaf_is_forest(nodes: Nodes, p: NodeId, z: NodeId, data: NodeData)
    requires
        is_forest(nodes),
        nodes.dom().contains(p),
        !nodes.dom().contains(z),
    ensures
        is_forest(with_leaf(nodes, p, z, data)),
{
    let rank = some_rank(nodes);
    assert(ranked(nodes, rank));
    let after = with_leaf(nodes, p, z, data);
    let rank2 = Map::<NodeId, nat>::new(
        |id: NodeId| after.dom().contains(id),
        |id: NodeId|
            if id == z {
                0nat
            } else {
                rank[id] + 1
            },
    );
    assert forall|id: NodeId| #[trigger] after.dom().contains(id) implies {
        &&& rank2.dom().contains(id)
        &&& after[id].children.no_duplicates()
        &&& forall|k: int|
            0 <= k < after[id].children.len() ==> {
                let c = #[trigger] after[id].children[k];
                &&& after.dom().contains(c)
                &&& rank2[c] < rank2[id]
                &&& after[c].parent == Some(id)
            }
        &&& (after[id].parent matches Some(q) ==> after.dom().contains(q)
            && after[q].children.contains(id))
    } by {
        if id == z {
            assert(after[p].children[nodes[p].children.len() as int] == z);
        } else {
            assert(nodes.dom().contains(id));
            assert forall|k: int| 0 <= k < after[id].children.len() implies {
                let c = #[trigger] after[id].children[k];
                &&& after.dom().contains(c)
                &&& rank2[c] < rank2[id]
                &&& after[c].parent == Some(id)
            } by {
                if id == p && k == nodes[p].children.len() {
                } else {
                    let c = nodes[id].children[k];
                    assert(nodes.dom().contains(c));
                }
            }
            if id == p {
                assert forall|i: int, j: int|
                    0 <= i < j < after[p].children.len() implies after[p].children[i]
                    != after[p].children[j] by {
                    if j == nodes[p].children.len() {
                        let c = nodes[p].children[i];
                        assert(nodes.dom().contains(c));
                    }
                }
            }
            match after[id].parent {
                Some(q) => {
                    assert(nodes[id].parent == Some(q));
                    assert(nodes[q].children.contains(id));
                    let k = choose|k: int|
                        0 <= k < nodes[q].children.len() && nodes[q].children[k] == id;
                    assert(after[q].children[k] == id);
                },
                None => {},
            }
        }
    }
    assert(ranked(after, rank2));
}

/// A store with one node, which has no parent and no children, is a forest.
pub proof fn lemma_single_is_forest(z: NodeId, data: NodeData)
    ensures
        is_forest(Map::<NodeId, Slot>::empty().insert(z, Slot { data, parent: None, children: Seq::empty() })),
{
    let nodes = Map::<NodeId, Slot>::empty().insert(
        z,
        Slot { data, parent: None, children: Seq::empty() },
    );
    let rank = Map::<NodeId, nat>::empty().insert(z, 0nat);
    assert(ranked(nodes, rank));
}

/// The ids of a list without `x`.
pub open spec fn without(ids: Seq<NodeId>, x: NodeId) -> Seq<NodeId>
    decreases ids.len(),
{
    if ids.len() == 0 {
        ids
    } else if ids.last() == x {
        without(ids.drop_last(), x)
    } else {
        without(ids.drop_last(), x).push(ids.last())
    }
}

/// The first position at or after `i` that holds `x`, or the length where none does.
pub open spec fn first_at(ids: Seq<NodeId>, x: NodeId, i: int) -> int
    decreases ids.len() - i,
{
    if i < 0 || i >= ids.len() {
        ids.len() as int
    } else if ids[i] == x {
        i
    } else {
        first_at(ids, x, i + 1)
    }
}

/// The ids of a list with `y` in place of the first `x`.
pub open spec fn replaced(ids: Seq<NodeId>, x: NodeId, y: NodeId) -> Seq<NodeId> {
    let i = first_at(ids, x, 0);
    if i < ids.len() {
        ids.update(i, y)
    } else {
        ids
    }
}

/// The store after a node `lower` and its parent `upper` changed places: `lower`
/// stands where `upper` stood, and `upper` is the last child of `lower`.
pub open spec fn swapped(nodes: Nodes, upper: NodeId, lower: NodeId) -> Nodes {
    let up = nodes[upper];
    let lo = nodes[lower];
    let moved = nodes.insert(
        lower,
        Slot { data: lo.data, parent: up.parent, children: lo.children.push(upper) },
    ).insert(
        upper,
        Slot { data: up.data, parent: Some(lower), children: without(up.children, lower) },
    );
    match up.parent {
        Some(p) => moved.insert(
            p,
            Slot {
                data: nodes[p].data,
                parent: nodes[p].parent,
                children: replaced(nodes[p].children, upper, lower),
            },
        ),
        None => moved,
    }
}

/// The store without the node `id`, which its parent no longer lists.
pub open spec fn removed(nodes: Nodes, id: NodeId) -> Nodes {
    match nodes[id].parent {
        Some(p) => nodes.remove(id).insert(
            p,
            Slot {
                data: nodes[p].data,
                parent: nodes[p].parent,
                children: without(nodes[p].children, id),
            },
        ),
        None => nodes.remove(id),
    }
}

/// Taking an id out of a list that does not hold it changes nothing; taking out what
/// was added at the end gives the list back.
pub proof fn lemma_without(ids: Seq<NodeId>, x: NodeId)
    requires
        !ids.contains(x),
    ensures
        without(ids, x) == ids,
        without(ids.push(x), x) == ids,
    decreases ids.len(),
{
    if ids.len() > 0 {
        let front = ids.drop_last();
        assert forall|k: int| 0 <= k < front.len() implies front[k] != x by {
            assert(ids[k] == front[k]);
            assert(ids.contains(ids[k]));
        }
        assert(!front.contains(x));
        lemma_without(front, x);
        assert(ids.last() != x) by {
            assert(ids.contains(ids.last()));
        }
        assert(front.push(ids.last()) =~= ids);
    }
    assert(ids.push(x).drop_last() =~= ids);
}

/// Where a list holds `x`, the first position of `x` lies in the list and holds it.
pub proof fn lemma_first_at(ids: Seq<NodeId>, x: NodeId, i: int)
    requires
        0 <= i,
    ensures
        i <= first_at(ids, x, i) || ids.len() < i,
        first_at(ids, x, i) < ids.len() ==> ids[first_at(ids, x, i)] == x,
        (exists|k: int| i <= k < ids.len() && ids[k] == x) ==> first_at(ids, x, i) < ids.len(),
    decreases ids.len() - i,
{
    if i < ids.len() && ids[i] != x {
        lemma_first_at(ids, x, i + 1);
    }
}

/// A list without duplicates that holds `x` and not `y` is, with `y` in place of `x`,
/// a list without duplicates that holds `y` and not `x`, and whatever else it held.
pub proof fn lemma_replaced(ids: Seq<NodeId>, x: NodeId, y: NodeId)
    requires
        ids.no_duplicates(),
        ids.contains(x),
        !ids.contains(y),
        x != y,
    ensures
        replaced(ids, x, y).no_duplicates(),
        replaced(ids, x, y).len() == ids.len(),
        replaced(ids, x, y).contains(y),
        !replaced(ids, x, y).contains(x),
        forall|z: NodeId| z != x && z != y ==> (replaced(ids, x, y).contains(z) <==> ids.contains(z)),
        forall|k: int|
            0 <= k < ids.len() ==> #[trigger] replaced(ids, x, y)[k] == if ids[k] == x {
                y
            } else {
                ids[k]
            },
{
    lemma_first_at(ids, x, 0);
    let i = first_at(ids, x, 0);
    let r = ids.update(i, y);
    assert(r[i] == y);
    assert forall|a: int, b: int| 0 <= a < b < r.len() implies r[a] != r[b] by {
        if a != i && b != i {
            assert(ids[a] != ids[b]);
        } else if a == i {
            assert(ids.contains(ids[b]));
        } else {
            assert(ids.contains(ids[a]));
        }
    }
    assert forall|k: int| 0 <= k < ids.len() implies #[trigger] r[k] == if ids[k] == x {
        y
    } else {
        ids[k]
    } by {
        if ids[k] == x && k != i {
            assert(ids[k] == ids[i]);
        }
    }
    assert(!r.contains(x)) by {
        if r.contains(x) {
            let k = choose|k: int| 0 <= k < r.len() && r[k] == x;
            assert(ids[k] == x);
        }
    }
    assert forall|z: NodeId| z != x && z != y implies (r.contains(z) <==> ids.contains(z)) by {
        if r.contains(z) {
            let k = choose|k: int| 0 <= k < r.len() && r[k] == z;
            assert(ids[k] == z);
        }
        if ids.contains(z) {
            let k = choose|k: int| 0 <= k < ids.len() && ids[k] == z;
            assert(r[k] == z);
        }
    }
}

/// The store after the node `v` was wrapped: a new node `b` with the given data
/// stands where `v` stood, and `v` is its only child.
pub open spec fn wrapped(nodes: Nodes, v: NodeId, b: NodeId, data: NodeData) -> Nodes {
    swapped(with_leaf(nodes, v, b, data), v, b)
}

/// Wrapping a node of a forest gives a forest, in which the new node has the wrapped
/// node's old parent, and the other nodes are as they were but for the parent's
/// children.
pub proof fn lemma_wrapped(nodes: Nodes, a: NodeId, v: NodeId, b: NodeId, data: NodeData)
    requires
        is_forest(nodes),
        nodes.dom().contains(v),
        nodes[v].parent == Some(a),
        !nodes.dom().contains(b),
    ensures
        is_forest(wrapped(nodes, v, b, data)),
        wrapped(nodes, v, b, data).dom() == nodes.dom().insert(b),
        wrapped(nodes, v, b, data)[b] == (Slot {
            data,
            parent: Some(a),
            children: seq![v],
        }),
        forall|y: NodeId|
            nodes.dom().contains(y) ==> (#[trigger] wrapped(nodes, v, b, data)[y]).parent == if y
                == v {
                Some(b)
            } else {
                nodes[y].parent
            },
        forall|y: NodeId|
            nodes.dom().contains(y) ==> (#[trigger] wrapped(nodes, v, b, data)[y]).data
                == nodes[y].data,
        forall|y: NodeId|
            nodes.dom().contains(y) ==> (#[trigger] wrapped(nodes, v, b, data)[y]).children == if y
                == a {
                replaced(nodes[a].children, v, b)
            } else {
                nodes[y].children
            },
        nodes.dom().contains(a),
        a != v,
{
    let rank = some_rank(nodes);
    assert(ranked(nodes, rank));
    assert(nodes.dom().contains(a) && nodes[a].children.contains(v));
    let n1 = with_leaf(nodes, v, b, data);
    let w = wrapped(nodes, v, b, data);
    let vc = nodes[v].children;
    let ac = nodes[a].children;
    assert(!vc.contains(b)) by {
        if vc.contains(b) {
            let k = choose|k: int| 0 <= k < vc.len() && vc[k] == b;
            assert(nodes.dom().contains(nodes[v].children[k]));
        }
    }
    assert(!ac.contains(b)) by {
        if ac.contains(b) {
            let k = choose|k: int| 0 <= k < ac.len() && ac[k] == b;
            assert(nodes.dom().contains(nodes[a].children[k]));
        }
    }
    lemma_without(vc, b);
    lemma_replaced(ac, v, b);
    assert(a != v) by {
        let k = choose|k: int| 0 <= k < ac.len() && ac[k] == v;
        assert(rank[nodes[a].children[k]] < rank[a]);
    }
    assert(Seq::<NodeId>::empty().push(v) =~= seq![v]);
    assert(w.dom() =~= nodes.dom().insert(b));
    let rank2 = Map::<NodeId, nat>::new(
        |id: NodeId| w.dom().contains(id),
        |id: NodeId|
            if id == b {
                2 * rank[v] + 3
            } else {
                2 * rank[id] + 2
            },
    );
    assert forall|id: NodeId| #[trigger] w.dom().contains(id) implies {
        &&& rank2.dom().contains(id)
        &&& w[id].children.no_duplicates()
        &&& forall|k: int|
            0 <= k < w[id].children.len() ==> {
                let c = #[trigger] w[id].children[k];
                &&& w.dom().contains(c)
                &&& rank2[c] < rank2[id]
                &&& w[c].parent == Some(id)
            }
        &&& (w[id].parent matches Some(q) ==> w.dom().contains(q) && w[q].children.contains(id))
    } by {
        if id == b {
            assert(w[b].children[0] == v);
        } else if id == v {
            assert forall|k: int| 0 <= k < vc.len() implies {
                let c = #[trigger] w[v].children[k];
                &&& w.dom().contains(c)
                &&& rank2[c] < rank2[v]
                &&& w[c].parent == Some(v)
            } by {
                let c = nodes[v].children[k];
                assert(nodes.dom().contains(c));
                assert(c != a) by {
                    let j = choose|j: int| 0 <= j < ac.len() && ac[j] == v;
                    assert(rank[nodes[a].children[j]] < rank[a]);
                }
            }
            assert(w[b].children[0] == v);
        } else if id == a {
            assert forall|k: int| 0 <= k < w[a].children.len() implies {
                let c = #[trigger] w[a].children[k];
                &&& w.dom().contains(c)
                &&& rank2[c] < rank2[a]
                &&& w[c].parent == Some(a)
            } by {
                let old_c = nodes[a].children[k];
                assert(nodes.dom().contains(old_c));
                assert(replaced(ac, v, b)[k] == if ac[k] == v {
                    b
                } else {
                    ac[k]
                });
            }
            match nodes[a].parent {
                Some(q) => {
                    assert(nodes[q].children.contains(a));
                    assert(q != v) by {
                        if q == v {
                            let j = choose|j: int| 0 <= j < vc.len() && vc[j] == a;
                            assert(rank[nodes[v].children[j]] < rank[v]);
                            let i = choose|i: int| 0 <= i < ac.len() && ac[i] == v;
                            assert(rank[nodes[a].children[i]] < rank[a]);
                        }
                    }
                },
                None => {},
            }
        } else {
            assert(nodes.dom().contains(id));
            assert forall|k: int| 0 <= k < w[id].children.len() implies {
                let c = #[trigger] w[id].children[k];
                &&& w.dom().contains(c)
                &&& rank2[c] < rank2[id]
                &&& w[c].parent == Some(id)
            } by {
                let c = nodes[id].children[k];
                assert(nodes.dom().contains(c));
                assert(nodes[c].parent == Some(id));
            }
            match nodes[id].parent {
                Some(q) => {
                    assert(nodes[q].children.contains(id));
                    if q == a {
                        assert(replaced(ac, v, b).contains(id));
                    }
                },
                None => {},
            }
        }
    }
    assert(ranked(w, rank2));
}

/// The store after the node `block` was unwrapped: its only child `body` stands
/// where `block` stood, and `block` is gone.
pub open spec fn unwrapped(nodes: Nodes, block: NodeId, body: NodeId) -> Nodes {
    removed(swapped(nodes, block, body), block)
}

/// Unwrapping a node of a forest that has one child gives a forest without the node,
/// in which the child has the node's old parent.
pub proof fn lemma_unwrapped(nodes: Nodes, block: NodeId, body: NodeId)
    requires
        is_forest(nodes),
        nodes.dom().contains(block),
        nodes[block].children == seq![body],
    ensures
        is_forest(unwrapped(nodes, block, body)),
        unwrapped(nodes, block, body).dom() == nodes.dom().remove(block),
        nodes.dom().contains(body),
        body != block,
        unwrapped(nodes, block, body)[body].parent == nodes[block].parent,
        forall|y: NodeId|
            nodes.dom().contains(y) && y != block && y != body ==> (#[trigger] unwrapped(
                nodes,
                block,
                body,
            )[y]).parent == nodes[y].parent,
        forall|y: NodeId|
            nodes.dom().contains(y) && y != block ==> (#[trigger] unwrapped(
                nodes,
                block,
                body,
            )[y]).data == nodes[y].data,
        forall|y: NodeId|
            nodes.dom().contains(y) && y != block ==> (#[trigger] unwrapped(
                nodes,
                block,
                body,
            )[y]).children == if Some(y) == nodes[block].parent {
                replaced(nodes[y].children, block, body)
            } else {
                nodes[y].children
            },
        swapped(nodes, block, body).dom().contains(block),
        swapped(nodes, block, body)[block].children.len() == 0,
        swapped(nodes, block, body)[block].parent == Some(body),
        swapped(nodes, block, body).dom().contains(body),
{
    let rank = some_rank(nodes);
    assert(ranked(nodes, rank));
    assert(nodes[block].children[0] == body);
    assert(nodes.dom().contains(body) && nodes[body].parent == Some(block) && rank[body]
        < rank[block]);
    let bc = nodes[body].children;
    let s = swapped(nodes, block, body);
    let u = unwrapped(nodes, block, body);
    assert(!bc.contains(block)) by {
        if bc.contains(block) {
            let k = choose|k: int| 0 <= k < bc.len() && bc[k] == block;
            assert(rank[nodes[body].children[k]] < rank[body]);
        }
    }
    lemma_without(bc, block);
    lemma_without(Seq::<NodeId>::empty(), body);
    assert(Seq::<NodeId>::empty().push(body) =~= seq![body]);
    match nodes[block].parent {
        Some(p) => {
            assert(nodes.dom().contains(p) && nodes[p].children.contains(block));
            let pc = nodes[p].children;
            assert(!pc.contains(body)) by {
                if pc.contains(body) {
                    let k = choose|k: int| 0 <= k < pc.len() && pc[k] == body;
                    assert(nodes[nodes[p].children[k]].parent == Some(p));
                    let j = choose|j: int| 0 <= j < pc.len() && pc[j] == block;
                    assert(rank[nodes[p].children[j]] < rank[p]);
                }
            }
            assert(p != block && p != body) by {
                let j = choose|j: int| 0 <= j < pc.len() && pc[j] == block;
                assert(rank[nodes[p].children[j]] < rank[p]);
            }
            lemma_replaced(pc, block, body);
        },
        None => {},
    }
    assert(u.dom() =~= nodes.dom().remove(block));
    assert forall|id: NodeId| #[trigger] u.dom().contains(id) implies {
        &&& rank.dom().contains(id)
        &&& u[id].children.no_duplicates()
        &&& forall|k: int|
            0 <= k < u[id].children.len() ==> {
                let c = #[trigger] u[id].children[k];
                &&& u.dom().contains(c)
                &&& rank[c] < rank[id]
                &&& u[c].parent == Some(id)
            }
        &&& (u[id].parent matches Some(q) ==> u.dom().contains(q) && u[q].children.contains(id))
    } by {
        assert(nodes.dom().contains(id));
        if id == body {
            assert forall|k: int| 0 <= k < bc.len() implies {
                let c = #[trigger] u[body].children[k];
                &&& u.dom().contains(c)
                &&& rank[c] < rank[body]
                &&& u[c].parent == Some(body)
            } by {
                let c = nodes[body].children[k];
                assert(nodes.dom().contains(c));
                assert(bc.contains(c));
                assert(nodes[c].parent == Some(body));
                if Some(c) == nodes[block].parent {
                    let p = c;
                    let pc = nodes[p].children;
                    let j = choose|j: int| 0 <= j < pc.len() && pc[j] == block;
                    assert(rank[nodes[p].children[j]] < rank[p]);
                }
            }
        } else if Some(id) == nodes[block].parent {
            let pc = nodes[id].children;
            assert forall|k: int| 0 <= k < u[id].children.len() implies {
                let c = #[trigger] u[id].children[k];
                &&& u.dom().contains(c)
                &&& rank[c] < rank[id]
                &&& u[c].parent == Some(id)
            } by {
                let old_c = nodes[id].children[k];
                assert(nodes.dom().contains(old_c));
                assert(replaced(pc, block, body)[k] == if pc[k] == block {
                    body
                } else {
                    pc[k]
                });
            }
            match nodes[id].parent {
                Some(q) => {
                    assert(nodes[q].children.contains(id));
                    assert(q != block) by {
                        if q == block {
                            assert(nodes[block].children[0] == id);
                        }
                    }
                    if q == body {
                        let k = choose|k: int| 0 <= k < bc.len() && bc[k] == id;
                        assert(rank[nodes[body].children[k]] < rank[body]);
                        let j = choose|j: int| 0 <= j < pc.len() && pc[j] == block;
                        assert(rank[nodes[id].children[j]] < rank[id]);
                    }
                },
                None => {},
            }
        } else {
            assert forall|k: int| 0 <= k < u[id].children.len() implies {
                let c = #[trigger] u[id].children[k];
                &&& u.dom().contains(c)
                &&& rank[c] < rank[id]
                &&& u[c].parent == Some(id)
            } by {
                let c = nodes[id].children[k];
                assert(nodes.dom().contains(c));
                assert(nodes[c].parent == Some(id));
            }
            match nodes[id].parent {
                Some(q) => {
                    assert(nodes[q].children.contains(id));
                    assert(q != block) by {
                        if q == block {
                            let k = choose|k: int|
                                0 <= k < nodes[block].children.len() && nodes[block].children[k]
                                    == id;
                        }
                    }
                    if Some(q) == nodes[block].parent {
                        assert(replaced(nodes[q].children, block, body).contains(id));
                    }
                },
                None => {},
            }
        }
    }
    assert(ranked(u, rank));
}

/// Whether the node `y` lies in the tree below the node `id`.
pub open spec fn inside(nodes: Nodes, id: NodeId, y: NodeId) -> bool
    decreases height(nodes, id),
    when is_forest(nodes) && nodes.dom().contains(id)
{
    y == id || exists|k: int|
        0 <= k < nodes[id].children.len() && inside(nodes, #[trigger] nodes[id].children[k], y)
}

/// What lies in the tree below a node is in the store, and lies no higher than the
/// node.
pub proof fn lemma_inside_dom(nodes: Nodes, id: NodeId, y: NodeId)
    requires
        is_forest(nodes),
        nodes.dom().contains(id),
        inside(nodes, id, y),
    ensures
        nodes.dom().contains(y),
        height(nodes, y) <= height(nodes, id),
    decreases height(nodes, id),
{
    if y != id {
        let k = choose|k: int|
            0 <= k < nodes[id].children.len() && inside(nodes, #[trigger] nodes[id].children[k], y);
        lemma_child(nodes, id, k);
        lemma_inside_dom(nodes, nodes[id].children[k], y);
    }
}

/// What lies below a child of a node lies below the node.
pub proof fn lemma_inside_child(nodes: Nodes, id: NodeId, k: int, y: NodeId)
    requires
        is_forest(nodes),
        nodes.dom().contains(id),
        0 <= k < nodes[id].children.len(),
        inside(nodes, nodes[id].children[k], y),
    ensures
        inside(nodes, id, y),
{
}

/// What lies below a node, and is not the node, has a parent that lies below the node.
pub proof fn lemma_inside_up(nodes: Nodes, id: NodeId, y: NodeId)
    requires
        is_forest(nodes),
        nodes.dom().contains(id),
        inside(nodes, id, y),
        y != id,
    ensures
        nodes[y].parent is Some,
        nodes.dom().contains(nodes[y].parent->Some_0),
        inside(nodes, id, nodes[y].parent->Some_0),
        height(nodes, y) < height(nodes, nodes[y].parent->Some_0),
    decreases height(nodes, id),
{
    let k = choose|k: int|
        0 <= k < nodes[id].children.len() && inside(nodes, #[trigger] nodes[id].children[k], y);
    let c = nodes[id].children[k];
    lemma_child(nodes, id, k);
    if y == c {
        assert(inside(nodes, id, id));
    } else {
        lemma_inside_up(nodes, c, y);
        lemma_inside_child(nodes, id, k, nodes[y].parent->Some_0);
    }
}

/// The trees below two different children of a node have no node in common.
pub proof fn lemma_siblings_disjoint(nodes: Nodes, p: NodeId, i: int, j: int, y: NodeId)
    requires
        is_forest(nodes),
        nodes.dom().contains(p),
        0 <= i < nodes[p].children.len(),
        0 <= j < nodes[p].children.len(),
        i != j,
        inside(nodes, nodes[p].children[i], y),
    ensures
        !inside(nodes, nodes[p].children[j], y),
    decreases height(nodes, p) - height(nodes, y),
{
    let ci = nodes[p].children[i];
    let cj = nodes[p].children[j];
    lemma_child(nodes, p, i);
    lemma_child(nodes, p, j);
    assert(ranked(nodes, some_rank(nodes)));
    assert(ci != cj);
    lemma_inside_dom(nodes, ci, y);
    if inside(nodes, cj, y) {
        lemma_inside_dom(nodes, cj, y);
        if y == ci {
            lemma_inside_up(nodes, cj, ci);
            lemma_inside_dom(nodes, cj, p);
        } else if y == cj {
            lemma_inside_up(nodes, ci, cj);
            lemma_inside_dom(nodes, ci, p);
        } else {
            lemma_inside_up(nodes, ci, y);
            lemma_inside_up(nodes, cj, y);
            let q = nodes[y].parent->Some_0;
            lemma_inside_dom(nodes, ci, q);
            lemma_siblings_disjoint(nodes, p, i, j, q);
        }
    }
}

/// The tree below a node is the same in two forests that agree, in data and children,
/// on every node that lies below the node in the first.
pub proof fn lemma_subtree_same(a: Nodes, b: Nodes, id: NodeId)
    requires
        is_forest(a),
        is_forest(b),
        a.dom().contains(id),
        forall|y: NodeId|
            inside(a, id, y) ==> #[trigger] b.dom().contains(y) && b[y].data == a[y].data
                && b[y].children == a[y].children,
    ensures
        subtree(b, id) == subtree(a, id),
        forall|z: NodeId| inside(b, id, z) == inside(a, id, z),
    decreases height(a, id),
{
    lemma_subtree(a, id);
    assert(inside(a, id, id));
    assert(b.dom().contains(id));
    lemma_subtree(b, id);
    let kids = a[id].children;
    assert forall|k: int| 0 <= k < kids.len() implies subtree(b, kids[k]) == subtree(a, kids[k])
        && forall|z: NodeId| inside(b, kids[k], z) == inside(a, kids[k], z) by {
        lemma_child(a, id, k);
        assert forall|y: NodeId| inside(a, kids[k], y) implies #[trigger] b.dom().contains(y)
            && b[y].data == a[y].data && b[y].children == a[y].children by {
            lemma_inside_child(a, id, k, y);
        }
        lemma_subtree_same(a, b, kids[k]);
    }
    assert(subtrees(b, kids) =~= subtrees(a, kids));
    assert forall|z: NodeId| inside(b, id, z) == inside(a, id, z) by {
        if inside(a, id, z) && z != id {
            let k = choose|k: int|
                0 <= k < a[id].children.len() && inside(a, #[trigger] a[id].children[k], z);
            assert(inside(b, b[id].children[k], z));
        }
        if inside(b, id, z) && z != id {
            let k = choose|k: int|
                0 <= k < b[id].children.len() && inside(b, #[trigger] b[id].children[k], z);
            assert(inside(a, a[id].children[k], z));
        }
    }
}

/// The depth of a tree.
pub open spec fn depth(t: Stx) -> nat
    decreases t, 1int,
{
    1 + deepest(t.children, 0)
}

/// The depth of the deepest of the trees from position `i` on.
pub open spec fn deepest(trees: Seq<Stx>, i: int) -> nat
    decreases trees, trees.len() - i,
{
    if i < 0 || i >= trees.len() {
        0
    } else {
        let here = depth(trees[i]);
        let rest = deepest(trees, i + 1);
        if here > rest {
            here
        } else {
            rest
        }
    }
}

/// A tree is deeper than each of its children.
pub proof fn lemma_depth(t: Stx, k: int)
    requires
        0 <= k < t.children.len(),
    ensures
        depth(t.children[k]) < depth(t),
{
    lemma_deepest(t.children, 0, k);
}

/// The deepest of the trees from a position on is at least as deep as each of them.
pub proof fn lemma_deepest(trees: Seq<Stx>, i: int, k: int)
    requires
        0 <= i <= k < trees.len(),
    ensures
        depth(trees[k]) <= deepest(trees, i),
    decreases k - i,
{
    if i < k {
        lemma_deepest(trees, i + 1, k);
    }
}

/// Whether the forest `b` comes of the forest `a` by an edit of the tree below the
/// node `id`, which is `view` afterwards. The node stays, with its data and its
/// parent. What was not below the node is as it was, and nothing of what was there
/// before has come to lie below the node.
pub open spec fn edited(a: Nodes, b: Nodes, id: NodeId, view: Stx) -> bool {
    &&& is_forest(a)
    &&& is_forest(b)
    &&& a.dom().contains(id)
    &&& b.dom().contains(id)
    &&& b[id].data == a[id].data
    &&& b[id].parent == a[id].parent
    &&& forall|y: NodeId|
        #![trigger b.dom().contains(y)]
        #![trigger a.dom().contains(y)]
        a.dom().contains(y) && !inside(a, id, y) ==> b.dom().contains(y) && b[y] == a[y]
    &&& forall|y: NodeId|
        #![trigger inside(b, id, y)]
        inside(b, id, y) && a.dom().contains(y) ==> inside(a, id, y)
    &&& subtree(b, id) == view
}

/// A forest comes of itself by the edit that changes nothing.
pub proof fn lemma_edited_none(a: Nodes, id: NodeId)
    requires
        is_forest(a),
        a.dom().contains(id),
    ensures
        edited(a, a, id, subtree(a, id)),
{
}

/// Wrapping a child of a node is an edit of the tree below the node: afterwards the
/// child's place is taken by the new node over the child's tree.
pub proof fn lemma_wrap_edit(nodes: Nodes, a: NodeId, j: int, b: NodeId, data: NodeData)
    requires
        is_forest(nodes),
        nodes.dom().contains(a),
        0 <= j < nodes[a].children.len(),
        !nodes.dom().contains(b),
    ensures
        edited(
            nodes,
            wrapped(nodes, nodes[a].children[j], b, data),
            a,
            Stx {
                data: nodes[a].data,
                children: subtree(nodes, a).children.update(
                    j,
                    Stx { data, children: seq![subtree(nodes, nodes[a].children[j])] },
                ),
            },
        ),
{
    let ac = nodes[a].children;
    let v = ac[j];
    let w = wrapped(nodes, v, b, data);
    lemma_child(nodes, a, j);
    lemma_wrapped(nodes, a, v, b, data);
    assert(ranked(nodes, some_rank(nodes)));
    assert(ac.contains(v));
    assert(!ac.contains(b)) by {
        if ac.contains(b) {
            let k = choose|k: int| 0 <= k < ac.len() && ac[k] == b;
            assert(nodes.dom().contains(nodes[a].children[k]));
        }
    }
    lemma_replaced(ac, v, b);
    lemma_subtree(nodes, a);
    lemma_subtree(w, a);
    lemma_subtree(w, b);
    assert(inside(nodes, a, a));
    assert(inside(nodes, v, v));
    assert(inside(nodes, a, v)) by {
        lemma_inside_child(nodes, a, j, v);
    }
    // The trees below the children of `a`, and below the wrapped child, are as they were.
    assert forall|i: int| 0 <= i < ac.len() implies subtree(w, ac[i]) == subtree(nodes, ac[i])
        && forall|z: NodeId| inside(w, ac[i], z) == inside(nodes, ac[i], z) by {
        lemma_child(nodes, a, i);
        assert forall|y: NodeId| inside(nodes, ac[i], y) implies #[trigger] w.dom().contains(y)
            && w[y].data == nodes[y].data && w[y].children == nodes[y].children by {
            lemma_inside_dom(nodes, ac[i], y);
        }
        lemma_subtree_same(nodes, w, ac[i]);
    }
    assert(subtrees(w, seq![v]) =~= seq![subtree(nodes, v)]);
    let view = Stx {
        data: nodes[a].data,
        children: subtree(nodes, a).children.update(
            j,
            Stx { data, children: seq![subtree(nodes, v)] },
        ),
    };
    assert(subtrees(w, w[a].children) =~= view.children) by {
        assert forall|i: int| 0 <= i < ac.len() implies subtrees(w, w[a].children)[i]
            == view.children[i] by {
            assert(replaced(ac, v, b)[i] == if ac[i] == v {
                b
            } else {
                ac[i]
            });
            if ac[i] == v {
                assert(i == j);
            }
        }
    }
    assert forall|y: NodeId|
        #![trigger w.dom().contains(y)]
        #![trigger nodes.dom().contains(y)]
        nodes.dom().contains(y) && !inside(nodes, a, y) implies w.dom().contains(y) && w[y]
        == nodes[y] by {
        assert(y != a && y != v);
        assert(w[y].data == nodes[y].data);
        assert(w[y].children == nodes[y].children);
        assert(w[y].parent == nodes[y].parent);
    }
    assert forall|y: NodeId|
        #![trigger inside(w, a, y)]
        inside(w, a, y) && nodes.dom().contains(y) implies inside(nodes, a, y) by {
        if y != a {
            let i = choose|i: int|
                0 <= i < w[a].children.len() && inside(w, #[trigger] w[a].children[i], y);
            assert(replaced(ac, v, b)[i] == if ac[i] == v {
                b
            } else {
                ac[i]
            });
            if ac[i] == v {
                // below the new node: the new node itself, or something below `v`
                assert(y != b);
                let k = choose|k: int|
                    0 <= k < w[b].children.len() && inside(w, #[trigger] w[b].children[k], y);
                assert(w[b].children[k] == v);
                assert(inside(nodes, v, y));
                lemma_inside_child(nodes, a, j, y);
            } else {
                assert(inside(nodes, ac[i], y));
                lemma_inside_child(nodes, a, i, y);
            }
        }
    }
}

/// Unwrapping a child of a node, which has one child itself, is an edit of the tree
/// below the node: afterwards the child's place is taken by the tree below the
/// child's child.
pub proof fn lemma_unwrap_edit(nodes: Nodes, a: NodeId, j: int, body: NodeId)
    requires
        is_forest(nodes),
        nodes.dom().contains(a),
        0 <= j < nodes[a].children.len(),
        nodes.dom().contains(nodes[a].children[j]),
        nodes[nodes[a].children[j]].children == seq![body],
    ensures
        edited(
            nodes,
            unwrapped(nodes, nodes[a].children[j], body),
            a,
            Stx {
                data: nodes[a].data,
                children: subtree(nodes, a).children.update(j, subtree(nodes, body)),
            },
        ),
{
    let ac = nodes[a].children;
    let block = ac[j];
    let u = unwrapped(nodes, block, body);
    lemma_child(nodes, a, j);
    lemma_unwrapped(nodes, block, body);
    assert(nodes[block].children[0] == body);
    lemma_child(nodes, block, 0);
    assert(ranked(nodes, some_rank(nodes)));
    assert(ac.contains(block));
    assert(!ac.contains(body)) by {
        if ac.contains(body) {
            let k = choose|k: int| 0 <= k < ac.len() && ac[k] == body;
            assert(nodes[nodes[a].children[k]].parent == Some(a));
        }
    }
    lemma_replaced(ac, block, body);
    lemma_subtree(nodes, a);
    lemma_subtree(u, a);
    assert(inside(nodes, a, a));
    assert(inside(nodes, block, block));
    assert(inside(nodes, body, body));
    lemma_inside_child(nodes, block, 0, body);
    lemma_inside_child(nodes, a, j, block);
    lemma_inside_child(nodes, a, j, body);
    assert(a != block && a != body);
    // What lies below `body` does not hold `block` or `a`.
    assert forall|y: NodeId| inside(nodes, body, y) implies #[trigger] u.dom().contains(y)
        && u[y].data == nodes[y].data && u[y].children == nodes[y].children by {
        lemma_inside_dom(nodes, body, y);
    }
    lemma_subtree_same(nodes, u, body);
    assert forall|i: int| 0 <= i < ac.len() && i != j implies subtree(u, ac[i]) == subtree(
        nodes,
        ac[i],
    ) && forall|z: NodeId| inside(u, ac[i], z) == inside(nodes, ac[i], z) by {
        lemma_child(nodes, a, i);
        assert forall|y: NodeId| inside(nodes, ac[i], y) implies #[trigger] u.dom().contains(y)
            && u[y].data == nodes[y].data && u[y].children == nodes[y].children by {
            lemma_inside_dom(nodes, ac[i], y);
            lemma_siblings_disjoint(nodes, a, i, j, y);
        }
        lemma_subtree_same(nodes, u, ac[i]);
    }
    let view = Stx {
        data: nodes[a].data,
        children: subtree(nodes, a).children.update(j, subtree(nodes, body)),
    };
    assert(subtrees(u, u[a].children) =~= view.children) by {
        assert forall|i: int| 0 <= i < ac.len() implies subtrees(u, u[a].children)[i]
            == view.children[i] by {
            assert(replaced(ac, block, body)[i] == if ac[i] == block {
                body
            } else {
                ac[i]
            });
            if ac[i] == block {
                assert(i == j);
            }
        }
    }
    assert forall|y: NodeId|
        #![trigger u.dom().contains(y)]
        #![trigger nodes.dom().contains(y)]
        nodes.dom().contains(y) && !inside(nodes, a, y) implies u.dom().contains(y) && u[y]
        == nodes[y] by {
        assert(y != a && y != block && y != body);
        assert(u[y].data == nodes[y].data);
        assert(u[y].children == nodes[y].children);
        assert(u[y].parent == nodes[y].parent);
    }
    assert forall|y: NodeId|
        #![trigger inside(u, a, y)]
        inside(u, a, y) && nodes.dom().contains(y) implies inside(nodes, a, y) by {
        if y != a {
            let i = choose|i: int|
                0 <= i < u[a].children.len() && inside(u, #[trigger] u[a].children[i], y);
            assert(replaced(ac, block, body)[i] == if ac[i] == block {
                body
            } else {
                ac[i]
            });
            if ac[i] == block {
                assert(inside(nodes, body, y));
                lemma_inside_child(nodes, block, 0, y);
                lemma_inside_child(nodes, a, j, y);
            } else {
                assert(inside(nodes, ac[i], y));
                lemma_inside_child(nodes, a, i, y);
            }
        }
    }
}

/// Whether the forest `s` comes of the forest `a` by edits of the trees below the
/// children of the node `id`: the node is as it was, what was not below it is as it
/// was, and nothing of what was there before has come to lie below it.
pub open spec fn partly(a: Nodes, s: Nodes, id: NodeId) -> bool {
    &&& is_forest(a)
    &&& is_forest(s)
    &&& a.dom().contains(id)
    &&& s.dom().contains(id)
    &&& s[id] == a[id]
    &&& forall|y: NodeId|
        #![trigger s.dom().contains(y)]
        #![trigger a.dom().contains(y)]
        a.dom().contains(y) && !inside(a, id, y) ==> s.dom().contains(y) && s[y] == a[y]
    &&& forall|y: NodeId|
        #![trigger inside(s, id, y)]
        inside(s, id, y) && a.dom().contains(y) ==> inside(a, id, y)
}

/// An edit of the tree below a child of a node leaves the node and the trees below
/// its other children as they were.
pub proof fn lemma_edit_step(a: Nodes, s: Nodes, s2: Nodes, id: NodeId, k: int, view: Stx)
    requires
        partly(a, s, id),
        0 <= k < s[id].children.len(),
        edited(s, s2, s[id].children[k], view),
    ensures
        partly(a, s2, id),
        subtree(s2, s[id].children[k]) == view,
        forall|j: int|
            0 <= j < s[id].children.len() && j != k ==> subtree(s2, #[trigger] s[id].children[j])
                == subtree(s, s[id].children[j]),
{
    let c = s[id].children;
    lemma_child(s, id, k);
    assert(!inside(s, c[k], id)) by {
        if inside(s, c[k], id) {
            lemma_inside_dom(s, c[k], id);
        }
    }
    assert(s2.dom().contains(id));
    assert(s2[id] == s[id]);
    assert forall|j: int| 0 <= j < c.len() && j != k implies subtree(s2, #[trigger] c[j])
        == subtree(s, c[j]) && forall|z: NodeId| inside(s2, c[j], z) == inside(s, c[j], z) by {
        lemma_child(s, id, j);
        assert forall|y: NodeId| inside(s, c[j], y) implies #[trigger] s2.dom().contains(y)
            && s2[y].data == s[y].data && s2[y].children == s[y].children by {
            lemma_inside_dom(s, c[j], y);
            lemma_siblings_disjoint(s, id, j, k, y);
        }
        lemma_subtree_same(s, s2, c[j]);
    }
    assert forall|y: NodeId|
        #![trigger s2.dom().contains(y)]
        #![trigger a.dom().contains(y)]
        a.dom().contains(y) && !inside(a, id, y) implies s2.dom().contains(y) && s2[y]
        == a[y] by {
        assert(s.dom().contains(y));
        if inside(s, c[k], y) {
            lemma_inside_child(s, id, k, y);
            assert(inside(s, id, y));
        }
    }
    assert forall|y: NodeId|
        #![trigger inside(s2, id, y)]
        inside(s2, id, y) && a.dom().contains(y) implies inside(a, id, y) by {
        if y == id {
            assert(inside(a, id, id));
        } else {
            let j = choose|j: int|
                0 <= j < s2[id].children.len() && inside(s2, #[trigger] s2[id].children[j], y);
            if j != k {
                assert(inside(s, c[j], y));
                lemma_inside_child(s, id, j, y);
                assert(inside(s, id, y));
            } else if s.dom().contains(y) {
                assert(inside(s2, c[k], y));
                assert(inside(s, c[k], y));
                lemma_inside_child(s, id, k, y);
                assert(inside(s, id, y));
            } else {
                if !inside(a, id, y) {
                    assert(s.dom().contains(y));
                }
            }
        }
    }
}

/// A forest comes of itself by no edits.
pub proof fn lemma_partly_start(a: Nodes, id: NodeId)
    requires
        is_forest(a),
        a.dom().contains(id),
    ensures
        partly(a, a, id),
{
}

/// Edits of the trees below the children of a node are an edit of the tree below the
/// node.
pub proof fn lemma_partly_done(a: Nodes, s: Nodes, id: NodeId)
    requires
        partly(a, s, id),
    ensures
        edited(a, s, id, subtree(s, id)),
{
}

} // verus!
