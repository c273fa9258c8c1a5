//! The syntax tree: an arena of nodes, each with a kind, a source span and children.
use super::grammar::{pairs_view, Pair, PairView, Rule};
use super::parse_error::ParseError;
use super::tree_model::{
    height, is_forest, lemma_child, lemma_single_is_forest, lemma_subtree, lemma_subtree_frame,
    lemma_with_leaf_is_forest, subtree, subtrees, with_leaf, Nodes, Slot, Stx,
};
use super::tree_store::{
    copy_id, insert_root, insert_under, new_tree, node_children, node_data, root_id, tree_nodes,
    tree_root,
};
use crate::arena::{interned, Arena, ArenaId, ARENA_LIMIT};
use crate::primitive::{Prim, PrimView};
use crate::text::{marks_part, part_of, text_of, utf8_text};
use id_tree::NodeId;
use vstd::prelude::*;
use vstd::slice::*;
use vstd::string::*;

verus! {

/// The kind of a node. Constants and names are held by their ids in the tree's
/// interners.
#[derive(Clone, Copy, Debug, PartialEq, Eq, Structural)]
pub enum NodeType {
    Root,
    Primitive(ArenaId),
    Ident(ArenaId),
    Variable,
    List,
    Record,
    RecordEntry,
    Apply,
    Argument,
    Keyword(ArenaId),
    Block,
    BlockArgs,
}

/// What a node carries: its kind, and the span of source text that it covers.
#[derive(Clone, Copy, Debug, PartialEq, Eq, Structural)]
pub struct NodeData {
    pub node_type: NodeType,
    pub start_pos: usize,
    pub end_pos: usize,
}

/// A syntax tree: the source text, the nodes, and the interners of the constants and
/// of the names that the nodes refer to.
pub struct SyntaxTree<'i> {
    pub input: &'i str,
    pub nodes: id_tree::Tree<NodeData>,
    pub constants: Arena<Prim>,
    pub symbols: Arena<String>,
}

impl<'i> View for SyntaxTree<'i> {
    type V = Stx;

    /// The tree below the root.
    open spec fn view(&self) -> Stx {
        subtree(tree_nodes(self.nodes), tree_root(self.nodes)->Some_0)
    }
}

/// The names and constants that were interned.
pub struct Interns {
    pub symbols: Seq<Seq<char>>,
    pub constants: Seq<PrimView>,
}

/// Whether every node of the tree has the children that its kind asks for, and refers
/// to a name or a constant that is there.
pub open spec fn shaped(t: Stx, nsym: int, nconst: int) -> bool
    decreases t,
{
    &&& forall|k: int| 0 <= k < t.children.len() ==> shaped(#[trigger] t.children[k], nsym, nconst)
    &&& match t.data.node_type {
        NodeType::Primitive(id) => id < nconst && t.children.len() == 0,
        NodeType::Ident(id) => id < nsym && t.children.len() == 0,
        NodeType::Keyword(id) => id < nsym && t.children.len() == 0,
        NodeType::Variable => t.children.len() >= 1 && forall|k: int|
            0 <= k < t.children.len() ==> (#[trigger] t.children[k]).data.node_type is Ident,
        NodeType::Record => forall|k: int|
            0 <= k < t.children.len() ==> (#[trigger] t.children[k]).data.node_type
                is RecordEntry,
        NodeType::RecordEntry => t.children.len() == 2 && t.children[0].data.node_type is Ident,
        NodeType::Apply => t.children.len() >= 1 && forall|k: int|
            0 <= k < t.children.len() ==> (#[trigger] t.children[k]).data.node_type is Argument,
        NodeType::Argument => t.children.len() == 2 && t.children[0].data.node_type is Keyword,
        NodeType::Block => t.children.len() == 1 || (t.children.len() == 2
            && t.children[0].data.node_type is BlockArgs),
        NodeType::BlockArgs => t.children.len() >= 1 && forall|k: int|
            0 <= k < t.children.len() ==> (#[trigger] t.children[k]).data.node_type is Ident,
        NodeType::List => true,
        NodeType::Root => true,
    }
}

/// The id behind an optional reference.
pub open spec fn id_of(id: Option<&NodeId>) -> Option<NodeId> {
    match id {
        Some(p) => Some(*p),
        None => None,
    }
}

/// The bytes without the `_` among them.
pub open spec fn without_underscores(bytes: Seq<u8>) -> Seq<u8>
    decreases bytes.len(),
{
    if bytes.len() == 0 {
        bytes
    } else if bytes.last() == 95 {
        without_underscores(bytes.drop_last())
    } else {
        without_underscores(bytes.drop_last()).push(bytes.last())
    }
}

/// The kind of the node that stands for a pair, and the interners after the pair's
/// name or constant was interned. There is none for a pair whose span does not lie in
/// the text, for the rule `term`, and where all ids are taken.
pub open spec fn node_type_spec(pair: PairView, bytes: Seq<u8>, st: Interns) -> Option<
    (NodeType, Interns),
> {
    if !(0 <= pair.start <= pair.end <= bytes.len()) {
        None
    } else {
        match pair.rule {
            Rule::term => None,
            Rule::apply => Some((NodeType::Apply, st)),
            Rule::argument => Some((NodeType::Argument, st)),
            Rule::variable => Some((NodeType::Variable, st)),
            Rule::list => Some((NodeType::List, st)),
            Rule::record => Some((NodeType::Record, st)),
            Rule::entry => Some((NodeType::RecordEntry, st)),
            Rule::block => Some((NodeType::Block, st)),
            Rule::block_args => Some((NodeType::BlockArgs, st)),
            Rule::ident => {
                let (symbols, id) = interned(
                    st.symbols,
                    utf8_text(bytes.subrange(pair.start, pair.end)),
                );
                if id < ARENA_LIMIT {
                    Some((NodeType::Ident(id as ArenaId), Interns { symbols, ..st }))
                } else {
                    None
                }
            },
            Rule::keyword => if pair.start < pair.end {
                let (symbols, id) = interned(
                    st.symbols,
                    utf8_text(bytes.subrange(pair.start, pair.end - 1)),
                );
                if id < ARENA_LIMIT {
                    Some((NodeType::Keyword(id as ArenaId), Interns { symbols, ..st }))
                } else {
                    None
                }
            } else {
                None
            },
            Rule::string => if pair.start + 2 <= pair.end {
                constant_spec(
                    PrimView::String(utf8_text(bytes.subrange(pair.start + 1, pair.end - 1))),
                    st,
                )
            } else {
                None
            },
            Rule::bool => if pair.start < pair.end {
                constant_spec(PrimView::Boolean(bytes[pair.start] == 116), st)
            } else {
                None
            },
            Rule::number => constant_spec(
                PrimView::Number(
                    utf8_text(without_underscores(bytes.subrange(pair.start, pair.end))),
                ),
                st,
            ),
        }
    }
}

/// The node kind of a constant, and the interners after it was interned.
pub open spec fn constant_spec(p: PrimView, st: Interns) -> Option<(NodeType, Interns)> {
    let (constants, id) = interned(st.constants, p);
    if id < ARENA_LIMIT {
        Some((NodeType::Primitive(id as ArenaId), Interns { constants, ..st }))
    } else {
        None
    }
}

/// The tree that stands for a pair, and the interners after all its names and
/// constants were interned, in the order in which they come in the text.
pub open spec fn build_spec(pair: PairView, bytes: Seq<u8>, st: Interns) -> Option<(Stx, Interns)>
    decreases pair, 1int,
{
    match node_type_spec(pair, bytes, st) {
        Some((node_type, st1)) => match build_all_spec(pair.inner, bytes, st1, 0, Seq::empty()) {
            Some((children, st2)) => Some(
                (
                    Stx {
                        data: NodeData {
                            node_type,
                            start_pos: pair.start as usize,
                            end_pos: pair.end as usize,
                        },
                        children,
                    },
                    st2,
                ),
            ),
            None => None,
        },
        None => None,
    }
}

/// The trees that stand for the pairs from position `i` on, added to `acc`.
pub open spec fn build_all_spec(
    pairs: Seq<PairView>,
    bytes: Seq<u8>,
    st: Interns,
    i: int,
    acc: Seq<Stx>,
) -> Option<(Seq<Stx>, Interns)>
    decreases pairs, pairs.len() - i,
{
    if i < 0 || i >= pairs.len() {
        Some((acc, st))
    } else {
        match build_spec(pairs[i], bytes, st) {
            Some((t, st1)) => build_all_spec(pairs, bytes, st1, i + 1, acc.push(t)),
            None => None,
        }
    }
}

fn strip_underscores(bytes: &[u8], start: usize, end: usize) -> (out: Vec<u8>)
    requires
        start <= end <= bytes@.len(),
    ensures
        out@ == without_underscores(bytes@.subrange(start as int, end as int)),
{
    let mut out: Vec<u8> = Vec::with_capacity(end - start);
    let mut i: usize = start;
    assert(bytes@.subrange(start as int, start as int) =~= Seq::<u8>::empty());
    while i < end
        invariant
            start <= i <= end <= bytes@.len(),
            out@ == without_underscores(bytes@.subrange(start as int, i as int)),
        decreases end - i,
    {
        proof {
            let next = bytes@.subrange(start as int, i + 1);
            assert(next.drop_last() =~= bytes@.subrange(start as int, i as int));
            assert(next.last() == bytes@[i as int]);
        }
        if bytes[i] != 95 {
            out.push(bytes[i]);
        }
        i += 1;
    }
    out
}

impl<'i> SyntaxTree<'i> {
    /// The nodes of the tree, by their ids.
    pub open spec fn store(&self) -> Nodes {
        tree_nodes(self.nodes)
    }

    /// The root.
    pub open spec fn root(&self) -> Option<NodeId> {
        tree_root(self.nodes)
    }

    /// The names and constants of the tree.
    pub open spec fn interns(&self) -> Interns {
        Interns { symbols: self.symbols.keys(), constants: self.constants.keys() }
    }

    /// Whether the nodes form a tree below the root, and every node has the children
    /// that its kind asks for.
    pub open spec fn wf(&self) -> bool {
        &&& is_forest(self.store())
        &&& self.root() matches Some(r) && self.store().dom().contains(r)
            && self.store()[r].parent is None
        &&& shaped(self@, self.symbols.keys().len() as int, self.constants.keys().len() as int)
    }

    fn for_input(ns_symbols: &Arena<String>, input: &'i str) -> (tree: Self)
        ensures
            tree.store() == Map::<NodeId, Slot>::empty(),
            tree.root() is None,
            tree.input == input,
            tree.symbols.keys() == ns_symbols.keys(),
            tree.constants.keys() == Seq::<PrimView>::empty(),
    {
        let node_cap = input.len() / 4;
        let const_cap = input.len() / 16;
        SyntaxTree {
            input,
            nodes: new_tree(node_cap),
            constants: Arena::with_capacity(const_cap),
            symbols: ns_symbols.duplicate(),
        }
    }

    fn intern_constant(&mut self, c: Prim) -> (res: Option<NodeType>)
        ensures
            final(self).store() == old(self).store(),
            final(self).root() == old(self).root(),
            final(self).input == old(self).input,
            match res {
                Some(nt) => constant_spec(c@, old(self).interns()) == Some(
                    (nt, final(self).interns()),
                ),
                None => constant_spec(c@, old(self).interns()) is None,
            },
    {
        let ghost before = self.interns();
        let got = self.constants.try_intern(c);
        let n = self.constants.len();
        match got {
            Some(id) => {
                assert(self.interns() == (Interns {
                    constants: self.constants.keys(),
                    ..before
                }));
                Some(NodeType::Primitive(id))
            },
            None => None,
        }
    }

    fn intern_symbol(&mut self, name: String) -> (res: Option<ArenaId>)
        ensures
            final(self).store() == old(self).store(),
            final(self).root() == old(self).root(),
            final(self).input == old(self).input,
            final(self).constants.keys() == old(self).constants.keys(),
            match res {
                Some(id) => (final(self).symbols.keys(), id as int) == interned(
                    old(self).symbols.keys(),
                    name@,
                ),
                None => interned(old(self).symbols.keys(), name@).1 >= ARENA_LIMIT,
            },
    {
        let got = self.symbols.try_intern(name);
        let n = self.symbols.len();
        got
    }

    fn node_type_for(&mut self, pair: &Pair, bytes: &[u8]) -> (res: Option<NodeType>)
        ensures
            final(self).store() == old(self).store(),
            final(self).root() == old(self).root(),
            final(self).input == old(self).input,
            match res {
                Some(nt) => node_type_spec(pair@, bytes@, old(self).interns()) == Some(
                    (nt, final(self).interns()),
                ),
                None => node_type_spec(pair@, bytes@, old(self).interns()) is None,
            },
    {
        proof {
            super::grammar::lemma_pair_view(*pair);
        }
        if !(pair.start <= pair.end && pair.end <= bytes.len()) {
            return None;
        }
        let ghost before = self.interns();
        match pair.rule {
            Rule::term => None,
            Rule::apply => Some(NodeType::Apply),
            Rule::argument => Some(NodeType::Argument),
            Rule::variable => Some(NodeType::Variable),
            Rule::list => Some(NodeType::List),
            Rule::record => Some(NodeType::Record),
            Rule::entry => Some(NodeType::RecordEntry),
            Rule::block => Some(NodeType::Block),
            Rule::block_args => Some(NodeType::BlockArgs),
            Rule::ident => {
                match self.intern_symbol(text_of(slice_subrange(bytes, pair.start, pair.end))) {
                    Some(id) => {
                        assert(self.interns() == (Interns {
                            symbols: self.symbols.keys(),
                            ..before
                        }));
                        Some(NodeType::Ident(id))
                    },
                    None => None,
                }
            },
            Rule::keyword => {
                if pair.start < pair.end {
                    match self.intern_symbol(text_of(slice_subrange(bytes, pair.start, pair.end - 1))) {
                        Some(id) => {
                            assert(self.interns() == (Interns {
                                symbols: self.symbols.keys(),
                                ..before
                            }));
                            Some(NodeType::Keyword(id))
                        },
                        None => None,
                    }
                } else {
                    None
                }
            },
            Rule::string => {
                if pair.end - pair.start >= 2 {
                    self.intern_constant(
                        Prim::String(text_of(slice_subrange(bytes, pair.start + 1, pair.end - 1))),
                    )
                } else {
                    None
                }
            },
            Rule::bool => {
                if pair.start < pair.end {
                    self.intern_constant(Prim::Boolean(bytes[pair.start] == 116))
                } else {
                    None
                }
            },
            Rule::number => {
                let digits = strip_underscores(bytes, pair.start, pair.end);
                self.intern_constant(Prim::Number(text_of(digits.as_slice())))
            },
        }
    }
}

impl<'i> SyntaxTree<'i> {
    /// Adds the node that stands for `pair`, and below it the nodes that stand for
    /// the pairs inside it. The node becomes the last child of `parent`, or the root
    /// of an empty tree.
    #[verifier::loop_isolation(false)]
    fn add_node(&mut self, pair: &Pair, bytes: &[u8], parent: Option<&NodeId>) -> (res: Result<
        NodeId,
        ParseError,
    >)
        requires
            is_forest(old(self).store()),
            match parent {
                Some(p) => old(self).store().dom().contains(*p),
                None => old(self).root() is None && old(self).store() == Map::<
                    NodeId,
                    Slot,
                >::empty(),
            },
        ensures
            final(self).input == old(self).input,
            res is Ok <==> build_spec(pair@, bytes@, old(self).interns()) is Some,
            res matches Ok(id) ==> build_spec(pair@, bytes@, old(self).interns()) == Some(
                (subtree(final(self).store(), id), final(self).interns()),
            ),
            res matches Ok(id) ==> is_forest(final(self).store()),
            res matches Ok(id) ==> !old(self).store().dom().contains(id),
            res matches Ok(id) ==> final(self).store().dom().contains(id),
            res matches Ok(id) ==> final(self).store()[id].parent == id_of(parent),
            res matches Ok(id) ==> forall|y: NodeId| #[trigger]
                old(self).store().dom().contains(y) ==> final(self).store().dom().contains(y) && (
                Some(y) != id_of(parent) ==> final(self).store()[y] == old(self).store()[y]),
            res matches Ok(id) ==> (parent matches Some(p) ==> final(self).store()[*p] == (Slot {
                children: old(self).store()[*p].children.push(id),
                ..old(self).store()[*p]
            }) && final(self).root() == old(self).root()),
            res matches Ok(id) ==> (parent is None ==> final(self).root() == Some(id)),
        decreases pair, 1int,
    {
        proof {
            super::grammar::lemma_pair_view(*pair);
        }
        let ghost store0 = self.store();
        let ghost st0 = self.interns();
        let node_type = match self.node_type_for(pair, bytes) {
            Some(nt) => nt,
            None => {
                return Err(ParseError::TooLarge);
            },
        };
        let ghost st1 = self.interns();
        let data = NodeData { node_type, start_pos: pair.start, end_pos: pair.end };
        let inserted = match parent {
            Some(p) => insert_under(&mut self.nodes, data, p),
            None => insert_root(&mut self.nodes, data),
        };
        let id = match inserted {
            Ok(id) => id,
            Err(_) => {
                return Err(ParseError::NodeId);
            },
        };
        let ghost store1 = self.store();
        proof {
            match parent {
                Some(p) => {
                    lemma_with_leaf_is_forest(store0, *p, id, data);
                },
                None => {
                    lemma_single_is_forest(id, data);
                },
            }
        }
        let ghost mut done: Seq<Stx> = Seq::empty();
        let ghost goal = build_all_spec(pairs_view(pair.inner@), bytes@, st1, 0, Seq::empty());
        assert(subtrees(self.store(), self.store()[id].children) =~= done);
        let mut i: usize = 0;
        while i < pair.inner.len()
            invariant
                i <= pair.inner.len(),
                self.input == old(self).input,
                is_forest(self.store()),
                self.store().dom().contains(id),
                !store0.dom().contains(id),
                self.store()[id].data == data,
                store1.dom().contains(id),
                self.store()[id].parent == store1[id].parent,
                self.store()[id].children.len() == i,
                subtrees(self.store(), self.store()[id].children) == done,
                build_all_spec(pairs_view(pair.inner@), bytes@, self.interns(), i as int, done)
                    == goal,
                forall|y: NodeId| #[trigger]
                    store1.dom().contains(y) ==> self.store().dom().contains(y) && (y != id
                        ==> self.store()[y] == store1[y]),
                self.root() == tree_root(old(self).nodes) || (parent is None && self.root()
                    == Some(id)),
                parent is None ==> self.root() == Some(id),
                parent is Some ==> self.root() == old(self).root(),
            decreases pair.inner.len() - i,
        {
            let ghost before = self.store();
            let ghost kids = before[id].children;
            let child = &pair.inner[i];
            assert(pairs_view(pair.inner@)[i as int] == child@);
            let added = self.add_node(child, bytes, Some(&id));
            match added {
                Ok(c) => {
                    let ghost after = self.store();
                    proof {
                        assert forall|j: int| 0 <= j < kids.len() implies subtree(
                            after,
                            kids[j],
                        ) == subtree(before, kids[j]) by {
                            lemma_child(before, id, j);
                            assert forall|y: NodeId|
                                before.dom().contains(y) && height(before, y) <= height(
                                    before,
                                    kids[j],
                                ) implies #[trigger] after.dom().contains(y) && after[y].data
                                == before[y].data && after[y].children
                                == before[y].children by {
                                assert(y != id);
                            }
                            lemma_subtree_frame(before, after, kids[j]);
                        }
                        let t = subtree(after, c);
                        assert(subtrees(after, after[id].children) =~= done.push(t));
                        done = done.push(t);
                    }
                },
                Err(e) => {
                    return Err(e);
                },
            }
            i += 1;
        }
        proof {
            lemma_subtree(self.store(), id);
            assert forall|y: NodeId| #[trigger] store0.dom().contains(y) implies self.store().dom().contains(
                y,
            ) && (Some(y) != id_of(parent) ==> self.store()[y] == store0[y]) by {
                assert(store1.dom().contains(y));
                assert(y != id);
            }
        }
        Ok(id)
    }
}

/// The kinds of the nodes of a list.
pub open spec fn kinds_of(nodes: Nodes, ids: Seq<NodeId>) -> Seq<NodeType> {
    Seq::new(ids.len(), |k: int| nodes[ids[k]].data.node_type)
}

fn is_ident(kind: NodeType) -> (r: bool)
    ensures
        r == (kind is Ident),
{
    match kind {
        NodeType::Ident(_) => true,
        _ => false,
    }
}

fn all_idents(kinds: &Vec<NodeType>) -> (r: bool)
    ensures
        r == forall|k: int| 0 <= k < kinds@.len() ==> (#[trigger] kinds@[k]) is Ident,
{
    let mut i: usize = 0;
    while i < kinds.len()
        invariant
            i <= kinds.len(),
            forall|k: int| 0 <= k < i ==> (#[trigger] kinds@[k]) is Ident,
        decreases kinds.len() - i,
    {
        if !is_ident(kinds[i]) {
            return false;
        }
        i += 1;
    }
    true
}

fn all_entries(kinds: &Vec<NodeType>) -> (r: bool)
    ensures
        r == forall|k: int| 0 <= k < kinds@.len() ==> (#[trigger] kinds@[k]) is RecordEntry,
{
    let mut i: usize = 0;
    while i < kinds.len()
        invariant
            i <= kinds.len(),
            forall|k: int| 0 <= k < i ==> (#[trigger] kinds@[k]) is RecordEntry,
        decreases kinds.len() - i,
    {
        match kinds[i] {
            NodeType::RecordEntry => {},
            _ => {
                return false;
            },
        }
        i += 1;
    }
    true
}

fn all_arguments(kinds: &Vec<NodeType>) -> (r: bool)
    ensures
        r == forall|k: int| 0 <= k < kinds@.len() ==> (#[trigger] kinds@[k]) is Argument,
{
    let mut i: usize = 0;
    while i < kinds.len()
        invariant
            i <= kinds.len(),
            forall|k: int| 0 <= k < i ==> (#[trigger] kinds@[k]) is Argument,
        decreases kinds.len() - i,
    {
        match kinds[i] {
            NodeType::Argument => {},
            _ => {
                return false;
            },
        }
        i += 1;
    }
    true
}

/// Whether a node of the kind `kind`, whose children have the kinds `kinds`, has the
/// children that its kind asks for.
pub open spec fn fits(kind: NodeType, kinds: Seq<NodeType>, nsym: int, nconst: int) -> bool {
    match kind {
        NodeType::Primitive(id) => id < nconst && kinds.len() == 0,
        NodeType::Ident(id) => id < nsym && kinds.len() == 0,
        NodeType::Keyword(id) => id < nsym && kinds.len() == 0,
        NodeType::Variable => kinds.len() >= 1 && forall|k: int|
            0 <= k < kinds.len() ==> (#[trigger] kinds[k]) is Ident,
        NodeType::Record => forall|k: int|
            0 <= k < kinds.len() ==> (#[trigger] kinds[k]) is RecordEntry,
        NodeType::RecordEntry => kinds.len() == 2 && kinds[0] is Ident,
        NodeType::Apply => kinds.len() >= 1 && forall|k: int|
            0 <= k < kinds.len() ==> (#[trigger] kinds[k]) is Argument,
        NodeType::Argument => kinds.len() == 2 && kinds[0] is Keyword,
        NodeType::Block => kinds.len() == 1 || (kinds.len() == 2 && kinds[0] is BlockArgs),
        NodeType::BlockArgs => kinds.len() >= 1 && forall|k: int|
            0 <= k < kinds.len() ==> (#[trigger] kinds[k]) is Ident,
        NodeType::List => true,
        NodeType::Root => true,
    }
}

/// The kinds of the roots of a list of trees.
pub open spec fn root_kinds(trees: Seq<Stx>) -> Seq<NodeType> {
    Seq::new(trees.len(), |k: int| trees[k].data.node_type)
}

/// A tree is shaped if its children are, and its root fits the kinds of its children.
pub proof fn lemma_shaped(t: Stx, nsym: int, nconst: int)
    ensures
        shaped(t, nsym, nconst) <==> (forall|k: int|
            0 <= k < t.children.len() ==> shaped(#[trigger] t.children[k], nsym, nconst)) && fits(
            t.data.node_type,
            root_kinds(t.children),
            nsym,
            nconst,
        ),
{
    let kinds = root_kinds(t.children);
    assert(forall|k: int| 0 <= k < kinds.len() ==> kinds[k] == t.children[k].data.node_type);
    if shaped(t, nsym, nconst) {
        assert(fits(t.data.node_type, kinds, nsym, nconst));
    }
    if (forall|k: int|
        0 <= k < t.children.len() ==> shaped(#[trigger] t.children[k], nsym, nconst)) && fits(
        t.data.node_type,
        kinds,
        nsym,
        nconst,
    ) {
        assert(forall|k: int|
            0 <= k < t.children.len() ==> (#[trigger] t.children[k]).data.node_type == kinds[k]);
        assert(shaped(t, nsym, nconst));
    }
}

impl<'i> SyntaxTree<'i> {
    /// The kinds of the given nodes.
    pub fn kinds(&self, ids: &Vec<NodeId>) -> (kinds: Option<Vec<NodeType>>)
        ensures
            kinds is Some <==> forall|k: int|
                0 <= k < ids@.len() ==> self.store().dom().contains(#[trigger] ids@[k]),
            kinds matches Some(v) ==> v@ == kinds_of(self.store(), ids@),
    {
        let mut out: Vec<NodeType> = Vec::with_capacity(ids.len());
        let mut i: usize = 0;
        while i < ids.len()
            invariant
                i <= ids.len(),
                out@.len() == i,
                forall|k: int| 0 <= k < i ==> self.store().dom().contains(#[trigger] ids@[k]),
                forall|k: int| 0 <= k < i ==> out@[k] == self.store()[ids@[k]].data.node_type,
            decreases ids.len() - i,
        {
            match node_data(&self.nodes, &ids[i]) {
                Ok(data) => out.push(data.node_type),
                Err(_) => {
                    return None;
                },
            }
            i += 1;
        }
        assert(out@ =~= kinds_of(self.store(), ids@));
        Some(out)
    }

    fn fits_here(&self, kind: NodeType, kinds: &Vec<NodeType>) -> (r: bool)
        ensures
            r == fits(
                kind,
                kinds@,
                self.symbols.keys().len() as int,
                self.constants.keys().len() as int,
            ),
    {
        match kind {
            NodeType::Primitive(id) => (id as usize) < self.constants.len() && kinds.len() == 0,
            NodeType::Ident(id) => (id as usize) < self.symbols.len() && kinds.len() == 0,
            NodeType::Keyword(id) => (id as usize) < self.symbols.len() && kinds.len() == 0,
            NodeType::Variable => kinds.len() >= 1 && all_idents(kinds),
            NodeType::Record => all_entries(kinds),
            NodeType::RecordEntry => kinds.len() == 2 && is_ident(kinds[0]),
            NodeType::Apply => kinds.len() >= 1 && all_arguments(kinds),
            NodeType::Argument => kinds.len() == 2 && match kinds[0] {
                NodeType::Keyword(_) => true,
                _ => false,
            },
            NodeType::Block => kinds.len() == 1 || (kinds.len() == 2 && match kinds[0] {
                NodeType::BlockArgs => true,
                _ => false,
            }),
            NodeType::BlockArgs => kinds.len() >= 1 && all_idents(kinds),
            NodeType::List => true,
            NodeType::Root => true,
        }
    }

    /// Whether the tree below `id` is shaped.
    #[verifier::loop_isolation(false)]
    pub fn shape_ok(&self, id: &NodeId) -> (ok: bool)
        requires
            is_forest(self.store()),
            self.store().dom().contains(*id),
        ensures
            ok == shaped(
                subtree(self.store(), *id),
                self.symbols.keys().len() as int,
                self.constants.keys().len() as int,
            ),
        decreases height(self.store(), *id),
    {
        let ghost nsym = self.symbols.keys().len() as int;
        let ghost nconst = self.constants.keys().len() as int;
        let ghost t = subtree(self.store(), *id);
        proof {
            lemma_subtree(self.store(), *id);
            lemma_shaped(t, nsym, nconst);
        }
        let data = match node_data(&self.nodes, id) {
            Ok(data) => data,
            Err(_) => {
                return false;
            },
        };
        let children = match node_children(&self.nodes, id) {
            Ok(children) => children,
            Err(_) => {
                return false;
            },
        };
        proof {
            assert forall|k: int| 0 <= k < children@.len() implies self.store().dom().contains(
                #[trigger] children@[k],
            ) by {
                lemma_child(self.store(), *id, k);
            }
        }
        let kinds = match self.kinds(&children) {
            Some(kinds) => kinds,
            None => {
                return false;
            },
        };
        proof {
            assert forall|k: int| 0 <= k < children@.len() implies root_kinds(t.children)[k]
                == kinds@[k] by {
                lemma_child(self.store(), *id, k);
                lemma_subtree(self.store(), children@[k]);
            }
            assert(root_kinds(t.children) =~= kinds@);
        }
        if !self.fits_here(data.node_type, &kinds) {
            return false;
        }
        let mut i: usize = 0;
        while i < children.len()
            invariant
                i <= children.len(),
                is_forest(self.store()),
                self.store().dom().contains(*id),
                children@ == self.store()[*id].children,
                t == subtree(self.store(), *id),
                t.children == subtrees(self.store(), children@),
                nsym == self.symbols.keys().len(),
                nconst == self.constants.keys().len(),
                forall|k: int| 0 <= k < i ==> shaped(#[trigger] t.children[k], nsym, nconst),
            decreases children.len() - i,
        {
            proof {
                lemma_child(self.store(), *id, i as int);
            }
            assert(t.children[i as int] == subtree(self.store(), children@[i as int]));
            if !self.shape_ok(&children[i]) {
                return false;
            }
            i += 1;
        }
        true
    }

    /// The tree for the given pair of the given text, with the namespace's symbols
    /// as its first symbols.
    pub fn from_input_and_pair(ns_symbols: &Arena<String>, input: &'i str, pair: &Pair) -> (res:
        Result<Self, ParseError>)
        ensures
            match build_spec(
                pair@,
                input.spec_bytes(),
                Interns { symbols: ns_symbols.keys(), constants: Seq::empty() },
            ) {
                Some((t, st)) => if shaped(t, st.symbols.len() as int, st.constants.len() as int) {
                    res matches Ok(tree) && tree.wf() && tree@ == t && tree.interns() == st
                        && tree.input == input
                } else {
                    res == Err::<Self, ParseError>(ParseError::Malformed)
                },
                None => res == Err::<Self, ParseError>(ParseError::TooLarge),
            },
    {
        let mut tree = SyntaxTree::for_input(ns_symbols, input);
        proof {
            let rank = Map::<NodeId, nat>::empty();
            assert(super::tree_model::ranked(tree.store(), rank));
        }
        let root = match tree.add_node(pair, input.as_bytes(), None) {
            Ok(id) => id,
            Err(_) => {
                return Err(ParseError::TooLarge);
            },
        };
        if tree.shape_ok(&root) {
            Ok(tree)
        } else {
            Err(ParseError::Malformed)
        }
    }

    /// The data of a node and the ids of its children. Each child is a node of the
    /// tree that lies lower, and the tree below it is the child's tree of the tree
    /// below the node.
    pub fn expand(&self, id: &NodeId) -> (out: (NodeData, Vec<NodeId>))
        requires
            is_forest(self.store()),
            self.store().dom().contains(*id),
        ensures
            out.0 == subtree(self.store(), *id).data,
            out.0 == self.store()[*id].data,
            out.1@ == self.store()[*id].children,
            out.1@.len() == subtree(self.store(), *id).children.len(),
            forall|k: int|
                0 <= k < out.1@.len() ==> {
                    &&& self.store().dom().contains(#[trigger] out.1@[k])
                    &&& height(self.store(), out.1@[k]) < height(self.store(), *id)
                    &&& subtree(self.store(), out.1@[k]) == subtree(self.store(), *id).children[k]
                    &&& subtree(self.store(), out.1@[k]).data == self.store()[out.1@[k]].data
                },
    {
        proof {
            lemma_subtree(self.store(), *id);
        }
        let data = match node_data(&self.nodes, id) {
            Ok(data) => data,
            Err(_) => NodeData { node_type: NodeType::Root, start_pos: 0, end_pos: 0 },
        };
        let children = match node_children(&self.nodes, id) {
            Ok(children) => children,
            Err(_) => Vec::new(),
        };
        proof {
            assert forall|k: int| 0 <= k < children@.len() implies {
                &&& self.store().dom().contains(#[trigger] children@[k])
                &&& height(self.store(), children@[k]) < height(self.store(), *id)
                &&& subtree(self.store(), children@[k]) == subtree(self.store(), *id).children[k]
                &&& subtree(self.store(), children@[k]).data == self.store()[children@[k]].data
            } by {
                lemma_child(self.store(), *id, k);
                lemma_subtree(self.store(), children@[k]);
            }
        }
        (data, children)
    }

    /// The constant with the given id.
    pub fn lookup_constant(&self, id: ArenaId) -> (c: &Prim)
        requires
            (id as int) < self.constants.keys().len(),
        ensures
            c@ == self.constants.keys()[id as int],
    {
        self.constants.resolve(id)
    }

    /// The source text that a node covers, if its span lies in the text and
    /// between characters.
    pub fn node_str(&self, data: &NodeData) -> (text: Option<&'i str>)
        ensures
            text is Some <==> marks_part(
                self.input.spec_bytes(),
                data.start_pos as int,
                data.end_pos as int,
            ),
            text matches Some(t) ==> t.spec_bytes() == self.input.spec_bytes().subrange(
                data.start_pos as int,
                data.end_pos as int,
            ),
    {
        part_of(self.input, data.start_pos, data.end_pos)
    }

    /// The source text that the node `id` covers: see `node_str`. There is none
    /// for a node that is not in the tree.
    pub fn node_id_str(&self, id: &NodeId) -> (text: Option<&'i str>)
        ensures
            text is Some ==> self.store().dom().contains(*id),
            text matches Some(t) ==> t.spec_bytes() == self.input.spec_bytes().subrange(
                self.store()[*id].data.start_pos as int,
                self.store()[*id].data.end_pos as int,
            ),
            self.store().dom().contains(*id) ==> (text is Some <==> marks_part(
                self.input.spec_bytes(),
                self.store()[*id].data.start_pos as int,
                self.store()[*id].data.end_pos as int,
            )),
    {
        match node_data(&self.nodes, id) {
            Ok(data) => self.node_str(&data),
            Err(_) => None,
        }
    }

    /// The data of a node.
    pub fn node_data(&self, id: &NodeId) -> (res: Result<NodeData, id_tree::NodeIdError>)
        ensures
            res is Ok <==> self.store().dom().contains(*id),
            res matches Ok(data) ==> data == self.store()[*id].data,
    {
        node_data(&self.nodes, id)
    }

    /// The ids of a node's children.
    pub fn children(&self, id: &NodeId) -> (res: Result<Vec<NodeId>, id_tree::NodeIdError>)
        ensures
            res is Ok <==> self.store().dom().contains(*id),
            res matches Ok(children) ==> children@ == self.store()[*id].children,
    {
        node_children(&self.nodes, id)
    }

    /// The id of the root.
    pub fn root_node_id(&self) -> (root: Option<NodeId>)
        ensures
            root == self.root(),
    {
        root_id(&self.nodes)
    }

    /// The symbol of an `Ident` or `Keyword` node. Other nodes have none.
    pub fn node_id_to_symbol_id(&self, id: &NodeId) -> (res: Result<ArenaId, id_tree::NodeIdError>)
        ensures
            match res {
                Ok(sym) => self.store().dom().contains(*id) && symbol_of(
                    self.store()[*id].data.node_type,
                ) == Some(sym),
                Err(_) => !self.store().dom().contains(*id) || symbol_of(
                    self.store()[*id].data.node_type,
                ) is None,
            },
    {
        let data = node_data(&self.nodes, id)?;
        match data.node_type {
            NodeType::Ident(sym) => Ok(sym),
            NodeType::Keyword(sym) => Ok(sym),
            _ => Err(id_tree::NodeIdError::NodeIdNoLongerValid),
        }
    }

    /// The data of all nodes below and including the root, each node before its
    /// children, and the children in their order.
    pub fn traverse(&self) -> (all: Vec<NodeData>)
        requires
            self.wf(),
        ensures
            all@ == pre_order(self@),
    {
        let mut all: Vec<NodeData> = Vec::new();
        match root_id(&self.nodes) {
            Some(root) => {
                self.collect(&root, &mut all);
                assert(Seq::<NodeData>::empty() + pre_order(self@) =~= pre_order(self@));
            },
            None => {},
        }
        all
    }

    fn collect(&self, id: &NodeId, all: &mut Vec<NodeData>)
        requires
            is_forest(self.store()),
            self.store().dom().contains(*id),
        ensures
            final(all)@ == old(all)@ + pre_order(subtree(self.store(), *id)),
        decreases height(self.store(), *id),
    {
        let ghost t = subtree(self.store(), *id);
        proof {
            lemma_subtree(self.store(), *id);
        }
        let data = match node_data(&self.nodes, id) {
            Ok(data) => data,
            Err(_) => {
                return ;
            },
        };
        let children = match node_children(&self.nodes, id) {
            Ok(children) => children,
            Err(_) => {
                return ;
            },
        };
        all.push(data);
        let ghost start = all@;
        assert(start + pre_order_all(t.children, 0) =~= old(all)@ + pre_order(t));
        let mut i: usize = 0;
        while i < children.len()
            invariant
                i <= children.len(),
                is_forest(self.store()),
                self.store().dom().contains(*id),
                children@ == self.store()[*id].children,
                t.children == subtrees(self.store(), children@),
                all@ + pre_order_all(t.children, i as int) == start + pre_order_all(
                    t.children,
                    0,
                ),
            decreases children.len() - i,
        {
            proof {
                lemma_child(self.store(), *id, i as int);
            }
            let ghost before = all@;
            self.collect(&children[i], all);
            proof {
                let here = pre_order(t.children[i as int]);
                let rest = pre_order_all(t.children, i + 1);
                assert((before + here) + rest =~= before + (here + rest));
            }
            i += 1;
        }
        proof {
            assert(all@ + Seq::<NodeData>::empty() =~= all@);
        }
    }
}

/// The symbol that a node of this kind names, if it names one.
pub open spec fn symbol_of(kind: NodeType) -> Option<ArenaId> {
    match kind {
        NodeType::Ident(sym) => Some(sym),
        NodeType::Keyword(sym) => Some(sym),
        _ => None,
    }
}

/// The data of all nodes of a tree, each node before its children.
pub open spec fn pre_order(t: Stx) -> Seq<NodeData>
    decreases t, 1int,
{
    seq![t.data] + pre_order_all(t.children, 0)
}

/// The data of all nodes of the trees from position `i` on.
pub open spec fn pre_order_all(trees: Seq<Stx>, i: int) -> Seq<NodeData>
    decreases trees, trees.len() - i,
{
    if i < 0 || i >= trees.len() {
        Seq::empty()
    } else {
        pre_order(trees[i]) + pre_order_all(trees, i + 1)
    }
}

} // verus!
