//! Reconciles what the user wrote with what the signatures ask for: a value where a
//! block is asked for is put into a block, and a block without arguments where a
//! value is asked for is replaced by its body.
use super::parse_error::ParseError;
use super::syntax_tree::{fits, lemma_shaped, root_kinds, shaped, symbol_of, NodeData, NodeType, SyntaxTree};
use super::tree_model::{
    depth, edited, is_forest, lemma_child, lemma_depth, lemma_edit_step, lemma_edited_none,
    lemma_partly_done, lemma_partly_start, lemma_subtree, lemma_unwrap_edit,
    lemma_unwrapped, lemma_with_leaf_is_forest, lemma_wrap_edit, lemma_wrapped, partly, subtree,
    subtrees, Stx,
};
use super::tree_store::{copy_id, insert_under, remove_leaf, swap_with_child};
use crate::arena::ArenaId;
use crate::namespace::{signature_named, INamespace};
use crate::signature::{arg_index, lemma_arg_index, Signature, SignatureView};
use crate::typing::types::Type;
use id_tree::NodeId;
use vstd::prelude::*;

verus! {

/// What is to be done with the value of an argument.
#[derive(Clone, Copy, Debug, PartialEq, Eq, Structural)]
pub enum Edit {
    /// Put the value into a block without arguments.
    Wrap,
    /// Put the body of the block in the block's place.
    Unwrap,
}

/// What is to be done with a value of the kind `kind`, which has `count` children,
/// where the signature asks for a block or for something else.
pub open spec fn edit_for(wants_block: bool, kind: NodeType, count: nat) -> Option<Edit> {
    if wants_block && !(kind is Block) {
        Some(Edit::Wrap)
    } else if !wants_block && kind is Block && count == 1 {
        Some(Edit::Unwrap)
    } else {
        None
    }
}

fn choose_edit(wants_block: bool, kind: NodeType, count: usize) -> (edit: Option<Edit>)
    ensures
        edit == edit_for(wants_block, kind, count as nat),
{
    let is_block = match kind {
        NodeType::Block => true,
        _ => false,
    };
    if wants_block && !is_block {
        Some(Edit::Wrap)
    } else if !wants_block && is_block && count == 1 {
        Some(Edit::Unwrap)
    } else {
        None
    }
}

fn is_block_type(ty: &Type) -> (r: bool)
    ensures
        r == (ty@ is Block),
{
    match ty {
        Type::Block(_, _) => true,
        _ => false,
    }
}

/// What the rewrite reads but does not change: the names of the tree, and the symbols
/// and signatures of the namespace.
pub struct Functions {
    pub names: Seq<Seq<char>>,
    pub ns_symbols: Seq<Seq<char>>,
    pub ns_signatures: Map<ArenaId, SignatureView>,
}

/// The signature of the function that the tree calls, if the tree is a call of a
/// function that the namespace knows.
pub open spec fn call_signature(t: Stx, fs: Functions) -> Option<SignatureView> {
    if t.data.node_type is Apply && t.children.len() > 0 && t.children[0].children.len() > 0 {
        match symbol_of(t.children[0].children[0].data.node_type) {
            Some(id) => if id < fs.names.len() {
                signature_named(fs.ns_symbols, fs.ns_signatures, fs.names[id as int])
            } else {
                None
            },
            None => None,
        }
    } else {
        None
    }
}

/// The block without arguments that holds `value` and covers the same text.
pub open spec fn block_around(value: Stx) -> Stx {
    Stx {
        data: NodeData {
            node_type: NodeType::Block,
            start_pos: value.data.start_pos,
            end_pos: value.data.end_pos,
        },
        children: seq![value],
    }
}

/// An argument of a call with its value as the signature asks for it. An argument
/// whose keyword the signature does not have stays as it is.
pub open spec fn rewrite_arg_spec(arg: Stx, sig: SignatureView) -> Stx {
    if arg.children.len() != 2 {
        arg
    } else {
        match symbol_of(arg.children[0].data.node_type) {
            Some(keyword) => match arg_index(sig.args, keyword, 0) {
                Some(i) => {
                    let value = arg.children[1];
                    match edit_for(
                        sig.args[i].ty is Block,
                        value.data.node_type,
                        value.children.len(),
                    ) {
                        Some(Edit::Wrap) => Stx {
                            data: arg.data,
                            children: arg.children.update(1, block_around(value)),
                        },
                        Some(Edit::Unwrap) => Stx {
                            data: arg.data,
                            children: arg.children.update(1, value.children[0]),
                        },
                        None => arg,
                    }
                },
                None => arg,
            },
            None => arg,
        }
    }
}

/// The tree with its implicit blocks rewritten.
///
/// For each call of a function that the namespace knows, and each argument whose
/// keyword the signature has: where the signature asks for a block and the value is
/// none, the value is put into a block without arguments that covers the same text;
/// where the signature asks for no block and the value is a block without arguments,
/// the block's body takes its place. A block with arguments where a value is asked
/// for stays.
pub open spec fn rewrite_spec(t: Stx, fs: Functions) -> Stx
    decreases t,
{
    Stx {
        data: t.data,
        children: Seq::new(
            t.children.len(),
            |k: int|
                if 0 <= k < t.children.len() {
                    rewrite_child(t, k, rewrite_spec(t.children[k], fs), fs)
                } else {
                    arbitrary()
                },
        ),
    }
}

/// The child `k` of a tree, of which `rewritten` is the child with its own implicit
/// blocks rewritten, as the tree's signature asks for it.
pub open spec fn rewrite_child(t: Stx, k: int, rewritten: Stx, fs: Functions) -> Stx {
    match call_signature(t, fs) {
        Some(sig) => rewrite_arg_spec(rewritten, sig),
        None => rewritten,
    }
}

/// Rewriting keeps the data of a tree's root, and the number of its children.
pub proof fn lemma_rewrite_root(t: Stx, fs: Functions)
    ensures
        rewrite_spec(t, fs).data == t.data,
        rewrite_spec(t, fs).children.len() == t.children.len(),
        forall|k: int|
            0 <= k < t.children.len() ==> #[trigger] rewrite_spec(t, fs).children[k]
                == rewrite_child(t, k, rewrite_spec(t.children[k], fs), fs),
{
}

/// A shaped argument stays shaped when its value is rewritten.
pub proof fn lemma_rewrite_arg_shaped(arg: Stx, sig: SignatureView, nsym: int, nconst: int)
    requires
        shaped(arg, nsym, nconst),
        arg.data.node_type is Argument,
    ensures
        shaped(rewrite_arg_spec(arg, sig), nsym, nconst),
        rewrite_arg_spec(arg, sig).data == arg.data,
{
    let out = rewrite_arg_spec(arg, sig);
    if out != arg {
        let value = arg.children[1];
        lemma_shaped(arg, nsym, nconst);
        lemma_shaped(out, nsym, nconst);
        lemma_shaped(value, nsym, nconst);
        assert(shaped(arg.children[0], nsym, nconst));
        assert(shaped(value, nsym, nconst));
        let keyword = symbol_of(arg.children[0].data.node_type)->Some_0;
        let i = arg_index(sig.args, keyword, 0)->Some_0;
        match edit_for(sig.args[i].ty is Block, value.data.node_type, value.children.len()) {
            Some(Edit::Wrap) => {
                let block = block_around(value);
                lemma_shaped(block, nsym, nconst);
                assert(block.children[0] == value);
                assert(shaped(block, nsym, nconst));
                assert forall|k: int| 0 <= k < out.children.len() implies shaped(
                    #[trigger] out.children[k],
                    nsym,
                    nconst,
                ) by {
                    if k == 0 {
                        assert(out.children[0] == arg.children[0]);
                    }
                }
                assert(root_kinds(out.children)[0] == root_kinds(arg.children)[0]);
            },
            Some(Edit::Unwrap) => {
                assert(shaped(value.children[0], nsym, nconst));
                assert forall|k: int| 0 <= k < out.children.len() implies shaped(
                    #[trigger] out.children[k],
                    nsym,
                    nconst,
                ) by {
                    if k == 0 {
                        assert(out.children[0] == arg.children[0]);
                    }
                }
                assert(root_kinds(out.children)[0] == root_kinds(arg.children)[0]);
            },
            None => {},
        }
    }
}

/// A shaped tree stays shaped when its implicit blocks are rewritten.
pub proof fn lemma_rewrite_shaped(t: Stx, fs: Functions, nsym: int, nconst: int)
    requires
        shaped(t, nsym, nconst),
    ensures
        shaped(rewrite_spec(t, fs), nsym, nconst),
    decreases t,
{
    let out = rewrite_spec(t, fs);
    lemma_rewrite_root(t, fs);
    lemma_shaped(t, nsym, nconst);
    lemma_shaped(out, nsym, nconst);
    assert forall|k: int| 0 <= k < t.children.len() implies shaped(
        #[trigger] out.children[k],
        nsym,
        nconst,
    ) && out.children[k].data == t.children[k].data by {
        let child = t.children[k];
        assert(shaped(child, nsym, nconst));
        lemma_rewrite_shaped(child, fs, nsym, nconst);
        lemma_rewrite_root(child, fs);
        let r = rewrite_spec(child, fs);
        match call_signature(t, fs) {
            Some(sig) => {
                assert(root_kinds(t.children)[k] == child.data.node_type);
                assert(child.data.node_type is Argument);
                lemma_rewrite_arg_shaped(r, sig, nsym, nconst);
            },
            None => {},
        }
    }
    assert(root_kinds(out.children) =~= root_kinds(t.children));
}

/// Whether the tree has a root, which is in the store and has no parent.
pub open spec fn rooted(tree: &SyntaxTree) -> bool {
    tree.root() matches Some(r) && tree.store().dom().contains(r) && tree.store()[r].parent
        is None
}

/// Whether `after` is `before` with its nodes edited: the same text, names, constants
/// and root.
pub open spec fn same_but_nodes(before: &SyntaxTree, after: &SyntaxTree) -> bool {
    &&& after.input == before.input
    &&& after.interns() == before.interns()
    &&& after.root() == before.root()
    &&& rooted(after)
}

/// The names and signatures that the rewrite of a tree reads.
pub open spec fn functions_of<NS: INamespace>(ns: &NS, tree: &SyntaxTree) -> Functions {
    Functions {
        names: tree.symbols.keys(),
        ns_symbols: ns.symbol_keys(),
        ns_signatures: ns.signature_map(),
    }
}

/// The signature of the function that the node `id` calls: see `call_signature`.
fn signature_of_call<'n, NS: INamespace>(
    ns: &'n NS,
    tree: &SyntaxTree,
    data: NodeData,
    children: &Vec<NodeId>,
    Ghost(id): Ghost<NodeId>,
) -> (sig: Option<&'n Signature>)
    requires
        is_forest(tree.store()),
        tree.store().dom().contains(id),
        data == tree.store()[id].data,
        children@ == tree.store()[id].children,
    ensures
        match sig {
            Some(s) => call_signature(subtree(tree.store(), id), functions_of(ns, tree)) == Some(
                s@,
            ),
            None => call_signature(subtree(tree.store(), id), functions_of(ns, tree)) is None,
        },
{
    proof {
        lemma_subtree(tree.store(), id);
    }
    match data.node_type {
        NodeType::Apply => {
            if children.len() == 0 {
                return None;
            }
            proof {
                lemma_child(tree.store(), id, 0);
            }
            let (_, first) = tree.expand(&children[0]);
            if first.len() == 0 {
                return None;
            }
            match tree.node_id_to_symbol_id(&first[0]) {
                Ok(sym) => match tree.symbols.get(sym) {
                    Some(name) => ns.get_signature(name.as_str()),
                    None => None,
                },
                Err(_) => None,
            }
        },
        _ => None,
    }
}

/// Gives the value of the argument `argument` the shape that the signature asks for:
/// see `rewrite_arg_spec`.
fn rewrite_arg(tree: &mut SyntaxTree, argument: &NodeId, signature: &Signature) -> (res: Result<
    (),
    ParseError,
>)
    requires
        is_forest(old(tree).store()),
        old(tree).store().dom().contains(*argument),
        rooted(old(tree)),
    ensures
        res is Ok,
        same_but_nodes(old(tree), final(tree)),
        edited(
            old(tree).store(),
            final(tree).store(),
            *argument,
            rewrite_arg_spec(subtree(old(tree).store(), *argument), signature@),
        ),
{
    let ghost before = tree.store();
    let ghost arg = subtree(before, *argument);
    proof {
        lemma_edited_none(before, *argument);
    }
    let (_, parts) = tree.expand(argument);
    if parts.len() != 2 {
        return Ok(());
    }
    let keyword = match tree.node_id_to_symbol_id(&parts[0]) {
        Ok(keyword) => keyword,
        Err(_) => {
            return Ok(());
        },
    };
    proof {
        lemma_arg_index(signature@.args, keyword, 0);
    }
    let wants_block = match signature.arg(keyword) {
        Some(spec) => is_block_type(&spec.ty),
        None => {
            return Ok(());
        },
    };
    let (value, inner) = tree.expand(&parts[1]);
    proof {
        lemma_child(before, *argument, 1);
    }
    match choose_edit(wants_block, value.node_type, inner.len()) {
        None => Ok(()),
        Some(Edit::Wrap) => {
            let data = NodeData {
                node_type: NodeType::Block,
                start_pos: value.start_pos,
                end_pos: value.end_pos,
            };
            let block = match insert_under(&mut tree.nodes, data, &parts[1]) {
                Ok(block) => block,
                Err(_) => {
                    return Err(ParseError::NodeId);
                },
            };
            proof {
                lemma_with_leaf_is_forest(before, parts@[1], block, data);
                lemma_wrapped(before, *argument, parts@[1], block, data);
                lemma_wrap_edit(before, *argument, 1, block, data);
            }
            match swap_with_child(&mut tree.nodes, &parts[1], &block) {
                Ok(()) => Ok(()),
                Err(_) => Err(ParseError::NodeId),
            }
        },
        Some(Edit::Unwrap) => {
            proof {
                lemma_child(before, parts@[1], 0);
                assert(before[parts@[1]].children =~= seq![inner@[0]]);
                lemma_unwrapped(before, parts@[1], inner@[0]);
                lemma_unwrap_edit(before, *argument, 1, inner@[0]);
            }
            match swap_with_child(&mut tree.nodes, &parts[1], &inner[0]) {
                Ok(()) => {},
                Err(_) => {
                    return Err(ParseError::NodeId);
                },
            }
            match remove_leaf(&mut tree.nodes, copy_id(&parts[1])) {
                Ok(()) => Ok(()),
                Err(_) => Err(ParseError::NodeId),
            }
        },
    }
}

/// Rewrites the implicit blocks of the tree below the node `id`: see `rewrite_spec`.
#[verifier::loop_isolation(false)]
fn rewrite_node<NS: INamespace>(ns: &NS, tree: &mut SyntaxTree, id: &NodeId) -> (res: Result<
    (),
    ParseError,
>)
    requires
        is_forest(old(tree).store()),
        old(tree).store().dom().contains(*id),
        rooted(old(tree)),
    ensures
        res is Ok,
        same_but_nodes(old(tree), final(tree)),
        edited(
            old(tree).store(),
            final(tree).store(),
            *id,
            rewrite_spec(subtree(old(tree).store(), *id), functions_of(ns, old(tree))),
        ),
    decreases depth(subtree(old(tree).store(), *id)),
{
    let ghost before = tree.store();
    let ghost t = subtree(before, *id);
    let ghost fs = functions_of(ns, tree);
    let (data, children) = tree.expand(id);
    let signature = signature_of_call(ns, tree, data, &children, Ghost(*id));
    proof {
        lemma_partly_start(before, *id);
        lemma_rewrite_root(t, fs);
    }
    let mut k: usize = 0;
    while k < children.len()
        invariant
            k <= children.len(),
            same_but_nodes(old(tree), tree),
            partly(before, tree.store(), *id),
            forall|j: int|
                0 <= j < k ==> subtree(tree.store(), #[trigger] children@[j]) == rewrite_spec(
                    t,
                    fs,
                ).children[j],
            forall|j: int|
                k <= j < children@.len() ==> subtree(tree.store(), #[trigger] children@[j])
                    == t.children[j],
        decreases children.len() - k,
    {
        let ghost s0 = tree.store();
        proof {
            lemma_depth(t, k as int);
            lemma_child(s0, *id, k as int);
        }
        match rewrite_node(ns, tree, &children[k]) {
            Ok(()) => {},
            Err(e) => {
                return Err(e);
            },
        }
        let ghost s1 = tree.store();
        let ghost r = rewrite_spec(t.children[k as int], fs);
        proof {
            lemma_edit_step(before, s0, s1, *id, k as int, r);
        }
        match signature {
            Some(sig) => {
                proof {
                    lemma_child(s1, *id, k as int);
                }
                match rewrite_arg(tree, &children[k], sig) {
                    Ok(()) => {},
                    Err(e) => {
                        return Err(e);
                    },
                }
                proof {
                    lemma_edit_step(
                        before,
                        s1,
                        tree.store(),
                        *id,
                        k as int,
                        rewrite_arg_spec(r, sig@),
                    );
                }
            },
            None => {},
        }
        k += 1;
    }
    proof {
        lemma_subtree(tree.store(), *id);
        assert(subtrees(tree.store(), children@) =~= rewrite_spec(t, fs).children);
        lemma_partly_done(before, tree.store(), *id);
    }
    Ok(())
}

/// Rewrites a syntax tree, adding and removing implicit blocks: see `rewrite_spec`.
pub fn rewrite<NS: INamespace>(ns: &NS, tree: &mut SyntaxTree) -> (res: Result<(), ParseError>)
    requires
        old(tree).wf(),
    ensures
        res is Ok,
        final(tree).wf(),
        final(tree).input == old(tree).input,
        final(tree).interns() == old(tree).interns(),
        final(tree)@ == rewrite_spec(old(tree)@, functions_of(ns, old(tree))),
{
    match tree.root_node_id() {
        Some(root) => {
            proof {
                lemma_rewrite_shaped(
                    tree@,
                    functions_of(ns, tree),
                    tree.symbols.keys().len() as int,
                    tree.constants.keys().len() as int,
                );
            }
            rewrite_node(ns, tree, &root)
        },
        None => Ok(()),
    }
}

} // verus!
