//! Lowers a syntax tree to instructions.
use super::instruction::Instruction;
use crate::frontend::syntax_tree::{symbol_of, NodeType, SyntaxTree};
use crate::frontend::tree_model::{height, is_forest, subtree, Stx};
use id_tree::NodeId;
use vstd::prelude::*;

verus! {

/// Why a tree could not be lowered.
#[derive(Debug, Clone, Copy, PartialEq, Eq, Structural)]
pub enum EmitError {
    /// A list, a record, a call or a block is larger than an instruction can say.
    TooLarge,
    /// A node does not have the children that its kind asks for.
    Malformed,
}

/// `acc` with the instructions for the tree: see `emit_spec`.
pub open spec fn emit_onto(t: Stx, acc: Seq<Instruction>) -> Result<Seq<Instruction>, EmitError>
    decreases t, 1int,
{
    match t.data.node_type {
        NodeType::Root => emit_all(t.children, 0, acc),
        NodeType::Primitive(id) => Ok(acc.push(Instruction::PushPrimitive { id })),
        NodeType::List => match emit_all(t.children, 0, acc) {
            Ok(code) => if t.children.len() <= u16::MAX {
                Ok(code.push(Instruction::MkList { size: t.children.len() as u16 }))
            } else {
                Err(EmitError::TooLarge)
            },
            Err(e) => Err(e),
        },
        NodeType::Record => match emit_pairs(t.children, 0, acc) {
            Ok(code) => if t.children.len() <= u16::MAX {
                Ok(code.push(Instruction::MkRecord { size: t.children.len() as u16 }))
            } else {
                Err(EmitError::TooLarge)
            },
            Err(e) => Err(e),
        },
        NodeType::Variable => if t.children.len() >= 1 {
            match symbol_of(t.children[0].data.node_type) {
                Some(id) => emit_props(t.children, 1, acc.push(Instruction::PushVar { id })),
                None => Err(EmitError::Malformed),
            }
        } else {
            Err(EmitError::Malformed)
        },
        NodeType::Block => if t.children.len() == 0 {
            Err(EmitError::Malformed)
        } else {
            let slot = acc.len() as int;
            let reserved = acc.push(Instruction::MkBlock { argc: 0, skip: 0 });
            let args = if t.children.len() > 1 {
                t.children[0].children
            } else {
                Seq::empty()
            };
            match emit_binds(args, 0, reserved) {
                Ok(bound) => match emit_onto(t.children[t.children.len() - 1], bound) {
                    Ok(code) => if args.len() <= u8::MAX && code.len() - (slot + 1) <= u16::MAX {
                        Ok(
                            code.update(
                                slot,
                                Instruction::MkBlock {
                                    argc: args.len() as u8,
                                    skip: (code.len() - (slot + 1)) as u16,
                                },
                            ),
                        )
                    } else {
                        Err(EmitError::TooLarge)
                    },
                    Err(e) => Err(e),
                },
                Err(e) => Err(e),
            }
        },
        NodeType::Apply => match emit_pairs(t.children, 0, acc) {
            Ok(code) => if t.children.len() <= u16::MAX {
                Ok(code.push(Instruction::CallFunction { argc: t.children.len() as u16 }))
            } else {
                Err(EmitError::TooLarge)
            },
            Err(e) => Err(e),
        },
        _ => Ok(acc),
    }
}

/// `acc` with the instructions for the trees from position `i` on, one after the other.
pub open spec fn emit_all(trees: Seq<Stx>, i: int, acc: Seq<Instruction>) -> Result<
    Seq<Instruction>,
    EmitError,
>
    decreases trees, trees.len() - i,
{
    if i < 0 || i >= trees.len() {
        Ok(acc)
    } else {
        match emit_onto(trees[i], acc) {
            Ok(code) => emit_all(trees, i + 1, code),
            Err(e) => Err(e),
        }
    }
}

/// `acc` with the instructions for the record entries or arguments from position `i`
/// on: for each, its name is pushed as a keyword, and then come the instructions for
/// its value.
pub open spec fn emit_pairs(items: Seq<Stx>, i: int, acc: Seq<Instruction>) -> Result<
    Seq<Instruction>,
    EmitError,
>
    decreases items, items.len() - i,
{
    if i < 0 || i >= items.len() {
        Ok(acc)
    } else if items[i].children.len() < 2 {
        Err(EmitError::Malformed)
    } else {
        match symbol_of(items[i].children[0].data.node_type) {
            Some(id) => match emit_onto(
                items[i].children[1],
                acc.push(Instruction::PushKeyword { id }),
            ) {
                Ok(code) => emit_pairs(items, i + 1, code),
                Err(e) => Err(e),
            },
            None => Err(EmitError::Malformed),
        }
    }
}

/// `acc` with a `PushProp` for each segment of a variable's path from position `i` on.
pub open spec fn emit_props(segments: Seq<Stx>, i: int, acc: Seq<Instruction>) -> Result<
    Seq<Instruction>,
    EmitError,
>
    decreases segments.len() - i,
{
    if i < 0 || i >= segments.len() {
        Ok(acc)
    } else {
        match symbol_of(segments[i].data.node_type) {
            Some(id) => emit_props(segments, i + 1, acc.push(Instruction::PushProp { id })),
            None => Err(EmitError::Malformed),
        }
    }
}

/// `acc` with a `Bind` for each argument of a block from position `i` on.
pub open spec fn emit_binds(args: Seq<Stx>, i: int, acc: Seq<Instruction>) -> Result<
    Seq<Instruction>,
    EmitError,
>
    decreases args.len() - i,
{
    if i < 0 || i >= args.len() {
        Ok(acc)
    } else {
        match symbol_of(args[i].data.node_type) {
            Some(id) => emit_binds(args, i + 1, acc.push(Instruction::Bind { id })),
            None => Err(EmitError::Malformed),
        }
    }
}

/// The instructions for a tree.
///
/// A constant is pushed. A list pushes its elements and makes a list of them. A record
/// pushes, for each entry, the name as a keyword and then the value, and makes a record
/// of them. A variable pushes the value of its first name, and takes a property of it
/// for each further name. A block is a `MkBlock` that says how many instructions
/// follow for it; they bind the block's arguments and compute its body. A call pushes,
/// for each argument, the keyword and then the value, and calls the function. Other
/// nodes give no instructions.
pub open spec fn emit_spec(t: Stx) -> Result<Seq<Instruction>, EmitError> {
    emit_onto(t, Seq::empty())
}

/// Whether the outcome of lowering is what the specification says.
pub open spec fn emitted(
    res: Result<(), EmitError>,
    code: Seq<Instruction>,
    spec: Result<Seq<Instruction>, EmitError>,
) -> bool {
    match res {
        Ok(()) => spec == Ok::<Seq<Instruction>, EmitError>(code),
        Err(e) => spec == Err::<Seq<Instruction>, EmitError>(e),
    }
}

/// Collects the instructions for the nodes of a tree.
pub struct Emitter<'t> {
    pub tree: &'t SyntaxTree<'t>,
    pub instructions: Vec<Instruction>,
}

impl<'t> Emitter<'t> {
    pub fn new(tree: &'t SyntaxTree<'t>) -> (emitter: Self)
        ensures
            emitter.tree == tree,
            emitter.instructions@ == Seq::<Instruction>::empty(),
    {
        Emitter { tree, instructions: Vec::with_capacity(1024) }
    }

    fn symbol_at(&self, id: &NodeId) -> (res: Option<u16>)
        requires
            self.tree.store().dom().contains(*id),
        ensures
            res == symbol_of(self.tree.store()[*id].data.node_type),
    {
        match self.tree.node_id_to_symbol_id(id) {
            Ok(sym) => Some(sym),
            Err(_) => None,
        }
    }

    fn pairs(&mut self, items: &Vec<NodeId>, Ghost(trees): Ghost<Seq<Stx>>, Ghost(top): Ghost<
        nat,
    >) -> (res: Result<(), EmitError>)
        requires
            is_forest(old(self).tree.store()),
            trees.len() == items@.len(),
            forall|k: int|
                0 <= k < items@.len() ==> old(self).tree.store().dom().contains(
                    #[trigger] items@[k],
                ) && subtree(old(self).tree.store(), items@[k]) == trees[k] && height(
                    old(self).tree.store(),
                    items@[k],
                ) < top,
        ensures
            final(self).tree == old(self).tree,
            final(self).instructions@.len() >= old(self).instructions@.len(),
            emitted(res, final(self).instructions@, emit_pairs(trees, 0, old(self).instructions@)),
        decreases top, 0int,
    {
        let mut i: usize = 0;
        while i < items.len()
            invariant
                i <= items.len(),
                self.instructions@.len() >= old(self).instructions@.len(),
                self.tree == old(self).tree,
                is_forest(self.tree.store()),
                trees.len() == items@.len(),
                forall|k: int|
                    0 <= k < items@.len() ==> self.tree.store().dom().contains(
                        #[trigger] items@[k],
                    ) && subtree(self.tree.store(), items@[k]) == trees[k] && height(
                        self.tree.store(),
                        items@[k],
                    ) < top,
                emit_pairs(trees, i as int, self.instructions@) == emit_pairs(
                    trees,
                    0,
                    old(self).instructions@,
                ),
            decreases items.len() - i,
        {
            let (_, parts) = self.tree.expand(&items[i]);
            if parts.len() < 2 {
                return Err(EmitError::Malformed);
            }
            let name = match self.symbol_at(&parts[0]) {
                Some(name) => name,
                None => {
                    return Err(EmitError::Malformed);
                },
            };
            self.instructions.push(Instruction::PushKeyword { id: name });
            match self.recur(&parts[1]) {
                Ok(()) => {},
                Err(e) => {
                    return Err(e);
                },
            }
            i += 1;
        }
        Ok(())
    }

    /// Adds the instructions for the tree below the node `node_id`.
    #[verifier::loop_isolation(false)]
    pub fn recur(&mut self, node_id: &NodeId) -> (res: Result<(), EmitError>)
        requires
            is_forest(old(self).tree.store()),
            old(self).tree.store().dom().contains(*node_id),
        ensures
            final(self).tree == old(self).tree,
            final(self).instructions@.len() >= old(self).instructions@.len(),
            emitted(
                res,
                final(self).instructions@,
                emit_onto(subtree(old(self).tree.store(), *node_id), old(self).instructions@),
            ),
        decreases height(old(self).tree.store(), *node_id), 1int,
    {
        let ghost t = subtree(self.tree.store(), *node_id);
        let ghost top = height(self.tree.store(), *node_id);
        let (data, children) = self.tree.expand(node_id);
        match data.node_type {
            NodeType::Root => self.all(&children, Ghost(t.children), Ghost(top)),
            NodeType::Primitive(id) => {
                self.instructions.push(Instruction::PushPrimitive { id });
                Ok(())
            },
            NodeType::List => {
                match self.all(&children, Ghost(t.children), Ghost(top)) {
                    Ok(()) => {},
                    Err(e) => {
                        return Err(e);
                    },
                }
                if children.len() > u16::MAX as usize {
                    return Err(EmitError::TooLarge);
                }
                self.instructions.push(Instruction::MkList { size: children.len() as u16 });
                Ok(())
            },
            NodeType::Record => {
                match self.pairs(&children, Ghost(t.children), Ghost(top)) {
                    Ok(()) => {},
                    Err(e) => {
                        return Err(e);
                    },
                }
                if children.len() > u16::MAX as usize {
                    return Err(EmitError::TooLarge);
                }
                self.instructions.push(Instruction::MkRecord { size: children.len() as u16 });
                Ok(())
            },
            NodeType::Variable => {
                if children.len() < 1 {
                    return Err(EmitError::Malformed);
                }
                let root_name = match self.symbol_at(&children[0]) {
                    Some(name) => name,
                    None => {
                        return Err(EmitError::Malformed);
                    },
                };
                self.instructions.push(Instruction::PushVar { id: root_name });
                let mut i: usize = 1;
                while i < children.len()
                    invariant
                        1 <= i <= children.len(),
                        self.tree == old(self).tree,
                        self.instructions@.len() > old(self).instructions@.len(),
                        children@.len() == t.children.len(),
                        forall|k: int|
                            0 <= k < children@.len() ==> self.tree.store().dom().contains(
                                #[trigger] children@[k],
                            ) && t.children[k].data == self.tree.store()[children@[k]].data,
                        emit_props(t.children, i as int, self.instructions@) == emit_onto(
                            t,
                            old(self).instructions@,
                        ),
                    decreases children.len() - i,
                {
                    let prop_name = match self.symbol_at(&children[i]) {
                        Some(name) => name,
                        None => {
                            return Err(EmitError::Malformed);
                        },
                    };
                    self.instructions.push(Instruction::PushProp { id: prop_name });
                    i += 1;
                }
                Ok(())
            },
            NodeType::Block => {
                if children.len() == 0 {
                    return Err(EmitError::Malformed);
                }
                let jump_ip = self.instructions.len();
                self.instructions.push(Instruction::MkBlock { argc: 0, skip: 0 });
                let ghost reserved = self.instructions@;
                let mut argc: usize = 0;
                let ghost mut args: Seq<Stx> = Seq::empty();
                if children.len() > 1 {
                    let (_, arg_ids) = self.tree.expand(&children[0]);
                    argc = arg_ids.len();
                    proof {
                        args = t.children[0].children;
                    }
                    let mut i: usize = 0;
                    while i < arg_ids.len()
                        invariant
                            i <= arg_ids.len(),
                            self.tree == old(self).tree,
                            arg_ids@.len() == args.len(),
                            forall|k: int|
                                0 <= k < arg_ids@.len() ==> self.tree.store().dom().contains(
                                    #[trigger] arg_ids@[k],
                                ) && args[k].data == self.tree.store()[arg_ids@[k]].data,
                            emit_binds(args, i as int, self.instructions@) == emit_binds(
                                args,
                                0,
                                reserved,
                            ),
                            self.instructions@.len() > jump_ip,
                        decreases arg_ids.len() - i,
                    {
                        let arg_name = match self.symbol_at(&arg_ids[i]) {
                            Some(name) => name,
                            None => {
                                return Err(EmitError::Malformed);
                            },
                        };
                        self.instructions.push(Instruction::Bind { id: arg_name });
                        i += 1;
                    }
                }
                match self.recur(&children[children.len() - 1]) {
                    Ok(()) => {},
                    Err(e) => {
                        return Err(e);
                    },
                }
                let skip = self.instructions.len() - (jump_ip + 1);
                if argc > u8::MAX as usize || skip > u16::MAX as usize {
                    return Err(EmitError::TooLarge);
                }
                self.instructions.set(
                    jump_ip,
                    Instruction::MkBlock { argc: argc as u8, skip: skip as u16 },
                );
                Ok(())
            },
            NodeType::Apply => {
                match self.pairs(&children, Ghost(t.children), Ghost(top)) {
                    Ok(()) => {},
                    Err(e) => {
                        return Err(e);
                    },
                }
                if children.len() > u16::MAX as usize {
                    return Err(EmitError::TooLarge);
                }
                self.instructions.push(
                    Instruction::CallFunction { argc: children.len() as u16 },
                );
                Ok(())
            },
            _ => Ok(()),
        }
    }

    fn all(&mut self, items: &Vec<NodeId>, Ghost(trees): Ghost<Seq<Stx>>, Ghost(top): Ghost<
        nat,
    >) -> (res: Result<(), EmitError>)
        requires
            is_forest(old(self).tree.store()),
            trees.len() == items@.len(),
            forall|k: int|
                0 <= k < items@.len() ==> old(self).tree.store().dom().contains(
                    #[trigger] items@[k],
                ) && subtree(old(self).tree.store(), items@[k]) == trees[k] && height(
                    old(self).tree.store(),
                    items@[k],
                ) < top,
        ensures
            final(self).tree == old(self).tree,
            final(self).instructions@.len() >= old(self).instructions@.len(),
            emitted(res, final(self).instructions@, emit_all(trees, 0, old(self).instructions@)),
        decreases top, 0int,
    {
        let mut i: usize = 0;
        while i < items.len()
            invariant
                i <= items.len(),
                self.instructions@.len() >= old(self).instructions@.len(),
                self.tree == old(self).tree,
                is_forest(self.tree.store()),
                trees.len() == items@.len(),
                forall|k: int|
                    0 <= k < items@.len() ==> self.tree.store().dom().contains(
                        #[trigger] items@[k],
                    ) && subtree(self.tree.store(), items@[k]) == trees[k] && height(
                        self.tree.store(),
                        items@[k],
                    ) < top,
                emit_all(trees, i as int, self.instructions@) == emit_all(
                    trees,
                    0,
                    old(self).instructions@,
                ),
            decreases items.len() - i,
        {
            match self.recur(&items[i]) {
                Ok(()) => {},
                Err(e) => {
                    return Err(e);
                },
            }
            i += 1;
        }
        Ok(())
    }
}

/// The instructions for a tree: see `emit_spec`.
pub fn emit<'i>(tree: &'i SyntaxTree<'i>) -> (res: Result<Vec<Instruction>, EmitError>)
    requires
        tree.wf(),
    ensures
        match res {
            Ok(code) => emit_spec(tree@) == Ok::<Seq<Instruction>, EmitError>(code@),
            Err(e) => emit_spec(tree@) == Err::<Seq<Instruction>, EmitError>(e),
        },
{
    match tree.root_node_id() {
        Some(root_node_id) => {
            let mut emitter = Emitter::new(tree);
            match emitter.recur(&root_node_id) {
                Ok(()) => Ok(emitter.instructions),
                Err(e) => Err(e),
            }
        },
        None => Ok(Vec::new()),
    }
}

} // verus!
