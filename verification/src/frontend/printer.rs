//! Writes a syntax tree as source text.
use super::syntax_tree::{NodeType, SyntaxTree};
use super::tree_model::{height, is_forest, subtree, Stx};
use crate::primitive::{prim_text, PrimView};
use crate::text::{push_char, push_text};
use id_tree::NodeId;
use vstd::prelude::*;

verus! {

/// `acc` with the text of the tree: see `print_spec`.
pub open spec fn print_onto(
    t: Stx,
    acc: Seq<char>,
    names: Seq<Seq<char>>,
    constants: Seq<PrimView>,
) -> Seq<char>
    decreases t, 1int,
{
    match t.data.node_type {
        NodeType::Root => print_lines(t.children, 0, acc, names, constants),
        NodeType::Primitive(id) => if id < constants.len() {
            acc + prim_text(constants[id as int])
        } else {
            acc
        },
        NodeType::Variable => print_joined(t.children, 0, acc, '.', names, constants),
        NodeType::Ident(id) => if id < names.len() {
            acc + names[id as int]
        } else {
            acc
        },
        NodeType::Keyword(id) => if id < names.len() {
            (acc + names[id as int]).push(':')
        } else {
            acc.push(':')
        },
        NodeType::List => print_joined(t.children, 0, acc.push('['), ' ', names, constants).push(
            ']',
        ),
        NodeType::Record => print_joined(t.children, 0, acc.push('['), ' ', names, constants).push(
            ']',
        ),
        NodeType::RecordEntry => if t.children.len() >= 2 {
            print_onto(
                t.children[1],
                print_onto(t.children[0], acc, names, constants).push('='),
                names,
                constants,
            )
        } else {
            acc
        },
        NodeType::Apply => print_joined(t.children, 0, acc, ' ', names, constants),
        NodeType::Argument => print_joined(t.children, 0, acc, ' ', names, constants),
        NodeType::Block => print_each(t.children, 0, acc + "{ "@, None, names, constants) + " }"@,
        NodeType::BlockArgs => if t.children.len() > 0 {
            print_each(t.children, 0, acc, Some(' '), names, constants) + "=> "@
        } else {
            acc
        },
    }
}

/// `acc` with the texts of the trees from position `i` on, each with a line end after
/// it.
pub open spec fn print_lines(
    trees: Seq<Stx>,
    i: int,
    acc: Seq<char>,
    names: Seq<Seq<char>>,
    constants: Seq<PrimView>,
) -> Seq<char>
    decreases trees, trees.len() - i,
{
    if i < 0 || i >= trees.len() {
        acc
    } else {
        print_lines(
            trees,
            i + 1,
            print_onto(trees[i], acc, names, constants).push('\n'),
            names,
            constants,
        )
    }
}

/// `acc` with the texts of the trees from position `i` on, with `sep` between one and
/// the next.
pub open spec fn print_joined(
    trees: Seq<Stx>,
    i: int,
    acc: Seq<char>,
    sep: char,
    names: Seq<Seq<char>>,
    constants: Seq<PrimView>,
) -> Seq<char>
    decreases trees, trees.len() - i,
{
    if i < 0 || i >= trees.len() {
        acc
    } else {
        print_joined(
            trees,
            i + 1,
            print_onto(
                trees[i],
                if i == 0 {
                    acc
                } else {
                    acc.push(sep)
                },
                names,
                constants,
            ),
            sep,
            names,
            constants,
        )
    }
}

/// `acc` with the texts of the trees from position `i` on, each with `after` behind
/// it, if there is one.
pub open spec fn print_each(
    trees: Seq<Stx>,
    i: int,
    acc: Seq<char>,
    after: Option<char>,
    names: Seq<Seq<char>>,
    constants: Seq<PrimView>,
) -> Seq<char>
    decreases trees, trees.len() - i,
{
    if i < 0 || i >= trees.len() {
        acc
    } else {
        let here = print_onto(trees[i], acc, names, constants);
        print_each(
            trees,
            i + 1,
            match after {
                Some(c) => here.push(c),
                None => here,
            },
            after,
            names,
            constants,
        )
    }
}

/// The text of a tree.
///
/// A constant is written as its text, a name as it is, a keyword with `:` behind it.
/// The names of a variable stand with `.` between them. A list and a record stand
/// between `[` and `]`, their parts with a blank between them; a record entry is the
/// name, `=` and the value. The arguments of a call, and the keyword and the value of
/// an argument, stand with a blank between them. A block stands between `{ ` and ` }`;
/// its arguments come first, each with a blank behind it, and then `=> `.
pub open spec fn print_spec(t: Stx, names: Seq<Seq<char>>, constants: Seq<PrimView>) -> Seq<char> {
    print_onto(t, Seq::empty(), names, constants)
}

impl<'i> SyntaxTree<'i> {
    #[verifier::loop_isolation(false)]
    fn print_joined_nodes(
        &self,
        out: &mut String,
        items: &Vec<NodeId>,
        sep: char,
        Ghost(trees): Ghost<Seq<Stx>>,
        Ghost(top): Ghost<nat>,
    )
        requires
            is_forest(self.store()),
            trees.len() == items@.len(),
            forall|k: int|
                0 <= k < items@.len() ==> self.store().dom().contains(#[trigger] items@[k])
                    && subtree(self.store(), items@[k]) == trees[k] && height(
                    self.store(),
                    items@[k],
                ) < top,
        ensures
            final(out)@ == print_joined(
                trees,
                0,
                old(out)@,
                sep,
                self.symbols.keys(),
                self.constants.keys(),
            ),
        decreases top, 0int,
    {
        let mut i: usize = 0;
        while i < items.len()
            invariant
                i <= items.len(),
                print_joined(trees, i as int, out@, sep, self.symbols.keys(), self.constants.keys())
                    == print_joined(
                    trees,
                    0,
                    old(out)@,
                    sep,
                    self.symbols.keys(),
                    self.constants.keys(),
                ),
            decreases items.len() - i,
        {
            if i != 0 {
                push_char(out, sep);
            }
            self.print_node(out, &items[i]);
            i += 1;
        }
    }

    #[verifier::loop_isolation(false)]
    fn print_each_node(
        &self,
        out: &mut String,
        items: &Vec<NodeId>,
        after: Option<char>,
        Ghost(trees): Ghost<Seq<Stx>>,
        Ghost(top): Ghost<nat>,
    )
        requires
            is_forest(self.store()),
            trees.len() == items@.len(),
            forall|k: int|
                0 <= k < items@.len() ==> self.store().dom().contains(#[trigger] items@[k])
                    && subtree(self.store(), items@[k]) == trees[k] && height(
                    self.store(),
                    items@[k],
                ) < top,
        ensures
            final(out)@ == print_each(
                trees,
                0,
                old(out)@,
                after,
                self.symbols.keys(),
                self.constants.keys(),
            ),
        decreases top, 0int,
    {
        let mut i: usize = 0;
        while i < items.len()
            invariant
                i <= items.len(),
                print_each(trees, i as int, out@, after, self.symbols.keys(), self.constants.keys())
                    == print_each(
                    trees,
                    0,
                    old(out)@,
                    after,
                    self.symbols.keys(),
                    self.constants.keys(),
                ),
            decreases items.len() - i,
        {
            self.print_node(out, &items[i]);
            match after {
                Some(c) => push_char(out, c),
                None => {},
            }
            i += 1;
        }
    }

    /// Adds the text of the tree below the node `node_id` to `out`.
    #[verifier::loop_isolation(false)]
    pub fn print_node(&self, out: &mut String, node_id: &NodeId)
        requires
            is_forest(self.store()),
            self.store().dom().contains(*node_id),
        ensures
            final(out)@ == print_onto(
                subtree(self.store(), *node_id),
                old(out)@,
                self.symbols.keys(),
                self.constants.keys(),
            ),
        decreases height(self.store(), *node_id), 1int,
    {
        let ghost t = subtree(self.store(), *node_id);
        let ghost top = height(self.store(), *node_id);
        let ghost names = self.symbols.keys();
        let ghost constants = self.constants.keys();
        let (data, children) = self.expand(node_id);
        match data.node_type {
            NodeType::Root => {
                let mut i: usize = 0;
                while i < children.len()
                    invariant
                        i <= children.len(),
                        print_lines(t.children, i as int, out@, names, constants) == print_lines(
                            t.children,
                            0,
                            old(out)@,
                            names,
                            constants,
                        ),
                    decreases children.len() - i,
                {
                    self.print_node(out, &children[i]);
                    push_char(out, '\n');
                    i += 1;
                }
            },
            NodeType::Primitive(id) => {
                match self.constants.get(id) {
                    Some(c) => {
                        let text = c.to_text();
                        push_text(out, text.as_str());
                    },
                    None => {},
                }
            },
            NodeType::Variable => {
                self.print_joined_nodes(out, &children, '.', Ghost(t.children), Ghost(top));
            },
            NodeType::Ident(id) => {
                match self.symbols.get(id) {
                    Some(name) => push_text(out, name.as_str()),
                    None => {},
                }
            },
            NodeType::Keyword(id) => {
                match self.symbols.get(id) {
                    Some(name) => push_text(out, name.as_str()),
                    None => {},
                }
                push_char(out, ':');
            },
            NodeType::List => {
                push_char(out, '[');
                self.print_joined_nodes(out, &children, ' ', Ghost(t.children), Ghost(top));
                push_char(out, ']');
            },
            NodeType::Record => {
                push_char(out, '[');
                self.print_joined_nodes(out, &children, ' ', Ghost(t.children), Ghost(top));
                push_char(out, ']');
            },
            NodeType::RecordEntry => {
                if children.len() >= 2 {
                    self.print_node(out, &children[0]);
                    push_char(out, '=');
                    self.print_node(out, &children[1]);
                }
            },
            NodeType::Apply => {
                self.print_joined_nodes(out, &children, ' ', Ghost(t.children), Ghost(top));
            },
            NodeType::Argument => {
                self.print_joined_nodes(out, &children, ' ', Ghost(t.children), Ghost(top));
            },
            NodeType::Block => {
                push_text(out, "{ ");
                self.print_each_node(out, &children, None, Ghost(t.children), Ghost(top));
                push_text(out, " }");
            },
            NodeType::BlockArgs => {
                if children.len() > 0 {
                    self.print_each_node(out, &children, Some(' '), Ghost(t.children), Ghost(top));
                    push_text(out, "=> ");
                }
            },
        }
    }

    /// The tree as source text: see `print_spec`.
    pub fn to_text(&self) -> (text: String)
        requires
            self.wf(),
        ensures
            text@ == print_spec(self@, self.symbols.keys(), self.constants.keys()),
    {
        let mut text = String::new();
        match self.root_node_id() {
            Some(root) => self.print_node(&mut text, &root),
            None => {},
        }
        text
    }
}

} // verus!
