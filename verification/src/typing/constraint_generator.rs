//! Walks a syntax tree and says which types have to agree.
use super::constraint_solver::{constraints_view, ConstraintView};
use super::substitution::{
    add_names, apply_subst, apply_to_type, free_vars, merge_names, names_view, vars_of_type,
    SubstView,
};
use super::type_env::{
    asked, bind_fresh, defined, entered, fresh_bindings, fresh_var_name, left, next_count,
    EnvView, FreshVarSupply, TypeEnv,
};
use super::type_errors::{errors_view, Problem, ProblemView, TypeError, TypeErrorView};
use super::types::{
    clone_type, fields_view, insert_field, lemma_block_view, lemma_record_view, put_field,
    types_view, FieldTy, RecordField, Ty, Type,
};
use crate::arena::ArenaId;
use crate::frontend::syntax_tree::{symbol_of, NodeData, NodeType, SyntaxTree};
use crate::frontend::tree_model::{height, is_forest, subtree, Stx};
use crate::namespace::{signature_named, INamespace};
use crate::primitive::{prim_type, PrimView};
use crate::signature::{arg_index, lemma_arg_index, ArgumentView, Signature, SignatureView};
use id_tree::NodeId;
use vstd::prelude::*;

verus! {

/// Two types that have to agree, and the node that asks for it.
#[derive(Debug, PartialEq)]
pub struct Constraint(pub Type, pub Type, pub NodeData);

/// What the generator reads but does not change: the names and constants of the tree,
/// and the symbols and signatures of the namespace.
pub struct Context {
    pub names: Seq<Seq<char>>,
    pub constants: Seq<PrimView>,
    pub ns_symbols: Seq<Seq<char>>,
    pub ns_signatures: Map<ArenaId, SignatureView>,
}

/// The model of the generator's state: how many type variables were handed out, the
/// constraints and errors so far, and the environment.
pub struct GenView {
    pub count: usize,
    pub constraints: Seq<ConstraintView>,
    pub errors: Seq<TypeErrorView>,
    pub env: EnvView,
}

/// A fresh type variable, and the state after it was handed out.
pub open spec fn fresh_spec(st: GenView) -> (Ty, GenView) {
    (Ty::Var(fresh_var_name(next_count(st.count))), GenView { count: next_count(st.count), ..st })
}

/// The state with the constraint that `left` and `right` agree, asked for by the node
/// with the data `data`.
pub open spec fn constrained(st: GenView, data: NodeData, left: Ty, right: Ty) -> GenView {
    GenView { constraints: st.constraints.push((left, right, data)), ..st }
}

/// The state with the error that `problem` was found at the node with the data `data`.
pub open spec fn reported(st: GenView, data: NodeData, problem: ProblemView) -> GenView {
    GenView { errors: st.errors.push(TypeErrorView { location: data, error: problem }), ..st }
}

/// The name that a node of this kind refers to; the empty name where it refers to
/// none.
pub open spec fn name_of(cx: Context, kind: NodeType) -> Seq<char> {
    match symbol_of(kind) {
        Some(id) => if id < cx.names.len() {
            cx.names[id as int]
        } else {
            Seq::empty()
        },
        None => Seq::empty(),
    }
}

/// The free variables of the types of the arguments from position `i` on, added to
/// `acc`.
pub open spec fn signature_vars(args: Seq<ArgumentView>, i: int, acc: Seq<Seq<char>>) -> Seq<
    Seq<char>,
>
    decreases args.len() - i,
{
    if i < 0 || i >= args.len() {
        acc
    } else {
        signature_vars(args, i + 1, add_names(acc, free_vars(args[i].ty), 0))
    }
}

/// The type of the tree, and the state after constraints were generated for it.
///
/// A constant has its own type. A list has the type of a list of a fresh variable,
/// which has to agree with each element. A record has the closed record type of its
/// entries. A variable has the type that its name stands for, or, with a path, the
/// type of the path's last field: the name then has to be a partial record with the
/// path's fields. A block has the type of a block from fresh variables, one for each
/// of its arguments, to its body. A call has a fresh variable as its type, which has
/// to agree with what the function returns; the type of each argument has to agree
/// with what the signature says of its keyword. The signature's type variables are
/// replaced by fresh ones for each call.
pub open spec fn gen_spec(t: Stx, st: GenView, cx: Context) -> (Ty, GenView)
    decreases t, 1int,
{
    match t.data.node_type {
        NodeType::Root => gen_last(t.children, 0, Ty::Any, st, cx),
        NodeType::Primitive(id) => if id < cx.constants.len() {
            (prim_type(cx.constants[id as int]), st)
        } else {
            (Ty::Never, st)
        },
        NodeType::List => {
            let (elem, st1) = fresh_spec(st);
            (Ty::List(Box::new(elem)), gen_items(t.children, 0, elem, st1, cx))
        },
        NodeType::Record => {
            let (fields, st1) = gen_entries(t.children, 0, Seq::empty(), st, cx);
            (Ty::Record(false, fields), st1)
        },
        NodeType::Variable => if t.children.len() == 0 {
            (Ty::Never, st)
        } else {
            let (scheme, env, count) = asked(
                st.env,
                name_of(cx, t.children[0].data.node_type),
                st.count,
            );
            let (subs, count2) = fresh_bindings(scheme.vars, 0, count, Seq::empty());
            let root_ty = apply_subst(scheme.ty, subs);
            let st1 = GenView { env, count: count2, ..st };
            if t.children.len() == 1 {
                (root_ty, st1)
            } else {
                let (leaf, st2) = fresh_spec(st1);
                let (root_var, st3) = gen_path(
                    t.children,
                    t.children.len() - 1,
                    leaf,
                    st2,
                    cx,
                    t.data.start_pos,
                );
                (leaf, constrained(st3, t.data, root_ty, root_var))
            }
        },
        NodeType::Block => if t.children.len() == 0 {
            (Ty::Never, st)
        } else if t.children.len() > 1 {
            let st0 = GenView { env: entered(st.env), ..st };
            let (inputs, st1) = gen_params(t.children[0].children, 0, Seq::empty(), st0, cx);
            let (out, st2) = gen_spec(t.children[1], st1, cx);
            (Ty::Block(inputs, Box::new(out)), GenView { env: left(st2.env), ..st2 })
        } else {
            let (out, st1) = gen_spec(t.children[0], st, cx);
            (Ty::Block(Seq::empty(), Box::new(out)), st1)
        },
        NodeType::Apply => if t.children.len() == 0 || t.children[0].children.len() == 0 {
            (Ty::Never, st)
        } else {
            let func_name = name_of(cx, t.children[0].children[0].data.node_type);
            match signature_named(cx.ns_symbols, cx.ns_signatures, func_name) {
                None => (Ty::Any, reported(st, t.children[0].data, ProblemView::UnknownFunction)),
                Some(sig) => {
                    let (subs, count) = fresh_bindings(
                        signature_vars(sig.args, 0, Seq::empty()),
                        0,
                        st.count,
                        Seq::empty(),
                    );
                    let st1 = gen_arguments(
                        t.children,
                        0,
                        sig,
                        subs,
                        func_name,
                        GenView { count, ..st },
                        cx,
                    );
                    let (out, st2) = fresh_spec(st1);
                    (out, constrained(st2, t.data, out, apply_subst(sig.return_type, subs)))
                },
            }
        },
        _ => (Ty::Never, st),
    }
}

/// The type of the last of the trees from position `i` on, or `last` if there is none,
/// and the state after constraints were generated for all of them.
pub open spec fn gen_last(trees: Seq<Stx>, i: int, last: Ty, st: GenView, cx: Context) -> (
    Ty,
    GenView,
)
    decreases trees, trees.len() - i,
{
    if i < 0 || i >= trees.len() {
        (last, st)
    } else {
        let (ty, st1) = gen_spec(trees[i], st, cx);
        gen_last(trees, i + 1, ty, st1, cx)
    }
}

/// The state after each element of a list from position `i` on was constrained to
/// agree with `elem`.
pub open spec fn gen_items(items: Seq<Stx>, i: int, elem: Ty, st: GenView, cx: Context) -> GenView
    decreases items, items.len() - i,
{
    if i < 0 || i >= items.len() {
        st
    } else {
        let (ty, st1) = gen_spec(items[i], st, cx);
        gen_items(items, i + 1, elem, constrained(st1, items[i].data, elem, ty), cx)
    }
}

/// The fields of the entries of a record from position `i` on, put into `acc`.
pub open spec fn gen_entries(entries: Seq<Stx>, i: int, acc: Seq<FieldTy>, st: GenView, cx: Context) -> (
    Seq<FieldTy>,
    GenView,
)
    decreases entries, entries.len() - i,
{
    if i < 0 || i >= entries.len() {
        (acc, st)
    } else if entries[i].children.len() < 2 {
        gen_entries(entries, i + 1, acc, st, cx)
    } else {
        let (ty, st1) = gen_spec(entries[i].children[1], st, cx);
        gen_entries(
            entries,
            i + 1,
            insert_field(
                acc,
                FieldTy {
                    name: name_of(cx, entries[i].children[0].data.node_type),
                    optional: false,
                    ty,
                },
            ),
            st1,
            cx,
        )
    }
}

/// The variable that stands for the record that has the path's fields from position
/// `i` down to the first, where `field_var` is the type of the field at `i`.
pub open spec fn gen_path(
    segments: Seq<Stx>,
    i: int,
    field_var: Ty,
    st: GenView,
    cx: Context,
    start_pos: usize,
) -> (Ty, GenView)
    decreases i,
{
    if i < 1 || i >= segments.len() {
        (field_var, st)
    } else {
        let (next_var, st1) = fresh_spec(st);
        let record_ty = Ty::Record(
            true,
            seq![
                FieldTy {
                    name: name_of(cx, segments[i].data.node_type),
                    optional: false,
                    ty: field_var,
                },
            ],
        );
        let data = NodeData {
            node_type: NodeType::Variable,
            start_pos,
            end_pos: segments[i].data.end_pos,
        };
        gen_path(segments, i - 1, next_var, constrained(st1, data, next_var, record_ty), cx, start_pos)
    }
}

/// A fresh variable for each argument of a block from position `i` on, added to
/// `acc`; each argument's name stands for its variable in the innermost scope.
pub open spec fn gen_params(params: Seq<Stx>, i: int, acc: Seq<Ty>, st: GenView, cx: Context) -> (
    Seq<Ty>,
    GenView,
)
    decreases params.len() - i,
{
    if i < 0 || i >= params.len() {
        (acc, st)
    } else {
        let (ty, st1) = fresh_spec(st);
        gen_params(
            params,
            i + 1,
            acc.push(ty),
            GenView { env: defined(st1.env, name_of(cx, params[i].data.node_type), ty), ..st1 },
            cx,
        )
    }
}

/// The state after each argument of a call from position `i` on was constrained to
/// agree with what the signature says of its keyword. A keyword that the signature
/// does not have is an error, and constrains nothing.
pub open spec fn gen_arguments(
    args: Seq<Stx>,
    i: int,
    sig: SignatureView,
    subs: SubstView,
    func_name: Seq<char>,
    st: GenView,
    cx: Context,
) -> GenView
    decreases args, args.len() - i,
{
    if i < 0 || i >= args.len() {
        st
    } else if args[i].children.len() < 2 {
        gen_arguments(args, i + 1, sig, subs, func_name, st, cx)
    } else {
        let keyword = args[i].children[0];
        let known = match keyword.data.node_type {
            NodeType::Keyword(id) => match arg_index(sig.args, id, 0) {
                Some(k) => Some(sig.args[k].ty),
                None => None,
            },
            _ => None,
        };
        let (arg_ty, st1) = match known {
            Some(ty) => (ty, st),
            None => (Ty::Any, reported(st, keyword.data, ProblemView::UnknownKeyword(func_name))),
        };
        let (stx_ty, st2) = gen_spec(args[i].children[1], st1, cx);
        gen_arguments(
            args,
            i + 1,
            sig,
            subs,
            func_name,
            constrained(st2, args[i].children[1].data, stx_ty, apply_subst(arg_ty, subs)),
            cx,
        )
    }
}

/// How many type variables occur in the two types of a constraint, each counted once
/// for each of the two types; no more than the largest machine number.
pub open spec fn weight(c: ConstraintView) -> usize {
    clip(free_vars(c.0).len() + free_vars(c.1).len())
}

/// The position at or after `i` before which a constraint of the weight `w` is put:
/// behind every constraint that weighs no more.
pub open spec fn sorted_slot(sorted: Seq<ConstraintView>, w: usize, i: int) -> int
    decreases sorted.len() - i,
{
    if i < 0 || i >= sorted.len() {
        sorted.len() as int
    } else if weight(sorted[i]) > w {
        i
    } else {
        sorted_slot(sorted, w, i + 1)
    }
}

/// The constraints from position `i` on, put into `acc` one after the other, each
/// behind every constraint there that weighs no more: the constraints in ascending
/// order of their weights, those of the same weight in their old order.
pub open spec fn sorted_spec(all: Seq<ConstraintView>, i: int, acc: Seq<ConstraintView>) -> Seq<
    ConstraintView,
>
    decreases all.len() - i,
{
    if i < 0 || i >= all.len() {
        acc
    } else {
        sorted_spec(all, i + 1, acc.insert(sorted_slot(acc, weight(all[i]), 0), all[i]))
    }
}

/// See `sorted_spec`.
pub fn sort_constraints(constraints: Vec<Constraint>) -> (sorted: Vec<Constraint>)
    ensures
        constraints_view(sorted@) == sorted_spec(constraints_view(constraints@), 0, Seq::empty()),
{
    let mut sorted: Vec<Constraint> = Vec::with_capacity(constraints.len());
    let mut weights: Vec<usize> = Vec::with_capacity(constraints.len());
    let ghost all = constraints_view(constraints@);
    assert(constraints_view(sorted@) =~= Seq::empty());
    let mut constraints = constraints;
    let mut i: usize = 0;
    let n = constraints.len();
    while i < n
        invariant
            i <= n,
            n == all.len(),
            constraints@.len() == n - i,
            forall|k: int| 0 <= k < n - i ==> (#[trigger] constraints@[k])@ == all[i + k],
            weights@.len() == sorted@.len(),
            forall|k: int|
                0 <= k < sorted@.len() ==> #[trigger] weights@[k] == weight(
                    constraints_view(sorted@)[k],
                ),
            sorted_spec(all, i as int, constraints_view(sorted@)) == sorted_spec(
                all,
                0,
                Seq::empty(),
            ),
        decreases n - i,
    {
        let c = constraints.remove(0);
        let left = vars_of_type(&c.0);
        let right = vars_of_type(&c.1);
        let w: usize = if left.len() <= usize::MAX - right.len() {
            left.len() + right.len()
        } else {
            usize::MAX
        };
        assert(w == weight(c@));
        let mut at: usize = 0;
        while at < sorted.len() && weights[at] <= w
            invariant
                at <= sorted@.len(),
                weights@.len() == sorted@.len(),
                w == weight(c@),
                forall|k: int|
                    0 <= k < sorted@.len() ==> #[trigger] weights@[k] == weight(
                        constraints_view(sorted@)[k],
                    ),
                sorted_slot(constraints_view(sorted@), weight(c@), at as int) == sorted_slot(
                    constraints_view(sorted@),
                    weight(c@),
                    0,
                ),
            decreases sorted@.len() - at,
        {
            at += 1;
        }
        let ghost before = constraints_view(sorted@);
        sorted.insert(at, c);
        weights.insert(at, w);
        assert(constraints_view(sorted@) =~= before.insert(at as int, c@));
        i += 1;
    }
    sorted
}

/// A weight as a machine number.
pub open spec fn clip(w: nat) -> usize {
    if w <= usize::MAX {
        w as usize
    } else {
        usize::MAX
    }
}

/// Generates constraints for the nodes of a tree.
pub struct ConstraintGenerator<'a, NS: INamespace> {
    pub functions: &'a NS,
    pub tree: &'a SyntaxTree<'a>,
    pub fresh_vars: FreshVarSupply,
    pub constraints: Vec<Constraint>,
    pub errors: Vec<TypeError>,
}

impl<'a, NS: INamespace> ConstraintGenerator<'a, NS> {
    /// The generator's state, with the given environment.
    pub open spec fn state(&self, env: &TypeEnv) -> GenView {
        GenView {
            count: self.fresh_vars.count,
            constraints: constraints_view(self.constraints@),
            errors: errors_view(self.errors@),
            env: env@,
        }
    }

    /// What the generator reads.
    pub open spec fn context(&self) -> Context {
        Context {
            names: self.tree.symbols.keys(),
            constants: self.tree.constants.keys(),
            ns_symbols: self.functions.symbol_keys(),
            ns_signatures: self.functions.signature_map(),
        }
    }

    /// Whether the generator reads the same as `other`.
    pub open spec fn same_input(&self, other: &Self) -> bool {
        self.tree == other.tree && self.functions == other.functions
    }

    pub fn new(functions: &'a NS, tree: &'a SyntaxTree<'a>) -> (generator: Self)
        ensures
            generator.functions == functions,
            generator.tree == tree,
            generator.fresh_vars.count == 0,
            generator.constraints@ == Seq::<Constraint>::empty(),
            generator.errors@ == Seq::<TypeError>::empty(),
    {
        ConstraintGenerator {
            functions,
            tree,
            fresh_vars: FreshVarSupply::new(),
            constraints: Vec::with_capacity(1024),
            errors: Vec::with_capacity(100),
        }
    }

    fn add_constraint(&mut self, node_data: NodeData, ty1: Type, ty2: Type, Ghost(env): Ghost<
        &TypeEnv,
    >)
        ensures
            final(self).same_input(old(self)),
            final(self).state(env) == constrained(old(self).state(env), node_data, ty1@, ty2@),
    {
        let ghost before = constraints_view(self.constraints@);
        self.constraints.push(Constraint(ty1, ty2, node_data));
        assert(constraints_view(self.constraints@) =~= before.push((ty1@, ty2@, node_data)));
    }

    fn report(&mut self, node_data: NodeData, problem: Problem, Ghost(env): Ghost<&TypeEnv>)
        ensures
            final(self).same_input(old(self)),
            final(self).state(env) == reported(old(self).state(env), node_data, problem@),
    {
        let ghost before = errors_view(self.errors@);
        let error = problem.at(node_data);
        self.errors.push(error);
        assert(errors_view(self.errors@) =~= before.push(error@));
    }

    fn fresh(&mut self, Ghost(env): Ghost<&TypeEnv>) -> (ty: Type)
        ensures
            final(self).same_input(old(self)),
            (ty@, final(self).state(env)) == fresh_spec(old(self).state(env)),
    {
        self.fresh_vars.next()
    }

    fn name_at(&self, id: &NodeId) -> (name: String)
        requires
            self.tree.store().dom().contains(*id),
        ensures
            name@ == name_of(self.context(), self.tree.store()[*id].data.node_type),
    {
        match self.tree.node_id_to_symbol_id(id) {
            Ok(sym) => match self.tree.symbols.get(sym) {
                Some(name) => name.clone(),
                None => String::new(),
            },
            Err(_) => String::new(),
        }
    }

    #[verifier::loop_isolation(false)]
    fn last_of(
        &mut self,
        env: &mut TypeEnv,
        items: &Vec<NodeId>,
        Ghost(trees): Ghost<Seq<Stx>>,
        Ghost(top): Ghost<nat>,
    ) -> (ty: Type)
        requires
            is_forest(old(self).tree.store()),
            trees.len() == items@.len(),
            forall|k: int|
                0 <= k < items@.len() ==> old(self).tree.store().dom().contains(
                    #[trigger] items@[k],
                ) && subtree(old(self).tree.store(), items@[k]) == trees[k] && height(
                    old(self).tree.store(),
                    items@[k],
                ) < top,
        ensures
            final(self).same_input(old(self)),
            final(env)@.frames.len() == old(env)@.frames.len(),
            (ty@, final(self).state(final(env))) == gen_last(
                trees,
                0,
                Ty::Any,
                old(self).state(old(env)),
                old(self).context(),
            ),
        decreases top, 0int,
    {
        let mut last = Type::Any;
        let mut i: usize = 0;
        while i < items.len()
            invariant
                i <= items.len(),
                self.same_input(old(self)),
                env@.frames.len() == old(env)@.frames.len(),
                gen_last(trees, i as int, last@, self.state(env), self.context()) == gen_last(
                    trees,
                    0,
                    Ty::Any,
                    old(self).state(old(env)),
                    old(self).context(),
                ),
            decreases items.len() - i,
        {
            last = self.recur(env, &items[i]);
            i += 1;
        }
        last
    }

    #[verifier::loop_isolation(false)]
    fn items(
        &mut self,
        env: &mut TypeEnv,
        items: &Vec<NodeId>,
        elem: &Type,
        Ghost(trees): Ghost<Seq<Stx>>,
        Ghost(top): Ghost<nat>,
    )
        requires
            is_forest(old(self).tree.store()),
            trees.len() == items@.len(),
            forall|k: int|
                0 <= k < items@.len() ==> old(self).tree.store().dom().contains(
                    #[trigger] items@[k],
                ) && subtree(old(self).tree.store(), items@[k]) == trees[k] && height(
                    old(self).tree.store(),
                    items@[k],
                ) < top && trees[k].data == old(self).tree.store()[items@[k]].data,
        ensures
            final(self).same_input(old(self)),
            final(env)@.frames.len() == old(env)@.frames.len(),
            final(self).state(final(env)) == gen_items(
                trees,
                0,
                elem@,
                old(self).state(old(env)),
                old(self).context(),
            ),
        decreases top, 0int,
    {
        let mut i: usize = 0;
        while i < items.len()
            invariant
                i <= items.len(),
                self.same_input(old(self)),
                env@.frames.len() == old(env)@.frames.len(),
                gen_items(trees, i as int, elem@, self.state(env), self.context()) == gen_items(
                    trees,
                    0,
                    elem@,
                    old(self).state(old(env)),
                    old(self).context(),
                ),
            decreases items.len() - i,
        {
            let ty = self.recur(env, &items[i]);
            let data = match self.tree.node_data(&items[i]) {
                Ok(data) => data,
                Err(_) => NodeData { node_type: NodeType::Root, start_pos: 0, end_pos: 0 },
            };
            self.add_constraint(data, clone_type(elem), ty, Ghost(&*env));
            i += 1;
        }
    }

    #[verifier::loop_isolation(false)]
    fn entries(
        &mut self,
        env: &mut TypeEnv,
        items: &Vec<NodeId>,
        Ghost(trees): Ghost<Seq<Stx>>,
        Ghost(top): Ghost<nat>,
    ) -> (fields: Vec<(String, RecordField)>)
        requires
            is_forest(old(self).tree.store()),
            trees.len() == items@.len(),
            forall|k: int|
                0 <= k < items@.len() ==> old(self).tree.store().dom().contains(
                    #[trigger] items@[k],
                ) && subtree(old(self).tree.store(), items@[k]) == trees[k] && height(
                    old(self).tree.store(),
                    items@[k],
                ) < top,
        ensures
            final(self).same_input(old(self)),
            final(env)@.frames.len() == old(env)@.frames.len(),
            (fields_view(fields@), final(self).state(final(env))) == gen_entries(
                trees,
                0,
                Seq::empty(),
                old(self).state(old(env)),
                old(self).context(),
            ),
        decreases top, 0int,
    {
        let mut fields: Vec<(String, RecordField)> = Vec::new();
        assert(fields_view(fields@) =~= Seq::empty());
        let mut i: usize = 0;
        while i < items.len()
            invariant
                i <= items.len(),
                self.same_input(old(self)),
                env@.frames.len() == old(env)@.frames.len(),
                gen_entries(trees, i as int, fields_view(fields@), self.state(env), self.context())
                    == gen_entries(
                    trees,
                    0,
                    Seq::empty(),
                    old(self).state(old(env)),
                    old(self).context(),
                ),
            decreases items.len() - i,
        {
            let (_, parts) = self.tree.expand(&items[i]);
            if parts.len() >= 2 {
                let ty = self.recur(env, &parts[1]);
                let name = self.name_at(&parts[0]);
                put_field(&mut fields, name, RecordField::new(ty, false));
            }
            i += 1;
        }
        fields
    }

    #[verifier::loop_isolation(false)]
    fn arguments(
        &mut self,
        env: &mut TypeEnv,
        items: &Vec<NodeId>,
        sig: &Signature,
        subs: &super::substitution::Subst,
        func_name: &String,
        Ghost(trees): Ghost<Seq<Stx>>,
        Ghost(top): Ghost<nat>,
    )
        requires
            is_forest(old(self).tree.store()),
            trees.len() == items@.len(),
            forall|k: int|
                0 <= k < items@.len() ==> old(self).tree.store().dom().contains(
                    #[trigger] items@[k],
                ) && subtree(old(self).tree.store(), items@[k]) == trees[k] && height(
                    old(self).tree.store(),
                    items@[k],
                ) < top,
        ensures
            final(self).same_input(old(self)),
            final(env)@.frames.len() == old(env)@.frames.len(),
            final(self).state(final(env)) == gen_arguments(
                trees,
                0,
                sig@,
                subs@,
                func_name@,
                old(self).state(old(env)),
                old(self).context(),
            ),
        decreases top, 0int,
    {
        let mut i: usize = 0;
        while i < items.len()
            invariant
                i <= items.len(),
                self.same_input(old(self)),
                env@.frames.len() == old(env)@.frames.len(),
                gen_arguments(
                    trees,
                    i as int,
                    sig@,
                    subs@,
                    func_name@,
                    self.state(env),
                    self.context(),
                ) == gen_arguments(
                    trees,
                    0,
                    sig@,
                    subs@,
                    func_name@,
                    old(self).state(old(env)),
                    old(self).context(),
                ),
            decreases items.len() - i,
        {
            let (_, parts) = self.tree.expand(&items[i]);
            if parts.len() >= 2 {
                let keyword = match self.tree.node_data(&parts[0]) {
                    Ok(data) => data,
                    Err(_) => NodeData { node_type: NodeType::Root, start_pos: 0, end_pos: 0 },
                };
                let known: Option<Type> = match keyword.node_type {
                    NodeType::Keyword(id) => {
                        proof {
                            lemma_arg_index(sig@.args, id, 0);
                        }
                        match sig.arg(id) {
                            Some(spec) => Some(clone_type(&spec.ty)),
                            None => None,
                        }
                    },
                    _ => None,
                };
                let arg_ty = match known {
                    Some(ty) => ty,
                    None => {
                        self.report(
                            keyword,
                            Problem::UnknownKeyword(func_name.clone()),
                            Ghost(&*env),
                        );
                        Type::Any
                    },
                };
                let arg_type = apply_to_type(&arg_ty, subs);
                let stx_type = self.recur(env, &parts[1]);
                let value = match self.tree.node_data(&parts[1]) {
                    Ok(data) => data,
                    Err(_) => NodeData { node_type: NodeType::Root, start_pos: 0, end_pos: 0 },
                };
                self.add_constraint(value, stx_type, arg_type, Ghost(&*env));
            }
            i += 1;
        }
    }

    /// The type of the tree below the node, with the constraints generated for it:
    /// see `gen_spec`.
    #[verifier::loop_isolation(false)]
    pub fn recur(&mut self, type_env: &mut TypeEnv, node_id: &NodeId) -> (ty: Type)
        requires
            is_forest(old(self).tree.store()),
            old(self).tree.store().dom().contains(*node_id),
        ensures
            final(self).same_input(old(self)),
            final(type_env)@.frames.len() == old(type_env)@.frames.len(),
            (ty@, final(self).state(final(type_env))) == gen_spec(
                subtree(old(self).tree.store(), *node_id),
                old(self).state(old(type_env)),
                old(self).context(),
            ),
        decreases height(old(self).tree.store(), *node_id), 1int,
    {
        let ghost t = subtree(self.tree.store(), *node_id);
        let ghost top = height(self.tree.store(), *node_id);
        let ghost cx = self.context();
        let ghost st = self.state(type_env);
        let _ = type_env.here();
        let (data, children) = self.tree.expand(node_id);
        match data.node_type {
            NodeType::Root => self.last_of(type_env, &children, Ghost(t.children), Ghost(top)),
            NodeType::Primitive(id) => {
                match self.tree.constants.get(id) {
                    Some(c) => c.type_of(),
                    None => Type::Never,
                }
            },
            NodeType::List => {
                let elem = self.fresh(Ghost(&*type_env));
                self.items(type_env, &children, &elem, Ghost(t.children), Ghost(top));
                Type::list_of(elem)
            },
            NodeType::Record => {
                let fields = self.entries(type_env, &children, Ghost(t.children), Ghost(top));
                proof {
                    lemma_record_view(false, fields);
                }
                Type::Record(false, fields)
            },
            NodeType::Variable => {
                if children.len() == 0 {
                    return Type::Never;
                }
                let root_name = self.name_at(&children[0]);
                let scheme = type_env.get_or_let_fresh(&root_name, &mut self.fresh_vars);
                let root_ty = scheme.instantiate(&mut self.fresh_vars);
                if children.len() == 1 {
                    return root_ty;
                }
                let leaf_type = self.fresh(Ghost(&*type_env));
                let ghost goal = gen_path(
                    t.children,
                    t.children.len() - 1,
                    leaf_type@,
                    self.state(type_env),
                    cx,
                    data.start_pos,
                );
                let mut field_var = clone_type(&leaf_type);
                let mut i: usize = children.len() - 1;
                while i >= 1
                    invariant
                        i < children.len(),
                        self.same_input(old(self)),
                        type_env@.frames.len() == old(type_env)@.frames.len(),
                        gen_path(
                            t.children,
                            i as int,
                            field_var@,
                            self.state(type_env),
                            cx,
                            data.start_pos,
                        ) == goal,
                    decreases i,
                {
                    let next_var = self.fresh(Ghost(&*type_env));
                    let segment = self.name_at(&children[i]);
                    let end_pos = match self.tree.node_data(&children[i]) {
                        Ok(d) => d.end_pos,
                        Err(_) => 0,
                    };
                    let record_ty = Type::record_with_one_field(
                        segment.as_str(),
                        field_var,
                        false,
                    );
                    let subpath = NodeData {
                        node_type: NodeType::Variable,
                        start_pos: data.start_pos,
                        end_pos,
                    };
                    self.add_constraint(
                        subpath,
                        clone_type(&next_var),
                        record_ty,
                        Ghost(&*type_env),
                    );
                    field_var = next_var;
                    i -= 1;
                }
                self.add_constraint(data, root_ty, field_var, Ghost(&*type_env));
                leaf_type
            },
            NodeType::Block => {
                if children.len() == 0 {
                    return Type::Never;
                }
                if children.len() > 1 {
                    let (_, params) = self.tree.expand(&children[0]);
                    type_env.enter();
                    let mut in_types: Vec<Type> = Vec::with_capacity(params.len());
                    assert(types_view(in_types@) =~= Seq::empty());
                    let ghost goal = gen_params(
                        t.children[0].children,
                        0,
                        Seq::empty(),
                        self.state(type_env),
                        cx,
                    );
                    let mut i: usize = 0;
                    while i < params.len()
                        invariant
                            i <= params.len(),
                            self.same_input(old(self)),
                            type_env@.frames.len() == old(type_env)@.frames.len() + 1,
                            gen_params(
                                t.children[0].children,
                                i as int,
                                types_view(in_types@),
                                self.state(type_env),
                                cx,
                            ) == goal,
                        decreases params.len() - i,
                    {
                        let ty = self.fresh(Ghost(&*type_env));
                        let ghost before = types_view(in_types@);
                        in_types.push(clone_type(&ty));
                        assert(types_view(in_types@) =~= before.push(ty@));
                        let name = self.name_at(&params[i]);
                        type_env.explicitly_define(name, ty);
                        i += 1;
                    }
                    let out = self.recur(type_env, &children[1]);
                    type_env.leave();
                    Type::block_from_to(in_types, out)
                } else {
                    let out = self.recur(type_env, &children[0]);
                    let ty = Type::block_from_to(Vec::new(), out);
                    assert(types_view(Seq::<Type>::empty()) =~= Seq::<Ty>::empty());
                    ty
                }
            },
            NodeType::Apply => {
                if children.len() == 0 {
                    return Type::Never;
                }
                let (first, first_parts) = self.tree.expand(&children[0]);
                if first_parts.len() == 0 {
                    return Type::Never;
                }
                let func_name = self.name_at(&first_parts[0]);
                let functions = self.functions;
                let sig = match functions.get_signature(func_name.as_str()) {
                    None => {
                        self.report(first, Problem::UnknownFunction, Ghost(&*type_env));
                        return Type::Any;
                    },
                    Some(s) => s,
                };
                let args = sig.args();
                let mut vars: Vec<String> = Vec::new();
                assert(names_view(vars@) =~= Seq::empty());
                let mut i: usize = 0;
                while i < args.len()
                    invariant
                        i <= args.len(),
                        signature_vars(sig@.args, i as int, names_view(vars@)) == signature_vars(
                            sig@.args,
                            0,
                            Seq::empty(),
                        ),
                    decreases args.len() - i,
                {
                    let more = vars_of_type(&args[i].ty);
                    merge_names(&mut vars, &more);
                    i += 1;
                }
                let subs = bind_fresh(&vars, &mut self.fresh_vars);
                self.arguments(
                    type_env,
                    &children,
                    sig,
                    &subs,
                    &func_name,
                    Ghost(t.children),
                    Ghost(top),
                );
                let out = self.fresh(Ghost(&*type_env));
                let return_type = apply_to_type(sig.return_type(), &subs);
                self.add_constraint(data, clone_type(&out), return_type, Ghost(&*type_env));
                out
            },
            _ => Type::Never,
        }
    }
}

/// The type of the tree, its constraints in the order in which they are to be solved,
/// and the errors that were found.
pub fn generate<NS: INamespace>(ns: &NS, type_env: &mut TypeEnv, tree: &SyntaxTree) -> (out: (
    Type,
    Vec<Constraint>,
    Vec<TypeError>,
))
    requires
        tree.wf(),
    ensures
        final(type_env)@.frames.len() == old(type_env)@.frames.len(),
        ({
            let (ty, st) = gen_spec(
                tree@,
                GenView {
                    count: 0,
                    constraints: Seq::empty(),
                    errors: Seq::empty(),
                    env: old(type_env)@,
                },
                Context {
                    names: tree.symbols.keys(),
                    constants: tree.constants.keys(),
                    ns_symbols: ns.symbol_keys(),
                    ns_signatures: ns.signature_map(),
                },
            );
            &&& out.0@ == ty
            &&& constraints_view(out.1@) == sorted_spec(st.constraints, 0, Seq::empty())
            &&& errors_view(out.2@) == st.errors
            &&& final(type_env)@ == st.env
        }),
{
    let mut generator = ConstraintGenerator::new(ns, tree);
    assert(constraints_view(generator.constraints@) =~= Seq::empty());
    assert(errors_view(generator.errors@) =~= Seq::empty());
    match tree.root_node_id() {
        Some(root) => {
            let inferred_type = generator.recur(type_env, &root);
            let ConstraintGenerator { constraints, errors, .. } = generator;
            (inferred_type, sort_constraints(constraints), errors)
        },
        None => (Type::Never, Vec::new(), Vec::new()),
    }
}

} // verus!
