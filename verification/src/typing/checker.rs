//! Type inference for a whole expression.
use super::constraint_generator::{generate, gen_spec, sorted_spec, Context, GenView};
use super::constraint_solver::{solve, solve_spec};
use super::substitution::{apply_subst, apply_to_type, SubstView};
use super::type_env::{frames_view, globals_frame, types_of_pairs, EnvView, SchemeView, TypeEnv};
use super::type_errors::{errors_view, TypeError, TypeErrorView};
use super::types::{Ty, Type};
use crate::arena::ArenaId;
use crate::frontend::syntax_tree::SyntaxTree;
use crate::frontend::tree_model::Stx;
use crate::namespace::INamespace;
use crate::primitive::PrimView;
use crate::scope::flattened;
use crate::signature::SignatureView;
use vstd::prelude::*;

verus! {

/// What type inference found: the types of the names that the expression uses, the
/// type of the expression, and the problems.
pub struct TypeCheckerResult {
    pub inputs: Vec<(String, Type)>,
    pub output: Type,
    pub errors: Vec<TypeError>,
}

/// The model of a [`TypeCheckerResult`].
pub struct ResultView {
    pub inputs: Seq<(Seq<char>, Ty)>,
    pub output: Ty,
    pub errors: Seq<TypeErrorView>,
}

impl View for TypeCheckerResult {
    type V = ResultView;

    open spec fn view(&self) -> ResultView {
        ResultView {
            inputs: Seq::new(self.inputs@.len(), |i: int| (self.inputs@[i].0@, self.inputs@[i].1@)),
            output: self.output@,
            errors: errors_view(self.errors@),
        }
    }
}

impl TypeCheckerResult {
    /// The type of the expression and the types of its inputs, where no problem was
    /// found.
    pub fn unwrap(self) -> (out: (Type, Vec<(String, Type)>))
        requires
            self.errors@.len() == 0,
        ensures
            out.0 == self.output,
            out.1 == self.inputs,
    {
        (self.output, self.inputs)
    }
}

/// The names of an environment with their types after the substitution.
pub open spec fn resolved_inputs(env: Seq<(Seq<char>, SchemeView)>, subs: SubstView) -> Seq<
    (Seq<char>, Ty),
> {
    Seq::new(env.len(), |i: int| (env[i].0, apply_subst(env[i].1.ty, subs)))
}

/// What type inference finds for a tree, given the types of some names.
///
/// Constraints are generated for the tree, put in the order of their weights, and
/// solved. The names are those that were given, and those that the expression uses
/// besides; their types and the type of the expression are what the solving
/// substitution makes of what the generator said.
pub open spec fn type_of_spec(
    t: Stx,
    globals: Seq<(Seq<char>, Ty)>,
    cx: Context,
) -> ResultView {
    let env0 = EnvView {
        frames: seq![globals_frame(globals, 0, Seq::empty())],
        undefined: Seq::empty(),
    };
    let (ty, st) = gen_spec(
        t,
        GenView { count: 0, constraints: Seq::empty(), errors: Seq::empty(), env: env0 },
        cx,
    );
    let (subs, errors) = solve_spec(sorted_spec(st.constraints, 0, Seq::empty()), st.errors);
    ResultView {
        inputs: resolved_inputs(flattened(st.env.frames, st.env.frames.len() as int), subs),
        output: apply_subst(ty, subs),
        errors,
    }
}

/// The type of an expression, given the types of some of the names that it uses: see
/// `type_of_spec`.
pub fn type_of<NS: INamespace>(ns: &NS, globals: Vec<(String, Type)>, tree: &SyntaxTree) -> (res:
    TypeCheckerResult)
    requires
        tree.wf(),
    ensures
        res@ == type_of_spec(
            tree@,
            types_of_pairs(globals@),
            Context {
                names: tree.symbols.keys(),
                constants: tree.constants.keys(),
                ns_symbols: ns.symbol_keys(),
                ns_signatures: ns.signature_map(),
            },
        ),
{
    let mut env = TypeEnv::from_pairs(globals);
    assert(env@.frames =~= seq![globals_frame(types_of_pairs(globals@), 0, Seq::empty())]);
    let (inferred_type, constraints, mut errors) = generate(ns, &mut env, tree);
    let subst = solve(constraints, &mut errors);
    let ghost frames = env@.frames;
    proof {
        lemma_flattened_view(env.stack(), env.stack().len() as int);
    }
    let types = env.into_types();
    let mut inputs: Vec<(String, Type)> = Vec::with_capacity(types.len());
    let ghost model = resolved_inputs(flattened(frames, frames.len() as int), subst@);
    let mut i: usize = 0;
    while i < types.len()
        invariant
            i <= types.len(),
            inputs@.len() == i,
            types@.len() == model.len(),
            forall|j: int|
                0 <= j < types@.len() ==> model[j] == ((#[trigger] types@[j]).0@, apply_subst(
                    types@[j].1@,
                    subst@,
                )),
            forall|j: int| 0 <= j < i ==> ((#[trigger] inputs@[j]).0@, inputs@[j].1@) == model[j],
        decreases types.len() - i,
    {
        inputs.push((types[i].0.clone(), apply_to_type(&types[i].1, &subst)));
        i += 1;
    }
    let res = TypeCheckerResult {
        inputs,
        output: apply_to_type(&inferred_type, &subst),
        errors,
    };
    assert(res@.inputs =~= model);
    res
}

/// Flattening frames of schemes and taking the model gives what flattening the
/// frames' models gives.
pub proof fn lemma_flattened_view(frames: crate::scope::ScopeView<super::type_env::Scheme, Seq<char>>, n: int)
    requires
        0 <= n <= frames.len(),
    ensures
        super::type_env::frame_view(flattened(frames, n)) == flattened(frames_view(frames), n),
    decreases n,
{
    if n > 0 {
        lemma_flattened_view(frames, n - 1);
        assert(frames_view(frames)[n - 1] == super::type_env::frame_view(frames[n - 1]));
        lemma_overlay_view(flattened(frames, n - 1), frames[n - 1], 0);
    } else {
        assert(super::type_env::frame_view(Seq::empty()) =~= Seq::empty());
    }
}

/// Laying a frame of schemes over another and taking the model gives what laying the
/// models over each other gives.
pub proof fn lemma_overlay_view(
    base: Seq<(Seq<char>, super::type_env::Scheme)>,
    frame: Seq<(Seq<char>, super::type_env::Scheme)>,
    i: int,
)
    requires
        0 <= i,
    ensures
        super::type_env::frame_view(crate::scope::overlay(base, frame, i)) == crate::scope::overlay(
            super::type_env::frame_view(base),
            super::type_env::frame_view(frame),
            i,
        ),
    decreases frame.len() - i,
{
    if i < frame.len() {
        super::type_env::lemma_frame_with_view(base, frame[i].0, frame[i].1);
        lemma_overlay_view(crate::scope::frame_with(base, frame[i].0, frame[i].1), frame, i + 1);
        assert(super::type_env::frame_view(frame)[i] == (frame[i].0, frame[i].1@));
    }
}

} // verus!
