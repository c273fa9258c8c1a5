//! The state of type inference as it walks a syntax tree: which names stand for
//! which type schemes, and which names had to be assumed.
use super::substitution::{
    add_names, apply_subst, apply_to_type, bind_name, free_vars, has_name, merge_names,
    names_view, vars_of_type, Subst, SubstView, Substitutable,
};
use super::types::{clone_type, Ty, Type};
use crate::arena::Internable;
use crate::text::{decimal, decimal_text, push_char, push_text};
use crate::scope::{
    chain, flattened, frame_with, lemma_chain_child, lemma_chain_ends, lemma_chain_locals,
    lemma_local_index, lookup, pairs_view, store_wf, with_child, FrameView, Scope, ScopeId,
    ScopeView, StoreView,
};
use std::rc::Rc;
use vstd::prelude::*;

verus! {

/// The name of the type variable with the given number: `$` and the number.
pub open spec fn fresh_var_name(n: usize) -> Seq<char> {
    seq!['$'] + decimal_text(n as u64)
}

fn fresh_name(n: usize) -> (name: String)
    ensures
        name@ == fresh_var_name(n),
{
    let mut name = String::new();
    push_char(&mut name, '$');
    let number = decimal(n as u64);
    push_text(&mut name, number.as_str());
    assert(name@ =~= fresh_var_name(n));
    name
}

/// A supply of type variables that were not used before: `$1`, `$2` and so on.
pub struct FreshVarSupply {
    pub count: usize,
}

/// The number of the next variable after `count` were handed out.
pub open spec fn next_count(count: usize) -> usize {
    if count < usize::MAX {
        (count + 1) as usize
    } else {
        count
    }
}

impl FreshVarSupply {
    pub fn new() -> (supply: Self)
        ensures
            supply.count == 0,
    {
        FreshVarSupply { count: 0 }
    }

    /// The next variable.
    pub fn next(&mut self) -> (var: Type)
        ensures
            final(self).count == next_count(old(self).count),
            var@ == Ty::Var(fresh_var_name(final(self).count)),
    {
        if self.count < usize::MAX {
            self.count += 1;
        }
        Type::Var(fresh_name(self.count))
    }
}

/// A type scheme: a type, and the variables in it that stand for any type.
pub struct Scheme {
    pub vars: Vec<String>,
    pub ty: Type,
}

/// The model of a [`Scheme`].
pub struct SchemeView {
    pub vars: Seq<Seq<char>>,
    pub ty: Ty,
}

impl View for Scheme {
    type V = SchemeView;

    open spec fn view(&self) -> SchemeView {
        SchemeView { vars: names_view(self.vars@), ty: self.ty@ }
    }
}

/// The bindings of `subs` from position `i` on whose variable is none of `vars`,
/// added to `acc`.
pub open spec fn without_vars(subs: SubstView, vars: Seq<Seq<char>>, i: int, acc: SubstView) -> SubstView
    decreases subs.len() - i,
{
    if i < 0 || i >= subs.len() {
        acc
    } else if vars.contains(subs[i].0) {
        without_vars(subs, vars, i + 1, acc)
    } else {
        without_vars(subs, vars, i + 1, bind_name(acc, subs[i].0, subs[i].1))
    }
}

/// The names of `names` from position `i` on that are none of `less`, added to `acc`.
pub open spec fn names_without(names: Seq<Seq<char>>, less: Seq<Seq<char>>, i: int, acc: Seq<
    Seq<char>,
>) -> Seq<Seq<char>>
    decreases names.len() - i,
{
    if i < 0 || i >= names.len() {
        acc
    } else if less.contains(names[i]) {
        names_without(names, less, i + 1, acc)
    } else {
        names_without(names, less, i + 1, acc.push(names[i]))
    }
}

/// A binding of each of the variables from position `i` on to a fresh variable, added
/// to `acc`, and the count of the supply afterwards.
pub open spec fn fresh_bindings(vars: Seq<Seq<char>>, i: int, count: usize, acc: SubstView) -> (
    SubstView,
    usize,
)
    decreases vars.len() - i,
{
    if i < 0 || i >= vars.len() {
        (acc, count)
    } else {
        fresh_bindings(
            vars,
            i + 1,
            next_count(count),
            bind_name(acc, vars[i], Ty::Var(fresh_var_name(next_count(count)))),
        )
    }
}

/// Binds each of the variables to a fresh variable.
pub fn bind_fresh(vars: &Vec<String>, fresh: &mut FreshVarSupply) -> (subs: Subst)
    ensures
        (subs@, final(fresh).count) == fresh_bindings(
            names_view(vars@),
            0,
            old(fresh).count,
            Seq::empty(),
        ),
{
    let mut subs = Subst::new();
    let mut i: usize = 0;
    while i < vars.len()
        invariant
            i <= vars.len(),
            fresh_bindings(names_view(vars@), i as int, fresh.count, subs@) == fresh_bindings(
                names_view(vars@),
                0,
                old(fresh).count,
                Seq::empty(),
            ),
        decreases vars.len() - i,
    {
        let var = fresh.next();
        subs.insert(vars[i].clone(), var);
        i += 1;
    }
    subs
}

fn remove_names(names: &Vec<String>, less: &Vec<String>) -> (out: Vec<String>)
    ensures
        names_view(out@) == names_without(names_view(names@), names_view(less@), 0, Seq::empty()),
{
    let mut out: Vec<String> = Vec::new();
    assert(names_view(out@) =~= Seq::empty());
    let mut i: usize = 0;
    while i < names.len()
        invariant
            i <= names.len(),
            names_without(names_view(names@), names_view(less@), i as int, names_view(out@))
                == names_without(names_view(names@), names_view(less@), 0, Seq::empty()),
        decreases names.len() - i,
    {
        if !has_name(less, &names[i]) {
            let ghost before = names_view(out@);
            out.push(names[i].clone());
            assert(names_view(out@) =~= before.push(names@[i as int]@));
        }
        i += 1;
    }
    out
}

fn clone_names(names: &Vec<String>) -> (out: Vec<String>)
    ensures
        names_view(out@) == names_view(names@),
{
    let mut out: Vec<String> = Vec::with_capacity(names.len());
    let mut i: usize = 0;
    while i < names.len()
        invariant
            i <= names.len(),
            out@.len() == i,
            forall|j: int| 0 <= j < i ==> out@[j]@ == names@[j]@,
        decreases names.len() - i,
    {
        out.push(names[i].clone());
        i += 1;
    }
    assert(names_view(out@) =~= names_view(names@));
    out
}

impl Scheme {
    /// The scheme of a type without variables that stand for any type.
    pub fn new(ty: Type) -> (scheme: Scheme)
        ensures
            scheme@ == (SchemeView { vars: Seq::empty(), ty: ty@ }),
    {
        let scheme = Scheme { vars: Vec::new(), ty };
        assert(names_view(scheme.vars@) =~= Seq::empty());
        scheme
    }

    /// The scheme of `ty` in which every variable that is free in `ty` and not free
    /// in the environment stands for any type.
    pub fn generalize(env: &TypeEnv, ty: Type) -> (scheme: Scheme)
        ensures
            scheme@.ty == ty@,
            scheme@.vars == names_without(free_vars(ty@), env.free_names(), 0, Seq::empty()),
    {
        let mine = vars_of_type(&ty);
        let theirs = env.free_vars();
        let vars = remove_names(&mine, &theirs);
        Scheme { vars, ty }
    }

    /// The scheme's type with a fresh variable in place of each variable that stands
    /// for any type.
    pub fn instantiate(&self, fresh: &mut FreshVarSupply) -> (ty: Type)
        ensures
            ({
                let (subs, count) = fresh_bindings(self@.vars, 0, old(fresh).count, Seq::empty());
                ty@ == apply_subst(self@.ty, subs) && final(fresh).count == count
            }),
    {
        let subs = bind_fresh(&self.vars, fresh);
        apply_to_type(&self.ty, &subs)
    }

    /// A copy of the scheme.
    pub fn duplicate(&self) -> (out: Scheme)
        ensures
            out@ == self@,
    {
        Scheme { vars: clone_names(&self.vars), ty: clone_type(&self.ty) }
    }
}

/// A scheme with a substitution applied to the variables of its type that do not
/// stand for any type.
pub open spec fn scheme_applied(s: SchemeView, subs: SubstView) -> SchemeView {
    SchemeView { vars: s.vars, ty: apply_subst(s.ty, without_vars(subs, s.vars, 0, Seq::empty())) }
}

impl Substitutable for Scheme {
    open spec fn substituted(&self, subs: SubstView, out: &Self) -> bool {
        out@ == scheme_applied(self@, subs)
    }

    open spec fn free_names(&self) -> Seq<Seq<char>> {
        names_without(free_vars(self@.ty), self@.vars, 0, Seq::empty())
    }

    fn apply_substitution(&self, subs: &Subst) -> (out: Self) {
        let mut subs2 = Subst::new();
        let mut i: usize = 0;
        while i < subs.len()
            invariant
                i <= subs@.len(),
                without_vars(subs@, self@.vars, i as int, subs2@) == without_vars(
                    subs@,
                    self@.vars,
                    0,
                    Seq::empty(),
                ),
            decreases subs@.len() - i,
        {
            if !has_name(&self.vars, subs.name_at(i)) {
                subs2.insert(subs.name_at(i).clone(), clone_type(subs.type_at(i)));
            }
            i += 1;
        }
        Scheme { vars: clone_names(&self.vars), ty: apply_to_type(&self.ty, &subs2) }
    }

    fn free_vars(&self) -> (vars: Vec<String>) {
        let mine = vars_of_type(&self.ty);
        remove_names(&mine, &self.vars)
    }

    fn contains_var(&self, var: &String) -> (r: bool) {
        let vars = self.free_vars();
        has_name(&vars, var)
    }
}

/// The state of type inference: the schemes of the names in every scope, the scope
/// that inference is in, and the names that no scope had when they were asked for.
/// Those get a scheme in the root scope.
///
/// All scopes share the root and the undefined names: what a scope puts there is
/// there for every scope.
pub struct TypeEnv {
    schemes: Scope<Scheme>,
    undefined: Vec<String>,
    here: ScopeId,
}

/// The model of a frame of schemes.
pub open spec fn frame_view(frame: Seq<(Seq<char>, Scheme)>) -> Seq<(Seq<char>, SchemeView)> {
    Seq::new(frame.len(), |i: int| (frame[i].0, frame[i].1@))
}

/// The model of a stack of frames of schemes.
pub open spec fn frames_view(frames: ScopeView<Scheme, Seq<char>>) -> Seq<
    Seq<(Seq<char>, SchemeView)>,
> {
    Seq::new(frames.len(), |i: int| frame_view(frames[i]))
}

/// The model of a [`TypeEnv`].
pub struct EnvView {
    pub frames: Seq<Seq<(Seq<char>, SchemeView)>>,
    pub undefined: Seq<Seq<char>>,
}

impl TypeEnv {
    /// Every scope of the environment.
    pub closed spec fn store(&self) -> StoreView<Scheme, Seq<char>> {
        self.schemes@
    }

    /// The position of the scope that the environment is in.
    pub closed spec fn place(&self) -> int {
        self.here.0 as int
    }

    /// The names that no scope had when they were asked for.
    pub closed spec fn unknown(&self) -> Seq<Seq<char>> {
        names_view(self.undefined@)
    }

    /// The frames that the environment sees from where it is: the root's first.
    pub open spec fn stack(&self) -> ScopeView<Scheme, Seq<char>> {
        chain(self.store(), self.place())
    }

    /// What the environment sees from the scope at `at`.
    pub open spec fn seen_from(&self, at: ScopeId) -> EnvView {
        EnvView {
            frames: frames_view(chain(self.store(), at.0 as int)),
            undefined: self.unknown(),
        }
    }

    /// Whether the handle names a scope of this environment.
    pub open spec fn has(&self, at: ScopeId) -> bool {
        at.0 < self.store().len()
    }

    /// The scopes are in order, and the environment is in one of them.
    #[verifier::type_invariant]
    closed spec fn holds(self) -> bool {
        store_wf(self.schemes@) && self.here.0 < self.schemes@.len()
    }
}

impl View for TypeEnv {
    type V = EnvView;

    open spec fn view(&self) -> EnvView {
        EnvView { frames: frames_view(self.stack()), undefined: self.unknown() }
    }
}

/// Whether the frame `b` is the frame `a` with the substitution applied to each
/// scheme.
pub open spec fn frame_applied(
    a: Seq<(Seq<char>, Scheme)>,
    b: Seq<(Seq<char>, Scheme)>,
    subs: SubstView,
) -> bool {
    b.len() == a.len() && forall|i: int|
        0 <= i < a.len() ==> (#[trigger] b[i]).0 == a[i].0 && b[i].1@ == scheme_applied(
            a[i].1@,
            subs,
        )
}

/// Where every scope of a store is that of another with a substitution applied, a
/// scope sees the frames that it saw in the other, with the substitution applied.
pub proof fn lemma_chain_applied(
    s: StoreView<Scheme, Seq<char>>,
    t: StoreView<Scheme, Seq<char>>,
    subs: SubstView,
    at: int,
)
    requires
        store_wf(s),
        t.len() == s.len(),
        0 <= at < s.len(),
        forall|n: int|
            0 <= n < s.len() ==> (#[trigger] t[n]).parent == s[n].parent && frame_applied(
                s[n].locals,
                t[n].locals,
                subs,
            ),
    ensures
        chain(t, at).len() == chain(s, at).len(),
        forall|n: int|
            0 <= n < chain(s, at).len() ==> frame_applied(
                #[trigger] chain(s, at)[n],
                chain(t, at)[n],
                subs,
            ),
    decreases at,
{
    assert(t[at].parent == s[at].parent);
    assert(frame_applied(s[at].locals, t[at].locals, subs));
    if at > 0 {
        let p = s[at].parent->Some_0;
        lemma_chain_applied(s, t, subs, p);
        assert forall|n: int| 0 <= n < chain(s, at).len() implies frame_applied(
            #[trigger] chain(s, at)[n],
            chain(t, at)[n],
            subs,
        ) by {
            if n < chain(s, p).len() {
                assert(chain(s, at)[n] == chain(s, p)[n]);
                assert(chain(t, at)[n] == chain(t, p)[n]);
            }
        }
    }
}

/// The models of the frames after one frame was replaced.
pub proof fn lemma_frames_view_update(
    frames: ScopeView<Scheme, Seq<char>>,
    i: int,
    frame: Seq<(Seq<char>, Scheme)>,
)
    requires
        0 <= i < frames.len(),
    ensures
        frames_view(frames.update(i, frame)) == frames_view(frames).update(i, frame_view(frame)),
{
    assert(frames_view(frames.update(i, frame)) =~= frames_view(frames).update(
        i,
        frame_view(frame),
    ));
}

/// The free variables of the schemes from position `i` on, added to `acc`.
pub open spec fn free_names_of(schemes: Seq<(Seq<char>, SchemeView)>, i: int, acc: Seq<
    Seq<char>,
>) -> Seq<Seq<char>>
    decreases schemes.len() - i,
{
    if i < 0 || i >= schemes.len() {
        acc
    } else {
        free_names_of(
            schemes,
            i + 1,
            add_names(
                acc,
                names_without(free_vars(schemes[i].1.ty), schemes[i].1.vars, 0, Seq::empty()),
                0,
            ),
        )
    }
}

/// The environment with an empty frame on top.
pub open spec fn entered(env: EnvView) -> EnvView {
    EnvView { frames: env.frames.push(Seq::empty()), ..env }
}

/// The environment without its innermost frame, unless that is the only one.
pub open spec fn left(env: EnvView) -> EnvView {
    EnvView {
        frames: if env.frames.len() > 1 {
            env.frames.drop_last()
        } else {
            env.frames
        },
        ..env
    }
}

/// The environment with `name` standing for the type `ty` in the innermost frame.
pub open spec fn defined(env: EnvView, name: Seq<char>, ty: Ty) -> EnvView {
    EnvView {
        frames: env.frames.update(
            env.frames.len() - 1,
            frame_with(env.frames.last(), name, SchemeView { vars: Seq::empty(), ty }),
        ),
        ..env
    }
}

/// The scheme that `name` stands for, and the environment and the count of the supply
/// after asking. A name that no frame has is noted as undefined, and stands for a
/// fresh variable in the root frame from then on.
pub open spec fn asked(env: EnvView, name: Seq<char>, count: usize) -> (SchemeView, EnvView, usize) {
    match lookup(env.frames, name, env.frames.len() as int) {
        Some(scheme) => (scheme, env, count),
        None => {
            let scheme = SchemeView {
                vars: Seq::empty(),
                ty: Ty::Var(fresh_var_name(next_count(count))),
            };
            (
                scheme,
                EnvView {
                    frames: env.frames.update(0, frame_with(env.frames[0], name, scheme)),
                    undefined: if env.undefined.contains(name) {
                        env.undefined
                    } else {
                        env.undefined.push(name)
                    },
                },
                next_count(count),
            )
        },
    }
}

/// What a scope sees after the environment was asked for `name` where it is: nothing
/// new if the name stood for something there, and else the undefined name, and its
/// fresh scheme in the root.
pub open spec fn asked_from(seen: EnvView, env: EnvView, name: Seq<char>, count: usize) -> EnvView {
    match lookup(env.frames, name, env.frames.len() as int) {
        Some(_) => seen,
        None => EnvView {
            frames: seen.frames.update(0, frame_with(seen.frames[0], name, asked(env, name, count).0)),
            undefined: asked(env, name, count).1.undefined,
        },
    }
}

/// Looking a name up among frames of schemes gives the model of what looking it up
/// among the schemes gives.
pub proof fn lemma_lookup_view(frames: ScopeView<Scheme, Seq<char>>, name: Seq<char>, n: int)
    requires
        0 <= n <= frames.len(),
    ensures
        lookup(frames_view(frames), name, n) == match lookup(
            frames,
            name,
            n,
        ) {
            Some(s) => Some(s@),
            None => None,
        },
    decreases n,
{
    let views = frames_view(frames);
    if n > 0 {
        lemma_local_index_view(frames[n - 1], name, 0);
        lemma_local_index(frames[n - 1], name, 0);
        lemma_lookup_view(frames, name, n - 1);
        assert(views[n - 1] == frame_view(frames[n - 1]));
    }
}

/// A name is found in a frame of schemes where it is found in the frame's model.
pub proof fn lemma_local_index_view(frame: Seq<(Seq<char>, Scheme)>, name: Seq<char>, i: int)
    requires
        0 <= i,
    ensures
        crate::scope::local_index(frame_view(frame), name, i) == crate::scope::local_index(
            frame,
            name,
            i,
        ),
    decreases frame.len() - i,
{
    if i < frame.len() {
        assert(frame_view(frame)[i].0 == frame[i].0);
        if frame[i].0 != name {
            lemma_local_index_view(frame, name, i + 1);
        }
    }
}

/// Putting a scheme into a frame and taking the model gives the model with the
/// scheme's model put in.
pub proof fn lemma_frame_with_view(frame: Seq<(Seq<char>, Scheme)>, name: Seq<char>, s: Scheme)
    ensures
        frame_view(frame_with(frame, name, s)) == frame_with(frame_view(frame), name, s@),
{
    lemma_local_index_view(frame, name, 0);
    lemma_local_index(frame, name, 0);
    assert(frame_view(frame_with(frame, name, s)) =~= frame_with(frame_view(frame), name, s@));
}

impl TypeEnv {
    /// The environment that has no names: one scope, the root.
    pub fn empty() -> (env: TypeEnv)
        ensures
            env@ == (EnvView { frames: seq![Seq::empty()], undefined: Seq::empty() }),
            env.place() == 0,
            env.store() == seq![
                FrameView { locals: Seq::<(Seq<char>, Scheme)>::empty(), parent: None },
            ],
    {
        let env = TypeEnv { schemes: Scope::new(), undefined: Vec::new(), here: ScopeId(0) };
        assert(frame_view(Seq::empty()) =~= Seq::empty());
        assert(env.stack() =~= seq![Seq::empty()]);
        assert(env@.frames =~= seq![Seq::empty()]);
        assert(env@.undefined =~= Seq::empty());
        env
    }

    /// The scope that the environment is in. The environment always sees a frame.
    pub fn here(&self) -> (id: ScopeId)
        ensures
            id.0 == self.place(),
            self.has(id),
            store_wf(self.store()),
            self@.frames.len() > 0,
    {
        proof {
            use_type_invariant(self);
            lemma_chain_ends(self.store(), self.place());
        }
        self.here
    }

    /// Takes the environment apart, to put it together changed.
    fn take(&mut self) -> (parts: (Scope<Scheme>, Vec<String>, ScopeId))
        ensures
            parts.0@ == old(self).store(),
            names_view(parts.1@) == old(self).unknown(),
            parts.2.0 == old(self).place(),
            store_wf(old(self).store()),
            old(self).place() < old(self).store().len(),
    {
        proof {
            use_type_invariant(&*self);
        }
        let mut other = TypeEnv::empty();
        core::mem::swap(self, &mut other);
        let TypeEnv { schemes, undefined, here } = other;
        (schemes, undefined, here)
    }

    /// A new scope inside the one that the environment is in. The environment stays
    /// where it is, and sees what it saw. The new scope sees the same, and shares the
    /// root and the undefined names with every other scope: a name that it asks for
    /// and that no scope has is there for all of them afterwards.
    pub fn child(&mut self) -> (id: ScopeId)
        ensures
            final(self)@ == old(self)@,
            final(self).place() == old(self).place(),
            final(self).store() == with_child(old(self).store(), old(self).place()),
            id.0 == old(self).store().len(),
            final(self).has(id),
            final(self).seen_from(id) == entered(old(self)@),
    {
        let (mut schemes, undefined, here) = self.take();
        let id = schemes.new_child(here);
        let _ = schemes.root();
        proof {
            lemma_chain_child(old(self).store(), here.0 as int, here.0 as int);
            assert(frame_view(Seq::empty()) =~= Seq::empty());
            assert(frames_view(chain(schemes@, id.0 as int)) =~= frames_view(
                chain(old(self).store(), here.0 as int),
            ).push(Seq::empty()));
        }
        *self = TypeEnv { schemes, undefined, here };
        id
    }

    /// Moves the environment to the scope at `to`.
    pub fn go_to(&mut self, to: ScopeId)
        requires
            old(self).has(to),
        ensures
            final(self)@ == old(self).seen_from(to),
            final(self).place() == to.0,
            final(self).store() == old(self).store(),
    {
        let (schemes, undefined, _) = self.take();
        *self = TypeEnv { schemes, undefined, here: to };
    }

    /// Opens a scope inside the current one, and moves there.
    pub fn enter(&mut self)
        ensures
            final(self)@ == entered(old(self)@),
            final(self).store() == with_child(old(self).store(), old(self).place()),
            final(self).place() == old(self).store().len(),
    {
        let id = self.child();
        self.go_to(id);
    }

    /// Moves to the scope around the current one, unless that is the root.
    pub fn leave(&mut self)
        ensures
            final(self)@ == left(old(self)@),
            final(self).store() == old(self).store(),
    {
        let (schemes, undefined, here) = self.take();
        let up = schemes.parent(here);
        proof {
            lemma_chain_ends(schemes@, here.0 as int);
        }
        match up {
            Some(id) => {
                proof {
                    let all = chain(schemes@, here.0 as int);
                    let outer = chain(schemes@, id.0 as int);
                    lemma_chain_ends(schemes@, id.0 as int);
                    assert(all == outer.push(schemes@[here.0 as int].locals));
                    assert(all.drop_last() =~= outer);
                    assert(frames_view(outer) =~= frames_view(all).drop_last());
                }
                *self = TypeEnv { schemes, undefined, here: id };
            },
            None => {
                assert(chain(schemes@, here.0 as int).len() == 1);
                *self = TypeEnv { schemes, undefined, here };
            },
        }
    }

    /// Lets `name` stand for the type `ty` in the scope that the environment is in.
    /// The scopes around that one see what they saw.
    pub fn explicitly_define(&mut self, name: String, ty: Type)
        ensures
            final(self)@ == defined(old(self)@, name@, ty@),
            final(self).place() == old(self).place(),
            final(self).store().len() == old(self).store().len(),
            forall|at: ScopeId|
                at.0 < old(self).place() ==> (#[trigger] final(self).seen_from(at)) == old(
                    self,
                ).seen_from(at),
    {
        let (mut schemes, undefined, here) = self.take();
        let ghost before = schemes@;
        let scheme = Scheme::new(ty);
        let _ = schemes.insert(here, name, scheme);
        proof {
            let put = frame_with(before[here.0 as int].locals, name@, scheme);
            crate::scope::lemma_frame_with(before[here.0 as int].locals, name@, scheme);
            lemma_chain_locals(before, here.0 as int, put, here.0 as int);
            lemma_chain_ends(before, here.0 as int);
            let all = chain(before, here.0 as int);
            lemma_frame_with_view(all.last(), name@, scheme);
            lemma_frames_view_update(all, all.len() - 1, put);
            assert(frames_view(all).last() == frame_view(all.last()));
            assert forall|at: ScopeId| at.0 < here.0 implies chain(schemes@, at.0 as int) == chain(
                before,
                at.0 as int,
            ) by {
                lemma_chain_locals(before, here.0 as int, put, at.0 as int);
            }
        }
        *self = TypeEnv { schemes, undefined, here };
    }

    /// Whether `name` stands for something.
    pub fn contains_key(&self, name: &String) -> (r: bool)
        ensures
            r == lookup(self@.frames, name@, self@.frames.len() as int).is_some(),
    {
        proof {
            use_type_invariant(self);
            lemma_lookup_view(self.stack(), name@, self.stack().len() as int);
        }
        self.schemes.get(self.here, name).is_some()
    }

    /// The scheme that `name` stands for: see `asked`. A name that no scope has gets
    /// its scheme in the root, where every scope sees it.
    pub fn get_or_let_fresh(&mut self, name: &String, fresh_vars: &mut FreshVarSupply) -> (scheme:
        Rc<Scheme>)
        ensures
            (scheme@, final(self)@, final(fresh_vars).count) == asked(
                old(self)@,
                name@,
                old(fresh_vars).count,
            ),
            final(self).place() == old(self).place(),
            final(self).store().len() == old(self).store().len(),
            forall|at: ScopeId|
                old(self).has(at) ==> (#[trigger] final(self).seen_from(at)) == asked_from(
                    old(self).seen_from(at),
                    old(self)@,
                    name@,
                    old(fresh_vars).count,
                ),
    {
        let (mut schemes, mut undefined, here) = self.take();
        proof {
            lemma_chain_ends(schemes@, here.0 as int);
            lemma_lookup_view(
                chain(schemes@, here.0 as int),
                name@,
                chain(schemes@, here.0 as int).len() as int,
            );
        }
        match schemes.get(here, name) {
            Some(scheme) => {
                *self = TypeEnv { schemes, undefined, here };
                scheme
            },
            None => {
                if !has_name(&undefined, name) {
                    let ghost before = names_view(undefined@);
                    undefined.push(name.clone());
                    assert(names_view(undefined@) =~= before.push(name@));
                }
                let ghost before = schemes@;
                let scheme = Scheme::new(fresh_vars.next());
                let copy = scheme.duplicate();
                let _ = schemes.insert_at_root(here, name.clone(), scheme);
                proof {
                    let put = frame_with(before[0].locals, name@, scheme);
                    crate::scope::lemma_frame_with(before[0].locals, name@, scheme);
                    lemma_frame_with_view(before[0].locals, name@, scheme);
                    assert forall|at: ScopeId| at.0 < before.len() implies frames_view(
                        #[trigger] chain(schemes@, at.0 as int),
                    ) == frames_view(chain(before, at.0 as int)).update(
                        0,
                        frame_with(frame_view(before[0].locals), name@, scheme@),
                    ) && frames_view(chain(before, at.0 as int))[0] == frame_view(
                        before[0].locals,
                    ) by {
                        lemma_chain_locals(before, 0, put, at.0 as int);
                        lemma_chain_ends(before, at.0 as int);
                        lemma_frames_view_update(chain(before, at.0 as int), 0, put);
                    }
                    assert(chain(schemes@, here.0 as int) == chain(schemes@, here.0 as int));
                }
                *self = TypeEnv { schemes, undefined, here };
                Rc::new(copy)
            },
        }
    }

    /// The environment in which the given names stand for the given types.
    pub fn from_pairs(pairs: Vec<(String, Type)>) -> (env: TypeEnv)
        ensures
            env@.undefined == Seq::<Seq<char>>::empty(),
            env@.frames.len() == 1,
            env@.frames[0] == globals_frame(types_of_pairs(pairs@), 0, Seq::empty()),
    {
        let mut env = TypeEnv::empty();
        let mut i: usize = 0;
        while i < pairs.len()
            invariant
                i <= pairs.len(),
                env@.undefined == Seq::<Seq<char>>::empty(),
                env@.frames.len() == 1,
                globals_frame(types_of_pairs(pairs@), i as int, env@.frames[0]) == globals_frame(
                    types_of_pairs(pairs@),
                    0,
                    Seq::empty(),
                ),
            decreases pairs.len() - i,
        {
            env.explicitly_define(pairs[i].0.clone(), clone_type(&pairs[i].1));
            i += 1;
        }
        env
    }

    /// The names of the environment with their types, in which the innermost scope
    /// that has a name decides.
    pub fn into_types(self) -> (all: Vec<(String, Type)>)
        ensures
            all@.len() == flattened(self.stack(), self.stack().len() as int).len(),
            forall|i: int|
                0 <= i < all@.len() ==> (#[trigger] all@[i]).0@ == flattened(
                    self.stack(),
                    self.stack().len() as int,
                )[i].0 && all@[i].1@ == flattened(
                    self.stack(),
                    self.stack().len() as int,
                )[i].1.ty@,
    {
        proof {
            use_type_invariant(&self);
        }
        let flat = self.schemes.flatten(self.here);
        let ghost model = flattened(self.stack(), self.stack().len() as int);
        let mut all: Vec<(String, Type)> = Vec::with_capacity(flat.len());
        let mut i: usize = 0;
        while i < flat.len()
            invariant
                i <= flat.len(),
                all@.len() == i,
                pairs_view(flat@) == model,
                forall|j: int|
                    0 <= j < i ==> (#[trigger] all@[j]).0@ == model[j].0 && all@[j].1@
                        == model[j].1.ty@,
            decreases flat.len() - i,
        {
            assert(model[i as int] == (flat@[i as int].0.key(), *flat@[i as int].1));
            all.push((flat[i].0.clone(), clone_type(&flat[i].1.ty)));
            i += 1;
        }
        all
    }
}

/// The names and the models of the types of a list of pairs.
pub open spec fn types_of_pairs(pairs: Seq<(String, Type)>) -> Seq<(Seq<char>, Ty)> {
    Seq::new(pairs.len(), |i: int| (pairs[i].0@, pairs[i].1@))
}

/// `frame` with each name from position `i` on standing for its type.
pub open spec fn globals_frame(pairs: Seq<(Seq<char>, Ty)>, i: int, frame: Seq<
    (Seq<char>, SchemeView),
>) -> Seq<(Seq<char>, SchemeView)>
    decreases pairs.len() - i,
{
    if i < 0 || i >= pairs.len() {
        frame
    } else {
        globals_frame(
            pairs,
            i + 1,
            frame_with(frame, pairs[i].0, SchemeView { vars: Seq::empty(), ty: pairs[i].1 }),
        )
    }
}

impl Substitutable for TypeEnv {
    open spec fn substituted(&self, subs: SubstView, out: &Self) -> bool {
        &&& out@.undefined == self@.undefined
        &&& out@.frames.len() == self@.frames.len()
        &&& forall|n: int|
            0 <= n < self@.frames.len() ==> (#[trigger] out@.frames[n]).len()
                == self@.frames[n].len() && forall|i: int|
                0 <= i < self@.frames[n].len() ==> (#[trigger] out@.frames[n][i]) == (
                    self@.frames[n][i].0,
                    scheme_applied(self@.frames[n][i].1, subs),
                )
    }

    open spec fn free_names(&self) -> Seq<Seq<char>> {
        free_names_of(
            frame_view(flattened(self.stack(), self.stack().len() as int)),
            0,
            Seq::empty(),
        )
    }

    fn apply_substitution(&self, subs: &Subst) -> (out: Self) {
        proof {
            use_type_invariant(self);
        }
        let apply = |scheme: &Scheme| -> (out: Scheme)
            ensures
                out@ == scheme_applied(scheme@, subs@),
            { scheme.apply_substitution(subs) };
        let schemes = self.schemes.map_clone(apply);
        let _ = schemes.root();
        let out = TypeEnv { schemes, undefined: clone_names(&self.undefined), here: self.here };
        proof {
            lemma_chain_applied(self.store(), out.store(), subs@, self.place());
            let mine = self.stack();
            let theirs = out.stack();
            assert forall|n: int| 0 <= n < self@.frames.len() implies (
            #[trigger] out@.frames[n]).len() == self@.frames[n].len() && forall|i: int|
                0 <= i < self@.frames[n].len() ==> (#[trigger] out@.frames[n][i]) == (
                    self@.frames[n][i].0,
                    scheme_applied(self@.frames[n][i].1, subs@),
                ) by {
                assert(out@.frames[n] == frame_view(theirs[n]));
                assert(self@.frames[n] == frame_view(mine[n]));
                assert(frame_applied(mine[n], theirs[n], subs@));
                assert forall|i: int| 0 <= i < self@.frames[n].len() implies (
                #[trigger] out@.frames[n][i]) == (
                    self@.frames[n][i].0,
                    scheme_applied(self@.frames[n][i].1, subs@),
                ) by {
                    assert(theirs[n][i].0 == mine[n][i].0);
                }
            }
        }
        out
    }

    fn free_vars(&self) -> (vars: Vec<String>) {
        proof {
            use_type_invariant(self);
        }
        let flat = self.schemes.flatten(self.here);
        let ghost model = frame_view(flattened(self.stack(), self.stack().len() as int));
        assert(forall|k: int|
            0 <= k < flat@.len() ==> model[k].1 == (#[trigger] pairs_view(flat@)[k]).1@);
        let mut vars: Vec<String> = Vec::new();
        assert(names_view(vars@) =~= Seq::empty());
        let mut i: usize = 0;
        while i < flat.len()
            invariant
                i <= flat.len(),
                flat@.len() == model.len(),
                forall|k: int| 0 <= k < flat@.len() ==> model[k].1 == (#[trigger] flat@[k]).1@,
                free_names_of(model, i as int, names_view(vars@)) == free_names_of(
                    model,
                    0,
                    Seq::empty(),
                ),
            decreases flat.len() - i,
        {
            let more = flat[i].1.free_vars();
            merge_names(&mut vars, &more);
            i += 1;
        }
        vars
    }

    fn contains_var(&self, var: &String) -> (r: bool) {
        let vars = self.free_vars();
        has_name(&vars, var)
    }
}

} // verus!
