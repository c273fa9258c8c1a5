//! Solves constraints by unification, with an occurs check and a substitution that
//! grows as the constraints are met.
use super::constraint_generator::Constraint;
use super::substitution::{
    apply_subst, apply_to_type, bind_name, binding, has_name, occurs_in, vars_of_type, Subst,
    SubstView,
};
use super::type_errors::{
    clone_path, errors_view, path_view, ConstraintProblem, ConstraintProblemView, Problem,
    ProblemView, TypeError, TypeErrorView, TypeLoc, TypeLocView,
};
use super::types::{
    clone_type, field_index, fields_view, find_field, insert_field, lemma_block_view,
    lemma_field_index, lemma_record_view, put_field, type_eq, types_view, FieldTy, RecordField,
    Ty, Type,
};
use crate::frontend::NodeData;
use vstd::prelude::*;

verus! {

/// How deep unification goes into two types: a limit of the machine, which stands
/// for the stack that a deeper recursion would use up. Types that are nested deeper
/// than this are reported as incompatible where the limit is reached.
pub const MAX_TYPE_DEPTH: usize = 255;

/// The state of unification: the substitution so far, the problems found so far, and
/// the path from the constraint's types to the parts that are being unified.
pub struct Unifier {
    pub errors: Vec<TypeError>,
    pub subst: Subst,
    pub path: Vec<TypeLoc>,
}

/// The model of a [`Unifier`].
pub struct SolverView {
    pub subst: SubstView,
    pub errors: Seq<TypeErrorView>,
    pub path: Seq<TypeLocView>,
}

impl View for Unifier {
    type V = SolverView;

    open spec fn view(&self) -> SolverView {
        SolverView {
            subst: self.subst@,
            errors: errors_view(self.errors@),
            path: path_view(self.path@),
        }
    }
}

/// The state with one more problem, found at the state's path.
pub open spec fn problem_at(st: SolverView, problem: ConstraintProblemView, loc: NodeData) -> SolverView {
    SolverView {
        errors: st.errors.push(
            TypeErrorView { location: loc, error: ProblemView::Constraint(st.path, problem) },
        ),
        ..st
    }
}

/// Binds the variable `name` to `ty`.
///
/// A type that holds the variable itself is an infinite type. Otherwise the
/// substitution is applied to the type once more. A variable that is bound to
/// something else already keeps what it has, and that is what comes back.
pub open spec fn bind_spec(st: SolverView, name: Seq<char>, ty: Ty, loc: NodeData) -> (
    SolverView,
    Ty,
) {
    if occurs_in(name, ty) {
        (problem_at(st, ConstraintProblemView::InfiniteType(name, ty), loc), ty)
    } else {
        let typ = apply_subst(ty, st.subst);
        match binding(st.subst, name) {
            Some(prev) => if typ != prev {
                (
                    problem_at(
                        st,
                        ConstraintProblemView::AlreadyBound { name, old: prev, new: ty },
                        loc,
                    ),
                    prev,
                )
            } else {
                (SolverView { subst: bind_name(st.subst, name, typ), ..st }, typ)
            },
            None => (SolverView { subst: bind_name(st.subst, name, typ), ..st }, typ),
        }
    }
}

/// Where `side` is a type variable, binds it to the merged record type `merged`.
pub open spec fn rebind_side(st: SolverView, side: Ty, merged: Ty, loc: NodeData) -> SolverView {
    match side {
        Ty::Var(name) => if occurs_in(name, merged) {
            problem_at(st, ConstraintProblemView::InfiniteType(name, merged), loc)
        } else if binding(st.subst, name) is None {
            problem_at(st, ConstraintProblemView::RebindUndefined(name), loc)
        } else {
            SolverView { subst: bind_name(st.subst, name, merged), ..st }
        },
        _ => st,
    }
}

/// Binds each side of the constraint that is a type variable to the merged record type.
pub open spec fn rebind_spec(st: SolverView, left: Ty, right: Ty, merged: Ty, loc: NodeData) -> (
    SolverView,
    Ty,
) {
    (rebind_side(rebind_side(st, left, merged, loc), right, merged, loc), merged)
}

/// The fields of `rf` from position `i` on that `lf` has no field for, put into `acc`
/// with the substitution applied.
pub open spec fn add_right_fields(
    subs: SubstView,
    lf: Seq<FieldTy>,
    rf: Seq<FieldTy>,
    i: int,
    acc: Seq<FieldTy>,
) -> Seq<FieldTy>
    decreases rf.len() - i,
{
    if i < 0 || i >= rf.len() {
        acc
    } else if field_index(lf, rf[i].name, 0) is None {
        add_right_fields(
            subs,
            lf,
            rf,
            i + 1,
            insert_field(
                acc,
                FieldTy {
                    name: rf[i].name,
                    optional: rf[i].optional,
                    ty: apply_subst(rf[i].ty, subs),
                },
            ),
        )
    } else {
        add_right_fields(subs, lf, rf, i + 1, acc)
    }
}

/// Unifies `left` and `right` one step further down the path.
pub open spec fn recur_spec(
    st: SolverView,
    step: TypeLocView,
    left: Ty,
    right: Ty,
    loc: NodeData,
    fuel: nat,
) -> (SolverView, Ty)
    decreases fuel, 1int,
{
    let (after, ty) = unify_spec(
        SolverView { path: st.path.push(step), ..st },
        left,
        right,
        loc,
        fuel,
    );
    (SolverView { path: after.path.drop_last(), ..after }, ty)
}

/// Unifies the fields of the left record from position `i` on with those of the right.
///
/// A field that both have is unified; it is a problem if the left one is required and
/// the right one optional. A field that the right record lacks is a problem if it is
/// required and the right record is closed; otherwise it is kept.
pub open spec fn unify_fields_spec(
    st: SolverView,
    lf: Seq<FieldTy>,
    rf: Seq<FieldTy>,
    right_partial: bool,
    loc: NodeData,
    i: int,
    acc: Seq<FieldTy>,
    fuel: nat,
) -> (SolverView, Seq<FieldTy>)
    decreases fuel, lf.len() - i + 2,
{
    if i < 0 || i >= lf.len() {
        (st, acc)
    } else {
        let f = lf[i];
        match field_index(rf, f.name, 0) {
            None => if !f.optional && !right_partial {
                unify_fields_spec(
                    problem_at(st, ConstraintProblemView::FieldMissing(f.name), loc),
                    lf,
                    rf,
                    right_partial,
                    loc,
                    i + 1,
                    acc,
                    fuel,
                )
            } else {
                unify_fields_spec(
                    st,
                    lf,
                    rf,
                    right_partial,
                    loc,
                    i + 1,
                    insert_field(
                        acc,
                        FieldTy {
                            name: f.name,
                            optional: f.optional,
                            ty: apply_subst(f.ty, st.subst),
                        },
                    ),
                    fuel,
                )
            },
            Some(k) => {
                let g = rf[k];
                let st1 = if !f.optional && g.optional {
                    problem_at(st, ConstraintProblemView::FieldOptional(f.name), loc)
                } else {
                    st
                };
                let (st2, ty) = recur_spec(st1, TypeLocView::Field(f.name), f.ty, g.ty, loc, fuel);
                unify_fields_spec(
                    st2,
                    lf,
                    rf,
                    right_partial,
                    loc,
                    i + 1,
                    insert_field(acc, FieldTy { name: f.name, optional: f.optional, ty }),
                    fuel,
                )
            },
        }
    }
}

/// Unifies the inputs of two blocks pairwise, from position `i` on, as far as both have
/// one. The right block's input stands on the left of the pair.
pub open spec fn unify_inputs_spec(
    st: SolverView,
    li: Seq<Ty>,
    ri: Seq<Ty>,
    loc: NodeData,
    i: int,
    acc: Seq<Ty>,
    fuel: nat,
) -> (SolverView, Seq<Ty>)
    decreases fuel, li.len() - i + 2,
{
    if i < 0 || i >= li.len() || i >= ri.len() {
        (st, acc)
    } else {
        let (st2, ty) = recur_spec(st, TypeLocView::BlockArg(i as usize), ri[i], li[i], loc, fuel);
        unify_inputs_spec(st2, li, ri, loc, i + 1, acc.push(ty), fuel)
    }
}

/// Unifies `left` and `right`: makes them the same type by binding type variables, or
/// reports why they cannot be. Gives the new state and the unified type.
///
/// The substitution is applied to both sides first. If that makes them equal, nothing
/// is left to do. A side that is a variable is bound to the other side, the right side
/// first. Lists unify their elements, records their fields, blocks their inputs and
/// outputs. `Any` on either side gives `Any`. Anything else is incompatible.
///
/// The unified type of two lists is the list of their unified element type, not the
/// element type itself: the unified type of two types has the shape of both.
///
/// `fuel` bounds how deep the unification goes into the two types. It is there
/// because applying the substitution can make a type larger, so that the types alone
/// do not show that unification ends. Where the fuel runs out, the two parts are
/// reported as incompatible.
pub open spec fn unify_spec(st: SolverView, left: Ty, right: Ty, loc: NodeData, fuel: nat) -> (
    SolverView,
    Ty,
)
    decreases fuel, 0int,
{
    let l = apply_subst(left, st.subst);
    let r = apply_subst(right, st.subst);
    if l == r {
        (st, l)
    } else if fuel == 0 {
        (problem_at(st, ConstraintProblemView::Incompatible(l, r), loc), l)
    } else if r is Var {
        bind_spec(st, r->Var_0, l, loc)
    } else if l is Var {
        bind_spec(st, l->Var_0, r, loc)
    } else {
        match (l, r) {
            (Ty::List(le), Ty::List(re)) => {
                let (st2, e) = recur_spec(
                    st,
                    TypeLocView::ListElement,
                    *le,
                    *re,
                    loc,
                    (fuel - 1) as nat,
                );
                (st2, Ty::List(Box::new(e)))
            },
            (Ty::Record(lp, lf), Ty::Record(rp, rf)) => {
                let (st2, fields) = unify_fields_spec(
                    st,
                    lf,
                    rf,
                    rp,
                    loc,
                    0,
                    Seq::empty(),
                    (fuel - 1) as nat,
                );
                let all = if lp {
                    add_right_fields(st2.subst, lf, rf, 0, fields)
                } else {
                    fields
                };
                rebind_spec(st2, left, right, Ty::Record(lp, all), loc)
            },
            (Ty::Block(li, lo), Ty::Block(ri, ro)) => {
                let st1 = if li.len() > ri.len() {
                    problem_at(
                        st,
                        ConstraintProblemView::BlockArity {
                            expected: ri.len() as usize,
                            actual: li.len() as usize,
                        },
                        loc,
                    )
                } else {
                    st
                };
                let (st2, ins) = unify_inputs_spec(
                    st1,
                    li,
                    ri,
                    loc,
                    0,
                    Seq::empty(),
                    (fuel - 1) as nat,
                );
                let (st3, out) = recur_spec(
                    st2,
                    TypeLocView::BlockBody,
                    *lo,
                    *ro,
                    loc,
                    (fuel - 1) as nat,
                );
                (st3, Ty::Block(ins, Box::new(out)))
            },
            (Ty::Any, _) => (st, Ty::Any),
            (_, Ty::Any) => (st, Ty::Any),
            _ => (problem_at(st, ConstraintProblemView::Incompatible(l, r), loc), l),
        }
    }
}

impl Unifier {
    /// A unifier that has bound nothing yet and adds its problems to `errors`.
    pub fn new(errors: Vec<TypeError>) -> (u: Unifier)
        ensures
            u@ == (SolverView {
                subst: SubstView::empty(),
                errors: errors_view(errors@),
                path: Seq::empty(),
            }),
    {
        let u = Unifier { errors, subst: Subst::new(), path: Vec::new() };
        assert(path_view(u.path@) =~= Seq::empty());
        u
    }

    /// Reports a problem of the constraint at `location`, found at the current path.
    pub fn add_problem(&mut self, problem: ConstraintProblem, location: &NodeData)
        ensures
            final(self)@ == problem_at(old(self)@, problem@, *location),
    {
        let path = clone_path(&self.path);
        let ghost before = errors_view(self.errors@);
        let error = Problem::Constraint(path, problem).at(*location);
        self.errors.push(error);
        assert(errors_view(self.errors@) =~= before.push(error@));
    }

    /// See `bind_spec`.
    pub fn bind(&mut self, var_name: String, ty: Type, location: &NodeData) -> (out: Type)
        ensures
            (final(self)@, out@) == bind_spec(old(self)@, var_name@, ty@, *location),
    {
        let vars = vars_of_type(&ty);
        if has_name(&vars, &var_name) {
            self.add_problem(
                ConstraintProblem::InfiniteType(var_name, clone_type(&ty)),
                location,
            );
            return ty;
        }
        let typ = apply_to_type(&ty, &self.subst);
        let prev: Option<Type> = match self.subst.get(&var_name) {
            Some(prev) => Some(clone_type(prev)),
            None => None,
        };
        match prev {
            Some(prev) => {
                if !type_eq(&typ, &prev) {
                    self.add_problem(
                        ConstraintProblem::AlreadyBound {
                            name: var_name,
                            old: clone_type(&prev),
                            new: ty,
                        },
                        location,
                    );
                    return prev;
                }
            },
            None => {},
        }
        self.subst.insert(var_name, clone_type(&typ));
        typ
    }

    fn rebind_one(&mut self, side: &Type, merged: &Type, location: &NodeData)
        ensures
            final(self)@ == rebind_side(old(self)@, side@, merged@, *location),
    {
        match side.var_name() {
            Some(var_name) => {
                let vars = vars_of_type(merged);
                if has_name(&vars, var_name) {
                    self.add_problem(
                        ConstraintProblem::InfiniteType(var_name.clone(), clone_type(merged)),
                        location,
                    );
                } else if !self.subst.contains_key(var_name) {
                    self.add_problem(
                        ConstraintProblem::RebindUndefined(var_name.clone()),
                        location,
                    );
                } else {
                    self.subst.insert(var_name.clone(), clone_type(merged));
                }
            },
            None => {},
        }
    }

    /// See `rebind_spec`.
    pub fn rebind(&mut self, left: &Type, right: &Type, new_type: Type, location: &NodeData) -> (out:
        Type)
        ensures
            (final(self)@, out@) == rebind_spec(
                old(self)@,
                left@,
                right@,
                new_type@,
                *location,
            ),
    {
        self.rebind_one(left, &new_type, location);
        self.rebind_one(right, &new_type, location);
        new_type
    }

    /// See `recur_spec`.
    pub fn recur(
        &mut self,
        loc: TypeLoc,
        left: &Type,
        right: &Type,
        location: &NodeData,
        depth: usize,
    ) -> (out: Type)
        ensures
            (final(self)@, out@) == recur_spec(
                old(self)@,
                loc@,
                left@,
                right@,
                *location,
                depth as nat,
            ),
            final(self)@.path == old(self)@.path,
        decreases depth, 1int,
    {
        let ghost before = path_view(self.path@);
        self.path.push(loc);
        assert(path_view(self.path@) =~= before.push(loc@));
        let ty = self.unify(left, right, location, depth);
        let ghost mid = path_view(self.path@);
        self.path.pop();
        assert(path_view(self.path@) =~= mid.drop_last());
        ty
    }

    fn unify_fields(
        &mut self,
        lf: &Vec<(String, RecordField)>,
        rf: &Vec<(String, RecordField)>,
        right_partial: bool,
        location: &NodeData,
        depth: usize,
    ) -> (fields: Vec<(String, RecordField)>)
        ensures
            (final(self)@, fields_view(fields@)) == unify_fields_spec(
                old(self)@,
                fields_view(lf@),
                fields_view(rf@),
                right_partial,
                *location,
                0,
                Seq::empty(),
                depth as nat,
            ),
            final(self)@.path == old(self)@.path,
        decreases depth, 2int,
    {
        let mut fields: Vec<(String, RecordField)> = Vec::new();
        assert(fields_view(fields@) =~= Seq::empty());
        let ghost goal = unify_fields_spec(
            self@,
            fields_view(lf@),
            fields_view(rf@),
            right_partial,
            *location,
            0,
            Seq::empty(),
            depth as nat,
        );
        let mut i: usize = 0;
        while i < lf.len()
            invariant
                i <= lf.len(),
                self@.path == old(self)@.path,
                unify_fields_spec(
                    self@,
                    fields_view(lf@),
                    fields_view(rf@),
                    right_partial,
                    *location,
                    i as int,
                    fields_view(fields@),
                    depth as nat,
                ) == goal,
            decreases lf.len() - i,
        {
            let name = &lf[i].0;
            let left_field = &lf[i].1;
            match find_field(rf, name) {
                None => {
                    if left_field.required() && !right_partial {
                        self.add_problem(ConstraintProblem::FieldMissing(name.clone()), location);
                    } else {
                        let ty = apply_to_type(&left_field.ty, &self.subst);
                        put_field(
                            &mut fields,
                            name.clone(),
                            RecordField { optional: left_field.optional, ty },
                        );
                    }
                },
                Some(k) => {
                    proof {
                        lemma_field_index(fields_view(rf@), name@, 0);
                    }
                    let right_field = &rf[k].1;
                    if left_field.required() && right_field.optional() {
                        self.add_problem(
                            ConstraintProblem::FieldOptional(name.clone()),
                            location,
                        );
                    }
                    let ty = self.recur(
                        TypeLoc::Field(name.clone()),
                        &left_field.ty,
                        &right_field.ty,
                        location,
                        depth,
                    );
                    put_field(
                        &mut fields,
                        name.clone(),
                        RecordField { optional: left_field.optional, ty },
                    );
                },
            }
            i += 1;
        }
        fields
    }

    fn unify_inputs(
        &mut self,
        li: &Vec<Type>,
        ri: &Vec<Type>,
        location: &NodeData,
        depth: usize,
    ) -> (inputs: Vec<Type>)
        ensures
            (final(self)@, types_view(inputs@)) == unify_inputs_spec(
                old(self)@,
                types_view(li@),
                types_view(ri@),
                *location,
                0,
                Seq::empty(),
                depth as nat,
            ),
            final(self)@.path == old(self)@.path,
        decreases depth, 2int,
    {
        let mut inputs: Vec<Type> = Vec::with_capacity(ri.len());
        assert(types_view(inputs@) =~= Seq::empty());
        let ghost goal = unify_inputs_spec(
            self@,
            types_view(li@),
            types_view(ri@),
            *location,
            0,
            Seq::empty(),
            depth as nat,
        );
        let mut i: usize = 0;
        while i < li.len() && i < ri.len()
            invariant
                i <= li.len(),
                i <= ri.len(),
                self@.path == old(self)@.path,
                unify_inputs_spec(
                    self@,
                    types_view(li@),
                    types_view(ri@),
                    *location,
                    i as int,
                    types_view(inputs@),
                    depth as nat,
                ) == goal,
            decreases li.len() - i,
        {
            let ty = self.recur(TypeLoc::BlockArg(i), &ri[i], &li[i], location, depth);
            let ghost before = types_view(inputs@);
            inputs.push(ty);
            assert(types_view(inputs@) =~= before.push(ty@));
            i += 1;
        }
        inputs
    }

    /// See `unify_spec`.
    pub fn unify(&mut self, left: &Type, right: &Type, location: &NodeData, depth: usize) -> (out:
        Type)
        ensures
            (final(self)@, out@) == unify_spec(
                old(self)@,
                left@,
                right@,
                *location,
                depth as nat,
            ),
            final(self)@.path == old(self)@.path,
        decreases depth, 0int,
    {
        let l = apply_to_type(left, &self.subst);
        let r = apply_to_type(right, &self.subst);
        if type_eq(&l, &r) {
            return l;
        }
        if depth == 0 {
            self.add_problem(ConstraintProblem::Incompatible(clone_type(&l), r), location);
            return l;
        }
        if let Type::Var(name) = r {
            return self.bind(name, l, location);
        }
        if let Type::Var(name) = l {
            return self.bind(name, r, location);
        }
        match (&l, &r) {
            (Type::List(le), Type::List(re)) => {
                let e = self.recur(TypeLoc::ListElement, le, re, location, depth - 1);
                Type::List(Box::new(e))
            },
            (Type::Record(lp, lf), Type::Record(rp, rf)) => {
                proof {
                    lemma_record_view(*lp, *lf);
                    lemma_record_view(*rp, *rf);
                }
                let mut fields = self.unify_fields(lf, rf, *rp, location, depth - 1);
                if *lp {
                    add_remaining_fields(&self.subst, lf, rf, &mut fields);
                }
                proof {
                    lemma_record_view(*lp, fields);
                }
                self.rebind(left, right, Type::Record(*lp, fields), location)
            },
            (Type::Block(li, lo), Type::Block(ri, ro)) => {
                proof {
                    lemma_block_view(*li, *lo);
                    lemma_block_view(*ri, *ro);
                }
                if li.len() > ri.len() {
                    self.add_problem(
                        ConstraintProblem::BlockArity { expected: ri.len(), actual: li.len() },
                        location,
                    );
                }
                let ins = self.unify_inputs(li, ri, location, depth - 1);
                let out = Box::new(self.recur(TypeLoc::BlockBody, lo, ro, location, depth - 1));
                proof {
                    lemma_block_view(ins, out);
                }
                Type::Block(ins, out)
            },
            (Type::Any, _) => Type::Any,
            (_, Type::Any) => Type::Any,
            _ => {
                self.add_problem(ConstraintProblem::Incompatible(clone_type(&l), r), location);
                l
            },
        }
    }
}

/// Puts into `fields` each field of `rf` that `lf` has no field for, with the
/// substitution applied.
fn add_remaining_fields(
    subs: &Subst,
    lf: &Vec<(String, RecordField)>,
    rf: &Vec<(String, RecordField)>,
    fields: &mut Vec<(String, RecordField)>,
)
    ensures
        fields_view(final(fields)@) == add_right_fields(
            subs@,
            fields_view(lf@),
            fields_view(rf@),
            0,
            fields_view(old(fields)@),
        ),
{
    let ghost goal = add_right_fields(
        subs@,
        fields_view(lf@),
        fields_view(rf@),
        0,
        fields_view(fields@),
    );
    let mut i: usize = 0;
    while i < rf.len()
        invariant
            i <= rf.len(),
            add_right_fields(
                subs@,
                fields_view(lf@),
                fields_view(rf@),
                i as int,
                fields_view(fields@),
            ) == goal,
        decreases rf.len() - i,
    {
        if find_field(lf, &rf[i].0).is_none() {
            let ty = apply_to_type(&rf[i].1.ty, subs);
            put_field(fields, rf[i].0.clone(), RecordField { optional: rf[i].1.optional, ty });
        }
        i += 1;
    }
}

/// A type with each partial record in it closed. The fields of a record that was closed
/// already, and the parts of a block, stay as they are.
pub open spec fn finalize_spec(t: Ty) -> Ty
    decreases t,
{
    match t {
        Ty::Record(partial, fields) => if partial {
            Ty::Record(false, finalize_fields_spec(fields))
        } else {
            t
        },
        Ty::List(e) => Ty::List(Box::new(finalize_spec(*e))),
        _ => t,
    }
}

/// Each field of a list with the partial records in its type closed.
pub open spec fn finalize_fields_spec(fields: Seq<FieldTy>) -> Seq<FieldTy>
    decreases fields,
{
    Seq::new(
        fields.len(),
        |i: int|
            if 0 <= i < fields.len() {
                FieldTy {
                    name: fields[i].name,
                    optional: fields[i].optional,
                    ty: finalize_spec(fields[i].ty),
                }
            } else {
                arbitrary()
            },
    )
}

fn finalize_fields(fields: &Vec<(String, RecordField)>) -> (out: Vec<(String, RecordField)>)
    ensures
        fields_view(out@) == finalize_fields_spec(fields_view(fields@)),
    decreases fields,
{
    let mut out: Vec<(String, RecordField)> = Vec::with_capacity(fields.len());
    let mut i: usize = 0;
    while i < fields.len()
        invariant
            i <= fields.len(),
            out@.len() == i,
            forall|j: int|
                0 <= j < i ==> out@[j].0@ == fields@[j].0@ && out@[j].1.optional
                    == fields@[j].1.optional && out@[j].1.ty@ == finalize_spec(fields@[j].1.ty@),
        decreases fields.len() - i,
    {
        let ty = finalize_record(&fields[i].1.ty);
        out.push((fields[i].0.clone(), RecordField { optional: fields[i].1.optional, ty }));
        i += 1;
    }
    assert(fields_view(out@) =~= finalize_fields_spec(fields_view(fields@)));
    out
}

/// See `finalize_spec`.
pub fn finalize_record(t: &Type) -> (out: Type)
    ensures
        out@ == finalize_spec(t@),
    decreases t,
{
    match t {
        Type::Record(partial, fields) => {
            if *partial {
                let out = finalize_fields(fields);
                proof {
                    lemma_record_view(*partial, *fields);
                    lemma_record_view(false, out);
                }
                Type::Record(false, out)
            } else {
                clone_type(t)
            }
        },
        Type::List(e) => Type::List(Box::new(finalize_record(e))),
        _ => clone_type(t),
    }
}

/// The type that comes of applying the substitution again and again until that changes
/// nothing more, if `fuel` further applications after the first get there.
pub open spec fn settle_spec(t: Ty, subs: SubstView, fuel: nat) -> Option<Ty>
    decreases fuel,
{
    let next = apply_subst(t, subs);
    if next == t {
        Some(t)
    } else if fuel == 0 {
        None
    } else {
        settle_spec(next, subs, (fuel - 1) as nat)
    }
}

/// See `settle_spec`.
pub fn settle(t: &Type, subs: &Subst, fuel: usize) -> (out: Option<Type>)
    ensures
        match out {
            Some(ty) => settle_spec(t@, subs@, fuel as nat) == Some(ty@),
            None => settle_spec(t@, subs@, fuel as nat) is None,
        },
{
    let mut current = clone_type(t);
    let mut left = fuel;
    loop
        invariant
            settle_spec(current@, subs@, left as nat) == settle_spec(t@, subs@, fuel as nat),
        decreases left,
    {
        let next = apply_to_type(&current, subs);
        if type_eq(&next, &current) {
            return Some(current);
        }
        if left == 0 {
            return None;
        }
        current = next;
        left -= 1;
    }
}

/// One round of minimization over the bindings from position `i` on. For each binding
/// it puts a binding of the same variable into `next`, and counts in `progress` the
/// variables that were bound to a bound variable. Fails with the variable whose
/// binding leads back to itself.
pub open spec fn minimize_round_spec(subs: SubstView, i: int, next: SubstView, progress: nat) -> Result<
    (SubstView, nat),
    Seq<char>,
>
    decreases subs.len() - i,
{
    if i < 0 || i >= subs.len() {
        Ok((next, progress))
    } else {
        let v = subs[i].0;
        let ty = subs[i].1;
        let other = if ty is Var {
            binding(subs, ty->Var_0)
        } else {
            None
        };
        match other {
            Some(bound) => if occurs_in(v, bound) {
                Err(v)
            } else {
                minimize_round_spec(
                    subs,
                    i + 1,
                    bind_name(next, v, finalize_spec(apply_subst(bound, subs))),
                    progress + 1,
                )
            },
            None => match settle_spec(ty, subs, subs.len()) {
                Some(settled) => minimize_round_spec(
                    subs,
                    i + 1,
                    bind_name(next, v, finalize_spec(settled)),
                    progress,
                ),
                None => Err(v),
            },
        }
    }
}

/// The substitution with every binding resolved as far as the other bindings allow,
/// and every partial record closed: rounds are made until one finds no variable that
/// is bound to a bound variable, `rounds` more than the first at most.
pub open spec fn minimize_spec(subs: SubstView, rounds: nat) -> Result<SubstView, Seq<char>>
    decreases rounds,
{
    match minimize_round_spec(subs, 0, Seq::empty(), 0) {
        Err(v) => Err(v),
        Ok((next, progress)) => if progress == 0 || rounds == 0 {
            Ok(next)
        } else {
            minimize_spec(next, (rounds - 1) as nat)
        },
    }
}

fn minimize_round(subs: &Subst) -> (out: Result<(Subst, usize), String>)
    ensures
        match out {
            Ok((next, progress)) => minimize_round_spec(subs@, 0, Seq::empty(), 0) == Ok::<
                (SubstView, nat),
                Seq<char>,
            >((next@, progress as nat)),
            Err(v) => minimize_round_spec(subs@, 0, Seq::empty(), 0) == Err::<
                (SubstView, nat),
                Seq<char>,
            >(v@),
        },
{
    let mut next = Subst::new();
    let mut progress: usize = 0;
    let mut i: usize = 0;
    while i < subs.len()
        invariant
            i <= subs@.len(),
            progress <= i,
            minimize_round_spec(subs@, i as int, next@, progress as nat) == minimize_round_spec(
                subs@,
                0,
                Seq::empty(),
                0,
            ),
        decreases subs@.len() - i,
    {
        let v = subs.name_at(i);
        let ty = subs.type_at(i);
        let other: Option<&Type> = match ty {
            Type::Var(name) => subs.get(name),
            _ => None,
        };
        match other {
            Some(bound) => {
                let vars = vars_of_type(bound);
                if has_name(&vars, v) {
                    return Err(v.clone());
                }
                let resolved = apply_to_type(bound, subs);
                next.insert(v.clone(), finalize_record(&resolved));
                progress += 1;
            },
            None => {
                match settle(ty, subs, subs.len()) {
                    Some(settled) => {
                        next.insert(v.clone(), finalize_record(&settled));
                    },
                    None => {
                        return Err(v.clone());
                    },
                }
            },
        }
        i += 1;
    }
    Ok((next, progress))
}

/// See `minimize_spec`: `subs.len()` rounds more than the first at most.
pub fn minimize_substitution(subs: Subst) -> (out: Result<Subst, String>)
    ensures
        match out {
            Ok(next) => minimize_spec(subs@, subs@.len()) == Ok::<SubstView, Seq<char>>(next@),
            Err(v) => minimize_spec(subs@, subs@.len()) == Err::<SubstView, Seq<char>>(v@),
        },
{
    let mut current = subs;
    let mut rounds = current.len();
    loop
        invariant
            minimize_spec(current@, rounds as nat) == minimize_spec(subs@, subs@.len()),
        decreases rounds,
    {
        match minimize_round(&current) {
            Err(v) => {
                return Err(v);
            },
            Ok((next, progress)) => {
                if progress == 0 || rounds == 0 {
                    return Ok(next);
                }
                current = next;
                rounds -= 1;
            },
        }
    }
}

/// The model of a constraint: its two types and its node.
pub type ConstraintView = (Ty, Ty, NodeData);

impl View for Constraint {
    type V = ConstraintView;

    open spec fn view(&self) -> ConstraintView {
        (self.0@, self.1@, self.2)
    }
}

/// The model of a list of constraints.
pub open spec fn constraints_view(constraints: Seq<Constraint>) -> Seq<ConstraintView> {
    Seq::new(constraints.len(), |i: int| constraints[i]@)
}

/// The state after unifying the constraints from position `i` on, one after the other.
pub open spec fn unify_all_spec(st: SolverView, constraints: Seq<ConstraintView>, i: int) -> SolverView
    decreases constraints.len() - i,
{
    if i < 0 || i >= constraints.len() {
        st
    } else {
        unify_all_spec(
            unify_spec(
                st,
                constraints[i].0,
                constraints[i].1,
                constraints[i].2,
                MAX_TYPE_DEPTH as nat,
            ).0,
            constraints,
            i + 1,
        )
    }
}

/// The substitution that solves the constraints, and the errors with every problem
/// that came up added.
///
/// The constraints are unified in their order, and the substitution that comes of it
/// is minimized. Where minimization finds a variable whose binding leads back to the
/// variable itself, the substitution is left as unification made it, and the variable is
/// reported as an infinite type at the last constraint's node.
pub open spec fn solve_spec(constraints: Seq<ConstraintView>, errors: Seq<TypeErrorView>) -> (
    SubstView,
    Seq<TypeErrorView>,
) {
    if constraints.len() == 0 {
        (Seq::empty(), errors)
    } else {
        let st = unify_all_spec(
            SolverView { subst: Seq::empty(), errors, path: Seq::empty() },
            constraints,
            0,
        );
        match minimize_spec(st.subst, st.subst.len()) {
            Ok(subs) => (subs, st.errors),
            Err(v) => (
                st.subst,
                st.errors.push(
                    TypeErrorView {
                        location: constraints.last().2,
                        error: ProblemView::Constraint(
                            Seq::empty(),
                            ConstraintProblemView::InfiniteType(
                                v,
                                match binding(st.subst, v) {
                                    Some(ty) => ty,
                                    None => Ty::Var(v),
                                },
                            ),
                        ),
                    },
                ),
            ),
        }
    }
}

/// See `solve_spec`.
pub fn solve(constraints: Vec<Constraint>, errors: &mut Vec<TypeError>) -> (subst: Subst)
    ensures
        (subst@, errors_view(final(errors)@)) == solve_spec(
            constraints_view(constraints@),
            errors_view(old(errors)@),
        ),
{
    if constraints.len() == 0 {
        return Subst::new();
    }
    let mut taken: Vec<TypeError> = Vec::new();
    core::mem::swap(errors, &mut taken);
    let mut unifier = Unifier::new(taken);
    let ghost cs = constraints_view(constraints@);
    let ghost start = unifier@;
    let mut i: usize = 0;
    while i < constraints.len()
        invariant
            i <= constraints.len(),
            cs == constraints_view(constraints@),
            unify_all_spec(unifier@, cs, i as int) == unify_all_spec(start, cs, 0),
        decreases constraints.len() - i,
    {
        let c = &constraints[i];
        let _ = unifier.unify(&c.0, &c.1, &c.2, MAX_TYPE_DEPTH);
        i += 1;
    }
    let Unifier { errors: mut found, subst, path: _ } = unifier;
    let last = constraints[constraints.len() - 1].2;
    let kept = subst.duplicate();
    match minimize_substitution(subst) {
        Ok(subs) => {
            *errors = found;
            subs
        },
        Err(v) => {
            let ty = match kept.get(&v) {
                Some(ty) => clone_type(ty),
                None => Type::Var(v.clone()),
            };
            let ghost before = errors_view(found@);
            let error = Problem::Constraint(
                Vec::new(),
                ConstraintProblem::InfiniteType(v, ty),
            ).at(last);
            assert(path_view(Seq::<TypeLoc>::empty()) =~= Seq::empty());
            found.push(error);
            assert(errors_view(found@) =~= before.push(error@));
            *errors = found;
            kept
        },
    }
}

} // verus!
