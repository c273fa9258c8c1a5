//! Substitutions: maps from type variables to types, and what can apply them.
use super::types::{
    clone_type, fields_view, lemma_block_view, lemma_record_view, types_view, FieldTy,
    RecordField, Ty, Type,
};
use vstd::prelude::*;

verus! {

/// The model of a substitution: its bindings, oldest first, each variable once.
pub type SubstView = Seq<(Seq<char>, Ty)>;

/// The model of a list of names.
pub open spec fn names_view(names: Seq<String>) -> Seq<Seq<char>> {
    Seq::new(names.len(), |i: int| names[i]@)
}

/// The position of the binding of `name` at or after `i`, if there is one.
pub open spec fn binding_index(subs: SubstView, name: Seq<char>, i: int) -> Option<int>
    decreases subs.len() - i,
{
    if i < 0 || i >= subs.len() {
        None
    } else if subs[i].0 == name {
        Some(i)
    } else {
        binding_index(subs, name, i + 1)
    }
}

/// What `name` is bound to, if it is bound.
pub open spec fn binding(subs: SubstView, name: Seq<char>) -> Option<Ty> {
    match binding_index(subs, name, 0) {
        Some(i) => Some(subs[i].1),
        None => None,
    }
}

/// The substitution with `name` bound to `ty`: in place of its old binding, or at the end.
pub open spec fn bind_name(subs: SubstView, name: Seq<char>, ty: Ty) -> SubstView {
    match binding_index(subs, name, 0) {
        Some(i) => subs.update(i, (name, ty)),
        None => subs.push((name, ty)),
    }
}

/// A type with each variable that the substitution binds replaced by what it is bound
/// to. What is put in is not substituted again.
pub open spec fn apply_subst(t: Ty, subs: SubstView) -> Ty
    decreases t,
{
    match t {
        Ty::List(e) => Ty::List(Box::new(apply_subst(*e, subs))),
        Ty::Record(partial, fields) => Ty::Record(
            partial,
            Seq::new(
                fields.len(),
                |i: int|
                    if 0 <= i < fields.len() {
                        FieldTy {
                            name: fields[i].name,
                            optional: fields[i].optional,
                            ty: apply_subst(fields[i].ty, subs),
                        }
                    } else {
                        arbitrary()
                    },
            ),
        ),
        Ty::Block(inputs, output) => Ty::Block(
            Seq::new(
                inputs.len(),
                |i: int|
                    if 0 <= i < inputs.len() {
                        apply_subst(inputs[i], subs)
                    } else {
                        arbitrary()
                    },
            ),
            Box::new(apply_subst(*output, subs)),
        ),
        Ty::Var(name) => match binding(subs, name) {
            Some(bound) => bound,
            None => t,
        },
        _ => t,
    }
}

/// `names` with each name of `more` that it lacks added at the end, from position `i` on.
pub open spec fn add_names(names: Seq<Seq<char>>, more: Seq<Seq<char>>, i: int) -> Seq<
    Seq<char>,
>
    decreases more.len() - i,
{
    if i < 0 || i >= more.len() {
        names
    } else if names.contains(more[i]) {
        add_names(names, more, i + 1)
    } else {
        add_names(names.push(more[i]), more, i + 1)
    }
}

/// `names` with the names of each list from position `i` on added, list by list.
pub open spec fn add_all_names(names: Seq<Seq<char>>, lists: Seq<Seq<Seq<char>>>, i: int) -> Seq<
    Seq<char>,
>
    decreases lists.len() - i,
{
    if i < 0 || i >= lists.len() {
        names
    } else {
        add_all_names(add_names(names, lists[i], 0), lists, i + 1)
    }
}

/// The variables that occur in a type, each once, in the order of their first
/// occurrence: a block's inputs before its output, a record's fields in their order.
pub open spec fn free_vars(t: Ty) -> Seq<Seq<char>>
    decreases t,
{
    match t {
        Ty::List(e) => free_vars(*e),
        Ty::Record(_, fields) => add_all_names(Seq::empty(), free_vars_of_fields(fields), 0),
        Ty::Block(inputs, output) => add_names(
            add_all_names(Seq::empty(), free_vars_of_types(inputs), 0),
            free_vars(*output),
            0,
        ),
        Ty::Var(name) => seq![name],
        _ => Seq::empty(),
    }
}

/// The free variables of each type of a list.
pub open spec fn free_vars_of_types(types: Seq<Ty>) -> Seq<Seq<Seq<char>>>
    decreases types,
{
    Seq::new(
        types.len(),
        |i: int|
            if 0 <= i < types.len() {
                free_vars(types[i])
            } else {
                arbitrary()
            },
    )
}

/// The free variables of each field's type of a list.
pub open spec fn free_vars_of_fields(fields: Seq<FieldTy>) -> Seq<Seq<Seq<char>>>
    decreases fields,
{
    Seq::new(
        fields.len(),
        |i: int|
            if 0 <= i < fields.len() {
                free_vars(fields[i].ty)
            } else {
                arbitrary()
            },
    )
}

/// Whether the variable `name` occurs in the type.
pub open spec fn occurs_in(name: Seq<char>, t: Ty) -> bool {
    free_vars(t).contains(name)
}

/// A map from type variables to types.
pub struct Subst {
    bindings: Vec<(String, Type)>,
}

impl View for Subst {
    type V = SubstView;

    closed spec fn view(&self) -> SubstView {
        Seq::new(self.bindings@.len(), |i: int| (self.bindings@[i].0@, self.bindings@[i].1@))
    }
}

impl Subst {
    /// The substitution that binds nothing.
    pub fn new() -> (subs: Subst)
        ensures
            subs@ == SubstView::empty(),
    {
        let subs = Subst { bindings: Vec::new() };
        assert(subs@ =~= SubstView::empty());
        subs
    }

    /// A copy of the substitution.
    pub fn duplicate(&self) -> (out: Subst)
        ensures
            out@ == self@,
    {
        let mut bindings: Vec<(String, Type)> = Vec::with_capacity(self.bindings.len());
        let mut i: usize = 0;
        while i < self.bindings.len()
            invariant
                i <= self.bindings.len(),
                bindings@.len() == i,
                forall|j: int|
                    0 <= j < i ==> bindings@[j].0@ == self.bindings@[j].0@ && bindings@[j].1@
                        == self.bindings@[j].1@,
            decreases self.bindings.len() - i,
        {
            bindings.push((self.bindings[i].0.clone(), clone_type(&self.bindings[i].1)));
            i += 1;
        }
        let out = Subst { bindings };
        assert(out@ =~= self@);
        out
    }

    /// The number of bindings.
    pub fn len(&self) -> (n: usize)
        ensures
            n == self@.len(),
    {
        self.bindings.len()
    }

    /// The variable of the binding at position `i`.
    pub fn name_at(&self, i: usize) -> (name: &String)
        requires
            i < self@.len(),
        ensures
            name@ == self@[i as int].0,
    {
        &self.bindings[i].0
    }

    /// The type of the binding at position `i`.
    pub fn type_at(&self, i: usize) -> (ty: &Type)
        requires
            i < self@.len(),
        ensures
            ty@ == self@[i as int].1,
    {
        &self.bindings[i].1
    }

    fn position(&self, name: &String) -> (found: Option<usize>)
        ensures
            match found {
                Some(k) => binding_index(self@, name@, 0) == Some(k as int) && k < self@.len(),
                None => binding_index(self@, name@, 0) is None,
            },
    {
        let mut i: usize = 0;
        while i < self.bindings.len()
            invariant
                i <= self.bindings.len(),
                self.bindings.len() == self@.len(),
                binding_index(self@, name@, i as int) == binding_index(self@, name@, 0),
            decreases self.bindings.len() - i,
        {
            if self.bindings[i].0 == *name {
                return Some(i);
            }
            i += 1;
        }
        None
    }

    /// What `name` is bound to, if it is bound.
    pub fn get(&self, name: &String) -> (found: Option<&Type>)
        ensures
            match found {
                Some(ty) => binding(self@, name@) == Some(ty@),
                None => binding(self@, name@) is None,
            },
    {
        match self.position(name) {
            Some(i) => Some(&self.bindings[i].1),
            None => None,
        }
    }

    /// Whether `name` is bound.
    pub fn contains_key(&self, name: &String) -> (r: bool)
        ensures
            r == binding(self@, name@).is_some(),
    {
        self.position(name).is_some()
    }

    /// Binds `name` to `ty`, in place of what it was bound to.
    pub fn insert(&mut self, name: String, ty: Type)
        ensures
            final(self)@ == bind_name(old(self)@, name@, ty@),
    {
        let ghost before = self@;
        match self.position(&name) {
            Some(i) => {
                self.bindings.set(i, (name, ty));
                assert(self@ =~= before.update(i as int, (name@, ty@)));
            },
            None => {
                self.bindings.push((name, ty));
                assert(self@ =~= before.push((name@, ty@)));
            },
        }
    }
}

/// What can have a substitution applied to it, and says which type variables occur
/// free in it.
pub trait Substitutable: Sized {
    /// Whether `out` is `self` with the substitution applied.
    spec fn substituted(&self, subs: SubstView, out: &Self) -> bool;

    /// The variables that occur free, each once.
    spec fn free_names(&self) -> Seq<Seq<char>>;

    fn apply_substitution(&self, subs: &Subst) -> (out: Self)
        ensures
            self.substituted(subs@, &out),
    ;

    fn free_vars(&self) -> (vars: Vec<String>)
        ensures
            names_view(vars@) == self.free_names(),
    ;

    /// Whether `var` occurs free.
    fn contains_var(&self, var: &String) -> (r: bool)
        ensures
            r == self.free_names().contains(var@),
    ;
}

/// Whether a list of names holds `name`.
pub fn has_name(names: &Vec<String>, name: &String) -> (r: bool)
    ensures
        r == names_view(names@).contains(name@),
{
    let mut i: usize = 0;
    while i < names.len()
        invariant
            i <= names.len(),
            forall|j: int| 0 <= j < i ==> names_view(names@)[j] != name@,
        decreases names.len() - i,
    {
        if names[i] == *name {
            assert(names_view(names@)[i as int] == name@);
            return true;
        }
        i += 1;
    }
    false
}

/// Adds to `names` each name of `more` that it lacks.
pub fn merge_names(names: &mut Vec<String>, more: &Vec<String>)
    ensures
        names_view(final(names)@) == add_names(names_view(old(names)@), names_view(more@), 0),
{
    let ghost goal = add_names(names_view(names@), names_view(more@), 0);
    let mut i: usize = 0;
    while i < more.len()
        invariant
            i <= more.len(),
            add_names(names_view(names@), names_view(more@), i as int) == goal,
        decreases more.len() - i,
    {
        if !has_name(names, &more[i]) {
            let ghost before = names_view(names@);
            names.push(more[i].clone());
            assert(names_view(names@) =~= before.push(more@[i as int]@));
        }
        i += 1;
    }
}

/// The variables of `vars` and those free in `t`.
pub fn extend_vars<T: Substitutable>(vars: Vec<String>, t: &T) -> (out: Vec<String>)
    ensures
        names_view(out@) == add_names(names_view(vars@), t.free_names(), 0),
{
    let mut out = vars;
    let more = t.free_vars();
    merge_names(&mut out, &more);
    out
}

/// Substitution goes through a record field by field, and through a block input by
/// input.
pub proof fn lemma_apply_subst_unfold(t: Ty, subs: SubstView)
    ensures
        t matches Ty::Record(partial, fields) ==> apply_subst(t, subs) == Ty::Record(
            partial,
            apply_subst_fields(fields, subs),
        ),
        t matches Ty::Block(inputs, output) ==> apply_subst(t, subs) == Ty::Block(
            apply_subst_each(inputs, subs),
            Box::new(apply_subst(*output, subs)),
        ),
{
    match t {
        Ty::Record(partial, fields) => {
            assert(apply_subst(t, subs)->Record_1 =~= apply_subst_fields(fields, subs));
        },
        Ty::Block(inputs, output) => {
            assert(apply_subst(t, subs)->Block_0 =~= apply_subst_each(inputs, subs));
        },
        _ => {},
    }
}

/// Each type of a list with the substitution applied.
pub open spec fn apply_subst_each(types: Seq<Ty>, subs: SubstView) -> Seq<Ty> {
    Seq::new(types.len(), |i: int| apply_subst(types[i], subs))
}

/// Each field of a list with the substitution applied to its type.
pub open spec fn apply_subst_fields(fields: Seq<FieldTy>, subs: SubstView) -> Seq<FieldTy> {
    Seq::new(
        fields.len(),
        |i: int|
            FieldTy {
                name: fields[i].name,
                optional: fields[i].optional,
                ty: apply_subst(fields[i].ty, subs),
            },
    )
}

fn apply_to_types(types: &Vec<Type>, subs: &Subst) -> (out: Vec<Type>)
    ensures
        types_view(out@) == apply_subst_each(types_view(types@), subs@),
    decreases types,
{
    let mut out: Vec<Type> = Vec::with_capacity(types.len());
    let mut i: usize = 0;
    while i < types.len()
        invariant
            i <= types.len(),
            out@.len() == i,
            forall|j: int| 0 <= j < i ==> out@[j]@ == apply_subst(types@[j]@, subs@),
        decreases types.len() - i,
    {
        out.push(apply_to_type(&types[i], subs));
        i += 1;
    }
    assert(types_view(out@) =~= apply_subst_each(types_view(types@), subs@));
    out
}

fn apply_to_fields(fields: &Vec<(String, RecordField)>, subs: &Subst) -> (out: Vec<
    (String, RecordField),
>)
    ensures
        fields_view(out@) == apply_subst_fields(fields_view(fields@), subs@),
    decreases fields,
{
    let mut out: Vec<(String, RecordField)> = Vec::with_capacity(fields.len());
    let mut i: usize = 0;
    while i < fields.len()
        invariant
            i <= fields.len(),
            out@.len() == i,
            forall|j: int|
                0 <= j < i ==> out@[j].0@ == fields@[j].0@ && out@[j].1.optional
                    == fields@[j].1.optional && out@[j].1.ty@ == apply_subst(
                    fields@[j].1.ty@,
                    subs@,
                ),
        decreases fields.len() - i,
    {
        let ty = apply_to_type(&fields[i].1.ty, subs);
        out.push((fields[i].0.clone(), RecordField { optional: fields[i].1.optional, ty }));
        i += 1;
    }
    assert(fields_view(out@) =~= apply_subst_fields(fields_view(fields@), subs@));
    out
}

/// The type with the substitution applied.
pub fn apply_to_type(t: &Type, subs: &Subst) -> (out: Type)
    ensures
        out@ == apply_subst(t@, subs@),
    decreases t,
{
    match t {
        Type::List(e) => Type::List(Box::new(apply_to_type(e, subs))),
        Type::Record(partial, fields) => {
            let out = apply_to_fields(fields, subs);
            proof {
                lemma_record_view(*partial, *fields);
                lemma_record_view(*partial, out);
                lemma_apply_subst_unfold(t@, subs@);
            }
            Type::Record(*partial, out)
        },
        Type::Block(inputs, output) => {
            let ins = apply_to_types(inputs, subs);
            let out = Box::new(apply_to_type(output, subs));
            proof {
                lemma_block_view(*inputs, *output);
                lemma_block_view(ins, out);
                lemma_apply_subst_unfold(t@, subs@);
            }
            Type::Block(ins, out)
        },
        Type::Var(name) => match subs.get(name) {
            Some(bound) => clone_type(bound),
            None => Type::Var(name.clone()),
        },
        _ => clone_type(t),
    }
}

fn vars_of_types(types: &Vec<Type>) -> (vars: Vec<String>)
    ensures
        names_view(vars@) == add_all_names(Seq::empty(), free_vars_of_types(types_view(types@)), 0),
    decreases types,
{
    let mut vars: Vec<String> = Vec::new();
    let ghost lists = free_vars_of_types(types_view(types@));
    assert(names_view(vars@) =~= Seq::empty());
    let mut i: usize = 0;
    while i < types.len()
        invariant
            i <= types.len(),
            lists == free_vars_of_types(types_view(types@)),
            add_all_names(names_view(vars@), lists, i as int) == add_all_names(
                Seq::empty(),
                lists,
                0,
            ),
        decreases types.len() - i,
    {
        let more = vars_of_type(&types[i]);
        merge_names(&mut vars, &more);
        i += 1;
    }
    vars
}

fn vars_of_fields(fields: &Vec<(String, RecordField)>) -> (vars: Vec<String>)
    ensures
        names_view(vars@) == add_all_names(
            Seq::empty(),
            free_vars_of_fields(fields_view(fields@)),
            0,
        ),
    decreases fields,
{
    let mut vars: Vec<String> = Vec::new();
    let ghost lists = free_vars_of_fields(fields_view(fields@));
    assert(names_view(vars@) =~= Seq::empty());
    let mut i: usize = 0;
    while i < fields.len()
        invariant
            i <= fields.len(),
            lists == free_vars_of_fields(fields_view(fields@)),
            add_all_names(names_view(vars@), lists, i as int) == add_all_names(
                Seq::empty(),
                lists,
                0,
            ),
        decreases fields.len() - i,
    {
        let more = vars_of_type(&fields[i].1.ty);
        merge_names(&mut vars, &more);
        i += 1;
    }
    vars
}

/// The variables that occur in a type: see `free_vars`.
pub fn vars_of_type(t: &Type) -> (vars: Vec<String>)
    ensures
        names_view(vars@) == free_vars(t@),
    decreases t,
{
    match t {
        Type::List(e) => vars_of_type(e),
        Type::Record(partial, fields) => {
            proof {
                lemma_record_view(*partial, *fields);
            }
            vars_of_fields(fields)
        },
        Type::Block(inputs, output) => {
            proof {
                lemma_block_view(*inputs, *output);
            }
            let mut vars = vars_of_types(inputs);
            let more = vars_of_type(output);
            merge_names(&mut vars, &more);
            vars
        },
        Type::Var(name) => {
            let mut vars: Vec<String> = Vec::new();
            vars.push(name.clone());
            assert(names_view(vars@) =~= seq![name@]);
            vars
        },
        _ => {
            let vars: Vec<String> = Vec::new();
            assert(names_view(vars@) =~= Seq::empty());
            vars
        },
    }
}

impl Substitutable for Type {
    open spec fn substituted(&self, subs: SubstView, out: &Self) -> bool {
        out@ == apply_subst(self@, subs)
    }

    open spec fn free_names(&self) -> Seq<Seq<char>> {
        free_vars(self@)
    }

    fn apply_substitution(&self, subs: &Subst) -> (out: Self) {
        apply_to_type(self, subs)
    }

    fn free_vars(&self) -> (vars: Vec<String>) {
        vars_of_type(self)
    }

    fn contains_var(&self, var: &String) -> (r: bool) {
        let vars = vars_of_type(self);
        has_name(&vars, var)
    }
}

} // verus!
