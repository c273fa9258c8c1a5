//! What the type checker reports.
use super::types::{Ty, Type};
use crate::frontend::NodeData;
use vstd::prelude::*;

verus! {

/// A problem, and the node where it was found.
#[derive(Debug, PartialEq)]
pub struct TypeError {
    pub location: NodeData,
    pub error: Problem,
}

#[derive(Debug, PartialEq)]
pub enum Problem {
    /// The call names a function that the namespace does not have.
    UnknownFunction,
    /// The function of this name has no argument of the given keyword.
    UnknownKeyword(String),
    /// A constraint does not hold. The path leads from the constraint's types to
    /// the place inside them where the problem is.
    Constraint(Vec<TypeLoc>, ConstraintProblem),
}

#[derive(Debug, PartialEq)]
pub enum ConstraintProblem {
    AlreadyBound { name: String, old: Type, new: Type },
    InfiniteType(String, Type),
    RebindUndefined(String),
    Incompatible(Type, Type),
    BlockArity { expected: usize, actual: usize },
    FieldMissing(String),
    FieldOptional(String),
}

/// A place in a syntax tree, relative to a node.
#[derive(Debug, PartialEq)]
pub enum Loc {
    Element(usize),
    Field(usize),
    BlockBody,
    ArgName(usize),
    ArgValue(usize),
}

/// One step from a type into one of its parts.
#[derive(Debug, PartialEq)]
pub enum TypeLoc {
    ListElement,
    Field(String),
    BlockArg(usize),
    BlockBody,
}

/// The model of a [`TypeLoc`].
pub enum TypeLocView {
    ListElement,
    Field(Seq<char>),
    BlockArg(usize),
    BlockBody,
}

/// The model of a [`ConstraintProblem`].
pub enum ConstraintProblemView {
    AlreadyBound { name: Seq<char>, old: Ty, new: Ty },
    InfiniteType(Seq<char>, Ty),
    RebindUndefined(Seq<char>),
    Incompatible(Ty, Ty),
    BlockArity { expected: usize, actual: usize },
    FieldMissing(Seq<char>),
    FieldOptional(Seq<char>),
}

/// The model of a [`Problem`].
pub enum ProblemView {
    UnknownFunction,
    UnknownKeyword(Seq<char>),
    Constraint(Seq<TypeLocView>, ConstraintProblemView),
}

/// The model of a [`TypeError`].
pub struct TypeErrorView {
    pub location: NodeData,
    pub error: ProblemView,
}

impl View for TypeLoc {
    type V = TypeLocView;

    open spec fn view(&self) -> TypeLocView {
        match *self {
            TypeLoc::ListElement => TypeLocView::ListElement,
            TypeLoc::Field(name) => TypeLocView::Field(name@),
            TypeLoc::BlockArg(i) => TypeLocView::BlockArg(i),
            TypeLoc::BlockBody => TypeLocView::BlockBody,
        }
    }
}

impl Clone for TypeLoc {
    fn clone(&self) -> (out: TypeLoc)
        ensures
            out@ == self@,
    {
        match self {
            TypeLoc::ListElement => TypeLoc::ListElement,
            TypeLoc::Field(name) => TypeLoc::Field(name.clone()),
            TypeLoc::BlockArg(i) => TypeLoc::BlockArg(*i),
            TypeLoc::BlockBody => TypeLoc::BlockBody,
        }
    }
}

/// The model of a path of steps.
pub open spec fn path_view(path: Seq<TypeLoc>) -> Seq<TypeLocView> {
    Seq::new(path.len(), |i: int| path[i]@)
}

/// A copy of a path.
pub fn clone_path(path: &Vec<TypeLoc>) -> (out: Vec<TypeLoc>)
    ensures
        path_view(out@) == path_view(path@),
{
    let mut out: Vec<TypeLoc> = Vec::with_capacity(path.len());
    let mut i: usize = 0;
    while i < path.len()
        invariant
            i <= path.len(),
            out@.len() == i,
            forall|j: int| 0 <= j < i ==> out@[j]@ == path@[j]@,
        decreases path.len() - i,
    {
        out.push(path[i].clone());
        i += 1;
    }
    assert(path_view(out@) =~= path_view(path@));
    out
}

impl View for ConstraintProblem {
    type V = ConstraintProblemView;

    open spec fn view(&self) -> ConstraintProblemView {
        match *self {
            ConstraintProblem::AlreadyBound { name, old, new } => {
                ConstraintProblemView::AlreadyBound { name: name@, old: old@, new: new@ }
            },
            ConstraintProblem::InfiniteType(name, ty) => ConstraintProblemView::InfiniteType(
                name@,
                ty@,
            ),
            ConstraintProblem::RebindUndefined(name) => ConstraintProblemView::RebindUndefined(
                name@,
            ),
            ConstraintProblem::Incompatible(left, right) => ConstraintProblemView::Incompatible(
                left@,
                right@,
            ),
            ConstraintProblem::BlockArity { expected, actual } => {
                ConstraintProblemView::BlockArity { expected, actual }
            },
            ConstraintProblem::FieldMissing(name) => ConstraintProblemView::FieldMissing(name@),
            ConstraintProblem::FieldOptional(name) => ConstraintProblemView::FieldOptional(name@),
        }
    }
}

impl View for Problem {
    type V = ProblemView;

    open spec fn view(&self) -> ProblemView {
        match *self {
            Problem::UnknownFunction => ProblemView::UnknownFunction,
            Problem::UnknownKeyword(name) => ProblemView::UnknownKeyword(name@),
            Problem::Constraint(path, problem) => ProblemView::Constraint(
                path_view(path@),
                problem@,
            ),
        }
    }
}

impl View for TypeError {
    type V = TypeErrorView;

    open spec fn view(&self) -> TypeErrorView {
        TypeErrorView { location: self.location, error: self.error@ }
    }
}

/// The model of a list of errors.
pub open spec fn errors_view(errors: Seq<TypeError>) -> Seq<TypeErrorView> {
    Seq::new(errors.len(), |i: int| errors[i]@)
}

impl Problem {
    /// The error that says that this problem was found at `location`.
    pub fn at(self, location: NodeData) -> (error: TypeError)
        ensures
            error.location == location,
            error.error == self,
    {
        TypeError { location, error: self }
    }
}

} // verus!
