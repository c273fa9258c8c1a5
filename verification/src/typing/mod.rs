//! The Rainbow type system.
//!
//! Primitive types satisfy only themselves. A list type is satisfied by a list type
//! whose element type satisfies its own. A record type is satisfied by a record type
//! that has each of its required fields, not optional, with a type that satisfies. A
//! block type is satisfied by a block type that takes at most as many inputs, each of
//! which satisfies, and whose output satisfies.
pub mod checker;
pub mod constraint_generator;
pub mod constraint_solver;
pub mod display;
pub mod satisfy;
pub mod substitution;
pub mod type_env;
pub mod type_errors;
pub mod types;

pub use self::checker::{type_of, TypeCheckerResult};
pub use self::constraint_generator::Constraint;
pub use self::substitution::{extend_vars, Subst, Substitutable};
pub use self::type_env::{FreshVarSupply, Scheme, TypeEnv};
pub use self::type_errors::{ConstraintProblem, Loc, Problem, TypeError, TypeLoc};
pub use self::types::{FieldTy, RecordField, Ty, Type};
