//! Rainbow: a small embedded expression language for formulas that users write
//! inside a host application.
//!
//! The crate turns source text into a syntax tree, infers types for the
//! expression and for its free variables, lowers the tree to a linear
//! instruction vector, and runs that vector against a namespace of host
//! functions.
pub mod arena;
pub mod text;

pub use crate::arena::{Arena, ArenaId, Internable};
pub mod typing;
pub mod frontend;
pub mod interpreter;
pub mod primitive;
pub mod signature;

pub use crate::primitive::Prim;
pub mod apply;
pub mod with_error;

pub use crate::apply::Apply;
pub use crate::with_error::WithError;
pub mod function_builder;
pub mod namespace;

pub use crate::namespace::{INamespace, Namespace};
pub mod scope;
pub use crate::scope::{Scope, ScopeId};
