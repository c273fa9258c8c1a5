//! What the machine asks of the host's values.
use super::Block;
use crate::with_error::WithError;
use vstd::prelude::*;

verus! {

/// What a list value offers.
pub trait List<V>: Sized {
    fn len(&self) -> usize;

    fn at(&self, idx: usize) -> Option<V>;
}

/// What a record value offers.
pub trait Record<V>: Sized {
    fn at(&self, key: &str) -> Option<V>;
}

/// The values that programs compute with, as the host represents them.
///
/// The core computes nothing with numbers: it hands the host the text of a number
/// literal, and asks of a value only whether it is a number.
pub trait Value: Sized + Clone + WithError {
    type List: List<Self>;

    type Record: Record<Self>;

    fn from_bool(b: bool) -> Self;

    fn from_string(s: String) -> Self;

    fn from_time(t: u64) -> Self;

    /// The number that the literal denotes.
    fn from_number(literal: &str) -> Self;

    fn from_list(items: Vec<Self>) -> Self;

    fn from_record(fields: Vec<(String, Self)>) -> Self;

    fn from_block(block: Block) -> Self;

    fn try_bool(&self) -> Result<bool, Self::Error>;

    fn try_string(&self) -> Result<&str, Self::Error>;

    /// Whether the value is a number; the error says that it is not.
    fn try_number(&self) -> Result<(), Self::Error>;

    fn try_time(&self) -> Result<u64, Self::Error>;

    fn try_list(&self) -> Result<Self::List, Self::Error>;

    fn try_record(&self) -> Result<Self::Record, Self::Error>;

    fn try_block(&self) -> Result<Block, Self::Error>;

    /// Whether the value is a block.
    fn callable(&self) -> bool;
}

} // verus!
