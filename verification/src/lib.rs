//! A small library around a single-table user store: random name
//! generation, stride-based partitioning of a dataset across workers,
//! a model of the table with its uniqueness invariant, and the
//! decision logic of the insertion dispatcher.

pub mod names;
pub mod partition;
pub mod table;
pub mod users;
pub mod workers;

use vstd::prelude::*;

verus! {

/// Length of every generated name, in characters.
pub const NAME_LEN: usize = 15;

/// Number of names in a generated dataset.
pub const DATASET_SIZE: usize = 10000;

/// Default number of insertion workers.
pub const DEFAULT_WORKERS: usize = 4;

} // verus!
