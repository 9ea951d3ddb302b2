//! An in-memory key/value store with expiring keys, a journal to rebuild it
//! from, and a command line to drive it.
//!
//! [`protocol`] takes a request line apart and runs it on a [`Store`];
//! [`model`] says what each command does; [`laws`] holds what follows.

use vstd::prelude::*;

pub mod aof;
pub mod clock;
pub mod decimal;
pub mod error;
pub mod keyspace;
pub mod laws;
pub mod model;
pub mod protocol;
pub mod store;
pub mod text;
pub mod types;

pub use error::{RedisError, Response};
pub use store::Store;
pub use types::{Entry, RedisValue};

verus! {

} // verus!
