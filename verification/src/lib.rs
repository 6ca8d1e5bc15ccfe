//! A transactional key-value storage layer that emulates relational
//! table, column and secondary-index semantics on top of raw ordered
//! byte-string stores.
//!
//! The crate is organised leaves-first:
//!
//! * [`bytes`] — lexicographic order and prefix algebra on byte strings;
//! * [`keyspace`] — composable byte-prefix namespaces;
//! * [`tuple`] — the stable primary-key tuple encoding;
//! * [`error`] — the error taxonomy;
//! * [`values`] — column-value serialization;
//! * [`transaction`] — the backend transaction interface;
//! * [`store`] — an in-memory store implementing that interface;
//! * [`table`] — table schemas and the on-disk key layout;
//! * [`index`] — unique and multi-valued secondary-index maintenance;
//! * [`codec`] — whole-row and single-column reads and writes;
//! * [`laws`] — the laws relating the codec's operations;
//! * [`retry`] — the bounded optimistic-concurrency retry protocol;
//! * [`connect`] — connection configuration and lifecycle rules;
//! * [`client_kdf`] — client key-derivation parameters carried as
//!   column values.

pub mod bytes;
pub mod client_kdf;
pub mod codec;
pub mod connect;
pub mod error;
pub mod index;
pub mod keyspace;
pub mod laws;
pub mod retry;
pub mod store;
pub mod table;
pub mod transaction;
pub mod tuple;
pub mod values;

use vstd::prelude::*;

verus! {

/// The flag value a freshly constructed, not yet persisted row carries.
pub fn unsaved_bool() -> (b: bool)
    ensures
        b == false,
{
    false
}

} // verus!
