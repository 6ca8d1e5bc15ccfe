//! Client key-derivation parameters.
//!
//! A column-value record of the key-derivation function a client uses;
//! the storage layer carries it as an opaque pair of typed columns and
//! only the defaults are decided here.

use vstd::prelude::*;

verus! {

/// The key-derivation function a client runs, with its parameters.
#[derive(Clone, Copy, PartialEq, Eq, Structural, Debug)]
pub enum ClientKdf {
    /// PBKDF2, with 600 000 to 2 000 000 iterations.
    Pkbdf2 {
        /// The iteration count.
        iterations: u32,
    },
    /// Argon2id, with bounded iteration, memory and lane parameters.
    Argon2id {
        /// From 2 to 10 iterations.
        iterations: u8,
        /// Memory in megabytes, from 16 to 1024.
        memory: u16,
        /// From 1 to 16 lanes.
        parallelism: u8,
    },
}

impl Default for ClientKdf {
    /// The default client KDF: PBKDF2 at the minimum accepted iteration
    /// count.
    fn default() -> (r: Self)
        ensures
            r == (ClientKdf::Pkbdf2 { iterations: 600000u32 }),
    {
        ClientKdf::Pkbdf2 { iterations: 600000 }
    }
}

} // verus!
