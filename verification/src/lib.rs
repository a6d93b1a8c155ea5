//! Cache store for an HTTP caching middleware: a policy-enforcing key-value
//! cache with tag-based bulk invalidation, specified and verified against a
//! model of the remote backend's command semantics.

use vstd::prelude::*;

pub mod backend;
pub mod config;
pub mod defaults;
pub mod laws;
pub mod reader;
pub mod store;
pub mod text;

verus! {

/// Smaller of two naturals; used for TTL capping.
pub open spec fn min_nat(a: nat, b: nat) -> nat {
    if a <= b {
        a
    } else {
        b
    }
}

} // verus!
