//! Local persistence and credential core of a desktop shell: a secret
//! vault keyed by identity over the platform credential store (with an
//! in-memory reference backend), and a local relational cache with
//! referential integrity, derived aggregates and forward-only idempotent
//! schema migrations.

use vstd::prelude::*;

pub mod cache;
pub mod keychain;
pub mod migrate;
pub mod vault;

verus! {

/// Reply given to a liveness probe from the dispatch layer.
pub fn ping() -> (r: &'static str)
    ensures
        r@ == "pong"@,
{
    "pong"
}

} // verus!
