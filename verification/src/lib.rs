//! Records multiplayer tabletop game sessions: who played, which commander
//! decks they brought, and how they placed.
//!
//! The heart of the crate is the ranking validator, which decides whether a
//! submitted game result is internally consistent, together with the models
//! of the persistence write path, the player directory, the commander
//! catalog refresh pipeline, and the read-side aggregator that rebuilds
//! nested game views from normalized rows.

#![verifier::loop_isolation(false)]

pub mod aggregate;
pub mod catalog;
pub mod directory;
pub mod messages;
pub mod snapshot;
pub mod store;
pub mod validate;
pub mod wire;

use vstd::prelude::*;

verus! {

/// Compares a caller-supplied bearer token against the expected secret.
pub fn token_matches(provided: &String, expected: &String) -> (r: bool)
    ensures
        r == (provided@ == expected@),
{
    *provided == *expected
}

} // verus!
