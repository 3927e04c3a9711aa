//! A verified ranking store: many users each submit a ranked list of songs
//! (ten slots); songs are deduplicated into a shared catalog keyed by
//! (name, artist); submissions replace a user's slots atomically; and the
//! store aggregates all rankings into one global popularity ordering.

pub mod order;
pub mod types;
pub mod model;
pub mod invariants;
pub mod store;
pub mod aggregate;
pub mod search;
pub mod laws;
pub mod auth;
