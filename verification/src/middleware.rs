//! The request hook that keeps games alive while they are used.
use vstd::prelude::*;

verus! {

/// The hook run on every request: it records the time on the game that the
/// request names, through `Game::update_timestamp`.
pub struct PingFairing;

} // verus!
