//! The abstraction of command handling.
use vstd::prelude::*;

verus! {

/// Handling of a command: the command is consumed, run against a store and
/// answered with a response.
pub trait CommandService<Store, Response>: Sized {
    /// Runs the command against `store` and returns the response.
    fn execute(self, store: &Store) -> Response;
}

} // verus!
