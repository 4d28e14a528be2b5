//! What the supervisor holds, for those who ask.

use crate::identifier::ChainId;
use crate::object::Object;
use vstd::prelude::*;

verus! {

/// The chains that have a handle and the objects that have a worker, each in
/// the order in which they were started.
#[derive(Clone, Debug, PartialEq, Eq)]
pub struct SupervisorState {
    pub chains: Vec<ChainId>,
    pub workers: Vec<Object>,
}

impl SupervisorState {
    pub fn new(chains: Vec<ChainId>, workers: Vec<Object>) -> (r: Self)
        ensures
            r.chains == chains,
            r.workers == workers,
    {
        SupervisorState { chains, workers }
    }
}

} // verus!
