//! What comes in from the REST server.

use crate::supervisor::dump_state::SupervisorState;
use crossbeam_channel::Sender;
use vstd::prelude::*;

verus! {

/// A request that the supervisor answers.
pub enum Command {
    /// Send what the supervisor holds through the sender.
    DumpState(Sender<SupervisorState>),
}

/// The receiving end of the requests.
pub type RequestReceiver = crossbeam_channel::Receiver<Command>;

} // verus!
