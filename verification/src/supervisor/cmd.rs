//! What the supervisor is told to do from outside.

use crate::config::ChainConfig;
use crate::identifier::ChainId;
use crate::supervisor::dump_state::SupervisorState;
use crossbeam_channel::Sender;
use vstd::prelude::*;

verus! {

/// A change of the chains that are served.
#[derive(Clone, Debug, PartialEq, Eq)]
pub enum ConfigUpdate {
    /// Serve one more chain.
    Add(ChainConfig),
    /// Serve a chain no longer.
    Remove(ChainId),
    /// Serve a chain with a new configuration.
    Update(ChainConfig),
}

/// A command to the supervisor.
pub enum SupervisorCmd {
    UpdateConfig(ConfigUpdate),
    /// Send what the supervisor holds through the sender.
    DumpState(Sender<SupervisorState>),
    /// Answer through the sender and stop.
    Stop(Sender<()>),
}

/// What a command did to the configuration.
#[derive(Clone, Copy, Debug, PartialEq, Eq, Structural)]
pub enum CmdEffect {
    /// The chains served have changed: the subscriptions are made anew.
    ConfigChanged,
    Nothing,
}

impl CmdEffect {
    pub open spec fn spec_or(self, other: CmdEffect) -> CmdEffect {
        if self == CmdEffect::ConfigChanged || other == CmdEffect::ConfigChanged {
            CmdEffect::ConfigChanged
        } else {
            CmdEffect::Nothing
        }
    }

    /// The effect of two commands together: a change where either made one.
    #[verifier::when_used_as_spec(spec_or)]
    pub fn or(self, other: CmdEffect) -> (r: CmdEffect)
        ensures
            r == self.spec_or(other),
    {
        match (self, other) {
            (CmdEffect::ConfigChanged, _) => CmdEffect::ConfigChanged,
            (_, CmdEffect::ConfigChanged) => CmdEffect::ConfigChanged,
            _ => CmdEffect::Nothing,
        }
    }
}

} // verus!
