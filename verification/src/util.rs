//! Helpers that are not bound to one part of the relayer.

pub mod channel;
pub mod retry;
