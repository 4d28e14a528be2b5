//! Supervisor and channel-handshake core of an inter-chain relayer.

pub mod chain;
pub mod channel;
pub mod config;
pub mod connection;
pub mod error;
pub mod event;
pub mod identifier;
pub mod object;
pub mod registry;
pub mod rest;
pub mod supervisor;
pub mod util;
pub mod worker;
