//! What the relayer asks of a chain.

pub mod counterparty;
pub mod handle;
pub mod msgs;
pub mod requests;
pub mod state;
