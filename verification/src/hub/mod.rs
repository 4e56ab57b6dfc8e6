//! The oracle hub: the central price source, which keeps for each symbol a
//! priority list of whitelisted proxies and answers with the first available price.
pub mod msg;
pub mod state;
pub mod handle;
pub mod query;
pub mod contract;
pub mod laws;
