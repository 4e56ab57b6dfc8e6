//! Verified core of the TeFi oracle contracts.
use vstd::prelude::*;

pub mod errors;
pub mod keys;
pub mod store;
pub mod priority;
pub mod decimal;
pub mod proxy;
pub mod hub;
pub mod proxy_band;
pub mod proxy_chainlink;
pub mod proxy_feed;
pub mod proxy_template;
pub mod proxy_candle;

verus! {

} // verus!
