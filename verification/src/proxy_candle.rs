//! The messages of the proxy for Candle price sources.
use vstd::prelude::*;
use crate::decimal::Decimal;
use crate::proxy::ProxyQueryMsg;

verus! {

#[derive(Debug, Clone, PartialEq, Eq)]
pub struct InstantiateMsg {
    pub source_addr: String,
}

#[derive(Debug, Clone, PartialEq, Eq)]
pub struct ConfigResponse {
    pub source_addr: String,
}

#[derive(Debug, Clone, PartialEq, Eq)]
pub enum QueryMsg {
    Base(ProxyQueryMsg),
    Config {},
}

/// The query a Candle source answers.
#[derive(Debug, Clone, PartialEq, Eq)]
pub enum CandleQuery {
    Price { denom: String },
}

/// A Candle source's answer.
#[derive(Debug, Clone, Copy, PartialEq, Eq, Structural)]
pub struct CandleResponse {
    pub rate: Decimal,
    pub last_updated_timestamp: u64,
}

} // verus!
