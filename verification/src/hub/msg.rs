//! Messages and responses of the oracle hub.
use vstd::prelude::*;
use crate::decimal::Decimal;
use crate::proxy::ProxyPriceResponse;

verus! {

/// The priority a proxy gets when none is given.
pub const DEFAULT_PRIORITY: u8 = 10u8;

/// The most proxies the whitelist can hold.
pub const MAX_WHITELISTED_PROXIES: u8 = 30u8;

/// Instantiates the hub.
#[derive(Debug, Clone, PartialEq, Eq)]
pub struct InstantiateMsg {
    pub owner: String,
    pub base_denom: String,
    pub max_proxies_per_symbol: u8,
}

/// The operations of the hub that change its state.
#[derive(Debug, Clone, PartialEq, Eq)]
pub enum HubExecuteMsg {
    /// Owner operation to update the owner parameter
    UpdateOwner { owner: String },
    /// Owner operation to update the maximum number of proxies per symbol
    UpdateMaxProxies { max_proxies_per_symbol: u8 },
    /// Registers a new source for a symbol
    RegisterSource { symbol: String, proxy_addr: String, priority: Option<u8> },
    /// Registers a list of sources
    BulkRegisterSource { sources: Vec<(String, String, Option<u8>)> },
    /// Updates the priorities for proxies registered
    UpdateSourcePriorityList { symbol: String, priority_list: Vec<(String, u8)> },
    /// Removes an already whitelisted proxy
    RemoveSource { symbol: String, proxy_addr: String },
    /// Whitelists a new proxy in hub. After a proxy is whitelisted
    /// it can be registered as a source
    WhitelistProxy { proxy_addr: String },
    /// Removes a proxy from the whitelist
    RemoveProxy { proxy_addr: String },
    /// Updates the map of `asset_token` to `symbol`
    InsertAssetSymbolMap { map: Vec<(String, String)> },
}

/// The queries of the hub.
#[derive(Debug, Clone, PartialEq, Eq)]
pub enum HubQueryMsg {
    /// Queries contract configuration
    Config {},
    /// Queries the information of all whitelisted proxies
    ProxyWhitelist {},
    /// Queries the registered proxies for an asset token
    Sources { asset_token: String },
    /// Queries the registered proxies for a symbol
    SourcesBySymbol { symbol: String },
    /// Queries the highest priority available price within the timeframe
    Price { asset_token: String, timeframe: Option<u64> },
    /// Queries the highest priority available price within the timeframe, by symbol
    PriceBySymbol { symbol: String, timeframe: Option<u64> },
    /// Queries all registered proxy prices for an asset token
    PriceList { asset_token: String },
    /// Queries all registered proxy prices for a symbol
    PriceListBySymbol { symbol: String },
    /// Queries the map of asset tokens to symbols
    AssetSymbolMap { start_after: Option<String>, limit: Option<u32> },
    /// Queries the sources of all symbols
    AllSources { start_after: Option<String>, limit: Option<u32> },
}

#[derive(Debug, Clone, PartialEq, Eq)]
pub struct ConfigResponse {
    pub owner: String,
    pub base_denom: String,
    pub max_proxies_per_symbol: u8,
}

#[derive(Debug, Clone, PartialEq, Eq)]
pub struct ProxyWhitelistResponse {
    pub proxies: Vec<String>,
}

#[derive(Debug, Clone, PartialEq, Eq)]
pub struct ProxyInfoResponse {
    pub address: String,
    pub provider_name: String,
}

#[derive(Debug, Clone, PartialEq, Eq)]
pub struct SourcesResponse {
    pub symbol: String,
    pub proxies: Vec<(u8, String)>,
}

#[derive(Debug, Clone, PartialEq, Eq)]
pub struct AllSourcesResponse {
    pub list: Vec<SourcesResponse>,
}

#[derive(Debug, Clone, PartialEq, Eq)]
pub struct AssetSymbolMapResponse {
    pub map: Vec<(String, String)>,
}

#[derive(Debug, Clone, Copy, PartialEq, Eq, Structural, Default)]
pub struct PriceResponse {
    pub rate: Decimal,
    pub last_updated: u64,
}

/// The answer of one proxy in a price list.
#[derive(Debug, Clone, Copy, PartialEq, Eq, Structural)]
pub enum PriceQueryResult {
    Success(PriceResponse),
    Fail,
}

#[derive(Debug, Clone, PartialEq, Eq)]
pub struct PriceListResponse {
    pub price_list: Vec<(u8, PriceQueryResult)>,
}

impl PriceResponse {
    /// The hub's price response carrying a proxy's answer.
    pub fn from_proxy(p: ProxyPriceResponse) -> (r: PriceResponse)
        ensures
            r.rate == p.rate,
            r.last_updated == p.last_updated,
    {
        PriceResponse { rate: p.rate, last_updated: p.last_updated }
    }
}

} // verus!
