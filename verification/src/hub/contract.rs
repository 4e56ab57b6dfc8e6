//! The hub's entry points: instantiation, the dispatch of operations and the
//! dispatch of queries.
use vstd::prelude::*;
use crate::errors::ContractError;
use crate::hub::handle::{
    bulk_items_view, bulk_register_source_after, bulk_register_source_spec,
    insert_asset_symbol_map_spec, result_of,
    pairs_view, priority_list_view, register_source_spec, remove_proxy_spec,
    remove_source_spec, update_max_proxies_spec, update_owner_spec, update_priority_spec,
    whitelist_proxy_spec, AddrCheck,
};
use crate::hub::msg::{
    AllSourcesResponse, AssetSymbolMapResponse, ConfigResponse, HubExecuteMsg, HubQueryMsg,
    InstantiateMsg, ProxyWhitelistResponse, SourcesResponse,
};
use crate::hub::query::{
    all_sources_ok, opt_view, page_limit, price_list_query_ok, price_query_ok,
    sources_query_ok, string_entries_view, PriceListRequest, PriceSearch,
};
use crate::hub::state::{
    addresses_view, Addr, Config, Hub, HubView, ProxyWhitelist, Sources,
};
use crate::store::{page, KeyedStore};

verus! {

/// The addresses of an operation that the host must validate, in order.
pub open spec fn msg_addresses(msg: HubExecuteMsg) -> Seq<Seq<char>> {
    match msg {
        HubExecuteMsg::UpdateOwner { owner } => seq![owner@],
        HubExecuteMsg::UpdateMaxProxies { .. } => Seq::empty(),
        HubExecuteMsg::RegisterSource { proxy_addr, .. } => seq![proxy_addr@],
        HubExecuteMsg::BulkRegisterSource { sources } => Seq::new(
            sources@.len(),
            |i: int| sources@[i].1@,
        ),
        HubExecuteMsg::UpdateSourcePriorityList { priority_list, .. } => Seq::new(
            priority_list@.len(),
            |i: int| priority_list@[i].0@,
        ),
        HubExecuteMsg::RemoveSource { proxy_addr, .. } => seq![proxy_addr@],
        HubExecuteMsg::WhitelistProxy { proxy_addr } => seq![proxy_addr@],
        HubExecuteMsg::RemoveProxy { proxy_addr } => seq![proxy_addr@],
        HubExecuteMsg::InsertAssetSymbolMap { .. } => Seq::empty(),
    }
}

/// What an operation does, given the host's verdicts on its addresses.
pub open spec fn execute_spec(
    v: HubView,
    sender: Seq<char>,
    msg: HubExecuteMsg,
    checks: Seq<AddrCheck>,
) -> Result<HubView, ContractError> {
    match msg {
        HubExecuteMsg::UpdateOwner { owner } => update_owner_spec(v, sender, owner@, checks[0]),
        HubExecuteMsg::UpdateMaxProxies { max_proxies_per_symbol } => update_max_proxies_spec(
            v,
            sender,
            max_proxies_per_symbol,
        ),
        HubExecuteMsg::RegisterSource { symbol, proxy_addr, priority } => register_source_spec(
            v,
            sender,
            symbol@,
            proxy_addr@,
            checks[0],
            priority,
        ),
        HubExecuteMsg::BulkRegisterSource { sources } => bulk_register_source_spec(
            v,
            sender,
            bulk_items_view(sources@, checks),
        ),
        HubExecuteMsg::UpdateSourcePriorityList { symbol, priority_list } => update_priority_spec(
            v,
            sender,
            symbol@,
            priority_list_view(priority_list@),
            checks,
        ),
        HubExecuteMsg::RemoveSource { symbol, proxy_addr } => remove_source_spec(
            v,
            sender,
            symbol@,
            proxy_addr@,
            checks[0],
        ),
        HubExecuteMsg::WhitelistProxy { proxy_addr } => whitelist_proxy_spec(
            v,
            sender,
            proxy_addr@,
            checks[0],
        ),
        HubExecuteMsg::RemoveProxy { proxy_addr } => remove_proxy_spec(
            v,
            sender,
            proxy_addr@,
            checks[0],
        ),
        HubExecuteMsg::InsertAssetSymbolMap { map } => insert_asset_symbol_map_spec(
            v,
            sender,
            pairs_view(map@),
        ),
    }
}

/// The state after an operation: the state its specification gives, or, when it
/// fails, the state as it was; except that a bulk registration that fails keeps
/// the sources registered before the failing item (the host discards the writes
/// of a failed operation).
pub open spec fn execute_after(
    v: HubView,
    sender: Seq<char>,
    msg: HubExecuteMsg,
    checks: Seq<AddrCheck>,
) -> HubView {
    match msg {
        HubExecuteMsg::BulkRegisterSource { sources } => bulk_register_source_after(
            v,
            sender,
            bulk_items_view(sources@, checks),
        ),
        _ => match execute_spec(v, sender, msg, checks) {
            Ok(w) => w,
            Err(_) => v,
        },
    }
}

/// The state of a new hub: the configuration of the message, no whitelisted
/// proxy, no source and no asset token.
pub open spec fn initial_view(msg: InstantiateMsg) -> HubView {
    HubView {
        owner: msg.owner@,
        base_denom: msg.base_denom@,
        max_proxies_per_symbol: msg.max_proxies_per_symbol,
        whitelist: Seq::empty(),
        sources: Map::empty(),
        asset_symbols: Map::empty(),
    }
}

/// The answer to a query.
pub enum HubQueryAnswer {
    Config(ConfigResponse),
    ProxyWhitelist(ProxyWhitelistResponse),
    Sources(SourcesResponse),
    AllSources(AllSourcesResponse),
    AssetSymbolMap(AssetSymbolMapResponse),
    /// to be completed by asking the proxies
    Price(PriceSearch),
    /// to be completed by asking the proxies
    PriceList(PriceListRequest),
}

/// The sources answer within a query result.
pub open spec fn sources_answer(r: Result<HubQueryAnswer, ContractError>) -> Result<
    SourcesResponse,
    ContractError,
> {
    match r {
        Ok(HubQueryAnswer::Sources(s)) => Ok(s),
        Ok(_) => Err(ContractError::Unauthorized),
        Err(e) => Err(e),
    }
}

/// The price search within a query result.
pub open spec fn price_answer(r: Result<HubQueryAnswer, ContractError>) -> Result<
    PriceSearch,
    ContractError,
> {
    match r {
        Ok(HubQueryAnswer::Price(s)) => Ok(s),
        Ok(_) => Err(ContractError::Unauthorized),
        Err(e) => Err(e),
    }
}

/// The price list request within a query result.
pub open spec fn price_list_answer(r: Result<HubQueryAnswer, ContractError>) -> Result<
    PriceListRequest,
    ContractError,
> {
    match r {
        Ok(HubQueryAnswer::PriceList(s)) => Ok(s),
        Ok(_) => Err(ContractError::Unauthorized),
        Err(e) => Err(e),
    }
}

/// What a query answers.
pub open spec fn query_ok(
    hub: Hub,
    block_time_nanos: u64,
    msg: HubQueryMsg,
    r: Result<HubQueryAnswer, ContractError>,
) -> bool {
    let v = hub@;
    match msg {
        HubQueryMsg::Config {  } => r matches Ok(HubQueryAnswer::Config(c)) && c.owner@ == v.owner
            && c.base_denom@ == v.base_denom && c.max_proxies_per_symbol
            == v.max_proxies_per_symbol,
        HubQueryMsg::ProxyWhitelist {  } => r matches Ok(HubQueryAnswer::ProxyWhitelist(w))
            && addresses_view(w.proxies@) == v.whitelist,
        HubQueryMsg::Sources { asset_token } => (r is Err || r matches Ok(
            HubQueryAnswer::Sources(_),
        )) && sources_query_ok(v, Some(asset_token@), None, sources_answer(r)),
        HubQueryMsg::SourcesBySymbol { symbol } => (r is Err || r matches Ok(
            HubQueryAnswer::Sources(_),
        )) && sources_query_ok(v, None, Some(symbol@), sources_answer(r)),
        HubQueryMsg::Price { asset_token, timeframe } => (r is Err || r matches Ok(
            HubQueryAnswer::Price(_),
        )) && price_query_ok(
            v,
            Some(asset_token@),
            None,
            block_time_nanos,
            timeframe,
            price_answer(r),
        ),
        HubQueryMsg::PriceBySymbol { symbol, timeframe } => (r is Err || r matches Ok(
            HubQueryAnswer::Price(_),
        )) && price_query_ok(v, None, Some(symbol@), block_time_nanos, timeframe, price_answer(r)),
        HubQueryMsg::PriceList { asset_token } => (r is Err || r matches Ok(
            HubQueryAnswer::PriceList(_),
        )) && price_list_query_ok(v, Some(asset_token@), None, price_list_answer(r)),
        HubQueryMsg::PriceListBySymbol { symbol } => (r is Err || r matches Ok(
            HubQueryAnswer::PriceList(_),
        )) && price_list_query_ok(v, None, Some(symbol@), price_list_answer(r)),
        HubQueryMsg::AssetSymbolMap { start_after, limit } => r matches Ok(
            HubQueryAnswer::AssetSymbolMap(m),
        ) && pairs_view(m.map@) == string_entries_view(
            page(hub.asset_symbol_map@, opt_view(start_after), page_limit(limit)),
        ),
        HubQueryMsg::AllSources { start_after, limit } => r matches Ok(
            HubQueryAnswer::AllSources(a),
        ) && all_sources_ok(hub.sources@, opt_view(start_after), limit, a),
    }
}

/// The timeframe of a price query fits the block time.
pub open spec fn timeframe_fits(block_time_nanos: u64, msg: HubQueryMsg) -> bool {
    match msg {
        HubQueryMsg::Price { timeframe: Some(t), .. } => t * 1_000_000_000 <= block_time_nanos,
        HubQueryMsg::PriceBySymbol { timeframe: Some(t), .. } => t * 1_000_000_000
            <= block_time_nanos,
        _ => true,
    }
}

/// The addresses of an operation that the host must validate, in order.
pub fn execute_addresses(msg: &HubExecuteMsg) -> (r: Vec<String>)
    ensures
        addresses_view(r@) == msg_addresses(*msg),
{
    let mut r: Vec<String> = Vec::new();
    match msg {
        HubExecuteMsg::UpdateOwner { owner } => {
            r.push(owner.clone());
        },
        HubExecuteMsg::UpdateMaxProxies { .. } => {},
        HubExecuteMsg::RegisterSource { proxy_addr, .. } => {
            r.push(proxy_addr.clone());
        },
        HubExecuteMsg::BulkRegisterSource { sources } => {
            let mut i: usize = 0;
            while i < sources.len()
                invariant
                    i <= sources@.len(),
                    addresses_view(r@) == Seq::new(sources@.len(), |k: int| sources@[k].1@).take(
                        i as int,
                    ),
                decreases sources@.len() - i,
            {
                let ghost before = r@;
                r.push(sources[i].1.clone());
                assert(addresses_view(r@) =~= addresses_view(before).push(sources@[i as int].1@));
                assert(Seq::new(sources@.len(), |k: int| sources@[k].1@).take(i + 1) =~= Seq::new(
                    sources@.len(),
                    |k: int| sources@[k].1@,
                ).take(i as int).push(sources@[i as int].1@));
                i = i + 1;
            }
            assert(Seq::new(sources@.len(), |k: int| sources@[k].1@).take(sources@.len() as int)
                =~= Seq::new(sources@.len(), |k: int| sources@[k].1@));
        },
        HubExecuteMsg::UpdateSourcePriorityList { priority_list, .. } => {
            let mut i: usize = 0;
            while i < priority_list.len()
                invariant
                    i <= priority_list@.len(),
                    addresses_view(r@) == Seq::new(
                        priority_list@.len(),
                        |k: int| priority_list@[k].0@,
                    ).take(i as int),
                decreases priority_list@.len() - i,
            {
                let ghost before = r@;
                r.push(priority_list[i].0.clone());
                assert(addresses_view(r@) =~= addresses_view(before).push(
                    priority_list@[i as int].0@,
                ));
                assert(Seq::new(priority_list@.len(), |k: int| priority_list@[k].0@).take(i + 1)
                    =~= Seq::new(priority_list@.len(), |k: int| priority_list@[k].0@).take(
                    i as int,
                ).push(priority_list@[i as int].0@));
                i = i + 1;
            }
            assert(Seq::new(priority_list@.len(), |k: int| priority_list@[k].0@).take(
                priority_list@.len() as int,
            ) =~= Seq::new(priority_list@.len(), |k: int| priority_list@[k].0@));
        },
        HubExecuteMsg::RemoveSource { proxy_addr, .. } => {
            r.push(proxy_addr.clone());
        },
        HubExecuteMsg::WhitelistProxy { proxy_addr } => {
            r.push(proxy_addr.clone());
        },
        HubExecuteMsg::RemoveProxy { proxy_addr } => {
            r.push(proxy_addr.clone());
        },
        HubExecuteMsg::InsertAssetSymbolMap { .. } => {},
    }
    assert(addresses_view(r@) =~= msg_addresses(*msg));
    r
}

impl Hub {
    /// Instantiates the hub: `owner_check` is the host's verdict on the owner address
    pub fn instantiate(msg: InstantiateMsg, owner_check: AddrCheck) -> (r: Result<
        Hub,
        ContractError,
    >)
        ensures
            owner_check matches Err(e) ==> r == Err::<Hub, ContractError>(ContractError::Std(e)),
            owner_check is Ok ==> (r matches Ok(hub) && hub.wf() && hub@ == initial_view(msg)),
    {
        if let Err(e) = owner_check {
            return Err(ContractError::Std(e));
        }
        let hub = Hub {
            config: Config {
                owner: msg.owner,
                base_denom: msg.base_denom,
                max_proxies_per_symbol: msg.max_proxies_per_symbol,
            },
            whitelist: ProxyWhitelist { proxies: Vec::new() },
            sources: KeyedStore::new(),
            asset_symbol_map: KeyedStore::new(),
        };
        assert(hub@.whitelist =~= Seq::<Seq<char>>::empty());
        assert(hub@.sources =~= Map::<Seq<char>, Seq<(u8, Seq<char>)>>::empty());
        assert(hub@.asset_symbols =~= Map::<Seq<char>, Seq<char>>::empty());
        Ok(hub)
    }

    /// Executes an operation sent by `sender`; `checks` holds the host's verdicts on
    /// the addresses that `execute_addresses` lists for it
    pub fn execute(&mut self, sender: &Addr, msg: HubExecuteMsg, checks: Vec<AddrCheck>) -> (r:
        Result<(), ContractError>)
        requires
            old(self).wf(),
            checks@.len() == msg_addresses(msg).len(),
        ensures
            final(self).wf(),
            r == result_of(execute_spec(old(self)@, sender@, msg, checks@)),
            final(self)@ == execute_after(old(self)@, sender@, msg, checks@),
    {
        let mut checks = checks;
        match msg {
            HubExecuteMsg::UpdateOwner { owner } => {
                let c = checks.remove(0);
                self.update_owner(sender, owner, c)
            },
            HubExecuteMsg::UpdateMaxProxies { max_proxies_per_symbol } => {
                self.update_max_proxies(sender, max_proxies_per_symbol)
            },
            HubExecuteMsg::RegisterSource { symbol, proxy_addr, priority } => {
                let c = checks.remove(0);
                self.register_source(sender, symbol, proxy_addr, c, priority)
            },
            HubExecuteMsg::BulkRegisterSource { sources } => {
                self.bulk_register_source(sender, sources, checks)
            },
            HubExecuteMsg::UpdateSourcePriorityList { symbol, priority_list } => {
                self.update_source_priority_list(sender, symbol, priority_list, checks)
            },
            HubExecuteMsg::RemoveSource { symbol, proxy_addr } => {
                let c = checks.remove(0);
                self.remove_source(sender, symbol, proxy_addr, c)
            },
            HubExecuteMsg::WhitelistProxy { proxy_addr } => {
                let c = checks.remove(0);
                self.whitelist_proxy(sender, proxy_addr, c)
            },
            HubExecuteMsg::RemoveProxy { proxy_addr } => {
                let c = checks.remove(0);
                self.remove_proxy(sender, proxy_addr, c)
            },
            HubExecuteMsg::InsertAssetSymbolMap { map } => {
                self.insert_asset_symbol_map(sender, map)
            },
        }
    }

    /// Answers a query; `block_time_nanos` is the time of the current block
    pub fn query(&self, block_time_nanos: u64, msg: HubQueryMsg) -> (r: Result<
        HubQueryAnswer,
        ContractError,
    >)
        requires
            self.wf(),
            timeframe_fits(block_time_nanos, msg),
        ensures
            query_ok(*self, block_time_nanos, msg, r),
    {
        match msg {
            HubQueryMsg::Config {  } => Ok(HubQueryAnswer::Config(self.query_config()?)),
            HubQueryMsg::ProxyWhitelist {  } => Ok(
                HubQueryAnswer::ProxyWhitelist(self.query_proxy_whitelist()?),
            ),
            HubQueryMsg::Sources { asset_token } => Ok(
                HubQueryAnswer::Sources(self.query_sources(Some(asset_token), None)?),
            ),
            HubQueryMsg::SourcesBySymbol { symbol } => Ok(
                HubQueryAnswer::Sources(self.query_sources(None, Some(symbol))?),
            ),
            HubQueryMsg::Price { asset_token, timeframe } => Ok(
                HubQueryAnswer::Price(
                    self.query_price(block_time_nanos, Some(asset_token), None, timeframe)?,
                ),
            ),
            HubQueryMsg::PriceBySymbol { symbol, timeframe } => Ok(
                HubQueryAnswer::Price(
                    self.query_price(block_time_nanos, None, Some(symbol), timeframe)?,
                ),
            ),
            HubQueryMsg::PriceList { asset_token } => Ok(
                HubQueryAnswer::PriceList(self.query_price_list(Some(asset_token), None)?),
            ),
            HubQueryMsg::PriceListBySymbol { symbol } => Ok(
                HubQueryAnswer::PriceList(self.query_price_list(None, Some(symbol))?),
            ),
            HubQueryMsg::AssetSymbolMap { start_after, limit } => Ok(
                HubQueryAnswer::AssetSymbolMap(self.query_asset_symbol_map(start_after, limit)?),
            ),
            HubQueryMsg::AllSources { start_after, limit } => Ok(
                HubQueryAnswer::AllSources(self.query_all_sources(start_after, limit)?),
            ),
        }
    }
}

} // verus!
