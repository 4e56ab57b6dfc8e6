use std::collections::HashMap;

use cosmwasm_std::testing::{mock_env, MockApi};
use cosmwasm_std::Api;
use tefi_oracle::decimal::Decimal;
use tefi_oracle::errors::{ContractError, StdError};
use tefi_oracle::hub::contract::{execute_addresses, HubQueryAnswer};
use tefi_oracle::hub::msg::{
    AllSourcesResponse, AssetSymbolMapResponse, ConfigResponse, HubExecuteMsg as ExecuteMsg,
    HubQueryMsg as QueryMsg, InstantiateMsg, PriceResponse, ProxyWhitelistResponse,
    SourcesResponse,
};
use tefi_oracle::hub::query::PriceStep;
use tefi_oracle::hub::state::Hub;
use tefi_oracle::proxy::{ProxyBaseQuery, ProxyPriceResponse, ProxyQueryMsg};

const OWNER_ADDR: &str = "owner_0001";
const PROXY_ADDR_1: &str = "proxy_0001";
const PROXY_ADDR_2: &str = "proxy_0002";

/// The host's verdict on an address, as the mock environment gives it.
fn check_addr(addr: &str) -> Result<(), StdError> {
    match MockApi::default().addr_validate(addr) {
        Ok(_) => Ok(()),
        Err(e) => Err(StdError::GenericErr { msg: e.to_string() }),
    }
}

/// Proxies that answer a price query with a fixed price per symbol, updated at
/// second 1000, and fail for other symbols.
#[derive(Default)]
struct MockProxies {
    oracle_price: HashMap<String, Decimal>,
}

impl MockProxies {
    fn with_proxy_price(&mut self, proxy_prices: &[(&String, &Decimal)]) {
        self.oracle_price = proxy_prices.iter().map(|(s, p)| ((*s).clone(), **p)).collect();
    }

    fn handle_query(&self, msg: &ProxyBaseQuery) -> Option<ProxyPriceResponse> {
        let ProxyBaseQuery::Base(ProxyQueryMsg::Price { symbol }) = msg;
        self.oracle_price
            .get(symbol)
            .map(|price| ProxyPriceResponse { rate: *price, last_updated: 1000u64 })
    }
}

struct Deps {
    hub: Option<Hub>,
    querier: MockProxies,
}

fn mock_dependencies() -> Deps {
    Deps { hub: None, querier: MockProxies::default() }
}

fn execute(deps: &mut Deps, sender: &str, msg: ExecuteMsg) -> Result<(), ContractError> {
    let checks = execute_addresses(&msg).iter().map(|a| check_addr(a)).collect();
    deps.hub.as_mut().unwrap().execute(&sender.to_string(), msg, checks)
}

#[derive(Debug, PartialEq)]
enum Answer {
    Config(ConfigResponse),
    Whitelist(ProxyWhitelistResponse),
    Sources(SourcesResponse),
    AllSources(AllSourcesResponse),
    AssetSymbolMap(AssetSymbolMapResponse),
    Price(PriceResponse),
}

fn query(deps: &Deps, msg: QueryMsg) -> Result<Answer, ContractError> {
    let now = mock_env().block.time.nanos();
    let hub = deps.hub.as_ref().unwrap();
    match hub.query(now, msg)? {
        HubQueryAnswer::Config(c) => Ok(Answer::Config(c)),
        HubQueryAnswer::ProxyWhitelist(w) => Ok(Answer::Whitelist(w)),
        HubQueryAnswer::Sources(s) => Ok(Answer::Sources(s)),
        HubQueryAnswer::AllSources(a) => Ok(Answer::AllSources(a)),
        HubQueryAnswer::AssetSymbolMap(m) => Ok(Answer::AssetSymbolMap(m)),
        HubQueryAnswer::Price(mut search) => loop {
            match search.next_step() {
                PriceStep::Query { msg, .. } => {
                    let answer = deps.querier.handle_query(&msg);
                    search.record(answer);
                }
                PriceStep::Done(r) => return r.map(Answer::Price),
            }
        },
        HubQueryAnswer::PriceList(_) => panic!("price lists are not queried here"),
    }
}

// helper to successfully init
fn init(deps: &mut Deps) {
    let msg = InstantiateMsg {
        owner: OWNER_ADDR.to_string(),
        base_denom: "uusd".to_string(),
        max_proxies_per_symbol: 10u8,
    };
    deps.hub = Some(Hub::instantiate(msg, check_addr(OWNER_ADDR)).unwrap());
}

// helper to whitelist a proxy
fn whitelist_proxy(deps: &mut Deps, proxy_addr: &str) -> Result<(), ContractError> {
    let msg = ExecuteMsg::WhitelistProxy { proxy_addr: proxy_addr.to_string() };
    execute(deps, OWNER_ADDR, msg)
}

// helper to register source
fn register_source(
    deps: &mut Deps,
    symbol: &str,
    proxy_addr: &str,
    priority: Option<u8>,
) -> Result<(), ContractError> {
    let msg = ExecuteMsg::RegisterSource {
        proxy_addr: proxy_addr.to_string(),
        symbol: symbol.to_string(),
        priority,
    };
    execute(deps, OWNER_ADDR, msg)
}

fn sources_of(deps: &Deps, symbol: &str) -> SourcesResponse {
    match query(deps, QueryMsg::SourcesBySymbol { symbol: symbol.to_string() }).unwrap() {
        Answer::Sources(s) => s,
        other => panic!("unexpected answer {:?}", other),
    }
}

#[test]
fn proper_initialization() {
    let mut deps = mock_dependencies();
    init(&mut deps);

    let res = query(&deps, QueryMsg::Config {}).unwrap();
    assert_eq!(
        res,
        Answer::Config(ConfigResponse {
            owner: OWNER_ADDR.to_string(),
            base_denom: "uusd".to_string(),
            max_proxies_per_symbol: 10u8,
        })
    );
}

#[test]
fn test_update_owner() {
    let mut deps = mock_dependencies();
    init(&mut deps);

    let msg = ExecuteMsg::UpdateOwner { owner: "newowner0000".to_string() };

    // unauthorized attempt
    let err = execute(&mut deps, "notowner0000", msg.clone()).unwrap_err();
    assert_eq!(err, ContractError::Unauthorized {});

    execute(&mut deps, OWNER_ADDR, msg).unwrap();

    let res = query(&deps, QueryMsg::Config {}).unwrap();
    assert_eq!(
        res,
        Answer::Config(ConfigResponse {
            owner: "newowner0000".to_string(),
            base_denom: "uusd".to_string(),
            max_proxies_per_symbol: 10u8,
        })
    );
}

#[test]
fn test_update_max_proxies() {
    let mut deps = mock_dependencies();
    init(&mut deps);

    let msg = ExecuteMsg::UpdateMaxProxies { max_proxies_per_symbol: 20u8 };

    // unauthorized attempt
    let err = execute(&mut deps, "notowner0000", msg.clone()).unwrap_err();
    assert_eq!(err, ContractError::Unauthorized {});

    execute(&mut deps, OWNER_ADDR, msg).unwrap();

    let res = query(&deps, QueryMsg::Config {}).unwrap();
    assert_eq!(
        res,
        Answer::Config(ConfigResponse {
            owner: OWNER_ADDR.to_string(),
            base_denom: "uusd".to_string(),
            max_proxies_per_symbol: 20u8, // updated
        })
    );
}

#[test]
fn test_whitelist_proxy() {
    let mut deps = mock_dependencies();
    init(&mut deps);

    let msg = ExecuteMsg::WhitelistProxy { proxy_addr: PROXY_ADDR_1.to_string() };

    // unauthorized attempt
    let err = execute(&mut deps, "notowner0000", msg.clone()).unwrap_err();
    assert_eq!(err, ContractError::Unauthorized {});

    execute(&mut deps, OWNER_ADDR, msg).unwrap();

    let res = query(&deps, QueryMsg::ProxyWhitelist {}).unwrap();
    assert_eq!(
        res,
        Answer::Whitelist(ProxyWhitelistResponse { proxies: vec![PROXY_ADDR_1.to_string()] })
    );

    // add another one
    whitelist_proxy(&mut deps, PROXY_ADDR_2).unwrap();

    let res = query(&deps, QueryMsg::ProxyWhitelist {}).unwrap();
    assert_eq!(
        res,
        Answer::Whitelist(ProxyWhitelistResponse {
            proxies: vec![PROXY_ADDR_1.to_string(), PROXY_ADDR_2.to_string()]
        })
    );
}

#[test]
fn test_remove_proxy() {
    let mut deps = mock_dependencies();
    init(&mut deps);

    whitelist_proxy(&mut deps, PROXY_ADDR_1).unwrap();
    whitelist_proxy(&mut deps, PROXY_ADDR_2).unwrap();

    let msg = ExecuteMsg::RemoveProxy { proxy_addr: PROXY_ADDR_2.to_string() };

    // unauthorized attempt
    let err = execute(&mut deps, "notowner0000", msg.clone()).unwrap_err();
    assert_eq!(err, ContractError::Unauthorized {});

    execute(&mut deps, OWNER_ADDR, msg).unwrap();

    let res = query(&deps, QueryMsg::ProxyWhitelist {}).unwrap();
    assert_eq!(
        res,
        Answer::Whitelist(ProxyWhitelistResponse {
            proxies: vec![
                PROXY_ADDR_1.to_string() // only proxy 1 should remain
            ]
        })
    );

    // attempt to remove one that does not exist
    let msg = ExecuteMsg::RemoveProxy { proxy_addr: "xxxx".to_string() };
    let err = execute(&mut deps, OWNER_ADDR, msg).unwrap_err();
    assert_eq!(err, ContractError::ProxyNotWhitelisted {});
}

#[test]
fn test_register_source() {
    let mut deps = mock_dependencies();
    init(&mut deps);

    let msg = ExecuteMsg::RegisterSource {
        symbol: "TSLA".to_string(),
        proxy_addr: PROXY_ADDR_1.to_string(),
        priority: Some(2u8),
    };

    // unauthorized attempt
    let err = execute(&mut deps, "notowner0000", msg.clone()).unwrap_err();
    assert_eq!(err, ContractError::Unauthorized {});

    // attempt to register non whitelisted proxy
    let err = execute(&mut deps, OWNER_ADDR, msg.clone()).unwrap_err();
    assert_eq!(err, ContractError::ProxyNotWhitelisted {});

    // whitelist the proxy
    whitelist_proxy(&mut deps, PROXY_ADDR_1).unwrap();
    whitelist_proxy(&mut deps, PROXY_ADDR_2).unwrap();

    // successful attempt
    execute(&mut deps, OWNER_ADDR, msg.clone()).unwrap();

    let res = query(&deps, QueryMsg::AllSources { start_after: None, limit: None }).unwrap();
    assert_eq!(
        res,
        Answer::AllSources(AllSourcesResponse {
            list: vec![SourcesResponse {
                symbol: "TSLA".to_string(),
                proxies: vec![(2u8, PROXY_ADDR_1.to_string())]
            }]
        })
    );

    // if we register same proxy again, graceful return
    execute(&mut deps, OWNER_ADDR, msg).unwrap();

    // register one more source for tsla
    let msg = ExecuteMsg::RegisterSource {
        symbol: "TSLA".to_string(),
        proxy_addr: PROXY_ADDR_2.to_string(),
        priority: Some(1u8),
    };
    execute(&mut deps, OWNER_ADDR, msg).unwrap();
    let res = query(&deps, QueryMsg::AllSources { start_after: None, limit: None }).unwrap();
    assert_eq!(
        res,
        Answer::AllSources(AllSourcesResponse {
            list: vec![SourcesResponse {
                symbol: "TSLA".to_string(),
                proxies: vec![
                    (1u8, PROXY_ADDR_2.to_string()), // new proxy has higher priority
                    (2u8, PROXY_ADDR_1.to_string())
                ]
            }]
        })
    );

    // try query by symbol
    assert_eq!(
        sources_of(&deps, "TSLA"),
        SourcesResponse {
            symbol: "TSLA".to_string(),
            proxies: vec![
                (1u8, PROXY_ADDR_2.to_string()), // new proxy has higher priority
                (2u8, PROXY_ADDR_1.to_string())
            ]
        }
    );
}

#[test]
fn test_remove_source() {
    let mut deps = mock_dependencies();
    init(&mut deps);

    whitelist_proxy(&mut deps, PROXY_ADDR_1).unwrap();
    whitelist_proxy(&mut deps, PROXY_ADDR_2).unwrap();

    register_source(&mut deps, "TSLA", PROXY_ADDR_2, None).unwrap();
    register_source(&mut deps, "TSLA", PROXY_ADDR_1, None).unwrap();

    let msg = ExecuteMsg::RemoveSource {
        symbol: "TSLA".to_string(),
        proxy_addr: PROXY_ADDR_1.to_string(),
    };

    // unauthorized attempt
    let err = execute(&mut deps, "notowner0000", msg.clone()).unwrap_err();
    assert_eq!(err, ContractError::Unauthorized {});

    execute(&mut deps, OWNER_ADDR, msg).unwrap();

    assert_eq!(
        sources_of(&deps, "TSLA"),
        SourcesResponse {
            symbol: "TSLA".to_string(),
            proxies: vec![
                (10u8, PROXY_ADDR_2.to_string()), // only proxy 2 remains
            ]
        }
    );

    // attempt to remove proxy that does not exist
    let msg = ExecuteMsg::RemoveSource {
        symbol: "TSLA".to_string(),
        proxy_addr: "asdfadsf".to_string(),
    };
    let err = execute(&mut deps, OWNER_ADDR, msg).unwrap_err();
    assert_eq!(err, ContractError::ProxyNotRegistered {});

    // attempt to remove symbol that does not exist
    let msg = ExecuteMsg::RemoveSource {
        symbol: "TSLAasdfadsf".to_string(),
        proxy_addr: PROXY_ADDR_2.to_string(),
    };
    let err = execute(&mut deps, OWNER_ADDR, msg).unwrap_err();
    assert_eq!(err, ContractError::SymbolNotRegistered {});
}

#[test]
fn test_update_priority() {
    let mut deps = mock_dependencies();
    init(&mut deps);

    whitelist_proxy(&mut deps, PROXY_ADDR_1).unwrap();
    whitelist_proxy(&mut deps, PROXY_ADDR_2).unwrap();

    register_source(&mut deps, "TSLA", PROXY_ADDR_2, None).unwrap();
    register_source(&mut deps, "TSLA", PROXY_ADDR_1, None).unwrap();

    // check initial state
    assert_eq!(
        sources_of(&deps, "TSLA"),
        SourcesResponse {
            symbol: "TSLA".to_string(),
            proxies: vec![(10u8, PROXY_ADDR_2.to_string()), (10u8, PROXY_ADDR_1.to_string())]
        }
    );

    let msg = ExecuteMsg::UpdateSourcePriorityList {
        symbol: "TSLA".to_string(),
        priority_list: vec![(PROXY_ADDR_1.to_string(), 2), (PROXY_ADDR_2.to_string(), 3)],
    };

    // unauthorized attempt
    let err = execute(&mut deps, "notowner0000", msg.clone()).unwrap_err();
    assert_eq!(err, ContractError::Unauthorized {});

    // successful attempt
    execute(&mut deps, OWNER_ADDR, msg).unwrap();

    assert_eq!(
        sources_of(&deps, "TSLA"),
        SourcesResponse {
            symbol: "TSLA".to_string(),
            proxies: vec![(2u8, PROXY_ADDR_1.to_string()), (3u8, PROXY_ADDR_2.to_string())]
        }
    );

    // try to update not registered symbol
    let msg = ExecuteMsg::UpdateSourcePriorityList {
        symbol: "TSLAssssss".to_string(),
        priority_list: vec![(PROXY_ADDR_1.to_string(), 2), (PROXY_ADDR_2.to_string(), 3)],
    };
    let err = execute(&mut deps, OWNER_ADDR, msg).unwrap_err();
    assert_eq!(err, ContractError::SymbolNotRegistered {});

    // try to update not registered proxy
    let msg = ExecuteMsg::UpdateSourcePriorityList {
        symbol: "TSLA".to_string(),
        priority_list: vec![(PROXY_ADDR_1.to_string(), 2), ("notaproxy123123".to_string(), 3)],
    };
    let err = execute(&mut deps, OWNER_ADDR, msg).unwrap_err();
    assert_eq!(err, ContractError::ProxyNotRegistered {});
}

#[test]
fn test_symbol_map() {
    let mut deps = mock_dependencies();
    init(&mut deps);

    whitelist_proxy(&mut deps, PROXY_ADDR_1).unwrap();
    register_source(&mut deps, "TSLA", PROXY_ADDR_1, None).unwrap();

    let msg = ExecuteMsg::InsertAssetSymbolMap {
        map: vec![
            ("tsla0000".to_string(), "TSLA".to_string()),
            ("aapl0000".to_string(), "AAPL".to_string()),
        ],
    };

    // unauthorized attempt
    let err = execute(&mut deps, "notowner0000", msg.clone()).unwrap_err();
    assert_eq!(err, ContractError::Unauthorized {});

    // successful attempt
    execute(&mut deps, OWNER_ADDR, msg).unwrap();

    let res = query(&deps, QueryMsg::AssetSymbolMap { start_after: None, limit: None }).unwrap();
    assert_eq!(
        res,
        Answer::AssetSymbolMap(AssetSymbolMapResponse {
            map: vec![
                ("aapl0000".to_string(), "AAPL".to_string()),
                ("tsla0000".to_string(), "TSLA".to_string()),
            ]
        })
    );

    // try to add a new one, and override existing
    let msg = ExecuteMsg::InsertAssetSymbolMap {
        map: vec![
            ("aapl0000".to_string(), "AAPL2".to_string()), // update existing one
            ("amzon0000".to_string(), "AMZN".to_string()), // new one
        ],
    };
    execute(&mut deps, OWNER_ADDR, msg).unwrap();

    let res = query(&deps, QueryMsg::AssetSymbolMap { start_after: None, limit: None }).unwrap();
    assert_eq!(
        res,
        Answer::AssetSymbolMap(AssetSymbolMapResponse {
            map: vec![
                ("aapl0000".to_string(), "AAPL2".to_string()), // updated
                ("amzon0000".to_string(), "AMZN".to_string()), // new one
                ("tsla0000".to_string(), "TSLA".to_string()),
            ]
        })
    );

    // test that now we can query by asset token
    let res = query(&deps, QueryMsg::Sources { asset_token: "tsla0000".to_string() }).unwrap();
    assert_eq!(
        res,
        Answer::Sources(SourcesResponse {
            symbol: "TSLA".to_string(),
            proxies: vec![(10u8, PROXY_ADDR_1.to_string()),]
        })
    );

    deps.querier.with_proxy_price(&[(&"TSLA".to_string(), &Decimal::one())]);

    let res = query(
        &deps,
        QueryMsg::Price { asset_token: "tsla0000".to_string(), timeframe: None },
    )
    .unwrap();
    assert_eq!(
        res,
        Answer::Price(PriceResponse { rate: Decimal::one(), last_updated: 1000u64 })
    );

    // try to query asset that is not mapped
    let err = query(
        &deps,
        QueryMsg::Price { asset_token: "random0000".to_string(), timeframe: None },
    )
    .unwrap_err();
    assert_eq!(err, ContractError::MappingNotFound {});
}

#[test]
fn test_query_pagination() {
    let mut deps = mock_dependencies();
    init(&mut deps);

    whitelist_proxy(&mut deps, PROXY_ADDR_1).unwrap();
    whitelist_proxy(&mut deps, PROXY_ADDR_2).unwrap();

    register_source(&mut deps, "TSLA", PROXY_ADDR_1, None).unwrap();
    register_source(&mut deps, "AAPL", PROXY_ADDR_2, None).unwrap();
    register_source(&mut deps, "AMZN", PROXY_ADDR_1, None).unwrap();

    // without pagination
    let res = query(&deps, QueryMsg::AllSources { start_after: None, limit: None }).unwrap();
    assert_eq!(
        res,
        Answer::AllSources(AllSourcesResponse {
            list: vec![
                SourcesResponse {
                    symbol: "AAPL".to_string(),
                    proxies: vec![(10u8, PROXY_ADDR_2.to_string())]
                },
                SourcesResponse {
                    symbol: "AMZN".to_string(),
                    proxies: vec![(10u8, PROXY_ADDR_1.to_string())]
                },
                SourcesResponse {
                    symbol: "TSLA".to_string(),
                    proxies: vec![(10u8, PROXY_ADDR_1.to_string())]
                }
            ]
        })
    );

    // with pagination
    let res = query(&deps, QueryMsg::AllSources { start_after: None, limit: Some(1u32) }).unwrap();
    assert_eq!(
        res,
        Answer::AllSources(AllSourcesResponse {
            list: vec![SourcesResponse {
                symbol: "AAPL".to_string(),
                proxies: vec![(10u8, PROXY_ADDR_2.to_string())]
            },]
        })
    );
    let res = query(
        &deps,
        QueryMsg::AllSources { start_after: Some("AAPL".to_string()), limit: Some(1u32) },
    )
    .unwrap();
    assert_eq!(
        res,
        Answer::AllSources(AllSourcesResponse {
            list: vec![SourcesResponse {
                symbol: "AMZN".to_string(),
                proxies: vec![(10u8, PROXY_ADDR_1.to_string())]
            },]
        })
    );

    // register mapping
    let msg = ExecuteMsg::InsertAssetSymbolMap {
        map: vec![
            ("tsla0000".to_string(), "TSLA".to_string()),
            ("aapl0000".to_string(), "AAPL".to_string()),
            ("amzn0000".to_string(), "AMZN".to_string()),
        ],
    };
    execute(&mut deps, OWNER_ADDR, msg).unwrap();

    let res = query(&deps, QueryMsg::AssetSymbolMap { start_after: None, limit: Some(1u32) })
        .unwrap();
    assert_eq!(
        res,
        Answer::AssetSymbolMap(AssetSymbolMapResponse {
            map: vec![("aapl0000".to_string(), "AAPL".to_string()),]
        })
    );
    let res = query(
        &deps,
        QueryMsg::AssetSymbolMap { start_after: Some("aapl0000".to_string()), limit: Some(1u32) },
    )
    .unwrap();
    assert_eq!(
        res,
        Answer::AssetSymbolMap(AssetSymbolMapResponse {
            map: vec![("amzn0000".to_string(), "AMZN".to_string()),]
        })
    );
    let res = query(
        &deps,
        QueryMsg::AssetSymbolMap { start_after: Some("aapl0000".to_string()), limit: None },
    )
    .unwrap();
    assert_eq!(
        res,
        Answer::AssetSymbolMap(AssetSymbolMapResponse {
            map: vec![
                ("amzn0000".to_string(), "AMZN".to_string()),
                ("tsla0000".to_string(), "TSLA".to_string()),
            ]
        })
    );
}
