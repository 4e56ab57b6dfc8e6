use cosmwasm_std::testing::{mock_env, MockApi};
use cosmwasm_std::Api;
use tefi_oracle::decimal::Decimal;
use tefi_oracle::errors::{ContractError, StdError};
use tefi_oracle::hub::contract::{execute_addresses, HubQueryAnswer};
use tefi_oracle::hub::msg::{
    HubExecuteMsg as ExecuteMsg, HubQueryMsg as QueryMsg, InstantiateMsg, PriceQueryResult,
    PriceResponse, SourcesResponse, MAX_WHITELISTED_PROXIES,
};
use tefi_oracle::hub::query::PriceStep;
use tefi_oracle::hub::state::Hub;
use tefi_oracle::proxy::{ProxyBaseQuery, ProxyPriceResponse, ProxyQueryMsg};

const OWNER: &str = "owner_0001";

fn check_addr(addr: &str) -> Result<(), StdError> {
    match MockApi::default().addr_validate(addr) {
        Ok(_) => Ok(()),
        Err(e) => Err(StdError::GenericErr { msg: e.to_string() }),
    }
}

fn hub(max_proxies: u8) -> Hub {
    let msg = InstantiateMsg {
        owner: OWNER.to_string(),
        base_denom: "uusd".to_string(),
        max_proxies_per_symbol: max_proxies,
    };
    Hub::instantiate(msg, check_addr(OWNER)).unwrap()
}

fn run(hub: &mut Hub, sender: &str, msg: ExecuteMsg) -> Result<(), ContractError> {
    let checks = execute_addresses(&msg).iter().map(|a| check_addr(a)).collect();
    hub.execute(&sender.to_string(), msg, checks)
}

fn whitelist(hub: &mut Hub, proxy: &str) {
    run(hub, OWNER, ExecuteMsg::WhitelistProxy { proxy_addr: proxy.to_string() }).unwrap();
}

fn register(hub: &mut Hub, symbol: &str, proxy: &str, priority: Option<u8>) -> Result<(), ContractError> {
    run(
        hub,
        OWNER,
        ExecuteMsg::RegisterSource {
            symbol: symbol.to_string(),
            proxy_addr: proxy.to_string(),
            priority,
        },
    )
}

fn sources(hub: &Hub, symbol: &str) -> Result<SourcesResponse, ContractError> {
    hub.query_sources(None, Some(symbol.to_string()))
}

fn now() -> u64 {
    mock_env().block.time.nanos()
}

/// Runs a price search, answering each proxy with `answer(proxy)`, and returns
/// the proxies asked in order with the result.
fn search(
    hub: &Hub,
    symbol: &str,
    timeframe: Option<u64>,
    answer: &dyn Fn(&str) -> Option<ProxyPriceResponse>,
) -> (Vec<String>, Result<PriceResponse, ContractError>) {
    let q = QueryMsg::PriceBySymbol { symbol: symbol.to_string(), timeframe };
    let mut asked = vec![];
    match hub.query(now(), q) {
        Ok(HubQueryAnswer::Price(mut s)) => loop {
            match s.next_step() {
                PriceStep::Query { proxy_addr, msg } => {
                    assert_eq!(
                        msg,
                        ProxyBaseQuery::Base(ProxyQueryMsg::Price { symbol: symbol.to_string() })
                    );
                    let a = answer(&proxy_addr);
                    asked.push(proxy_addr);
                    s.record(a);
                }
                PriceStep::Done(r) => return (asked, r),
            }
        },
        Ok(_) => panic!("not a price search"),
        Err(e) => (asked, Err(e)),
    }
}

fn price(rate: u128, last_updated: u64) -> ProxyPriceResponse {
    ProxyPriceResponse { rate: Decimal::raw(rate), last_updated }
}

fn two_sources() -> Hub {
    let mut h = hub(10);
    whitelist(&mut h, "proxy_0001");
    whitelist(&mut h, "proxy_0002");
    register(&mut h, "TSLA", "proxy_0002", Some(5)).unwrap();
    register(&mut h, "TSLA", "proxy_0001", Some(1)).unwrap();
    h
}

#[test]
fn price_comes_from_highest_priority_answering_proxy() {
    let h = two_sources();
    let (asked, r) = search(&h, "TSLA", None, &|p| {
        if p == "proxy_0001" {
            None
        } else {
            Some(price(7, 1000))
        }
    });
    assert_eq!(asked, vec!["proxy_0001".to_string(), "proxy_0002".to_string()]);
    assert_eq!(r, Ok(PriceResponse { rate: Decimal::raw(7), last_updated: 1000 }));

    let (asked, r) = search(&h, "TSLA", None, &|_| Some(price(3, 5)));
    assert_eq!(asked, vec!["proxy_0001".to_string()]);
    assert_eq!(r, Ok(PriceResponse { rate: Decimal::raw(3), last_updated: 5 }));
}

#[test]
fn price_not_available_when_no_proxy_answers() {
    let h = two_sources();
    let (asked, r) = search(&h, "TSLA", None, &|_| None);
    assert_eq!(asked.len(), 2);
    assert_eq!(r, Err(ContractError::PriceNotAvailable));
    let (asked, r) = search(&h, "AAPL", None, &|_| None);
    assert!(asked.is_empty());
    assert_eq!(r, Err(ContractError::SymbolNotRegistered));
}

#[test]
fn price_timeframe_skips_old_answers() {
    let h = two_sources();
    let secs = now() / 1_000_000_000;
    // the threshold is the block time less the timeframe, in whole seconds
    let just_fresh = secs - 1000;
    let (_, r) = search(&h, "TSLA", Some(just_fresh), &|_| Some(price(1, 1000)));
    assert_eq!(r, Ok(PriceResponse { rate: Decimal::raw(1), last_updated: 1000 }));
    let (asked, r) = search(&h, "TSLA", Some(just_fresh - 1), &|_| Some(price(1, 1000)));
    assert_eq!(asked.len(), 2);
    assert_eq!(r, Err(ContractError::PriceNotAvailable));
    // an old answer of the first proxy is passed over for a fresh one of the second
    let (_, r) = search(&h, "TSLA", Some(60), &|p| {
        if p == "proxy_0001" {
            Some(price(1, 1000))
        } else {
            Some(price(2, secs))
        }
    });
    assert_eq!(r, Ok(PriceResponse { rate: Decimal::raw(2), last_updated: secs }));
}

#[test]
fn price_list_asks_every_proxy() {
    let h = two_sources();
    let req = match h.query(now(), QueryMsg::PriceListBySymbol { symbol: "TSLA".to_string() }) {
        Ok(HubQueryAnswer::PriceList(req)) => req,
        _ => panic!("not a price list"),
    };
    assert_eq!(
        req.proxy_query(),
        ProxyBaseQuery::Base(ProxyQueryMsg::Price { symbol: "TSLA".to_string() })
    );
    assert_eq!(req.proxies, vec![(1u8, "proxy_0001".to_string()), (5u8, "proxy_0002".to_string())]);
    let list = req.finish(&vec![None, Some(price(9, 77))]);
    assert_eq!(
        list.price_list,
        vec![
            (1u8, PriceQueryResult::Fail),
            (5u8, PriceQueryResult::Success(PriceResponse { rate: Decimal::raw(9), last_updated: 77 })),
        ]
    );
}

#[test]
fn sources_are_kept_in_priority_order() {
    let mut h = hub(10);
    for p in ["proxy_0001", "proxy_0002", "proxy_0003"] {
        whitelist(&mut h, p);
    }
    register(&mut h, "TSLA", "proxy_0001", None).unwrap();
    register(&mut h, "TSLA", "proxy_0002", Some(3)).unwrap();
    register(&mut h, "TSLA", "proxy_0003", Some(10)).unwrap();
    // registering again changes nothing
    register(&mut h, "TSLA", "proxy_0002", Some(1)).unwrap();
    assert_eq!(
        sources(&h, "TSLA").unwrap().proxies,
        vec![
            (3u8, "proxy_0002".to_string()),
            (10u8, "proxy_0001".to_string()),
            (10u8, "proxy_0003".to_string()),
        ]
    );
}

#[test]
fn too_many_proxies_for_symbol() {
    let mut h = hub(10);
    whitelist(&mut h, "proxy_0001");
    whitelist(&mut h, "proxy_0002");
    run(&mut h, OWNER, ExecuteMsg::UpdateMaxProxies { max_proxies_per_symbol: 1 }).unwrap();
    register(&mut h, "TSLA", "proxy_0001", None).unwrap();
    assert_eq!(
        register(&mut h, "TSLA", "proxy_0002", None),
        Err(ContractError::TooManyProxiesForSymbol { max: 1 })
    );
}

#[test]
fn too_many_whitelisted_proxies() {
    let mut h = hub(10);
    for i in 0..MAX_WHITELISTED_PROXIES {
        whitelist(&mut h, &format!("proxy_{:04}", i));
    }
    let r = run(&mut h, OWNER, ExecuteMsg::WhitelistProxy { proxy_addr: "proxy_9999".to_string() });
    assert_eq!(r, Err(ContractError::TooManyWhitelistedProxies { max: MAX_WHITELISTED_PROXIES }));
    assert_eq!(h.query_proxy_whitelist().unwrap().proxies.len(), MAX_WHITELISTED_PROXIES as usize);
}

#[test]
fn removed_proxy_cannot_be_registered() {
    let mut h = hub(10);
    whitelist(&mut h, "proxy_0001");
    run(&mut h, OWNER, ExecuteMsg::RemoveProxy { proxy_addr: "proxy_0001".to_string() }).unwrap();
    assert!(h.query_proxy_whitelist().unwrap().proxies.is_empty());
    assert_eq!(register(&mut h, "TSLA", "proxy_0001", None), Err(ContractError::ProxyNotWhitelisted));
    let r = run(&mut h, OWNER, ExecuteMsg::RemoveProxy { proxy_addr: "proxy_0001".to_string() });
    assert_eq!(r, Err(ContractError::ProxyNotWhitelisted));
}

#[test]
fn bulk_register_stops_at_first_error() {
    let mut h = hub(10);
    whitelist(&mut h, "proxy_0001");
    let msg = ExecuteMsg::BulkRegisterSource {
        sources: vec![
            ("TSLA".to_string(), "proxy_0001".to_string(), None),
            ("AAPL".to_string(), "proxy_0001".to_string(), Some(2)),
            ("AMZN".to_string(), "proxy_0002".to_string(), None),
            ("MSFT".to_string(), "proxy_0001".to_string(), None),
        ],
    };
    assert_eq!(run(&mut h, OWNER, msg), Err(ContractError::ProxyNotWhitelisted));
    // the items before the failing one stay written (the host discards them)
    assert_eq!(sources(&h, "TSLA").unwrap().proxies, vec![(10u8, "proxy_0001".to_string())]);
    assert_eq!(sources(&h, "AAPL").unwrap().proxies, vec![(2u8, "proxy_0001".to_string())]);
    assert_eq!(sources(&h, "AMZN"), Err(ContractError::SymbolNotRegistered));
    assert_eq!(sources(&h, "MSFT"), Err(ContractError::SymbolNotRegistered));

    let msg = ExecuteMsg::BulkRegisterSource {
        sources: vec![
            ("AMZN".to_string(), "proxy_0001".to_string(), None),
            ("MSFT".to_string(), "proxy_0001".to_string(), Some(3)),
        ],
    };
    run(&mut h, OWNER, msg).unwrap();
    assert_eq!(sources(&h, "MSFT").unwrap().proxies, vec![(3u8, "proxy_0001".to_string())]);
    assert_eq!(sources(&h, "AMZN").unwrap().proxies, vec![(10u8, "proxy_0001".to_string())]);
}

#[test]
fn bulk_register_writes_items_before_failure() {
    let mut h = hub(10);
    whitelist(&mut h, "proxy_0001");
    whitelist(&mut h, "proxy_0002");
    register(&mut h, "TSLA", "proxy_0001", Some(4)).unwrap();
    let msg = ExecuteMsg::BulkRegisterSource {
        sources: vec![
            ("TSLA".to_string(), "proxy_0002".to_string(), Some(1)),
            ("TSLA".to_string(), "ab".to_string(), None),
        ],
    };
    let r = run(&mut h, OWNER, msg);
    assert!(matches!(r, Err(ContractError::Std(_))));
    assert_eq!(
        sources(&h, "TSLA").unwrap().proxies,
        vec![(1u8, "proxy_0002".to_string()), (4u8, "proxy_0001".to_string())]
    );
}

#[test]
fn priority_update_rules() {
    let mut h = two_sources();
    let update = |list: Vec<(&str, u8)>| ExecuteMsg::UpdateSourcePriorityList {
        symbol: "TSLA".to_string(),
        priority_list: list.into_iter().map(|(a, p)| (a.to_string(), p)).collect(),
    };
    assert_eq!(
        run(&mut h, OWNER, update(vec![("proxy_0001", 1), ("proxy_0001", 2)])),
        Err(ContractError::InvalidPriorities)
    );
    assert_eq!(
        run(&mut h, OWNER, update(vec![("proxy_0009", 1)])),
        Err(ContractError::ProxyNotRegistered)
    );
    assert_eq!(
        run(&mut h, "notowner0000", update(vec![("proxy_0001", 1)])),
        Err(ContractError::Unauthorized)
    );
    run(&mut h, OWNER, update(vec![("proxy_0001", 9), ("proxy_0002", 2)])).unwrap();
    assert_eq!(
        sources(&h, "TSLA").unwrap().proxies,
        vec![(2u8, "proxy_0002".to_string()), (9u8, "proxy_0001".to_string())]
    );
}

#[test]
fn asset_symbol_map_last_entry_wins() {
    let mut h = hub(10);
    let msg = ExecuteMsg::InsertAssetSymbolMap {
        map: vec![
            ("token0001".to_string(), "AAA".to_string()),
            ("token0001".to_string(), "BBB".to_string()),
        ],
    };
    run(&mut h, OWNER, msg).unwrap();
    let m = h.query_asset_symbol_map(None, None).unwrap();
    assert_eq!(m.map, vec![("token0001".to_string(), "BBB".to_string())]);
}

#[test]
fn pagination_limits() {
    let mut h = hub(10);
    let map: Vec<(String, String)> =
        (0..40).map(|i| (format!("token{:04}", i), format!("SYM{}", i))).collect();
    run(&mut h, OWNER, ExecuteMsg::InsertAssetSymbolMap { map }).unwrap();
    assert_eq!(h.query_asset_symbol_map(None, None).unwrap().map.len(), 10);
    assert_eq!(h.query_asset_symbol_map(None, Some(100)).unwrap().map.len(), 30);
    let last = h.query_asset_symbol_map(Some("token0035".to_string()), Some(100)).unwrap();
    assert_eq!(last.map.len(), 4);
    assert_eq!(last.map[0].0, "token0036");
}

#[test]
fn symbol_or_asset_must_be_given() {
    let h = hub(10);
    assert_eq!(
        h.query_sources(None, None),
        Err(ContractError::Std(StdError::GenericErr {
            msg: "symbol or asset_token must be provided".to_string()
        }))
    );
    assert_eq!(h.query_sources(Some("token".to_string()), None), Err(ContractError::MappingNotFound));
}

#[test]
fn remove_source_errors() {
    let mut h = two_sources();
    let rm = |s: &str, p: &str| ExecuteMsg::RemoveSource {
        symbol: s.to_string(),
        proxy_addr: p.to_string(),
    };
    assert_eq!(run(&mut h, OWNER, rm("AAPL", "proxy_0001")), Err(ContractError::SymbolNotRegistered));
    assert_eq!(run(&mut h, OWNER, rm("TSLA", "proxy_0003")), Err(ContractError::ProxyNotRegistered));
    run(&mut h, OWNER, rm("TSLA", "proxy_0001")).unwrap();
    assert_eq!(sources(&h, "TSLA").unwrap().proxies, vec![(5u8, "proxy_0002".to_string())]);
}

#[test]
fn register_then_remove_restores_priority_list() {
    let mut h = two_sources();
    whitelist(&mut h, "proxy_0003");
    let before = sources(&h, "TSLA").unwrap();
    register(&mut h, "TSLA", "proxy_0003", Some(5)).unwrap();
    assert_eq!(
        sources(&h, "TSLA").unwrap().proxies,
        vec![
            (1u8, "proxy_0001".to_string()),
            (5u8, "proxy_0002".to_string()),
            (5u8, "proxy_0003".to_string()),
        ]
    );
    let msg = ExecuteMsg::RemoveSource {
        symbol: "TSLA".to_string(),
        proxy_addr: "proxy_0003".to_string(),
    };
    run(&mut h, OWNER, msg).unwrap();
    assert_eq!(sources(&h, "TSLA").unwrap(), before);
}

#[test]
fn consecutive_pages_join() {
    let mut h = hub(10);
    whitelist(&mut h, "proxy_0001");
    for s in ["TSLA", "AAPL", "AMZN", "MSFT"] {
        register(&mut h, s, "proxy_0001", None).unwrap();
    }
    let all: Vec<String> =
        h.query_all_sources(None, None).unwrap().list.into_iter().map(|r| r.symbol).collect();
    let first = h.query_all_sources(None, Some(2)).unwrap().list;
    let last = first.last().unwrap().symbol.clone();
    let second = h.query_all_sources(Some(last), Some(1)).unwrap().list;
    let joined: Vec<String> = first.into_iter().chain(second).map(|r| r.symbol).collect();
    assert_eq!(joined, all[..3].to_vec());
    assert_eq!(joined, vec!["AAPL".to_string(), "AMZN".to_string(), "MSFT".to_string()]);
}

#[test]
fn wider_timeframe_keeps_price() {
    let h = two_sources();
    let secs = now() / 1_000_000_000;
    let answer = |p: &str| {
        if p == "proxy_0001" {
            Some(price(1, secs - 100))
        } else {
            Some(price(2, secs - 10))
        }
    };
    let (_, narrow) = search(&h, "TSLA", Some(50), &answer);
    assert_eq!(narrow, Ok(PriceResponse { rate: Decimal::raw(2), last_updated: secs - 10 }));
    let (_, wide) = search(&h, "TSLA", Some(500), &answer);
    assert_eq!(wide, Ok(PriceResponse { rate: Decimal::raw(1), last_updated: secs - 100 }));
    let (_, none) = search(&h, "TSLA", None, &answer);
    assert_eq!(none, wide);
}
