use std::str::FromStr;

use tefi_oracle::decimal::Decimal;
use tefi_oracle::errors::{ContractError, StdError};
use tefi_oracle::proxy::ProxyQueryMsg;
use tefi_oracle::proxy_band::{self, parse_band, BandMsg, BandProxy, BandQueryAnswer, BandResponse};
use tefi_oracle::proxy_chainlink::{self, parse_chainlink, ChainlinkProxy, RoundDataResponse};
use tefi_oracle::proxy_feed::{self, FeedProxy, FeedQueryAnswer};
use tefi_oracle::proxy_template::{self, TemplateProxy};

fn std_atomics(s: &str) -> u128 {
    cosmwasm_std::Decimal::from_str(s).unwrap().atomics().u128()
}

fn invalid() -> StdError {
    StdError::GenericErr { msg: "Invalid input: human address too short".to_string() }
}

#[test]
fn test_parse_band() {
    let band_res = BandResponse {
        rate: 1082780049999000000000u128,
        last_updated_base: 1637951384,
        last_updated_quote: u64::MAX as u128,
    };
    let parsed = parse_band(band_res);
    assert_eq!(parsed.rate.atomics, std_atomics("1082.780049999000000000"));
    assert_eq!(parsed.last_updated, 1637951384);
}

#[test]
fn test_parse_chainlink() {
    let res = RoundDataResponse {
        round_id: 205531,
        answer: Some(350456000000u128),
        started_at: Some(1637995747),
        updated_at: Some(1637995754),
        answered_in_round: 205531,
    };
    let parsed = parse_chainlink(res).unwrap();
    let expected = cosmwasm_bignumber::Decimal256::from_str("3504.56000000").unwrap();
    assert_eq!(parsed.rate.atomics, u128::from(cosmwasm_bignumber::Uint256(expected.0)));
    assert_eq!(parsed.last_updated, 1637995754);
}

#[test]
fn parse_band_keeps_low_bits_of_timestamp() {
    let res = BandResponse {
        rate: 0,
        last_updated_base: (1u128 << 64) + 7,
        last_updated_quote: 0,
    };
    let parsed = parse_band(res);
    assert_eq!(parsed.rate.atomics, 0);
    assert_eq!(parsed.last_updated, 7);
}

#[test]
fn parse_chainlink_without_answer() {
    let mut res = RoundDataResponse {
        round_id: 1,
        answer: None,
        started_at: Some(1),
        updated_at: Some(2),
        answered_in_round: 1,
    };
    let expected = ContractError::ProxyError { reason: "Source did not return answer".to_string() };
    assert_eq!(parse_chainlink(res).unwrap_err(), expected);
    res.answer = Some(100);
    res.updated_at = None;
    assert_eq!(parse_chainlink(res).unwrap_err(), expected);
}

#[test]
fn parse_chainlink_rounds_to_eight_decimals() {
    let res = RoundDataResponse {
        round_id: 1,
        answer: Some(1),
        started_at: None,
        updated_at: Some(5),
        answered_in_round: 1,
    };
    let parsed = parse_chainlink(res).unwrap();
    assert_eq!(parsed.rate.atomics, std_atomics("0.00000001"));
}

fn band() -> BandProxy {
    BandProxy::instantiate(
        proxy_band::InstantiateMsg {
            owner: "owner0000".to_string(),
            source_addr: "band0000".to_string(),
            quote_symbol: "USD".to_string(),
        },
        Ok(()),
        Ok(()),
    )
    .unwrap()
}

#[test]
fn band_instantiate_and_query() {
    let p = band();
    let c = p.query_config().unwrap();
    assert_eq!(c.owner, "owner0000");
    assert_eq!(c.source_addr, "band0000");
    assert_eq!(c.quote_symbol, "USD");
    let ans = p.query(proxy_band::QueryMsg::Base(ProxyQueryMsg::Price { symbol: "LUNA".to_string() }));
    match ans.unwrap() {
        BandQueryAnswer::Price(req) => {
            assert_eq!(req.source_addr, "band0000");
            assert_eq!(
                req.msg,
                BandMsg::GetReferenceData {
                    base_symbol: "LUNA".to_string(),
                    quote_symbol: "USD".to_string()
                }
            );
        }
        other => panic!("unexpected answer {:?}", other),
    }
}

#[test]
fn band_instantiate_rejects_invalid_address() {
    let msg = proxy_band::InstantiateMsg {
        owner: "o".to_string(),
        source_addr: "s".to_string(),
        quote_symbol: "USD".to_string(),
    };
    let r = BandProxy::instantiate(msg.clone(), Ok(()), Err(invalid()));
    assert_eq!(r.err().unwrap(), ContractError::Std(invalid()));
    let r = BandProxy::instantiate(msg, Err(invalid()), Ok(()));
    assert_eq!(r.err().unwrap(), ContractError::Std(invalid()));
}

#[test]
fn band_update_owner() {
    let mut p = band();
    let r = p.execute(
        &"notowner0000".to_string(),
        proxy_band::ExecuteMsg::UpdateOwner { owner: "x".to_string() },
        Ok(()),
    );
    assert_eq!(r, Err(ContractError::Unauthorized));
    assert_eq!(p.config.owner, "owner0000");
    let r = p.execute(
        &"owner0000".to_string(),
        proxy_band::ExecuteMsg::UpdateOwner { owner: "bad".to_string() },
        Err(invalid()),
    );
    assert_eq!(r, Err(ContractError::Std(invalid())));
    p.update_owner(&"owner0000".to_string(), "newowner0000".to_string(), Ok(())).unwrap();
    assert_eq!(p.query_config().unwrap().owner, "newowner0000");
}

fn chainlink() -> ChainlinkProxy {
    ChainlinkProxy::instantiate(
        proxy_chainlink::InstantiateMsg { owner: "owner0000".to_string() },
        Ok(()),
    )
    .unwrap()
}

#[test]
fn chainlink_sources_lifecycle() {
    let mut p = chainlink();
    let owner = "owner0000".to_string();
    let sources = vec![
        ("TSLA".to_string(), "agg1".to_string()),
        ("AAPL".to_string(), "agg2".to_string()),
        ("TSLA".to_string(), "agg3".to_string()),
    ];
    p.execute(
        &owner,
        proxy_chainlink::ExecuteMsg::SetSources { sources },
        vec![Ok(()), Ok(()), Ok(())],
    )
    .unwrap();
    let all = p.query_sources(None).unwrap();
    assert_eq!(
        all.sources,
        vec![
            ("AAPL".to_string(), "agg2".to_string()),
            ("TSLA".to_string(), "agg3".to_string())
        ]
    );
    let one = p.query_sources(Some("TSLA".to_string())).unwrap();
    assert_eq!(one.sources, vec![("TSLA".to_string(), "agg3".to_string())]);

    let req = p.query_price("AAPL".to_string()).unwrap();
    assert_eq!(req.source_addr, "agg2");
    assert_eq!(
        req.msg.aggregator_query,
        proxy_chainlink::AggregatorQueryMsg::GetLatestRoundData {}
    );

    p.remove_source(&owner, "AAPL".to_string()).unwrap();
    assert!(p.query_sources(Some("AAPL".to_string())).is_err());
    assert!(p.query_price("AAPL".to_string()).is_err());
    // removing a source that is not there changes nothing
    p.remove_source(&owner, "AAPL".to_string()).unwrap();
    assert_eq!(p.query_sources(None).unwrap().sources.len(), 1);
}

#[test]
fn chainlink_set_sources_checks_addresses_and_owner() {
    let mut p = chainlink();
    let sources = vec![
        ("TSLA".to_string(), "agg1".to_string()),
        ("AAPL".to_string(), "x".to_string()),
    ];
    let r = p.set_sources(&"owner0000".to_string(), sources.clone(), vec![Ok(()), Err(invalid())]);
    assert_eq!(r, Err(ContractError::Std(invalid())));
    assert_eq!(p.query_sources(None).unwrap().sources.len(), 0);
    let r = p.set_sources(&"notowner0000".to_string(), sources, vec![Ok(()), Ok(())]);
    assert_eq!(r, Err(ContractError::Unauthorized));
    let r = p.remove_source(&"notowner0000".to_string(), "TSLA".to_string());
    assert_eq!(r, Err(ContractError::Unauthorized));
}

fn feed() -> FeedProxy {
    let mut p =
        FeedProxy::instantiate(proxy_feed::InstantiateMsg { owner: "owner0000".to_string() }, Ok(()))
            .unwrap();
    p.register_feed(
        &"owner0000".to_string(),
        "TSLA".to_string(),
        "feeder0000".to_string(),
        Ok(()),
    )
    .unwrap();
    p
}

#[test]
fn feed_prices_and_query() {
    let mut p = feed();
    let feeder = "feeder0000".to_string();
    let attrs = p
        .execute(
            &feeder,
            1000,
            proxy_feed::ExecuteMsg::FeedPrices {
                prices: vec![("TSLA".to_string(), Decimal::raw(std_atomics("1.5")))],
            },
            vec![],
        )
        .unwrap();
    assert_eq!(
        attrs,
        vec![
            ("action".to_string(), "price_feed".to_string()),
            ("symbol".to_string(), "TSLA".to_string()),
            ("price".to_string(), "1.5".to_string()),
        ]
    );
    let price = p.query_price("TSLA".to_string()).unwrap();
    assert_eq!(price.rate.atomics, std_atomics("1.5"));
    assert_eq!(price.last_updated, 1000);
    match p.query(proxy_feed::QueryMsg::Feeder { symbol: "TSLA".to_string() }).unwrap() {
        FeedQueryAnswer::Feeder(f) => assert_eq!(f.feeder, "feeder0000"),
        other => panic!("unexpected answer {:?}", other),
    }
}

#[test]
fn feed_last_price_wins() {
    let mut p = feed();
    let feeder = "feeder0000".to_string();
    let prices = vec![
        ("TSLA".to_string(), Decimal::raw(std_atomics("700"))),
        ("TSLA".to_string(), Decimal::raw(std_atomics("701.25"))),
    ];
    let attrs = p.feed_prices(&feeder, 42, prices).unwrap();
    assert_eq!(attrs.len(), 5);
    assert_eq!(attrs[2].1, "700");
    assert_eq!(attrs[4].1, "701.25");
    let price = p.query_price("TSLA".to_string()).unwrap();
    assert_eq!(price.rate.atomics, std_atomics("701.25"));
    assert_eq!(price.last_updated, 42);
}

#[test]
fn feed_rejects_wrong_feeder_and_unknown_symbol() {
    let mut p = feed();
    let r = p.feed_prices(
        &"someone".to_string(),
        5,
        vec![("TSLA".to_string(), Decimal::one())],
    );
    assert_eq!(r, Err(ContractError::Unauthorized));
    assert_eq!(
        p.query_price("TSLA".to_string()),
        Err(ContractError::ProxyError {
            reason: "There is no price feed for the requested symbol".to_string()
        })
    );
    let r = p.feed_prices(
        &"feeder0000".to_string(),
        5,
        vec![("TSLA".to_string(), Decimal::one()), ("AAPL".to_string(), Decimal::one())],
    );
    assert_eq!(
        r,
        Err(ContractError::ProxyError {
            reason: "There is no feeder registered for the provided symbol".to_string()
        })
    );
    // the price before the failing item stays recorded (the host discards it)
    let price = p.query_price("TSLA".to_string()).unwrap();
    assert_eq!(price.rate, Decimal::one());
    assert_eq!(price.last_updated, 5);
    assert!(p.query_feeder("AAPL".to_string()).is_err());
}

#[test]
fn feed_register_requires_owner() {
    let mut p = feed();
    let r = p.register_feed(&"x".to_string(), "AAPL".to_string(), "f".to_string(), Ok(()));
    assert_eq!(r, Err(ContractError::Unauthorized));
    let r = p.register_feed(&"owner0000".to_string(), "AAPL".to_string(), "f".to_string(), Err(invalid()));
    assert_eq!(r, Err(ContractError::Std(invalid())));
    p.register_feed(&"owner0000".to_string(), "TSLA".to_string(), "feeder1111".to_string(), Ok(()))
        .unwrap();
    assert_eq!(p.query_feeder("TSLA".to_string()).unwrap().feeder, "feeder1111");
}

#[test]
fn template_instantiate_and_config() {
    let p = TemplateProxy::instantiate(
        proxy_template::InstantiateMsg { source_addr: "source0000".to_string() },
        Ok(()),
    )
    .unwrap();
    assert_eq!(p.query_config().unwrap().source_addr, "source0000");
    assert_eq!(p.query(proxy_template::QueryMsg::Config {}).unwrap().source_addr, "source0000");
    let r = TemplateProxy::instantiate(
        proxy_template::InstantiateMsg { source_addr: "s".to_string() },
        Err(invalid()),
    );
    assert_eq!(r.err().unwrap(), ContractError::Std(invalid()));
}
