//! The proxy for Band Protocol price sources: it asks a Band contract for the
//! reference rate of a symbol in the quote symbol and converts its answer.
use vstd::prelude::*;
use crate::decimal::{ratio_atomics, std_decimal_from_ratio, Decimal, DECIMAL_FRACTIONAL};
use crate::errors::{ContractError, StdError};
use crate::proxy::{owner_update, ProxyPriceResponse, ProxyQueryMsg};

verus! {

#[derive(Debug, Clone, PartialEq, Eq)]
pub struct InstantiateMsg {
    pub owner: String,
    pub source_addr: String,
    pub quote_symbol: String,
}

#[derive(Debug, Clone, PartialEq, Eq)]
pub enum ExecuteMsg {
    UpdateOwner { owner: String },
}

#[derive(Debug, Clone, PartialEq, Eq)]
pub enum QueryMsg {
    Base(ProxyQueryMsg),
    Config {},
}

#[derive(Debug, Clone, PartialEq, Eq)]
pub struct ConfigResponse {
    pub owner: String,
    pub source_addr: String,
    pub quote_symbol: String,
}

#[derive(Debug, Clone, PartialEq, Eq)]
pub struct SymbolMapResponse {
    pub map: Vec<(String, String)>,
}

/// Band Protocol's answer to a reference data query.
#[derive(Debug, Clone, Copy, PartialEq, Eq, Structural)]
pub struct BandResponse {
    /// the rate, with 18 decimals
    pub rate: u128,
    pub last_updated_base: u128,
    pub last_updated_quote: u128,
}

#[derive(Debug, Clone, PartialEq, Eq)]
pub struct GetReferenceData {
    pub base_symbol: String,
    pub quote_symbol: String,
}

/// The query that Band Protocol answers.
#[derive(Debug, Clone, PartialEq, Eq)]
pub enum BandMsg {
    GetReferenceData { base_symbol: String, quote_symbol: String },
}

/// The configuration of the Band proxy.
#[derive(Debug, Clone, PartialEq, Eq)]
pub struct Config {
    pub owner: String,
    pub source_addr: String,
    pub quote_symbol: String,
}

impl Config {
    pub fn as_res(&self) -> (r: ConfigResponse)
        ensures
            r.owner@ == self.owner@,
            r.source_addr@ == self.source_addr@,
            r.quote_symbol@ == self.quote_symbol@,
    {
        ConfigResponse {
            owner: self.owner.clone(),
            source_addr: self.source_addr.clone(),
            quote_symbol: self.quote_symbol.clone(),
        }
    }

    /// Checks if the provided addr is owner
    pub fn is_owner(&self, addr: &String) -> (r: bool)
        ensures
            r == (self.owner@ == addr@),
    {
        self.owner == *addr
    }
}

/// A price request to the Band contract.
#[derive(Debug, Clone, PartialEq, Eq)]
pub struct BandPriceRequest {
    pub source_addr: String,
    pub msg: BandMsg,
}

/// The answer to a query of the Band proxy.
#[derive(Debug, Clone, PartialEq, Eq)]
pub enum BandQueryAnswer {
    Config(ConfigResponse),
    /// to be completed by asking the Band contract and parsing its answer
    Price(BandPriceRequest),
}

/// The storage of the Band proxy.
pub struct BandProxy {
    pub config: Config,
}

/// The seconds of Band's timestamp, as the proxy reports them (the low 64 bits).
pub open spec fn band_seconds(t: u128) -> u64 {
    (t % 0x1_0000_0000_0000_0000) as u64
}

/// Converts Band's answer to the standard format: the rate has 18 decimals.
pub fn parse_band(res: BandResponse) -> (r: ProxyPriceResponse)
    ensures
        r.rate.atomics == ratio_atomics(res.rate as int, DECIMAL_FRACTIONAL as int),
        r.rate.atomics == res.rate,
        r.last_updated == band_seconds(res.last_updated_base),
{
    proof {
        assert(ratio_atomics(res.rate as int, DECIMAL_FRACTIONAL as int) == res.rate) by (
        nonlinear_arith)
            requires
                DECIMAL_FRACTIONAL > 0,
        ;
    }
    let rate = std_decimal_from_ratio(res.rate, DECIMAL_FRACTIONAL);
    let t = res.last_updated_base;
    let secs = t as u64;
    assert(t as u64 == (t % 0x1_0000_0000_0000_0000) as u64) by (bit_vector);
    ProxyPriceResponse { rate: Decimal::raw(rate), last_updated: secs }
}

impl BandProxy {
    /// Instantiates the proxy; the checks are the host's verdicts on the owner and
    /// source addresses
    pub fn instantiate(
        msg: InstantiateMsg,
        owner_check: Result<(), StdError>,
        source_check: Result<(), StdError>,
    ) -> (r: Result<BandProxy, ContractError>)
        ensures
            match (owner_check, source_check) {
                (Err(e), _) => r == Err::<BandProxy, ContractError>(ContractError::Std(e)),
                (Ok(_), Err(e)) => r == Err::<BandProxy, ContractError>(ContractError::Std(e)),
                (Ok(_), Ok(_)) => r matches Ok(p) && p.config.owner@ == msg.owner@
                    && p.config.source_addr@ == msg.source_addr@ && p.config.quote_symbol@
                    == msg.quote_symbol@,
            },
    {
        if let Err(e) = owner_check {
            return Err(ContractError::Std(e));
        }
        if let Err(e) = source_check {
            return Err(ContractError::Std(e));
        }
        Ok(
            BandProxy {
                config: Config {
                    owner: msg.owner,
                    source_addr: msg.source_addr,
                    quote_symbol: msg.quote_symbol,
                },
            },
        )
    }

    /// Updates the owner address
    pub fn update_owner(&mut self, sender: &String, owner: String, check: Result<(), StdError>) -> (r:
        Result<(), ContractError>)
        ensures
            match owner_update(old(self).config.owner@, sender@, owner@, check) {
                Ok(o) => r is Ok && final(self).config.owner@ == o
                    && final(self).config.source_addr == old(self).config.source_addr
                    && final(self).config.quote_symbol == old(self).config.quote_symbol,
                Err(e) => r == Err::<(), ContractError>(e) && final(self).config == old(self).config,
            },
    {
        if !self.config.is_owner(sender) {
            return Err(ContractError::Unauthorized);
        }
        if let Err(e) = check {
            return Err(ContractError::Std(e));
        }
        self.config.owner = owner;
        Ok(())
    }

    /// Executes an operation; `check` is the host's verdict on its address
    pub fn execute(&mut self, sender: &String, msg: ExecuteMsg, check: Result<(), StdError>) -> (r:
        Result<(), ContractError>)
        ensures
            match msg {
                ExecuteMsg::UpdateOwner { owner } => match owner_update(
                    old(self).config.owner@,
                    sender@,
                    owner@,
                    check,
                ) {
                    Ok(o) => r is Ok && final(self).config.owner@ == o
                        && final(self).config.source_addr == old(self).config.source_addr
                        && final(self).config.quote_symbol == old(self).config.quote_symbol,
                    Err(e) => r == Err::<(), ContractError>(e) && final(self).config == old(
                        self,
                    ).config,
                },
            },
    {
        match msg {
            ExecuteMsg::UpdateOwner { owner } => self.update_owner(sender, owner, check),
        }
    }

    /// Queries the contract configuration
    pub fn query_config(&self) -> (r: Result<ConfigResponse, ContractError>)
        ensures
            r matches Ok(c) && c.owner@ == self.config.owner@ && c.source_addr@
                == self.config.source_addr@ && c.quote_symbol@ == self.config.quote_symbol@,
    {
        Ok(self.config.as_res())
    }

    /// The request to the Band contract for the price of `symbol` in the quote symbol
    pub fn query_price(&self, symbol: String) -> (r: Result<BandPriceRequest, ContractError>)
        ensures
            r matches Ok(req) && req.source_addr@ == self.config.source_addr@ && (
            req.msg matches BandMsg::GetReferenceData { base_symbol, quote_symbol }
                && base_symbol@ == symbol@ && quote_symbol@ == self.config.quote_symbol@),
    {
        Ok(BandPriceRequest {
            source_addr: self.config.source_addr.clone(),
            msg: BandMsg::GetReferenceData {
                base_symbol: symbol,
                quote_symbol: self.config.quote_symbol.clone(),
            },
        })
    }

    /// Answers a query
    pub fn query(&self, msg: QueryMsg) -> (r: Result<BandQueryAnswer, ContractError>)
        ensures
            msg matches QueryMsg::Config {  } ==> (r matches Ok(BandQueryAnswer::Config(c))
                && c.owner@ == self.config.owner@ && c.source_addr@ == self.config.source_addr@
                && c.quote_symbol@ == self.config.quote_symbol@),
            msg matches QueryMsg::Base(ProxyQueryMsg::Price { symbol }) ==> (r matches Ok(
                BandQueryAnswer::Price(req),
            ) && req.source_addr@ == self.config.source_addr@ && (
            req.msg matches BandMsg::GetReferenceData { base_symbol, quote_symbol }
                && base_symbol@ == symbol@ && quote_symbol@ == self.config.quote_symbol@)),
    {
        match msg {
            QueryMsg::Config {} => Ok(BandQueryAnswer::Config(self.query_config()?)),
            QueryMsg::Base(ProxyQueryMsg::Price { symbol }) => Ok(
                BandQueryAnswer::Price(self.query_price(symbol)?),
            ),
        }
    }
}

} // verus!
