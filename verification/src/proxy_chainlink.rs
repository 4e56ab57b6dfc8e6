//! The proxy for Chainlink price sources: each symbol has a Chainlink aggregator,
//! whose latest round answer (8 decimals) is the price.
use vstd::prelude::*;
use crate::decimal::{bignumber_decimal_from_ratio, ratio_atomics, Decimal};
use crate::errors::{ContractError, StdError};
use crate::hub::handle::{insert_all, pairs_view};
use crate::proxy::{first_invalid, owner_update, ProxyPriceResponse, ProxyQueryMsg};
use crate::store::{store_map, KeyedStore};
use crate::hub::state::chars_of_string;

verus! {

/// The scale of a Chainlink answer: 8 decimals.
pub const CHAINLINK_DECIMALS_FACTOR: u128 = 100_000_000u128;

#[derive(Debug, Clone, PartialEq, Eq)]
pub struct InstantiateMsg {
    pub owner: String,
}

#[derive(Debug, Clone, PartialEq, Eq)]
pub enum ExecuteMsg {
    UpdateOwner { owner: String },
    /// Registers new sources, overwrites if already exists
    SetSources { sources: Vec<(String, String)> },
    /// Removes an existing source
    RemoveSource { symbol: String },
}

#[derive(Debug, Clone, PartialEq, Eq)]
pub enum QueryMsg {
    Base(ProxyQueryMsg),
    Config {},
    Sources { symbol: Option<String> },
}

#[derive(Debug, Clone, PartialEq, Eq)]
pub struct ConfigResponse {
    pub owner: String,
}

#[derive(Debug, Clone, PartialEq, Eq)]
pub struct SourcesResponse {
    pub sources: Vec<(String, String)>,
}

#[derive(Debug, Clone, PartialEq, Eq, Structural, Copy)]
pub enum AggregatorQueryMsg {
    /// Query data for a specific round
    GetRoundData { round_id: u32 },
    /// Query data for the latest round
    GetLatestRoundData {},
    GetDecimals {},
    GetDescription {},
    GetVersion {},
    GetLatestAnswer {},
}

#[derive(Debug, Clone, PartialEq, Eq, Structural, Copy)]
pub struct AggregatorQuery {
    pub aggregator_query: AggregatorQueryMsg,
}

#[derive(Debug, Clone, Copy, PartialEq, Eq, Structural)]
pub struct RoundDataResponse {
    pub round_id: u32,
    pub answer: Option<u128>,
    pub started_at: Option<u64>,
    pub updated_at: Option<u64>,
    pub answered_in_round: u32,
}

/// The configuration of the Chainlink proxy.
#[derive(Debug, Clone, PartialEq, Eq)]
pub struct Config {
    pub owner: String,
}

impl Config {
    pub fn as_res(&self) -> (r: ConfigResponse)
        ensures
            r.owner@ == self.owner@,
    {
        ConfigResponse { owner: self.owner.clone() }
    }

    /// Checks if the provided addr is owner
    pub fn is_owner(&self, addr: &String) -> (r: bool)
        ensures
            r == (self.owner@ == addr@),
    {
        self.owner == *addr
    }
}

/// A price request to a Chainlink aggregator.
#[derive(Debug, Clone, PartialEq, Eq)]
pub struct ChainlinkPriceRequest {
    pub source_addr: String,
    pub msg: AggregatorQuery,
}

/// The answer to a query of the Chainlink proxy.
#[derive(Debug, Clone, PartialEq, Eq)]
pub enum ChainlinkQueryAnswer {
    Config(ConfigResponse),
    Sources(SourcesResponse),
    /// to be completed by asking the aggregator and parsing its answer
    Price(ChainlinkPriceRequest),
}

/// The storage of the Chainlink proxy.
pub struct ChainlinkProxy {
    pub config: Config,
    /// aggregator address by symbol
    pub sources: KeyedStore<String>,
}

/// The sources, as values.
pub open spec fn sources_view(p: ChainlinkProxy) -> Map<Seq<char>, Seq<char>> {
    store_map(p.sources@).map_values(chars_of_string())
}

/// The error reason when a symbol has no source.
pub open spec fn not_registered(e: ContractError) -> bool {
    e matches ContractError::ProxyError { reason } && reason@ == "Price source not registered"@
}

/// `UpdateOwner`: only the owner may change the owner; the sources stay.
pub open spec fn update_owner_post(
    before: ChainlinkProxy,
    after: ChainlinkProxy,
    sender: Seq<char>,
    owner: Seq<char>,
    check: Result<(), StdError>,
    r: Result<(), ContractError>,
) -> bool {
    &&& after.sources == before.sources
    &&& match owner_update(before.config.owner@, sender, owner, check) {
        Ok(o) => r is Ok && after.config.owner@ == o,
        Err(e) => r == Err::<(), ContractError>(e) && after.config == before.config,
    }
}

/// `SetSources`: the owner stores each (symbol, aggregator) pair in order, if every
/// aggregator address is valid.
pub open spec fn set_sources_post(
    before: ChainlinkProxy,
    after: ChainlinkProxy,
    sender: Seq<char>,
    items: Seq<(Seq<char>, Seq<char>)>,
    checks: Seq<Result<(), StdError>>,
    r: Result<(), ContractError>,
) -> bool {
    &&& after.sources.wf()
    &&& after.config == before.config
    &&& if before.config.owner@ != sender {
        r == Err::<(), ContractError>(ContractError::Unauthorized) && sources_view(after)
            == sources_view(before)
    } else {
        match first_invalid(checks) {
            Some(e) => r == Err::<(), ContractError>(ContractError::Std(e)) && sources_view(after)
                == sources_view(before),
            None => r is Ok && sources_view(after) == insert_all(sources_view(before), items),
        }
    }
}

/// `RemoveSource`: the owner removes the source of a symbol, if any.
pub open spec fn remove_source_post(
    before: ChainlinkProxy,
    after: ChainlinkProxy,
    sender: Seq<char>,
    symbol: Seq<char>,
    r: Result<(), ContractError>,
) -> bool {
    &&& after.sources.wf()
    &&& after.config == before.config
    &&& if before.config.owner@ != sender {
        r == Err::<(), ContractError>(ContractError::Unauthorized) && sources_view(after)
            == sources_view(before)
    } else {
        r is Ok && sources_view(after) == sources_view(before).remove(symbol)
    }
}

/// The number of address verdicts an operation needs.
pub open spec fn execute_checks_len(msg: ExecuteMsg) -> nat {
    match msg {
        ExecuteMsg::UpdateOwner { .. } => 1,
        ExecuteMsg::SetSources { sources } => sources@.len(),
        ExecuteMsg::RemoveSource { .. } => 0,
    }
}

/// Converts the aggregator's latest round to the standard format: the answer has
/// 8 decimals.
pub fn parse_chainlink(res: RoundDataResponse) -> (r: Result<ProxyPriceResponse, ContractError>)
    requires
        (res.answer, res.updated_at) matches (Some(a), Some(_)) ==> ratio_atomics(
            a as int,
            CHAINLINK_DECIMALS_FACTOR as int,
        ) <= u128::MAX,
    ensures
        match (res.answer, res.updated_at) {
            (Some(a), Some(t)) => r matches Ok(p) && p.rate.atomics == ratio_atomics(
                a as int,
                CHAINLINK_DECIMALS_FACTOR as int,
            ) && p.last_updated == t,
            _ => r matches Err(ContractError::ProxyError { reason }) && reason@
                == "Source did not return answer"@,
        },
{
    match (res.answer, res.updated_at) {
        (Some(a), Some(t)) => {
            let atomics = bignumber_decimal_from_ratio(a, CHAINLINK_DECIMALS_FACTOR);
            Ok(ProxyPriceResponse { rate: Decimal::raw(atomics), last_updated: t })
        },
        _ => Err(ContractError::ProxyError { reason: "Source did not return answer".to_owned() }),
    }
}

impl ChainlinkProxy {
    /// Instantiates the proxy; `owner_check` is the host's verdict on the owner address
    pub fn instantiate(msg: InstantiateMsg, owner_check: Result<(), StdError>) -> (r: Result<
        ChainlinkProxy,
        ContractError,
    >)
        ensures
            match owner_check {
                Err(e) => r == Err::<ChainlinkProxy, ContractError>(ContractError::Std(e)),
                Ok(_) => r matches Ok(p) && p.config.owner@ == msg.owner@ && p.sources.wf()
                    && sources_view(p) == Map::<Seq<char>, Seq<char>>::empty(),
            },
    {
        if let Err(e) = owner_check {
            return Err(ContractError::Std(e));
        }
        let p = ChainlinkProxy { config: Config { owner: msg.owner }, sources: KeyedStore::new() };
        assert(sources_view(p) =~= Map::<Seq<char>, Seq<char>>::empty());
        Ok(p)
    }

    /// Updates the owner address
    pub fn update_owner(&mut self, sender: &String, owner: String, check: Result<(), StdError>) -> (r:
        Result<(), ContractError>)
        ensures
            update_owner_post(*old(self), *final(self), sender@, owner@, check, r),
    {
        if !self.config.is_owner(sender) {
            return Err(ContractError::Unauthorized);
        }
        if let Err(e) = check {
            return Err(ContractError::Std(e));
        }
        self.config.owner = owner;
        Ok(())
    }

    /// Registers Chainlink price sources: (symbol, aggregator address) pairs; a
    /// later pair wins. `checks` are the host's verdicts on the aggregator addresses
    pub fn set_sources(
        &mut self,
        sender: &String,
        sources: Vec<(String, String)>,
        checks: Vec<Result<(), StdError>>,
    ) -> (r: Result<(), ContractError>)
        requires
            old(self).sources.wf(),
            checks@.len() == sources@.len(),
        ensures
            set_sources_post(*old(self), *final(self), sender@, pairs_view(sources@), checks@, r),
    {
        if !self.config.is_owner(sender) {
            return Err(ContractError::Unauthorized);
        }
        let mut k: usize = 0;
        assert(checks@.skip(0) =~= checks@);
        while k < checks.len()
            invariant
                self.sources == old(self).sources,
                self.config == old(self).config,
                self.config.owner@ == sender@,
                self.sources.wf(),
                k <= checks@.len(),
                first_invalid(checks@) == first_invalid(checks@.skip(k as int)),
            decreases checks@.len() - k,
        {
            proof {
                assert(checks@.skip(k as int).drop_first() =~= checks@.skip(k + 1));
            }
            if let Err(e) = &checks[k] {
                return Err(ContractError::Std(e.clone_error()));
            }
            k = k + 1;
        }
        assert(checks@.skip(checks@.len() as int).len() == 0);
        let ghost items = pairs_view(sources@);
        let ghost target = insert_all(sources_view(*self), items);
        let mut i: usize = 0;
        assert(items.skip(0) =~= items);
        while i < sources.len()
            invariant
                self.sources.wf(),
                self.config == old(self).config,
                i <= sources@.len(),
                items == pairs_view(sources@),
                target == insert_all(sources_view(*self), items.skip(i as int)),
            decreases sources@.len() - i,
        {
            let ghost m0 = sources_view(*self);
            let ghost raw0 = store_map(self.sources@);
            let s = sources[i].0.clone();
            let a = sources[i].1.clone();
            self.sources.save(s, a);
            proof {
                crate::hub::state::lemma_map_values_insert(raw0, s@, a, chars_of_string());
                assert(sources_view(*self) =~= m0.insert(items[i as int].0, items[i as int].1));
                assert(items.skip(i as int).drop_first() =~= items.skip(i + 1));
            }
            i = i + 1;
        }
        assert(items.skip(sources@.len() as int) =~= Seq::<(Seq<char>, Seq<char>)>::empty());
        Ok(())
    }

    /// Removes the Chainlink price source of a symbol
    pub fn remove_source(&mut self, sender: &String, symbol: String) -> (r: Result<(), ContractError>)
        requires
            old(self).sources.wf(),
        ensures
            remove_source_post(*old(self), *final(self), sender@, symbol@, r),
    {
        if !self.config.is_owner(sender) {
            return Err(ContractError::Unauthorized);
        }
        let ghost raw0 = store_map(self.sources@);
        self.sources.remove(symbol.as_str());
        proof {
            crate::hub::state::lemma_map_values_remove(raw0, symbol@, chars_of_string());
        }
        Ok(())
    }

    /// Queries the contract configuration
    pub fn query_config(&self) -> (r: Result<ConfigResponse, ContractError>)
        ensures
            r matches Ok(c) && c.owner@ == self.config.owner@,
    {
        Ok(self.config.as_res())
    }

    /// Queries the source of a symbol, or all sources in storage order of the symbols
    pub fn query_sources(&self, symbol: Option<String>) -> (r: Result<SourcesResponse, ContractError>)
        requires
            self.sources.wf(),
        ensures
            match symbol {
                Some(s) => if sources_view(*self).contains_key(s@) {
                    r matches Ok(resp) && pairs_view(resp.sources@) == seq![
                        (s@, sources_view(*self)[s@]),
                    ]
                } else {
                    r matches Err(e) && not_registered(e)
                },
                None => r matches Ok(resp) && pairs_view(resp.sources@)
                    == crate::hub::query::string_entries_view(self.sources@),
            },
    {
        match symbol {
            Some(s) => match self.sources.get(s.as_str()) {
                Some(a) => {
                    let a2 = a.clone();
                    let v = vec![(s, a2)];
                    assert(pairs_view(v@) =~= seq![(v@[0].0@, v@[0].1@)]);
                    Ok(SourcesResponse { sources: v })
                },
                None => Err(
                    ContractError::ProxyError { reason: "Price source not registered".to_owned() },
                ),
            },
            None => {
                let ghost e = self.sources@;
                let n = self.sources.len();
                let mut out: Vec<(String, String)> = Vec::new();
                let mut i: usize = 0;
                while i < n
                    invariant
                        e == self.sources@,
                        n == e.len(),
                        i <= n,
                        pairs_view(out@) == crate::hub::query::string_entries_view(e).take(
                            i as int,
                        ),
                    decreases n - i,
                {
                    let ghost before = out@;
                    out.push((self.sources.key_at(i).clone(), self.sources.value_at(i).clone()));
                    assert(pairs_view(out@) =~= pairs_view(before).push((e[i as int].0, e[i as int].1@)));
                    assert(crate::hub::query::string_entries_view(e).take(i + 1)
                        =~= crate::hub::query::string_entries_view(e).take(i as int).push(
                        (e[i as int].0, e[i as int].1@),
                    ));
                    i = i + 1;
                }
                assert(crate::hub::query::string_entries_view(e).take(n as int)
                    =~= crate::hub::query::string_entries_view(e));
                Ok(SourcesResponse { sources: out })
            },
        }
    }

    /// The request to the aggregator of `symbol` for its latest round
    pub fn query_price(&self, symbol: String) -> (r: Result<ChainlinkPriceRequest, ContractError>)
        requires
            self.sources.wf(),
        ensures
            if sources_view(*self).contains_key(symbol@) {
                r matches Ok(req) && req.source_addr@ == sources_view(*self)[symbol@]
                    && req.msg == (AggregatorQuery {
                    aggregator_query: AggregatorQueryMsg::GetLatestRoundData {  },
                })
            } else {
                r matches Err(e) && not_registered(e)
            },
    {
        match self.sources.get(symbol.as_str()) {
            Some(a) => Ok(
                ChainlinkPriceRequest {
                    source_addr: a.clone(),
                    msg: AggregatorQuery {
                        aggregator_query: AggregatorQueryMsg::GetLatestRoundData {  },
                    },
                },
            ),
            None => Err(
                ContractError::ProxyError { reason: "Price source not registered".to_owned() },
            ),
        }
    }

    /// Executes an operation; `checks` are the host's verdicts on its addresses: the
    /// new owner, or the aggregator of each pair
    pub fn execute(&mut self, sender: &String, msg: ExecuteMsg, checks: Vec<Result<(), StdError>>) -> (r:
        Result<(), ContractError>)
        requires
            old(self).sources.wf(),
            checks@.len() == execute_checks_len(msg),
        ensures
            final(self).sources.wf(),
            match msg {
                ExecuteMsg::UpdateOwner { owner } => update_owner_post(
                    *old(self),
                    *final(self),
                    sender@,
                    owner@,
                    checks@[0],
                    r,
                ),
                ExecuteMsg::SetSources { sources } => set_sources_post(
                    *old(self),
                    *final(self),
                    sender@,
                    pairs_view(sources@),
                    checks@,
                    r,
                ),
                ExecuteMsg::RemoveSource { symbol } => remove_source_post(
                    *old(self),
                    *final(self),
                    sender@,
                    symbol@,
                    r,
                ),
            },
    {
        let mut checks = checks;
        match msg {
            ExecuteMsg::UpdateOwner { owner } => {
                let c = checks.remove(0);
                self.update_owner(sender, owner, c)
            },
            ExecuteMsg::SetSources { sources } => self.set_sources(sender, sources, checks),
            ExecuteMsg::RemoveSource { symbol } => self.remove_source(sender, symbol),
        }
    }

    /// Answers a query
    pub fn query(&self, msg: QueryMsg) -> (r: Result<ChainlinkQueryAnswer, ContractError>)
        requires
            self.sources.wf(),
        ensures
            match msg {
                QueryMsg::Config {  } => r matches Ok(ChainlinkQueryAnswer::Config(c)) && c.owner@
                    == self.config.owner@,
                QueryMsg::Sources { symbol } => match symbol {
                    Some(s) => if sources_view(*self).contains_key(s@) {
                        r matches Ok(ChainlinkQueryAnswer::Sources(resp)) && pairs_view(
                            resp.sources@,
                        ) == seq![(s@, sources_view(*self)[s@])]
                    } else {
                        r matches Err(e) && not_registered(e)
                    },
                    None => r matches Ok(ChainlinkQueryAnswer::Sources(resp)) && pairs_view(
                        resp.sources@,
                    ) == crate::hub::query::string_entries_view(self.sources@),
                },
                QueryMsg::Base(ProxyQueryMsg::Price { symbol }) => if sources_view(
                    *self,
                ).contains_key(symbol@) {
                    r matches Ok(ChainlinkQueryAnswer::Price(req)) && req.source_addr@
                        == sources_view(*self)[symbol@] && req.msg == (AggregatorQuery {
                        aggregator_query: AggregatorQueryMsg::GetLatestRoundData {  },
                    })
                } else {
                    r matches Err(e) && not_registered(e)
                },
            },
    {
        match msg {
            QueryMsg::Config {  } => Ok(ChainlinkQueryAnswer::Config(self.query_config()?)),
            QueryMsg::Sources { symbol } => Ok(
                ChainlinkQueryAnswer::Sources(self.query_sources(symbol)?),
            ),
            QueryMsg::Base(ProxyQueryMsg::Price { symbol }) => Ok(
                ChainlinkQueryAnswer::Price(self.query_price(symbol)?),
            ),
        }
    }
}

} // verus!
