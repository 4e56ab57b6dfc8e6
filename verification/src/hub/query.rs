//! The hub's queries. Price queries need the answers of proxies: for them the hub
//! hands out a request, the caller asks the proxies and feeds the answers back.
use vstd::prelude::*;
use crate::decimal::std_timestamp_minus_seconds;
use crate::errors::{ContractError, StdError};
use crate::hub::handle::pairs_view;
use crate::hub::msg::{
    AllSourcesResponse, AssetSymbolMapResponse, ConfigResponse, PriceListResponse,
    PriceQueryResult, PriceResponse, ProxyWhitelistResponse, SourcesResponse,
};
use crate::hub::state::{addresses_view, copy_entries, Addr, Hub, HubView, Sources};
use crate::priority::entries_view;
use crate::proxy::{ProxyBaseQuery, ProxyPriceResponse, ProxyQueryMsg};
use crate::store::{page, page_start, store_map};

verus! {

pub const DEFAULT_PAGINATION_LIMIT: u32 = 10u32;

pub const MAX_PAGINATION_LIMIT: u32 = 30u32;

/// The number of entries a page holds at most.
pub open spec fn page_limit(limit: Option<u32>) -> int {
    match limit {
        Some(l) => if l < MAX_PAGINATION_LIMIT {
            l as int
        } else {
            MAX_PAGINATION_LIMIT as int
        },
        None => DEFAULT_PAGINATION_LIMIT as int,
    }
}

/// The view of an optional string.
pub open spec fn opt_view(s: Option<String>) -> Option<Seq<char>> {
    match s {
        Some(x) => Some(x@),
        None => None,
    }
}

/// The error of a failed symbol lookup.
pub open spec fn resolve_error(f: ResolveFailure, e: ContractError) -> bool {
    match f {
        ResolveFailure::Unmapped => e == ContractError::MappingNotFound,
        ResolveFailure::Missing => e matches ContractError::Std(StdError::GenericErr { msg })
            && msg@ == "symbol or asset_token must be provided"@,
    }
}

/// The response to a sources query on sources `s`.
pub open spec fn sources_response_of(
    resp: SourcesResponse,
    symbol: Seq<char>,
    proxies: Seq<(u8, Seq<char>)>,
) -> bool {
    resp.symbol@ == symbol && entries_view(resp.proxies@) == proxies
}

/// A proxy's answer counts: it came and is not older than `threshold`.
pub open spec fn fresh(answer: Option<ProxyPriceResponse>, threshold: u64) -> bool {
    answer matches Some(p) && p.last_updated >= threshold
}

/// The hub's price response to a proxy's answer.
pub open spec fn price_of(p: ProxyPriceResponse) -> PriceResponse {
    PriceResponse { rate: p.rate, last_updated: p.last_updated }
}

/// The seconds below which an answer is too old: the block time less the
/// timeframe, or 0 without a timeframe.
pub open spec fn price_threshold(block_time_nanos: u64, timeframe: Option<u64>) -> int {
    match timeframe {
        Some(v) => (block_time_nanos - v * 1_000_000_000) / 1_000_000_000,
        None => 0,
    }
}

/// What the next step of a price search is.
#[derive(Debug, PartialEq, Eq)]
pub enum PriceStep {
    /// Ask `proxy_addr` this query and record its answer (`None` if it failed).
    Query { proxy_addr: Addr, msg: ProxyBaseQuery },
    /// The search has ended.
    Done(Result<PriceResponse, ContractError>),
}

/// A search for the price of a symbol: the proxies are asked in order of priority,
/// and the first answer that is not too old is the price.
pub struct PriceSearch {
    pub symbol: String,
    /// the proxies, highest priority first
    pub proxies: Vec<Addr>,
    /// answers updated before this time (in seconds) are too old
    pub threshold: u64,
    /// the number of proxies asked so far
    pub next: usize,
    /// the price found, if any
    pub found: Option<ProxyPriceResponse>,
    /// the answers recorded so far
    pub answers: Ghost<Seq<Option<ProxyPriceResponse>>>,
}

impl PriceSearch {
    /// The search asked the proxies in order and stopped at the first fresh answer.
    pub open spec fn wf(&self) -> bool {
        &&& self.next <= self.proxies@.len()
        &&& self.answers@.len() == self.next
        &&& self.found is None ==> forall|i: int|
            0 <= i < self.next ==> !fresh(#[trigger] self.answers@[i], self.threshold)
        &&& self.found matches Some(p) ==> {
            &&& self.next > 0
            &&& self.answers@[self.next - 1] == Some(p)
            &&& fresh(self.answers@[self.next - 1], self.threshold)
            &&& forall|i: int|
                0 <= i < self.next - 1 ==> !fresh(#[trigger] self.answers@[i], self.threshold)
        }
    }

    /// What to do next.
    pub fn next_step(&self) -> (r: PriceStep)
        requires
            self.wf(),
        ensures
            self.found matches Some(p) ==> r == PriceStep::Done(
                Ok::<PriceResponse, ContractError>(price_of(p)),
            ),
            self.found is None && self.next < self.proxies@.len() ==> (r matches PriceStep::Query {
                proxy_addr,
                msg: ProxyBaseQuery::Base(ProxyQueryMsg::Price { symbol }),
            } && proxy_addr@ == self.proxies@[self.next as int]@ && symbol@ == self.symbol@),
            self.found is None && self.next == self.proxies@.len() ==> r == PriceStep::Done(
                Err::<PriceResponse, ContractError>(ContractError::PriceNotAvailable),
            ),
    {
        match self.found {
            Some(p) => PriceStep::Done(Ok(PriceResponse::from_proxy(p))),
            None => {
                if self.next < self.proxies.len() {
                    PriceStep::Query {
                        proxy_addr: self.proxies[self.next].clone(),
                        msg: ProxyBaseQuery::Base(
                            ProxyQueryMsg::Price { symbol: self.symbol.clone() },
                        ),
                    }
                } else {
                    PriceStep::Done(Err(ContractError::PriceNotAvailable))
                }
            },
        }
    }

    /// Records the answer of the proxy asked last (`None` when the query failed).
    pub fn record(&mut self, answer: Option<ProxyPriceResponse>)
        requires
            old(self).wf(),
            old(self).found is None,
            old(self).next < old(self).proxies@.len(),
        ensures
            final(self).wf(),
            final(self).symbol == old(self).symbol,
            final(self).proxies == old(self).proxies,
            final(self).threshold == old(self).threshold,
            final(self).next == old(self).next + 1,
            final(self).answers@ == old(self).answers@.push(answer),
            final(self).found == (if fresh(answer, old(self).threshold) {
                answer
            } else {
                None
            }),
    {
        let n = self.proxies.len();
        assert(self.next < n);
        // if threshold is 0, an answer is never too old
        let keep = match answer {
            Some(p) => p.last_updated >= self.threshold,
            None => false,
        };
        if keep {
            self.found = answer;
        }
        self.answers = Ghost(self.answers@.push(answer));
        self.next = self.next + 1;
    }
}

/// A request for the prices of all proxies of a symbol.
pub struct PriceListRequest {
    pub symbol: String,
    /// (priority, proxy), highest priority first
    pub proxies: Vec<(u8, Addr)>,
}

impl PriceListRequest {
    /// The query to send to each proxy.
    pub fn proxy_query(&self) -> (r: ProxyBaseQuery)
        ensures
            r matches ProxyBaseQuery::Base(ProxyQueryMsg::Price { symbol }) && symbol@
                == self.symbol@,
    {
        ProxyBaseQuery::Base(ProxyQueryMsg::Price { symbol: self.symbol.clone() })
    }

    /// The price list from the answers of the proxies, in the order of the proxies
    /// (`None` for a proxy whose query failed).
    pub fn finish(&self, answers: &Vec<Option<ProxyPriceResponse>>) -> (r: PriceListResponse)
        requires
            answers@.len() == self.proxies@.len(),
        ensures
            r.price_list@.len() == self.proxies@.len(),
            forall|i: int|
                0 <= i < self.proxies@.len() ==> (#[trigger] r.price_list@[i]).0
                    == self.proxies@[i].0 && r.price_list@[i].1 == match answers@[i] {
                    Some(p) => PriceQueryResult::Success(price_of(p)),
                    None => PriceQueryResult::Fail,
                },
    {
        let mut price_list: Vec<(u8, PriceQueryResult)> = Vec::new();
        let mut i: usize = 0;
        while i < self.proxies.len()
            invariant
                answers@.len() == self.proxies@.len(),
                i <= self.proxies@.len(),
                price_list@.len() == i,
                forall|j: int|
                    0 <= j < i ==> (#[trigger] price_list@[j]).0 == self.proxies@[j].0
                        && price_list@[j].1 == match answers@[j] {
                        Some(p) => PriceQueryResult::Success(price_of(p)),
                        None => PriceQueryResult::Fail,
                    },
            decreases self.proxies@.len() - i,
        {
            let res = match answers[i] {
                Some(p) => PriceQueryResult::Success(PriceResponse::from_proxy(p)),
                None => PriceQueryResult::Fail,
            };
            price_list.push((self.proxies[i].0, res));
            i = i + 1;
        }
        PriceListResponse { price_list }
    }
}

/// The page limit of a pagination query.
fn limit_of(limit: Option<u32>) -> (r: usize)
    ensures
        r == page_limit(limit),
{
    let l: u32 = match limit {
        Some(l) => if l < MAX_PAGINATION_LIMIT {
            l
        } else {
            MAX_PAGINATION_LIMIT
        },
        None => DEFAULT_PAGINATION_LIMIT,
    };
    l as usize
}

/// The optional bound as a string slice.
fn bound_str(start_after: &Option<String>) -> (r: Option<&str>)
    ensures
        crate::store::bound_of(r) == opt_view(*start_after),
{
    match start_after {
        Some(s) => Some(s.as_str()),
        None => None,
    }
}

impl Hub {
    /// Queries the contract configuration
    pub fn query_config(&self) -> (r: Result<ConfigResponse, ContractError>)
        ensures
            r matches Ok(c) && c.owner@ == self@.owner && c.base_denom@ == self@.base_denom
                && c.max_proxies_per_symbol == self@.max_proxies_per_symbol,
    {
        Ok(self.config.as_res())
    }

    /// Queries the proxy whitelist
    pub fn query_proxy_whitelist(&self) -> (r: Result<ProxyWhitelistResponse, ContractError>)
        ensures
            r matches Ok(w) && addresses_view(w.proxies@) == self@.whitelist,
    {
        Ok(self.whitelist.as_res())
    }

    /// Finds the symbol: `symbol` if given, else the symbol of `asset_token`
    fn resolve_symbol(&self, asset_token: Option<String>, symbol: Option<String>) -> (r: Result<
        String,
        ContractError,
    >)
        requires
            self.wf(),
        ensures
            match symbol_of(self@, opt_view(asset_token), opt_view(symbol)) {
                Ok(s) => r matches Ok(x) && x@ == s,
                Err(f) => r matches Err(e) && resolve_error(f, e),
            },
    {
        match symbol {
            Some(v) => Ok(v),
            None => match asset_token {
                Some(a) => match self.asset_symbol_map.get(a.as_str()) {
                    Some(s) => Ok(s.clone()),
                    None => Err(ContractError::MappingNotFound),
                },
                None => Err(
                    ContractError::Std(
                        StdError::GenericErr {
                            msg: "symbol or asset_token must be provided".to_owned(),
                        },
                    ),
                ),
            },
        }
    }

    /// Queries the registered proxies for an asset token or a symbol; `symbol` wins
    /// when both are given
    pub fn query_sources(&self, asset_token: Option<String>, symbol: Option<String>) -> (r:
        Result<SourcesResponse, ContractError>)
        requires
            self.wf(),
        ensures
            sources_query_ok(self@, opt_view(asset_token), opt_view(symbol), r),
    {
        let sym = self.resolve_symbol(asset_token, symbol)?;
        match self.sources.get(sym.as_str()) {
            Some(src) => Ok(src.as_res()),
            None => Err(ContractError::SymbolNotRegistered),
        }
    }
}

/// The outcome of a sources query.
pub open spec fn sources_query_ok(
    v: HubView,
    asset_token: Option<Seq<char>>,
    symbol: Option<Seq<char>>,
    r: Result<SourcesResponse, ContractError>,
) -> bool {
    match symbol_of(v, asset_token, symbol) {
        Ok(s) => if v.sources.contains_key(s) {
            r matches Ok(resp) && sources_response_of(resp, s, v.sources[s])
        } else {
            r == Err::<SourcesResponse, ContractError>(ContractError::SymbolNotRegistered)
        },
        Err(f) => r matches Err(e) && resolve_error(f, e),
    }
}

/// Why no symbol was found.
pub enum ResolveFailure {
    /// the asset token has no symbol
    Unmapped,
    /// neither an asset token nor a symbol was given
    Missing,
}

/// The symbol found from an optional asset token and an optional symbol.
pub open spec fn symbol_of(v: HubView, asset_token: Option<Seq<char>>, symbol: Option<Seq<char>>) -> Result<
    Seq<char>,
    ResolveFailure,
> {
    match symbol {
        Some(s) => Ok(s),
        None => match asset_token {
            Some(a) => if v.asset_symbols.contains_key(a) {
                Ok(v.asset_symbols[a])
            } else {
                Err(ResolveFailure::Unmapped)
            },
            None => Err(ResolveFailure::Missing),
        },
    }
}

/// The addresses of a priority list, in order.
pub open spec fn proxy_addresses(s: Seq<(u8, Seq<char>)>) -> Seq<Seq<char>> {
    Seq::new(s.len(), |i: int| s[i].1)
}

/// Stored string entries as values.
pub open spec fn string_entries_view(s: Seq<(Seq<char>, String)>) -> Seq<(Seq<char>, Seq<char>)> {
    Seq::new(s.len(), |i: int| (s[i].0, s[i].1@))
}

/// The outcome of a price query: a search over the proxies of the symbol in
/// priority order, nothing asked yet.
pub open spec fn price_query_ok(
    v: HubView,
    asset_token: Option<Seq<char>>,
    symbol: Option<Seq<char>>,
    block_time_nanos: u64,
    timeframe: Option<u64>,
    r: Result<PriceSearch, ContractError>,
) -> bool {
    match symbol_of(v, asset_token, symbol) {
        Ok(s) => if v.sources.contains_key(s) {
            r matches Ok(ps) && {
                &&& ps.wf()
                &&& ps.next == 0
                &&& ps.found is None
                &&& ps.symbol@ == s
                &&& addresses_view(ps.proxies@) == proxy_addresses(v.sources[s])
                &&& ps.threshold == price_threshold(block_time_nanos, timeframe)
            }
        } else {
            r == Err::<PriceSearch, ContractError>(ContractError::SymbolNotRegistered)
        },
        Err(f) => r matches Err(e) && resolve_error(f, e),
    }
}

/// The outcome of a price list query: a request to all proxies of the symbol.
pub open spec fn price_list_query_ok(
    v: HubView,
    asset_token: Option<Seq<char>>,
    symbol: Option<Seq<char>>,
    r: Result<PriceListRequest, ContractError>,
) -> bool {
    match symbol_of(v, asset_token, symbol) {
        Ok(s) => if v.sources.contains_key(s) {
            r matches Ok(req) && req.symbol@ == s && entries_view(req.proxies@) == v.sources[s]
        } else {
            r == Err::<PriceListRequest, ContractError>(ContractError::SymbolNotRegistered)
        },
        Err(f) => r matches Err(e) && resolve_error(f, e),
    }
}

/// The response to a page of the sources of all symbols.
pub open spec fn all_sources_ok(
    entries: Seq<(Seq<char>, Sources)>,
    start_after: Option<Seq<char>>,
    limit: Option<u32>,
    resp: AllSourcesResponse,
) -> bool {
    let p = page(entries, start_after, page_limit(limit));
    &&& resp.list@.len() == p.len()
    &&& forall|i: int|
        0 <= i < p.len() ==> sources_response_of(
            #[trigger] resp.list@[i],
            p[i].0,
            p[i].1.view_proxies(),
        )
}

/// Copies the addresses of a priority list.
fn addresses_of(v: &Vec<(u8, Addr)>) -> (r: Vec<Addr>)
    ensures
        addresses_view(r@) == proxy_addresses(entries_view(v@)),
{
    let mut out: Vec<Addr> = Vec::new();
    let mut i: usize = 0;
    while i < v.len()
        invariant
            i <= v@.len(),
            addresses_view(out@) == proxy_addresses(entries_view(v@)).take(i as int),
        decreases v@.len() - i,
    {
        let ghost before = out@;
        out.push(v[i].1.clone());
        assert(addresses_view(out@) =~= addresses_view(before).push(v@[i as int].1@));
        assert(proxy_addresses(entries_view(v@)).take(i + 1) =~= proxy_addresses(
            entries_view(v@),
        ).take(i as int).push(v@[i as int].1@));
        i = i + 1;
    }
    assert(proxy_addresses(entries_view(v@)).take(v@.len() as int) =~= proxy_addresses(
        entries_view(v@),
    ));
    out
}

impl Hub {
    /// Starts the search for the available price with the highest priority for an
    /// asset token or a symbol; with a timeframe (in seconds), answers older than
    /// the block time less the timeframe are skipped
    pub fn query_price(
        &self,
        block_time_nanos: u64,
        asset_token: Option<String>,
        symbol: Option<String>,
        timeframe: Option<u64>,
    ) -> (r: Result<PriceSearch, ContractError>)
        requires
            self.wf(),
            timeframe matches Some(v) ==> v * 1_000_000_000 <= block_time_nanos,
        ensures
            price_query_ok(
                self@,
                opt_view(asset_token),
                opt_view(symbol),
                block_time_nanos,
                timeframe,
                r,
            ),
    {
        let sym = self.resolve_symbol(asset_token, symbol)?;
        let proxies = match self.sources.get(sym.as_str()) {
            Some(src) => addresses_of(&src.proxies),
            None => {
                return Err(ContractError::SymbolNotRegistered);
            },
        };
        let threshold: u64 = match timeframe {
            Some(v) => std_timestamp_minus_seconds(block_time_nanos, v),
            None => 0u64,
        };
        Ok(
            PriceSearch {
                symbol: sym,
                proxies,
                threshold,
                next: 0,
                found: None,
                answers: Ghost(Seq::empty()),
            },
        )
    }

    /// Prepares the query of the prices of all proxies of an asset token or a symbol
    pub fn query_price_list(&self, asset_token: Option<String>, symbol: Option<String>) -> (r:
        Result<PriceListRequest, ContractError>)
        requires
            self.wf(),
        ensures
            price_list_query_ok(self@, opt_view(asset_token), opt_view(symbol), r),
    {
        let sym = self.resolve_symbol(asset_token, symbol)?;
        match self.sources.get(sym.as_str()) {
            Some(src) => Ok(PriceListRequest { symbol: sym, proxies: copy_entries(&src.proxies) }),
            None => Err(ContractError::SymbolNotRegistered),
        }
    }

    /// Queries a page of the map of asset tokens to symbols, in storage order of
    /// the asset tokens
    pub fn query_asset_symbol_map(&self, start_after: Option<String>, limit: Option<u32>) -> (r:
        Result<AssetSymbolMapResponse, ContractError>)
        requires
            self.wf(),
        ensures
            r matches Ok(resp) && pairs_view(resp.map@) == string_entries_view(
                page(self.asset_symbol_map@, opt_view(start_after), page_limit(limit)),
            ),
    {
        let ghost s = self.asset_symbol_map@;
        let lim = limit_of(limit);
        let j = self.asset_symbol_map.range_start(bound_str(&start_after));
        let n = self.asset_symbol_map.len();
        let ghost p = page(s, opt_view(start_after), lim as int);
        let mut map: Vec<(String, String)> = Vec::new();
        let mut i: usize = j;
        while i < n && i - j < lim
            invariant
                s == self.asset_symbol_map@,
                n == s.len(),
                j == page_start(s, opt_view(start_after)),
                p == page(s, opt_view(start_after), lim as int),
                j <= i <= n,
                i - j <= lim,
                i - j <= p.len(),
                pairs_view(map@) == string_entries_view(p).take(i - j),
            decreases n - i,
        {
            let ghost before = map@;
            let k = self.asset_symbol_map.key_at(i).clone();
            let v = self.asset_symbol_map.value_at(i).clone();
            map.push((k, v));
            assert(p[i - j] == s[i as int]);
            assert(pairs_view(map@) =~= pairs_view(before).push((s[i as int].0, s[i as int].1@)));
            assert(string_entries_view(p).take(i - j + 1) =~= string_entries_view(p).take(i - j).push(
                (s[i as int].0, s[i as int].1@),
            ));
            i = i + 1;
        }
        assert(i - j == p.len());
        assert(string_entries_view(p).take(p.len() as int) =~= string_entries_view(p));
        Ok(AssetSymbolMapResponse { map })
    }

    /// Queries a page of the sources of all symbols, in storage order of the symbols
    pub fn query_all_sources(&self, start_after: Option<String>, limit: Option<u32>) -> (r: Result<
        AllSourcesResponse,
        ContractError,
    >)
        requires
            self.wf(),
        ensures
            r matches Ok(resp) && all_sources_ok(
                self.sources@,
                opt_view(start_after),
                limit,
                resp,
            ),
    {
        let ghost s = self.sources@;
        let lim = limit_of(limit);
        let j = self.sources.range_start(bound_str(&start_after));
        let n = self.sources.len();
        let ghost p = page(s, opt_view(start_after), lim as int);
        let mut list: Vec<SourcesResponse> = Vec::new();
        let mut i: usize = j;
        while i < n && i - j < lim
            invariant
                self.wf(),
                s == self.sources@,
                n == s.len(),
                j == page_start(s, opt_view(start_after)),
                p == page(s, opt_view(start_after), lim as int),
                j <= i <= n,
                i - j <= lim,
                i - j <= p.len(),
                list@.len() == i - j,
                forall|k: int|
                    0 <= k < i - j ==> sources_response_of(
                        #[trigger] list@[k],
                        p[k].0,
                        p[k].1.view_proxies(),
                    ),
            decreases n - i,
        {
            let res = self.sources.value_at(i).as_res();
            let ghost key = s[i as int].0;
            proof {
                assert(p[i - j] == s[i as int]);
                assert(store_map(s).contains_key(key));
                crate::store::lemma_sorted_index(s, i as int);
            }
            let ghost before = list@;
            list.push(res);
            assert(list@[i - j] == res);
            assert forall|k: int| 0 <= k < i - j implies list@[k] == before[k] by {}
            i = i + 1;
        }
        assert(i - j == p.len());
        Ok(AllSourcesResponse { list })
    }
}

/// The search has ended: it found a price or asked every proxy.
pub open spec fn search_done(ps: PriceSearch) -> bool {
    ps.found is Some || ps.next == ps.proxies@.len()
}

/// A wider time window never loses a price: two ended searches over the same
/// proxies, whose proxies answered alike, the second with a timeframe at least as
/// wide as the first (or none), both within the block time. If the first found a
/// price, the second found one too, from the same proxy or from one listed before it.
pub proof fn law_wider_timeframe(
    ps1: PriceSearch,
    ps2: PriceSearch,
    block_time_nanos: u64,
    tf1: Option<u64>,
    tf2: Option<u64>,
)
    requires
        ps1.wf(),
        ps2.wf(),
        search_done(ps1),
        search_done(ps2),
        ps1.proxies@ == ps2.proxies@,
        forall|i: int|
            0 <= i < ps1.next && 0 <= i < ps2.next ==> ps1.answers@[i] == ps2.answers@[i],
        tf1 matches Some(v) ==> v * 1_000_000_000 <= block_time_nanos,
        tf2 matches Some(v) ==> v * 1_000_000_000 <= block_time_nanos,
        tf2 is None || (tf1 matches Some(v1) && tf2 matches Some(v2) && v1 <= v2),
        ps1.threshold == price_threshold(block_time_nanos, tf1),
        ps2.threshold == price_threshold(block_time_nanos, tf2),
    ensures
        ps1.found is Some ==> ps2.found is Some && ps2.next <= ps1.next,
        price_threshold(block_time_nanos, tf2) <= price_threshold(block_time_nanos, tf1),
{
    assert(price_threshold(block_time_nanos, tf2) <= price_threshold(block_time_nanos, tf1)) by {
        if let (Some(v1), Some(v2)) = (tf1, tf2) {
            assert(v1 * 1_000_000_000 <= v2 * 1_000_000_000) by (nonlinear_arith)
                requires
                    v1 <= v2,
            ;
            lemma_div_monotone(
                block_time_nanos - v2 * 1_000_000_000,
                block_time_nanos - v1 * 1_000_000_000,
            );
        } else if let Some(v1) = tf1 {
            assert(0 <= block_time_nanos - v1 * 1_000_000_000);
        }
    }
    if ps1.found is Some {
        let k1 = ps1.next - 1;
        assert(fresh(ps1.answers@[k1], ps1.threshold));
        assert(fresh(ps1.answers@[k1], ps2.threshold));
        if ps2.next <= k1 {
            assert(ps2.found is Some);
        } else {
            assert(ps2.answers@[k1] == ps1.answers@[k1]);
            if ps2.found is None {
                assert(!fresh(ps2.answers@[k1], ps2.threshold));
            } else if ps2.next > ps1.next {
                assert(!fresh(ps2.answers@[k1], ps2.threshold));
            }
        }
    }
}

proof fn lemma_div_monotone(a: int, b: int)
    requires
        0 <= a <= b,
    ensures
        a / 1_000_000_000 <= b / 1_000_000_000,
{
    assert(a / 1_000_000_000 <= b / 1_000_000_000) by (nonlinear_arith)
        requires
            0 <= a <= b,
    ;
}

/// The price a search finds is the answer of the first proxy, in priority order,
/// whose answer came and is not too old; a search that ends without a price asked
/// every proxy and got no such answer.
pub proof fn law_price_search(ps: PriceSearch)
    requires
        ps.wf(),
    ensures
        ps.found matches Some(p) ==> exists|k: int|
            0 <= k < ps.next && ps.answers@[k] == Some(p) && fresh(
                #[trigger] ps.answers@[k],
                ps.threshold,
            ) && forall|j: int| 0 <= j < k ==> !fresh(#[trigger] ps.answers@[j], ps.threshold),
        ps.found is None && ps.next == ps.proxies@.len() ==> forall|k: int|
            0 <= k < ps.proxies@.len() ==> !fresh(#[trigger] ps.answers@[k], ps.threshold),
{
    if ps.found is Some {
        let k = ps.next - 1;
        assert(fresh(ps.answers@[k], ps.threshold));
    }
}

/// Two pages of the sources of all symbols, the second starting after the last
/// symbol of the first, join into the sources of the first symbols in storage
/// order, each symbol once.
pub proof fn law_all_sources_pages_join(
    hub: Hub,
    l1: u32,
    l2: u32,
    r1: AllSourcesResponse,
    r2: AllSourcesResponse,
)
    requires
        hub.wf(),
        1 <= l1 <= MAX_PAGINATION_LIMIT,
        1 <= l2 <= MAX_PAGINATION_LIMIT,
        all_sources_ok(hub.sources@, None, Some(l1), r1),
        r1.list@.len() > 0,
        all_sources_ok(hub.sources@, Some(r1.list@.last().symbol@), Some(l2), r2),
    ensures
        ({
            let s = hub.sources@;
            let list = r1.list@ + r2.list@;
            &&& list.len() == if l1 + l2 < s.len() {
                l1 + l2
            } else {
                s.len() as int
            }
            &&& forall|i: int|
                0 <= i < list.len() ==> sources_response_of(
                    #[trigger] list[i],
                    s[i].0,
                    s[i].1.view_proxies(),
                )
            &&& forall|i: int, k: int|
                0 <= i < k < list.len() ==> #[trigger] list[i].symbol@ != #[trigger] list[k].symbol@
        }),
{
    let s = hub.sources@;
    let p1 = page(s, None, l1 as int);
    let p2 = page(s, Some(p1.last().0), l2 as int);
    assert(r1.list@.last() == r1.list@[p1.len() - 1]);
    assert(r1.list@.last().symbol@ == p1.last().0);
    crate::store::law_pages_join(s, None, l1 as int, l2 as int);
    crate::store::law_first_page(s, l1 as int + l2 as int);
    let joined = p1 + p2;
    let list = r1.list@ + r2.list@;
    assert(joined == s.take(joined.len() as int));
    assert forall|i: int| 0 <= i < list.len() implies sources_response_of(
        #[trigger] list[i],
        s[i].0,
        s[i].1.view_proxies(),
    ) by {
        if i < r1.list@.len() {
            assert(list[i] == r1.list@[i]);
            assert(joined[i] == p1[i]);
        } else {
            let k = i - r1.list@.len();
            assert(list[i] == r2.list@[k]);
            assert(joined[i] == p2[k]);
        }
        assert(joined[i] == s[i]);
    }
    assert forall|i: int, k: int| 0 <= i < k < list.len() implies #[trigger] list[i].symbol@
        != #[trigger] list[k].symbol@ by {
        assert(sources_response_of(list[i], s[i].0, s[i].1.view_proxies()));
        assert(sources_response_of(list[k], s[k].0, s[k].1.view_proxies()));
        assert(crate::keys::key_lt(s[i].0, s[k].0));
        crate::keys::lemma_key_lt_order(s[i].0, s[k].0, s[i].0);
    }
}

} // verus!
