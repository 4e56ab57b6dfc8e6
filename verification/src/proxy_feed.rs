//! A proxy whose prices are fed by registered feeders, one feeder per symbol.
use vstd::prelude::*;
use crate::decimal::{decimal_display, std_decimal_to_string, Decimal};
use crate::errors::{ContractError, StdError};
use crate::hub::handle::pairs_view;
use crate::hub::state::{chars_of_string, lemma_map_values_insert};
use crate::proxy::{owner_update, ProxyPriceResponse, ProxyQueryMsg};
use crate::store::{store_map, KeyedStore};

verus! {

#[derive(Debug, Clone, PartialEq, Eq)]
pub struct InstantiateMsg {
    pub owner: String,
}

#[derive(Debug, Clone, PartialEq, Eq)]
pub enum ExecuteMsg {
    UpdateOwner { owner: String },
    /// Registers a feeder for a symbol, or replaces the one registered
    RegisterFeed { symbol: String, feeder: String },
    /// Feeder operation: (symbol, price) pairs
    FeedPrices { prices: Vec<(String, Decimal)> },
}

#[derive(Debug, Clone, PartialEq, Eq)]
pub enum QueryMsg {
    Base(ProxyQueryMsg),
    Config {},
    Feeder { symbol: String },
}

#[derive(Debug, Clone, PartialEq, Eq)]
pub struct ConfigResponse {
    pub owner: String,
}

#[derive(Debug, Clone, PartialEq, Eq)]
pub struct FeederResponse {
    pub symbol: String,
    pub feeder: String,
}

/// The configuration of the feed proxy.
#[derive(Debug, Clone, PartialEq, Eq)]
pub struct Config {
    pub owner: String,
}

impl Config {
    pub fn as_res(&self) -> (r: ConfigResponse)
        ensures
            r.owner@ == self.owner@,
    {
        ConfigResponse { owner: self.owner.clone() }
    }

    /// Checks if the provided addr is owner
    pub fn is_owner(&self, addr: &String) -> (r: bool)
        ensures
            r == (self.owner@ == addr@),
    {
        self.owner == *addr
    }
}

/// The last price fed for a symbol and when it was fed.
#[derive(Debug, Clone, Copy, PartialEq, Eq, Structural)]
pub struct PriceInfo {
    pub price: Decimal,
    /// seconds
    pub last_updated_time: u64,
}

impl PriceInfo {
    pub fn as_res(&self) -> (r: ProxyPriceResponse)
        ensures
            r.rate == self.price,
            r.last_updated == self.last_updated_time,
    {
        ProxyPriceResponse { rate: self.price, last_updated: self.last_updated_time }
    }
}

/// The answer to a query of the feed proxy.
#[derive(Debug, Clone, PartialEq, Eq)]
pub enum FeedQueryAnswer {
    Config(ConfigResponse),
    Feeder(FeederResponse),
    Price(ProxyPriceResponse),
}

/// The storage of the feed proxy.
pub struct FeedProxy {
    pub config: Config,
    /// feeder by symbol
    pub feeders: KeyedStore<String>,
    /// last price by symbol
    pub prices: KeyedStore<PriceInfo>,
}

impl FeedProxy {
    pub open spec fn wf(&self) -> bool {
        self.feeders.wf() && self.prices.wf()
    }

    /// The feeders, as values.
    pub open spec fn feeders_view(&self) -> Map<Seq<char>, Seq<char>> {
        store_map(self.feeders@).map_values(chars_of_string())
    }

    /// The last prices.
    pub open spec fn prices_view(&self) -> Map<Seq<char>, PriceInfo> {
        store_map(self.prices@)
    }
}

/// A list of (symbol, price) pairs as values.
pub open spec fn feed_items_view(v: Seq<(String, Decimal)>) -> Seq<(Seq<char>, Decimal)> {
    v.map_values(|e: (String, Decimal)| (e.0@, e.1))
}

/// The first error of a price feed by `sender`, if any: for the first symbol in
/// the list that has no feeder, or whose feeder is someone else.
pub open spec fn feed_error(
    feeders: Map<Seq<char>, Seq<char>>,
    sender: Seq<char>,
    items: Seq<(Seq<char>, Decimal)>,
) -> Option<FeedFailure>
    decreases items.len(),
{
    if items.len() == 0 {
        None
    } else if !feeders.contains_key(items[0].0) {
        Some(FeedFailure::NoFeeder)
    } else if feeders[items[0].0] != sender {
        Some(FeedFailure::NotFeeder)
    } else {
        feed_error(feeders, sender, items.drop_first())
    }
}

/// Why a price feed fails.
pub enum FeedFailure {
    NoFeeder,
    NotFeeder,
}

/// The error a price feed fails with.
pub open spec fn feed_failure_error(f: FeedFailure, e: ContractError) -> bool {
    match f {
        FeedFailure::NoFeeder => e matches ContractError::ProxyError { reason } && reason@
            == "There is no feeder registered for the provided symbol"@,
        FeedFailure::NotFeeder => e == ContractError::Unauthorized,
    }
}

/// The last prices after feeding `items` in order at time `now` (a later price wins).
pub open spec fn feed_all(
    m: Map<Seq<char>, PriceInfo>,
    items: Seq<(Seq<char>, Decimal)>,
    now: u64,
) -> Map<Seq<char>, PriceInfo>
    decreases items.len(),
{
    if items.len() == 0 {
        m
    } else {
        feed_all(
            m.insert(items[0].0, PriceInfo { price: items[0].1, last_updated_time: now }),
            items.drop_first(),
            now,
        )
    }
}

/// The last prices after a feed by `sender` that records the items in order, each
/// once its symbol is checked, and stops at the first symbol that `sender` may not
/// feed (the prices recorded before it stay recorded).
pub open spec fn feed_partial(
    feeders: Map<Seq<char>, Seq<char>>,
    sender: Seq<char>,
    m: Map<Seq<char>, PriceInfo>,
    items: Seq<(Seq<char>, Decimal)>,
    now: u64,
) -> Map<Seq<char>, PriceInfo>
    decreases items.len(),
{
    if items.len() == 0 {
        m
    } else if !feeders.contains_key(items[0].0) || feeders[items[0].0] != sender {
        m
    } else {
        feed_partial(
            feeders,
            sender,
            m.insert(items[0].0, PriceInfo { price: items[0].1, last_updated_time: now }),
            items.drop_first(),
            now,
        )
    }
}

/// The attributes of the first `n` items of a price feed.
pub open spec fn feed_attributes(items: Seq<(Seq<char>, Decimal)>, n: int) -> Seq<
    (Seq<char>, Seq<char>),
>
    decreases n,
{
    if n <= 0 {
        seq![("action"@, "price_feed"@)]
    } else {
        feed_attributes(items, n - 1).push(("symbol"@, items[n - 1].0)).push(
            ("price"@, decimal_display(items[n - 1].1.atomics)),
        )
    }
}

/// `UpdateOwner`: only the owner may change the owner; feeders and prices stay.
pub open spec fn update_owner_post(
    before: FeedProxy,
    after: FeedProxy,
    sender: Seq<char>,
    owner: Seq<char>,
    check: Result<(), StdError>,
    r: Result<(), ContractError>,
) -> bool {
    &&& after.feeders == before.feeders
    &&& after.prices == before.prices
    &&& match owner_update(before.config.owner@, sender, owner, check) {
        Ok(o) => r is Ok && after.config.owner@ == o,
        Err(e) => r == Err::<(), ContractError>(e) && after.config == before.config,
    }
}

/// `RegisterFeed`: the owner sets the feeder of a symbol, if the address is valid.
pub open spec fn register_feed_post(
    before: FeedProxy,
    after: FeedProxy,
    sender: Seq<char>,
    symbol: Seq<char>,
    feeder: Seq<char>,
    check: Result<(), StdError>,
    r: Result<(), ContractError>,
) -> bool {
    &&& after.wf()
    &&& after.config == before.config
    &&& after.prices == before.prices
    &&& if before.config.owner@ != sender {
        r == Err::<(), ContractError>(ContractError::Unauthorized) && after.feeders_view()
            == before.feeders_view()
    } else {
        match check {
            Err(e) => r == Err::<(), ContractError>(ContractError::Std(e)) && after.feeders_view()
                == before.feeders_view(),
            Ok(_) => r is Ok && after.feeders_view() == before.feeders_view().insert(
                symbol,
                feeder,
            ),
        }
    }
}

/// `FeedPrices`: the prices are recorded in order at time `now`; either all are
/// and the attributes are returned, or the feed fails at its first symbol that
/// `sender` may not feed, with the prices before it recorded (the host discards
/// the writes of a failed operation).
pub open spec fn feed_prices_post(
    before: FeedProxy,
    after: FeedProxy,
    sender: Seq<char>,
    now: u64,
    items: Seq<(Seq<char>, Decimal)>,
    r: Result<Vec<(String, String)>, ContractError>,
) -> bool {
    &&& after.wf()
    &&& after.config == before.config
    &&& after.feeders == before.feeders
    &&& match feed_error(before.feeders_view(), sender, items) {
        Some(f) => r matches Err(e) && feed_failure_error(f, e) && after.prices_view()
            == feed_partial(before.feeders_view(), sender, before.prices_view(), items, now),
        None => r matches Ok(attrs) && pairs_view(attrs@) == feed_attributes(
            items,
            items.len() as int,
        ) && after.prices_view() == feed_all(before.prices_view(), items, now),
    }
}

/// The number of address verdicts an operation needs.
pub open spec fn execute_checks_len(msg: ExecuteMsg) -> nat {
    match msg {
        ExecuteMsg::UpdateOwner { .. } => 1,
        ExecuteMsg::RegisterFeed { .. } => 1,
        ExecuteMsg::FeedPrices { .. } => 0,
    }
}

impl FeedProxy {
    /// Instantiates the proxy; `owner_check` is the host's verdict on the owner address
    pub fn instantiate(msg: InstantiateMsg, owner_check: Result<(), StdError>) -> (r: Result<
        FeedProxy,
        ContractError,
    >)
        ensures
            match owner_check {
                Err(e) => r == Err::<FeedProxy, ContractError>(ContractError::Std(e)),
                Ok(_) => r matches Ok(p) && p.config.owner@ == msg.owner@ && p.wf()
                    && p.feeders_view() == Map::<Seq<char>, Seq<char>>::empty()
                    && p.prices_view() == Map::<Seq<char>, PriceInfo>::empty(),
            },
    {
        if let Err(e) = owner_check {
            return Err(ContractError::Std(e));
        }
        let p = FeedProxy {
            config: Config { owner: msg.owner },
            feeders: KeyedStore::new(),
            prices: KeyedStore::new(),
        };
        assert(p.feeders_view() =~= Map::<Seq<char>, Seq<char>>::empty());
        assert(p.prices_view() =~= Map::<Seq<char>, PriceInfo>::empty());
        Ok(p)
    }

    /// Updates the `owner` address
    pub fn update_owner(&mut self, sender: &String, owner: String, check: Result<(), StdError>) -> (r:
        Result<(), ContractError>)
        ensures
            update_owner_post(*old(self), *final(self), sender@, owner@, check, r),
    {
        if !self.config.is_owner(sender) {
            return Err(ContractError::Unauthorized);
        }
        if let Err(e) = check {
            return Err(ContractError::Std(e));
        }
        self.config.owner = owner;
        Ok(())
    }

    /// Registers a new `feeder` or replaces the one registered for `symbol`
    pub fn register_feed(
        &mut self,
        sender: &String,
        symbol: String,
        feeder: String,
        check: Result<(), StdError>,
    ) -> (r: Result<(), ContractError>)
        requires
            old(self).wf(),
        ensures
            register_feed_post(*old(self), *final(self), sender@, symbol@, feeder@, check, r),
    {
        if !self.config.is_owner(sender) {
            return Err(ContractError::Unauthorized);
        }
        if let Err(e) = check {
            return Err(ContractError::Std(e));
        }
        let ghost raw0 = store_map(self.feeders@);
        self.feeders.save(symbol, feeder);
        proof {
            lemma_map_values_insert(raw0, symbol@, feeder, chars_of_string());
        }
        Ok(())
    }

    /// Feeder operation: records the price of each symbol in `prices`, at time `now`
    /// (seconds). Each symbol must have `sender` as its feeder. Returns the
    /// attributes of the operation.
    pub fn feed_prices(&mut self, sender: &String, now: u64, prices: Vec<(String, Decimal)>) -> (r:
        Result<Vec<(String, String)>, ContractError>)
        requires
            old(self).wf(),
        ensures
            feed_prices_post(*old(self), *final(self), sender@, now, feed_items_view(prices@), r),
    {
        let ghost items = feed_items_view(prices@);
        let ghost fmap = self.feeders_view();
        let ghost partial = feed_partial(fmap, sender@, self.prices_view(), items, now);
        let ghost target = feed_all(self.prices_view(), items, now);
        let mut attrs: Vec<(String, String)> = Vec::new();
        attrs.push(("action".to_owned(), "price_feed".to_owned()));
        assert(pairs_view(attrs@) =~= feed_attributes(items, 0));
        assert(items.skip(0) =~= items);
        let mut i: usize = 0;
        while i < prices.len()
            invariant
                self.wf(),
                self.config == old(self).config,
                self.feeders == old(self).feeders,
                self.feeders_view() == fmap,
                fmap == old(self).feeders_view(),
                partial == feed_partial(fmap, sender@, old(self).prices_view(), items, now),
                items == feed_items_view(prices@),
                i <= prices@.len(),
                feed_error(fmap, sender@, items) == feed_error(fmap, sender@, items.skip(i as int)),
                partial == feed_partial(fmap, sender@, self.prices_view(), items.skip(i as int), now),
                feed_error(fmap, sender@, items) is None ==> target == feed_all(
                    self.prices_view(),
                    items.skip(i as int),
                    now,
                ),
                pairs_view(attrs@) == feed_attributes(items, i as int),
            decreases prices@.len() - i,
        {
            proof {
                assert(items.skip(i as int)[0] == items[i as int]);
                assert(items.skip(i as int).drop_first() =~= items.skip(i + 1));
                assert(items[i as int].0 == prices@[i as int].0@);
            }
            match self.feeders.get(prices[i].0.as_str()) {
                None => {
                    assert(!fmap.contains_key(items[i as int].0));
                    return Err(
                        ContractError::ProxyError {
                            reason: "There is no feeder registered for the provided symbol".to_owned(),
                        },
                    );
                },
                Some(f) => {
                    assert(fmap.contains_key(items[i as int].0));
                    assert(fmap[items[i as int].0] == f@);
                    if *f != *sender {
                        return Err(ContractError::Unauthorized);
                    }
                },
            }
            let ghost before = attrs@;
            let symbol = prices[i].0.clone();
            let price = prices[i].1;
            attrs.push(("symbol".to_owned(), symbol.clone()));
            attrs.push(("price".to_owned(), std_decimal_to_string(price)));
            assert(pairs_view(attrs@) =~= pairs_view(before).push(("symbol"@, items[i as int].0)).push(
                ("price"@, decimal_display(items[i as int].1.atomics)),
            ));
            let info = PriceInfo { price, last_updated_time: now };
            self.prices.save(symbol, info);
            i = i + 1;
        }
        assert(items.skip(prices@.len() as int) =~= Seq::<(Seq<char>, Decimal)>::empty());
        Ok(attrs)
    }

    /// Queries the contract configuration
    pub fn query_config(&self) -> (r: Result<ConfigResponse, ContractError>)
        ensures
            r matches Ok(c) && c.owner@ == self.config.owner@,
    {
        Ok(self.config.as_res())
    }

    /// Queries the registered feeder of a symbol
    pub fn query_feeder(&self, symbol: String) -> (r: Result<FeederResponse, ContractError>)
        requires
            self.wf(),
        ensures
            if self.feeders_view().contains_key(symbol@) {
                r matches Ok(resp) && resp.symbol@ == symbol@ && resp.feeder@
                    == self.feeders_view()[symbol@]
            } else {
                r matches Err(e) && feed_failure_error(FeedFailure::NoFeeder, e)
            },
    {
        match self.feeders.get(symbol.as_str()) {
            Some(f) => {
                let feeder = f.clone();
                Ok(FeederResponse { symbol, feeder })
            },
            None => Err(
                ContractError::ProxyError {
                    reason: "There is no feeder registered for the provided symbol".to_owned(),
                },
            ),
        }
    }

    /// Queries the last price fed for a symbol
    pub fn query_price(&self, symbol: String) -> (r: Result<ProxyPriceResponse, ContractError>)
        requires
            self.wf(),
        ensures
            if self.prices_view().contains_key(symbol@) {
                r matches Ok(p) && p.rate == self.prices_view()[symbol@].price && p.last_updated
                    == self.prices_view()[symbol@].last_updated_time
            } else {
                r matches Err(ContractError::ProxyError { reason }) && reason@
                    == "There is no price feed for the requested symbol"@
            },
    {
        match self.prices.get(symbol.as_str()) {
            Some(info) => Ok(info.as_res()),
            None => Err(
                ContractError::ProxyError {
                    reason: "There is no price feed for the requested symbol".to_owned(),
                },
            ),
        }
    }

    /// Executes an operation at time `now` (seconds); `checks` are the host's
    /// verdicts on its address (the new owner or the feeder). Returns the attributes
    /// of the operation.
    pub fn execute(
        &mut self,
        sender: &String,
        now: u64,
        msg: ExecuteMsg,
        checks: Vec<Result<(), StdError>>,
    ) -> (r: Result<Vec<(String, String)>, ContractError>)
        requires
            old(self).wf(),
            checks@.len() == execute_checks_len(msg),
        ensures
            final(self).wf(),
            match msg {
                ExecuteMsg::UpdateOwner { owner } => (r matches Ok(a) ==> a@.len() == 0)
                    && update_owner_post(
                    *old(self),
                    *final(self),
                    sender@,
                    owner@,
                    checks@[0],
                    match r {
                        Ok(_) => Ok(()),
                        Err(e) => Err(e),
                    },
                ),
                ExecuteMsg::RegisterFeed { symbol, feeder } => (r matches Ok(a) ==> a@.len() == 0)
                    && register_feed_post(
                    *old(self),
                    *final(self),
                    sender@,
                    symbol@,
                    feeder@,
                    checks@[0],
                    match r {
                        Ok(_) => Ok(()),
                        Err(e) => Err(e),
                    },
                ),
                ExecuteMsg::FeedPrices { prices } => feed_prices_post(
                    *old(self),
                    *final(self),
                    sender@,
                    now,
                    feed_items_view(prices@),
                    r,
                ),
            },
    {
        let mut checks = checks;
        match msg {
            ExecuteMsg::UpdateOwner { owner } => {
                let c = checks.remove(0);
                match self.update_owner(sender, owner, c) {
                    Ok(()) => Ok(Vec::new()),
                    Err(e) => Err(e),
                }
            },
            ExecuteMsg::RegisterFeed { symbol, feeder } => {
                let c = checks.remove(0);
                match self.register_feed(sender, symbol, feeder, c) {
                    Ok(()) => Ok(Vec::new()),
                    Err(e) => Err(e),
                }
            },
            ExecuteMsg::FeedPrices { prices } => self.feed_prices(sender, now, prices),
        }
    }

    /// Answers a query
    pub fn query(&self, msg: QueryMsg) -> (r: Result<FeedQueryAnswer, ContractError>)
        requires
            self.wf(),
        ensures
            match msg {
                QueryMsg::Config {  } => r matches Ok(FeedQueryAnswer::Config(c)) && c.owner@
                    == self.config.owner@,
                QueryMsg::Feeder { symbol } => if self.feeders_view().contains_key(symbol@) {
                    r matches Ok(FeedQueryAnswer::Feeder(resp)) && resp.symbol@ == symbol@
                        && resp.feeder@ == self.feeders_view()[symbol@]
                } else {
                    r matches Err(e) && feed_failure_error(FeedFailure::NoFeeder, e)
                },
                QueryMsg::Base(ProxyQueryMsg::Price { symbol }) => if self.prices_view().contains_key(
                    symbol@,
                ) {
                    r matches Ok(FeedQueryAnswer::Price(p)) && p.rate == self.prices_view()[symbol@].price
                        && p.last_updated == self.prices_view()[symbol@].last_updated_time
                } else {
                    r matches Err(ContractError::ProxyError { reason }) && reason@
                        == "There is no price feed for the requested symbol"@
                },
            },
    {
        match msg {
            QueryMsg::Config {  } => Ok(FeedQueryAnswer::Config(self.query_config()?)),
            QueryMsg::Feeder { symbol } => Ok(FeedQueryAnswer::Feeder(self.query_feeder(symbol)?)),
            QueryMsg::Base(ProxyQueryMsg::Price { symbol }) => Ok(
                FeedQueryAnswer::Price(self.query_price(symbol)?),
            ),
        }
    }
}

/// After a feed, the price of a symbol is the last price fed for it, dated `now`;
/// a symbol not fed keeps its price.
pub proof fn law_feed_last_wins(
    m: Map<Seq<char>, PriceInfo>,
    items: Seq<(Seq<char>, Decimal)>,
    now: u64,
    symbol: Seq<char>,
)
    ensures
        (forall|i: int| 0 <= i < items.len() ==> #[trigger] items[i].0 != symbol) ==> (feed_all(
            m,
            items,
            now,
        ).contains_key(symbol) == m.contains_key(symbol) && (m.contains_key(symbol) ==> feed_all(
            m,
            items,
            now,
        )[symbol] == m[symbol])),
        forall|i: int|
            0 <= i < items.len() && #[trigger] items[i].0 == symbol && (forall|j: int|
                i < j < items.len() ==> items[j].0 != symbol) ==> feed_all(
                m,
                items,
                now,
            ).contains_key(symbol) && feed_all(m, items, now)[symbol] == (PriceInfo {
                price: items[i].1,
                last_updated_time: now,
            }),
    decreases items.len(),
{
    if items.len() > 0 {
        let m2 = m.insert(items[0].0, PriceInfo { price: items[0].1, last_updated_time: now });
        let rest = items.drop_first();
        law_feed_last_wins(m2, rest, now, symbol);
        assert forall|i: int|
            0 <= i < items.len() && #[trigger] items[i].0 == symbol && (forall|j: int|
                i < j < items.len() ==> items[j].0 != symbol) implies feed_all(
            m,
            items,
            now,
        ).contains_key(symbol) && feed_all(m, items, now)[symbol] == (PriceInfo {
            price: items[i].1,
            last_updated_time: now,
        }) by {
            if i > 0 {
                assert(rest[i - 1] == items[i]);
                assert forall|j: int| i - 1 < j < rest.len() implies rest[j].0 != symbol by {
                    assert(rest[j] == items[j + 1]);
                }
            } else {
                assert forall|j: int| 0 <= j < rest.len() implies #[trigger] rest[j].0 != symbol by {
                    assert(rest[j] == items[j + 1]);
                }
            }
        }
        if forall|i: int| 0 <= i < items.len() ==> #[trigger] items[i].0 != symbol {
            assert(items[0].0 != symbol);
            assert forall|j: int| 0 <= j < rest.len() implies #[trigger] rest[j].0 != symbol by {
                assert(rest[j] == items[j + 1]);
            }
        }
    }
}

} // verus!
