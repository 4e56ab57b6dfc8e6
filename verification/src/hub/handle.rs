//! The hub's state-changing operations. Each takes the sender of the message
//! and, for each address in it, the host's verdict on that address.
use vstd::prelude::*;
use crate::errors::{ContractError, StdError};
use crate::hub::msg::{DEFAULT_PRIORITY, MAX_WHITELISTED_PROXIES};
use crate::hub::state::{
    chars_of_string, copy_entries, find_address, first_address_index, first_index_of,
    lemma_map_values_insert, proxies_of_sources, Addr, Hub, HubView, Sources,
};
use crate::priority::{
    by_priority, contains_address, entries_view, lemma_by_priority_sorted,
    lemma_push_keeps_unique, lemma_remove_keeps_order, lemma_unique_by_priority,
    unique_addresses,
};
use crate::store::store_map;
use crate::keys::{compare_keys, key_lt, lemma_key_lt_order, KeyOrder};

verus! {

/// The host's verdict on an address: valid, or the error it reported.
pub type AddrCheck = Result<(), StdError>;

/// How an operation ends: with the new state, or with an error and the state
/// as it was.
pub open spec fn outcome(
    spec: Result<HubView, ContractError>,
    r: Result<(), ContractError>,
    before: HubView,
    after: HubView,
) -> bool {
    match spec {
        Ok(v) => r == Ok::<(), ContractError>(()) && after == v,
        Err(e) => r == Err::<(), ContractError>(e) && after == before,
    }
}

/// `UpdateOwner`
pub open spec fn update_owner_spec(
    v: HubView,
    sender: Seq<char>,
    owner: Seq<char>,
    check: AddrCheck,
) -> Result<HubView, ContractError> {
    if v.owner != sender {
        Err(ContractError::Unauthorized)
    } else {
        match check {
            Err(e) => Err(ContractError::Std(e)),
            Ok(_) => Ok(HubView { owner, ..v }),
        }
    }
}

/// `UpdateMaxProxies`
pub open spec fn update_max_proxies_spec(v: HubView, sender: Seq<char>, max: u8) -> Result<
    HubView,
    ContractError,
> {
    if v.owner != sender {
        Err(ContractError::Unauthorized)
    } else {
        Ok(HubView { max_proxies_per_symbol: max, ..v })
    }
}

/// The priority list of `symbol` (empty when it has none).
pub open spec fn proxies_of(v: HubView, symbol: Seq<char>) -> Seq<(u8, Seq<char>)> {
    if v.sources.contains_key(symbol) {
        v.sources[symbol]
    } else {
        Seq::empty()
    }
}

/// Registering one source, once the owner is checked.
pub open spec fn register_effect(
    v: HubView,
    symbol: Seq<char>,
    proxy: Seq<char>,
    check: AddrCheck,
    priority: Option<u8>,
) -> Result<HubView, ContractError> {
    match check {
        Err(e) => Err(ContractError::Std(e)),
        Ok(_) => {
            let prio = match priority {
                Some(p) => p,
                None => DEFAULT_PRIORITY,
            };
            let cur = proxies_of(v, symbol);
            if !v.whitelist.contains(proxy) {
                Err(ContractError::ProxyNotWhitelisted)
            } else if cur.len() >= v.max_proxies_per_symbol {
                Err(ContractError::TooManyProxiesForSymbol { max: v.max_proxies_per_symbol })
            } else if contains_address(cur, proxy) {
                Ok(v)
            } else {
                Ok(
                    HubView {
                        sources: v.sources.insert(symbol, by_priority(cur.push((prio, proxy)))),
                        ..v
                    },
                )
            }
        },
    }
}

/// `RegisterSource`
pub open spec fn register_source_spec(
    v: HubView,
    sender: Seq<char>,
    symbol: Seq<char>,
    proxy: Seq<char>,
    check: AddrCheck,
    priority: Option<u8>,
) -> Result<HubView, ContractError> {
    if v.owner != sender {
        Err(ContractError::Unauthorized)
    } else {
        register_effect(v, symbol, proxy, check, priority)
    }
}

/// `RemoveSource`
pub open spec fn remove_source_spec(
    v: HubView,
    sender: Seq<char>,
    symbol: Seq<char>,
    proxy: Seq<char>,
    check: AddrCheck,
) -> Result<HubView, ContractError> {
    if v.owner != sender {
        Err(ContractError::Unauthorized)
    } else {
        match check {
            Err(e) => Err(ContractError::Std(e)),
            Ok(_) => {
                if !v.sources.contains_key(symbol) {
                    Err(ContractError::SymbolNotRegistered)
                } else if !contains_address(v.sources[symbol], proxy) {
                    Err(ContractError::ProxyNotRegistered)
                } else {
                    let cur = v.sources[symbol];
                    Ok(
                        HubView {
                            sources: v.sources.insert(
                                symbol,
                                cur.remove(first_address_index(cur, proxy)),
                            ),
                            ..v
                        },
                    )
                }
            },
        }
    }
}

/// `WhitelistProxy`
pub open spec fn whitelist_proxy_spec(
    v: HubView,
    sender: Seq<char>,
    proxy: Seq<char>,
    check: AddrCheck,
) -> Result<HubView, ContractError> {
    if v.owner != sender {
        Err(ContractError::Unauthorized)
    } else {
        match check {
            Err(e) => Err(ContractError::Std(e)),
            Ok(_) => {
                if v.whitelist.len() >= MAX_WHITELISTED_PROXIES {
                    Err(ContractError::TooManyWhitelistedProxies { max: MAX_WHITELISTED_PROXIES })
                } else {
                    Ok(HubView { whitelist: v.whitelist.push(proxy), ..v })
                }
            },
        }
    }
}

/// `RemoveProxy`
pub open spec fn remove_proxy_spec(
    v: HubView,
    sender: Seq<char>,
    proxy: Seq<char>,
    check: AddrCheck,
) -> Result<HubView, ContractError> {
    if v.owner != sender {
        Err(ContractError::Unauthorized)
    } else {
        match check {
            Err(e) => Err(ContractError::Std(e)),
            Ok(_) => {
                if !v.whitelist.contains(proxy) {
                    Err(ContractError::ProxyNotWhitelisted)
                } else {
                    Ok(
                        HubView {
                            whitelist: v.whitelist.remove(first_index_of(v.whitelist, proxy)),
                            ..v
                        },
                    )
                }
            },
        }
    }
}

/// The asset symbol map after inserting `items` in order (a later item wins).
pub open spec fn insert_all(m: Map<Seq<char>, Seq<char>>, items: Seq<(Seq<char>, Seq<char>)>) -> Map<
    Seq<char>,
    Seq<char>,
>
    decreases items.len(),
{
    if items.len() == 0 {
        m
    } else {
        insert_all(m.insert(items[0].0, items[0].1), items.drop_first())
    }
}

/// `InsertAssetSymbolMap`
pub open spec fn insert_asset_symbol_map_spec(
    v: HubView,
    sender: Seq<char>,
    items: Seq<(Seq<char>, Seq<char>)>,
) -> Result<HubView, ContractError> {
    if v.owner != sender {
        Err(ContractError::Unauthorized)
    } else {
        Ok(HubView { asset_symbols: insert_all(v.asset_symbols, items), ..v })
    }
}

/// A list of string pairs as values.
pub open spec fn pairs_view(v: Seq<(String, String)>) -> Seq<(Seq<char>, Seq<char>)> {
    v.map_values(|e: (String, String)| (e.0@, e.1@))
}

/// Some address occurs twice in the list.
pub open spec fn has_duplicate_addresses(list: Seq<(Seq<char>, u8)>) -> bool {
    exists|i: int, j: int| 0 <= i < j < list.len() && #[trigger] list[i].0 == #[trigger] list[j].0
}

/// Item `k` of a priority update cannot be applied: its address is invalid or not
/// registered.
pub open spec fn item_fails(
    cur: Seq<(u8, Seq<char>)>,
    list: Seq<(Seq<char>, u8)>,
    checks: Seq<AddrCheck>,
    k: int,
) -> bool {
    checks[k] is Err || !contains_address(cur, list[k].0)
}

/// The error of a failing item.
pub open spec fn item_error(checks: Seq<AddrCheck>, k: int) -> ContractError {
    match checks[k] {
        Err(e) => ContractError::Std(e),
        Ok(_) => ContractError::ProxyNotRegistered,
    }
}

/// Item `k` fails and every other failing item's address comes after its address
/// in storage order: it is the first to fail when the list is processed in order.
pub open spec fn first_failing(
    cur: Seq<(u8, Seq<char>)>,
    list: Seq<(Seq<char>, u8)>,
    checks: Seq<AddrCheck>,
    k: int,
) -> bool {
    &&& 0 <= k < list.len()
    &&& item_fails(cur, list, checks, k)
    &&& forall|j: int|
        0 <= j < list.len() && j != k && #[trigger] item_fails(cur, list, checks, j) ==> key_lt(
            list[k].0,
            list[j].0,
        )
}

/// The priority that the update list gives to address `a`, if it names it.
pub open spec fn new_priority(list: Seq<(Seq<char>, u8)>, a: Seq<char>) -> Option<u8> {
    if exists|k: int| 0 <= k < list.len() && #[trigger] list[k].0 == a {
        Some(list[choose|k: int| 0 <= k < list.len() && #[trigger] list[k].0 == a].1)
    } else {
        None
    }
}

/// The priority list with the priorities of the update list applied.
pub open spec fn apply_priorities(cur: Seq<(u8, Seq<char>)>, list: Seq<(Seq<char>, u8)>) -> Seq<
    (u8, Seq<char>),
> {
    Seq::new(
        cur.len(),
        |i: int|
            match new_priority(list, cur[i].1) {
                Some(p) => (p, cur[i].1),
                None => cur[i],
            },
    )
}

/// `UpdateSourcePriorityList`
pub open spec fn update_priority_spec(
    v: HubView,
    sender: Seq<char>,
    symbol: Seq<char>,
    list: Seq<(Seq<char>, u8)>,
    checks: Seq<AddrCheck>,
) -> Result<HubView, ContractError> {
    if v.owner != sender {
        Err(ContractError::Unauthorized)
    } else if !v.sources.contains_key(symbol) {
        Err(ContractError::SymbolNotRegistered)
    } else if has_duplicate_addresses(list) {
        Err(ContractError::InvalidPriorities)
    } else {
        let cur = v.sources[symbol];
        if exists|k: int| 0 <= k < list.len() && #[trigger] item_fails(cur, list, checks, k) {
            Err(item_error(checks, choose|k: int| #[trigger] first_failing(cur, list, checks, k)))
        } else {
            Ok(
                HubView {
                    sources: v.sources.insert(symbol, by_priority(apply_priorities(cur, list))),
                    ..v
                },
            )
        }
    }
}

/// A priority update list as values.
pub open spec fn priority_list_view(v: Seq<(String, u8)>) -> Seq<(Seq<char>, u8)> {
    v.map_values(|e: (String, u8)| (e.0@, e.1))
}

/// Registering a list of sources one after the other, once the owner is checked;
/// the first error ends it.
pub open spec fn bulk_effect(
    v: HubView,
    items: Seq<(Seq<char>, Seq<char>, AddrCheck, Option<u8>)>,
) -> Result<HubView, ContractError>
    decreases items.len(),
{
    if items.len() == 0 {
        Ok(v)
    } else {
        match register_effect(v, items[0].0, items[0].1, items[0].2, items[0].3) {
            Err(e) => Err(e),
            Ok(v2) => bulk_effect(v2, items.drop_first()),
        }
    }
}

/// `BulkRegisterSource`
pub open spec fn bulk_register_source_spec(
    v: HubView,
    sender: Seq<char>,
    items: Seq<(Seq<char>, Seq<char>, AddrCheck, Option<u8>)>,
) -> Result<HubView, ContractError> {
    if v.owner != sender {
        Err(ContractError::Unauthorized)
    } else {
        bulk_effect(v, items)
    }
}

/// The items of a bulk registration with the verdicts on their addresses.
pub open spec fn bulk_items_view(
    sources: Seq<(String, String, Option<u8>)>,
    checks: Seq<AddrCheck>,
) -> Seq<(Seq<char>, Seq<char>, AddrCheck, Option<u8>)> {
    Seq::new(sources.len(), |i: int| (sources[i].0@, sources[i].1@, checks[i], sources[i].2))
}

/// The state after registering a list of sources one after the other until the
/// first error: the items before it stay registered.
pub open spec fn bulk_partial(
    v: HubView,
    items: Seq<(Seq<char>, Seq<char>, AddrCheck, Option<u8>)>,
) -> HubView
    decreases items.len(),
{
    if items.len() == 0 {
        v
    } else {
        match register_effect(v, items[0].0, items[0].1, items[0].2, items[0].3) {
            Err(_) => v,
            Ok(v2) => bulk_partial(v2, items.drop_first()),
        }
    }
}

/// The state after `BulkRegisterSource`: as it was for a sender other than the
/// owner, else with the items registered up to the first error. (The host
/// discards the writes of a failed operation.)
pub open spec fn bulk_register_source_after(
    v: HubView,
    sender: Seq<char>,
    items: Seq<(Seq<char>, Seq<char>, AddrCheck, Option<u8>)>,
) -> HubView {
    if v.owner != sender {
        v
    } else {
        bulk_partial(v, items)
    }
}

/// When the whole list registers, the state after it is the state it leads to.
pub proof fn lemma_bulk_partial_ok(
    v: HubView,
    items: Seq<(Seq<char>, Seq<char>, AddrCheck, Option<u8>)>,
)
    requires
        bulk_effect(v, items) is Ok,
    ensures
        bulk_partial(v, items) == bulk_effect(v, items)->Ok_0,
    decreases items.len(),
{
    if items.len() > 0 {
        let w = register_effect(v, items[0].0, items[0].1, items[0].2, items[0].3)->Ok_0;
        lemma_bulk_partial_ok(w, items.drop_first());
    }
}

/// The result of an operation: `Ok(())`, or its error.
pub open spec fn result_of(spec: Result<HubView, ContractError>) -> Result<(), ContractError> {
    match spec {
        Ok(_) => Ok(()),
        Err(e) => Err(e),
    }
}

impl Hub {
    /// Updates the owner address
    pub fn update_owner(&mut self, sender: &Addr, owner: String, check: AddrCheck) -> (r: Result<
        (),
        ContractError,
    >)
        requires
            old(self).wf(),
        ensures
            final(self).wf(),
            outcome(
                update_owner_spec(old(self)@, sender@, owner@, check),
                r,
                old(self)@,
                final(self)@,
            ),
    {
        if !self.config.is_owner(sender) {
            return Err(ContractError::Unauthorized);
        }
        match check {
            Err(e) => Err(ContractError::Std(e)),
            Ok(()) => {
                self.config.owner = owner;
                Ok(())
            },
        }
    }

    /// Updates the `max_proxies_per_symbol` parameter
    pub fn update_max_proxies(&mut self, sender: &Addr, max_proxies_per_symbol: u8) -> (r: Result<
        (),
        ContractError,
    >)
        requires
            old(self).wf(),
        ensures
            final(self).wf(),
            outcome(
                update_max_proxies_spec(old(self)@, sender@, max_proxies_per_symbol),
                r,
                old(self)@,
                final(self)@,
            ),
    {
        if !self.config.is_owner(sender) {
            return Err(ContractError::Unauthorized);
        }
        self.config.max_proxies_per_symbol = max_proxies_per_symbol;
        Ok(())
    }

    /// Whitelists a new proxy. After a proxy is whitelisted it can be registered as
    /// a source for a given symbol
    pub fn whitelist_proxy(&mut self, sender: &Addr, proxy_addr: String, check: AddrCheck) -> (r:
        Result<(), ContractError>)
        requires
            old(self).wf(),
        ensures
            final(self).wf(),
            outcome(
                whitelist_proxy_spec(old(self)@, sender@, proxy_addr@, check),
                r,
                old(self)@,
                final(self)@,
            ),
    {
        if !self.config.is_owner(sender) {
            return Err(ContractError::Unauthorized);
        }
        if let Err(e) = check {
            return Err(ContractError::Std(e));
        }
        if self.whitelist.proxies.len() >= MAX_WHITELISTED_PROXIES as usize {
            return Err(ContractError::TooManyWhitelistedProxies { max: MAX_WHITELISTED_PROXIES });
        }
        let ghost before = self.whitelist.proxies@;
        self.whitelist.proxies.push(proxy_addr);
        assert(self.whitelist.view_addresses() =~= old(self)@.whitelist.push(proxy_addr@));
        Ok(())
    }

    /// Removes a proxy from the whitelist
    pub fn remove_proxy(&mut self, sender: &Addr, proxy_addr: String, check: AddrCheck) -> (r:
        Result<(), ContractError>)
        requires
            old(self).wf(),
        ensures
            final(self).wf(),
            outcome(
                remove_proxy_spec(old(self)@, sender@, proxy_addr@, check),
                r,
                old(self)@,
                final(self)@,
            ),
    {
        if !self.config.is_owner(sender) {
            return Err(ContractError::Unauthorized);
        }
        if let Err(e) = check {
            return Err(ContractError::Std(e));
        }
        match self.whitelist.remove(&proxy_addr) {
            Ok(()) => Ok(()),
            Err(e) => Err(e),
        }
    }

    /// Updates the map of asset token to symbol with `map`, a list of
    /// (asset token, symbol); a later pair wins over an earlier one
    pub fn insert_asset_symbol_map(&mut self, sender: &Addr, map: Vec<(String, String)>) -> (r:
        Result<(), ContractError>)
        requires
            old(self).wf(),
        ensures
            final(self).wf(),
            outcome(
                insert_asset_symbol_map_spec(old(self)@, sender@, pairs_view(map@)),
                r,
                old(self)@,
                final(self)@,
            ),
    {
        if !self.config.is_owner(sender) {
            return Err(ContractError::Unauthorized);
        }
        let ghost items = pairs_view(map@);
        let ghost target = insert_all(old(self)@.asset_symbols, items);
        let mut i: usize = 0;
        assert(items.skip(0) =~= items);
        while i < map.len()
            invariant
                self.wf(),
                i <= map@.len(),
                items == pairs_view(map@),
                target == insert_all(self@.asset_symbols, items.skip(i as int)),
                self.config == old(self).config,
                self.whitelist == old(self).whitelist,
                self.sources == old(self).sources,
            decreases map@.len() - i,
        {
            let ghost m0 = self@.asset_symbols;
            let ghost raw0 = store_map(self.asset_symbol_map@);
            let k = map[i].0.clone();
            let s = map[i].1.clone();
            self.asset_symbol_map.save(k, s);
            proof {
                lemma_map_values_insert(raw0, k@, s, chars_of_string());
                assert(items[i as int] == (map@[i as int].0@, map@[i as int].1@));
                assert(self@.asset_symbols == m0.insert(items[i as int].0, items[i as int].1));
                assert(items.skip(i as int).drop_first() =~= items.skip(i + 1));
            }
            i = i + 1;
        }
        assert(items.skip(map@.len() as int) =~= Seq::<(Seq<char>, Seq<char>)>::empty());
        assert(self@ == HubView { asset_symbols: target, ..old(self)@ });
        Ok(())
    }

    /// Registers `proxy_addr` as a source of `symbol`, once the owner is checked.
    fn register_one(
        &mut self,
        symbol: String,
        proxy_addr: String,
        check: AddrCheck,
        priority: Option<u8>,
    ) -> (r: Result<(), ContractError>)
        requires
            old(self).wf(),
        ensures
            final(self).wf(),
            outcome(
                register_effect(old(self)@, symbol@, proxy_addr@, check, priority),
                r,
                old(self)@,
                final(self)@,
            ),
    {
        if let Err(e) = check {
            return Err(ContractError::Std(e));
        }
        let prio: u8 = match priority {
            Some(p) => p,
            None => DEFAULT_PRIORITY,
        };
        if !self.whitelist.is_whitelisted(&proxy_addr) {
            return Err(ContractError::ProxyNotWhitelisted);
        }
        let ghost cur = proxies_of(self@, symbol@);
        let mut proxies: Vec<(u8, Addr)> = match self.sources.get(symbol.as_str()) {
            Some(src) => copy_entries(&src.proxies),
            None => Vec::new(),
        };
        assert(entries_view(proxies@) =~= cur);
        if proxies.len() >= self.config.max_proxies_per_symbol as usize {
            return Err(
                ContractError::TooManyProxiesForSymbol { max: self.config.max_proxies_per_symbol },
            );
        }
        if find_address(&proxies, &proxy_addr).is_some() {
            return Ok(());
        }
        let ghost new_entry = (prio, proxy_addr@);
        proxies.push((prio, proxy_addr));
        assert(entries_view(proxies@) =~= cur.push(new_entry));
        let mut sources = Sources { symbol: symbol.clone(), proxies };
        sources.sort_by_priority();
        proof {
            lemma_by_priority_sorted(cur.push(new_entry));
            if store_map(self.sources@).contains_key(symbol@) {
                assert(unique_addresses(cur));
            } else {
                assert(unique_addresses(cur));
            }
            lemma_push_keeps_unique(cur, new_entry);
            lemma_unique_by_priority(cur.push(new_entry));
        }
        let ghost raw0 = store_map(self.sources@);
        self.sources.save(symbol, sources);
        proof {
            lemma_map_values_insert(raw0, symbol@, sources, proxies_of_sources());
        }
        Ok(())
    }

    /// Registers a new price proxy contract for a symbol
    pub fn register_source(
        &mut self,
        sender: &Addr,
        symbol: String,
        proxy_addr: String,
        check: AddrCheck,
        priority: Option<u8>,
    ) -> (r: Result<(), ContractError>)
        requires
            old(self).wf(),
        ensures
            final(self).wf(),
            outcome(
                register_source_spec(old(self)@, sender@, symbol@, proxy_addr@, check, priority),
                r,
                old(self)@,
                final(self)@,
            ),
    {
        if !self.config.is_owner(sender) {
            return Err(ContractError::Unauthorized);
        }
        self.register_one(symbol, proxy_addr, check, priority)
    }

    /// Removes an existing price proxy for a symbol
    pub fn remove_source(
        &mut self,
        sender: &Addr,
        symbol: String,
        proxy_addr: String,
        check: AddrCheck,
    ) -> (r: Result<(), ContractError>)
        requires
            old(self).wf(),
        ensures
            final(self).wf(),
            outcome(
                remove_source_spec(old(self)@, sender@, symbol@, proxy_addr@, check),
                r,
                old(self)@,
                final(self)@,
            ),
    {
        if !self.config.is_owner(sender) {
            return Err(ContractError::Unauthorized);
        }
        if let Err(e) = check {
            return Err(ContractError::Std(e));
        }
        let mut sources: Sources = match self.sources.get(symbol.as_str()) {
            Some(src) => src.duplicate(),
            None => {
                return Err(ContractError::SymbolNotRegistered);
            },
        };
        let ghost cur = sources.view_proxies();
        assert(cur == self@.sources[symbol@]);
        match sources.remove(&proxy_addr) {
            Err(e) => {
                return Err(e);
            },
            Ok(()) => {},
        }
        proof {
            lemma_remove_keeps_order(cur, first_address_index(cur, proxy_addr@));
        }
        let ghost raw0 = store_map(self.sources@);
        self.sources.save(symbol, sources);
        proof {
            lemma_map_values_insert(raw0, symbol@, sources, proxies_of_sources());
        }
        Ok(())
    }

    /// Registers a list of sources: (symbol, proxy address, priority), one after the
    /// other; the first error ends it, with the sources before it registered
    pub fn bulk_register_source(
        &mut self,
        sender: &Addr,
        sources: Vec<(String, String, Option<u8>)>,
        checks: Vec<AddrCheck>,
    ) -> (r: Result<(), ContractError>)
        requires
            old(self).wf(),
            checks@.len() == sources@.len(),
        ensures
            final(self).wf(),
            r == result_of(
                bulk_register_source_spec(
                    old(self)@,
                    sender@,
                    bulk_items_view(sources@, checks@),
                ),
            ),
            final(self)@ == bulk_register_source_after(
                old(self)@,
                sender@,
                bulk_items_view(sources@, checks@),
            ),
    {
        if !self.config.is_owner(sender) {
            return Err(ContractError::Unauthorized);
        }
        let ghost items = bulk_items_view(sources@, checks@);
        let ghost start = self@;
        let ghost orig_checks = checks@;
        let mut pending = checks;
        let mut i: usize = 0;
        assert(items.skip(0) =~= items);
        while i < sources.len()
            invariant
                self.wf(),
                i <= sources@.len(),
                pending@.len() == sources@.len() - i,
                forall|j: int| 0 <= j < pending@.len() ==> #[trigger] pending@[j] == items[i + j].2,
                items.len() == sources@.len(),
                forall|j: int|
                    0 <= j < items.len() ==> #[trigger] items[j] == (
                        sources@[j].0@,
                        sources@[j].1@,
                        items[j].2,
                        sources@[j].2,
                    ),
                start == old(self)@,
                start.owner == sender@,
                orig_checks == checks@,
                items == bulk_items_view(sources@, orig_checks),
                bulk_effect(start, items) == bulk_effect(self@, items.skip(i as int)),
                bulk_partial(start, items) == bulk_partial(self@, items.skip(i as int)),
            decreases sources@.len() - i,
        {
            let symbol = sources[i].0.clone();
            let proxy = sources[i].1.clone();
            let priority = sources[i].2;
            let check = pending.remove(0);
            proof {
                assert(items[i as int] == items.skip(i as int)[0]);
                assert(items.skip(i as int).drop_first() =~= items.skip(i + 1));
            }
            let ghost before = self@;
            let r = self.register_one(symbol, proxy, check, priority);
            if let Err(e) = r {
                assert(register_effect(
                    before,
                    items[i as int].0,
                    items[i as int].1,
                    items[i as int].2,
                    items[i as int].3,
                ) == Err::<HubView, ContractError>(e));
                return Err(e);
            }
            i = i + 1;
        }
        assert(items.skip(sources@.len() as int) =~= Seq::<
            (Seq<char>, Seq<char>, AddrCheck, Option<u8>),
        >::empty());
        Ok(())
    }

    /// Changes the priority of one or more proxies registered for a symbol; the
    /// list names each proxy once, and every proxy it names must be registered
    pub fn update_source_priority_list(
        &mut self,
        sender: &Addr,
        symbol: String,
        priorities: Vec<(String, u8)>,
        checks: Vec<AddrCheck>,
    ) -> (r: Result<(), ContractError>)
        requires
            old(self).wf(),
            checks@.len() == priorities@.len(),
        ensures
            final(self).wf(),
            outcome(
                update_priority_spec(
                    old(self)@,
                    sender@,
                    symbol@,
                    priority_list_view(priorities@),
                    checks@,
                ),
                r,
                old(self)@,
                final(self)@,
            ),
    {
        let ghost list = priority_list_view(priorities@);
        if !self.config.is_owner(sender) {
            return Err(ContractError::Unauthorized);
        }
        let mut sources: Sources = match self.sources.get(symbol.as_str()) {
            Some(src) => src.duplicate(),
            None => {
                return Err(ContractError::SymbolNotRegistered);
            },
        };
        let ghost cur = sources.view_proxies();
        assert(cur == self@.sources[symbol@]);
        if has_duplicates(&priorities) {
            return Err(ContractError::InvalidPriorities);
        }
        let mut checks = checks;
        match first_failing_item(&sources, &priorities, &checks) {
            Some(b) => {
                proof {
                    assert(first_failing(cur, list, checks@, b as int));
                    let c = choose|k: int| #[trigger] first_failing(cur, list, checks@, k);
                    if c != b {
                        assert(item_fails(cur, list, checks@, c));
                        lemma_key_lt_order(list[b as int].0, list[c].0, list[b as int].0);
                    }
                }
                let c = checks.remove(b);
                match c {
                    Err(e) => {
                        return Err(ContractError::Std(e));
                    },
                    Ok(()) => {
                        return Err(ContractError::ProxyNotRegistered);
                    },
                }
            },
            None => {
                assert forall|k: int| 0 <= k < priorities@.len() implies contains_address(
                    cur,
                    #[trigger] list[k].0,
                ) by {
                    assert(!item_fails(cur, list, checks@, k));
                }
            },
        }
        apply_priority_list(&mut sources, &priorities);
        sources.sort_by_priority();
        proof {
            lemma_by_priority_sorted(apply_priorities(cur, list));
            lemma_unique_by_priority(apply_priorities(cur, list));
        }
        let ghost raw0 = store_map(self.sources@);
        self.sources.save(symbol, sources);
        proof {
            lemma_map_values_insert(raw0, symbol@, sources, proxies_of_sources());
        }
        Ok(())
    }
}

/// Whether some address occurs twice in the list.
fn has_duplicates(list: &Vec<(String, u8)>) -> (r: bool)
    ensures
        r == has_duplicate_addresses(priority_list_view(list@)),
{
    let ghost l = priority_list_view(list@);
    let mut i: usize = 0;
    while i < list.len()
        invariant
            l == priority_list_view(list@),
            i <= list@.len(),
            forall|a: int, b: int|
                0 <= a < b < list@.len() && a < i ==> #[trigger] l[a].0 != #[trigger] l[b].0,
        decreases list@.len() - i,
    {
        let mut j: usize = i + 1;
        while j < list.len()
            invariant
                l == priority_list_view(list@),
                i < list@.len(),
                i + 1 <= j <= list@.len(),
                forall|a: int, b: int|
                0 <= a < b < list@.len() && a < i ==> #[trigger] l[a].0 != #[trigger] l[b].0,
                forall|b: int| i < b < j ==> l[i as int].0 != #[trigger] l[b].0,
            decreases list@.len() - j,
        {
            if list[i].0 == list[j].0 {
                assert(l[i as int].0 == l[j as int].0);
                return true;
            }
            j = j + 1;
        }
        i = i + 1;
    }
    false
}

/// The item that fails first when the list is processed in storage order of its
/// addresses, if any fails.
fn first_failing_item(sources: &Sources, list: &Vec<(String, u8)>, checks: &Vec<AddrCheck>) -> (r:
    Option<usize>)
    requires
        checks@.len() == list@.len(),
        !has_duplicate_addresses(priority_list_view(list@)),
    ensures
        r is None ==> forall|k: int|
            0 <= k < list@.len() ==> !#[trigger] item_fails(
                sources.view_proxies(),
                priority_list_view(list@),
                checks@,
                k,
            ),
        r matches Some(b) ==> b < list@.len() && first_failing(
            sources.view_proxies(),
            priority_list_view(list@),
            checks@,
            b as int,
        ),
{
    let ghost cur = sources.view_proxies();
    let ghost l = priority_list_view(list@);
    let mut best: Option<usize> = None;
    let mut k: usize = 0;
    while k < list.len()
        invariant
            cur == sources.view_proxies(),
            l == priority_list_view(list@),
            checks@.len() == list@.len(),
            !has_duplicate_addresses(l),
            k <= list@.len(),
            best is None ==> forall|j: int| 0 <= j < k ==> !#[trigger] item_fails(cur, l, checks@, j),
            best matches Some(b) ==> b < k && item_fails(cur, l, checks@, b as int) && forall|j: int|
                0 <= j < k && j != b && #[trigger] item_fails(cur, l, checks@, j) ==> key_lt(
                    l[b as int].0,
                    l[j].0,
                ),
        decreases list@.len() - k,
    {
        let fails = checks[k].is_err() || !sources.is_registered(&list[k].0);
        assert(fails == item_fails(cur, l, checks@, k as int));
        if fails {
            match best {
                None => {
                    best = Some(k);
                },
                Some(b) => {
                    let c = compare_keys(list[k].0.as_str(), list[b].0.as_str());
                    proof {
                        assert(l[k as int].0 != l[b as int].0);
                    }
                    if c == KeyOrder::Less {
                        proof {
                            assert forall|j: int|
                                0 <= j < k + 1 && j != k && #[trigger] item_fails(
                                    cur,
                                    l,
                                    checks@,
                                    j,
                                ) implies key_lt(l[k as int].0, l[j].0) by {
                                if j != b {
                                    lemma_key_lt_order(l[k as int].0, l[b as int].0, l[j].0);
                                }
                            }
                        }
                        best = Some(k);
                    } else {
                        proof {
                            lemma_key_lt_order(l[k as int].0, l[b as int].0, l[k as int].0);
                        }
                    }
                },
            }
        }
        k = k + 1;
    }
    best
}

/// Applies the priorities of an update list whose every address is registered.
fn apply_priority_list(sources: &mut Sources, list: &Vec<(String, u8)>)
    requires
        unique_addresses(old(sources).view_proxies()),
        !has_duplicate_addresses(priority_list_view(list@)),
        forall|k: int|
            0 <= k < list@.len() ==> contains_address(
                old(sources).view_proxies(),
                #[trigger] priority_list_view(list@)[k].0,
            ),
    ensures
        final(sources).symbol == old(sources).symbol,
        final(sources).view_proxies() == apply_priorities(
            old(sources).view_proxies(),
            priority_list_view(list@),
        ),
        unique_addresses(final(sources).view_proxies()),
{
    let ghost cur = sources.view_proxies();
    let ghost l = priority_list_view(list@);
    let mut k: usize = 0;
    proof {
        lemma_apply_none(cur, l.take(0));
    }
    while k < list.len()
        invariant
            l == priority_list_view(list@),
            k <= list@.len(),
            !has_duplicate_addresses(l),
            unique_addresses(cur),
            forall|j: int| 0 <= j < list@.len() ==> contains_address(cur, #[trigger] l[j].0),
            sources.symbol == old(sources).symbol,
            sources.view_proxies() == apply_priorities(cur, l.take(k as int)),
        decreases list@.len() - k,
    {
        let ghost before = sources.view_proxies();
        proof {
            lemma_same_addresses(cur, l.take(k as int));
            let i = choose|i: int| 0 <= i < cur.len() && #[trigger] cur[i].1 == l[k as int].0;
            assert(before[i].1 == l[k as int].0);
        }
        let r = sources.update_proxy_priority(&list[k].0, list[k].1);
        proof {
            lemma_apply_step(cur, l, k as int, first_address_index(before, l[k as int].0));
        }
        k = k + 1;
    }
    assert(l.take(list@.len() as int) =~= l);
    proof {
        lemma_same_addresses(cur, l);
        let s = apply_priorities(cur, l);
        assert forall|a: int, b: int| 0 <= a < b < s.len() implies s[a].1 != s[b].1 by {
            assert(s[a].1 == cur[a].1 && s[b].1 == cur[b].1);
        }
    }
}

/// Applying an update list keeps every address in its place.
proof fn lemma_same_addresses(cur: Seq<(u8, Seq<char>)>, list: Seq<(Seq<char>, u8)>)
    ensures
        apply_priorities(cur, list).len() == cur.len(),
        forall|i: int| 0 <= i < cur.len() ==> #[trigger] apply_priorities(cur, list)[i].1 == cur[i].1,
{
}

proof fn lemma_apply_none(cur: Seq<(u8, Seq<char>)>, list: Seq<(Seq<char>, u8)>)
    requires
        list.len() == 0,
    ensures
        apply_priorities(cur, list) == cur,
{
    assert(apply_priorities(cur, list) =~= cur);
}

proof fn lemma_apply_step(cur: Seq<(u8, Seq<char>)>, l: Seq<(Seq<char>, u8)>, k: int, i: int)
    requires
        0 <= k < l.len(),
        !has_duplicate_addresses(l),
        unique_addresses(cur),
        0 <= i < cur.len(),
        cur[i].1 == l[k].0,
    ensures
        apply_priorities(cur, l.take(k + 1)) == apply_priorities(cur, l.take(k)).update(
            i,
            (l[k].1, l[k].0),
        ),
{
    let t0 = l.take(k);
    let t1 = l.take(k + 1);
    assert forall|j: int| 0 <= j < cur.len() implies #[trigger] apply_priorities(cur, t1)[j]
        == apply_priorities(cur, t0).update(i, (l[k].1, l[k].0))[j] by {
        let a = cur[j].1;
        if j == i {
            assert(t1[k] == l[k]);
            let c = choose|c: int| 0 <= c < t1.len() && #[trigger] t1[c].0 == a;
            if c != k {
                assert(t1[c] == l[c]);
                assert(l[c].0 == l[k].0);
                if c < k {
                    assert(has_duplicate_addresses(l));
                } else {
                    assert(has_duplicate_addresses(l));
                }
            }
        } else {
            assert(a != l[k].0);
            if exists|c: int| 0 <= c < t1.len() && #[trigger] t1[c].0 == a {
                let c = choose|c: int| 0 <= c < t1.len() && #[trigger] t1[c].0 == a;
                assert(c != k);
                assert(t0[c] == t1[c]);
                let d = choose|d: int| 0 <= d < t0.len() && #[trigger] t0[d].0 == a;
                assert(t1[d] == t0[d]);
                if c != d {
                    if c < d {
                        assert(l[c].0 == l[d].0);
                    } else {
                        assert(l[d].0 == l[c].0);
                    }
                }
            }
            if exists|d: int| 0 <= d < t0.len() && #[trigger] t0[d].0 == a {
                let d = choose|d: int| 0 <= d < t0.len() && #[trigger] t0[d].0 == a;
                assert(t1[d] == t0[d]);
            }
        }
    }
    assert(apply_priorities(cur, t1) =~= apply_priorities(cur, t0).update(i, (l[k].1, l[k].0)));
}

} // verus!
