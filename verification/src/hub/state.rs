//! The state of the oracle hub.
use vstd::prelude::*;
use crate::errors::ContractError;
use crate::hub::msg::{ConfigResponse, ProxyInfoResponse, ProxyWhitelistResponse, SourcesResponse};
use crate::priority::{
    by_priority, contains_address, entries_view, sort_entries_by_priority, sorted_by_priority,
    unique_addresses,
};
use crate::store::{store_map, KeyedStore};

verus! {

/// An address, as the host validated it.
pub type Addr = String;

/// The addresses of a list of strings, as characters.
pub open spec fn addresses_view(v: Seq<String>) -> Seq<Seq<char>> {
    v.map_values(|a: String| a@)
}

/// The first position of address `a` in the priority list (when it is there).
pub open spec fn first_address_index(s: Seq<(u8, Seq<char>)>, a: Seq<char>) -> int {
    choose|i: int|
        0 <= i < s.len() && s[i].1 == a && forall|j: int| 0 <= j < i ==> #[trigger] s[j].1 != a
}

/// The first position of `a` in a list of addresses (when it is there).
pub open spec fn first_index_of(s: Seq<Seq<char>>, a: Seq<char>) -> int {
    choose|i: int| 0 <= i < s.len() && s[i] == a && forall|j: int| 0 <= j < i ==> #[trigger] s[j] != a
}

/// Finds the first position of `a` in `v`.
pub fn find_address(v: &Vec<(u8, String)>, a: &String) -> (r: Option<usize>)
    ensures
        r.is_some() == contains_address(entries_view(v@), a@),
        r matches Some(i) ==> i < v@.len() && i == first_address_index(entries_view(v@), a@)
            && entries_view(v@)[i as int].1 == a@,
{
    let ghost s = entries_view(v@);
    let mut i: usize = 0;
    while i < v.len()
        invariant
            s == entries_view(v@),
            i <= v@.len(),
            forall|j: int| 0 <= j < i ==> #[trigger] s[j].1 != a@,
        decreases v@.len() - i,
    {
        if v[i].1 == *a {
            proof {
                assert(s[i as int].1 == a@);
                let c = first_address_index(s, a@);
                assert(0 <= c < s.len() && s[c].1 == a@ && forall|j: int|
                    0 <= j < c ==> #[trigger] s[j].1 != a@);
                if c < i {
                    assert(s[c].1 != a@);
                } else if c > i {
                    assert(s[i as int].1 != a@);
                }
            }
            return Some(i);
        }
        i = i + 1;
    }
    None
}

proof fn lemma_entries_view_remove(v: Seq<(u8, String)>, i: int)
    requires
        0 <= i < v.len(),
    ensures
        entries_view(v.remove(i)) == entries_view(v).remove(i),
{
    v.remove_ensures(i);
    entries_view(v).remove_ensures(i);
    assert(entries_view(v.remove(i)) =~= entries_view(v).remove(i));
}

proof fn lemma_addresses_view_remove(v: Seq<String>, i: int)
    requires
        0 <= i < v.len(),
    ensures
        addresses_view(v.remove(i)) == addresses_view(v).remove(i),
{
    v.remove_ensures(i);
    addresses_view(v).remove_ensures(i);
    assert(addresses_view(v.remove(i)) =~= addresses_view(v).remove(i));
}

/// Copies a priority list.
pub fn copy_entries(v: &Vec<(u8, String)>) -> (r: Vec<(u8, String)>)
    ensures
        entries_view(r@) == entries_view(v@),
{
    let mut out: Vec<(u8, String)> = Vec::new();
    let mut i: usize = 0;
    while i < v.len()
        invariant
            i <= v@.len(),
            entries_view(out@) == entries_view(v@).take(i as int),
        decreases v@.len() - i,
    {
        let ghost before = out@;
        out.push((v[i].0, v[i].1.clone()));
        assert(entries_view(out@) =~= entries_view(before).push(entries_view(v@)[i as int]));
        assert(entries_view(v@).take(i + 1) =~= entries_view(v@).take(i as int).push(
            entries_view(v@)[i as int],
        ));
        i = i + 1;
    }
    assert(entries_view(v@).take(v@.len() as int) =~= entries_view(v@));
    out
}

/// Copies a list of strings.
pub fn copy_strings(v: &Vec<String>) -> (r: Vec<String>)
    ensures
        addresses_view(r@) == addresses_view(v@),
{
    let mut out: Vec<String> = Vec::new();
    let mut i: usize = 0;
    while i < v.len()
        invariant
            i <= v@.len(),
            addresses_view(out@) == addresses_view(v@).take(i as int),
        decreases v@.len() - i,
    {
        let ghost before = out@;
        out.push(v[i].clone());
        assert(addresses_view(out@) =~= addresses_view(before).push(addresses_view(v@)[i as int]));
        assert(addresses_view(v@).take(i + 1) =~= addresses_view(v@).take(i as int).push(
            addresses_view(v@)[i as int],
        ));
        i = i + 1;
    }
    assert(addresses_view(v@).take(v@.len() as int) =~= addresses_view(v@));
    out
}

/// The configuration of the hub.
#[derive(Debug, Clone, PartialEq, Eq)]
pub struct Config {
    pub owner: Addr,
    /// base denomination; for information only: proxies registered should
    /// answer in this denomination
    pub base_denom: String,
    pub max_proxies_per_symbol: u8,
}

impl Config {
    pub fn as_res(&self) -> (r: ConfigResponse)
        ensures
            r.owner@ == self.owner@,
            r.base_denom@ == self.base_denom@,
            r.max_proxies_per_symbol == self.max_proxies_per_symbol,
    {
        ConfigResponse {
            owner: self.owner.clone(),
            base_denom: self.base_denom.clone(),
            max_proxies_per_symbol: self.max_proxies_per_symbol,
        }
    }

    /// Checks if the provided `addr` is owner
    pub fn is_owner(&self, addr: &Addr) -> (r: bool)
        ensures
            r == (self.owner@ == addr@),
    {
        self.owner == *addr
    }
}

/// A whitelisted proxy and the name of its provider.
#[derive(Debug, Clone, PartialEq, Eq)]
pub struct ProxyInfo {
    pub address: Addr,
    pub provider_name: String,
}

impl ProxyInfo {
    pub fn as_res(&self) -> (r: ProxyInfoResponse)
        ensures
            r.address@ == self.address@,
            r.provider_name@ == self.provider_name@,
    {
        ProxyInfoResponse {
            address: self.address.clone(),
            provider_name: self.provider_name.clone(),
        }
    }
}

/// The proxies that may be registered as sources, in the order they were whitelisted.
#[derive(Debug, Clone, PartialEq, Eq)]
pub struct ProxyWhitelist {
    pub proxies: Vec<Addr>,
}

impl ProxyWhitelist {
    /// The whitelisted addresses.
    pub open spec fn view_addresses(&self) -> Seq<Seq<char>> {
        addresses_view(self.proxies@)
    }

    pub fn as_res(&self) -> (r: ProxyWhitelistResponse)
        ensures
            addresses_view(r.proxies@) == self.view_addresses(),
    {
        ProxyWhitelistResponse { proxies: copy_strings(&self.proxies) }
    }

    /// Finds the first position of `proxy_addr`.
    fn position(&self, proxy_addr: &Addr) -> (r: Option<usize>)
        ensures
            r.is_some() == self.view_addresses().contains(proxy_addr@),
            r matches Some(i) ==> i < self.proxies@.len() && i == first_index_of(
                self.view_addresses(),
                proxy_addr@,
            ) && self.view_addresses()[i as int] == proxy_addr@,
    {
        let ghost s = self.view_addresses();
        let mut i: usize = 0;
        while i < self.proxies.len()
            invariant
                s == self.view_addresses(),
                i <= self.proxies@.len(),
                forall|j: int| 0 <= j < i ==> #[trigger] s[j] != proxy_addr@,
            decreases self.proxies@.len() - i,
        {
            if self.proxies[i] == *proxy_addr {
                proof {
                    assert(s[i as int] == proxy_addr@);
                    let c = first_index_of(s, proxy_addr@);
                    assert(0 <= c < s.len() && s[c] == proxy_addr@ && forall|j: int|
                        0 <= j < c ==> #[trigger] s[j] != proxy_addr@);
                    if c < i {
                        assert(s[c] != proxy_addr@);
                    } else if c > i {
                        assert(s[i as int] != proxy_addr@);
                    }
                }
                return Some(i);
            }
            i = i + 1;
        }
        None
    }

    /// Checks if the proxy is whitelisted
    pub fn is_whitelisted(&self, proxy_addr: &Addr) -> (r: bool)
        ensures
            r == self.view_addresses().contains(proxy_addr@),
    {
        self.position(proxy_addr).is_some()
    }

    /// Finds the whitelisted proxy with this address
    pub fn find_by_addr(&self, proxy_addr: &Addr) -> (r: Result<Addr, ContractError>)
        ensures
            self.view_addresses().contains(proxy_addr@) ==> (r matches Ok(a) && a@
                == proxy_addr@),
            !self.view_addresses().contains(proxy_addr@) ==> r == Err::<Addr, ContractError>(
                ContractError::ProxyNotWhitelisted,
            ),
    {
        match self.position(proxy_addr) {
            Some(i) => {
                assert(self.view_addresses()[i as int] == self.proxies@[i as int]@);
                Ok(self.proxies[i].clone())
            },
            None => Err(ContractError::ProxyNotWhitelisted),
        }
    }

    /// Removes the proxy from the whitelist
    pub fn remove(&mut self, proxy_addr: &Addr) -> (r: Result<(), ContractError>)
        ensures
            old(self).view_addresses().contains(proxy_addr@) ==> r is Ok
                && final(self).view_addresses() == old(self).view_addresses().remove(
                first_index_of(old(self).view_addresses(), proxy_addr@),
            ),
            !old(self).view_addresses().contains(proxy_addr@) ==> r == Err::<(), ContractError>(
                ContractError::ProxyNotWhitelisted,
            ) && final(self).view_addresses() == old(self).view_addresses(),
    {
        match self.position(proxy_addr) {
            Some(i) => {
                let ghost v0 = self.proxies@;
                self.proxies.remove(i);
                proof {
                    lemma_addresses_view_remove(v0, i as int);
                }
                Ok(())
            },
            None => Err(ContractError::ProxyNotWhitelisted),
        }
    }
}

/// The price sources of a symbol: a list of (priority, proxy) sorted by priority.
#[derive(Debug, Clone, PartialEq, Eq)]
pub struct Sources {
    pub symbol: String,
    pub proxies: Vec<(u8, Addr)>,
}

impl Sources {
    /// The priority list as values.
    pub open spec fn view_proxies(&self) -> Seq<(u8, Seq<char>)> {
        entries_view(self.proxies@)
    }

    /// Sorts the proxy list by priority
    pub fn sort_by_priority(&mut self)
        ensures
            final(self).symbol == old(self).symbol,
            final(self).view_proxies() == by_priority(old(self).view_proxies()),
    {
        self.proxies = sort_entries_by_priority(&self.proxies);
    }

    /// Checks if the provided proxy address is already registered
    pub fn is_registered(&self, proxy_addr: &Addr) -> (r: bool)
        ensures
            r == contains_address(self.view_proxies(), proxy_addr@),
    {
        find_address(&self.proxies, proxy_addr).is_some()
    }

    pub fn as_res(&self) -> (r: SourcesResponse)
        ensures
            r.symbol@ == self.symbol@,
            entries_view(r.proxies@) == self.view_proxies(),
    {
        SourcesResponse { symbol: self.symbol.clone(), proxies: copy_entries(&self.proxies) }
    }

    /// Removes the proxy from the sources
    pub fn remove(&mut self, proxy_addr: &Addr) -> (r: Result<(), ContractError>)
        ensures
            final(self).symbol == old(self).symbol,
            contains_address(old(self).view_proxies(), proxy_addr@) ==> r is Ok
                && final(self).view_proxies() == old(self).view_proxies().remove(
                first_address_index(old(self).view_proxies(), proxy_addr@),
            ),
            !contains_address(old(self).view_proxies(), proxy_addr@) ==> r == Err::<
                (),
                ContractError,
            >(ContractError::ProxyNotRegistered) && final(self).view_proxies() == old(
                self,
            ).view_proxies(),
    {
        match find_address(&self.proxies, proxy_addr) {
            Some(i) => {
                let ghost v0 = self.proxies@;
                self.proxies.remove(i);
                proof {
                    lemma_entries_view_remove(v0, i as int);
                }
                Ok(())
            },
            None => Err(ContractError::ProxyNotRegistered),
        }
    }

    /// Updates the priority of the provided proxy address
    pub fn update_proxy_priority(&mut self, proxy_addr: &Addr, priority: u8) -> (r: Result<
        (),
        ContractError,
    >)
        ensures
            final(self).symbol == old(self).symbol,
            contains_address(old(self).view_proxies(), proxy_addr@) ==> r is Ok
                && final(self).view_proxies() == old(self).view_proxies().update(
                first_address_index(old(self).view_proxies(), proxy_addr@),
                (priority, proxy_addr@),
            ),
            !contains_address(old(self).view_proxies(), proxy_addr@) ==> r == Err::<
                (),
                ContractError,
            >(ContractError::ProxyNotRegistered) && final(self).view_proxies() == old(
                self,
            ).view_proxies(),
    {
        match find_address(&self.proxies, proxy_addr) {
            Some(i) => {
                let ghost s = self.view_proxies();
                self.proxies.set(i, (priority, proxy_addr.clone()));
                assert(self.view_proxies() =~= s.update(i as int, (priority, proxy_addr@)));
                Ok(())
            },
            None => Err(ContractError::ProxyNotRegistered),
        }
    }

    /// A copy of these sources.
    pub fn duplicate(&self) -> (r: Sources)
        ensures
            r.symbol@ == self.symbol@,
            r.view_proxies() == self.view_proxies(),
    {
        Sources { symbol: self.symbol.clone(), proxies: copy_entries(&self.proxies) }
    }
}

/// The hub's storage seen as values.
#[verifier::ext_equal]
pub struct HubView {
    pub owner: Seq<char>,
    pub base_denom: Seq<char>,
    pub max_proxies_per_symbol: u8,
    /// whitelisted proxies, in the order they were whitelisted
    pub whitelist: Seq<Seq<char>>,
    /// for each registered symbol, its priority list
    pub sources: Map<Seq<char>, Seq<(u8, Seq<char>)>>,
    /// asset token to symbol
    pub asset_symbols: Map<Seq<char>, Seq<char>>,
}

/// The priority list of stored sources.
pub open spec fn proxies_of_sources() -> spec_fn(Sources) -> Seq<(u8, Seq<char>)> {
    |s: Sources| s.view_proxies()
}

/// The characters of a stored string.
pub open spec fn chars_of_string() -> spec_fn(String) -> Seq<char> {
    |s: String| s@
}

/// Each stored `Sources` carries its own key as symbol, and its priority list is
/// sorted by priority and names each proxy once.
pub open spec fn sources_wf(m: Map<Seq<char>, Sources>) -> bool {
    forall|k: Seq<char>|
        #[trigger] m.contains_key(k) ==> {
            &&& m[k].symbol@ == k
            &&& sorted_by_priority(m[k].view_proxies())
            &&& unique_addresses(m[k].view_proxies())
        }
}

/// The storage of the hub: its configuration, the proxy whitelist, the sources
/// of each symbol and the asset token to symbol map.
pub struct Hub {
    pub config: Config,
    pub whitelist: ProxyWhitelist,
    /// sources by symbol
    pub sources: KeyedStore<Sources>,
    /// symbol by asset token
    pub asset_symbol_map: KeyedStore<String>,
}

impl View for Hub {
    type V = HubView;

    open spec fn view(&self) -> HubView {
        HubView {
            owner: self.config.owner@,
            base_denom: self.config.base_denom@,
            max_proxies_per_symbol: self.config.max_proxies_per_symbol,
            whitelist: self.whitelist.view_addresses(),
            sources: store_map(self.sources@).map_values(proxies_of_sources()),
            asset_symbols: store_map(self.asset_symbol_map@).map_values(chars_of_string()),
        }
    }
}

impl Hub {
    /// The invariant of the hub's storage.
    pub open spec fn wf(&self) -> bool {
        &&& self.sources.wf()
        &&& self.asset_symbol_map.wf()
        &&& sources_wf(store_map(self.sources@))
    }
}

/// Mapping values commutes with inserting.
pub proof fn lemma_map_values_insert<V, W>(m: Map<Seq<char>, V>, k: Seq<char>, v: V, f: spec_fn(V) -> W)
    ensures
        m.insert(k, v).map_values(f) == m.map_values(f).insert(k, f(v)),
{
    assert(m.insert(k, v).map_values(f) =~= m.map_values(f).insert(k, f(v)));
}

/// Mapping values commutes with removing.
pub proof fn lemma_map_values_remove<V, W>(m: Map<Seq<char>, V>, k: Seq<char>, f: spec_fn(V) -> W)
    ensures
        m.remove(k).map_values(f) == m.map_values(f).remove(k),
{
    assert(m.remove(k).map_values(f) =~= m.map_values(f).remove(k));
}

} // verus!
