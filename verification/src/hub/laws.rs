//! Properties of the hub that relate its operations and queries.
use vstd::prelude::*;
use crate::errors::ContractError;
use crate::hub::contract::{execute_after, execute_spec};
use crate::hub::handle::{
    bulk_effect, bulk_items_view, bulk_partial, bulk_register_source_after,
    bulk_register_source_spec, lemma_bulk_partial_ok, register_effect, insert_all, proxies_of, register_source_spec, remove_proxy_spec, remove_source_spec,
    update_priority_spec, whitelist_proxy_spec, AddrCheck, apply_priorities,
    has_duplicate_addresses,
};
use crate::hub::msg::{DEFAULT_PRIORITY, HubExecuteMsg, HubQueryMsg, MAX_WHITELISTED_PROXIES};
use crate::hub::contract::{query_ok, HubQueryAnswer};
use crate::hub::state::addresses_view;
use crate::priority::entries_view;
use crate::hub::state::{first_address_index, first_index_of, Hub, HubView};
use crate::priority::{
    by_priority, contains_address, count_address, has_address, lemma_by_priority_same_entries,
    lemma_by_priority_sorted, lemma_count_positive, lemma_remove_sorted_in, lemma_unique_counts,
    sorted_by_priority, unique_addresses,
};
use crate::store::store_map;

verus! {

/// Every priority list of the hub is sorted by priority and names each proxy once.
pub open spec fn view_wf(v: HubView) -> bool {
    forall|k: Seq<char>|
        #[trigger] v.sources.contains_key(k) ==> sorted_by_priority(v.sources[k])
            && unique_addresses(v.sources[k])
}

/// The invariant of the hub's storage gives that of its view.
pub proof fn lemma_view_wf(hub: Hub)
    requires
        hub.wf(),
    ensures
        view_wf(hub@),
{
    assert forall|k: Seq<char>| #[trigger] hub@.sources.contains_key(k) implies sorted_by_priority(
        hub@.sources[k],
    ) && unique_addresses(hub@.sources[k]) by {
        assert(store_map(hub.sources@).contains_key(k));
    }
}

/// Only the owner changes the hub: any operation from another sender fails with
/// `Unauthorized` and leaves the state as it was.
pub proof fn law_only_owner_operates(
    v: HubView,
    sender: Seq<char>,
    msg: HubExecuteMsg,
    checks: Seq<AddrCheck>,
)
    requires
        v.owner != sender,
    ensures
        execute_spec(v, sender, msg, checks) == Err::<HubView, ContractError>(
            ContractError::Unauthorized,
        ),
        execute_after(v, sender, msg, checks) == v,
{
}

proof fn lemma_bulk_keeps_whitelist(
    v: HubView,
    items: Seq<(Seq<char>, Seq<char>, AddrCheck, Option<u8>)>,
)
    ensures
        bulk_partial(v, items).whitelist == v.whitelist,
    decreases items.len(),
{
    if items.len() > 0 {
        if let Ok(w) = register_effect(v, items[0].0, items[0].1, items[0].2, items[0].3) {
            lemma_bulk_keeps_whitelist(w, items.drop_first());
        }
    }
}

/// The whitelist never holds more than `MAX_WHITELISTED_PROXIES` proxies: a new hub
/// has none, and no operation, whether it succeeds or fails, takes a hub within the
/// bound out of it.
pub proof fn law_whitelist_bounded(
    v: HubView,
    sender: Seq<char>,
    msg: HubExecuteMsg,
    checks: Seq<AddrCheck>,
)
    requires
        v.whitelist.len() <= MAX_WHITELISTED_PROXIES,
    ensures
        execute_after(v, sender, msg, checks).whitelist.len() <= MAX_WHITELISTED_PROXIES,
{
    if let HubExecuteMsg::BulkRegisterSource { sources } = msg {
        lemma_bulk_keeps_whitelist(v, bulk_items_view(sources@, checks));
    }
}

/// A bulk registration that succeeds leaves every source of the list registered
/// in order; one that fails with the error of its first failing item keeps the
/// sources of the items before it (the host discards the writes of the failed
/// operation).
pub proof fn law_bulk_register(
    v: HubView,
    sender: Seq<char>,
    items: Seq<(Seq<char>, Seq<char>, AddrCheck, Option<u8>)>,
)
    requires
        v.owner == sender,
    ensures
        bulk_register_source_spec(v, sender, items) matches Ok(w) ==> bulk_register_source_after(
            v,
            sender,
            items,
        ) == w,
        items.len() > 0 ==> bulk_register_source_after(v, sender, items) == match register_effect(
            v,
            items[0].0,
            items[0].1,
            items[0].2,
            items[0].3,
        ) {
            Ok(w) => bulk_register_source_after(w, sender, items.drop_first()),
            Err(_) => v,
        },
{
    if bulk_effect(v, items) is Ok {
        lemma_bulk_partial_ok(v, items);
    }
    if items.len() > 0 {
        if let Ok(w) = register_effect(v, items[0].0, items[0].1, items[0].2, items[0].3) {
            assert(w.owner == v.owner);
        }
    }
}

/// A registered source is whitelisted, is then in the priority list of its
/// symbol, the list stays sorted by priority and within the maximum size.
pub proof fn law_register_source(
    v: HubView,
    sender: Seq<char>,
    symbol: Seq<char>,
    proxy: Seq<char>,
    check: AddrCheck,
    priority: Option<u8>,
)
    requires
        view_wf(v),
        register_source_spec(v, sender, symbol, proxy, check, priority) is Ok,
    ensures
        ({
            let w = register_source_spec(v, sender, symbol, proxy, check, priority)->Ok_0;
            &&& v.whitelist.contains(proxy)
            &&& contains_address(proxies_of(w, symbol), proxy)
            &&& sorted_by_priority(proxies_of(w, symbol))
            &&& unique_addresses(proxies_of(w, symbol))
            &&& proxies_of(w, symbol).len() <= v.max_proxies_per_symbol
            &&& forall|k: Seq<char>| k != symbol ==> proxies_of(w, k) == proxies_of(v, k)
            &&& !contains_address(proxies_of(v, symbol), proxy) ==> proxies_of(w, symbol).contains(
                (
                    match priority {
                        Some(p) => p,
                        None => DEFAULT_PRIORITY,
                    },
                    proxy,
                ),
            )
            &&& contains_address(proxies_of(v, symbol), proxy) ==> w == v
        }),
{
    let w = register_source_spec(v, sender, symbol, proxy, check, priority)->Ok_0;
    let cur = proxies_of(v, symbol);
    let prio = match priority {
        Some(p) => p,
        None => crate::hub::msg::DEFAULT_PRIORITY,
    };
    if v.sources.contains_key(symbol) {
        assert(sorted_by_priority(cur) && unique_addresses(cur));
    } else {
        assert(sorted_by_priority(cur) && unique_addresses(cur));
    }
    if !contains_address(cur, proxy) {
        let x = (prio, proxy);
        let s = cur.push(x);
        lemma_by_priority_same_entries(s);
        lemma_by_priority_sorted(s);
        crate::priority::lemma_push_keeps_unique(cur, x);
        crate::priority::lemma_unique_by_priority(s);
        assert(s[cur.len() as int] == x);
        assert(s.contains(x));
        assert(by_priority(s).contains(x));
        let i = choose|i: int| 0 <= i < by_priority(s).len() && by_priority(s)[i] == x;
        assert(by_priority(s)[i].1 == proxy);
        assert(proxies_of(w, symbol) == by_priority(s));
    }
}

/// Removing a source takes its proxy out of the priority list of the symbol and
/// keeps the other proxies in their order.
pub proof fn law_remove_source(
    v: HubView,
    sender: Seq<char>,
    symbol: Seq<char>,
    proxy: Seq<char>,
    check: AddrCheck,
)
    requires
        view_wf(v),
        remove_source_spec(v, sender, symbol, proxy, check) is Ok,
    ensures
        ({
            let w = remove_source_spec(v, sender, symbol, proxy, check)->Ok_0;
            let cur = proxies_of(v, symbol);
            &&& contains_address(cur, proxy)
            &&& !contains_address(proxies_of(w, symbol), proxy)
            &&& proxies_of(w, symbol).len() == cur.len() - 1
            &&& forall|a: Seq<char>|
                a != proxy ==> #[trigger] count_address(proxies_of(w, symbol), a) == count_address(
                    cur,
                    a,
                )
        }),
{
    let w = remove_source_spec(v, sender, symbol, proxy, check)->Ok_0;
    let cur = proxies_of(v, symbol);
    let i = first_address_index(cur, proxy);
    let t = cur.remove(i);
    assert(0 <= i < cur.len() && cur[i].1 == proxy);
    cur.remove_ensures(i);
    assert(cur =~= cur.take(i) + seq![cur[i]] + cur.skip(i + 1));
    assert(t =~= cur.take(i) + cur.skip(i + 1));
    assert forall|a: Seq<char>| #[trigger] count_address(t, a) + (if a == proxy {
        1int
    } else {
        0int
    }) == count_address(cur, a) by {
        Seq::filter_distributes_over_add(cur.take(i) + seq![cur[i]], cur.skip(i + 1), has_address(a));
        Seq::filter_distributes_over_add(cur.take(i), seq![cur[i]], has_address(a));
        Seq::filter_distributes_over_add(cur.take(i), cur.skip(i + 1), has_address(a));
        lemma_count_single(cur[i], a);
    }
    lemma_unique_counts(cur);
    assert(count_address(cur, proxy) <= 1);
    lemma_count_positive(t, proxy);
    assert(proxies_of(w, symbol) == t);
}

/// Whitelisting a proxy that was not whitelisted and removing it again gives back
/// the hub as it was.
pub proof fn law_whitelist_then_remove(
    v: HubView,
    sender: Seq<char>,
    proxy: Seq<char>,
    check1: AddrCheck,
    check2: AddrCheck,
)
    requires
        whitelist_proxy_spec(v, sender, proxy, check1) is Ok,
        !v.whitelist.contains(proxy),
        check2 is Ok,
    ensures
        remove_proxy_spec(
            whitelist_proxy_spec(v, sender, proxy, check1)->Ok_0,
            sender,
            proxy,
            check2,
        ) == Ok::<HubView, ContractError>(v),
{
    let w = whitelist_proxy_spec(v, sender, proxy, check1)->Ok_0;
    let n = v.whitelist.len() as int;
    assert(w.whitelist[n] == proxy);
    let i = first_index_of(w.whitelist, proxy);
    assert(0 <= i < w.whitelist.len() && w.whitelist[i] == proxy);
    if i < n {
        assert(v.whitelist[i] == proxy);
    }
    assert(i == n);
    assert(w.whitelist.remove(n) =~= v.whitelist);
    let u = remove_proxy_spec(w, sender, proxy, check2)->Ok_0;
    assert(u =~= v);
}

/// Registering a proxy that a symbol did not have and removing it again gives back
/// the priority list of the symbol as it was, and leaves everything else alone.
/// (When the symbol had no sources at all, it keeps an empty list afterwards.)
pub proof fn law_register_then_remove_source(
    v: HubView,
    sender: Seq<char>,
    symbol: Seq<char>,
    proxy: Seq<char>,
    check1: AddrCheck,
    priority: Option<u8>,
    check2: AddrCheck,
)
    requires
        view_wf(v),
        register_source_spec(v, sender, symbol, proxy, check1, priority) is Ok,
        !contains_address(proxies_of(v, symbol), proxy),
        check2 is Ok,
    ensures
        ({
            let w = register_source_spec(v, sender, symbol, proxy, check1, priority)->Ok_0;
            &&& remove_source_spec(w, sender, symbol, proxy, check2) is Ok
            &&& forall|k: Seq<char>|
                #[trigger] proxies_of(remove_source_spec(w, sender, symbol, proxy, check2)->Ok_0, k)
                    == proxies_of(v, k)
            &&& v.sources.contains_key(symbol) ==> remove_source_spec(
                w,
                sender,
                symbol,
                proxy,
                check2,
            ) == Ok::<HubView, ContractError>(v)
        }),
{
    let w = register_source_spec(v, sender, symbol, proxy, check1, priority)->Ok_0;
    law_register_source(v, sender, symbol, proxy, check1, priority);
    let cur = proxies_of(v, symbol);
    let prio = match priority {
        Some(p) => p,
        None => crate::hub::msg::DEFAULT_PRIORITY,
    };
    let b = by_priority(cur.push((prio, proxy)));
    assert(sorted_by_priority(cur) && unique_addresses(cur));
    assert(w.sources[symbol] == b);
    let i = first_address_index(b, proxy);
    assert(0 <= i < b.len() && b[i].1 == proxy);
    lemma_remove_sorted_in(cur, (prio, proxy), i);
    let u = remove_source_spec(w, sender, symbol, proxy, check2)->Ok_0;
    assert(u.sources == v.sources.insert(symbol, cur));
    if v.sources.contains_key(symbol) {
        assert(u.sources =~= v.sources);
        assert(u =~= v);
    }
}

/// Registering a proxy that a symbol does not have, through `execute`, puts it in
/// the symbol's priority list with the priority the message gives, or the default
/// priority when it gives none.
pub proof fn law_execute_register_source(
    v: HubView,
    sender: Seq<char>,
    symbol: String,
    proxy_addr: String,
    priority: Option<u8>,
    checks: Seq<AddrCheck>,
)
    requires
        view_wf(v),
        execute_spec(
            v,
            sender,
            HubExecuteMsg::RegisterSource { symbol, proxy_addr, priority },
            checks,
        ) is Ok,
        !contains_address(proxies_of(v, symbol@), proxy_addr@),
    ensures
        ({
            let w = execute_after(
                v,
                sender,
                HubExecuteMsg::RegisterSource { symbol, proxy_addr, priority },
                checks,
            );
            &&& priority matches Some(p) ==> proxies_of(w, symbol@).contains((p, proxy_addr@))
            &&& priority is None ==> proxies_of(w, symbol@).contains(
                (DEFAULT_PRIORITY, proxy_addr@),
            )
        }),
{
    law_register_source(v, sender, symbol@, proxy_addr@, checks[0], priority);
}

/// A priority update through `execute` gives each address of the message the
/// priority the message names for it.
pub proof fn law_execute_update_priorities(
    v: HubView,
    sender: Seq<char>,
    symbol: String,
    priority_list: Vec<(String, u8)>,
    checks: Seq<AddrCheck>,
)
    requires
        view_wf(v),
        execute_spec(
            v,
            sender,
            HubExecuteMsg::UpdateSourcePriorityList { symbol, priority_list },
            checks,
        ) is Ok,
    ensures
        forall|k: int|
            0 <= k < priority_list@.len() ==> #[trigger] proxies_of(
                execute_after(
                    v,
                    sender,
                    HubExecuteMsg::UpdateSourcePriorityList { symbol, priority_list },
                    checks,
                ),
                symbol@,
            ).contains((priority_list@[k].1, priority_list@[k].0@)),
{
    let list = crate::hub::handle::priority_list_view(priority_list@);
    let msg = HubExecuteMsg::UpdateSourcePriorityList { symbol, priority_list };
    law_update_priorities(v, sender, symbol@, list, checks);
    let w = update_priority_spec(v, sender, symbol@, list, checks)->Ok_0;
    assert(execute_after(v, sender, msg, checks) == w);
    assert forall|k: int| 0 <= k < priority_list@.len() implies #[trigger] proxies_of(
        execute_after(v, sender, msg, checks),
        symbol@,
    ).contains((priority_list@[k].1, priority_list@[k].0@)) by {
        assert(list[k] == (priority_list@[k].0@, priority_list@[k].1));
        assert(proxies_of(w, symbol@).contains((list[k].1, list[k].0)));
    }
}

/// A price search by symbol asks every proxy of the symbol's priority list, in the
/// order of the list, and skips the answers older than the block time less the
/// timeframe (in whole seconds), or none without a timeframe.
pub proof fn law_price_search_start(
    hub: Hub,
    block_time_nanos: u64,
    symbol: String,
    timeframe: Option<u64>,
    r: Result<HubQueryAnswer, ContractError>,
)
    requires
        hub.wf(),
        query_ok(hub, block_time_nanos, HubQueryMsg::PriceBySymbol { symbol, timeframe }, r),
        r is Ok,
    ensures
        r matches Ok(HubQueryAnswer::Price(ps)) && {
            let list = hub@.sources[symbol@];
            &&& hub@.sources.contains_key(symbol@)
            &&& ps.symbol@ == symbol@
            &&& ps.next == 0
            &&& ps.found is None
            &&& ps.proxies@.len() == list.len()
            &&& forall|i: int| 0 <= i < list.len() ==> #[trigger] ps.proxies@[i]@ == list[i].1
            &&& timeframe is None ==> ps.threshold == 0
            &&& timeframe matches Some(t) ==> ps.threshold * 1_000_000_000 <= block_time_nanos - t
                * 1_000_000_000 < ps.threshold * 1_000_000_000 + 1_000_000_000
        },
{
    if let Ok(HubQueryAnswer::Price(ps)) = r {
        let list = hub@.sources[symbol@];
        assert(addresses_view(ps.proxies@) == crate::hub::query::proxy_addresses(list));
        assert(addresses_view(ps.proxies@).len() == ps.proxies@.len());
        assert(ps.proxies@.len() == list.len());
        assert forall|i: int| 0 <= i < list.len() implies #[trigger] ps.proxies@[i]@ == list[i].1 by {
            assert(addresses_view(ps.proxies@)[i] == ps.proxies@[i]@);
            assert(crate::hub::query::proxy_addresses(list)[i] == list[i].1);
        }
        if let Some(t) = timeframe {
            let d = block_time_nanos - t * 1_000_000_000;
            assert(d >= 0);
            assert(ps.threshold == d / 1_000_000_000);
            assert(ps.threshold * 1_000_000_000 <= d < ps.threshold * 1_000_000_000 + 1_000_000_000)
                by (nonlinear_arith)
                requires
                    ps.threshold == d / 1_000_000_000,
                    d >= 0,
            ;
        }
    }
}

/// A price query by asset token answers as the price query by the asset's symbol
/// in the asset map, with the same timeframe.
pub proof fn law_price_by_asset_token(
    hub: Hub,
    block_time_nanos: u64,
    asset_token: String,
    symbol: String,
    timeframe: Option<u64>,
    r1: Result<HubQueryAnswer, ContractError>,
    r2: Result<HubQueryAnswer, ContractError>,
)
    requires
        hub.wf(),
        hub@.asset_symbols.contains_key(asset_token@),
        hub@.asset_symbols[asset_token@] == symbol@,
        query_ok(hub, block_time_nanos, HubQueryMsg::Price { asset_token, timeframe }, r1),
        query_ok(hub, block_time_nanos, HubQueryMsg::PriceBySymbol { symbol, timeframe }, r2),
    ensures
        r1 is Ok <==> r2 is Ok,
        r1 matches Err(e1) ==> r2 matches Err(e2) && e1 == e2,
        r1 matches Ok(a1) ==> (a1 matches HubQueryAnswer::Price(p1) && r2 matches Ok(
            HubQueryAnswer::Price(p2),
        ) && p1.symbol@ == p2.symbol@ && addresses_view(p1.proxies@) == addresses_view(
            p2.proxies@,
        ) && p1.threshold == p2.threshold && p1.next == p2.next && p1.found == p2.found),
{
}

/// A price list query by asset token answers as the price list query by the
/// asset's symbol in the asset map: a request to all proxies of that symbol.
pub proof fn law_price_list_by_asset_token(
    hub: Hub,
    block_time_nanos: u64,
    asset_token: String,
    symbol: String,
    r1: Result<HubQueryAnswer, ContractError>,
    r2: Result<HubQueryAnswer, ContractError>,
)
    requires
        hub.wf(),
        hub@.asset_symbols.contains_key(asset_token@),
        hub@.asset_symbols[asset_token@] == symbol@,
        query_ok(hub, block_time_nanos, HubQueryMsg::PriceList { asset_token }, r1),
        query_ok(hub, block_time_nanos, HubQueryMsg::PriceListBySymbol { symbol }, r2),
    ensures
        r1 is Ok <==> r2 is Ok,
        r1 is Ok <==> hub@.sources.contains_key(symbol@),
        r1 matches Err(e1) ==> r2 matches Err(e2) && e1 == e2,
        r1 matches Ok(a1) ==> (a1 matches HubQueryAnswer::PriceList(q1) && r2 matches Ok(
            HubQueryAnswer::PriceList(q2),
        ) && q1.symbol@ == symbol@ && q2.symbol@ == symbol@ && entries_view(q1.proxies@)
            == hub@.sources[symbol@] && entries_view(q2.proxies@) == hub@.sources[symbol@]),
{
}

/// A price or price list query by an asset token that the asset map does not
/// hold fails with `MappingNotFound`.
pub proof fn law_unmapped_asset_token(
    hub: Hub,
    block_time_nanos: u64,
    asset_token: String,
    timeframe: Option<u64>,
    r1: Result<HubQueryAnswer, ContractError>,
    r2: Result<HubQueryAnswer, ContractError>,
)
    requires
        hub.wf(),
        !hub@.asset_symbols.contains_key(asset_token@),
        query_ok(hub, block_time_nanos, HubQueryMsg::Price { asset_token, timeframe }, r1),
        query_ok(hub, block_time_nanos, HubQueryMsg::PriceList { asset_token }, r2),
    ensures
        r1 == Err::<HubQueryAnswer, ContractError>(ContractError::MappingNotFound),
        r2 == Err::<HubQueryAnswer, ContractError>(ContractError::MappingNotFound),
{
}

/// A priority update keeps the proxies of the symbol: each address occurs as often
/// as before, with its new priority, and the list stays sorted by priority.
pub proof fn law_update_priorities(
    v: HubView,
    sender: Seq<char>,
    symbol: Seq<char>,
    list: Seq<(Seq<char>, u8)>,
    checks: Seq<AddrCheck>,
)
    requires
        view_wf(v),
        update_priority_spec(v, sender, symbol, list, checks) is Ok,
    ensures
        ({
            let w = update_priority_spec(v, sender, symbol, list, checks)->Ok_0;
            let cur = proxies_of(v, symbol);
            &&& sorted_by_priority(proxies_of(w, symbol))
            &&& forall|a: Seq<char>|
                #[trigger] count_address(proxies_of(w, symbol), a) == count_address(cur, a)
            &&& forall|k: int|
                0 <= k < list.len() ==> #[trigger] proxies_of(w, symbol).contains(
                    (list[k].1, list[k].0),
                )
        }),
{
    let w = update_priority_spec(v, sender, symbol, list, checks)->Ok_0;
    let cur = proxies_of(v, symbol);
    let s = apply_priorities(cur, list);
    lemma_by_priority_same_entries(s);
    lemma_by_priority_sorted(s);
    assert(proxies_of(w, symbol) == by_priority(s));
    assert forall|a: Seq<char>| #[trigger] count_address(s, a) == count_address(cur, a) by {
        lemma_same_address_count(cur, list, a);
    }
    assert forall|k: int| 0 <= k < list.len() implies #[trigger] proxies_of(w, symbol).contains(
        (list[k].1, list[k].0),
    ) by {
        assert(!crate::hub::handle::item_fails(cur, list, checks, k));
        let i = choose|i: int| 0 <= i < cur.len() && #[trigger] cur[i].1 == list[k].0;
        let c = choose|c: int| 0 <= c < list.len() && #[trigger] list[c].0 == cur[i].1;
        if c != k {
            if c < k {
                assert(has_duplicate_addresses(list));
            } else {
                assert(has_duplicate_addresses(list));
            }
        }
        assert(s[i] == (list[k].1, list[k].0));
        assert(s.contains((list[k].1, list[k].0)));
    }
}

proof fn lemma_count_single(x: (u8, Seq<char>), a: Seq<char>)
    ensures
        count_address(seq![x], a) == if x.1 == a {
            1int
        } else {
            0int
        },
{
    let e = Seq::<(u8, Seq<char>)>::empty();
    reveal(Seq::filter);
    assert(e.filter(has_address(a)) =~= e);
    e.lemma_filter_push(x, has_address(a));
    assert(e.push(x) =~= seq![x]);
}

proof fn lemma_same_address_count(cur: Seq<(u8, Seq<char>)>, list: Seq<(Seq<char>, u8)>, a: Seq<char>)
    ensures
        count_address(apply_priorities(cur, list), a) == count_address(cur, a),
    decreases cur.len(),
{
    if cur.len() > 0 {
        let t = cur.drop_last();
        lemma_same_address_count(t, list, a);
        let s = apply_priorities(cur, list);
        assert(apply_priorities(t, list) =~= s.drop_last());
        assert(s =~= s.drop_last().push(s.last()));
        assert(cur =~= t.push(cur.last()));
        s.drop_last().lemma_filter_push(s.last(), has_address(a));
        t.lemma_filter_push(cur.last(), has_address(a));
    } else {
        reveal(Seq::filter);
        assert(apply_priorities(cur, list).len() == 0);
    }
}

/// After inserting (key, value) pairs in order, as the asset token map of the hub
/// and the sources of the Chainlink proxy are updated, a key has the value of the
/// last pair naming it; a key that no pair names keeps its value.
pub proof fn law_insert_last_wins(
    m: Map<Seq<char>, Seq<char>>,
    items: Seq<(Seq<char>, Seq<char>)>,
    token: Seq<char>,
)
    ensures
        (forall|i: int| 0 <= i < items.len() ==> #[trigger] items[i].0 != token) ==> (
        insert_all(m, items).contains_key(token) == m.contains_key(token) && (m.contains_key(token)
            ==> insert_all(m, items)[token] == m[token])),
        forall|i: int|
            0 <= i < items.len() && #[trigger] items[i].0 == token && (forall|j: int|
                i < j < items.len() ==> items[j].0 != token) ==> insert_all(m, items).contains_key(
                token,
            ) && insert_all(m, items)[token] == items[i].1,
    decreases items.len(),
{
    if items.len() > 0 {
        let m2 = m.insert(items[0].0, items[0].1);
        let rest = items.drop_first();
        law_insert_last_wins(m2, rest, token);
        assert forall|i: int|
            0 <= i < items.len() && #[trigger] items[i].0 == token && (forall|j: int|
                i < j < items.len() ==> items[j].0 != token) implies insert_all(
            m,
            items,
        ).contains_key(token) && insert_all(m, items)[token] == items[i].1 by {
            if i > 0 {
                assert(rest[i - 1] == items[i]);
                assert forall|j: int| i - 1 < j < rest.len() implies rest[j].0 != token by {
                    assert(rest[j] == items[j + 1]);
                }
            } else {
                assert forall|j: int| 0 <= j < rest.len() implies #[trigger] rest[j].0 != token by {
                    assert(rest[j] == items[j + 1]);
                }
            }
        }
        if forall|i: int| 0 <= i < items.len() ==> #[trigger] items[i].0 != token {
            assert(items[0].0 != token);
            assert forall|j: int| 0 <= j < rest.len() implies #[trigger] rest[j].0 != token by {
                assert(rest[j] == items[j + 1]);
            }
        }
    }
}

} // verus!
