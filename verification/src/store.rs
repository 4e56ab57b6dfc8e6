//! A contract storage map: values under string keys, kept in storage order.
use vstd::prelude::*;
use crate::keys::{compare_keys, key_lt, lemma_key_lt_order, KeyOrder};

verus! {

/// Entries whose keys strictly increase in storage order (so no key twice).
pub open spec fn keys_sorted<V>(s: Seq<(Seq<char>, V)>) -> bool {
    forall|i: int, j: int|
        #![trigger s[i], s[j]]
        0 <= i < j < s.len() ==> key_lt(s[i].0, s[j].0)
}

/// Some entry holds key `k`.
pub open spec fn has_key<V>(s: Seq<(Seq<char>, V)>, k: Seq<char>) -> bool {
    exists|i: int| 0 <= i < s.len() && #[trigger] s[i].0 == k
}

/// The position of key `k`, when it is present.
pub open spec fn key_index<V>(s: Seq<(Seq<char>, V)>, k: Seq<char>) -> int {
    choose|i: int| 0 <= i < s.len() && #[trigger] s[i].0 == k
}

/// The entries seen as a map from key to value.
pub open spec fn store_map<V>(s: Seq<(Seq<char>, V)>) -> Map<Seq<char>, V> {
    Map::new(|k: Seq<char>| has_key(s, k), |k: Seq<char>| s[key_index(s, k)].1)
}

/// `k` comes after the exclusive start bound `start` (every key does when there is none).
pub open spec fn after(start: Option<Seq<char>>, k: Seq<char>) -> bool {
    match start {
        None => true,
        Some(b) => key_lt(b, k),
    }
}

/// The view of an optional exclusive start bound.
pub open spec fn bound_of(start: Option<&str>) -> Option<Seq<char>> {
    match start {
        None => None,
        Some(s) => Some(s@),
    }
}

/// The position from which entries come after the exclusive bound `start`: every
/// entry before it is at or before the bound, every entry from it on is after it.
pub open spec fn page_start<V>(s: Seq<(Seq<char>, V)>, start: Option<Seq<char>>) -> int {
    choose|j: int| #[trigger] splits_at(s, start, j)
}

/// Entries before `j` are at or before the bound `start`, those from `j` on after it.
pub open spec fn splits_at<V>(s: Seq<(Seq<char>, V)>, start: Option<Seq<char>>, j: int) -> bool {
    &&& 0 <= j <= s.len()
    &&& forall|i: int| 0 <= i < j ==> !#[trigger] after(start, s[i].0)
    &&& forall|i: int| j <= i < s.len() ==> #[trigger] after(start, s[i].0)
}

/// At most `limit` entries that come after the exclusive bound `start`, in storage order.
pub open spec fn page<V>(s: Seq<(Seq<char>, V)>, start: Option<Seq<char>>, limit: int) -> Seq<
    (Seq<char>, V),
> {
    let j = page_start(s, start);
    if j + limit < s.len() {
        s.subrange(j, j + limit)
    } else {
        s.subrange(j, s.len() as int)
    }
}

/// In sorted entries, the position of a key is the only one that holds it.
pub proof fn lemma_sorted_index<V>(s: Seq<(Seq<char>, V)>, i: int)
    requires
        keys_sorted(s),
        0 <= i < s.len(),
    ensures
        has_key(s, s[i].0),
        key_index(s, s[i].0) == i,
        store_map(s).contains_key(s[i].0),
        store_map(s)[s[i].0] == s[i].1,
{
    let k = s[i].0;
    assert(has_key(s, k));
    let j = key_index(s, k);
    if j < i {
        assert(key_lt(s[j].0, s[i].0));
        lemma_key_lt_order(k, k, k);
    } else if i < j {
        assert(key_lt(s[i].0, s[j].0));
        lemma_key_lt_order(k, k, k);
    }
}

/// A storage map with string keys.
pub struct KeyedStore<V> {
    entries: Vec<(String, V)>,
}

impl<V> View for KeyedStore<V> {
    type V = Seq<(Seq<char>, V)>;

    closed spec fn view(&self) -> Seq<(Seq<char>, V)> {
        self.entries@.map_values(|e: (String, V)| (e.0@, e.1))
    }
}

impl<V> KeyedStore<V> {
    /// Entries are in storage order.
    pub open spec fn wf(&self) -> bool {
        keys_sorted(self@)
    }

    /// An empty store.
    pub fn new() -> (r: Self)
        ensures
            r@ == Seq::<(Seq<char>, V)>::empty(),
            r.wf(),
    {
        let r = KeyedStore { entries: Vec::new() };
        assert(r@ =~= Seq::<(Seq<char>, V)>::empty());
        r
    }

    /// The number of entries.
    pub fn len(&self) -> (n: usize)
        ensures
            n == self@.len(),
    {
        self.entries.len()
    }

    /// The key of the `i`-th entry in storage order.
    pub fn key_at(&self, i: usize) -> (k: &String)
        requires
            i < self@.len(),
        ensures
            k@ == self@[i as int].0,
    {
        &self.entries[i].0
    }

    /// The value of the `i`-th entry in storage order.
    pub fn value_at(&self, i: usize) -> (v: &V)
        requires
            i < self@.len(),
        ensures
            *v == self@[i as int].1,
    {
        &self.entries[i].1
    }

    /// The first position whose key is not before `key`, and whether it holds `key`.
    fn find(&self, key: &str) -> (r: (usize, bool))
        requires
            self.wf(),
        ensures
            r.0 <= self@.len(),
            forall|j: int| 0 <= j < r.0 ==> key_lt(#[trigger] self@[j].0, key@),
            forall|j: int| r.0 <= j < self@.len() ==> !key_lt(#[trigger] self@[j].0, key@),
            r.1 <==> (r.0 < self@.len() && self@[r.0 as int].0 == key@),
            !r.1 ==> forall|j: int| r.0 <= j < self@.len() ==> key_lt(key@, #[trigger] self@[j].0),
    {
        let mut i: usize = 0;
        while i < self.entries.len()
            invariant
                self.wf(),
                i <= self@.len(),
                forall|j: int| 0 <= j < i ==> key_lt(#[trigger] self@[j].0, key@),
            decreases self@.len() - i,
        {
            let c = compare_keys(self.entries[i].0.as_str(), key);
            if c != KeyOrder::Less {
                proof {
                    assert forall|j: int| i <= j < self@.len() implies !key_lt(
                        #[trigger] self@[j].0,
                        key@,
                    ) by {
                        if j > i {
                            assert(key_lt(self@[i as int].0, self@[j].0));
                            lemma_key_lt_order(self@[i as int].0, self@[j].0, key@);
                            lemma_key_lt_order(key@, self@[i as int].0, self@[j].0);
                            lemma_key_lt_order(self@[j].0, key@, self@[i as int].0);
                        }
                    }
                    if c == KeyOrder::Greater {
                        assert forall|j: int| i <= j < self@.len() implies key_lt(
                            key@,
                            #[trigger] self@[j].0,
                        ) by {
                            if j > i {
                                assert(key_lt(self@[i as int].0, self@[j].0));
                                lemma_key_lt_order(key@, self@[i as int].0, self@[j].0);
                            }
                        }
                    }
                }
                return (i, c == KeyOrder::Equal);
            }
            i = i + 1;
        }
        (i, false)
    }

    /// Loads the value stored under `key`.
    pub fn get(&self, key: &str) -> (r: Option<&V>)
        requires
            self.wf(),
        ensures
            r.is_some() == store_map(self@).contains_key(key@),
            r matches Some(v) ==> *v == store_map(self@)[key@],
    {
        let (i, found) = self.find(key);
        if found {
            proof {
                lemma_sorted_index(self@, i as int);
            }
            Some(&self.entries[i].1)
        } else {
            proof {
                if has_key(self@, key@) {
                    let j = key_index(self@, key@);
                    lemma_key_lt_order(key@, key@, key@);
                    assert(j < i ==> key_lt(self@[j].0, key@));
                    assert(j >= i ==> key_lt(key@, self@[j].0));
                }
            }
            None
        }
    }

    /// Stores `value` under `key`, replacing what was stored there.
    pub fn save(&mut self, key: String, value: V)
        requires
            old(self).wf(),
        ensures
            final(self).wf(),
            store_map(final(self)@) == store_map(old(self)@).insert(key@, value),
    {
        let ghost k = key@;
        let ghost s0 = self@;
        let (i, found) = self.find(key.as_str());
        if found {
            self.entries.set(i, (key, value));
            let ghost s1 = self@;
            assert(s1 =~= s0.update(i as int, (k, value)));
            assert(keys_sorted(s1)) by {
                assert forall|a: int, b: int| 0 <= a < b < s1.len() implies key_lt(
                    #[trigger] s1[a].0,
                    #[trigger] s1[b].0,
                ) by {
                    assert(s1[a].0 == s0[a].0);
                    assert(s1[b].0 == s0[b].0);
                }
            }
            assert(store_map(s1) =~= store_map(s0).insert(k, value)) by {
                assert forall|x: Seq<char>| #[trigger]
                    store_map(s1).contains_key(x) == store_map(s0).insert(k, value).contains_key(
                        x,
                    ) by {
                    if has_key(s0, x) {
                        let j = key_index(s0, x);
                        assert(s1[j].0 == x);
                    }
                    if has_key(s1, x) {
                        let j = key_index(s1, x);
                        assert(s0[j].0 == x);
                    }
                }
                assert forall|x: Seq<char>| #[trigger]
                    store_map(s1).contains_key(x) implies store_map(s1)[x] == store_map(
                    s0,
                ).insert(k, value)[x] by {
                    let j = key_index(s1, x);
                    lemma_sorted_index(s1, j);
                    if x != k {
                        lemma_sorted_index(s0, j);
                    }
                }
            }
        } else {
            self.entries.insert(i, (key, value));
            let ghost s1 = self@;
            proof {
                s0.insert_ensures(i as int, (k, value));
            }
            assert(s1 =~= s0.insert(i as int, (k, value)));
            assert(s1[i as int].0 == k);
            assert(forall|j: int| 0 <= j < i ==> s1[j] == s0[j]);
            assert(forall|j: int| i < j < s1.len() ==> s1[j] == s0[j - 1]);
            assert(keys_sorted(s1)) by {
                assert forall|a: int, b: int| 0 <= a < b < s1.len() implies key_lt(
                    #[trigger] s1[a].0,
                    #[trigger] s1[b].0,
                ) by {
                    if b < i {
                    } else if b == i {
                    } else if a < i {
                        assert(key_lt(s0[a].0, k));
                        assert(key_lt(k, s0[b - 1].0));
                        lemma_key_lt_order(s0[a].0, k, s0[b - 1].0);
                    } else if a == i {
                    } else {
                        assert(s0[a - 1] == s1[a]);
                        assert(s0[b - 1] == s1[b]);
                    }
                }
            }
            assert(store_map(s1) =~= store_map(s0).insert(k, value)) by {
                assert forall|x: Seq<char>| #[trigger]
                    store_map(s1).contains_key(x) == store_map(s0).insert(k, value).contains_key(
                        x,
                    ) by {
                    if has_key(s0, x) {
                        let j = key_index(s0, x);
                        if j < i {
                            assert(s1[j].0 == x);
                        } else {
                            assert(s1[j + 1].0 == x);
                        }
                    }
                    if x == k {
                        assert(s1[i as int].0 == x);
                    }
                    if has_key(s1, x) && x != k {
                        let j = key_index(s1, x);
                        if j < i {
                            assert(s0[j].0 == x);
                        } else {
                            assert(s0[j - 1].0 == x);
                        }
                    }
                }
                assert forall|x: Seq<char>| #[trigger]
                    store_map(s1).contains_key(x) implies store_map(s1)[x] == store_map(
                    s0,
                ).insert(k, value)[x] by {
                    let j = key_index(s1, x);
                    lemma_sorted_index(s1, j);
                    lemma_key_lt_order(k, k, k);
                    if j < i {
                        lemma_sorted_index(s0, j);
                        assert(key_lt(s0[j].0, k));
                        assert(x != k);
                    } else if j > i {
                        lemma_sorted_index(s0, j - 1);
                        assert(key_lt(k, s0[j - 1].0));
                        assert(x != k);
                    } else {
                        assert(s1[j] == (k, value));
                    }
                }
            }
        }
    }

    /// Removes the entry under `key`, if any, and returns its value.
    pub fn remove(&mut self, key: &str) -> (r: Option<V>)
        requires
            old(self).wf(),
        ensures
            final(self).wf(),
            store_map(final(self)@) == store_map(old(self)@).remove(key@),
            r.is_some() == store_map(old(self)@).contains_key(key@),
            r matches Some(v) ==> v == store_map(old(self)@)[key@],
    {
        let ghost k = key@;
        let ghost s0 = self@;
        let (i, found) = self.find(key);
        if found {
            let e = self.entries.remove(i);
            let ghost s1 = self@;
            proof {
                s0.remove_ensures(i as int);
                lemma_sorted_index(s0, i as int);
            }
            assert(s1 =~= s0.remove(i as int));
            assert(forall|j: int| 0 <= j < i ==> s1[j] == s0[j]);
            assert(forall|j: int| i <= j < s1.len() ==> s1[j] == s0[j + 1]);
            assert(keys_sorted(s1)) by {
                assert forall|a: int, b: int| 0 <= a < b < s1.len() implies key_lt(
                    #[trigger] s1[a].0,
                    #[trigger] s1[b].0,
                ) by {
                    if b < i {
                    } else if a < i {
                        assert(s1[b] == s0[b + 1]);
                    } else {
                        assert(s1[a] == s0[a + 1]);
                        assert(s1[b] == s0[b + 1]);
                    }
                }
            }
            assert(store_map(s1) =~= store_map(s0).remove(k)) by {
                assert forall|x: Seq<char>| #[trigger]
                    store_map(s1).contains_key(x) == store_map(s0).remove(k).contains_key(x) by {
                    if has_key(s0, x) && x != k {
                        let j = key_index(s0, x);
                        if j < i {
                            assert(s1[j].0 == x);
                        } else {
                            assert(j != i);
                            assert(s1[j - 1].0 == x);
                        }
                    }
                    if has_key(s1, x) {
                        let j = key_index(s1, x);
                        if j < i {
                            assert(s0[j].0 == x);
                            assert(key_lt(s0[j].0, s0[i as int].0));
                        } else {
                            assert(s0[j + 1].0 == x);
                            assert(key_lt(s0[i as int].0, s0[j + 1].0));
                        }
                        lemma_key_lt_order(k, k, k);
                    }
                }
                assert forall|x: Seq<char>| #[trigger]
                    store_map(s1).contains_key(x) implies store_map(s1)[x] == store_map(
                    s0,
                ).remove(k)[x] by {
                    let j = key_index(s1, x);
                    lemma_sorted_index(s1, j);
                    if j < i {
                        lemma_sorted_index(s0, j);
                    } else {
                        lemma_sorted_index(s0, j + 1);
                    }
                }
            }
            Some(e.1)
        } else {
            proof {
                if has_key(s0, k) {
                    let j = key_index(s0, k);
                    lemma_key_lt_order(k, k, k);
                    assert(j < i ==> key_lt(s0[j].0, k));
                    assert(j >= i ==> key_lt(k, s0[j].0));
                }
                assert(store_map(s0).remove(k) =~= store_map(s0));
            }
            None
        }
    }

    /// The position of the first entry whose key comes after the exclusive bound `start`.
    pub fn range_start(&self, start: Option<&str>) -> (r: usize)
        requires
            self.wf(),
        ensures
            r <= self@.len(),
            forall|j: int|
                0 <= j < r ==> !after(bound_of(start), #[trigger] self@[j].0),
            forall|j: int|
                r <= j < self@.len() ==> after(bound_of(start), #[trigger] self@[j].0),
            r == page_start(self@, bound_of(start)),
    {
        let r = self.range_start_index(start);
        proof {
            assert(splits_at(self@, bound_of(start), r as int));
            let c = page_start(self@, bound_of(start));
            assert(splits_at(self@, bound_of(start), c));
            if c < r {
                assert(after(bound_of(start), self@[c].0));
            } else if r < c {
                assert(after(bound_of(start), self@[r as int].0));
            }
        }
        r
    }

    fn range_start_index(&self, start: Option<&str>) -> (r: usize)
        requires
            self.wf(),
        ensures
            r <= self@.len(),
            forall|j: int|
                0 <= j < r ==> !after(bound_of(start), #[trigger] self@[j].0),
            forall|j: int|
                r <= j < self@.len() ==> after(bound_of(start), #[trigger] self@[j].0),
    {
        match start {
            None => 0,
            Some(b) => {
                let (i, found) = self.find(b);
                let n = self.entries.len();
                assert(self@.len() == n);
                if found {
                    proof {
                        assert forall|j: int| i < j < self@.len() implies key_lt(
                            b@,
                            #[trigger] self@[j].0,
                        ) by {
                            assert(key_lt(self@[i as int].0, self@[j].0));
                        }
                        lemma_key_lt_order(b@, b@, b@);
                        assert forall|j: int| 0 <= j < i + 1 implies !key_lt(
                            b@,
                            #[trigger] self@[j].0,
                        ) by {
                            if j < i {
                                lemma_key_lt_order(self@[j].0, b@, self@[j].0);
                            }
                        }
                    }
                    i + 1
                } else {
                    proof {
                        assert forall|j: int| 0 <= j < i implies !key_lt(
                            b@,
                            #[trigger] self@[j].0,
                        ) by {
                            lemma_key_lt_order(self@[j].0, b@, self@[j].0);
                        }
                    }
                    i
                }
            },
        }
    }
}

/// In sorted entries, a key after the bound is followed only by keys after it.
proof fn lemma_after_monotone<V>(s: Seq<(Seq<char>, V)>, start: Option<Seq<char>>, i: int, k: int)
    requires
        keys_sorted(s),
        0 <= i < k < s.len(),
        after(start, s[i].0),
    ensures
        after(start, s[k].0),
{
    match start {
        None => {},
        Some(b) => {
            assert(key_lt(s[i].0, s[k].0));
            lemma_key_lt_order(b, s[i].0, s[k].0);
        },
    }
}

/// Sorted entries split at the bound: some position separates the keys at or
/// before it from those after it.
pub proof fn lemma_splits_exist<V>(s: Seq<(Seq<char>, V)>, start: Option<Seq<char>>)
    requires
        keys_sorted(s),
    ensures
        splits_at(s, start, page_start(s, start)),
    decreases s.len(),
{
    if s.len() == 0 {
        assert(splits_at(s, start, 0));
    } else {
        let t = s.drop_last();
        assert(keys_sorted(t)) by {
            assert forall|a: int, b: int| 0 <= a < b < t.len() implies key_lt(
                #[trigger] t[a].0,
                #[trigger] t[b].0,
            ) by {
                assert(t[a] == s[a] && t[b] == s[b]);
            }
        }
        lemma_splits_exist(t, start);
        let j = page_start(t, start);
        if j < t.len() {
            assert(after(start, t[j].0));
            assert(t[j] == s[j]);
            lemma_after_monotone(s, start, j, s.len() - 1);
            assert forall|i: int| 0 <= i < j implies !#[trigger] after(start, s[i].0) by {
                assert(t[i] == s[i]);
            }
            assert forall|i: int| j <= i < s.len() implies #[trigger] after(start, s[i].0) by {
                if i < t.len() {
                    assert(t[i] == s[i]);
                }
            }
            assert(splits_at(s, start, j));
        } else if after(start, s.last().0) {
            assert forall|i: int| 0 <= i < s.len() - 1 implies !#[trigger] after(start, s[i].0) by {
                assert(t[i] == s[i]);
            }
            assert(splits_at(s, start, s.len() - 1));
        } else {
            assert forall|i: int| 0 <= i < s.len() implies !#[trigger] after(start, s[i].0) by {
                if i < t.len() {
                    assert(t[i] == s[i]);
                }
            }
            assert(splits_at(s, start, s.len() as int));
        }
    }
}

/// A page holds at most `limit` entries, all after the bound, in storage order;
/// it starts with the first entry after the bound and skips none: an entry after
/// the bound that is not in the page comes after all of the page, and a page
/// shorter than `limit` holds every entry after the bound.
pub proof fn law_page<V>(s: Seq<(Seq<char>, V)>, start: Option<Seq<char>>, limit: int)
    requires
        keys_sorted(s),
        limit >= 0,
    ensures
        ({
            let p = page(s, start, limit);
            &&& p.len() <= limit
            &&& forall|i: int| 0 <= i < p.len() ==> after(start, #[trigger] p[i].0)
            &&& keys_sorted(p)
            &&& forall|k: int|
                0 <= k < s.len() && after(start, #[trigger] s[k].0) ==> p.contains(s[k]) || (
                forall|i: int| 0 <= i < p.len() ==> key_lt(#[trigger] p[i].0, s[k].0))
            &&& p.len() < limit ==> forall|k: int|
                0 <= k < s.len() && after(start, #[trigger] s[k].0) ==> p.contains(s[k])
        }),
{
    lemma_splits_exist(s, start);
    let j = page_start(s, start);
    let p = page(s, start, limit);
    let end = if j + limit < s.len() {
        j + limit
    } else {
        s.len() as int
    };
    assert(p =~= s.subrange(j, end));
    assert forall|i: int| 0 <= i < p.len() implies after(start, #[trigger] p[i].0) by {
        assert(p[i] == s[j + i]);
    }
    assert forall|a: int, b: int| 0 <= a < b < p.len() implies key_lt(
        #[trigger] p[a].0,
        #[trigger] p[b].0,
    ) by {
        assert(p[a] == s[j + a] && p[b] == s[j + b]);
    }
    assert forall|k: int|
        0 <= k < s.len() && after(start, #[trigger] s[k].0) implies p.contains(s[k]) || (forall|
        i: int,
    | 0 <= i < p.len() ==> key_lt(#[trigger] p[i].0, s[k].0)) by {
        assert(k >= j);
        if k < end {
            assert(p[k - j] == s[k]);
        } else {
            assert forall|i: int| 0 <= i < p.len() implies key_lt(#[trigger] p[i].0, s[k].0) by {
                assert(p[i] == s[j + i]);
            }
        }
    }
    if p.len() < limit {
        assert forall|k: int|
            0 <= k < s.len() && after(start, #[trigger] s[k].0) implies p.contains(s[k]) by {
            assert(k >= j);
            assert(p[k - j] == s[k]);
        }
    }
}

/// Two splits of the same sorted entries at the same bound are at the same place.
proof fn lemma_split_unique<V>(s: Seq<(Seq<char>, V)>, start: Option<Seq<char>>, j: int)
    requires
        keys_sorted(s),
        splits_at(s, start, j),
    ensures
        page_start(s, start) == j,
{
    lemma_splits_exist(s, start);
    let c = page_start(s, start);
    if c < j {
        assert(after(start, s[c].0));
    } else if j < c {
        assert(after(start, s[j].0));
    }
}

/// Paging on from the last key of a page continues it: the two pages side by side
/// are the page of both limits together, so they hold the first entries after the
/// bound, in storage order, and no entry twice.
pub proof fn law_pages_join<V>(s: Seq<(Seq<char>, V)>, start: Option<Seq<char>>, l1: int, l2: int)
    requires
        keys_sorted(s),
        l1 >= 1,
        l2 >= 0,
        page(s, start, l1).len() > 0,
    ensures
        page(s, start, l1) + page(s, Some(page(s, start, l1).last().0), l2) == page(
            s,
            start,
            l1 + l2,
        ),
        keys_sorted(page(s, start, l1) + page(s, Some(page(s, start, l1).last().0), l2)),
{
    lemma_splits_exist(s, start);
    let j = page_start(s, start);
    let p1 = page(s, start, l1);
    let e1 = if j + l1 < s.len() {
        j + l1
    } else {
        s.len() as int
    };
    assert(p1 =~= s.subrange(j, e1));
    let last = s[e1 - 1].0;
    assert(p1.last() == s[e1 - 1]);
    assert forall|i: int| 0 <= i < e1 implies !#[trigger] after(Some(last), s[i].0) by {
        lemma_key_lt_order(last, s[i].0, last);
        if i < e1 - 1 {
            assert(key_lt(s[i].0, s[e1 - 1].0));
        }
    }
    assert forall|i: int| e1 <= i < s.len() implies #[trigger] after(Some(last), s[i].0) by {
        assert(key_lt(s[e1 - 1].0, s[i].0));
    }
    lemma_split_unique(s, Some(last), e1);
    let p2 = page(s, Some(last), l2);
    let e2 = if e1 + l2 < s.len() {
        e1 + l2
    } else {
        s.len() as int
    };
    assert(p2 =~= s.subrange(e1, e2));
    let e = if j + l1 + l2 < s.len() {
        j + l1 + l2
    } else {
        s.len() as int
    };
    assert(page(s, start, l1 + l2) =~= s.subrange(j, e));
    assert(p1 + p2 =~= s.subrange(j, e));
    law_page(s, start, l1 + l2);
}

/// The page without a bound is the first entries in storage order.
pub proof fn law_first_page<V>(s: Seq<(Seq<char>, V)>, limit: int)
    requires
        keys_sorted(s),
        limit >= 0,
    ensures
        page(s, None, limit) == s.take(if limit < s.len() { limit } else { s.len() as int }),
{
    lemma_split_unique(s, None, 0);
    let n = if limit < s.len() { limit } else { s.len() as int };
    assert(page(s, None, limit) =~= s.take(n));
}

} // verus!
