//! Priority lists of price proxies: `(priority, proxy address)` pairs, where a
//! lower number means a higher priority.
use vstd::prelude::*;

verus! {

/// A priority list seen as values: priority and address characters.
pub open spec fn entries_view(v: Seq<(u8, String)>) -> Seq<(u8, Seq<char>)> {
    v.map_values(|e: (u8, String)| (e.0, e.1@))
}

/// The entries that carry priority `p`.
pub open spec fn has_priority(p: int) -> spec_fn((u8, Seq<char>)) -> bool {
    |e: (u8, Seq<char>)| e.0 == p
}

/// The entries that carry address `a`.
pub open spec fn has_address(a: Seq<char>) -> spec_fn((u8, Seq<char>)) -> bool {
    |e: (u8, Seq<char>)| e.1 == a
}

/// The entries of priority below `p`, grouped by priority in increasing order, each
/// group in its original order.
pub open spec fn by_priority_below(s: Seq<(u8, Seq<char>)>, p: int) -> Seq<(u8, Seq<char>)>
    decreases p,
{
    if p <= 0 {
        Seq::empty()
    } else {
        by_priority_below(s, p - 1) + s.filter(has_priority(p - 1))
    }
}

/// The stable sort of a priority list by priority: entries of equal priority keep
/// their relative order.
pub open spec fn by_priority(s: Seq<(u8, Seq<char>)>) -> Seq<(u8, Seq<char>)> {
    by_priority_below(s, 256)
}

/// Priorities never decrease along the list.
pub open spec fn sorted_by_priority(s: Seq<(u8, Seq<char>)>) -> bool {
    forall|i: int, j: int| #![trigger s[i], s[j]] 0 <= i < j < s.len() ==> s[i].0 <= s[j].0
}

/// The number of entries with address `a`.
pub open spec fn count_address(s: Seq<(u8, Seq<char>)>, a: Seq<char>) -> nat {
    s.filter(has_address(a)).len()
}

/// No address occurs twice.
pub open spec fn unique_addresses(s: Seq<(u8, Seq<char>)>) -> bool {
    forall|i: int, j: int| #![trigger s[i], s[j]] 0 <= i < j < s.len() ==> s[i].1 != s[j].1
}

/// The entries equal to `x`.
pub open spec fn is_entry(x: (u8, Seq<char>)) -> spec_fn((u8, Seq<char>)) -> bool {
    |e: (u8, Seq<char>)| e == x
}

/// Entries that satisfy `g` and have priority below `p`.
pub open spec fn below_and(g: spec_fn((u8, Seq<char>)) -> bool, p: int) -> spec_fn(
    (u8, Seq<char>),
) -> bool {
    |e: (u8, Seq<char>)| g(e) && e.0 < p
}

proof fn lemma_filter_decompose<A>(s: Seq<A>, f: spec_fn(A) -> bool)
    requires
        s.len() > 0,
    ensures
        s.filter(f) == if f(s.last()) {
            s.drop_last().filter(f).push(s.last())
        } else {
            s.drop_last().filter(f)
        },
{
    assert(s =~= s.drop_last().push(s.last()));
    s.drop_last().lemma_filter_push(s.last(), f);
}

proof fn lemma_bucket_count(s: Seq<(u8, Seq<char>)>, p: int, g: spec_fn((u8, Seq<char>)) -> bool)
    ensures
        s.filter(has_priority(p)).filter(g).len() + s.filter(below_and(g, p)).len() == s.filter(
            below_and(g, p + 1),
        ).len(),
    decreases s.len(),
{
    if s.len() > 0 {
        let t = s.drop_last();
        let x = s.last();
        lemma_bucket_count(t, p, g);
        lemma_filter_decompose(s, has_priority(p));
        lemma_filter_decompose(s, below_and(g, p));
        lemma_filter_decompose(s, below_and(g, p + 1));
        if x.0 == p {
            t.filter(has_priority(p)).lemma_filter_push(x, g);
        }
    }
}

proof fn lemma_below_count(s: Seq<(u8, Seq<char>)>, p: int, g: spec_fn((u8, Seq<char>)) -> bool)
    requires
        p >= 0,
    ensures
        by_priority_below(s, p).filter(g).len() == s.filter(below_and(g, p)).len(),
    decreases p,
{
    if p == 0 {
        assert(s.filter(below_and(g, 0)).len() == 0) by {
            lemma_none_below(s, g);
        }
        reveal(Seq::filter);
    } else {
        lemma_below_count(s, p - 1, g);
        Seq::filter_distributes_over_add(
            by_priority_below(s, p - 1),
            s.filter(has_priority(p - 1)),
            g,
        );
        lemma_bucket_count(s, p - 1, g);
    }
}

proof fn lemma_none_below(s: Seq<(u8, Seq<char>)>, g: spec_fn((u8, Seq<char>)) -> bool)
    ensures
        s.filter(below_and(g, 0)).len() == 0,
    decreases s.len(),
{
    if s.len() > 0 {
        lemma_none_below(s.drop_last(), g);
        lemma_filter_decompose(s, below_and(g, 0));
    }
}

proof fn lemma_same_filter<A>(s: Seq<A>, f: spec_fn(A) -> bool, g: spec_fn(A) -> bool)
    requires
        forall|x: A| #[trigger] f(x) == g(x),
    ensures
        s.filter(f) == s.filter(g),
    decreases s.len(),
{
    if s.len() > 0 {
        lemma_same_filter(s.drop_last(), f, g);
        lemma_filter_decompose(s, f);
        lemma_filter_decompose(s, g);
    } else {
        reveal(Seq::filter);
    }
}

/// Sorting by priority keeps, for any property, the number of entries that have it:
/// the sorted list holds the same entries as many times as before.
pub proof fn lemma_by_priority_count(s: Seq<(u8, Seq<char>)>, g: spec_fn((u8, Seq<char>)) -> bool)
    ensures
        by_priority(s).filter(g).len() == s.filter(g).len(),
{
    lemma_below_count(s, 256, g);
    lemma_same_filter(s, below_and(g, 256), g);
}

proof fn lemma_below_sorted(s: Seq<(u8, Seq<char>)>, p: int)
    requires
        p >= 0,
    ensures
        sorted_by_priority(by_priority_below(s, p)),
        forall|i: int|
            0 <= i < by_priority_below(s, p).len() ==> #[trigger] by_priority_below(s, p)[i].0
                < p,
    decreases p,
{
    if p > 0 {
        lemma_below_sorted(s, p - 1);
        let a = by_priority_below(s, p - 1);
        let b = s.filter(has_priority(p - 1));
        let c = a + b;
        assert forall|i: int| 0 <= i < b.len() implies #[trigger] b[i].0 == p - 1 by {
            s.lemma_filter_pred(has_priority(p - 1), i);
        }
        assert forall|i: int, j: int| 0 <= i < j < c.len() implies c[i].0 <= c[j].0 by {
            if j < a.len() {
                assert(c[i] == a[i] && c[j] == a[j]);
            } else if i < a.len() {
                assert(c[i] == a[i] && c[j] == b[j - a.len()]);
            } else {
                assert(c[i] == b[i - a.len()] && c[j] == b[j - a.len()]);
            }
        }
        assert forall|i: int| 0 <= i < c.len() implies #[trigger] c[i].0 < p by {
            if i < a.len() {
                assert(c[i] == a[i]);
            } else {
                assert(c[i] == b[i - a.len()]);
            }
        }
    }
}

/// The stable sort yields a list sorted by priority.
pub proof fn lemma_by_priority_sorted(s: Seq<(u8, Seq<char>)>)
    ensures
        sorted_by_priority(by_priority(s)),
{
    lemma_below_sorted(s, 256);
}

/// Sorting keeps the entries: each entry occurs as often before as after, and so
/// does each address.
pub proof fn lemma_by_priority_same_entries(s: Seq<(u8, Seq<char>)>)
    ensures
        by_priority(s).len() == s.len(),
        forall|a: Seq<char>| #[trigger] count_address(by_priority(s), a) == count_address(s, a),
        forall|x: (u8, Seq<char>)| #[trigger] by_priority(s).contains(x) == s.contains(x),
{
    let t = |e: (u8, Seq<char>)| true;
    lemma_by_priority_count(s, t);
    lemma_same_filter(s, t, t);
    lemma_filter_all(s);
    lemma_filter_all(by_priority(s));
    assert forall|a: Seq<char>| #[trigger]
        count_address(by_priority(s), a) == count_address(s, a) by {
        lemma_by_priority_count(s, has_address(a));
    }
    assert forall|x: (u8, Seq<char>)| #[trigger] by_priority(s).contains(x) == s.contains(x) by {
        lemma_by_priority_count(s, is_entry(x));
        lemma_contains_count(s, x);
        lemma_contains_count(by_priority(s), x);
    }
}

proof fn lemma_filter_all(s: Seq<(u8, Seq<char>)>)
    ensures
        s.filter(|e: (u8, Seq<char>)| true).len() == s.len(),
    decreases s.len(),
{
    if s.len() > 0 {
        lemma_filter_all(s.drop_last());
        lemma_filter_decompose(s, |e: (u8, Seq<char>)| true);
    } else {
        reveal(Seq::filter);
    }
}

proof fn lemma_contains_count(s: Seq<(u8, Seq<char>)>, x: (u8, Seq<char>))
    ensures
        s.contains(x) == (s.filter(is_entry(x)).len() > 0),
    decreases s.len(),
{
    let eq = is_entry(x);
    if s.len() > 0 {
        lemma_contains_count(s.drop_last(), x);
        lemma_filter_decompose(s, eq);
        if s.drop_last().contains(x) {
            let i = choose|i: int| 0 <= i < s.drop_last().len() && s.drop_last()[i] == x;
            assert(s[i] == x);
        }
        if s.contains(x) && s.last() != x {
            let i = choose|i: int| 0 <= i < s.len() && s[i] == x;
            assert(s.drop_last()[i] == x);
        }
    } else {
        reveal(Seq::filter);
    }
}

/// Sorts a priority list by priority, keeping entries of equal priority in order.
pub fn sort_entries_by_priority(v: &Vec<(u8, String)>) -> (r: Vec<(u8, String)>)
    ensures
        entries_view(r@) == by_priority(entries_view(v@)),
{
    let ghost s = entries_view(v@);
    let mut out: Vec<(u8, String)> = Vec::new();
    let mut p: u16 = 0;
    assert(entries_view(out@) =~= by_priority_below(s, 0));
    while p < 256
        invariant
            s == entries_view(v@),
            p <= 256,
            entries_view(out@) == by_priority_below(s, p as int),
        decreases 256 - p,
    {
        let mut i: usize = 0;
        assert(s.take(0) =~= Seq::<(u8, Seq<char>)>::empty());
        reveal(Seq::filter);
        assert(entries_view(out@) =~= by_priority_below(s, p as int) + s.take(0).filter(
            has_priority(p as int),
        ));
        while i < v.len()
            invariant
                s == entries_view(v@),
                p < 256,
                i <= v@.len(),
                entries_view(out@) == by_priority_below(s, p as int) + s.take(i as int).filter(
                    has_priority(p as int),
                ),
            decreases v@.len() - i,
        {
            let ghost before = out@;
            proof {
                assert(s.take(i + 1) =~= s.take(i as int).push(s[i as int]));
                s.take(i as int).lemma_filter_push(s[i as int], has_priority(p as int));
            }
            if v[i].0 as u16 == p {
                let e = (v[i].0, v[i].1.clone());
                out.push(e);
                assert(entries_view(out@) =~= entries_view(before).push(s[i as int]));
            }
            i = i + 1;
        }
        assert(s.take(v@.len() as int) =~= s);
        p = p + 1;
    }
    out
}

/// Some entry of the priority list carries address `a`.
pub open spec fn contains_address(s: Seq<(u8, Seq<char>)>, a: Seq<char>) -> bool {
    exists|i: int| 0 <= i < s.len() && #[trigger] s[i].1 == a
}

/// An address is present exactly when it is counted.
pub proof fn lemma_count_positive(s: Seq<(u8, Seq<char>)>, a: Seq<char>)
    ensures
        (count_address(s, a) > 0) == contains_address(s, a),
    decreases s.len(),
{
    if s.len() > 0 {
        let t = s.drop_last();
        lemma_count_positive(t, a);
        lemma_filter_decompose(s, has_address(a));
        if contains_address(t, a) {
            let i = choose|i: int| 0 <= i < t.len() && #[trigger] t[i].1 == a;
            assert(s[i].1 == a);
        }
        if contains_address(s, a) && s.last().1 != a {
            let i = choose|i: int| 0 <= i < s.len() && #[trigger] s[i].1 == a;
            assert(t[i].1 == a);
        }
    } else {
        reveal(Seq::filter);
    }
}

/// Unique addresses are those counted at most once.
pub proof fn lemma_unique_counts(s: Seq<(u8, Seq<char>)>)
    ensures
        unique_addresses(s) == forall|a: Seq<char>| #[trigger] count_address(s, a) <= 1,
    decreases s.len(),
{
    if s.len() > 0 {
        let t = s.drop_last();
        let x = s.last();
        lemma_unique_counts(t);
        assert forall|a: Seq<char>| #[trigger]
            count_address(s, a) == count_address(t, a) + (if x.1 == a {
                1int
            } else {
                0int
            }) by {
            lemma_filter_decompose(s, has_address(a));
        }
        if unique_addresses(s) {
            assert(unique_addresses(t)) by {
                assert forall|i: int, j: int| 0 <= i < j < t.len() implies t[i].1 != t[j].1 by {
                    assert(s[i] == t[i] && s[j] == t[j]);
                }
            }
            lemma_count_positive(t, x.1);
            if contains_address(t, x.1) {
                let i = choose|i: int| 0 <= i < t.len() && #[trigger] t[i].1 == x.1;
                assert(s[i] == t[i]);
                assert(s[i].1 != s[s.len() - 1].1);
            }
        }
        if forall|a: Seq<char>| #[trigger] count_address(s, a) <= 1 {
            assert forall|a: Seq<char>| #[trigger] count_address(t, a) <= 1 by {
                assert(count_address(s, a) <= 1);
            }
            assert forall|i: int, j: int| 0 <= i < j < s.len() implies s[i].1 != s[j].1 by {
                if j < s.len() - 1 {
                    assert(s[i] == t[i] && s[j] == t[j]);
                } else {
                    assert(s[i] == t[i]);
                    if s[i].1 == x.1 {
                        lemma_count_positive(t, x.1);
                        assert(count_address(s, x.1) <= 1);
                    }
                }
            }
        }
    } else {
        reveal(Seq::filter);
    }
}

/// Sorting by priority keeps addresses unique.
pub proof fn lemma_unique_by_priority(s: Seq<(u8, Seq<char>)>)
    requires
        unique_addresses(s),
    ensures
        unique_addresses(by_priority(s)),
{
    lemma_by_priority_same_entries(s);
    lemma_unique_counts(s);
    lemma_unique_counts(by_priority(s));
    assert forall|a: Seq<char>| #[trigger] count_address(by_priority(s), a) <= 1 by {
        assert(count_address(s, a) <= 1);
    }
}

/// Removing an entry keeps a list sorted and its addresses unique.
pub proof fn lemma_remove_keeps_order(s: Seq<(u8, Seq<char>)>, i: int)
    requires
        0 <= i < s.len(),
    ensures
        sorted_by_priority(s) ==> sorted_by_priority(s.remove(i)),
        unique_addresses(s) ==> unique_addresses(s.remove(i)),
{
    s.remove_ensures(i);
    let t = s.remove(i);
    assert forall|a: int, b: int| 0 <= a < b < t.len() implies #[trigger] t[a] == s[if a < i {
        a
    } else {
        a + 1
    }] && #[trigger] t[b] == s[if b < i {
        b
    } else {
        b + 1
    }] by {}
}

/// Appending an entry with a new address keeps addresses unique.
pub proof fn lemma_push_keeps_unique(s: Seq<(u8, Seq<char>)>, x: (u8, Seq<char>))
    requires
        unique_addresses(s),
        !contains_address(s, x.1),
    ensures
        unique_addresses(s.push(x)),
{
    let t = s.push(x);
    assert forall|a: int, b: int| 0 <= a < b < t.len() implies t[a].1 != t[b].1 by {
        if b < s.len() {
            assert(t[a] == s[a] && t[b] == s[b]);
        } else {
            assert(t[a] == s[a]);
        }
    }
}

/// The entries of priority below `p`.
pub open spec fn priority_below(p: int) -> spec_fn((u8, Seq<char>)) -> bool {
    |e: (u8, Seq<char>)| e.0 < p
}

proof fn lemma_filter_keeps_all<A>(s: Seq<A>, f: spec_fn(A) -> bool)
    requires
        forall|i: int| 0 <= i < s.len() ==> f(#[trigger] s[i]),
    ensures
        s.filter(f) == s,
    decreases s.len(),
{
    if s.len() > 0 {
        let t = s.drop_last();
        assert forall|i: int| 0 <= i < t.len() implies f(#[trigger] t[i]) by {
            assert(t[i] == s[i]);
        }
        lemma_filter_keeps_all(t, f);
        lemma_filter_decompose(s, f);
        assert(t.push(s.last()) =~= s);
    } else {
        reveal(Seq::filter);
        assert(s.filter(f) =~= s);
    }
}

proof fn lemma_filter_keeps_none<A>(s: Seq<A>, f: spec_fn(A) -> bool)
    requires
        forall|i: int| 0 <= i < s.len() ==> !f(#[trigger] s[i]),
    ensures
        s.filter(f) == Seq::<A>::empty(),
    decreases s.len(),
{
    if s.len() > 0 {
        let t = s.drop_last();
        assert forall|i: int| 0 <= i < t.len() implies !f(#[trigger] t[i]) by {
            assert(t[i] == s[i]);
        }
        lemma_filter_keeps_none(t, f);
        lemma_filter_decompose(s, f);
    } else {
        reveal(Seq::filter);
        assert(s.filter(f) =~= Seq::<A>::empty());
    }
}

proof fn lemma_filter_single<A>(x: A, f: spec_fn(A) -> bool)
    ensures
        seq![x].filter(f) == if f(x) {
            seq![x]
        } else {
            Seq::<A>::empty()
        },
{
    let e = Seq::<A>::empty();
    reveal(Seq::filter);
    assert(e.filter(f) =~= e);
    e.lemma_filter_push(x, f);
    assert(e.push(x) =~= seq![x]);
}

proof fn lemma_sorted_drop_last(s: Seq<(u8, Seq<char>)>)
    requires
        sorted_by_priority(s),
        s.len() > 0,
    ensures
        sorted_by_priority(s.drop_last()),
{
    let t = s.drop_last();
    assert forall|i: int, j: int| 0 <= i < j < t.len() implies t[i].0 <= t[j].0 by {
        assert(t[i] == s[i] && t[j] == s[j]);
    }
}

proof fn lemma_sorted_split(s: Seq<(u8, Seq<char>)>, p: int)
    requires
        sorted_by_priority(s),
    ensures
        s.filter(priority_below(p)) + s.filter(has_priority(p)) == s.filter(priority_below(p + 1)),
    decreases s.len(),
{
    if s.len() == 0 {
        reveal(Seq::filter);
        assert(s.filter(priority_below(p)) + s.filter(has_priority(p)) =~= s.filter(
            priority_below(p + 1),
        ));
    } else {
        let t = s.drop_last();
        let y = s.last();
        lemma_sorted_drop_last(s);
        lemma_sorted_split(t, p);
        lemma_filter_decompose(s, priority_below(p));
        lemma_filter_decompose(s, has_priority(p));
        lemma_filter_decompose(s, priority_below(p + 1));
        let a = t.filter(priority_below(p));
        let b = t.filter(has_priority(p));
        if y.0 < p {
            assert forall|i: int| 0 <= i < t.len() implies !has_priority(p)(#[trigger] t[i]) by {
                assert(t[i] == s[i]);
                assert(s[i].0 <= s[s.len() - 1].0);
            }
            lemma_filter_keeps_none(t, has_priority(p));
            assert(a.push(y) + b =~= (a + b).push(y));
        } else if y.0 == p {
            assert(a + b.push(y) =~= (a + b).push(y));
        }
    }
}

proof fn lemma_sorted_below(s: Seq<(u8, Seq<char>)>, p: int)
    requires
        sorted_by_priority(s),
        0 <= p,
    ensures
        by_priority_below(s, p) == s.filter(priority_below(p)),
    decreases p,
{
    if p == 0 {
        assert forall|i: int| 0 <= i < s.len() implies !priority_below(0)(#[trigger] s[i]) by {}
        lemma_filter_keeps_none(s, priority_below(0));
    } else {
        lemma_sorted_below(s, p - 1);
        lemma_sorted_split(s, p - 1);
    }
}

/// A list sorted by priority is its own stable sort.
pub proof fn lemma_sorted_is_fixed(s: Seq<(u8, Seq<char>)>)
    requires
        sorted_by_priority(s),
    ensures
        by_priority(s) == s,
{
    lemma_sorted_below(s, 256);
    assert forall|i: int| 0 <= i < s.len() implies priority_below(256)(#[trigger] s[i]) by {}
    lemma_filter_keeps_all(s, priority_below(256));
}

proof fn lemma_below_bucket(s: Seq<(u8, Seq<char>)>, p: int, q: int)
    requires
        0 <= p,
        0 <= q,
    ensures
        by_priority_below(s, p).filter(has_priority(q)) == if q < p {
            s.filter(has_priority(q))
        } else {
            Seq::<(u8, Seq<char>)>::empty()
        },
    decreases p,
{
    if p == 0 {
        lemma_filter_keeps_none(by_priority_below(s, 0), has_priority(q));
    } else {
        lemma_below_bucket(s, p - 1, q);
        let a = by_priority_below(s, p - 1);
        let b = s.filter(has_priority(p - 1));
        Seq::filter_distributes_over_add(a, b, has_priority(q));
        if q == p - 1 {
            assert forall|i: int| 0 <= i < b.len() implies has_priority(q)(#[trigger] b[i]) by {
                s.lemma_filter_pred(has_priority(p - 1), i);
            }
            lemma_filter_keeps_all(b, has_priority(q));
            assert(Seq::<(u8, Seq<char>)>::empty() + b =~= b);
        } else {
            assert forall|i: int| 0 <= i < b.len() implies !has_priority(q)(#[trigger] b[i]) by {
                s.lemma_filter_pred(has_priority(p - 1), i);
            }
            lemma_filter_keeps_none(b, has_priority(q));
            let c = a.filter(has_priority(q));
            assert(c + Seq::<(u8, Seq<char>)>::empty() =~= c);
        }
    }
}

/// The stable sort keeps the entries of each priority in their order.
pub proof fn lemma_by_priority_bucket(s: Seq<(u8, Seq<char>)>, q: int)
    requires
        0 <= q < 256,
    ensures
        by_priority(s).filter(has_priority(q)) == s.filter(has_priority(q)),
{
    lemma_below_bucket(s, 256, q);
}

proof fn lemma_same_buckets_below(s: Seq<(u8, Seq<char>)>, t: Seq<(u8, Seq<char>)>, p: int)
    requires
        0 <= p <= 256,
        forall|q: int|
            0 <= q < 256 ==> #[trigger] s.filter(has_priority(q)) == t.filter(has_priority(q)),
    ensures
        by_priority_below(s, p) == by_priority_below(t, p),
    decreases p,
{
    if p > 0 {
        lemma_same_buckets_below(s, t, p - 1);
        assert(s.filter(has_priority(p - 1)) == t.filter(has_priority(p - 1)));
    }
}

proof fn lemma_after_unique(
    a: Seq<(u8, Seq<char>)>,
    x: (u8, Seq<char>),
    c: Seq<(u8, Seq<char>)>,
    h: spec_fn((u8, Seq<char>)) -> bool,
)
    requires
        unique_addresses(a + seq![x] + c),
        c.filter(h).len() > 0,
    ensures
        c.filter(h).last().1 != x.1,
{
    let b = a + seq![x] + c;
    let e = c.filter(h).last();
    assert(c.filter(h).contains(e));
    c.lemma_filter_contains_rev(h, e);
    let k = choose|k: int| 0 <= k < c.len() && c[k] == e;
    let i = a.len() as int;
    assert(b[i] == x);
    assert(c[k] == b[i + 1 + k]);
    assert(b[i].1 != b[i + 1 + k].1);
}

proof fn lemma_bucket_without(
    cur: Seq<(u8, Seq<char>)>,
    x: (u8, Seq<char>),
    a: Seq<(u8, Seq<char>)>,
    c: Seq<(u8, Seq<char>)>,
    q: int,
)
    requires
        by_priority(cur.push(x)) == a + seq![x] + c,
        unique_addresses(a + seq![x] + c),
        0 <= q < 256,
    ensures
        (a + c).filter(has_priority(q)) == cur.filter(has_priority(q)),
{
    let h = has_priority(q);
    assert(cur.push(x).filter(h) == (a + seq![x] + c).filter(h)) by {
        lemma_by_priority_bucket(cur.push(x), q);
    }
    cur.lemma_filter_push(x, h);
    Seq::filter_distributes_over_add(a + seq![x], c, h);
    Seq::filter_distributes_over_add(a, seq![x], h);
    Seq::filter_distributes_over_add(a, c, h);
    lemma_filter_single(x, h);
    let fa = a.filter(h);
    let fc = c.filter(h);
    if x.0 == q {
        let lhs = fa + seq![x] + fc;
        assert(lhs == cur.filter(h).push(x));
        if fc.len() > 0 {
            lemma_after_unique(a, x, c, h);
            assert(lhs[lhs.len() - 1] == fc.last());
            assert(false);
        }
        assert(lhs.drop_last() =~= fa);
        assert(fa + fc =~= fa);
    } else {
        assert(fa + Seq::<(u8, Seq<char>)>::empty() =~= fa);
    }
}

/// Sorting in an entry with a new address and taking it out again gives back a
/// list that was sorted by priority.
pub proof fn lemma_remove_sorted_in(cur: Seq<(u8, Seq<char>)>, x: (u8, Seq<char>), i: int)
    requires
        sorted_by_priority(cur),
        unique_addresses(cur),
        !contains_address(cur, x.1),
        0 <= i < by_priority(cur.push(x)).len(),
        by_priority(cur.push(x))[i].1 == x.1,
    ensures
        by_priority(cur.push(x)).remove(i) == cur,
{
    let s = cur.push(x);
    let b = by_priority(s);
    lemma_by_priority_same_entries(s);
    lemma_by_priority_sorted(s);
    lemma_push_keeps_unique(cur, x);
    lemma_unique_by_priority(s);
    assert(s[cur.len() as int] == x);
    assert(b.contains(x));
    let j = choose|j: int| 0 <= j < b.len() && b[j] == x;
    if i != j {
        if i < j {
            assert(b[i].1 != b[j].1);
        } else {
            assert(b[j].1 != b[i].1);
        }
    }
    assert(b[i] == x);
    let t = b.remove(i);
    lemma_remove_keeps_order(b, i);
    let a = b.take(i);
    let c = b.skip(i + 1);
    assert(b =~= a + seq![x] + c);
    assert(t =~= a + c);
    assert forall|q: int| 0 <= q < 256 implies #[trigger] t.filter(has_priority(q)) == cur.filter(
        has_priority(q),
    ) by {
        lemma_bucket_without(cur, x, a, c, q);
    }
    lemma_same_buckets_below(t, cur, 256);
    lemma_sorted_is_fixed(t);
    lemma_sorted_is_fixed(cur);
}

} // verus!
