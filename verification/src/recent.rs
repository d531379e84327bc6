//! Selection of recent history: the rows whose timestamp ranks among the
//! `n` most recent distinct timestamps, returned in ascending time order.
//!
//! One inbound message fans out into several rows sharing one timestamp, so
//! "recent n" counts distinct timestamps, never raw rows: otherwise the tail
//! segments of a multi-part message would be silently truncated.

use vstd::prelude::*;
use vstd::multiset::Multiset;
use vstd::relations::sorted_by;
use vstd::seq_lib::{lemma_multiset_commutative, lemma_sorted_unique};
use crate::text::{lex_le, lex_lt, lex_leq_fn, lemma_lex_le_antisymmetric, lemma_lex_le_total,
    lemma_lex_le_total_ordering, str_eq, str_lex_le};

verus! {

/// The distinct keys of `rows`, in order of first occurrence.
pub open spec fn distinct_keys<A>(rows: Seq<A>, key: spec_fn(A) -> Seq<char>) -> Seq<Seq<char>>
    decreases rows.len(),
{
    if rows.len() == 0 {
        Seq::empty()
    } else {
        let prior = distinct_keys(rows.drop_last(), key);
        if prior.contains(key(rows.last())) {
            prior
        } else {
            prior.push(key(rows.last()))
        }
    }
}

/// The predicate selecting rows whose key is `t`.
pub open spec fn key_is<A>(key: spec_fn(A) -> Seq<char>, t: Seq<char>) -> spec_fn(A) -> bool {
    |r: A| key(r) == t
}

/// For each key in `ts`, in order, every row bearing that key, in row order.
pub open spec fn group_by_keys<A>(
    rows: Seq<A>,
    key: spec_fn(A) -> Seq<char>,
    ts: Seq<Seq<char>>,
) -> Seq<A>
    decreases ts.len(),
{
    if ts.len() == 0 {
        Seq::empty()
    } else {
        group_by_keys(rows, key, ts.drop_last()) + rows.filter(key_is(key, ts.last()))
    }
}

/// The `n` greatest distinct keys of `rows`, in ascending order.
pub open spec fn recent_keys<A>(rows: Seq<A>, key: spec_fn(A) -> Seq<char>, n: int) -> Seq<
    Seq<char>,
> {
    let sorted = distinct_keys(rows, key).sort_by(lex_leq_fn());
    if sorted.len() <= n {
        sorted
    } else {
        sorted.skip(sorted.len() - n)
    }
}

/// The rows whose key ranks among the `n` greatest distinct keys, grouped in
/// ascending key order; within one key, in row order.
pub open spec fn recent_rows<A>(rows: Seq<A>, key: spec_fn(A) -> Seq<char>, n: int) -> Seq<A> {
    group_by_keys(rows, key, recent_keys(rows, key, n))
}

/// With no rows there is no recent history.
pub proof fn lemma_recent_rows_of_empty<A>(key: spec_fn(A) -> Seq<char>, n: int)
    requires
        n >= 0,
    ensures
        recent_rows(Seq::<A>::empty(), key, n) == Seq::<A>::empty(),
{
    broadcast use vstd::seq_lib::group_to_multiset_ensures;

    let d = distinct_keys(Seq::<A>::empty(), key);
    assert(d =~= Seq::<Seq<char>>::empty());
    lemma_lex_le_total_ordering();
    d.lemma_sort_by_ensures(lex_leq_fn());
    let s = d.sort_by(lex_leq_fn());
    assert(s.to_multiset().len() == 0);
    assert(s =~= Seq::<Seq<char>>::empty());
    assert(recent_keys(Seq::<A>::empty(), key, n) =~= Seq::<Seq<char>>::empty());
    assert(group_by_keys(Seq::<A>::empty(), key, Seq::<Seq<char>>::empty()) =~= Seq::<
        A,
    >::empty());
}

/// Inserting anywhere in a sequence adds one occurrence to its multiset.
pub proof fn lemma_to_multiset_insert<A>(s: Seq<A>, j: int, x: A)
    requires
        0 <= j <= s.len(),
    ensures
        s.insert(j, x).to_multiset() =~= s.to_multiset().insert(x),
{
    broadcast use vstd::seq_lib::group_to_multiset_ensures;

    let t = s.take(j);
    let u = s.skip(j);
    assert(s.insert(j, x) =~= t + (seq![x] + u));
    assert(s =~= t + u);
    lemma_multiset_commutative(t, seq![x] + u);
    lemma_multiset_commutative(seq![x], u);
    lemma_multiset_commutative(t, u);
    assert(seq![x] =~= Seq::<A>::empty().push(x));
    assert(seq![x].to_multiset() =~= Seq::<A>::empty().to_multiset().insert(x));
    assert(Seq::<A>::empty().to_multiset() =~= Multiset::<A>::empty()) by {
        assert(Seq::<A>::empty().to_multiset().len() == 0);
    }
}

/// A sequence stays sorted when a value is inserted between the elements at
/// most it and the elements at least it.
proof fn lemma_sorted_insert(s: Seq<Seq<char>>, j: int, x: Seq<char>)
    requires
        sorted_by(s, lex_leq_fn()),
        0 <= j <= s.len(),
        forall|k: int| 0 <= k < j ==> lex_le(#[trigger] s[k], x),
        forall|k: int| j <= k < s.len() ==> lex_le(x, #[trigger] s[k]),
    ensures
        sorted_by(s.insert(j, x), lex_leq_fn()),
{
    let t = s.insert(j, x);
    assert forall|a: int, b: int| 0 <= a < b < t.len() implies #[trigger] lex_leq_fn()(
        t[a],
        t[b],
    ) by {
        if a < j && b < j {
            assert(lex_leq_fn()(s[a], s[b]));
        } else if a < j && b == j {
            assert(lex_le(s[a], x));
        } else if a < j && b > j {
            assert(lex_leq_fn()(s[a], s[b - 1]));
        } else if a == j {
            assert(lex_le(x, s[b - 1]));
        } else {
            assert(lex_leq_fn()(s[a - 1], s[b - 1]));
        }
    }
}

/// The predicate selecting rows whose key lies in `ts`.
pub open spec fn key_in<A>(key: spec_fn(A) -> Seq<char>, ts: Seq<Seq<char>>) -> spec_fn(A) -> bool {
    |r: A| ts.contains(key(r))
}

/// The predicate selecting keys strictly above `t`.
pub open spec fn strictly_above(t: Seq<char>) -> spec_fn(Seq<char>) -> bool {
    |u: Seq<char>| lex_lt(t, u)
}

/// How many distinct keys of `rows` rank strictly above `t`.
pub open spec fn distinct_keys_above<A>(
    rows: Seq<A>,
    key: spec_fn(A) -> Seq<char>,
    t: Seq<char>,
) -> nat {
    distinct_keys(rows, key).filter(strictly_above(t)).len()
}

/// Whether `t` ranks among the `n` most recent keys of `rows`: some row
/// bears it, and fewer than `n` distinct keys lie strictly above it.
pub open spec fn is_recent_key<A>(
    rows: Seq<A>,
    key: spec_fn(A) -> Seq<char>,
    n: int,
    t: Seq<char>,
) -> bool {
    distinct_keys(rows, key).contains(t) && distinct_keys_above(rows, key, t) < n
}

/// The predicate selecting rows whose key is recent.
pub open spec fn recent_pred<A>(rows: Seq<A>, key: spec_fn(A) -> Seq<char>, n: int) -> spec_fn(
    A,
) -> bool {
    |r: A| is_recent_key(rows, key, n, key(r))
}

/// Whether the rows are in ascending key order.
pub open spec fn sorted_by_key<A>(s: Seq<A>, key: spec_fn(A) -> Seq<char>) -> bool {
    forall|i: int, j: int|
        0 <= i < j < s.len() ==> lex_le(key(#[trigger] s[i]), key(#[trigger] s[j]))
}

/// Two pointwise-equal predicates select the same rows.
pub proof fn lemma_filter_congruent<A>(s: Seq<A>, p: spec_fn(A) -> bool, q: spec_fn(A) -> bool)
    requires
        forall|x: A| #[trigger] p(x) == q(x),
    ensures
        s.filter(p) == s.filter(q),
    decreases s.len(),
{
    reveal(Seq::filter);
    if s.len() > 0 {
        lemma_filter_congruent(s.drop_last(), p, q);
    }
}

/// A filter keeps the whole sequence when every element satisfies it.
proof fn lemma_filter_all_true<A>(s: Seq<A>, p: spec_fn(A) -> bool)
    requires
        forall|k: int| 0 <= k < s.len() ==> p(#[trigger] s[k]),
    ensures
        s.filter(p) =~= s,
    decreases s.len(),
{
    reveal(Seq::filter);
    if s.len() > 0 {
        lemma_filter_all_true(s.drop_last(), p);
    }
}

/// A filter keeps nothing when no element satisfies it.
proof fn lemma_filter_all_false<A>(s: Seq<A>, p: spec_fn(A) -> bool)
    requires
        forall|k: int| 0 <= k < s.len() ==> !p(#[trigger] s[k]),
    ensures
        s.filter(p) =~= Seq::<A>::empty(),
    decreases s.len(),
{
    reveal(Seq::filter);
    if s.len() > 0 {
        lemma_filter_all_false(s.drop_last(), p);
    }
}

/// Filtering a sequence and filtering its multiset agree.
proof fn lemma_seq_filter_multiset<A>(s: Seq<A>, p: spec_fn(A) -> bool)
    ensures
        s.filter(p).to_multiset() =~= s.to_multiset().filter(p),
    decreases s.len(),
{
    broadcast use vstd::seq_lib::group_to_multiset_ensures;
    broadcast use vstd::multiset::group_multiset_axioms;

    reveal(Seq::filter);
    if s.len() == 0 {
        assert(s.filter(p) =~= Seq::<A>::empty());
        assert forall|v: A| s.to_multiset().filter(p).count(v) == 0 by {
            assert(s.to_multiset().count(v) == 0);
        }
    } else {
        let s0 = s.drop_last();
        let x = s.last();
        lemma_seq_filter_multiset(s0, p);
        assert(s =~= s0.push(x));
        assert(s0.push(x).to_multiset() =~= s0.to_multiset().insert(x));
        if p(x) {
            assert(s.filter(p) =~= s0.filter(p).push(x));
            assert(s0.filter(p).push(x).to_multiset() =~= s0.filter(p).to_multiset().insert(x));
            assert forall|v: A|
                s0.to_multiset().insert(x).filter(p).count(v) == s0.to_multiset().filter(
                    p,
                ).insert(x).count(v) by {
            }
            assert(s.to_multiset().filter(p) =~= s0.to_multiset().filter(p).insert(x));
        } else {
            assert(s.filter(p) =~= s0.filter(p));
            assert forall|v: A|
                s0.to_multiset().insert(x).filter(p).count(v) == s0.to_multiset().filter(
                    p,
                ).count(v) by {
            }
            assert(s.to_multiset().filter(p) =~= s0.to_multiset().filter(p));
        }
    }
}

/// Sequences with the same multiset keep the same number of rows under any
/// filter.
proof fn lemma_filter_len_of_multiset<A>(a: Seq<A>, b: Seq<A>, p: spec_fn(A) -> bool)
    requires
        a.to_multiset() == b.to_multiset(),
    ensures
        a.filter(p).len() == b.filter(p).len(),
{
    broadcast use vstd::seq_lib::group_to_multiset_ensures;

    lemma_seq_filter_multiset(a, p);
    lemma_seq_filter_multiset(b, p);
    assert(a.filter(p).to_multiset().len() == b.filter(p).to_multiset().len());
}

/// A filter over a disjoint union of predicates splits into the two filters.
proof fn lemma_filter_split<A>(
    s: Seq<A>,
    r: spec_fn(A) -> bool,
    p: spec_fn(A) -> bool,
    q: spec_fn(A) -> bool,
)
    requires
        forall|x: A| #[trigger] r(x) == (p(x) || q(x)),
        forall|x: A| !(#[trigger] p(x) && q(x)),
    ensures
        s.filter(r).to_multiset() =~= s.filter(p).to_multiset().add(s.filter(q).to_multiset()),
    decreases s.len(),
{
    broadcast use vstd::seq_lib::group_to_multiset_ensures;
    broadcast use vstd::multiset::group_multiset_axioms;

    reveal(Seq::filter);
    if s.len() == 0 {
        assert(s.filter(r) =~= Seq::<A>::empty());
        assert(s.filter(p) =~= Seq::<A>::empty());
        assert(s.filter(q) =~= Seq::<A>::empty());
        assert forall|v: A|
            s.filter(r).to_multiset().count(v) == s.filter(p).to_multiset().add(
                s.filter(q).to_multiset(),
            ).count(v) by {
        }
    } else {
        let s0 = s.drop_last();
        let x = s.last();
        lemma_filter_split(s0, r, p, q);
        assert forall|v: A|
            s.filter(r).to_multiset().count(v) == s.filter(p).to_multiset().add(
                s.filter(q).to_multiset(),
            ).count(v) by {
            if p(x) {
                assert(s.filter(r).to_multiset() =~= s0.filter(r).to_multiset().insert(x));
                assert(s.filter(p).to_multiset() =~= s0.filter(p).to_multiset().insert(x));
                assert(s.filter(q) == s0.filter(q));
            } else if q(x) {
                assert(s.filter(r).to_multiset() =~= s0.filter(r).to_multiset().insert(x));
                assert(s.filter(q).to_multiset() =~= s0.filter(q).to_multiset().insert(x));
                assert(s.filter(p) == s0.filter(p));
            } else {
                assert(s.filter(r) == s0.filter(r));
                assert(s.filter(p) == s0.filter(p));
                assert(s.filter(q) == s0.filter(q));
            }
        }
    }
}

/// The distinct keys: no repeats, and exactly the keys the rows bear.
pub proof fn lemma_distinct_keys<A>(rows: Seq<A>, key: spec_fn(A) -> Seq<char>)
    ensures
        distinct_keys(rows, key).no_duplicates(),
        forall|t: Seq<char>|
            #[trigger] distinct_keys(rows, key).contains(t) <==> exists|i: int|
                0 <= i < rows.len() && key(#[trigger] rows[i]) == t,
    decreases rows.len(),
{
    if rows.len() > 0 {
        let rest = rows.drop_last();
        let d0 = distinct_keys(rest, key);
        let d = distinct_keys(rows, key);
        let x = key(rows.last());
        lemma_distinct_keys(rest, key);
        assert forall|i: int| 0 <= i < rest.len() implies #[trigger] key(rest[i]) == key(
            rows[i],
        ) by {
            assert(rest[i] == rows[i]);
        }
        if d0.contains(x) {
            assert(d == d0);
        } else {
            assert(d == d0.push(x));
            assert forall|i: int, j: int| 0 <= i < j < d.len() implies d[i] != d[j] by {
                if j < d.len() - 1 {
                    assert(d[i] == d0[i] && d[j] == d0[j]);
                } else {
                    assert(d[j] == x);
                    assert(d[i] == d0[i]);
                    if d0[i] == x {
                        assert(d0.contains(x));
                    }
                }
            }
        }
        assert forall|t: Seq<char>| #[trigger] d.contains(t) implies exists|i: int|
            0 <= i < rows.len() && key(#[trigger] rows[i]) == t by {
            if t == x {
                assert(key(rows[rows.len() - 1]) == t);
            } else {
                assert(d0.contains(t));
                let i = choose|i: int| 0 <= i < rest.len() && key(#[trigger] rest[i]) == t;
                assert(key(rows[i]) == t);
            }
        }
        assert forall|t: Seq<char>|
            (exists|i: int| 0 <= i < rows.len() && key(#[trigger] rows[i]) == t) implies #[trigger] d.contains(t) by {
            let i = choose|i: int| 0 <= i < rows.len() && key(#[trigger] rows[i]) == t;
            if i == rows.len() - 1 {
                if d0.contains(x) {
                    assert(d.contains(t));
                } else {
                    assert(d[d.len() - 1] == t);
                }
            } else {
                assert(key(rest[i]) == t);
                assert(d0.contains(t));
                if d == d0.push(x) {
                    let j = choose|j: int| 0 <= j < d0.len() && d0[j] == t;
                    assert(d[j] == t);
                }
            }
        }
    }
}

/// Every row of a grouping bears a listed key, and listing the keys in
/// ascending order yields rows in ascending key order.
pub proof fn lemma_group_by_keys_sorted<A>(
    rows: Seq<A>,
    key: spec_fn(A) -> Seq<char>,
    ts: Seq<Seq<char>>,
)
    requires
        sorted_by(ts, lex_leq_fn()),
    ensures
        forall|i: int|
            0 <= i < group_by_keys(rows, key, ts).len() ==> ts.contains(
                key(#[trigger] group_by_keys(rows, key, ts)[i]),
            ),
        sorted_by_key(group_by_keys(rows, key, ts), key),
    decreases ts.len(),
{
    broadcast use vstd::seq_lib::group_filter_ensures;

    if ts.len() > 0 {
        let ts0 = ts.drop_last();
        let t = ts.last();
        let g0 = group_by_keys(rows, key, ts0);
        let tail = rows.filter(key_is(key, t));
        let g = group_by_keys(rows, key, ts);
        assert(sorted_by(ts0, lex_leq_fn())) by {
            assert(forall|i: int, j: int|
                0 <= i < j < ts0.len() ==> lex_leq_fn()(#[trigger] ts0[i], #[trigger] ts0[j])
                    == lex_leq_fn()(ts[i], ts[j]));
        }
        lemma_group_by_keys_sorted(rows, key, ts0);
        assert(g == g0 + tail);
        assert forall|i: int| 0 <= i < g.len() implies ts.contains(key(#[trigger] g[i])) by {
            if i < g0.len() {
                assert(g[i] == g0[i]);
                assert(ts0.contains(key(g0[i])));
                let j = choose|j: int| 0 <= j < ts0.len() && ts0[j] == key(g0[i]);
                assert(ts[j] == key(g[i]));
            } else {
                assert(g[i] == tail[i - g0.len()]);
                assert(key_is(key, t)(tail[i - g0.len()]));
                assert(ts[ts.len() - 1] == key(g[i]));
            }
        }
        assert forall|i: int, j: int| 0 <= i < j < g.len() implies lex_le(
            key(#[trigger] g[i]),
            key(#[trigger] g[j]),
        ) by {
            if j < g0.len() {
                assert(g[i] == g0[i] && g[j] == g0[j]);
            } else {
                assert(key_is(key, t)(tail[j - g0.len()]));
                assert(key(g[j]) == t);
                if i < g0.len() {
                    assert(ts0.contains(key(g0[i])));
                    let k = choose|k: int| 0 <= k < ts0.len() && ts0[k] == key(g0[i]);
                    if ts0.len() > 0 {
                        assert(lex_leq_fn()(ts[k], ts[ts.len() - 1]));
                    }
                } else {
                    assert(key(g[i]) == t);
                    lemma_lex_le_total(t, t);
                }
            }
        }
    }
}

/// A grouping under distinct keys holds exactly the rows bearing a listed
/// key, each once.
pub proof fn lemma_group_by_keys_multiset<A>(
    rows: Seq<A>,
    key: spec_fn(A) -> Seq<char>,
    ts: Seq<Seq<char>>,
)
    requires
        ts.no_duplicates(),
    ensures
        group_by_keys(rows, key, ts).to_multiset() =~= rows.filter(key_in(key, ts)).to_multiset(),
    decreases ts.len(),
{
    broadcast use vstd::seq_lib::group_to_multiset_ensures;
    broadcast use vstd::multiset::group_multiset_axioms;

    if ts.len() == 0 {
        lemma_filter_all_false(rows, key_in(key, ts));
        assert(group_by_keys(rows, key, ts) =~= Seq::<A>::empty());
        assert(rows.filter(key_in(key, ts)) =~= Seq::<A>::empty());
    } else {
        let ts0 = ts.drop_last();
        let t = ts.last();
        assert(ts0.no_duplicates()) by {
            assert(forall|i: int, j: int|
                0 <= i < j < ts0.len() ==> #[trigger] ts0[i] == ts[i] && #[trigger] ts0[j]
                    == ts[j]);
        }
        lemma_group_by_keys_multiset(rows, key, ts0);
        let g0 = group_by_keys(rows, key, ts0);
        let tail = rows.filter(key_is(key, t));
        assert(group_by_keys(rows, key, ts) == g0 + tail);
        lemma_multiset_commutative(g0, tail);
        assert forall|x: A| #[trigger] key_in(key, ts)(x) == (key_in(key, ts0)(x) || key_is(
            key,
            t,
        )(x)) by {
            assert(ts =~= ts0.push(t));
            if ts.contains(key(x)) {
                let j = choose|j: int| 0 <= j < ts.len() && ts[j] == key(x);
                if j < ts.len() - 1 {
                    assert(ts0[j] == key(x));
                    assert(ts0.contains(key(x)));
                }
            }
            if ts0.contains(key(x)) {
                let j = choose|j: int| 0 <= j < ts0.len() && ts0[j] == key(x);
                assert(ts[j] == key(x));
            }
            if key(x) == t {
                assert(ts[ts.len() - 1] == key(x));
            }
        }
        assert forall|x: A| !(#[trigger] key_in(key, ts0)(x) && key_is(key, t)(x)) by {
            if ts0.contains(key(x)) && key(x) == t {
                let j = choose|j: int| 0 <= j < ts0.len() && ts0[j] == key(x);
                assert(ts[j] == t);
                assert(ts[ts.len() - 1] == t);
            }
        }
        lemma_filter_split(rows, key_in(key, ts), key_in(key, ts0), key_is(key, t));
    }
}

/// The membership of the recent-key window: a key lies in it exactly when
/// it occurs and fewer than `n` distinct keys rank above it.
proof fn lemma_recent_keys_membership<A>(rows: Seq<A>, key: spec_fn(A) -> Seq<char>, n: int)
    requires
        n >= 0,
    ensures
        recent_keys(rows, key, n).no_duplicates(),
        sorted_by(recent_keys(rows, key, n), lex_leq_fn()),
        recent_keys(rows, key, n).len() <= n,
        forall|t: Seq<char>|
            #[trigger] recent_keys(rows, key, n).contains(t) <==> is_recent_key(rows, key, n, t),
{
    broadcast use vstd::seq_lib::group_to_multiset_ensures;

    let d = distinct_keys(rows, key);
    let leq = lex_leq_fn();
    lemma_lex_le_total_ordering();
    lemma_distinct_keys(rows, key);
    d.lemma_sort_by_ensures(leq);
    let s = d.sort_by(leq);
    d.lemma_multiset_has_no_duplicates();
    s.lemma_multiset_has_no_duplicates_conv();
    let start: int = if s.len() <= n {
        0
    } else {
        s.len() - n
    };
    let keep = recent_keys(rows, key, n);
    assert(keep =~= s.skip(start));
    assert(keep.no_duplicates()) by {
        assert(forall|i: int, j: int|
            0 <= i < j < keep.len() ==> #[trigger] keep[i] == s[i + start] && #[trigger] keep[j]
                == s[j + start]);
    }
    assert(sorted_by(keep, leq)) by {
        assert(forall|i: int, j: int|
            0 <= i < j < keep.len() ==> #[trigger] keep[i] == s[i + start] && #[trigger] keep[j]
                == s[j + start]);
    }
    assert forall|t: Seq<char>| #[trigger] keep.contains(t) <==> is_recent_key(
        rows,
        key,
        n,
        t,
    ) by {
        assert(d.contains(t) <==> s.contains(t)) by {
            assert(d.contains(t) <==> d.to_multiset().count(t) > 0);
            assert(s.contains(t) <==> s.to_multiset().count(t) > 0);
            assert(d.to_multiset().count(t) == s.to_multiset().count(t));
        }
        if s.contains(t) {
            let i = choose|i: int| 0 <= i < s.len() && s[i] == t;
            assert(s.filter(strictly_above(t)).len() == s.len() - 1 - i) by {
                assert(s =~= s.take(i + 1) + s.skip(i + 1));
                assert forall|k: int| 0 <= k < s.take(i + 1).len() implies !strictly_above(t)(
                    #[trigger] s.take(i + 1)[k],
                ) by {
                    assert(s.take(i + 1)[k] == s[k]);
                    if k < i {
                        assert(leq(s[k], s[i]));
                    }
                    if lex_lt(t, s[k]) {
                        lemma_lex_le_antisymmetric(s[k], t);
                    }
                }
                lemma_filter_all_false(s.take(i + 1), strictly_above(t));
                assert forall|k: int| 0 <= k < s.skip(i + 1).len() implies strictly_above(t)(
                    #[trigger] s.skip(i + 1)[k],
                ) by {
                    assert(s.skip(i + 1)[k] == s[k + i + 1]);
                    assert(leq(s[i], s[k + i + 1]));
                    assert(s[i] != s[k + i + 1]);
                }
                lemma_filter_all_true(s.skip(i + 1), strictly_above(t));
                Seq::filter_distributes_over_add(s.take(i + 1), s.skip(i + 1), strictly_above(t));
            }
            assert(distinct_keys_above(rows, key, t) == s.len() - 1 - i) by {
                lemma_filter_len_of_multiset(d, s, strictly_above(t));
            }
            assert(keep.contains(t) <==> i >= start) by {
                if i >= start {
                    assert(keep[i - start] == t);
                }
                if keep.contains(t) {
                    let j = choose|j: int| 0 <= j < keep.len() && keep[j] == t;
                    assert(s[j + start] == t);
                    assert(j + start == i);
                }
            }
        } else {
            assert(!keep.contains(t)) by {
                if keep.contains(t) {
                    let j = choose|j: int| 0 <= j < keep.len() && keep[j] == t;
                    assert(s[j + start] == t);
                }
            }
        }
    }
}

/// Recent history spans at most `n` distinct timestamps and comes in
/// ascending time order, complete timestamp groups in row order.
pub proof fn lemma_recent_rows_sorted<A>(rows: Seq<A>, key: spec_fn(A) -> Seq<char>, n: int)
    requires
        n >= 0,
    ensures
        sorted_by_key(recent_rows(rows, key, n), key),
{
    lemma_recent_keys_membership(rows, key, n);
    lemma_group_by_keys_sorted(rows, key, recent_keys(rows, key, n));
}

/// Recent history holds exactly the rows whose timestamp ranks among the
/// `n` most recent distinct timestamps: nothing dropped, nothing added.
pub proof fn lemma_recent_rows_complete<A>(rows: Seq<A>, key: spec_fn(A) -> Seq<char>, n: int)
    requires
        n >= 0,
    ensures
        recent_rows(rows, key, n).to_multiset() == rows.filter(
            recent_pred(rows, key, n),
        ).to_multiset(),
{
    lemma_recent_keys_membership(rows, key, n);
    lemma_group_by_keys_multiset(rows, key, recent_keys(rows, key, n));
    assert forall|x: A| #[trigger] key_in(key, recent_keys(rows, key, n))(x) == recent_pred(
        rows,
        key,
        n,
    )(x) by {
    }
    lemma_filter_congruent(rows, key_in(key, recent_keys(rows, key, n)), recent_pred(rows, key, n));
}

/// Recent history spans at most `n` distinct timestamps.
pub proof fn lemma_recent_rows_span<A>(rows: Seq<A>, key: spec_fn(A) -> Seq<char>, n: int)
    requires
        n >= 0,
    ensures
        distinct_keys(recent_rows(rows, key, n), key).len() <= n,
{
    broadcast use vstd::set_lib::group_set_lib_default;
    broadcast use vstd::set::group_set_axioms;

    lemma_recent_keys_membership(rows, key, n);
    let keep = recent_keys(rows, key, n);
    let g = recent_rows(rows, key, n);
    let dg = distinct_keys(g, key);
    lemma_distinct_keys(g, key);
    lemma_group_by_keys_sorted(rows, key, keep);
    assert(dg.to_set().subset_of(keep.to_set())) by {
        assert forall|t: Seq<char>| #[trigger] dg.to_set().contains(t) implies keep.to_set()
            .contains(t) by {
            assert(dg.contains(t));
            let i = choose|i: int| 0 <= i < g.len() && key(#[trigger] g[i]) == t;
            assert(keep.contains(t));
        }
    }
    dg.unique_seq_to_set();
    keep.unique_seq_to_set();
    vstd::seq_lib::seq_to_set_is_finite(dg);
    vstd::seq_lib::seq_to_set_is_finite(keep);
    vstd::set_lib::lemma_len_subset(dg.to_set(), keep.to_set());
}

/// Replaying the single most recent event: when `t` is the greatest
/// timestamp any row bears, asking for one event yields exactly the rows
/// bearing `t`, complete and in row order.
pub proof fn lemma_latest_rows_complete<A>(rows: Seq<A>, key: spec_fn(A) -> Seq<char>, t: Seq<
    char,
>)
    requires
        exists|i: int| 0 <= i < rows.len() && key(#[trigger] rows[i]) == t,
        forall|i: int| 0 <= i < rows.len() ==> lex_le(key(#[trigger] rows[i]), t),
    ensures
        recent_rows(rows, key, 1) == rows.filter(key_is(key, t)),
{
    broadcast use vstd::seq_lib::group_to_multiset_ensures;

    let d = distinct_keys(rows, key);
    let leq = lex_leq_fn();
    lemma_lex_le_total_ordering();
    lemma_distinct_keys(rows, key);
    d.lemma_sort_by_ensures(leq);
    let s = d.sort_by(leq);
    assert(d.contains(t));
    assert(s.contains(t)) by {
        assert(d.contains(t) <==> d.to_multiset().count(t) > 0);
        assert(s.contains(t) <==> s.to_multiset().count(t) > 0);
        assert(d.to_multiset().count(t) == s.to_multiset().count(t));
    }
    assert(s.len() >= 1);
    let keep = recent_keys(rows, key, 1);
    assert(keep =~= s.skip(s.len() - 1));
    assert(keep.len() == 1);
    assert(keep[0] == s[s.len() - 1]);
    assert(s[s.len() - 1] == t) by {
        let i = choose|i: int| 0 <= i < s.len() && s[i] == t;
        assert(leq(s[i], s[s.len() - 1]));
        assert(d.contains(s[s.len() - 1])) by {
            assert(s.contains(s[s.len() - 1]));
            assert(d.contains(s[s.len() - 1]) <==> d.to_multiset().count(s[s.len() - 1]) > 0);
            assert(s.contains(s[s.len() - 1]) <==> s.to_multiset().count(s[s.len() - 1]) > 0);
            assert(d.to_multiset().count(s[s.len() - 1]) == s.to_multiset().count(s[s.len() - 1]));
        }
        let j = choose|j: int| 0 <= j < rows.len() && key(#[trigger] rows[j]) == s[s.len() - 1];
        assert(lex_le(s[s.len() - 1], t));
        lemma_lex_le_antisymmetric(s[s.len() - 1], t);
    }
    assert(group_by_keys(rows, key, keep) == group_by_keys(rows, key, keep.drop_last())
        + rows.filter(key_is(key, keep.last())));
    assert(keep.drop_last() =~= Seq::<Seq<char>>::empty());
    assert(group_by_keys(rows, key, keep.drop_last()) =~= Seq::<A>::empty());
    assert(recent_rows(rows, key, 1) =~= rows.filter(key_is(key, t)));
}

/// Whether some element of `v` holds the same characters as `t`.
pub fn vec_contains_string(v: &Vec<String>, t: &str) -> (r: bool)
    ensures
        r == v@.map_values(|x: String| x@).contains(t@),
{
    let n = v.len();
    let mut i: usize = 0;
    while i < n
        invariant
            n == v@.len(),
            i <= n,
            forall|j: int| 0 <= j < i ==> #[trigger] v@[j]@ != t@,
        decreases n - i,
    {
        if str_eq(v[i].as_str(), t) {
            proof {
                assert(v@.map_values(|x: String| x@)[i as int] == t@);
            }
            return true;
        }
        i = i + 1;
    }
    proof {
        let m = v@.map_values(|x: String| x@);
        assert forall|j: int| 0 <= j < m.len() implies m[j] != t@ by {
            assert(m[j] == v@[j]@);
        }
    }
    false
}

/// Sorts the strings in ascending lexicographic order; the result is exactly
/// the specification-level sort of the input.
pub fn sort_strings(v: Vec<String>) -> (r: Vec<String>)
    ensures
        r@.map_values(|x: String| x@) == v@.map_values(|x: String| x@).sort_by(lex_leq_fn()),
{
    broadcast use vstd::seq_lib::group_to_multiset_ensures;

    let ghost inv = v@.map_values(|x: String| x@);
    let n = v.len();
    let mut src = v;
    let mut out: Vec<String> = Vec::new();
    proof {
        lemma_lex_le_total_ordering();
        assert(out@.map_values(|x: String| x@) =~= Seq::<Seq<char>>::empty());
        assert(inv.take(0) =~= Seq::<Seq<char>>::empty());
        assert(inv.take(0).to_multiset() =~= Seq::<Seq<char>>::empty().to_multiset());
    }
    let mut i: usize = 0;
    while i < n
        invariant
            n == src@.len(),
            i <= n,
            inv == src@.map_values(|x: String| x@),
            sorted_by(out@.map_values(|x: String| x@), lex_leq_fn()),
            out@.map_values(|x: String| x@).to_multiset() == inv.take(i as int).to_multiset(),
        decreases n - i,
    {
        let x = src[i].clone();
        let ghost xv = x@;
        proof {
            assert(xv == inv[i as int]);
        }
        let olen = out.len();
        let mut pos: usize = 0;
        while pos < olen
            invariant_except_break
                olen == out@.len(),
                pos <= olen,
                xv == x@,
                forall|k: int| 0 <= k < pos ==> lex_le(#[trigger] out@[k]@, xv),
            ensures
                olen == out@.len(),
                pos <= olen,
                xv == x@,
                forall|k: int| 0 <= k < pos ==> lex_le(#[trigger] out@[k]@, xv),
                pos < olen ==> !lex_le(out@[pos as int]@, xv),
            decreases olen - pos,
        {
            if str_lex_le(out[pos].as_str(), x.as_str()) {
                pos = pos + 1;
            } else {
                break;
            }
        }
        proof {
            let ov = out@.map_values(|y: String| y@);
            lemma_lex_le_total_ordering();
            assert forall|k: int| 0 <= k < pos implies lex_le(#[trigger] ov[k], xv) by {
                assert(ov[k] == out@[k]@);
            }
            assert forall|k: int| pos <= k < ov.len() implies lex_le(xv, #[trigger] ov[k]) by {
                assert(!lex_le(out@[pos as int]@, xv));
                lemma_lex_le_total(out@[pos as int]@, xv);
                assert(lex_le(xv, ov[pos as int]));
                if k > pos {
                    assert(lex_leq_fn()(ov[pos as int], ov[k]));
                    crate::text::lemma_lex_le_transitive(xv, ov[pos as int], ov[k]);
                }
            }
            lemma_sorted_insert(ov, pos as int, xv);
            lemma_to_multiset_insert(ov, pos as int, xv);
        }
        let ghost ov0 = out@.map_values(|y: String| y@);
        out.insert(pos, x);
        proof {
            broadcast use vstd::seq_lib::group_to_multiset_ensures;

            assert(out@.map_values(|y: String| y@) =~= ov0.insert(pos as int, xv));
            assert(inv.take(i + 1) =~= inv.take(i as int).push(xv));
            assert(inv.take(i as int).push(xv).to_multiset() =~= inv.take(
                i as int,
            ).to_multiset().insert(xv));
        }
        i = i + 1;
    }
    proof {
        lemma_lex_le_total_ordering();
        assert(inv.take(n as int) =~= inv);
        inv.lemma_sort_by_ensures(lex_leq_fn());
        lemma_sorted_unique(
            out@.map_values(|x: String| x@),
            inv.sort_by(lex_leq_fn()),
            lex_leq_fn(),
        );
    }
    out
}

} // verus!
