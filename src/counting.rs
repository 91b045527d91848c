use vstd::prelude::*;

verus! {

/// `t` after one more occurrence of `k`: its count goes up by one, or `k`
/// joins the end with a count of one.
pub open spec fn bump<K>(t: Seq<(K, nat)>, k: K) -> Seq<(K, nat)> {
    if exists|i: int| 0 <= i < t.len() && #[trigger] t[i].0 == k {
        let i = choose|i: int| 0 <= i < t.len() && #[trigger] t[i].0 == k;
        t.update(i, (k, t[i].1 + 1))
    } else {
        t.push((k, 1))
    }
}

/// Each distinct value of `s` with the number of its occurrences, in the
/// order in which the values first occur.
pub open spec fn tally<K>(s: Seq<K>) -> Seq<(K, nat)>
    decreases s.len(),
{
    if s.len() == 0 {
        seq![]
    } else {
        bump(tally(s.drop_last()), s.last())
    }
}

pub open spec fn keys_distinct<K>(t: Seq<(K, nat)>) -> bool {
    forall|i: int, j: int|
        0 <= i < t.len() && 0 <= j < t.len() && i != j ==> #[trigger] t[i].0 != #[trigger] t[j].0
}

/// The sum of the counts in `t`.
pub open spec fn count_sum<K>(t: Seq<(K, nat)>) -> nat
    decreases t.len(),
{
    if t.len() == 0 {
        0
    } else {
        count_sum(t.drop_last()) + t.last().1
    }
}

/// A count list with its keys seen through their views.
pub open spec fn counts_view<K: View>(v: Seq<(K, usize)>) -> Seq<(K::V, nat)> {
    v.map_values(|p: (K, usize)| (p.0@, p.1 as nat))
}

proof fn lemma_sum_update<K>(t: Seq<(K, nat)>, i: int, e: (K, nat))
    requires
        0 <= i < t.len(),
    ensures
        count_sum(t.update(i, e)) + t[i].1 == count_sum(t) + e.1,
    decreases t.len(),
{
    if i < t.len() - 1 {
        lemma_sum_update(t.drop_last(), i, e);
        assert(t.update(i, e).drop_last() =~= t.drop_last().update(i, e));
    } else {
        assert(t.update(i, e).drop_last() =~= t.drop_last());
    }
}

pub proof fn lemma_entry_within_sum<K>(t: Seq<(K, nat)>, i: int)
    requires
        0 <= i < t.len(),
    ensures
        t[i].1 <= count_sum(t),
    decreases t.len(),
{
    if i < t.len() - 1 {
        lemma_entry_within_sum(t.drop_last(), i);
    }
}

/// Counting keeps the keys distinct and every count at least one, and the
/// counts add up to the number of values counted.
pub proof fn lemma_tally<K>(s: Seq<K>)
    ensures
        keys_distinct(tally(s)),
        count_sum(tally(s)) == s.len(),
        forall|i: int| 0 <= i < tally(s).len() ==> #[trigger] tally(s)[i].1 >= 1,
    decreases s.len(),
{
    if s.len() > 0 {
        let t = tally(s.drop_last());
        let k = s.last();
        lemma_tally(s.drop_last());
        if exists|i: int| 0 <= i < t.len() && #[trigger] t[i].0 == k {
            let i = choose|i: int| 0 <= i < t.len() && #[trigger] t[i].0 == k;
            lemma_sum_update(t, i, (k, t[i].1 + 1));
            let u = t.update(i, (k, t[i].1 + 1));
            assert forall|a: int, b: int|
                0 <= a < u.len() && 0 <= b < u.len() && a != b implies #[trigger] u[a].0
                != #[trigger] u[b].0 by {
                assert(t[a].0 != t[b].0);
            }
        } else {
            assert(t.push((k, 1)).drop_last() =~= t);
        }
    }
}

/// Adds one occurrence of `k` to a count list keyed by text.
pub fn count_text(t: &mut Vec<(String, usize)>, k: &String)
    requires
        keys_distinct(counts_view(old(t)@)),
        count_sum(counts_view(old(t)@)) < usize::MAX,
    ensures
        counts_view(final(t)@) == bump(counts_view(old(t)@), k@),
{
    let ghost tv = counts_view(t@);
    let mut i: usize = 0;
    while i < t.len()
        invariant
            tv == counts_view(t@),
            tv == counts_view(old(t)@),
            keys_distinct(tv),
            count_sum(tv) < usize::MAX,
            i <= t@.len(),
            forall|j: int| 0 <= j < i ==> #[trigger] tv[j].0 != k@,
        decreases t@.len() - i,
    {
        if t[i].0 == *k {
            proof {
                lemma_entry_within_sum(tv, i as int);
                assert(tv[i as int].1 == t@[i as int].1);
                assert(tv[i as int].0 == k@);
                let c = choose|c: int| 0 <= c < tv.len() && #[trigger] tv[c].0 == k@;
                assert(c == i);
                assert(bump(tv, k@) == tv.update(i as int, (k@, tv[i as int].1 + 1)));
            }
            let key = t[i].0.clone();
            let n = t[i].1;
            t.set(i, (key, n + 1));
            assert(counts_view(t@) =~= tv.update(i as int, (k@, tv[i as int].1 + 1)));
            return;
        }
        i = i + 1;
    }
    t.push((k.clone(), 1));
    assert(counts_view(t@) =~= tv.push((k@, 1)));
}

/// Adds one occurrence of `k` to a count list keyed by port.
pub fn count_port(t: &mut Vec<(u16, usize)>, k: u16)
    requires
        keys_distinct(counts_view(old(t)@)),
        count_sum(counts_view(old(t)@)) < usize::MAX,
    ensures
        counts_view(final(t)@) == bump(counts_view(old(t)@), k),
{
    let ghost tv = counts_view(t@);
    let mut i: usize = 0;
    while i < t.len()
        invariant
            tv == counts_view(t@),
            tv == counts_view(old(t)@),
            keys_distinct(tv),
            count_sum(tv) < usize::MAX,
            i <= t@.len(),
            forall|j: int| 0 <= j < i ==> #[trigger] tv[j].0 != k,
        decreases t@.len() - i,
    {
        if t[i].0 == k {
            proof {
                lemma_entry_within_sum(tv, i as int);
                assert(tv[i as int].1 == t@[i as int].1);
                assert(tv[i as int].0 == k);
                let c = choose|c: int| 0 <= c < tv.len() && #[trigger] tv[c].0 == k;
                assert(c == i);
                assert(bump(tv, k) == tv.update(i as int, (k, tv[i as int].1 + 1)));
            }
            let n = t[i].1;
            t.set(i, (k, n + 1));
            assert(counts_view(t@) =~= tv.update(i as int, (k, tv[i as int].1 + 1)));
            return;
        }
        i = i + 1;
    }
    t.push((k, 1));
    assert(counts_view(t@) =~= tv.push((k, 1)));
}

/// Adds one occurrence of `k` to a count list keyed by hour.
pub fn count_hour(t: &mut Vec<(u32, usize)>, k: u32)
    requires
        keys_distinct(counts_view(old(t)@)),
        count_sum(counts_view(old(t)@)) < usize::MAX,
    ensures
        counts_view(final(t)@) == bump(counts_view(old(t)@), k),
{
    let ghost tv = counts_view(t@);
    let mut i: usize = 0;
    while i < t.len()
        invariant
            tv == counts_view(t@),
            tv == counts_view(old(t)@),
            keys_distinct(tv),
            count_sum(tv) < usize::MAX,
            i <= t@.len(),
            forall|j: int| 0 <= j < i ==> #[trigger] tv[j].0 != k,
        decreases t@.len() - i,
    {
        if t[i].0 == k {
            proof {
                lemma_entry_within_sum(tv, i as int);
                assert(tv[i as int].1 == t@[i as int].1);
                assert(tv[i as int].0 == k);
                let c = choose|c: int| 0 <= c < tv.len() && #[trigger] tv[c].0 == k;
                assert(c == i);
                assert(bump(tv, k) == tv.update(i as int, (k, tv[i as int].1 + 1)));
            }
            let n = t[i].1;
            t.set(i, (k, n + 1));
            assert(counts_view(t@) =~= tv.update(i as int, (k, tv[i as int].1 + 1)));
            return;
        }
        i = i + 1;
    }
    t.push((k, 1));
    assert(counts_view(t@) =~= tv.push((k, 1)));
}

/// The first position in `t` whose count is at most `c`, or its length.
pub open spec fn slot<K>(t: Seq<(K, nat)>, c: nat) -> int
    decreases t.len(),
{
    if t.len() == 0 {
        0
    } else if t[0].1 <= c {
        0
    } else {
        1 + slot(t.drop_first(), c)
    }
}

/// `t` ordered by count, highest first; entries with equal counts keep
/// their relative order.
pub open spec fn by_count<K>(t: Seq<(K, nat)>) -> Seq<(K, nat)>
    decreases t.len(),
{
    if t.len() == 0 {
        seq![]
    } else {
        let r = by_count(t.drop_first());
        r.insert(slot(r, t[0].1), t[0])
    }
}

pub open spec fn sorted_by_count<K>(t: Seq<(K, nat)>) -> bool {
    forall|i: int, j: int| 0 <= i < j < t.len() ==> #[trigger] t[i].1 >= #[trigger] t[j].1
}

proof fn lemma_slot<K>(t: Seq<(K, nat)>, c: nat, p: int)
    requires
        0 <= p <= t.len(),
        forall|j: int| 0 <= j < p ==> #[trigger] t[j].1 > c,
        p == t.len() || t[p].1 <= c,
    ensures
        slot(t, c) == p,
    decreases t.len(),
{
    if t.len() > 0 && p > 0 {
        assert forall|j: int| 0 <= j < p - 1 implies #[trigger] t.drop_first()[j].1 > c by {
            assert(t[j + 1].1 > c);
        }
        lemma_slot(t.drop_first(), c, p - 1);
    }
}

proof fn lemma_slot_bounds<K>(t: Seq<(K, nat)>, c: nat)
    ensures
        0 <= slot(t, c) <= t.len(),
        forall|j: int| 0 <= j < slot(t, c) ==> #[trigger] t[j].1 > c,
        slot(t, c) < t.len() ==> t[slot(t, c)].1 <= c,
    decreases t.len(),
{
    if t.len() > 0 && t[0].1 > c {
        lemma_slot_bounds(t.drop_first(), c);
        assert forall|j: int| 0 <= j < slot(t, c) implies #[trigger] t[j].1 > c by {
            if j > 0 {
                assert(t.drop_first()[j - 1].1 > c);
            }
        }
    }
}

/// Ordering by count yields a list sorted by count, highest first.
pub proof fn lemma_by_count_sorted<K>(t: Seq<(K, nat)>)
    ensures
        sorted_by_count(by_count(t)),
        by_count(t).len() == t.len(),
    decreases t.len(),
{
    if t.len() > 0 {
        let r = by_count(t.drop_first());
        let c = t[0].1;
        lemma_by_count_sorted(t.drop_first());
        lemma_slot_bounds(r, c);
        let p = slot(r, c);
        let u = r.insert(p, t[0]);
        assert forall|i: int, j: int| 0 <= i < j < u.len() implies #[trigger] u[i].1
            >= #[trigger] u[j].1 by {
            if j < p {
                assert(r[i].1 >= r[j].1);
            } else if j == p {
                assert(r[i].1 > c);
            } else if i < p {
                assert(r[i].1 >= r[j - 1].1);
            } else if i == p {
                assert(r[p].1 <= c);
                assert(r[p].1 >= r[j - 1].1 || p == j - 1);
            } else {
                assert(r[i - 1].1 >= r[j - 1].1);
            }
        }
    }
}

/// Orders a count list by count, highest first, keeping the relative order
/// of entries with equal counts.
pub fn sort_by_count<K: View>(v: Vec<(K, usize)>) -> (r: Vec<(K, usize)>)
    ensures
        counts_view(r@) == by_count(counts_view(v@)),
{
    let ghost orig = counts_view(v@);
    let mut v = v;
    let mut r: Vec<(K, usize)> = Vec::new();
    assert(orig.skip(orig.len() as int) =~= seq![]);
    assert(orig.take(orig.len() as int) =~= orig);
    while v.len() > 0
        invariant
            v@.len() <= orig.len(),
            counts_view(v@) == orig.take(v@.len() as int),
            counts_view(r@) == by_count(orig.skip(v@.len() as int)),
        decreases v@.len(),
    {
        let ghost n = v@.len() as int;
        let ghost before = v@;
        let x = v.pop().unwrap();
        assert(counts_view(v@) =~= orig.take(n - 1));
        assert(counts_view(before)[n - 1] == orig.take(n)[n - 1]);
        assert(orig[n - 1] == (x.0@, x.1 as nat));
        let ghost rv = counts_view(r@);
        let mut j: usize = 0;
        while j < r.len() && r[j].1 > x.1
            invariant
                j <= r@.len(),
                rv == counts_view(r@),
                forall|m: int| 0 <= m < j ==> #[trigger] rv[m].1 > x.1 as nat,
            decreases r@.len() - j,
        {
            j = j + 1;
        }
        proof {
            lemma_slot(rv, x.1 as nat, j as int);
            assert(orig.skip(n - 1).drop_first() =~= orig.skip(n));
            assert(orig.skip(n - 1)[0] == orig[n - 1]);
        }
        r.insert(j, x);
        assert(counts_view(r@) =~= rv.insert(j as int, (x.0@, x.1 as nat)));
    }
    assert(orig.skip(0) =~= orig);
    r
}

/// The keys of a count list, in order.
pub open spec fn keys_of<K>(t: Seq<(K, nat)>) -> Seq<K> {
    t.map_values(|p: (K, nat)| p.0)
}

/// Counting lists each distinct value once, so there are as many entries as
/// distinct values.
pub proof fn lemma_tally_len<K>(s: Seq<K>)
    ensures
        tally(s).len() == s.to_set().len(),
{
    lemma_tally(s);
    lemma_tally_keys(s);
    let ks = keys_of(tally(s));
    assert forall|i: int, j: int| 0 <= i < ks.len() && 0 <= j < ks.len() && i != j implies ks[i]
        != ks[j] by {
        assert(tally(s)[i].0 != tally(s)[j].0);
    }
    ks.unique_seq_to_set();
}

proof fn lemma_tally_keys<K>(s: Seq<K>)
    ensures
        keys_of(tally(s)).to_set() == s.to_set(),
    decreases s.len(),
{
    if s.len() > 0 {
        let p = s.drop_last();
        let k = s.last();
        let t = tally(p);
        lemma_tally_keys(p);
        assert(s =~= p.push(k));
        if exists|i: int| 0 <= i < t.len() && #[trigger] t[i].0 == k {
            let i = choose|i: int| 0 <= i < t.len() && #[trigger] t[i].0 == k;
            assert(keys_of(tally(s)) =~= keys_of(t));
            assert(keys_of(t)[i] == k);
            assert(p.to_set().contains(k));
            assert forall|x: K| #[trigger] s.to_set().contains(x) == p.to_set().contains(x) by {
                if s.contains(x) {
                    let j = choose|j: int| 0 <= j < s.len() && s[j] == x;
                    if j < p.len() {
                        assert(p[j] == x);
                    }
                }
                if p.contains(x) {
                    let j = choose|j: int| 0 <= j < p.len() && p[j] == x;
                    assert(s[j] == x);
                }
            }
            assert(s.to_set() =~= p.to_set());
        } else {
            assert(keys_of(tally(s)) =~= keys_of(t).push(k));
            assert forall|x: K| #[trigger] s.to_set().contains(x) == (p.to_set().contains(x) || x
                == k) by {
                if s.contains(x) {
                    let j = choose|j: int| 0 <= j < s.len() && s[j] == x;
                    if j < p.len() {
                        assert(p[j] == x);
                    }
                }
                if p.contains(x) {
                    let j = choose|j: int| 0 <= j < p.len() && p[j] == x;
                    assert(s[j] == x);
                }
                if x == k {
                    assert(s[s.len() - 1] == x);
                }
            }
            let kt = keys_of(t);
            assert forall|x: K| #[trigger] kt.push(k).to_set().contains(x) == (kt.to_set().contains(
                x,
            ) || x == k) by {
                if kt.push(k).contains(x) {
                    let j = choose|j: int| 0 <= j < kt.push(k).len() && kt.push(k)[j] == x;
                    if j < kt.len() {
                        assert(kt[j] == x);
                    }
                }
                if kt.contains(x) {
                    let j = choose|j: int| 0 <= j < kt.len() && kt[j] == x;
                    assert(kt.push(k)[j] == x);
                }
                if x == k {
                    assert(kt.push(k)[kt.len() as int] == x);
                }
            }
            assert(keys_of(tally(s)).to_set() =~= s.to_set());
        }
    }
}

} // verus!
