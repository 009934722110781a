//! Lists of version strings: picking the newest patch of a minor, ordering a
//! list newest first (stably) and dropping repeated neighbours.

use vstd::prelude::*;
use crate::text::{views, str_eq};
use crate::version::{version_order, minor_of_spec, minor_of, compare_versions, lemma_version_order_order};

verus! {

/// The newest version of the given "major.minor" in `vs`; among equally new
/// ones the last (as `Iterator::max_by` keeps the last of several maxima).
pub open spec fn latest_of_minor(vs: Seq<Seq<char>>, minor: Seq<char>) -> Option<Seq<char>>
    decreases vs.len(),
{
    if vs.len() == 0 {
        None
    } else {
        let prev = latest_of_minor(vs.drop_last(), minor);
        let v = vs.last();
        if minor_of_spec(v) == minor {
            match prev {
                Some(p) => if version_order(p, v) > 0 { Some(p) } else { Some(v) },
                None => Some(v),
            }
        } else {
            prev
        }
    }
}

/// Highest patch release for a given "major.minor".
pub fn latest_patch(versions: &[String], minor: &str) -> (r: Option<String>)
    ensures
        match r {
            Some(s) => latest_of_minor(views(versions@), minor@) == Some(s@),
            None => latest_of_minor(views(versions@), minor@) is None,
        },
{
    let mut best: Option<usize> = None;
    let mut i: usize = 0;
    while i < versions.len()
        invariant
            i <= versions@.len(),
            match best {
                Some(b) => b < i && latest_of_minor(views(versions@).take(i as int), minor@)
                    == Some(versions@[b as int]@),
                None => latest_of_minor(views(versions@).take(i as int), minor@) is None,
            },
        decreases versions@.len() - i,
    {
        let ghost vs = views(versions@);
        assert(vs.take(i + 1).drop_last() =~= vs.take(i as int));
        assert(vs.take(i + 1).last() == versions@[i as int]@);
        let m = minor_of(versions[i].as_str());
        if str_eq(m.as_str(), minor) {
            match best {
                Some(b) => {
                    if compare_versions(versions[b].as_str(), versions[i].as_str()) <= 0 {
                        best = Some(i);
                    }
                },
                None => {
                    best = Some(i);
                },
            }
        }
        i += 1;
    }
    assert(views(versions@).take(versions@.len() as int) =~= views(versions@));
    match best {
        Some(b) => Some(versions[b].clone()),
        None => None,
    }
}

/// A version whose "major.minor" is `minor` and that no other such version in
/// `vs` is newer than: what `latest_of_minor` picks, when there is one.
pub proof fn lemma_latest_of_minor_is_newest(vs: Seq<Seq<char>>, minor: Seq<char>)
    ensures
        latest_of_minor(vs, minor) is Some <==> exists|i: int|
            0 <= i < vs.len() && minor_of_spec(#[trigger] vs[i]) == minor,
        latest_of_minor(vs, minor) matches Some(r) ==> {
            &&& vs.contains(r)
            &&& minor_of_spec(r) == minor
            &&& forall|i: int| 0 <= i < vs.len() && minor_of_spec(#[trigger] vs[i]) == minor
                ==> version_order(vs[i], r) <= 0
        },
    decreases vs.len(),
{
    if vs.len() > 0 {
        let pre = vs.drop_last();
        lemma_latest_of_minor_is_newest(pre, minor);
        let v = vs.last();
        assert forall|i: int| 0 <= i < pre.len() implies pre[i] == vs[i] by {}
        if let Some(p) = latest_of_minor(pre, minor) {
            lemma_version_order_order(p, v, p);
            let j = choose|j: int| 0 <= j < pre.len() && pre[j] == p;
            assert(vs[j] == p);
            assert forall|i: int| 0 <= i < vs.len() && minor_of_spec(#[trigger] vs[i]) == minor
                implies version_order(vs[i], latest_of_minor(vs, minor)->0) <= 0 by {
                lemma_version_order_order(vs[i], p, v);
                lemma_version_order_order(vs[i], v, v);
                if i < pre.len() {
                    assert(pre[i] == vs[i]);
                }
            }
        } else {
            if minor_of_spec(v) == minor {
                assert(vs[vs.len() - 1] == v);
                lemma_version_order_order(v, v, v);
            }
            assert forall|i: int| 0 <= i < vs.len() && minor_of_spec(#[trigger] vs[i]) == minor
                implies i == vs.len() - 1 by {
                if i < pre.len() {
                    assert(pre[i] == vs[i]);
                }
            }
        }
        if minor_of_spec(v) == minor {
            assert(vs[vs.len() - 1] == v);
        }
        if exists|i: int| 0 <= i < vs.len() && minor_of_spec(#[trigger] vs[i]) == minor {
            let i = choose|i: int| 0 <= i < vs.len() && minor_of_spec(#[trigger] vs[i]) == minor;
            if i < pre.len() {
                assert(pre[i] == vs[i]);
            }
        }
    }
}

} // verus!
verus! {

/// `x` placed into the newest-first list `l` after every entry that is at
/// least as new as it (so equally new entries keep their order).
pub open spec fn insert_newest_first(l: Seq<Seq<char>>, x: Seq<char>) -> Seq<Seq<char>>
    decreases l.len(),
{
    if l.len() == 0 {
        seq![x]
    } else if version_order(l[0], x) >= 0 {
        seq![l[0]] + insert_newest_first(l.drop_first(), x)
    } else {
        seq![x] + l
    }
}

/// `s` ordered newest first by a stable sort (as `sort_by` with the reversed
/// version order leaves it).
pub open spec fn sort_newest_first(s: Seq<Seq<char>>) -> Seq<Seq<char>>
    decreases s.len(),
{
    if s.len() == 0 {
        s
    } else {
        insert_newest_first(sort_newest_first(s.drop_last()), s.last())
    }
}

/// `s` with each run of equal neighbours kept once (`Vec::dedup`).
pub open spec fn dedup(s: Seq<Seq<char>>) -> Seq<Seq<char>>
    decreases s.len(),
{
    if s.len() == 0 {
        s
    } else {
        let p = dedup(s.drop_last());
        if p.len() > 0 && p.last() == s.last() {
            p
        } else {
            p.push(s.last())
        }
    }
}

/// Every entry is at least as new as every later one.
pub open spec fn newest_first(s: Seq<Seq<char>>) -> bool {
    forall|i: int, j: int| 0 <= i < j < s.len() ==> version_order(s[i], s[j]) >= 0
}

proof fn lemma_insert_at(l: Seq<Seq<char>>, x: Seq<char>, k: int)
    requires
        0 <= k <= l.len(),
        forall|j: int| 0 <= j < k ==> version_order(#[trigger] l[j], x) >= 0,
        k < l.len() ==> version_order(l[k], x) < 0,
    ensures
        insert_newest_first(l, x) == l.take(k) + seq![x] + l.skip(k),
    decreases k,
{
    if k == 0 {
        if l.len() > 0 {
            assert(l.skip(0) =~= l);
        }
        assert(l.take(0) + seq![x] + l.skip(0) =~= seq![x] + l);
    } else {
        let t = l.drop_first();
        assert forall|j: int| 0 <= j < k - 1 implies version_order(#[trigger] t[j], x) >= 0 by {
            assert(t[j] == l[j + 1]);
        }
        if k < l.len() {
            assert(t[k - 1] == l[k]);
        }
        lemma_insert_at(t, x, k - 1);
        assert(l.take(k) + seq![x] + l.skip(k) =~= seq![l[0]] + (t.take(k - 1) + seq![x] + t.skip(k - 1)));
    }
}

/// `versions` ordered newest first; equally new versions keep their order.
pub fn sort_newest_first_vec(versions: Vec<String>) -> (r: Vec<String>)
    ensures
        views(r@) == sort_newest_first(views(versions@)),
{
    let mut out: Vec<String> = Vec::new();
    let mut i: usize = 0;
    while i < versions.len()
        invariant
            i <= versions@.len(),
            views(out@) == sort_newest_first(views(versions@).take(i as int)),
        decreases versions@.len() - i,
    {
        let x = versions[i].clone();
        let mut k: usize = 0;
        while k < out.len() && compare_versions(out[k].as_str(), x.as_str()) >= 0
            invariant
                k <= out@.len(),
                forall|j: int| 0 <= j < k ==> version_order(#[trigger] out@[j]@, x@) >= 0,
            decreases out@.len() - k,
        {
            k += 1;
        }
        proof {
            let l = views(out@);
            assert forall|j: int| 0 <= j < k implies version_order(#[trigger] l[j], x@) >= 0 by {
                assert(l[j] == out@[j]@);
            }
            lemma_insert_at(l, x@, k as int);
            let vs = views(versions@);
            assert(vs.take(i + 1).drop_last() =~= vs.take(i as int));
            assert(vs.take(i + 1).last() == x@);
        }
        let ghost before = out@;
        out.insert(k, x);
        proof {
            assert(views(out@) =~= views(before).take(k as int) + seq![x@] + views(before).skip(k as int));
        }
        i += 1;
    }
    assert(views(versions@).take(versions@.len() as int) =~= views(versions@));
    out
}

/// `versions` with repeated neighbours dropped (`Vec::dedup`).
pub fn dedup_vec(versions: Vec<String>) -> (r: Vec<String>)
    ensures
        views(r@) == dedup(views(versions@)),
{
    let mut out: Vec<String> = Vec::new();
    let mut i: usize = 0;
    while i < versions.len()
        invariant
            i <= versions@.len(),
            views(out@) == dedup(views(versions@).take(i as int)),
        decreases versions@.len() - i,
    {
        let ghost vs = views(versions@);
        assert(vs.take(i + 1).drop_last() =~= vs.take(i as int));
        assert(vs.take(i + 1).last() == versions@[i as int]@);
        let n = out.len();
        let repeat = n > 0 && str_eq(out[n - 1].as_str(), versions[i].as_str());
        if !repeat {
            let ghost before = out@;
            out.push(versions[i].clone());
            assert(views(out@) =~= views(before).push(versions@[i as int]@));
        }
        i += 1;
    }
    assert(views(versions@).take(versions@.len() as int) =~= views(versions@));
    out
}

} // verus!
verus! {

/// Index of the first entry of `l` that is older than `x` (`l.len()` if none).
pub open spec fn first_older(l: Seq<Seq<char>>, x: Seq<char>) -> int
    decreases l.len(),
{
    if l.len() == 0 {
        0
    } else if version_order(l[0], x) < 0 {
        0
    } else {
        1 + first_older(l.drop_first(), x)
    }
}

proof fn lemma_first_older(l: Seq<Seq<char>>, x: Seq<char>)
    ensures
        0 <= first_older(l, x) <= l.len(),
        forall|j: int| 0 <= j < first_older(l, x) ==> version_order(#[trigger] l[j], x) >= 0,
        first_older(l, x) < l.len() ==> version_order(l[first_older(l, x)], x) < 0,
    decreases l.len(),
{
    if l.len() > 0 && version_order(l[0], x) >= 0 {
        let t = l.drop_first();
        lemma_first_older(t, x);
        assert forall|j: int| 0 <= j < first_older(l, x) implies version_order(#[trigger] l[j], x) >= 0 by {
            if j > 0 {
                assert(l[j] == t[j - 1]);
            }
        }
        if first_older(l, x) < l.len() {
            assert(l[first_older(l, x)] == t[first_older(t, x)]);
        }
    }
}

proof fn lemma_insert_laws(l: Seq<Seq<char>>, x: Seq<char>)
    requires
        newest_first(l),
    ensures
        newest_first(insert_newest_first(l, x)),
        insert_newest_first(l, x).to_multiset() == l.to_multiset().insert(x),
{
    broadcast use vstd::seq_lib::group_to_multiset_ensures;

    lemma_first_older(l, x);
    let k = first_older(l, x);
    lemma_insert_at(l, x, k);
    let r = insert_newest_first(l, x);
    assert(r =~= l.insert(k, x));
    assert forall|i: int, j: int| 0 <= i < j < r.len() implies version_order(r[i], r[j]) >= 0 by {
        if j < k {
            assert(r[i] == l[i] && r[j] == l[j]);
        } else if j == k {
            assert(r[i] == l[i] && r[j] == x);
        } else if i < k {
            assert(r[i] == l[i] && r[j] == l[j - 1]);
        } else if i == k {
            assert(r[i] == x && r[j] == l[j - 1]);
            if j - 1 > k {
                lemma_version_order_order(l[j - 1], l[k], x);
                lemma_version_order_order(l[k], l[j - 1], x);
            }
            lemma_version_order_order(l[j - 1], x, x);
        } else {
            assert(r[i] == l[i - 1] && r[j] == l[j - 1]);
        }
    }
}

/// Sorting newest first yields a newest-first list holding exactly the
/// same entries, each as many times.
pub proof fn lemma_sort_newest_first_laws(s: Seq<Seq<char>>)
    ensures
        newest_first(sort_newest_first(s)),
        sort_newest_first(s).to_multiset() == s.to_multiset(),
    decreases s.len(),
{
    broadcast use vstd::seq_lib::group_to_multiset_ensures;

    if s.len() > 0 {
        lemma_sort_newest_first_laws(s.drop_last());
        lemma_insert_laws(sort_newest_first(s.drop_last()), s.last());
        assert(s =~= s.drop_last().push(s.last()));
    }
}

/// Dropping repeated neighbours keeps every distinct entry, leaves no two
/// equal neighbours, and keeps a newest-first list newest first.
pub proof fn lemma_dedup_laws(s: Seq<Seq<char>>)
    ensures
        forall|y: Seq<char>| dedup(s).contains(y) <==> s.contains(y),
        forall|i: int| 0 <= i < dedup(s).len() - 1 ==> #[trigger] dedup(s)[i] != dedup(s)[i + 1],
        newest_first(s) ==> newest_first(dedup(s)),
        dedup(s).len() > 0 ==> dedup(s).last() == s.last(),
    decreases s.len(),
{
    if s.len() > 0 {
        let pre = s.drop_last();
        lemma_dedup_laws(pre);
        let p = dedup(pre);
        let d = dedup(s);
        assert forall|y: Seq<char>| d.contains(y) <==> s.contains(y) by {
            if s.contains(y) {
                let i = choose|i: int| 0 <= i < s.len() && s[i] == y;
                if i < pre.len() {
                    assert(pre[i] == y);
                    assert(pre.contains(y));
                    assert(p.contains(y));
                    let m = choose|m: int| 0 <= m < p.len() && p[m] == y;
                    assert(d[m] == y);
                } else {
                    if p.len() > 0 && p.last() == s.last() {
                        assert(d[p.len() - 1] == y);
                    } else {
                        assert(d[d.len() - 1] == y);
                    }
                }
            }
            if d.contains(y) {
                let m = choose|m: int| 0 <= m < d.len() && d[m] == y;
                if m < p.len() {
                    assert(p[m] == y);
                    assert(p.contains(y));
                    assert(pre.contains(y));
                    let i = choose|i: int| 0 <= i < pre.len() && pre[i] == y;
                    assert(s[i] == y);
                } else {
                    assert(s[s.len() - 1] == y);
                }
            }
        }
        assert forall|i: int| 0 <= i < d.len() - 1 implies #[trigger] d[i] != d[i + 1] by {
            if i + 1 < p.len() {
                assert(d[i] == p[i] && d[i + 1] == p[i + 1]);
            } else {
                assert(d[i] == p.last());
            }
        }
        if newest_first(s) {
            assert(newest_first(pre)) by {
                assert forall|i: int, j: int| 0 <= i < j < pre.len() implies version_order(pre[i], pre[j]) >= 0 by {
                    assert(pre[i] == s[i] && pre[j] == s[j]);
                }
            }
            assert forall|i: int, j: int| 0 <= i < j < d.len() implies version_order(d[i], d[j]) >= 0 by {
                if j < p.len() {
                    assert(d[i] == p[i] && d[j] == p[j]);
                } else {
                    assert(d[i] == p[i]);
                    assert(p.contains(p[i]));
                    assert(pre.contains(p[i]));
                    let k = choose|k: int| 0 <= k < pre.len() && pre[k] == p[i];
                    assert(s[k] == p[i]);
                    assert(d[j] == s[s.len() - 1]);
                }
            }
        }
    }
}

} // verus!
