//! Generic sort-and-dedup over keyed records: the result is strictly sorted
//! by the composite key, holds exactly the keys of the input, and represents
//! each key by the record that occurs first in the input with that key.

use crate::order::{
    key_lt, lemma_key_lt_asym, lemma_key_lt_irrefl, lemma_key_lt_trans, lemma_key_lt_trichotomy,
    Chapter,
};
use crate::records::{Keyed, YomikaeInfo};
use vstd::prelude::*;
use vstd::seq_lib::*;

verus! {

/// The keys of a record sequence, in order.
pub open spec fn key_seq<T: Keyed>(s: Seq<T>) -> Seq<(Seq<char>, Chapter)> {
    s.map_values(|x: T| x.key())
}

/// Strictly increasing by key: sorted, with all keys distinct.
pub open spec fn sorted_strictly_by_key<T: Keyed>(s: Seq<T>) -> bool {
    forall|p: int, q: int|
        0 <= p < q < s.len() ==> key_lt(#[trigger] s[p].key(), #[trigger] s[q].key())
}

/// No earlier record of `s` shares the key of `s[j]`.
pub open spec fn is_first_occurrence<T: Keyed>(s: Seq<T>, j: int) -> bool {
    &&& 0 <= j < s.len()
    &&& forall|j2: int| 0 <= j2 < j ==> (#[trigger] s[j2].key()) != s[j].key()
}

/// Some record of `s` has key `k`.
pub open spec fn has_key<T: Keyed>(s: Seq<T>, k: (Seq<char>, Chapter)) -> bool {
    exists|i: int| 0 <= i < s.len() && (#[trigger] s[i].key()) == k
}

/// `ds[p]` equals the record that occurs first in `s` with its key.
pub open spec fn rep_from_first_occurrence<T: Keyed>(ds: Seq<T>, s: Seq<T>, p: int) -> bool {
    exists|j: int| #[trigger] is_first_occurrence(s, j) && ds[p] == s[j]
}

/// `ds` is the sorted deduplication of `s`: strictly sorted by key, holding
/// exactly the keys of `s`, each key represented by the first record of `s`
/// that carries it.
pub open spec fn is_sorted_dedup_of<T: Keyed>(ds: Seq<T>, s: Seq<T>) -> bool {
    &&& sorted_strictly_by_key(ds)
    &&& forall|p: int| 0 <= p < ds.len() ==> #[trigger] rep_from_first_occurrence(ds, s, p)
    &&& forall|j: int| 0 <= j < s.len() ==> has_key(ds, (#[trigger] s[j]).key())
}

/// Appending a record whose key is already represented leaves a sorted
/// deduplication intact.
proof fn lemma_sorted_dedup_push_dup<T: Keyed>(ds: Seq<T>, s: Seq<T>, x: T)
    requires
        is_sorted_dedup_of(ds, s),
        has_key(ds, x.key()),
    ensures
        is_sorted_dedup_of(ds, s.push(x)),
{
    let s1 = s.push(x);
    assert forall|p: int| 0 <= p < ds.len() implies #[trigger] rep_from_first_occurrence(
        ds,
        s1,
        p,
    ) by {
        assert(rep_from_first_occurrence(ds, s, p));
        let j = choose|j: int| #[trigger] is_first_occurrence(s, j) && ds[p] == s[j];
        assert(s1[j] == s[j]);
        assert forall|j2: int| 0 <= j2 < j implies (#[trigger] s1[j2].key()) != s1[j].key() by {
            assert(s1[j2] == s[j2]);
        }
        assert(is_first_occurrence(s1, j));
    }
    assert forall|j: int| 0 <= j < s1.len() implies has_key(ds, (#[trigger] s1[j]).key()) by {
        if j < s.len() {
            assert(s1[j] == s[j]);
        } else {
            assert(s1[j] == x);
        }
    }
}

/// Inserting a record with a fresh key at its sorted position extends a
/// sorted deduplication.
proof fn lemma_sorted_dedup_insert_new<T: Keyed>(ds: Seq<T>, s: Seq<T>, x: T, p: int)
    requires
        is_sorted_dedup_of(ds, s),
        0 <= p <= ds.len(),
        forall|q: int| 0 <= q < p ==> key_lt((#[trigger] ds[q]).key(), x.key()),
        p < ds.len() ==> key_lt(x.key(), ds[p].key()),
    ensures
        is_sorted_dedup_of(ds.insert(p, x), s.push(x)),
        ds.insert(p, x).len() == ds.len() + 1,
{
    let ds1 = ds.insert(p, x);
    let s1 = s.push(x);
    ds.insert_ensures(p, x);
    // x's key is not among the keys of ds, hence not among those of s.
    assert forall|q: int| 0 <= q < ds.len() implies (#[trigger] ds[q].key()) != x.key() by {
        if q < p {
            lemma_key_lt_asym(ds[q].key(), x.key());
        } else {
            if q > p {
                lemma_key_lt_trans(x.key(), ds[p].key(), ds[q].key());
            }
            lemma_key_lt_asym(x.key(), ds[q].key());
        }
    }
    assert forall|j: int| 0 <= j < s.len() implies (#[trigger] s[j].key()) != x.key() by {
        assert(has_key(ds, s[j].key()));
        let w = choose|w: int| 0 <= w < ds.len() && (#[trigger] ds[w].key()) == s[j].key();
        assert(ds[w].key() != x.key());
    }
    // Strict sortedness of the inserted sequence.
    assert forall|a: int, b: int| 0 <= a < b < ds1.len() implies key_lt(
        #[trigger] ds1[a].key(),
        #[trigger] ds1[b].key(),
    ) by {
        if a < p && b < p {
            assert(ds1[a] == ds[a] && ds1[b] == ds[b]);
        } else if a < p && b == p {
            assert(ds1[a] == ds[a] && ds1[b] == x);
        } else if a < p && b > p {
            assert(ds1[a] == ds[a] && ds1[b] == ds[b - 1]);
        } else if a == p && b > p {
            assert(ds1[a] == x && ds1[b] == ds[b - 1]);
            if b - 1 > p {
                lemma_key_lt_trans(x.key(), ds[p].key(), ds[b - 1].key());
            }
        } else {
            assert(ds1[a] == ds[a - 1] && ds1[b] == ds[b - 1]);
        }
    }
    // Every entry of the result is a first occurrence of its key in s1.
    assert forall|q: int| 0 <= q < ds1.len() implies #[trigger] rep_from_first_occurrence(
        ds1,
        s1,
        q,
    ) by {
        if q == p {
            assert(ds1[q] == x);
            assert(s1[s.len() as int] == x);
            assert forall|j2: int| 0 <= j2 < s.len() implies (#[trigger] s1[j2].key())
                != s1[s.len() as int].key() by {
                assert(s1[j2] == s[j2]);
            }
            assert(is_first_occurrence(s1, s.len() as int));
        } else {
            let q0 = if q < p {
                q
            } else {
                q - 1
            };
            assert(ds1[q] == ds[q0]);
            assert(rep_from_first_occurrence(ds, s, q0));
            let j = choose|j: int| #[trigger] is_first_occurrence(s, j) && ds[q0] == s[j];
            assert(s1[j] == s[j]);
            assert forall|j2: int| 0 <= j2 < j implies (#[trigger] s1[j2].key())
                != s1[j].key() by {
                assert(s1[j2] == s[j2]);
            }
            assert(is_first_occurrence(s1, j));
        }
    }
    // Key coverage.
    assert forall|j: int| 0 <= j < s1.len() implies has_key(ds1, (#[trigger] s1[j]).key()) by {
        if j < s.len() {
            assert(s1[j] == s[j]);
            assert(has_key(ds, s[j].key()));
            let w = choose|w: int| 0 <= w < ds.len() && (#[trigger] ds[w].key()) == s[j].key();
            let w1 = if w < p {
                w
            } else {
                w + 1
            };
            assert(ds1[w1] == ds[w]);
            assert(0 <= w1 < ds1.len() && ds1[w1].key() == s1[j].key());
        } else {
            assert(s1[j] == x);
            assert(ds1[p] == x);
        }
    }
}

/// Sort the records by their composite key and drop every record whose key
/// was already seen; the first record of the input with each key survives.
pub fn sort_dedup<T: Keyed>(v: Vec<T>) -> (r: Vec<T>)
    ensures
        is_sorted_dedup_of(r@, v@),
        r@.len() <= v@.len(),
{
    let ghost orig = v@;
    let mut rest = v;
    let total = rest.len();
    let mut out: Vec<T> = Vec::new();
    let mut i: usize = 0;
    proof {
        assert(rest@ =~= orig.skip(0));
        assert(orig.take(0) =~= Seq::<T>::empty());
    }
    while rest.len() > 0
        invariant
            orig.len() == total,
            i + rest@.len() == orig.len(),
            rest@ == orig.skip(i as int),
            is_sorted_dedup_of(out@, orig.take(i as int)),
            out@.len() <= i,
        decreases rest@.len(),
    {
        let ghost prefix = orig.take(i as int);
        let x = rest.remove(0);
        proof {
            assert(orig.skip(i as int)[0] == orig[i as int]);
            assert(x == orig[i as int]);
            assert(rest@ =~= orig.skip(i as int + 1));
            assert(orig.take(i as int + 1) =~= prefix.push(x));
        }
        let mut p: usize = 0;
        loop
            invariant
                p <= out.len(),
                forall|q: int| 0 <= q < p ==> key_lt((#[trigger] out@[q]).key(), x.key()),
            ensures
                p <= out.len(),
                forall|q: int| 0 <= q < p ==> key_lt((#[trigger] out@[q]).key(), x.key()),
                p < out.len() ==> !key_lt(out@[p as int].key(), x.key()),
            decreases out.len() - p,
        {
            if p == out.len() {
                break ;
            }
            if !out[p].key_lt_exec(&x) {
                break ;
            }
            p += 1;
        }
        let dup = if p < out.len() {
            !x.key_lt_exec(&out[p])
        } else {
            false
        };
        if dup {
            proof {
                lemma_key_lt_trichotomy(x.key(), out@[p as int].key());
                assert(out@[p as int].key() == x.key());
                assert(has_key(out@, x.key()));
                lemma_sorted_dedup_push_dup(out@, prefix, x);
            }
        } else {
            proof {
                if p < out.len() {
                    lemma_key_lt_trichotomy(x.key(), out@[p as int].key());
                    lemma_key_lt_irrefl(x.key());
                    assert(key_lt(x.key(), out@[p as int].key()));
                }
                lemma_sorted_dedup_insert_new(out@, prefix, x, p as int);
            }
            out.insert(p, x);
        }
        i += 1;
    }
    proof {
        assert(orig.take(i as int) =~= orig);
    }
    out
}

/// Two strictly sorted sequences that carry the same keys, with any two
/// same-keyed entries equal, are the same sequence.
proof fn lemma_sorted_same_keys_equal<T: Keyed>(r1: Seq<T>, r2: Seq<T>)
    requires
        sorted_strictly_by_key(r1),
        sorted_strictly_by_key(r2),
        forall|p: int| 0 <= p < r1.len() ==> has_key(r2, (#[trigger] r1[p]).key()),
        forall|q: int| 0 <= q < r2.len() ==> has_key(r1, (#[trigger] r2[q]).key()),
        forall|p: int, q: int|
            0 <= p < r1.len() && 0 <= q < r2.len() && (#[trigger] r1[p]).key() == (
            #[trigger] r2[q]).key() ==> r1[p] == r2[q],
    ensures
        r1 == r2,
    decreases r1.len(),
{
    if r1.len() == 0 {
        if r2.len() > 0 {
            assert(has_key(r1, r2[0].key()));
        }
        assert(r1 =~= r2);
    } else {
        assert(has_key(r2, r1[0].key()));
        assert(has_key(r1, r2[0].key()));
        let q0 = choose|q: int| 0 <= q < r2.len() && (#[trigger] r2[q].key()) == r1[0].key();
        let p0 = choose|p: int| 0 <= p < r1.len() && (#[trigger] r1[p].key()) == r2[0].key();
        // The heads carry equal keys: each head's key bounds the other from below.
        if q0 > 0 {
            assert(key_lt(r2[0].key(), r2[q0].key()));
        }
        if p0 > 0 {
            assert(key_lt(r1[0].key(), r1[p0].key()));
        }
        lemma_key_lt_trichotomy(r1[0].key(), r2[0].key());
        if key_lt(r1[0].key(), r2[0].key()) {
            // r1's head key occurs in r2 at q0, yet lies below r2's head key.
            if q0 > 0 {
                lemma_key_lt_trans(r1[0].key(), r2[0].key(), r2[q0].key());
            }
            lemma_key_lt_irrefl(r1[0].key());
            assert(false);
        }
        if key_lt(r2[0].key(), r1[0].key()) {
            if p0 > 0 {
                lemma_key_lt_trans(r2[0].key(), r1[0].key(), r1[p0].key());
            }
            lemma_key_lt_irrefl(r2[0].key());
            assert(false);
        }
        assert(r1[0].key() == r2[0].key());
        assert(r1[0] == r2[0]);
        let t1 = r1.skip(1);
        let t2 = r2.skip(1);
        assert forall|p: int, q: int| 0 <= p < t1.len() && 0 <= q < t1.len() && p < q implies
            key_lt((#[trigger] t1[p]).key(), (#[trigger] t1[q]).key()) by {
            assert(t1[p] == r1[p + 1] && t1[q] == r1[q + 1]);
        }
        assert forall|p: int, q: int| 0 <= p < t2.len() && 0 <= q < t2.len() && p < q implies
            key_lt((#[trigger] t2[p]).key(), (#[trigger] t2[q]).key()) by {
            assert(t2[p] == r2[p + 1] && t2[q] == r2[q + 1]);
        }
        assert forall|p: int| 0 <= p < t1.len() implies has_key(t2, (#[trigger] t1[p]).key()) by {
            assert(t1[p] == r1[p + 1]);
            assert(has_key(r2, r1[p + 1].key()));
            let w = choose|w: int|
                0 <= w < r2.len() && (#[trigger] r2[w].key()) == r1[p + 1].key();
            if w == 0 {
                // r2[0].key() == r1[0].key() < r1[p+1].key(): impossible.
                assert(key_lt(r1[0].key(), r1[p + 1].key()));
                lemma_key_lt_irrefl(r1[p + 1].key());
                assert(false);
            }
            assert(t2[w - 1] == r2[w]);
            assert(0 <= w - 1 < t2.len() && t2[w - 1].key() == t1[p].key());
        }
        assert forall|q: int| 0 <= q < t2.len() implies has_key(t1, (#[trigger] t2[q]).key()) by {
            assert(t2[q] == r2[q + 1]);
            assert(has_key(r1, r2[q + 1].key()));
            let w = choose|w: int|
                0 <= w < r1.len() && (#[trigger] r1[w].key()) == r2[q + 1].key();
            if w == 0 {
                assert(key_lt(r2[0].key(), r2[q + 1].key()));
                lemma_key_lt_irrefl(r2[q + 1].key());
                assert(false);
            }
            assert(t1[w - 1] == r1[w]);
            assert(0 <= w - 1 < t1.len() && t1[w - 1].key() == t2[q].key());
        }
        assert forall|p: int, q: int|
            0 <= p < t1.len() && 0 <= q < t2.len() && (#[trigger] t1[p]).key() == (
            #[trigger] t2[q]).key() implies t1[p] == t2[q] by {
            assert(t1[p] == r1[p + 1] && t2[q] == r2[q + 1]);
        }
        lemma_sorted_same_keys_equal(t1, t2);
        assert forall|k: int| 0 <= k < r1.len() implies r1[k] == r2[k] by {
            if k > 0 {
                assert(r1[k] == t1[k - 1] && r2[k] == t2[k - 1]);
            }
        }
        assert(r1 =~= r2);
    }
}

/// The sorted deduplication of a sequence is unique.
pub proof fn lemma_sorted_dedup_unique<T: Keyed>(s: Seq<T>, r1: Seq<T>, r2: Seq<T>)
    requires
        is_sorted_dedup_of(r1, s),
        is_sorted_dedup_of(r2, s),
    ensures
        r1 == r2,
{
    assert forall|p: int| 0 <= p < r1.len() implies has_key(r2, (#[trigger] r1[p]).key()) by {
        assert(rep_from_first_occurrence(r1, s, p));
        let j = choose|j: int| #[trigger] is_first_occurrence(s, j) && r1[p] == s[j];
        assert(has_key(r2, s[j].key()));
    }
    assert forall|q: int| 0 <= q < r2.len() implies has_key(r1, (#[trigger] r2[q]).key()) by {
        assert(rep_from_first_occurrence(r2, s, q));
        let j = choose|j: int| #[trigger] is_first_occurrence(s, j) && r2[q] == s[j];
        assert(has_key(r1, s[j].key()));
    }
    assert forall|p: int, q: int|
        0 <= p < r1.len() && 0 <= q < r2.len() && (#[trigger] r1[p]).key() == (
        #[trigger] r2[q]).key() implies r1[p] == r2[q] by {
        assert(rep_from_first_occurrence(r1, s, p));
        assert(rep_from_first_occurrence(r2, s, q));
        let j1 = choose|j: int| #[trigger] is_first_occurrence(s, j) && r1[p] == s[j];
        let j2 = choose|j: int| #[trigger] is_first_occurrence(s, j) && r2[q] == s[j];
        assert(s[j1].key() == s[j2].key());
        if j1 < j2 {
            assert(s[j1].key() != s[j2].key());
        }
        if j2 < j1 {
            assert(s[j2].key() != s[j1].key());
        }
        assert(j1 == j2);
    }
    lemma_sorted_same_keys_equal(r1, r2);
}

/// Dedup idempotence: a second pass over the output of sort-and-dedup gives
/// that output back unchanged.
pub proof fn lemma_sort_dedup_idempotent<T: Keyed>(v: Seq<T>, r1: Seq<T>, r2: Seq<T>)
    requires
        is_sorted_dedup_of(r1, v),
        is_sorted_dedup_of(r2, r1),
    ensures
        r2 == r1,
{
    assert forall|p: int| 0 <= p < r1.len() implies #[trigger] rep_from_first_occurrence(
        r1,
        r1,
        p,
    ) by {
        assert forall|j2: int| 0 <= j2 < p implies (#[trigger] r1[j2].key()) != r1[p].key() by {
            assert(key_lt(r1[j2].key(), r1[p].key()));
            lemma_key_lt_asym(r1[j2].key(), r1[p].key());
        }
        assert(is_first_occurrence(r1, p) && r1[p] == r1[p]);
    }
    assert forall|j: int| 0 <= j < r1.len() implies has_key(r1, (#[trigger] r1[j]).key()) by {
        assert(0 <= j < r1.len() && r1[j].key() == r1[j].key());
    }
    assert(is_sorted_dedup_of(r1, r1));
    lemma_sorted_dedup_unique(r1, r2, r1);
}

/// Key-only dedup correctness: when two records of the input share a key,
/// exactly one record with that key survives, and it is the record that
/// appears first in the input among them.
pub proof fn lemma_key_only_dedup<T: Keyed>(v: Seq<T>, ds: Seq<T>, i: int, j: int)
    requires
        is_sorted_dedup_of(ds, v),
        0 <= i < j < v.len(),
        v[i].key() == v[j].key(),
    ensures
        exists|p: int| 0 <= p < ds.len() && (#[trigger] ds[p].key()) == v[i].key(),
        forall|p: int, q: int|
            0 <= p < ds.len() && 0 <= q < ds.len() && (#[trigger] ds[p].key()) == v[i].key() && (
            #[trigger] ds[q].key()) == v[i].key() ==> p == q,
        forall|p: int|
            0 <= p < ds.len() && (#[trigger] ds[p].key()) == v[i].key() ==> exists|j0: int|
                0 <= j0 <= i && #[trigger] is_first_occurrence(v, j0) && ds[p] == v[j0],
{
    assert(has_key(ds, v[i].key()));
    assert forall|p: int, q: int|
        0 <= p < ds.len() && 0 <= q < ds.len() && (#[trigger] ds[p].key()) == v[i].key() && (
        #[trigger] ds[q].key()) == v[i].key() implies p == q by {
        if p < q {
            assert(key_lt(ds[p].key(), ds[q].key()));
            lemma_key_lt_irrefl(ds[p].key());
        }
        if q < p {
            assert(key_lt(ds[q].key(), ds[p].key()));
            lemma_key_lt_irrefl(ds[p].key());
        }
    }
    assert forall|p: int| 0 <= p < ds.len() && (#[trigger] ds[p].key()) == v[i].key() implies
        exists|j0: int| 0 <= j0 <= i && #[trigger] is_first_occurrence(v, j0) && ds[p]
        == v[j0] by {
        assert(rep_from_first_occurrence(ds, v, p));
        let j0 = choose|j0: int| #[trigger] is_first_occurrence(v, j0) && ds[p] == v[j0];
        assert(v[j0].key() == v[i].key());
        if j0 > i {
            assert(v[i].key() != v[j0].key());
        }
        assert(0 <= j0 <= i && is_first_occurrence(v, j0) && ds[p] == v[j0]);
    }
}

/// The number of distinct `(num, chapter)` keys among the analyzed records.
pub fn count_distinct_keys(v: Vec<YomikaeInfo>) -> (n: usize)
    ensures
        n == key_seq(v@).to_set().len(),
        n <= v@.len(),
{
    let ghost vs = v@;
    let ds = sort_dedup(v);
    proof {
        lemma_sorted_dedup_key_count(ds@, vs);
    }
    ds.len()
}

/// A sorted deduplication has as many records as its source has distinct
/// keys.
pub proof fn lemma_sorted_dedup_key_count<T: Keyed>(ds: Seq<T>, s: Seq<T>)
    requires
        is_sorted_dedup_of(ds, s),
    ensures
        ds.len() == key_seq(s).to_set().len(),
{
    let kd = key_seq(ds);
    let ks = key_seq(s);
    assert forall|p: int, q: int| 0 <= p < kd.len() && 0 <= q < kd.len() && p != q implies kd[p]
        != kd[q] by {
        if p < q {
            assert(key_lt(ds[p].key(), ds[q].key()));
            lemma_key_lt_asym(ds[p].key(), ds[q].key());
        } else {
            assert(key_lt(ds[q].key(), ds[p].key()));
            lemma_key_lt_asym(ds[q].key(), ds[p].key());
        }
    }
    assert(kd.no_duplicates());
    kd.unique_seq_to_set();
    assert(kd.to_set().len() == kd.len());
    assert forall|k: (Seq<char>, Chapter)| kd.to_set().contains(k) implies ks.to_set().contains(
        k,
    ) by {
        let p = choose|p: int| 0 <= p < kd.len() && kd[p] == k;
        assert(rep_from_first_occurrence(ds, s, p));
        let j = choose|j: int| #[trigger] is_first_occurrence(s, j) && ds[p] == s[j];
        assert(ks[j] == s[j].key());
        assert(ks.contains(k));
    }
    assert forall|k: (Seq<char>, Chapter)| ks.to_set().contains(k) implies kd.to_set().contains(
        k,
    ) by {
        let j = choose|j: int| 0 <= j < ks.len() && ks[j] == k;
        assert(ks[j] == s[j].key());
        assert(has_key(ds, s[j].key()));
        let w = choose|w: int| 0 <= w < ds.len() && (#[trigger] ds[w].key()) == k;
        assert(kd[w] == k);
        assert(kd.contains(k));
    }
    assert(kd.to_set() =~= ks.to_set());
}

} // verus!
