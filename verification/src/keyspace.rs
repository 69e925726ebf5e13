//! The engine's sorted keyspace, modelled directly.
//!
//! A `KeySpace` is the crate's model of one column family inside the storage
//! engine: a set of key/value records kept in strictly ascending key order.
//! Its mathematical views are a sequence of records (for cursors) and a map
//! from keys to values (for point reads and writes); every operation of the
//! access layer is ultimately specified against these two views.

use vstd::prelude::*;

use crate::order::KeyOrder;
use crate::order::compare_keys;
use crate::order::lemma_lex_irreflexive;
use crate::order::lemma_lex_le_lt_transitive;
use crate::order::lemma_lex_lt_le_transitive;
use crate::order::lemma_lex_transitive;
use crate::order::lemma_lex_trichotomy;
use crate::order::lex_le;
use crate::order::lex_lt;

verus! {

/// Mathematical view of one stored record.
pub open spec fn pair_view(e: (Vec<u8>, Vec<u8>)) -> (Seq<u8>, Seq<u8>) {
    (e.0@, e.1@)
}

/// Mathematical view of a record vector.
pub open spec fn entries_view(s: Seq<(Vec<u8>, Vec<u8>)>) -> Seq<(Seq<u8>, Seq<u8>)> {
    s.map_values(|e: (Vec<u8>, Vec<u8>)| pair_view(e))
}

/// The view of a record vector grows pointwise under push.
pub proof fn lemma_entries_view_push(s: Seq<(Vec<u8>, Vec<u8>)>, e: (Vec<u8>, Vec<u8>))
    ensures
        entries_view(s.push(e)) == entries_view(s).push(pair_view(e)),
{
    assert(entries_view(s.push(e)) =~= entries_view(s).push(pair_view(e)));
}

/// The records are in strictly ascending key order.
pub open spec fn sorted_strict(s: Seq<(Seq<u8>, Seq<u8>)>) -> bool {
    forall|i: int, j: int| 0 <= i < j < s.len() ==> lex_lt(s[i].0, s[j].0)
}

/// No key occurs twice.
pub open spec fn distinct_keys(s: Seq<(Seq<u8>, Seq<u8>)>) -> bool {
    forall|i: int, j: int| 0 <= i < j < s.len() ==> s[i].0 != s[j].0
}

/// Some record holds the key `k`.
pub open spec fn contains_key_at(s: Seq<(Seq<u8>, Seq<u8>)>, k: Seq<u8>) -> bool {
    exists|i: int| 0 <= i < s.len() && s[i].0 == k
}

/// An index of a record holding the key `k`.
pub open spec fn key_index(s: Seq<(Seq<u8>, Seq<u8>)>, k: Seq<u8>) -> int {
    choose|i: int| 0 <= i < s.len() && s[i].0 == k
}

/// The map from keys to values that a record sequence denotes.
pub open spec fn seq_to_map(s: Seq<(Seq<u8>, Seq<u8>)>) -> Map<Seq<u8>, Seq<u8>> {
    Map::new(|k: Seq<u8>| contains_key_at(s, k), |k: Seq<u8>| s[key_index(s, k)].1)
}

/// A sorted record sequence has distinct keys.
pub proof fn lemma_sorted_distinct(s: Seq<(Seq<u8>, Seq<u8>)>)
    requires
        sorted_strict(s),
    ensures
        distinct_keys(s),
{
    assert forall|i: int, j: int| 0 <= i < j < s.len() implies s[i].0 != s[j].0 by {
        lemma_lex_trichotomy(s[i].0, s[j].0);
    }
}

/// With distinct keys, the record at index `i` is exactly what the map view
/// holds for its key.
pub proof fn lemma_map_at(s: Seq<(Seq<u8>, Seq<u8>)>, i: int)
    requires
        distinct_keys(s),
        0 <= i < s.len(),
    ensures
        seq_to_map(s).dom().contains(s[i].0),
        seq_to_map(s)[s[i].0] == s[i].1,
{
    assert(contains_key_at(s, s[i].0));
    let j = key_index(s, s[i].0);
    assert(0 <= j < s.len() && s[j].0 == s[i].0);
    assert(j == i);
}

/// Inserting a record with a fresh key inserts its binding into the map view.
pub proof fn lemma_seq_to_map_insert(s: Seq<(Seq<u8>, Seq<u8>)>, p: int, k: Seq<u8>, v: Seq<u8>)
    requires
        distinct_keys(s),
        !contains_key_at(s, k),
        0 <= p <= s.len(),
    ensures
        seq_to_map(s.insert(p, (k, v))) == seq_to_map(s).insert(k, v),
{
    let s2 = s.insert(p, (k, v));
    assert(distinct_keys(s2)) by {
        assert forall|i: int, j: int| 0 <= i < j < s2.len() implies s2[i].0 != s2[j].0 by {
            let oi: int = if i < p { i } else { i - 1 };
            let oj: int = if j < p { j } else { j - 1 };
            if i == p {
                assert(s2[j].0 == s[oj].0);
                assert(!(s[oj].0 == k));
            } else if j == p {
                assert(s2[i].0 == s[oi].0);
                assert(!(s[oi].0 == k));
            } else {
                assert(s2[i].0 == s[oi].0);
                assert(s2[j].0 == s[oj].0);
            }
        }
    }
    assert forall|x: Seq<u8>| #[trigger] contains_key_at(s2, x) implies x == k || contains_key_at(
        s,
        x,
    ) by {
        let i = choose|i: int| 0 <= i < s2.len() && s2[i].0 == x;
        if i < p {
            assert(s[i].0 == x);
        } else if i > p {
            assert(s[i - 1].0 == x);
        }
    }
    assert forall|x: Seq<u8>| contains_key_at(s, x) implies #[trigger] contains_key_at(s2, x) by {
        let i = choose|i: int| 0 <= i < s.len() && s[i].0 == x;
        if i < p {
            assert(s2[i].0 == x);
        } else {
            assert(s2[i + 1].0 == x);
        }
    }
    assert(contains_key_at(s2, k)) by {
        assert(s2[p].0 == k);
    }
    assert forall|x: Seq<u8>| #[trigger] contains_key_at(s2, x) implies seq_to_map(s2)[x]
        == seq_to_map(s).insert(k, v)[x] by {
        lemma_map_at(s2, key_index(s2, x));
        if x == k {
            lemma_map_at(s2, p);
        } else {
            let i = choose|i: int| 0 <= i < s.len() && s[i].0 == x;
            lemma_map_at(s, i);
            if i < p {
                lemma_map_at(s2, i);
            } else {
                lemma_map_at(s2, i + 1);
            }
        }
    }
    assert(seq_to_map(s2) =~= seq_to_map(s).insert(k, v));
}

/// Overwriting the value at index `p` updates the map view at that key.
pub proof fn lemma_seq_to_map_update(s: Seq<(Seq<u8>, Seq<u8>)>, p: int, v: Seq<u8>)
    requires
        distinct_keys(s),
        0 <= p < s.len(),
    ensures
        seq_to_map(s.update(p, (s[p].0, v))) == seq_to_map(s).insert(s[p].0, v),
{
    let k = s[p].0;
    let s2 = s.update(p, (k, v));
    assert(distinct_keys(s2)) by {
        assert forall|i: int, j: int| 0 <= i < j < s2.len() implies s2[i].0 != s2[j].0 by {
            assert(s2[i].0 == s[i].0);
            assert(s2[j].0 == s[j].0);
        }
    }
    assert forall|x: Seq<u8>| #[trigger] contains_key_at(s2, x) implies contains_key_at(s, x) by {
        let i = choose|i: int| 0 <= i < s2.len() && s2[i].0 == x;
        assert(s[i].0 == x);
    }
    assert forall|x: Seq<u8>| #[trigger] contains_key_at(s, x) implies contains_key_at(s2, x) by {
        let i = choose|i: int| 0 <= i < s.len() && s[i].0 == x;
        assert(s2[i].0 == x);
    }
    assert(contains_key_at(s, k)) by {
        assert(s[p].0 == k);
    }
    assert(contains_key_at(s2, k)) by {
        assert(s2[p].0 == k);
    }
    assert forall|x: Seq<u8>| #[trigger] contains_key_at(s2, x) implies seq_to_map(s2)[x]
        == seq_to_map(s).insert(k, v)[x] by {
        if x == k {
            lemma_map_at(s2, p);
        } else {
            let i = choose|i: int| 0 <= i < s.len() && s[i].0 == x;
            assert(i != p);
            lemma_map_at(s, i);
            lemma_map_at(s2, i);
        }
    }
    assert(seq_to_map(s2) =~= seq_to_map(s).insert(k, v));
}

/// Removing the record at index `p` removes its key from the map view.
pub proof fn lemma_seq_to_map_remove(s: Seq<(Seq<u8>, Seq<u8>)>, p: int)
    requires
        distinct_keys(s),
        0 <= p < s.len(),
    ensures
        seq_to_map(s.remove(p)) == seq_to_map(s).remove(s[p].0),
{
    let k = s[p].0;
    let s2 = s.remove(p);
    assert(distinct_keys(s2)) by {
        assert forall|i: int, j: int| 0 <= i < j < s2.len() implies s2[i].0 != s2[j].0 by {
            let oi: int = if i < p { i } else { i + 1 };
            let oj: int = if j < p { j } else { j + 1 };
            assert(s2[i].0 == s[oi].0);
            assert(s2[j].0 == s[oj].0);
        }
    }
    assert forall|x: Seq<u8>| #[trigger] contains_key_at(s2, x) implies contains_key_at(s, x) && x
        != k by {
        let i = choose|i: int| 0 <= i < s2.len() && s2[i].0 == x;
        let oi: int = if i < p { i } else { i + 1 };
        assert(s[oi].0 == x);
        assert(oi != p);
    }
    assert forall|x: Seq<u8>| contains_key_at(s, x) && x != k implies #[trigger] contains_key_at(
        s2,
        x,
    ) by {
        let i = choose|i: int| 0 <= i < s.len() && s[i].0 == x;
        assert(i != p);
        if i < p {
            assert(s2[i].0 == x);
        } else {
            assert(s2[i - 1].0 == x);
        }
    }
    assert forall|x: Seq<u8>| #[trigger] contains_key_at(s2, x) implies seq_to_map(s2)[x]
        == seq_to_map(s).remove(k)[x] by {
        let i = choose|i: int| 0 <= i < s.len() && s[i].0 == x;
        lemma_map_at(s, i);
        if i < p {
            lemma_map_at(s2, i);
        } else {
            lemma_map_at(s2, i - 1);
        }
    }
    assert(seq_to_map(s2) =~= seq_to_map(s).remove(k));
}

/// Inserting a record between its neighbours keeps the sequence sorted.
pub proof fn lemma_sorted_insert(s: Seq<(Seq<u8>, Seq<u8>)>, p: int, k: Seq<u8>, v: Seq<u8>)
    requires
        sorted_strict(s),
        0 <= p <= s.len(),
        forall|j: int| 0 <= j < p ==> lex_lt(s[j].0, k),
        forall|j: int| p <= j < s.len() ==> lex_lt(k, s[j].0),
    ensures
        sorted_strict(s.insert(p, (k, v))),
{
    let s2 = s.insert(p, (k, v));
    assert forall|i: int, j: int| 0 <= i < j < s2.len() implies lex_lt(s2[i].0, s2[j].0) by {
        let oi: int = if i < p { i } else { i - 1 };
        let oj: int = if j < p { j } else { j - 1 };
        if i == p {
            assert(s2[j].0 == s[oj].0);
        } else if j == p {
            assert(s2[i].0 == s[oi].0);
        } else {
            assert(s2[i].0 == s[oi].0);
            assert(s2[j].0 == s[oj].0);
        }
    }
}

/// Removing a record keeps the sequence sorted.
pub proof fn lemma_sorted_remove(s: Seq<(Seq<u8>, Seq<u8>)>, p: int)
    requires
        sorted_strict(s),
        0 <= p < s.len(),
    ensures
        sorted_strict(s.remove(p)),
{
    let s2 = s.remove(p);
    assert forall|i: int, j: int| 0 <= i < j < s2.len() implies lex_lt(s2[i].0, s2[j].0) by {
        let oi: int = if i < p { i } else { i + 1 };
        let oj: int = if j < p { j } else { j + 1 };
        assert(s2[i].0 == s[oi].0);
        assert(s2[j].0 == s[oj].0);
    }
}

/// A key that the scan boundary proves absent is not in the sequence.
pub proof fn lemma_boundary_not_found(s: Seq<(Seq<u8>, Seq<u8>)>, k: Seq<u8>, i: int)
    requires
        sorted_strict(s),
        0 <= i <= s.len(),
        forall|j: int| 0 <= j < i ==> lex_lt(s[j].0, k),
        forall|j: int| i <= j < s.len() ==> lex_le(k, s[j].0),
        i < s.len() ==> s[i].0 != k,
    ensures
        !contains_key_at(s, k),
{
    assert forall|j: int| 0 <= j < s.len() implies s[j].0 != k by {
        if j < i {
            lemma_lex_trichotomy(s[j].0, k);
        } else if j == i {
        } else {
            if i < s.len() {
                lemma_lex_trichotomy(k, s[i].0);
                assert(lex_lt(k, s[i].0));
                lemma_lex_transitive(k, s[i].0, s[j].0);
                lemma_lex_trichotomy(k, s[j].0);
            }
        }
    }
}

/// The number of keys before `k`: in a sorted sequence, the position of the
/// first record at or after `k`.
pub open spec fn lb(s: Seq<(Seq<u8>, Seq<u8>)>, k: Seq<u8>) -> int
    decreases s.len(),
{
    if s.len() == 0 {
        0
    } else if lex_lt(s[0].0, k) {
        1 + lb(s.drop_first(), k)
    } else {
        0
    }
}

/// The number of keys at or before `k`: in a sorted sequence, one past the
/// position of the last record at or before `k`.
pub open spec fn ub(s: Seq<(Seq<u8>, Seq<u8>)>, k: Seq<u8>) -> int
    decreases s.len(),
{
    if s.len() == 0 {
        0
    } else if lex_le(s[0].0, k) {
        1 + ub(s.drop_first(), k)
    } else {
        0
    }
}

/// In a sorted sequence, `lb` splits the keys: everything before it is under
/// `k`, everything from it on is at or over `k`.
pub proof fn lemma_lb_bounds(s: Seq<(Seq<u8>, Seq<u8>)>, k: Seq<u8>)
    requires
        sorted_strict(s),
    ensures
        0 <= lb(s, k) <= s.len(),
        forall|j: int| 0 <= j < lb(s, k) ==> lex_lt(s[j].0, k),
        forall|j: int| lb(s, k) <= j < s.len() ==> lex_le(k, s[j].0),
    decreases s.len(),
{
    if s.len() == 0 {
    } else if lex_lt(s[0].0, k) {
        let t = s.drop_first();
        assert forall|a: int, b: int| 0 <= a < b < t.len() implies lex_lt(t[a].0, t[b].0) by {
            assert(t[a] == s[a + 1]);
            assert(t[b] == s[b + 1]);
        }
        lemma_lb_bounds(t, k);
        assert forall|j: int| 0 <= j < lb(s, k) implies lex_lt(s[j].0, k) by {
            if j > 0 {
                assert(s[j] == t[j - 1]);
            }
        }
        assert forall|j: int| lb(s, k) <= j < s.len() implies lex_le(k, s[j].0) by {
            assert(s[j] == t[j - 1]);
        }
    } else {
        lemma_lex_trichotomy(s[0].0, k);
        assert forall|j: int| 0 <= j < s.len() implies lex_le(k, s[j].0) by {
            if j > 0 {
                lemma_lex_le_lt_transitive(k, s[0].0, s[j].0);
            }
        }
    }
}

/// In a sorted sequence, `ub` splits the keys: everything before it is at or
/// under `k`, everything from it on is over `k`.
pub proof fn lemma_ub_bounds(s: Seq<(Seq<u8>, Seq<u8>)>, k: Seq<u8>)
    requires
        sorted_strict(s),
    ensures
        0 <= ub(s, k) <= s.len(),
        forall|j: int| 0 <= j < ub(s, k) ==> lex_le(s[j].0, k),
        forall|j: int| ub(s, k) <= j < s.len() ==> lex_lt(k, s[j].0),
    decreases s.len(),
{
    if s.len() == 0 {
    } else if lex_le(s[0].0, k) {
        let t = s.drop_first();
        assert forall|a: int, b: int| 0 <= a < b < t.len() implies lex_lt(t[a].0, t[b].0) by {
            assert(t[a] == s[a + 1]);
            assert(t[b] == s[b + 1]);
        }
        lemma_ub_bounds(t, k);
        assert forall|j: int| 0 <= j < ub(s, k) implies lex_le(s[j].0, k) by {
            if j > 0 {
                assert(s[j] == t[j - 1]);
            }
        }
        assert forall|j: int| ub(s, k) <= j < s.len() implies lex_lt(k, s[j].0) by {
            assert(s[j] == t[j - 1]);
        }
    } else {
        lemma_lex_trichotomy(s[0].0, k);
        assert forall|j: int| 0 <= j < s.len() implies lex_lt(k, s[j].0) by {
            if j > 0 {
                lemma_lex_transitive(k, s[0].0, s[j].0);
            }
        }
    }
}

/// The boundary index a scan finds is exactly `lb`.
pub proof fn lemma_lb_agrees(s: Seq<(Seq<u8>, Seq<u8>)>, k: Seq<u8>, i: int)
    requires
        sorted_strict(s),
        0 <= i <= s.len(),
        forall|j: int| 0 <= j < i ==> lex_lt(s[j].0, k),
        forall|j: int| i <= j < s.len() ==> lex_le(k, s[j].0),
    ensures
        i == lb(s, k),
{
    lemma_lb_bounds(s, k);
    let l = lb(s, k);
    if i < l {
        assert(lex_lt(s[i].0, k));
        assert(lex_le(k, s[i].0));
        lemma_lex_trichotomy(s[i].0, k);
    } else if l < i {
        assert(lex_lt(s[l].0, k));
        assert(lex_le(k, s[l].0));
        lemma_lex_trichotomy(s[l].0, k);
    }
}

/// The boundary index a scan finds is exactly `ub`.
pub proof fn lemma_ub_agrees(s: Seq<(Seq<u8>, Seq<u8>)>, k: Seq<u8>, i: int)
    requires
        sorted_strict(s),
        0 <= i <= s.len(),
        forall|j: int| 0 <= j < i ==> lex_le(s[j].0, k),
        forall|j: int| i <= j < s.len() ==> lex_lt(k, s[j].0),
    ensures
        i == ub(s, k),
{
    lemma_ub_bounds(s, k);
    let l = ub(s, k);
    if i < l {
        assert(lex_le(s[i].0, k));
        assert(lex_lt(k, s[i].0));
        lemma_lex_trichotomy(s[i].0, k);
    } else if l < i {
        assert(lex_le(s[l].0, k));
        assert(lex_lt(k, s[l].0));
        lemma_lex_trichotomy(s[l].0, k);
    }
}

/// A record at or after a present key `k`, found at `lb`, holds `k` itself.
pub proof fn lemma_lb_finds_existing(s: Seq<(Seq<u8>, Seq<u8>)>, k: Seq<u8>)
    requires
        sorted_strict(s),
        contains_key_at(s, k),
    ensures
        0 <= lb(s, k) < s.len(),
        s[lb(s, k)].0 == k,
{
    lemma_lb_bounds(s, k);
    let w = choose|i: int| 0 <= i < s.len() && s[i].0 == k;
    lemma_lex_irreflexive(k);
    assert(w >= lb(s, k));
    let l = lb(s, k);
    if s[l].0 != k {
        assert(lex_le(k, s[l].0));
        assert(lex_lt(k, s[l].0)) by {
            lemma_lex_trichotomy(k, s[l].0);
        }
        if l < w {
            assert(lex_lt(s[l].0, s[w].0));
            lemma_lex_transitive(k, s[l].0, s[w].0);
        }
    }
}

/// Filtering a sorted record sequence keeps it sorted, and every kept record
/// comes from the original.
pub proof fn lemma_filter_sorted(s: Seq<(Seq<u8>, Seq<u8>)>, pred: spec_fn((Seq<u8>, Seq<u8>)) -> bool)
    requires
        sorted_strict(s),
    ensures
        sorted_strict(s.filter(pred)),
        forall|i: int|
            0 <= i < s.filter(pred).len() ==> exists|j: int|
                0 <= j < s.len() && #[trigger] s.filter(pred)[i] == s[j],
    decreases s.len(),
{
    reveal(Seq::filter);
    if s.len() > 0 {
        let t = s.drop_last();
        assert forall|a: int, b: int| 0 <= a < b < t.len() implies lex_lt(t[a].0, t[b].0) by {
            assert(t[a] == s[a]);
            assert(t[b] == s[b]);
        }
        lemma_filter_sorted(t, pred);
        let f = t.filter(pred);
        let out = s.filter(pred);
        if pred(s.last()) {
            assert(out == f.push(s.last()));
            assert forall|a: int, b: int| 0 <= a < b < out.len() implies lex_lt(
                out[a].0,
                out[b].0,
            ) by {
                if b < out.len() - 1 {
                    assert(out[a] == f[a] && out[b] == f[b]);
                } else {
                    assert(out[b] == s.last());
                    assert(out[a] == f[a]);
                    let j = choose|j: int| 0 <= j < t.len() && f[a] == t[j];
                    assert(t[j] == s[j]);
                    assert(lex_lt(s[j].0, s.last().0));
                }
            }
            assert forall|i: int| 0 <= i < out.len() implies exists|j: int|
                0 <= j < s.len() && #[trigger] out[i] == s[j] by {
                if i < out.len() - 1 {
                    let j = choose|j: int| 0 <= j < t.len() && f[i] == t[j];
                    assert(out[i] == s[j]);
                } else {
                    assert(out[i] == s[s.len() - 1]);
                }
            }
        } else {
            assert(out == f);
            assert forall|i: int| 0 <= i < out.len() implies exists|j: int|
                0 <= j < s.len() && #[trigger] out[i] == s[j] by {
                let j = choose|j: int| 0 <= j < t.len() && f[i] == t[j];
                assert(out[i] == s[j]);
            }
        }
    }
}

/// `p` is a prefix of `k`.
pub open spec fn is_prefix(p: Seq<u8>, k: Seq<u8>) -> bool {
    p.len() <= k.len() && k.take(p.len() as int) == p
}

/// Whether `p` is a prefix of `k`.
pub fn starts_with(k: &[u8], p: &[u8]) -> (r: bool)
    ensures
        r == is_prefix(p@, k@),
{
    let pl: usize = p.len();
    if pl > k.len() {
        proof {
            assert(!is_prefix(p@, k@));
        }
        return false;
    }
    let mut i: usize = 0;
    while i < pl
        invariant
            i <= pl,
            pl == p@.len(),
            pl <= k@.len(),
            forall|j: int| 0 <= j < i ==> k@[j] == p@[j],
        decreases pl - i,
    {
        if k[i] != p[i] {
            proof {
                assert(k@.take(pl as int)[i as int] != p@[i as int]);
            }
            return false;
        }
        i = i + 1;
    }
    proof {
        assert(k@.take(pl as int) =~= p@);
    }
    true
}

/// The record passes the iteration constraints: it carries the required
/// prefix and sits under the upper bound.
pub open spec fn within(e: (Seq<u8>, Seq<u8>), prefix: Option<Seq<u8>>, upper: Option<Seq<u8>>) -> bool {
    &&& match prefix {
        Some(p) => is_prefix(p, e.0),
        None => true,
    }
    &&& match upper {
        Some(u) => lex_lt(e.0, u),
        None => true,
    }
}

/// The iteration-constraint predicate for a given prefix and upper bound.
pub open spec fn within_pred(prefix: Option<Seq<u8>>, upper: Option<Seq<u8>>) -> spec_fn(
    (Seq<u8>, Seq<u8>),
) -> bool {
    |e: (Seq<u8>, Seq<u8>)| within(e, prefix, upper)
}

/// The records that pass the iteration constraints are exactly the map view
/// restricted to the constrained keys: each kept record passes and carries
/// its stored value, and every stored key that passes is kept.
pub proof fn lemma_filter_map_correspondence(
    s: Seq<(Seq<u8>, Seq<u8>)>,
    prefix: Option<Seq<u8>>,
    upper: Option<Seq<u8>>,
)
    requires
        sorted_strict(s),
    ensures
        ({
            let f = s.filter(within_pred(prefix, upper));
            &&& sorted_strict(f)
            &&& forall|j: int| 0 <= j < f.len() ==> within(#[trigger] f[j], prefix, upper)
            &&& forall|j: int|
                0 <= j < f.len() ==> seq_to_map(s).dom().contains((#[trigger] f[j]).0)
                    && seq_to_map(s)[f[j].0] == f[j].1
            &&& forall|k: Seq<u8>|
                seq_to_map(s).dom().contains(k) && within((k, seq_to_map(s)[k]), prefix, upper)
                    ==> #[trigger] contains_key_at(f, k)
        }),
{
    let pred = within_pred(prefix, upper);
    let f = s.filter(pred);
    lemma_sorted_distinct(s);
    lemma_filter_sorted(s, pred);
    assert forall|j: int| 0 <= j < f.len() implies within(#[trigger] f[j], prefix, upper) by {
        Seq::lemma_filter_pred(s, pred, j);
    }
    assert forall|j: int|
        0 <= j < f.len() implies seq_to_map(s).dom().contains((#[trigger] f[j]).0) && seq_to_map(
        s,
    )[f[j].0] == f[j].1 by {
        let i = choose|i: int| 0 <= i < s.len() && f[j] == s[i];
        lemma_map_at(s, i);
    }
    assert forall|k: Seq<u8>|
        seq_to_map(s).dom().contains(k) && within(
            (k, seq_to_map(s)[k]),
            prefix,
            upper,
        ) implies #[trigger] contains_key_at(f, k) by {
        let i = key_index(s, k);
        assert(0 <= i < s.len() && s[i].0 == k);
        lemma_map_at(s, i);
        assert(s[i] == (k, seq_to_map(s)[k]));
        assert(pred(s[i]));
        Seq::lemma_filter_contains(s, pred, i);
        let j2 = choose|j2: int| 0 <= j2 < f.len() && f[j2] == s[i];
        assert(f[j2].0 == k);
    }
}

/// With no constraints, the restriction keeps every record.
pub proof fn lemma_filter_unconstrained(s: Seq<(Seq<u8>, Seq<u8>)>)
    ensures
        s.filter(within_pred(None, None)) == s,
    decreases s.len(),
{
    reveal(Seq::filter);
    if s.len() > 0 {
        lemma_filter_unconstrained(s.drop_last());
        assert(s.drop_last().push(s.last()) =~= s);
    }
}

/// A prefix comes at or before every key that carries it.
pub proof fn lemma_is_prefix_le(p: Seq<u8>, k: Seq<u8>)
    requires
        is_prefix(p, k),
    ensures
        lex_le(p, k),
    decreases p.len(),
{
    if p.len() == 0 {
        if k.len() == 0 {
            assert(p =~= k);
        }
    } else {
        assert(p[0] == k.take(p.len() as int)[0]);
        assert(p[0] == k[0]);
        let p2 = p.drop_first();
        let k2 = k.drop_first();
        assert(is_prefix(p2, k2)) by {
            assert forall|j: int| 0 <= j < p2.len() implies k2.take(p2.len() as int)[j]
                == p2[j] by {
                assert(k2[j] == k[j + 1]);
                assert(p2[j] == p[j + 1]);
                assert(k[j + 1] == k.take(p.len() as int)[j + 1]);
            }
            assert(k2.take(p2.len() as int) =~= p2);
        }
        lemma_is_prefix_le(p2, k2);
        if p2 == k2 {
            if p.len() == k.len() {
                assert forall|j: int| 0 <= j < p.len() implies p[j] == k[j] by {
                    if j > 0 {
                        assert(p2[j - 1] == k2[j - 1]);
                    }
                }
                assert(p =~= k);
            } else {
                assert(lex_lt(p, k));
            }
        }
    }
}

/// The view of an optional byte string.
pub open spec fn opt_bytes_view(o: Option<&[u8]>) -> Option<Seq<u8>> {
    match o {
        Some(b) => Some(b@),
        None => None,
    }
}

/// The value that a merge leaves under a key: the operand appended to the
/// stored value, or the operand alone when the key is absent. This is the
/// model engine's merge operator.
pub open spec fn merged_value(m: Map<Seq<u8>, Seq<u8>>, k: Seq<u8>, operand: Seq<u8>) -> Seq<u8> {
    if m.dom().contains(k) {
        m[k] + operand
    } else {
        operand
    }
}

/// Copies a byte string into an owned vector.
pub fn copy_bytes(src: &[u8]) -> (r: Vec<u8>)
    ensures
        r@ == src@,
{
    let mut r: Vec<u8> = Vec::new();
    let mut i: usize = 0;
    let n: usize = src.len();
    while i < n
        invariant
            i <= n,
            n == src@.len(),
            r@ == src@.take(i as int),
        decreases n - i,
    {
        r.push(src[i]);
        i = i + 1;
        proof {
            assert(r@ =~= src@.take(i as int));
        }
    }
    proof {
        assert(src@.take(n as int) =~= src@);
    }
    r
}

/// One column family's records, kept in strictly ascending key order.
pub struct KeySpace {
    entries: Vec<(Vec<u8>, Vec<u8>)>,
}

impl View for KeySpace {
    type V = Seq<(Seq<u8>, Seq<u8>)>;

    closed spec fn view(&self) -> Seq<(Seq<u8>, Seq<u8>)> {
        entries_view(self.entries@)
    }
}

impl KeySpace {
    /// Well-formedness: the records are sorted strictly by key.
    pub open spec fn wf(&self) -> bool {
        sorted_strict(self@)
    }

    /// The keyspace seen as a map from keys to values.
    pub open spec fn as_map(&self) -> Map<Seq<u8>, Seq<u8>> {
        seq_to_map(self@)
    }

    /// An empty keyspace.
    pub fn new() -> (r: KeySpace)
        ensures
            r.wf(),
            r@ == Seq::<(Seq<u8>, Seq<u8>)>::empty(),
            r.as_map() == Map::<Seq<u8>, Seq<u8>>::empty(),
    {
        let r = KeySpace { entries: Vec::new() };
        proof {
            assert(r@ =~= Seq::<(Seq<u8>, Seq<u8>)>::empty());
            assert(r.as_map() =~= Map::<Seq<u8>, Seq<u8>>::empty());
        }
        r
    }

    /// The number of records.
    pub fn record_count(&self) -> (n: usize)
        ensures
            n == self@.len(),
    {
        self.entries.len()
    }

    /// The index of the first record whose key is at or after `key`.
    pub fn lower_bound(&self, key: &[u8]) -> (i: usize)
        requires
            self.wf(),
        ensures
            i <= self@.len(),
            forall|j: int| 0 <= j < i ==> lex_lt(self@[j].0, key@),
            forall|j: int| i <= j < self@.len() ==> lex_le(key@, self@[j].0),
    {
        let n: usize = self.entries.len();
        let mut idx: usize = 0;
        while idx < n && compare_keys(self.entries[idx].0.as_slice(), key) == KeyOrder::Less
            invariant
                idx <= n,
                n == self@.len(),
                self.wf(),
                n == self.entries@.len(),
                forall|j: int| 0 <= j < idx ==> lex_lt(self@[j].0, key@),
            decreases n - idx,
        {
            idx = idx + 1;
        }
        proof {
            if idx < n {
                lemma_lex_trichotomy(self@[idx as int].0, key@);
            }
            assert forall|j: int| idx <= j < self@.len() implies lex_le(key@, self@[j].0) by {
                if j > idx {
                    lemma_lex_le_lt_transitive(key@, self@[idx as int].0, self@[j].0);
                }
            }
        }
        idx
    }

    /// The index one past the last record whose key is at or before `key`.
    pub fn upper_bound(&self, key: &[u8]) -> (i: usize)
        requires
            self.wf(),
        ensures
            i <= self@.len(),
            forall|j: int| 0 <= j < i ==> lex_le(self@[j].0, key@),
            forall|j: int| i <= j < self@.len() ==> lex_lt(key@, self@[j].0),
    {
        let n: usize = self.entries.len();
        let mut idx: usize = 0;
        while idx < n && !(compare_keys(self.entries[idx].0.as_slice(), key) == KeyOrder::Greater)
            invariant
                idx <= n,
                n == self@.len(),
                self.wf(),
                n == self.entries@.len(),
                forall|j: int| 0 <= j < idx ==> lex_le(self@[j].0, key@),
            decreases n - idx,
        {
            idx = idx + 1;
        }
        proof {
            if idx < n {
                lemma_lex_trichotomy(self@[idx as int].0, key@);
            }
            assert forall|j: int| idx <= j < self@.len() implies lex_lt(key@, self@[j].0) by {
                if j > idx {
                    lemma_lex_transitive(key@, self@[idx as int].0, self@[j].0);
                }
            }
        }
        idx
    }

    /// Borrows the key of the record at position `i`.
    pub fn key_ref_at(&self, i: usize) -> (r: &[u8])
        requires
            i < self@.len(),
        ensures
            r@ == self@[i as int].0,
    {
        self.entries[i].0.as_slice()
    }

    /// Borrows the value of the record at position `i`.
    pub fn value_ref_at(&self, i: usize) -> (r: &[u8])
        requires
            i < self@.len(),
        ensures
            r@ == self@[i as int].1,
    {
        self.entries[i].1.as_slice()
    }

    /// A copy of the key of the record at position `i`.
    pub fn key_copy_at(&self, i: usize) -> (r: Vec<u8>)
        requires
            i < self@.len(),
        ensures
            r@ == self@[i as int].0,
    {
        copy_bytes(self.entries[i].0.as_slice())
    }

    /// A copy of the value of the record at position `i`.
    pub fn value_copy_at(&self, i: usize) -> (r: Vec<u8>)
        requires
            i < self@.len(),
        ensures
            r@ == self@[i as int].1,
    {
        copy_bytes(self.entries[i].1.as_slice())
    }

    /// An independent copy holding the records that pass the iteration
    /// constraints: the required prefix and the exclusive upper bound.
    pub fn restricted_copy(&self, prefix: Option<&[u8]>, upper: Option<&[u8]>) -> (r: KeySpace)
        requires
            self.wf(),
        ensures
            r@ == self@.filter(within_pred(opt_bytes_view(prefix), opt_bytes_view(upper))),
            r.wf(),
    {
        let ghost pred = within_pred(opt_bytes_view(prefix), opt_bytes_view(upper));
        let n: usize = self.entries.len();
        let mut out: Vec<(Vec<u8>, Vec<u8>)> = Vec::new();
        let mut i: usize = 0;
        proof {
            reveal(Seq::filter);
            assert(self@.take(0) =~= Seq::<(Seq<u8>, Seq<u8>)>::empty());
            assert(entries_view(out@) =~= self@.take(0).filter(pred));
        }
        while i < n
            invariant
                i <= n,
                n == self.entries@.len(),
                n == self@.len(),
                pred == within_pred(opt_bytes_view(prefix), opt_bytes_view(upper)),
                entries_view(out@) == self@.take(i as int).filter(pred),
            decreases n - i,
        {
            let keep_prefix = match prefix {
                Some(p) => starts_with(self.entries[i].0.as_slice(), p),
                None => true,
            };
            let keep_upper = match upper {
                Some(u) => compare_keys(self.entries[i].0.as_slice(), u) == KeyOrder::Less,
                None => true,
            };
            proof {
                reveal(Seq::filter);
                assert((keep_prefix && keep_upper) == pred(self@[i as int]));
                assert(self@.take(i + 1).drop_last() =~= self@.take(i as int));
                assert(self@.take(i + 1).last() == self@[i as int]);
            }
            if keep_prefix && keep_upper {
                let k = copy_bytes(self.entries[i].0.as_slice());
                let v = copy_bytes(self.entries[i].1.as_slice());
                proof {
                    lemma_entries_view_push(out@, (k, v));
                    assert(pair_view((k, v)) == self@[i as int]);
                }
                out.push((k, v));
            }
            i = i + 1;
        }
        let r = KeySpace { entries: out };
        proof {
            assert(self@.take(n as int) =~= self@);
            lemma_filter_sorted(self@, pred);
        }
        r
    }

    /// Reads the value stored under `key`, if any, as a fresh copy.
    pub fn get(&self, key: &[u8]) -> (r: Option<Vec<u8>>)
        requires
            self.wf(),
        ensures
            r is Some <==> self.as_map().dom().contains(key@),
            r is Some ==> r.unwrap()@ == self.as_map()[key@],
    {
        let i = self.lower_bound(key);
        if i < self.entries.len() && compare_keys(self.entries[i].0.as_slice(), key)
            == KeyOrder::Equal {
            proof {
                lemma_sorted_distinct(self@);
                lemma_map_at(self@, i as int);
            }
            Some(copy_bytes(self.entries[i].1.as_slice()))
        } else {
            proof {
                lemma_boundary_not_found(self@, key@, i as int);
            }
            None
        }
    }

    /// Stores `value` under `key`, replacing any previous value.
    pub fn put(&mut self, key: &[u8], value: &[u8])
        requires
            old(self).wf(),
        ensures
            final(self).wf(),
            final(self).as_map() == old(self).as_map().insert(key@, value@),
    {
        let i = self.lower_bound(key);
        let kv = copy_bytes(key);
        let vv = copy_bytes(value);
        let found = i < self.entries.len() && compare_keys(self.entries[i].0.as_slice(), key)
            == KeyOrder::Equal;
        if found {
            proof {
                lemma_sorted_distinct(self@);
                lemma_seq_to_map_update(self@, i as int, value@);
            }
            self.entries[i] = (kv, vv);
            proof {
                assert(self@ =~= old(self)@.update(i as int, (key@, value@)));
                assert forall|a: int, b: int| 0 <= a < b < self@.len() implies lex_lt(
                    self@[a].0,
                    self@[b].0,
                ) by {
                    assert(self@[a].0 == old(self)@[a].0);
                    assert(self@[b].0 == old(self)@[b].0);
                }
            }
        } else {
            proof {
                lemma_boundary_not_found(self@, key@, i as int);
                lemma_sorted_distinct(self@);
                lemma_seq_to_map_insert(self@, i as int, key@, value@);
                assert forall|j: int| i <= j < self@.len() implies lex_lt(key@, self@[j].0) by {
                    if j == i {
                        lemma_lex_trichotomy(key@, self@[j].0);
                    } else {
                        lemma_lex_trichotomy(key@, self@[i as int].0);
                        lemma_lex_lt_le_transitive(key@, self@[i as int].0, self@[j].0);
                    }
                }
                lemma_sorted_insert(self@, i as int, key@, value@);
            }
            self.entries.insert(i, (kv, vv));
            proof {
                assert(self@ =~= old(self)@.insert(i as int, (key@, value@)));
            }
        }
    }

    /// Removes the record stored under `key`, if any.
    pub fn delete(&mut self, key: &[u8])
        requires
            old(self).wf(),
        ensures
            final(self).wf(),
            final(self).as_map() == old(self).as_map().remove(key@),
    {
        let i = self.lower_bound(key);
        if i < self.entries.len() && compare_keys(self.entries[i].0.as_slice(), key)
            == KeyOrder::Equal {
            proof {
                lemma_sorted_distinct(self@);
                lemma_seq_to_map_remove(self@, i as int);
                lemma_sorted_remove(self@, i as int);
            }
            self.entries.remove(i);
            proof {
                assert(self@ =~= old(self)@.remove(i as int));
            }
        } else {
            proof {
                lemma_boundary_not_found(self@, key@, i as int);
                assert(final(self).as_map() =~= old(self).as_map().remove(key@));
            }
        }
    }

    /// Merges `operand` into the value under `key` with the model engine's
    /// merge operator: the operand is appended to the stored value, or stored
    /// alone when the key is absent.
    pub fn merge(&mut self, key: &[u8], operand: &[u8])
        requires
            old(self).wf(),
        ensures
            final(self).wf(),
            final(self).as_map() == old(self).as_map().insert(
                key@,
                merged_value(old(self).as_map(), key@, operand@),
            ),
    {
        let i = self.lower_bound(key);
        let found = i < self.entries.len() && compare_keys(self.entries[i].0.as_slice(), key)
            == KeyOrder::Equal;
        if found {
            proof {
                lemma_sorted_distinct(self@);
                lemma_map_at(self@, i as int);
            }
            let mut merged = copy_bytes(self.entries[i].1.as_slice());
            let mut j: usize = 0;
            let n: usize = operand.len();
            while j < n
                invariant
                    j <= n,
                    n == operand@.len(),
                    merged@ == old(self)@[i as int].1 + operand@.take(j as int),
                decreases n - j,
            {
                merged.push(operand[j]);
                j = j + 1;
                proof {
                    assert(merged@ =~= old(self)@[i as int].1 + operand@.take(j as int));
                }
            }
            proof {
                assert(operand@.take(n as int) =~= operand@);
            }
            let kv = copy_bytes(key);
            proof {
                lemma_seq_to_map_update(self@, i as int, merged@);
            }
            self.entries[i] = (kv, merged);
            proof {
                assert(self@ =~= old(self)@.update(
                    i as int,
                    (key@, old(self)@[i as int].1 + operand@),
                ));
                assert forall|a: int, b: int| 0 <= a < b < self@.len() implies lex_lt(
                    self@[a].0,
                    self@[b].0,
                ) by {
                    assert(self@[a].0 == old(self)@[a].0);
                    assert(self@[b].0 == old(self)@[b].0);
                }
            }
        } else {
            proof {
                lemma_boundary_not_found(self@, key@, i as int);
                lemma_sorted_distinct(self@);
                lemma_seq_to_map_insert(self@, i as int, key@, operand@);
                assert forall|j: int| i <= j < self@.len() implies lex_lt(key@, self@[j].0) by {
                    if j == i {
                        lemma_lex_trichotomy(key@, self@[j].0);
                    } else {
                        lemma_lex_trichotomy(key@, self@[i as int].0);
                        lemma_lex_lt_le_transitive(key@, self@[i as int].0, self@[j].0);
                    }
                }
                lemma_sorted_insert(self@, i as int, key@, operand@);
            }
            let kv = copy_bytes(key);
            let vv = copy_bytes(operand);
            self.entries.insert(i, (kv, vv));
            proof {
                assert(self@ =~= old(self)@.insert(i as int, (key@, operand@)));
            }
        }
    }

    /// An independent copy with the same records.
    pub fn duplicate(&self) -> (r: KeySpace)
        ensures
            r@ == self@,
    {
        let mut out: Vec<(Vec<u8>, Vec<u8>)> = Vec::new();
        let mut i: usize = 0;
        let n: usize = self.entries.len();
        while i < n
            invariant
                i <= n,
                n == self.entries@.len(),
                entries_view(out@) == self@.take(i as int),
            decreases n - i,
        {
            let k = copy_bytes(self.entries[i].0.as_slice());
            let v = copy_bytes(self.entries[i].1.as_slice());
            proof {
                lemma_entries_view_push(out@, (k, v));
                assert(pair_view((k, v)) == self@[i as int]);
                assert(self@.take(i + 1) =~= self@.take(i as int).push(self@[i as int]));
            }
            out.push((k, v));
            i = i + 1;
        }
        let r = KeySpace { entries: out };
        proof {
            assert(self@.take(n as int) =~= self@);
        }
        r
    }
}

} // verus!
