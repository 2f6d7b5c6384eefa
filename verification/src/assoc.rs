//! Association lists: sequences of key/value entries read as maps, later
//! entries overriding earlier ones.
use vstd::prelude::*;

verus! {

/// `m` with the entries of `s` inserted in order (later entries win).
pub open spec fn map_with<K, V>(m: Map<K, V>, s: Seq<(K, V)>) -> Map<K, V>
    decreases s.len(),
{
    if s.len() == 0 {
        m
    } else {
        map_with(m, s.drop_last()).insert(s.last().0, s.last().1)
    }
}

/// The map of a sequence of entries, later entries winning.
pub open spec fn entries_map<K, V>(s: Seq<(K, V)>) -> Map<K, V> {
    map_with(Map::empty(), s)
}

/// The keys occurring in a sequence of entries.
pub open spec fn seq_keys<K, V>(s: Seq<(K, V)>) -> Set<K>
    decreases s.len(),
{
    if s.len() == 0 {
        Set::empty()
    } else {
        seq_keys(s.drop_last()).insert(s.last().0)
    }
}

/// No key occurs twice.
pub open spec fn unique_keys<K, V>(s: Seq<(K, V)>) -> bool {
    forall|i: int, j: int| 0 <= i < j < s.len() ==> s[i].0 != s[j].0
}


pub proof fn lemma_map_with_concat<K, V>(m: Map<K, V>, s1: Seq<(K, V)>, s2: Seq<(K, V)>)
    ensures
        map_with(m, s1 + s2) == map_with(map_with(m, s1), s2),
    decreases s2.len(),
{
    if s2.len() == 0 {
        assert(s1 + s2 =~= s1);
    } else {
        assert((s1 + s2).drop_last() =~= s1 + s2.drop_last());
        lemma_map_with_concat(m, s1, s2.drop_last());
    }
}

/// Inserting the same entries into two maps that agree on `k` gives maps
/// that agree on `k`.
pub proof fn lemma_map_with_agree<K, V>(m1: Map<K, V>, m2: Map<K, V>, s: Seq<(K, V)>, k: K)
    requires
        m1.contains_key(k) == m2.contains_key(k),
        m1.contains_key(k) ==> m1[k] == m2[k],
    ensures
        map_with(m1, s).contains_key(k) == map_with(m2, s).contains_key(k),
        map_with(m1, s).contains_key(k) ==> map_with(m1, s)[k] == map_with(m2, s)[k],
    decreases s.len(),
{
    if s.len() > 0 {
        lemma_map_with_agree(m1, m2, s.drop_last(), k);
    }
}

pub proof fn lemma_map_with_dom<K, V>(m: Map<K, V>, s: Seq<(K, V)>)
    ensures
        map_with(m, s).dom() =~= m.dom() + seq_keys(s),
    decreases s.len(),
{
    if s.len() > 0 {
        lemma_map_with_dom(m, s.drop_last());
    }
}

pub proof fn lemma_seq_keys_concat<K, V>(s1: Seq<(K, V)>, s2: Seq<(K, V)>)
    ensures
        seq_keys(s1 + s2) =~= seq_keys(s1) + seq_keys(s2),
    decreases s2.len(),
{
    if s2.len() == 0 {
        assert(s1 + s2 =~= s1);
    } else {
        assert((s1 + s2).drop_last() =~= s1 + s2.drop_last());
        lemma_seq_keys_concat(s1, s2.drop_last());
    }
}

pub proof fn lemma_seq_keys_index<K, V>(s: Seq<(K, V)>)
    ensures
        forall|k: K|
            seq_keys(s).contains(k) <==> exists|i: int| 0 <= i < s.len() && #[trigger] s[i].0 == k,
    decreases s.len(),
{
    if s.len() > 0 {
        let p = s.drop_last();
        lemma_seq_keys_index(p);
        assert forall|k: K|
            seq_keys(s).contains(k) <==> exists|i: int| 0 <= i < s.len() && #[trigger] s[i].0 == k by {
            assert(seq_keys(s) == seq_keys(p).insert(s.last().0));
            if seq_keys(s).contains(k) {
                if k == s.last().0 {
                    assert(s[s.len() - 1].0 == k);
                } else {
                    assert(seq_keys(p).contains(k));
                    let i = choose|i: int| 0 <= i < p.len() && #[trigger] p[i].0 == k;
                    assert(p[i] == s[i]);
                }
            }
            if exists|i: int| 0 <= i < s.len() && #[trigger] s[i].0 == k {
                let i = choose|i: int| 0 <= i < s.len() && #[trigger] s[i].0 == k;
                if i < s.len() - 1 {
                    assert(p[i].0 == k);
                }
            }
        }
    }
}


pub proof fn lemma_seq_keys_finite<K, V>(s: Seq<(K, V)>)
    ensures
        seq_keys(s).finite(),
    decreases s.len(),
{
    if s.len() > 0 {
        lemma_seq_keys_finite(s.drop_last());
    }
}


/// With unique keys the map of a sequence finds each entry's rectangle and
/// has as many keys as the sequence has entries.
pub proof fn lemma_unique_entries<K, V>(s: Seq<(K, V)>)
    requires
        unique_keys(s),
    ensures
        forall|i: int| 0 <= i < s.len() ==> entries_map(s).contains_key(#[trigger] s[i].0)
            && entries_map(s)[s[i].0] == s[i].1,
        entries_map(s).dom().finite(),
        entries_map(s).dom().len() == s.len(),
    decreases s.len(),
{
    if s.len() > 0 {
        let p = s.drop_last();
        lemma_unique_entries(p);
        lemma_map_with_dom(Map::empty(), p);
        lemma_seq_keys_index(p);
        let k = s.last().0;
        assert(!entries_map(p).dom().contains(k)) by {
            if entries_map(p).dom().contains(k) {
                assert(seq_keys(p).contains(k));
                let i = choose|i: int| 0 <= i < p.len() && #[trigger] p[i].0 == k;
                assert(s[i].0 == s[s.len() - 1].0);
            }
        }
        assert forall|i: int| 0 <= i < s.len() implies entries_map(s).contains_key(#[trigger] s[i].0)
            && entries_map(s)[s[i].0] == s[i].1 by {
            if i < s.len() - 1 {
                assert(p[i] == s[i]);
                assert(s[i].0 != k);
            }
        }
    }
}

/// Rewriting the rectangle of entry `i` in a sequence with unique keys
/// rewrites that key in its map.
pub proof fn lemma_unique_update<K, V>(s: Seq<(K, V)>, i: int, v: V)
    requires
        unique_keys(s),
        0 <= i < s.len(),
    ensures
        entries_map(s.update(i, (s[i].0, v))) == entries_map(s).insert(s[i].0, v),
    decreases s.len(),
{
    let k = s[i].0;
    let t = s.update(i, (k, v));
    if i == s.len() - 1 {
        assert(t.drop_last() =~= s.drop_last());
        assert(entries_map(t) =~= entries_map(s).insert(k, v));
    } else {
        let p = s.drop_last();
        assert(t.drop_last() =~= p.update(i, (k, v)));
        lemma_unique_update(p, i, v);
        assert(s.last().0 != k);
        assert(entries_map(t) =~= entries_map(s).insert(k, v));
    }
}



} // verus!
