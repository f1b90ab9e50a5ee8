use vstd::prelude::*;

verus! {

// ---------------------------------------------------------------------------
// Association lists as finite maps. The stores keep their entries in vectors
// with pairwise-distinct keys; these lemmas connect such a list to the
// `Map` that the storage contracts speak of.
// ---------------------------------------------------------------------------

/// The keys of an association list are pairwise distinct.
pub open spec fn keys_unique<K, V>(s: Seq<(K, V)>) -> bool {
    forall|i: int, j: int| 0 <= i < j < s.len() ==> (#[trigger] s[i]).0 != (#[trigger] s[j]).0
}

/// The finite map described by an association list; later entries win.
pub open spec fn assoc_map<K, V>(s: Seq<(K, V)>) -> Map<K, V>
    decreases s.len(),
{
    if s.len() == 0 {
        Map::empty()
    } else {
        assoc_map(s.drop_last()).insert(s.last().0, s.last().1)
    }
}

/// `m` with every entry holding the value `v` removed.
pub open spec fn drop_value<K, V>(m: Map<K, V>, v: V) -> Map<K, V> {
    Map::new(|k: K| m.contains_key(k) && m[k] != v, |k: K| m[k])
}

/// The entries whose value is not `v`, in order.
pub open spec fn keep_not_value<K, V>(s: Seq<(K, V)>, v: V) -> Seq<(K, V)>
    decreases s.len(),
{
    if s.len() == 0 {
        Seq::empty()
    } else if s[0].1 != v {
        seq![s[0]] + keep_not_value(s.drop_first(), v)
    } else {
        keep_not_value(s.drop_first(), v)
    }
}

/// A key is in the map exactly when some entry carries it.
pub proof fn lemma_assoc_map_key<K, V>(s: Seq<(K, V)>, k: K)
    ensures
        assoc_map(s).contains_key(k) <==> (exists|i: int|
            0 <= i < s.len() && (#[trigger] s[i]).0 == k),
    decreases s.len(),
{
    if s.len() == 0 {
    } else {
        lemma_assoc_map_key(s.drop_last(), k);
        let n = s.len() - 1;
        if assoc_map(s).contains_key(k) {
            if s[n].0 == k {
                assert(0 <= n < s.len() && s[n].0 == k);
            } else {
                assert(assoc_map(s.drop_last()).contains_key(k));
                let dl = s.drop_last();
                let i = choose|i: int| 0 <= i < dl.len() && (#[trigger] dl[i]).0 == k;
                assert(s[i].0 == k);
            }
        }
        if exists|i: int| 0 <= i < s.len() && (#[trigger] s[i]).0 == k {
            let i = choose|i: int| 0 <= i < s.len() && (#[trigger] s[i]).0 == k;
            if i == n {
                assert(assoc_map(s).contains_key(k));
            } else {
                assert(s.drop_last()[i].0 == k);
                assert(assoc_map(s.drop_last()).contains_key(k));
            }
        }
    }
}

/// With distinct keys, each entry is exactly what the map holds at its key.
pub proof fn lemma_assoc_map_value<K, V>(s: Seq<(K, V)>, i: int)
    requires
        keys_unique(s),
        0 <= i < s.len(),
    ensures
        assoc_map(s).contains_key(s[i].0),
        assoc_map(s)[s[i].0] == s[i].1,
    decreases s.len(),
{
    let n = s.len() - 1;
    if i == n {
    } else {
        assert(keys_unique(s.drop_last())) by {
            assert(forall|a: int, b: int|
                0 <= a < b < s.drop_last().len() ==> (#[trigger] s.drop_last()[a]).0 != (
                #[trigger] s.drop_last()[b]).0);
        }
        lemma_assoc_map_value(s.drop_last(), i);
        assert(s[n].0 != s[i].0);
    }
}

/// Appending one entry inserts its binding.
pub proof fn lemma_assoc_map_push<K, V>(s: Seq<(K, V)>, p: (K, V))
    ensures
        assoc_map(s.push(p)) == assoc_map(s).insert(p.0, p.1),
{
    assert(s.push(p).drop_last() =~= s);
    assert(s.push(p).last() == p);
}

/// Removing the entry at `i` removes its key from the map.
pub proof fn lemma_assoc_map_remove<K, V>(s: Seq<(K, V)>, i: int)
    requires
        keys_unique(s),
        0 <= i < s.len(),
    ensures
        assoc_map(s.remove(i)) =~= assoc_map(s).remove(s[i].0),
        keys_unique(s.remove(i)),
    decreases s.len(),
{
    let n = s.len() - 1;
    assert(keys_unique(s.drop_last())) by {
        assert(forall|a: int, b: int|
            0 <= a < b < s.drop_last().len() ==> (#[trigger] s.drop_last()[a]).0 != (
            #[trigger] s.drop_last()[b]).0);
    }
    assert(keys_unique(s.remove(i))) by {
        assert(forall|a: int|
            0 <= a < s.remove(i).len() ==> #[trigger] s.remove(i)[a] == if a < i {
                s[a]
            } else {
                s[a + 1]
            });
    }
    if i == n {
        assert(s.remove(i) =~= s.drop_last());
        lemma_assoc_map_key(s.drop_last(), s[i].0);
        assert(!assoc_map(s.drop_last()).contains_key(s[i].0)) by {
            if assoc_map(s.drop_last()).contains_key(s[i].0) {
                let j = choose|j: int|
                    0 <= j < s.drop_last().len() && (#[trigger] s.drop_last()[j]).0 == s[i].0;
                assert(s[j].0 == s[i].0);
                assert(false);
            }
        }
    } else {
        let dl = s.drop_last();
        lemma_assoc_map_remove(dl, i);
        assert(s.remove(i) =~= dl.remove(i).push(s[n]));
        lemma_assoc_map_push(dl.remove(i), s[n]);
        assert(dl[i] == s[i]);
        assert(s[n].0 != s[i].0);
        assert(assoc_map(dl).remove(s[i].0).insert(s[n].0, s[n].1) =~= assoc_map(dl).insert(
            s[n].0,
            s[n].1,
        ).remove(s[i].0));
    }
}

/// With distinct keys, the map has exactly one entry per list element.
pub proof fn lemma_assoc_map_len<K, V>(s: Seq<(K, V)>)
    requires
        keys_unique(s),
    ensures
        assoc_map(s).dom().finite(),
        assoc_map(s).dom().len() == s.len(),
    decreases s.len(),
{
    if s.len() == 0 {
        assert(assoc_map(s).dom() =~= Set::<K>::empty());
    } else {
        let dl = s.drop_last();
        assert(keys_unique(dl)) by {
            assert(forall|a: int, b: int|
                0 <= a < b < dl.len() ==> (#[trigger] dl[a]).0 != (#[trigger] dl[b]).0);
        }
        lemma_assoc_map_len(dl);
        lemma_assoc_map_key(dl, s.last().0);
        assert(!assoc_map(dl).contains_key(s.last().0)) by {
            if assoc_map(dl).contains_key(s.last().0) {
                let j = choose|j: int| 0 <= j < dl.len() && (#[trigger] dl[j]).0 == s.last().0;
                assert(s[j].0 == s.last().0);
                assert(false);
            }
        }
        assert(assoc_map(s).dom() =~= assoc_map(dl).dom().insert(s.last().0));
    }
}

/// An element sits in the kept entries exactly when it sits in the original
/// with a value other than `v`; distinct keys stay distinct.
pub proof fn lemma_keep_not_value_elements<K, V>(s: Seq<(K, V)>, v: V)
    ensures
        forall|p: (K, V)| #[trigger]
            keep_not_value(s, v).contains(p) <==> s.contains(p) && p.1 != v,
        keys_unique(s) ==> keys_unique(keep_not_value(s, v)),
    decreases s.len(), 1int,
{
    let kept = keep_not_value(s, v);
    if s.len() == 0 {
        assert(forall|p: (K, V)| !(#[trigger] kept.contains(p)));
        assert(forall|p: (K, V)| !(#[trigger] s.contains(p)));
    } else {
        let rest = s.drop_first();
        lemma_keep_not_value_elements(rest, v);
        let krest = keep_not_value(rest, v);
        assert forall|p: (K, V)| #[trigger]
            kept.contains(p) <==> s.contains(p) && p.1 != v by {
            if kept.contains(p) {
                if s[0].1 != v {
                    let j = choose|j: int| 0 <= j < kept.len() && kept[j] == p;
                    if j == 0 {
                        assert(p == s[0]);
                        assert(s.contains(p));
                    } else {
                        assert(kept[j] == krest[j - 1]);
                        assert(krest.contains(p));
                        let t = choose|t: int| 0 <= t < rest.len() && rest[t] == p;
                        assert(s[t + 1] == p);
                        assert(s.contains(p));
                    }
                } else {
                    assert(krest.contains(p));
                    let t = choose|t: int| 0 <= t < rest.len() && rest[t] == p;
                    assert(s[t + 1] == p);
                    assert(s.contains(p));
                }
            }
            if s.contains(p) && p.1 != v {
                let j = choose|j: int| 0 <= j < s.len() && s[j] == p;
                if j == 0 {
                    assert(s[0].1 != v);
                    assert(kept[0] == p);
                    assert(kept.contains(p));
                } else {
                    assert(rest[j - 1] == p);
                    assert(rest.contains(p));
                    assert(krest.contains(p));
                    let t = choose|t: int| 0 <= t < krest.len() && krest[t] == p;
                    if s[0].1 != v {
                        assert(kept[t + 1] == p);
                        assert(kept.contains(p));
                    } else {
                        assert(kept.contains(p));
                    }
                }
            }
        }
        if keys_unique(s) {
            assert(keys_unique(kept)) by {
                assert forall|a: int, b: int|
                    0 <= a < b < kept.len() implies (#[trigger] kept[a]).0 != (
                #[trigger] kept[b]).0 by {
                    assert(kept.contains(kept[a]));
                    assert(kept.contains(kept[b]));
                    let ia = choose|t: int| 0 <= t < s.len() && s[t] == kept[a];
                    let ib = choose|t: int| 0 <= t < s.len() && s[t] == kept[b];
                    if ia == ib {
                        assert(kept[a] == kept[b]);
                        lemma_keep_distinct_positions(s, v, a, b);
                        assert(false);
                    }
                }
            }
        }
    }
}

/// Two distinct positions of the kept entries cannot hold equal pairs when
/// the original keys are distinct.
proof fn lemma_keep_distinct_positions<K, V>(s: Seq<(K, V)>, v: V, a: int, b: int)
    requires
        keys_unique(s),
        0 <= a < b < keep_not_value(s, v).len(),
    ensures
        keep_not_value(s, v)[a] != keep_not_value(s, v)[b],
    decreases s.len(), 0int,
{
    let kept = keep_not_value(s, v);
    let rest = s.drop_first();
    assert(keys_unique(rest)) by {
        assert(forall|x: int, y: int|
            0 <= x < y < rest.len() ==> (#[trigger] rest[x]).0 != (#[trigger] rest[y]).0);
    }
    if s[0].1 != v {
        if a == 0 {
            // kept[b] comes from rest, whose keys all differ from s[0].0
            let krest = keep_not_value(rest, v);
            assert(kept[b] == krest[b - 1]);
            lemma_keep_not_value_elements(rest, v);
            assert(krest.contains(krest[b - 1]));
            assert(rest.contains(krest[b - 1]));
            let t = choose|t: int| 0 <= t < rest.len() && rest[t] == krest[b - 1];
            assert(s[t + 1] == krest[b - 1]);
            assert(s[0].0 != s[t + 1].0);
        } else {
            lemma_keep_distinct_positions(rest, v, a - 1, b - 1);
        }
    } else {
        lemma_keep_distinct_positions(rest, v, a, b);
    }
}

/// Keeping the entries whose value is not `v` computes `drop_value` of the
/// described map.
pub proof fn lemma_assoc_map_keep_not_value<K, V>(s: Seq<(K, V)>, v: V)
    requires
        keys_unique(s),
    ensures
        keys_unique(keep_not_value(s, v)),
        assoc_map(keep_not_value(s, v)) =~= drop_value(assoc_map(s), v),
    decreases s.len(),
{
    let kept = keep_not_value(s, v);
    lemma_keep_not_value_elements(s, v);
    assert forall|k: K|
        assoc_map(kept).contains_key(k) <==> (assoc_map(s).contains_key(k) && assoc_map(s)[k]
            != v) by {
        lemma_assoc_map_key(kept, k);
        lemma_assoc_map_key(s, k);
        if assoc_map(kept).contains_key(k) {
            let i = choose|i: int| 0 <= i < kept.len() && (#[trigger] kept[i]).0 == k;
            assert(kept.contains(kept[i]));
            assert(s.contains(kept[i]) && kept[i].1 != v);
            let t = choose|t: int| 0 <= t < s.len() && s[t] == kept[i];
            lemma_assoc_map_value(s, t);
        }
        if assoc_map(s).contains_key(k) && assoc_map(s)[k] != v {
            let i = choose|i: int| 0 <= i < s.len() && (#[trigger] s[i]).0 == k;
            lemma_assoc_map_value(s, i);
            assert(s[i].1 == assoc_map(s)[k]);
            assert(s.contains(s[i]));
            assert(kept.contains(s[i]));
            let t = choose|t: int| 0 <= t < kept.len() && kept[t] == s[i];
            assert(kept[t].0 == k);
        }
    }
    assert forall|k: K| #[trigger]
        assoc_map(kept).contains_key(k) implies assoc_map(kept)[k] == assoc_map(s)[k] by {
        lemma_assoc_map_key(kept, k);
        let i = choose|i: int| 0 <= i < kept.len() && (#[trigger] kept[i]).0 == k;
        lemma_assoc_map_value(kept, i);
        assert(kept.contains(kept[i]));
        assert(s.contains(kept[i]));
        let t = choose|t: int| 0 <= t < s.len() && s[t] == kept[i];
        lemma_assoc_map_value(s, t);
    }
}

} // verus!
