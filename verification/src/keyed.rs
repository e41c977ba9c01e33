use vstd::prelude::*;

verus! {

/// The map that inserting the pairs of `s` one after the other builds: where
/// a key occurs twice, the later pair wins.
pub open spec fn last_wins<K, V>(s: Seq<(K, V)>) -> Map<K, V>
    decreases s.len(),
{
    if s.len() == 0 {
        Map::empty()
    } else {
        last_wins(s.drop_last()).insert(s.last().0, s.last().1)
    }
}

/// No key occurs twice in `s`.
pub open spec fn distinct_keys<K, V>(s: Seq<(K, V)>) -> bool {
    forall|i: int, j: int| 0 <= i < j < s.len() ==> s[i].0 != s[j].0
}

/// Appending a pair inserts it.
pub proof fn lemma_last_wins_push<K, V>(s: Seq<(K, V)>, p: (K, V))
    ensures
        last_wins(s.push(p)) == last_wins(s).insert(p.0, p.1),
{
    assert(s.push(p).drop_last() =~= s);
}

/// A key is in the map exactly when some pair carries it.
pub proof fn lemma_last_wins_dom<K, V>(s: Seq<(K, V)>, k: K)
    ensures
        last_wins(s).dom().contains(k) <==> exists|i: int| 0 <= i < s.len() && s[i].0 == k,
    decreases s.len(),
{
    if s.len() > 0 {
        let d = s.drop_last();
        lemma_last_wins_dom(d, k);
        if exists|i: int| 0 <= i < d.len() && d[i].0 == k {
            let i = choose|i: int| 0 <= i < d.len() && d[i].0 == k;
            assert(s[i] == d[i]);
        }
        if exists|i: int| 0 <= i < s.len() && s[i].0 == k {
            let i = choose|i: int| 0 <= i < s.len() && s[i].0 == k;
            if i < s.len() - 1 {
                assert(d[i] == s[i]);
            }
        }
    }
}

/// Dropping the last pair keeps the keys distinct.
pub proof fn lemma_distinct_drop_last<K, V>(s: Seq<(K, V)>)
    requires
        distinct_keys(s),
        s.len() > 0,
    ensures
        distinct_keys(s.drop_last()),
{
    assert forall|i: int, j: int| 0 <= i < j < s.drop_last().len() implies s.drop_last()[i].0
        != s.drop_last()[j].0 by {
        assert(s.drop_last()[i] == s[i]);
        assert(s.drop_last()[j] == s[j]);
    }
}

/// Among distinct keys, the value of the key of pair `j` is the value of pair `j`.
pub proof fn lemma_last_wins_at<K, V>(s: Seq<(K, V)>, j: int)
    requires
        distinct_keys(s),
        0 <= j < s.len(),
    ensures
        last_wins(s).dom().contains(s[j].0),
        last_wins(s)[s[j].0] == s[j].1,
    decreases s.len(),
{
    if j < s.len() - 1 {
        lemma_distinct_drop_last(s);
        assert(s.drop_last()[j] == s[j]);
        lemma_last_wins_at(s.drop_last(), j);
        assert(s[j].0 != s[s.len() - 1].0);
    }
}

/// Among distinct keys, replacing the value of pair `j` updates the map at its key.
pub proof fn lemma_last_wins_update<K, V>(s: Seq<(K, V)>, j: int, v: V)
    requires
        distinct_keys(s),
        0 <= j < s.len(),
    ensures
        last_wins(s.update(j, (s[j].0, v))) == last_wins(s).insert(s[j].0, v),
    decreases s.len(),
{
    let u = s.update(j, (s[j].0, v));
    if j < s.len() - 1 {
        lemma_distinct_drop_last(s);
        assert(u.drop_last() =~= s.drop_last().update(j, (s[j].0, v)));
        assert(s.drop_last()[j] == s[j]);
        lemma_last_wins_update(s.drop_last(), j, v);
        assert(s[j].0 != s[s.len() - 1].0);
        assert(last_wins(u) =~= last_wins(s).insert(s[j].0, v));
    } else {
        assert(u.drop_last() =~= s.drop_last());
        assert(last_wins(u) =~= last_wins(s).insert(s[j].0, v));
    }
}

/// Among distinct keys, removing pair `j` removes its key from the map.
pub proof fn lemma_last_wins_remove<K, V>(s: Seq<(K, V)>, j: int)
    requires
        distinct_keys(s),
        0 <= j < s.len(),
    ensures
        last_wins(s.remove(j)) == last_wins(s).remove(s[j].0),
    decreases s.len(),
{
    let r = s.remove(j);
    lemma_distinct_drop_last(s);
    if j < s.len() - 1 {
        assert(r.drop_last() =~= s.drop_last().remove(j));
        assert(r.last() == s.last());
        assert(s.drop_last()[j] == s[j]);
        lemma_last_wins_remove(s.drop_last(), j);
        assert(s[j].0 != s[s.len() - 1].0);
        assert(last_wins(r) =~= last_wins(s).remove(s[j].0));
    } else {
        assert(r =~= s.drop_last());
        lemma_last_wins_dom(s.drop_last(), s[j].0);
        if exists|i: int| 0 <= i < s.drop_last().len() && s.drop_last()[i].0 == s[j].0 {
            let i = choose|i: int| 0 <= i < s.drop_last().len() && s.drop_last()[i].0 == s[j].0;
            assert(s[i] == s.drop_last()[i]);
        }
        assert(last_wins(r) =~= last_wins(s).remove(s[j].0));
    }
}

/// Among distinct keys, the map has one key for each pair.
pub proof fn lemma_last_wins_len<K, V>(s: Seq<(K, V)>)
    requires
        distinct_keys(s),
    ensures
        last_wins(s).dom().finite(),
        last_wins(s).dom().len() == s.len(),
    decreases s.len(),
{
    if s.len() > 0 {
        lemma_distinct_drop_last(s);
        lemma_last_wins_len(s.drop_last());
        lemma_last_wins_dom(s.drop_last(), s.last().0);
        if exists|i: int| 0 <= i < s.drop_last().len() && s.drop_last()[i].0 == s.last().0 {
            let i = choose|i: int| 0 <= i < s.drop_last().len() && s.drop_last()[i].0 == s.last().0;
            assert(s[i] == s.drop_last()[i]);
        }
    }
}

} // verus!
