use vstd::prelude::*;

verus! {

/// The map that a sequence of key/value pairs describes, a later pair for a
/// key taking the place of an earlier one.
pub open spec fn pairs_map<K, V>(s: Seq<(K, V)>) -> Map<K, V>
    decreases s.len(),
{
    if s.len() == 0 {
        Map::empty()
    } else {
        pairs_map(s.drop_last()).insert(s.last().0, s.last().1)
    }
}

/// No key occurs in two pairs.
pub open spec fn keys_unique<K, V>(s: Seq<(K, V)>) -> bool {
    forall|i: int, j: int| 0 <= i < j < s.len() ==> s[i].0 != s[j].0
}

/// Appending a pair inserts it into the map.
pub proof fn lemma_pairs_map_push<K, V>(s: Seq<(K, V)>, p: (K, V))
    ensures
        pairs_map(s.push(p)) == pairs_map(s).insert(p.0, p.1),
{
    assert(s.push(p).drop_last() =~= s);
}

/// A key is in the map exactly when some pair holds it; with unique keys,
/// the map gives each key the value of its pair.
pub proof fn lemma_pairs_map_lookup<K, V>(s: Seq<(K, V)>)
    ensures
        forall|k: K| #[trigger]
            pairs_map(s).contains_key(k) <==> exists|i: int| 0 <= i < s.len() && s[i].0 == k,
        keys_unique(s) ==> forall|i: int|
            0 <= i < s.len() ==> #[trigger] pairs_map(s)[s[i].0] == s[i].1,
    decreases s.len(),
{
    if s.len() > 0 {
        let t = s.drop_last();
        lemma_pairs_map_lookup(t);
        assert forall|k: K| #[trigger]
            pairs_map(s).contains_key(k) <==> exists|i: int| 0 <= i < s.len() && s[i].0 == k by {
            if pairs_map(s).contains_key(k) && k != s.last().0 {
                assert(pairs_map(t).contains_key(k));
                let i = choose|i: int| 0 <= i < t.len() && t[i].0 == k;
                assert(s[i].0 == k);
            }
            if exists|i: int| 0 <= i < s.len() && s[i].0 == k {
                let i = choose|i: int| 0 <= i < s.len() && s[i].0 == k;
                if i < t.len() {
                    assert(t[i].0 == k);
                    assert(pairs_map(t).contains_key(k));
                }
            }
        }
        if keys_unique(s) {
            assert(keys_unique(t));
            assert forall|i: int| 0 <= i < s.len() implies #[trigger] pairs_map(s)[s[i].0] == s[i].1 by {
                if i < t.len() {
                    assert(t[i] == s[i]);
                    assert(s[i].0 != s[s.len() - 1].0);
                    assert(pairs_map(t)[t[i].0] == t[i].1);
                }
            }
        }
    }
}

} // verus!
