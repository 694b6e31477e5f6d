//! Association sequences: the mathematical model behind the header
//! mapping and the per-method route tables. Entries are kept in
//! insertion order; a later entry overrides an earlier one with the
//! same key (last wins).
use vstd::prelude::*;

verus! {

broadcast use vstd::seq::group_seq_axioms;

/// The mapping that an association sequence stands for: later entries
/// override earlier ones with the same key.
pub open spec fn assoc_map<V>(s: Seq<(Seq<char>, V)>) -> Map<Seq<char>, V>
    decreases s.len(),
{
    if s.len() == 0 {
        Map::empty()
    } else {
        assoc_map(s.drop_last()).insert(s.last().0, s.last().1)
    }
}

/// Appending an entry updates the mapping at exactly its key.
pub proof fn lemma_assoc_map_push<V>(s: Seq<(Seq<char>, V)>, k: Seq<char>, v: V)
    ensures
        assoc_map(s.push((k, v))) == assoc_map(s).insert(k, v),
{
    assert(s.push((k, v)).drop_last() =~= s);
    assert(s.push((k, v)).last() == (k, v));
}

/// One step of the prefix mapping: taking one more entry updates the
/// mapping of the shorter prefix at that entry's key.
pub proof fn lemma_assoc_map_take_step<V>(s: Seq<(Seq<char>, V)>, m: int)
    requires
        1 <= m <= s.len(),
    ensures
        assoc_map(s.take(m)) == assoc_map(s.take(m - 1)).insert(s[m - 1].0, s[m - 1].1),
{
    assert(s.take(m).drop_last() =~= s.take(m - 1));
    assert(s.take(m).last() == s[m - 1]);
}

/// A key that occurs nowhere at or after position `i` is settled by the
/// prefix before `i`.
pub proof fn lemma_assoc_map_prefix<V>(s: Seq<(Seq<char>, V)>, i: int, k: Seq<char>)
    requires
        0 <= i <= s.len(),
        forall|j: int| i <= j < s.len() ==> s[j].0 != k,
    ensures
        assoc_map(s).contains_key(k) == assoc_map(s.take(i)).contains_key(k),
        assoc_map(s).contains_key(k) ==> assoc_map(s)[k] == assoc_map(s.take(i))[k],
    decreases s.len() - i,
{
    if i == s.len() {
        assert(s.take(i) =~= s);
    } else {
        let t = s.drop_last();
        assert(s.last().0 != k);
        assert(t.take(i) =~= s.take(i));
        assert(forall|j: int| i <= j < t.len() ==> t[j] == s[j]);
        lemma_assoc_map_prefix(t, i, k);
    }
}

} // verus!
