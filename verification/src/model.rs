use vstd::prelude::*;

verus! {

/// The map with no entries.
pub open spec fn empty_map() -> Map<u64, u64> {
    Map::empty()
}

/// No key occurs twice in `s`.
pub open spec fn distinct_keys(s: Seq<(u64, u64)>) -> bool {
    forall|i: int, j: int|
        0 <= i < j < s.len() ==> (#[trigger] s[i]).0 != (#[trigger] s[j]).0
}

/// The map that a sequence of (key, value) pairs describes, a later pair for
/// a key overriding an earlier one.
pub open spec fn seq_to_map(s: Seq<(u64, u64)>) -> Map<u64, u64>
    decreases s.len(),
{
    if s.len() == 0 {
        Map::empty()
    } else {
        seq_to_map(s.drop_last()).insert(s.last().0, s.last().1)
    }
}

/// The last key of a sequence with distinct keys is no key of the map the
/// earlier pairs describe.
proof fn lemma_last_key_fresh(s: Seq<(u64, u64)>)
    requires
        distinct_keys(s),
        s.len() > 0,
    ensures
        !seq_to_map(s.drop_last()).dom().contains(s.last().0),
    decreases s.len(),
{
    let s0 = s.drop_last();
    assert(distinct_keys(s0)) by {
        assert(forall|i: int| 0 <= i < s0.len() ==> s0[i] == s[i]);
    }
    lemma_seq_to_map_props(s0);
    if seq_to_map(s0).dom().contains(s.last().0) {
        let i = choose|i: int|
            0 <= i < s0.len() && (#[trigger] s0[i]) == (
                s.last().0,
                seq_to_map(s0)[s.last().0],
            );
        assert(s[i].0 == s[s.len() - 1].0);
        assert(false);
    }
}

/// What `seq_to_map` yields for a sequence with distinct keys: a finite map
/// with one entry per pair, holding exactly the sequence's pairs.
pub proof fn lemma_seq_to_map_props(s: Seq<(u64, u64)>)
    requires
        distinct_keys(s),
    ensures
        seq_to_map(s).dom().finite(),
        seq_to_map(s).dom().len() == s.len(),
        forall|i: int|
            0 <= i < s.len() ==> seq_to_map(s).dom().contains((#[trigger] s[i]).0)
                && seq_to_map(s)[s[i].0] == s[i].1,
        forall|k: u64|
            seq_to_map(s).dom().contains(k) ==> exists|i: int|
                0 <= i < s.len() && (#[trigger] s[i]) == (k, seq_to_map(s)[k]),
    decreases s.len(),
{
    broadcast use vstd::set::group_set_axioms;
    broadcast use vstd::map::group_map_axioms;

    if s.len() == 0 {
    } else {
        let s0 = s.drop_last();
        let x = s.last();
        assert(distinct_keys(s0)) by {
            assert(forall|i: int| 0 <= i < s0.len() ==> s0[i] == s[i]);
        }
        lemma_seq_to_map_props(s0);
        assert(!seq_to_map(s0).dom().contains(x.0)) by {
            if seq_to_map(s0).dom().contains(x.0) {
                let i = choose|i: int|
                    0 <= i < s0.len() && (#[trigger] s0[i]) == (x.0, seq_to_map(s0)[x.0]);
                assert(s[i].0 == s[s.len() - 1].0);
                assert(false);
            }
        }
        assert(seq_to_map(s).dom() =~= seq_to_map(s0).dom().insert(x.0));
        assert forall|i: int|
            0 <= i < s.len() implies seq_to_map(s).dom().contains((#[trigger] s[i]).0)
            && seq_to_map(s)[s[i].0] == s[i].1 by {
            if i < s.len() - 1 {
                assert(s[i] == s0[i]);
                assert(s[i].0 != x.0);
            } else {
                assert(s[i] == x);
            }
        }
        assert forall|k: u64| seq_to_map(s).dom().contains(k) implies exists|i: int|
            0 <= i < s.len() && (#[trigger] s[i]) == (k, seq_to_map(s)[k]) by {
            if k == x.0 {
                assert(s[s.len() - 1] == (k, seq_to_map(s)[k]));
            } else {
                let i = choose|i: int|
                    0 <= i < s0.len() && (#[trigger] s0[i]) == (k, seq_to_map(s0)[k]);
                assert(s[i] == (k, seq_to_map(s)[k]));
            }
        }
    }
}

/// Removing the pair at index `j` from a distinct-key sequence removes
/// exactly its key from the described map.
pub proof fn lemma_seq_to_map_remove(s: Seq<(u64, u64)>, j: int)
    requires
        distinct_keys(s),
        0 <= j < s.len(),
    ensures
        distinct_keys(s.remove(j)),
        seq_to_map(s.remove(j)) == seq_to_map(s).remove(s[j].0),
    decreases s.len(),
{
    broadcast use vstd::set::group_set_axioms;
    broadcast use vstd::map::group_map_axioms;

    let s0 = s.drop_last();
    let x = s.last();
    assert(distinct_keys(s0)) by {
        assert(forall|i: int| 0 <= i < s0.len() ==> s0[i] == s[i]);
    }
    lemma_seq_to_map_props(s0);
    lemma_last_key_fresh(s);
    assert(distinct_keys(s.remove(j))) by {
        assert(forall|a: int|
            0 <= a < s.remove(j).len() ==> s.remove(j)[a] == (if a < j {
                s[a]
            } else {
                s[a + 1]
            }));
    }
    if j == s.len() - 1 {
        assert(s.remove(j) =~= s0);
        assert(seq_to_map(s0).insert(x.0, x.1).remove(x.0) =~= seq_to_map(s0));
    } else {
        lemma_seq_to_map_remove(s0, j);
        assert(s[j] == s0[j]);
        assert(s[j].0 != x.0);
        assert(s.remove(j).last() == x);
        assert(s.remove(j).drop_last() =~= s0.remove(j));
        assert(seq_to_map(s.remove(j))
            == seq_to_map(s0).remove(s[j].0).insert(x.0, x.1));
        assert(seq_to_map(s0).remove(s[j].0).insert(x.0, x.1)
            =~= seq_to_map(s0).insert(x.0, x.1).remove(s[j].0));
    }
}

/// The multiset of pairs a traversal with distinct keys carries is exactly
/// the entry set of the map it describes: each (key, value) entry once, and
/// nothing else.
pub proof fn lemma_multiset_matches_entries(s: Seq<(u64, u64)>)
    requires
        distinct_keys(s),
    ensures
        forall|k: u64, v: u64|
            #[trigger] s.to_multiset().count((k, v)) == (if seq_to_map(s).dom().contains(k)
                && seq_to_map(s)[k] == v {
                1nat
            } else {
                0nat
            }),
{
    broadcast use vstd::seq_lib::group_to_multiset_ensures;
    broadcast use vstd::multiset::group_multiset_axioms;

    lemma_seq_to_map_props(s);
    assert(s.no_duplicates()) by {
        assert forall|i: int, j: int|
            0 <= i < s.len() && 0 <= j < s.len() && i != j implies s[i] != s[j] by {
            if i < j {
                assert(s[i].0 != s[j].0);
            } else {
                assert(s[j].0 != s[i].0);
            }
        }
    }
    s.lemma_multiset_has_no_duplicates();
    assert forall|k: u64, v: u64|
        #[trigger] s.to_multiset().count((k, v)) == (if seq_to_map(s).dom().contains(k)
            && seq_to_map(s)[k] == v {
            1nat
        } else {
            0nat
        }) by {
        if seq_to_map(s).dom().contains(k) && seq_to_map(s)[k] == v {
            let i = choose|i: int|
                0 <= i < s.len() && (#[trigger] s[i]) == (k, seq_to_map(s)[k]);
            assert(s[i] == (k, v));
            assert(s.contains((k, v)));
            assert(s.to_multiset().count((k, v)) > 0);
        } else {
            if s.to_multiset().count((k, v)) > 0 {
                assert(s.contains((k, v)));
                let i = choose|i: int| 0 <= i < s.len() && (#[trigger] s[i]) == (k, v);
                assert(seq_to_map(s).dom().contains(k) && seq_to_map(s)[k] == v);
                assert(false);
            }
        }
    }
}

/// Sequences with distinct keys that describe the same map are permutations
/// of one another: any two traversal orders of one entry set carry the same
/// multiset of pairs, so what an iteration yields does not depend on its
/// order.
pub proof fn lemma_same_entries_same_multiset(s1: Seq<(u64, u64)>, s2: Seq<(u64, u64)>)
    requires
        distinct_keys(s1),
        distinct_keys(s2),
        seq_to_map(s1) == seq_to_map(s2),
    ensures
        s1.to_multiset() == s2.to_multiset(),
    decreases s1.len(),
{
    broadcast use vstd::seq_lib::group_to_multiset_ensures;
    broadcast use vstd::multiset::group_multiset_axioms;
    broadcast use vstd::set::group_set_axioms;
    broadcast use vstd::map::group_map_axioms;

    lemma_seq_to_map_props(s1);
    lemma_seq_to_map_props(s2);
    if s1.len() == 0 {
        assert(s2.len() == 0);
        assert(s1.to_multiset() =~= s2.to_multiset());
    } else {
        let x = s1.last();
        let n = s1.len() - 1;
        assert(s1[n] == x);
        assert(seq_to_map(s1).dom().contains(x.0) && seq_to_map(s1)[x.0] == x.1);
        let j = choose|i: int|
            0 <= i < s2.len() && (#[trigger] s2[i]) == (x.0, seq_to_map(s2)[x.0]);
        assert(s2[j] == x);
        let s1p = s1.remove(n);
        let s2p = s2.remove(j);
        lemma_seq_to_map_remove(s1, n);
        lemma_seq_to_map_remove(s2, j);
        lemma_same_entries_same_multiset(s1p, s2p);
        assert(s1p.to_multiset() =~= s1.to_multiset().remove(x));
        assert(s2p.to_multiset() =~= s2.to_multiset().remove(x));
        assert(s1.contains(x));
        assert(s2.contains(x));
        assert(s1.to_multiset().count(x) > 0);
        assert(s2.to_multiset().count(x) > 0);
        assert forall|y: (u64, u64)| s1.to_multiset().count(y) == s2.to_multiset().count(
            y,
        ) by {
            if y == x {
                assert(s1.to_multiset().remove(x).count(x) == s1.to_multiset().count(x) - 1);
                assert(s2.to_multiset().remove(x).count(x) == s2.to_multiset().count(x) - 1);
            } else {
                assert(s1.to_multiset().remove(x).count(y) == s1.to_multiset().count(y));
                assert(s2.to_multiset().remove(x).count(y) == s2.to_multiset().count(y));
            }
        }
        assert(s1.to_multiset() =~= s2.to_multiset());
    }
}

} // verus!
