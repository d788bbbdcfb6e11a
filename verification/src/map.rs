use crate::model::{distinct_keys, seq_to_map};
use crate::random_state::RandomState;
use crate::table::{
    table_entries, table_insert_new, table_items, table_new, table_replace, table_seed, Table,
};
use vstd::prelude::*;

verus! {

/// A map from keys to values that owns one table and one hasher factory.
/// Its abstract value (the view `@`) is the mathematical map of its entries;
/// `insert` is the only mutation, and iteration reads a snapshot of the
/// entries.
pub struct HashMap {
    table: Table,
    state: RandomState,
}

impl View for HashMap {
    type V = Map<u64, u64>;

    /// The entries, as a mathematical map from key to value.
    closed spec fn view(&self) -> Map<u64, u64> {
        table_entries(self.table)
    }
}

impl HashMap {
    /// Every entry of the table was hashed under this map's own key pair,
    /// and the entry set is finite. Constructors establish this and `insert`
    /// preserves it.
    pub closed spec fn well_formed(&self) -> bool {
        &&& table_seed(self.table) == self.state.keys()
        &&& table_entries(self.table).dom().finite()
    }

    /// The key pair of this map's hasher factory.
    pub closed spec fn seed(&self) -> (u64, u64) {
        self.state.keys()
    }

    /// An empty map that hashes with the given factory; no entropy is drawn,
    /// so a factory with explicit keys gives a reproducible map.
    pub fn with_hasher(hash_builder: RandomState) -> (m: Self)
        ensures
            m.well_formed(),
            m@ == Map::<u64, u64>::empty(),
            m.seed() == hash_builder.keys(),
    {
        let table = table_new(&hash_builder);
        HashMap { table, state: hash_builder }
    }

    /// An empty map with a fresh random factory: exactly one entropy draw,
    /// at construction time.
    pub fn new() -> (m: Self)
        ensures
            m.well_formed(),
            m@ == Map::<u64, u64>::empty(),
    {
        Self::with_hasher(RandomState::new())
    }

    /// Inserts `k` with value `v`. If `k` was absent, returns `None` and the
    /// entry count grows by exactly one; if `k` was present, returns its old
    /// value and the entry count is unchanged. Either way the map afterwards
    /// holds `v` under `k` and every other entry as before.
    pub fn insert(&mut self, k: u64, v: u64) -> (r: Option<u64>)
        requires
            old(self).well_formed(),
        ensures
            final(self).well_formed(),
            final(self).seed() == old(self).seed(),
            final(self)@ == old(self)@.insert(k, v),
            r == (if old(self)@.dom().contains(k) {
                Some(old(self)@[k])
            } else {
                None::<u64>
            }),
            old(self)@.dom().contains(k) ==> final(self)@.dom().len() == old(self)@.dom().len(),
            !old(self)@.dom().contains(k) ==> final(self)@.dom().len() == old(self)@.dom().len()
                + 1,
    {
        let hash = self.state.hash_one(k);
        let found = table_replace(&mut self.table, hash, k, v);
        let r = match found {
            Some(prev) => Some(prev),
            None => {
                table_insert_new(&mut self.table, &self.state, hash, k, v);
                None
            },
        };
        proof {
            broadcast use vstd::set::group_set_axioms;
            broadcast use vstd::map::group_map_axioms;

            if old(self)@.dom().contains(k) {
                assert(old(self)@.insert(k, v).dom() =~= old(self)@.dom());
            } else {
                assert(old(self)@.insert(k, v).dom() =~= old(self)@.dom().insert(k));
            }
        }
        r
    }

    /// A cursor over a snapshot of the current entries: each entry appears
    /// exactly once, in an unspecified order, and the cursor is as long as
    /// the map's entry count.
    pub fn iter(&self) -> (it: Iter)
        requires
            self.well_formed(),
        ensures
            distinct_keys(it.remaining()),
            seq_to_map(it.remaining()) == self@,
            it.remaining().len() == self@.dom().len(),
    {
        let it = Iter { entries: table_items(&self.table), pos: 0 };
        proof {
            assert(it.remaining() =~= it.entries@);
        }
        it
    }
}

impl Default for HashMap {
    /// An empty map with a fresh random factory, as `HashMap::new`.
    fn default() -> (m: Self)
        ensures
            m.well_formed(),
            m@ == Map::<u64, u64>::empty(),
    {
        HashMap::new()
    }
}

/// Two cursors over equal entry sets carry the same multiset of pairs,
/// whatever order each traversal takes; and that multiset is exactly the
/// entry set: each (key, value) entry once, and nothing else.
pub proof fn lemma_traversals_carry_the_entries(it1: Iter, it2: Iter, m: Map<u64, u64>)
    requires
        distinct_keys(it1.remaining()),
        distinct_keys(it2.remaining()),
        seq_to_map(it1.remaining()) == m,
        seq_to_map(it2.remaining()) == m,
    ensures
        it1.remaining().to_multiset() == it2.remaining().to_multiset(),
        forall|k: u64, v: u64|
            #[trigger] it1.remaining().to_multiset().count((k, v)) == (if m.dom().contains(k)
                && m[k] == v {
                1nat
            } else {
                0nat
            }),
{
    crate::model::lemma_same_entries_same_multiset(it1.remaining(), it2.remaining());
    crate::model::lemma_multiset_matches_entries(it1.remaining());
}

/// `r` can result from folding `f` over the pairs of `s` in order, starting
/// from `init`: some chain of intermediate accumulators obeys `f`'s
/// postcondition at every step.
pub open spec fn fold_chain<B, F: Fn(B, (u64, u64)) -> B>(
    f: F,
    s: Seq<(u64, u64)>,
    init: B,
    r: B,
) -> bool
    decreases s.len(),
{
    if s.len() == 0 {
        r == init
    } else {
        exists|mid: B| #[trigger] call_ensures(f, (init, s[0]), mid) && fold_chain(
            f,
            s.skip(1),
            mid,
            r,
        )
    }
}

/// Extending a fold chain by one step at its end.
proof fn lemma_fold_chain_snoc<B, F: Fn(B, (u64, u64)) -> B>(
    f: F,
    s: Seq<(u64, u64)>,
    init: B,
    mid: B,
    x: (u64, u64),
    out: B,
)
    requires
        fold_chain(f, s, init, mid),
        call_ensures(f, (mid, x), out),
    ensures
        fold_chain(f, s.push(x), init, out),
    decreases s.len(),
{
    if s.len() == 0 {
        assert(s.push(x)[0] == x);
        assert(s.push(x).skip(1) =~= Seq::<(u64, u64)>::empty());
        assert(fold_chain(f, s.push(x).skip(1), out, out));
    } else {
        let m0 = choose|m: B| #[trigger] call_ensures(f, (init, s[0]), m) && fold_chain(
            f,
            s.skip(1),
            m,
            mid,
        );
        lemma_fold_chain_snoc(f, s.skip(1), m0, mid, x, out);
        assert(s.push(x)[0] == s[0]);
        assert(s.push(x).skip(1) =~= s.skip(1).push(x));
    }
}

/// A single-pass cursor over the (key, value) pairs a map held when the
/// cursor was made. It owns a snapshot, so later mutation of the map cannot
/// disturb it; duplicating it gives an independent cursor at the same
/// position.
#[derive(Debug)]
pub struct Iter {
    entries: Vec<(u64, u64)>,
    pos: usize,
}

impl Iter {
    #[verifier::type_invariant]
    spec fn wf(self) -> bool {
        self.pos <= self.entries@.len()
    }

    /// The pairs not yet produced, in the order they will come.
    pub closed spec fn remaining(&self) -> Seq<(u64, u64)> {
        self.entries@.skip(self.pos as int)
    }

    /// Produces the next pair, or `None` once exhausted; exhaustion is
    /// final.
    pub fn next(&mut self) -> (r: Option<(u64, u64)>)
        ensures
            old(self).remaining().len() == 0 ==> {
                &&& r is None
                &&& final(self).remaining() == old(self).remaining()
            },
            old(self).remaining().len() > 0 ==> {
                &&& r == Some(old(self).remaining()[0])
                &&& final(self).remaining() == old(self).remaining().skip(1)
            },
    {
        proof {
            use_type_invariant(&*self);
        }
        if self.pos < self.entries.len() {
            let e = self.entries[self.pos];
            self.pos = self.pos + 1;
            proof {
                assert(old(self).remaining()[0] == self.entries@[old(self).pos as int]);
                assert(final(self).remaining() =~= old(self).remaining().skip(1));
            }
            Some(e)
        } else {
            None
        }
    }

    /// Lower and upper bound on the number of pairs still to come; both
    /// equal the exact remaining count, with no traversal.
    pub fn size_hint(&self) -> (r: (usize, Option<usize>))
        ensures
            r.0 == self.remaining().len(),
            r.1 == Some(r.0),
    {
        proof {
            use_type_invariant(&*self);
        }
        let n = self.entries.len() - self.pos;
        (n, Some(n))
    }

    /// Folds the combining function `f` over every remaining pair in
    /// traversal order, starting from `init`, and consumes the cursor. The
    /// result is reachable from `init` by a chain of accumulators that obeys
    /// `f`'s postcondition at every step.
    pub fn fold<B, F: Fn(B, (u64, u64)) -> B>(self, init: B, f: F) -> (r: B)
        requires
            forall|b: B, x: (u64, u64)| #[trigger] f.requires((b, x)),
        ensures
            fold_chain(f, self.remaining(), init, r),
    {
        proof {
            use_type_invariant(&self);
        }
        let Iter { entries, pos } = self;
        let mut acc = init;
        let mut i: usize = pos;
        while i < entries.len()
            invariant
                pos <= i <= entries@.len(),
                forall|b: B, x: (u64, u64)| #[trigger] f.requires((b, x)),
                fold_chain(f, entries@.subrange(pos as int, i as int), init, acc),
            decreases entries@.len() - i,
        {
            let e = entries[i];
            let next_acc = f(acc, e);
            proof {
                lemma_fold_chain_snoc(
                    f,
                    entries@.subrange(pos as int, i as int),
                    init,
                    acc,
                    e,
                    next_acc,
                );
                assert(entries@.subrange(pos as int, i as int).push(entries@[i as int])
                    =~= entries@.subrange(pos as int, i as int + 1));
            }
            acc = next_acc;
            i = i + 1;
        }
        proof {
            assert(entries@.subrange(pos as int, entries@.len() as int)
                =~= entries@.skip(pos as int));
        }
        acc
    }

    /// The pairs still to come, in traversal order, without consuming or
    /// advancing the cursor: a rendering of a duplicate.
    pub fn peek_remaining(&self) -> (v: Vec<(u64, u64)>)
        ensures
            v@ == self.remaining(),
    {
        proof {
            use_type_invariant(&*self);
        }
        let mut v: Vec<(u64, u64)> = Vec::new();
        let mut i: usize = self.pos;
        while i < self.entries.len()
            invariant
                self.pos <= i <= self.entries@.len(),
                v@ == self.entries@.subrange(self.pos as int, i as int),
            decreases self.entries@.len() - i,
        {
            let e = self.entries[i];
            v.push(e);
            proof {
                assert(self.entries@.subrange(self.pos as int, i as int).push(
                    self.entries@[i as int],
                ) =~= self.entries@.subrange(self.pos as int, i as int + 1));
            }
            i = i + 1;
        }
        proof {
            assert(self.entries@.subrange(self.pos as int, self.entries@.len() as int)
                =~= self.remaining());
        }
        v
    }

    /// The number of pairs still to come; consumes the cursor.
    pub fn count(self) -> (n: usize)
        ensures
            n == self.remaining().len(),
    {
        proof {
            use_type_invariant(&self);
        }
        self.entries.len() - self.pos
    }
}

impl Clone for Iter {
    /// An independent cursor over the same pairs, at the same position;
    /// advancing either cursor leaves the other one's remaining pairs
    /// untouched, since each owns its snapshot.
    fn clone(&self) -> (r: Self)
        ensures
            r.remaining() == self.remaining(),
    {
        proof {
            use_type_invariant(&*self);
        }
        Iter { entries: clone_entries(&self.entries), pos: self.pos }
    }
}

/// An element-by-element copy of a vector of pairs.
fn clone_entries(v: &Vec<(u64, u64)>) -> (r: Vec<(u64, u64)>)
    ensures
        r@ == v@,
{
    let mut r: Vec<(u64, u64)> = Vec::new();
    let mut i: usize = 0;
    while i < v.len()
        invariant
            i <= v@.len(),
            r@ == v@.take(i as int),
        decreases v@.len() - i,
    {
        let e = v[i];
        r.push(e);
        proof {
            assert(v@.take(i as int).push(v@[i as int]) =~= v@.take(i as int + 1));
        }
        i = i + 1;
    }
    proof {
        assert(v@.take(v@.len() as int) =~= v@);
    }
    r
}

impl Default for Iter {
    /// A cursor over nothing: it is already exhausted.
    fn default() -> (it: Self)
        ensures
            it.remaining().len() == 0,
    {
        Iter { entries: Vec::new(), pos: 0 }
    }
}

} // verus!
