use crate::model::{distinct_keys, empty_map, seq_to_map};
use crate::random_state::{sip13_of, RandomState};
use vstd::prelude::*;

verus! {

/// The open-addressing table engine: hashbrown's `HashTable`, holding
/// (key, value) pairs. Verus sees it only through the names `table_entries`
/// and `table_seed` and the trusted operations below; every operation probes
/// with the SipHash-1-3 digest of the key under one fixed key pair, so the
/// engine's own guarantees (each key stored at most once, found again under
/// the hash it was stored with) hold throughout.
#[verifier::external_body]
pub struct Table {
    inner: hashbrown::HashTable<(u64, u64)>,
}

/// Names the entries the table holds, as a map from key to value.
pub uninterp spec fn table_entries(t: Table) -> Map<u64, u64>;

/// Names the key pair under which every entry of the table was hashed.
pub uninterp spec fn table_seed(t: Table) -> (u64, u64);

/// Relies on hashbrown::HashTable::new: an empty table, which allocates
/// nothing until the first insertion. The factory passed in fixes the key
/// pair every later operation on this table must hash with.
#[verifier::external_body]
pub(crate) fn table_new(state: &RandomState) -> (res: Table)
    ensures
        table_entries(res) == empty_map(),
        table_seed(res) == state.keys(),
{
    let _ = state;
    Table { inner: hashbrown::HashTable::new() }
}

/// Relies on hashbrown::HashTable::find_mut: probing with `hash`, it finds
/// the entry whose key equals `key` exactly when one is present, since every
/// entry was stored under the digest of its key. If found, the value is
/// replaced and the previous value returned; the table is otherwise
/// unchanged.
#[verifier::external_body]
pub(crate) fn table_replace(t: &mut Table, hash: u64, key: u64, value: u64) -> (r: Option<u64>)
    requires
        hash == sip13_of(table_seed(*old(t)).0, table_seed(*old(t)).1, key),
    ensures
        table_seed(*final(t)) == table_seed(*old(t)),
        table_entries(*old(t)).dom().contains(key) ==> {
            &&& table_entries(*final(t)) == table_entries(*old(t)).insert(key, value)
            &&& r == Some(table_entries(*old(t))[key])
        },
        !table_entries(*old(t)).dom().contains(key) ==> {
            &&& table_entries(*final(t)) == table_entries(*old(t))
            &&& r is None
        },
{
    match t.inner.find_mut(hash, |e| e.0 == key) {
        Some(e) => {
            let prev = e.1;
            e.1 = value;
            Some(prev)
        },
        None => None,
    }
}

/// Relies on hashbrown::HashTable::insert_unique: adds one entry under
/// `hash`; when growth relocates entries, each is re-hashed through the
/// closure, which recomputes the keyed digest of its key, so the table's
/// hashing discipline is preserved.
#[verifier::external_body]
pub(crate) fn table_insert_new(
    t: &mut Table,
    state: &RandomState,
    hash: u64,
    key: u64,
    value: u64,
)
    requires
        table_seed(*old(t)) == state.keys(),
        hash == sip13_of(state.keys().0, state.keys().1, key),
        !table_entries(*old(t)).dom().contains(key),
    ensures
        table_seed(*final(t)) == table_seed(*old(t)),
        table_entries(*final(t)) == table_entries(*old(t)).insert(key, value),
{
    t.inner.insert_unique(hash, (key, value), |e| state.hash_one(e.0));
}

/// Relies on hashbrown::HashTable::iter: visits every entry exactly once, in
/// an unspecified order, each copied out as a plain pair. The sequence
/// therefore lists each stored key once, describes exactly the stored
/// entries, and is as long as the table.
#[verifier::external_body]
pub(crate) fn table_items(t: &Table) -> (r: Vec<(u64, u64)>)
    ensures
        distinct_keys(r@),
        seq_to_map(r@) == table_entries(*t),
        r@.len() == table_entries(*t).dom().len(),
{
    t.inner.iter().map(|e| (e.0, e.1)).collect()
}

} // verus!
