use vstd::prelude::*;

verus! {

/// Names the digest that SipHash-1-3 assigns to the eight little-endian bytes
/// of `key` under the key pair `(k0, k1)`. The digest is a pure function of
/// those three arguments, the same in every process and on every machine.
pub uninterp spec fn sip13_of(k0: u64, k1: u64, key: u64) -> u64;

/// A hasher factory: it holds a pair of 64-bit keys, fixed at construction,
/// and every digest it hands out is keyed by that pair. A map built with a
/// fresh factory hashes unpredictably to anyone who does not know the pair.
pub struct RandomState {
    k0: u64,
    k1: u64,
}

impl RandomState {
    /// The pair of keys this factory was built with: `(k0, k1)`.
    pub closed spec fn keys(self) -> (u64, u64) {
        (self.k0, self.k1)
    }

    /// Splits a 128-bit seed into the factory's two keys: `k0` is the high
    /// half, `k1` the low half.
    pub fn from_seed(seed: u128) -> (s: Self)
        ensures
            s.keys() == (((seed >> 64) as u64), ((seed & 0xFFFF_FFFF_FFFF_FFFF) as u64)),
    {
        RandomState { k0: (seed >> 64) as u64, k1: (seed & 0xFFFF_FFFF_FFFF_FFFF) as u64 }
    }

    /// A factory with two explicit keys, for reproducible configurations:
    /// two factories built from equal keys digest every key identically.
    pub fn with_keys(k0: u64, k1: u64) -> (s: Self)
        ensures
            s.keys() == (k0, k1),
    {
        RandomState { k0, k1 }
    }

    /// A factory keyed by one fresh draw from the system entropy source.
    /// Entropy failure is fatal in the source itself; no fixed key is ever
    /// substituted.
    pub fn new() -> Self {
        Self::from_seed(entropy128())
    }

    /// The keyed digest of `key`: SipHash-1-3 over its little-endian bytes
    /// under this factory's key pair.
    pub fn hash_one(&self, key: u64) -> (h: u64)
        ensures
            h == sip13_of(self.keys().0, self.keys().1, key),
    {
        sip13_digest(self.k0, self.k1, key)
    }
}

impl Default for RandomState {
    /// Equivalent to `RandomState::new`: one fresh entropy draw.
    fn default() -> Self {
        RandomState::new()
    }
}

/// Two factories holding equal key pairs assign every key the same digest:
/// fixing the seed makes hashing reproducible.
pub proof fn lemma_equal_keys_equal_digests(a: RandomState, b: RandomState)
    requires
        a.keys() == b.keys(),
    ensures
        forall|key: u64| sip13_of(a.keys().0, a.keys().1, key) == sip13_of(
            b.keys().0,
            b.keys().1,
            key,
        ),
{
}

/// Relies on rand::random::<u128>: sixteen bytes from a generator seeded by
/// the operating system's entropy source. A failure of that source is fatal
/// inside the generator; no fixed value is ever returned in its place.
/// Nothing can be promised of the value itself.
#[verifier::external_body]
fn entropy128() -> u128 {
    rand::random::<u128>()
}

/// Relies on siphasher's SipHasher13 (`new_with_keys`, then the `Hasher`
/// methods `write` and `finish`): computes the SipHash-1-3 digest of the
/// eight little-endian bytes of `key` under the key pair `(k0, k1)`, which is
/// the digest `sip13_of` names.
#[verifier::external_body]
fn sip13_digest(k0: u64, k1: u64, key: u64) -> (h: u64)
    ensures
        h == sip13_of(k0, k1, key),
{
    let mut hasher = siphasher::sip::SipHasher13::new_with_keys(k0, k1);
    core::hash::Hasher::write(&mut hasher, &key.to_le_bytes());
    core::hash::Hasher::finish(&hasher)
}

} // verus!
