//! Ethash light-client verification: a per-epoch cache built on demand, the
//! recomputation of a seal's mix digest, and the fixed-difficulty algorithm
//! that uses them.

use vstd::prelude::*;
use crate::codec::{LightSeal, LIGHT_SEAL_LEN, light_seal_bytes, lemma_light_seal_round_trip, lemma_le_bytes_len};
use crate::num::{H256, U256, bytes32_eq};

verus! {

/// Blocks per Ethash epoch.
pub const EPOCH_LENGTH: u64 = 30000;

/// The last epoch whose cache this library builds (a cache of about 285 MB).
/// The height in a seal is chosen by whoever sent it; past this epoch the
/// cache it would ask for grows without bound, so such seals get
/// `CacheUnavailable` instead of an allocation the node cannot make.
pub const MAX_EPOCH: u64 = 2048;

/// The difficulty of the fixed-difficulty algorithm.
pub const FIXED_DIFFICULTY: u64 = 1_000_000;

/// Why a light seal was not accepted.
#[derive(Clone, Copy, Debug, PartialEq, Eq, Structural)]
pub enum LightError {
    /// The recomputed mix digest differs from the one in the seal.
    MismatchedSealElement,
    /// No cache could be built for the seal's epoch.
    CacheUnavailable,
}

/// Size in bytes of the Ethash cache of an epoch.
pub uninterp spec fn cache_size_of(epoch: nat) -> nat;

/// Size in bytes of the full Ethash dataset of an epoch.
pub uninterp spec fn full_size_of(epoch: nat) -> nat;

/// The Ethash seed hash of an epoch.
pub uninterp spec fn seedhash_of(epoch: nat) -> Seq<u8>;

/// The Ethash cache of a given length generated from a seed.
pub uninterp spec fn cache_from_seed(len: nat, seed: Seq<u8>) -> Seq<u8>;

/// The mix digest that the Ethash light computation derives from a cache,
/// a dataset size, a header hash and a nonce.
pub uninterp spec fn hashimoto_mix_of(
    cache: Seq<u8>,
    full_size: nat,
    header: Seq<u8>,
    nonce: u64,
) -> Seq<u8>;

/// Relies on ethash's `get_cache_size`, a function of the epoch alone. The
/// bound keeps its first addition within `usize`. It steps down from
/// `16777216 + 131072 * epoch - 64` by 128 until the size over 64 is prime
/// (`is_prime` refuses 0 and 1), so the result is a multiple of 64 of at
/// least 128.
#[verifier::external_body]
fn cache_size(epoch: usize) -> (r: usize)
    requires
        16777216 + 131072 * epoch <= usize::MAX,
    ensures
        r == cache_size_of(epoch as nat),
        r % 64 == 0,
        r >= 128,
{
    ethash::get_cache_size(epoch)
}

/// Relies on ethash's `get_full_size`, a function of the epoch alone. The
/// bound keeps its first addition within `usize`. It steps down from
/// `1073741824 + 8388608 * epoch - 128` by 256 until the size over 128 is
/// prime, so the result is a multiple of 128 of at least 256.
#[verifier::external_body]
fn full_size(epoch: usize) -> (r: usize)
    requires
        1073741824 + 8388608 * epoch <= usize::MAX,
    ensures
        r == full_size_of(epoch as nat),
        r % 128 == 0,
        r >= 256,
{
    ethash::get_full_size(epoch)
}

/// Relies on ethash's `get_seedhash`: `epoch` rounds of Keccak-256 from
/// zero, a function of the epoch alone.
#[verifier::external_body]
fn seedhash(epoch: usize) -> (r: [u8; 32])
    ensures
        r@ == seedhash_of(epoch as nat),
{
    ethash::get_seedhash(epoch).0
}

/// Relies on ethash's `make_cache`, which overwrites the whole buffer from the
/// seed in place, so its length stays; it asserts that the length is a
/// multiple of 64 and writes the first 64 bytes unconditionally.
#[verifier::external_body]
fn make_cache(buf: &mut Vec<u8>, seed: &[u8; 32])
    requires
        old(buf)@.len() % 64 == 0,
        old(buf)@.len() >= 64,
    ensures
        final(buf)@ == cache_from_seed(old(buf)@.len(), seed@),
        final(buf)@.len() == old(buf)@.len(),
{
    ethash::make_cache(buf.as_mut_slice(), (*seed).into())
}

/// Relies on ethash's `hashimoto_light`, keeping the mix digest (its first
/// result). The nonce goes in as the big-endian 8-byte hash that the crate
/// reverses before hashing. It divides by the cache's 64-byte item count and
/// by half the dataset's 64-byte item count, hence the bounds.
#[verifier::external_body]
fn hashimoto_mix(cache: &Vec<u8>, full_size: usize, header: &H256, nonce: u64) -> (r: H256)
    requires
        cache@.len() % 64 == 0,
        cache@.len() >= 64,
        full_size >= 128,
    ensures
        r.0@ == hashimoto_mix_of(cache@, full_size as nat, header.0@, nonce),
{
    let out = ethash::hashimoto_light(header.0.into(), nonce.to_be_bytes().into(), full_size, cache);
    H256(out.0.0)
}

/// The cache of an epoch.
pub open spec fn epoch_cache_of(epoch: nat) -> Seq<u8> {
    cache_from_seed(cache_size_of(epoch), seedhash_of(epoch))
}

/// The epoch a block height falls in.
pub open spec fn epoch_of(height: u64) -> nat {
    (height / EPOCH_LENGTH) as nat
}

/// The epoch a block height falls in.
pub fn epoch_for_height(height: u64) -> (r: u64)
    ensures
        r == epoch_of(height),
{
    height / EPOCH_LENGTH
}

/// Epochs whose cache this library builds: up to `MAX_EPOCH`, and small enough
/// that the dataset size fits in `usize`.
pub open spec fn epoch_supported(epoch: nat) -> bool {
    epoch <= MAX_EPOCH && 1073741824 + 8388608 * epoch <= usize::MAX
}

/// The mix digest a valid light seal at `height` carries for `pow_hash` and
/// `nonce`.
pub open spec fn expected_mix(height: u64, pow_hash: H256, nonce: u64) -> Seq<u8> {
    let e = epoch_of(height);
    hashimoto_mix_of(epoch_cache_of(e), full_size_of(e), pow_hash.0@, nonce)
}

/// The verdict on a light seal: its mix digest is the recomputed one.
pub open spec fn light_seal_valid(seal: LightSeal) -> bool {
    seal.mix_digest.0@ == expected_mix(seal.block_height, seal.pow_hash, seal.nonce)
}

/// Compares a recomputed mix digest with the one a seal presents.
pub fn check_mix_digest(computed: &H256, seal: &LightSeal) -> (r: Result<(), LightError>)
    ensures
        r is Ok <==> computed.0@ == seal.mix_digest.0@,
        r is Err ==> r == Err::<(), LightError>(LightError::MismatchedSealElement),
{
    if bytes32_eq(&computed.0, &seal.mix_digest.0) {
        Ok(())
    } else {
        Err(LightError::MismatchedSealElement)
    }
}

/// The cache and dataset size of one epoch.
pub struct EpochData {
    epoch: u64,
    cache: Vec<u8>,
    full_size: usize,
}

impl EpochData {
    #[verifier::type_invariant]
    spec fn well_formed(self) -> bool {
        &&& epoch_supported(self.epoch as nat)
        &&& self.cache@ == epoch_cache_of(self.epoch as nat)
        &&& self.full_size == full_size_of(self.epoch as nat)
        &&& self.cache@.len() % 64 == 0
        &&& self.cache@.len() >= 64
        &&& self.full_size >= 128
    }

    /// The epoch this data belongs to.
    pub closed spec fn epoch_spec(&self) -> nat {
        self.epoch as nat
    }

    pub fn epoch(&self) -> (r: u64)
        ensures
            r == self.epoch_spec(),
            epoch_supported(r as nat),
    {
        proof {
            use_type_invariant(self);
        }
        self.epoch
    }

    /// Builds the cache of `epoch`; `None` exactly where the epoch is not
    /// supported.
    pub fn build(epoch: u64) -> (r: Option<EpochData>)
        ensures
            r is Some ==> r->Some_0.epoch_spec() == epoch,
            r is Some <==> epoch_supported(epoch as nat),
    {
        if epoch > MAX_EPOCH {
            return None;
        }
        let e = epoch as usize;
        if e > (usize::MAX - 1073741824) / 8388608 {
            return None;
        }
        assert(1073741824 + 8388608 * e <= usize::MAX && 16777216 + 131072 * e <= usize::MAX)
            by (nonlinear_arith)
            requires
                e <= (usize::MAX - 1073741824) / 8388608,
                usize::MAX >= 1073741824,
        ;
        let full = full_size(e);
        let size = cache_size(e);
        let seed = seedhash(e);
        let mut cache: Vec<u8> = vec![0u8; size];
        make_cache(&mut cache, &seed);
        assert(e as nat == epoch as nat);
        assert(cache@ == epoch_cache_of(epoch as nat));
        Some(EpochData { epoch, cache, full_size: full })
    }

    /// The mix digest for a header hash and a nonce under this epoch's cache.
    pub fn mix(&self, pow_hash: &H256, nonce: u64) -> (r: H256)
        ensures
            r.0@ == hashimoto_mix_of(
                epoch_cache_of(self.epoch_spec()),
                full_size_of(self.epoch_spec()),
                pow_hash.0@,
                nonce,
            ),
    {
        proof {
            use_type_invariant(self);
        }
        hashimoto_mix(&self.cache, self.full_size, pow_hash, nonce)
    }
}

/// The caches of the two epochs most recently asked for. Verification reads
/// them; only preparing an epoch that is not held changes them.
pub struct EpochCache {
    recent: Option<EpochData>,
    previous: Option<EpochData>,
}

impl EpochCache {
    /// The cache of `epoch` is held.
    pub closed spec fn holds(&self, epoch: nat) -> bool {
        ||| self.recent matches Some(d) && d.epoch_spec() == epoch
        ||| self.previous matches Some(d) && d.epoch_spec() == epoch
    }

    /// An empty cache.
    pub fn new() -> (r: Self)
        ensures
            forall|e: nat| !r.holds(e),
    {
        EpochCache { recent: None, previous: None }
    }

    /// Whether the cache of `epoch` is held.
    pub fn contains(&self, epoch: u64) -> (r: bool)
        ensures
            r == self.holds(epoch as nat),
            r ==> epoch_supported(epoch as nat),
    {
        let in_recent = match &self.recent {
            Some(d) => d.epoch() == epoch,
            None => false,
        };
        let in_previous = match &self.previous {
            Some(d) => d.epoch() == epoch,
            None => false,
        };
        in_recent || in_previous
    }

    /// Makes sure the cache of the epoch of `height` is held, building it if
    /// needed; the one it replaces as most recent is kept as previous.
    pub fn prepare(&mut self, height: u64) -> (r: Result<(), LightError>)
        ensures
            r is Ok <==> final(self).holds(epoch_of(height)),
            r is Err ==> r == Err::<(), LightError>(LightError::CacheUnavailable),
            r is Ok <==> epoch_supported(epoch_of(height)),
            old(self).holds(epoch_of(height)) ==> *final(self) == *old(self),
    {
        let epoch = epoch_for_height(height);
        if self.contains(epoch) {
            return Ok(());
        }
        match EpochData::build(epoch) {
            Some(data) => {
                let older = self.recent.take();
                self.previous = older;
                self.recent = Some(data);
                Ok(())
            },
            None => {
                proof {
                    assert forall|e: nat| self.holds(e) implies e != epoch_of(height) by {
                        assert(e != epoch as nat);
                    }
                }
                Err(LightError::CacheUnavailable)
            },
        }
    }

    /// The mix digest for `pow_hash` and `nonce` at `height`, when the cache of
    /// its epoch is held.
    pub fn compute_light(&self, height: u64, pow_hash: &H256, nonce: u64) -> (r: Option<H256>)
        ensures
            r is Some <==> self.holds(epoch_of(height)),
            r is Some ==> r->Some_0.0@ == expected_mix(height, *pow_hash, nonce),
    {
        let epoch = epoch_for_height(height);
        if let Some(d) = &self.recent {
            if d.epoch() == epoch {
                return Some(d.mix(pow_hash, nonce));
            }
        }
        if let Some(d) = &self.previous {
            if d.epoch() == epoch {
                return Some(d.mix(pow_hash, nonce));
            }
        }
        None
    }

    /// Verifies a light seal: prepares the cache of its epoch, recomputes the
    /// mix digest and compares it with the presented one.
    pub fn verify_light(&mut self, seal: &LightSeal) -> (r: Result<(), LightError>)
        ensures
            r is Ok <==> final(self).holds(epoch_of(seal.block_height)) && light_seal_valid(
                *seal,
            ),
            r == Err::<(), LightError>(LightError::MismatchedSealElement) <==> final(self).holds(
                epoch_of(seal.block_height),
            ) && !light_seal_valid(*seal),
            r == Err::<(), LightError>(LightError::CacheUnavailable) <==> !final(self).holds(
                epoch_of(seal.block_height),
            ),
            final(self).holds(epoch_of(seal.block_height)) <==> epoch_supported(
                epoch_of(seal.block_height),
            ),
            old(self).holds(epoch_of(seal.block_height)) ==> *final(self) == *old(self),
    {
        if self.prepare(seal.block_height).is_err() {
            return Err(LightError::CacheUnavailable);
        }
        match self.compute_light(seal.block_height, &seal.pow_hash, seal.nonce) {
            Some(computed) => check_mix_digest(&computed, seal),
            None => Err(LightError::CacheUnavailable),
        }
    }
}

/// A light seal whose mix digest is the recomputed one is valid, and any
/// other digest in its place (one bit flipped, say) is not.
pub proof fn lemma_light_verdict(seal: LightSeal, digest: H256)
    ensures
        light_seal_valid(LightSeal { mix_digest: digest, ..seal }) <==> digest.0@ == expected_mix(
            seal.block_height,
            seal.pow_hash,
            seal.nonce,
        ),
{
}

/// A minimal proof-of-work algorithm on Ethash light seals with a fixed
/// difficulty of 1_000_000.
pub struct MinimalEthashAlgorithm {
    pow: EpochCache,
}

impl MinimalEthashAlgorithm {
    /// The epoch caches this algorithm holds.
    pub closed spec fn cache(&self) -> EpochCache {
        self.pow
    }

    pub fn new() -> (r: Self)
        ensures
            forall|e: nat| !r.cache().holds(e),
    {
        MinimalEthashAlgorithm { pow: EpochCache::new() }
    }

    /// The fixed difficulty.
    pub fn difficulty(&self) -> (r: U256)
        ensures
            r.value() == FIXED_DIFFICULTY,
    {
        U256::from_u64(FIXED_DIFFICULTY)
    }

    /// Verifies raw light-seal bytes. Bytes that do not decode and a
    /// mismatched mix digest give `Ok(false)`; a cache that cannot be built
    /// for the seal's epoch is an error, not a verdict. The pre-hash and the
    /// difficulty are not consulted: the seal carries the hash it was mined
    /// on, and the recomputed value is not compared with the difficulty.
    pub fn verify(&mut self, _pre_hash: &H256, seal: &[u8], _difficulty: U256) -> (r: Result<
        bool,
        LightError,
    >)
        ensures
            seal@.len() != LIGHT_SEAL_LEN ==> r == Ok::<bool, LightError>(false),
            forall|s: LightSeal| #[trigger]
                light_seal_bytes(s) == seal@ ==> {
                    &&& (r == Ok::<bool, LightError>(true) <==> final(self).cache().holds(
                        epoch_of(s.block_height),
                    ) && light_seal_valid(s))
                    &&& (r == Ok::<bool, LightError>(false) <==> final(self).cache().holds(
                        epoch_of(s.block_height),
                    ) && !light_seal_valid(s))
                    &&& (r == Err::<bool, LightError>(LightError::CacheUnavailable)
                        <==> !final(self).cache().holds(epoch_of(s.block_height)))
                    &&& (r is Ok <==> epoch_supported(epoch_of(s.block_height)))
                },
    {
        let decoded = match LightSeal::decode(seal) {
            Ok(s) => s,
            Err(_) => {
                assert forall|s: LightSeal| light_seal_bytes(s) != seal@ by {
                    lemma_le_bytes_len(s.block_height as nat, 8);
                    lemma_le_bytes_len(s.nonce as nat, 8);
                }
                return Ok(false);
            },
        };
        let verdict = self.pow.verify_light(&decoded);
        assert forall|s: LightSeal| light_seal_bytes(s) == seal@ implies s == decoded by {
            lemma_light_seal_round_trip(decoded, s);
        }
        match verdict {
            Ok(()) => Ok(true),
            Err(LightError::MismatchedSealElement) => Ok(false),
            Err(LightError::CacheUnavailable) => Err(LightError::CacheUnavailable),
        }
    }
}

} // verus!
