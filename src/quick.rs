//! The quick seal: a seal is valid when its work hash meets the difficulty
//! and is the Keccak-256 hash of (difficulty, pre-hash, nonce).

use std::sync::Arc;
use vstd::prelude::*;
use vstd::string::StringExecFns;
use crate::codec::{Compute, Seal, compute_bytes, seal_bytes, lemma_seal_round_trip};
use crate::num::{H256, U256, meets_difficulty, hash_meets_difficulty};

verus! {

/// The Keccak-256 digest of a byte sequence.
pub uninterp spec fn keccak_256_of(data: Seq<u8>) -> Seq<u8>;

/// Relies on sp_core's `KeccakHasher::hash`, the Keccak-256 digest of the
/// input: a function of the bytes alone.
#[verifier::external_body]
fn keccak_256(data: &[u8]) -> (r: H256)
    ensures
        r.0@ == keccak_256_of(data@),
{
    H256(<sp_core::KeccakHasher as sp_core::Hasher>::hash(data).0)
}

/// The work that `compute` derives for a difficulty, a pre-hash and a nonce.
pub open spec fn work_of(difficulty: U256, pre_hash: H256, nonce: U256) -> Seq<u8> {
    keccak_256_of(compute_bytes(Compute { difficulty, pre_hash, nonce }))
}

/// A decoded quick seal is valid for a pre-hash and a difficulty: its work
/// meets the difficulty, it was made for that difficulty, and its work is
/// the hash of the encoded (difficulty, pre-hash, nonce).
pub open spec fn seal_valid(seal: Seal, pre_hash: H256, difficulty: U256) -> bool {
    &&& meets_difficulty(seal.work, difficulty)
    &&& seal.difficulty.0@ == difficulty.0@
    &&& seal.work.0@ == work_of(difficulty, pre_hash, seal.nonce)
}

/// The verdict on raw seal bytes: they encode a valid seal.
pub open spec fn quick_verdict(pre_hash: H256, bytes: Seq<u8>, difficulty: U256) -> bool {
    exists|s: Seal| seal_bytes(s) == bytes && seal_valid(s, pre_hash, difficulty)
}

impl Compute {
    /// Hashes the encoding into the work and returns the seal.
    pub fn compute(self) -> (r: Seal)
        ensures
            r.difficulty == self.difficulty,
            r.nonce == self.nonce,
            r.work.0@ == work_of(self.difficulty, self.pre_hash, self.nonce),
    {
        let bytes = self.encode();
        let work = keccak_256(bytes.as_slice());
        Seal { nonce: self.nonce, difficulty: self.difficulty, work }
    }
}

/// Checks raw seal bytes against a pre-hash and a difficulty. Undecodable
/// bytes are a failed verification, not an error. The difficulty is checked
/// before the work is recomputed.
pub fn verify_quick_seal(pre_hash: &H256, seal: &[u8], difficulty: U256) -> (r: bool)
    ensures
        r == quick_verdict(*pre_hash, seal@, difficulty),
{
    let decoded = match Seal::decode(seal) {
        Ok(s) => s,
        Err(_) => {
            assert forall|t: Seal| seal_bytes(t) != seal@ by {
                assert(seal_bytes(t).len() == 96);
            }
            return false;
        },
    };
    if !hash_meets_difficulty(&decoded.work, difficulty) {
        assert forall|t: Seal|
            seal_bytes(t) == seal@ implies !seal_valid(t, *pre_hash, difficulty) by {
            lemma_seal_round_trip(decoded, t);
        }
        return false;
    }
    let compute = Compute { difficulty, pre_hash: *pre_hash, nonce: decoded.nonce };
    let computed = compute.compute();
    if computed != decoded {
        assert forall|t: Seal|
            seal_bytes(t) == seal@ implies !seal_valid(t, *pre_hash, difficulty) by {
            lemma_seal_round_trip(decoded, t);
        }
        return false;
    }
    assert(seal_valid(decoded, *pre_hash, difficulty));
    true
}

/// A seal made by `compute` verifies against its own pre-hash and difficulty
/// exactly when its work meets that difficulty.
pub proof fn lemma_computed_seal_verdict(c: Compute, s: Seal)
    requires
        s.difficulty == c.difficulty,
        s.nonce == c.nonce,
        s.work.0@ == work_of(c.difficulty, c.pre_hash, c.nonce),
    ensures
        quick_verdict(c.pre_hash, seal_bytes(s), c.difficulty) == meets_difficulty(
            s.work,
            c.difficulty,
        ),
{
    if quick_verdict(c.pre_hash, seal_bytes(s), c.difficulty) {
        let t = choose|t: Seal|
            seal_bytes(t) == seal_bytes(s) && seal_valid(t, c.pre_hash, c.difficulty);
        lemma_seal_round_trip(s, t);
    } else {
        assert(!seal_valid(s, c.pre_hash, c.difficulty));
    }
}

/// A computed seal whose work is replaced by any other digest fails.
pub proof fn lemma_altered_work_fails(c: Compute, s: Seal, work: H256)
    requires
        s.difficulty == c.difficulty,
        s.nonce == c.nonce,
        s.work.0@ == work_of(c.difficulty, c.pre_hash, c.nonce),
        work.0@ != s.work.0@,
    ensures
        !quick_verdict(c.pre_hash, seal_bytes(Seal { work, ..s }), c.difficulty),
{
    let altered = Seal { work, ..s };
    assert forall|t: Seal| seal_bytes(t) == seal_bytes(altered) implies !seal_valid(
        t,
        c.pre_hash,
        c.difficulty,
    ) by {
        lemma_seal_round_trip(altered, t);
    }
}

/// A seal that names another difficulty than the one asked for fails.
pub proof fn lemma_altered_difficulty_fails(pre_hash: H256, s: Seal, difficulty: U256)
    requires
        s.difficulty.0@ != difficulty.0@,
    ensures
        !quick_verdict(pre_hash, seal_bytes(s), difficulty),
{
    assert forall|t: Seal| seal_bytes(t) == seal_bytes(s) implies !seal_valid(
        t,
        pre_hash,
        difficulty,
    ) by {
        lemma_seal_round_trip(s, t);
    }
}

/// Bytes of any length but the encoding's never verify.
pub proof fn lemma_wrong_length_fails(pre_hash: H256, bytes: Seq<u8>, difficulty: U256)
    requires
        bytes.len() != crate::codec::QUICK_SEAL_LEN,
    ensures
        !quick_verdict(pre_hash, bytes, difficulty),
{
    assert forall|t: Seal| seal_bytes(t) != bytes by {
        assert(seal_bytes(t).len() == 96);
    }
}

/// How the message of a failed difficulty read begins.
pub const ENVIRONMENT_PREFIX: &'static str = "Fetching difficulty from runtime failed: ";

/// Why no difficulty could be given for a block.
#[derive(Debug)]
pub enum DifficultyError {
    /// Reading the difficulty from the chain state failed; the message says
    /// why. This is a fault of the local node, not a verdict on a block.
    Environment(String),
}

/// A complete proof-of-work algorithm on quick seals, whose difficulty comes
/// from the chain state behind a shared client handle.
pub struct EthashAlgorithm<C> {
    client: Arc<C>,
}

impl<C> EthashAlgorithm<C> {
    /// The client handle this algorithm reads difficulties through.
    pub closed spec fn client_spec(&self) -> Arc<C> {
        self.client
    }

    pub fn new(client: Arc<C>) -> (r: Self)
        ensures
            r.client_spec() == client,
    {
        Self { client }
    }

    /// The shared client handle.
    pub fn client(&self) -> (r: &Arc<C>)
        ensures
            *r == self.client_spec(),
    {
        &self.client
    }

    /// The difficulty of a block, from what reading its parent's stored
    /// difficulty returned: a failed read becomes an environment error whose
    /// message is `ENVIRONMENT_PREFIX` followed by the read's description,
    /// never a difficulty.
    pub fn difficulty(&self, fetched: Result<U256, String>) -> (r: Result<U256, DifficultyError>)
        ensures
            fetched is Ok ==> r == Ok::<U256, DifficultyError>(fetched->Ok_0),
            fetched is Err ==> (r matches Err(DifficultyError::Environment(m)) && m@
                == ENVIRONMENT_PREFIX@ + fetched->Err_0@),
    {
        match fetched {
            Ok(d) => Ok(d),
            Err(detail) => {
                let message = <String as StringExecFns>::from_str(ENVIRONMENT_PREFIX).concat(
                    detail.as_str(),
                );
                Err(DifficultyError::Environment(message))
            },
        }
    }

    /// Verifies a quick seal for `pre_hash` at `difficulty`.
    pub fn verify(&self, pre_hash: &H256, seal: &[u8], difficulty: U256) -> (r: bool)
        ensures
            r == quick_verdict(*pre_hash, seal@, difficulty),
    {
        verify_quick_seal(pre_hash, seal, difficulty)
    }
}

impl<C> Clone for EthashAlgorithm<C> {
    /// Another handle on the same client; the client is shared, not copied.
    fn clone(&self) -> (r: Self)
        ensures
            r.client_spec() == self.client_spec(),
    {
        Self::new(Arc::clone(&self.client))
    }
}

} // verus!
