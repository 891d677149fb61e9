//! The canonical byte layout of the two seal kinds. Integers are written
//! little-endian at their full width, digests as their 32 bytes, fields in
//! declaration order, with nothing between or after them.

use vstd::prelude::*;
use crate::num::{H256, U256, le_value, pow256, lemma_pow256_pos, lemma_pow256_eight};

verus! {

/// Length of an encoded quick seal (and of an encoded `Compute`).
pub const QUICK_SEAL_LEN: usize = 96;

/// Length of an encoded light seal.
pub const LIGHT_SEAL_LEN: usize = 80;

/// Why a byte sequence is not a seal.
#[derive(Clone, Copy, Debug, PartialEq, Eq, Structural)]
pub enum DecodeError {
    /// The input is not exactly as long as the encoding.
    WrongLength,
}

/// A quick seal as carried in a block: the difficulty it was made for, the
/// resulting work hash and the nonce.
#[derive(Clone, Copy, Debug, Eq)]
pub struct Seal {
    pub difficulty: U256,
    pub work: H256,
    pub nonce: U256,
}

/// A not-yet-computed attempt to solve the proof of work. Calling the
/// compute method hashes its encoding and returns the seal.
#[derive(Clone, Copy, Debug, Eq)]
pub struct Compute {
    pub difficulty: U256,
    pub pre_hash: H256,
    pub nonce: U256,
}

/// An Ethash light-client seal.
#[derive(Clone, Copy, Debug, Eq)]
pub struct LightSeal {
    pub block_height: u64,
    pub pow_hash: H256,
    pub mix_digest: H256,
    pub nonce: u64,
}

impl PartialEq for Seal {
    fn eq(&self, o: &Seal) -> (r: bool) {
        self.difficulty == o.difficulty && self.work == o.work && self.nonce == o.nonce
    }
}

impl vstd::std_specs::cmp::PartialEqSpecImpl for Seal {
    open spec fn obeys_eq_spec() -> bool {
        true
    }

    open spec fn eq_spec(&self, o: &Seal) -> bool {
        self.difficulty.0@ == o.difficulty.0@ && self.work.0@ == o.work.0@ && self.nonce.0@
            == o.nonce.0@
    }
}

impl PartialEq for Compute {
    fn eq(&self, o: &Compute) -> (r: bool) {
        self.difficulty == o.difficulty && self.pre_hash == o.pre_hash && self.nonce == o.nonce
    }
}

impl vstd::std_specs::cmp::PartialEqSpecImpl for Compute {
    open spec fn obeys_eq_spec() -> bool {
        true
    }

    open spec fn eq_spec(&self, o: &Compute) -> bool {
        self.difficulty.0@ == o.difficulty.0@ && self.pre_hash.0@ == o.pre_hash.0@
            && self.nonce.0@ == o.nonce.0@
    }
}

impl PartialEq for LightSeal {
    fn eq(&self, o: &LightSeal) -> (r: bool) {
        self.block_height == o.block_height && self.pow_hash == o.pow_hash && self.mix_digest
            == o.mix_digest && self.nonce == o.nonce
    }
}

impl vstd::std_specs::cmp::PartialEqSpecImpl for LightSeal {
    open spec fn obeys_eq_spec() -> bool {
        true
    }

    open spec fn eq_spec(&self, o: &LightSeal) -> bool {
        self.block_height == o.block_height && self.pow_hash.0@ == o.pow_hash.0@
            && self.mix_digest.0@ == o.mix_digest.0@ && self.nonce == o.nonce
    }
}

/// The `n` little-endian bytes of `v` (truncated to `n` bytes).
pub open spec fn le_bytes(v: nat, n: nat) -> Seq<u8>
    decreases n,
{
    if n == 0 {
        Seq::empty()
    } else {
        seq![(v % 256) as u8] + le_bytes(v / 256, (n - 1) as nat)
    }
}

/// The encoding of a quick seal.
pub open spec fn seal_bytes(s: Seal) -> Seq<u8> {
    s.difficulty.0@ + s.work.0@ + s.nonce.0@
}

/// The encoding of a `Compute`, which is what gets hashed into the work.
pub open spec fn compute_bytes(c: Compute) -> Seq<u8> {
    c.difficulty.0@ + c.pre_hash.0@ + c.nonce.0@
}

/// The encoding of a light seal.
pub open spec fn light_seal_bytes(s: LightSeal) -> Seq<u8> {
    le_bytes(s.block_height as nat, 8) + s.pow_hash.0@ + s.mix_digest.0@ + le_bytes(
        s.nonce as nat,
        8,
    )
}

/// `le_bytes(v, n)` has `n` bytes.
pub proof fn lemma_le_bytes_len(v: nat, n: nat)
    ensures
        le_bytes(v, n).len() == n,
    decreases n,
{
    if n > 0 {
        lemma_le_bytes_len(v / 256, (n - 1) as nat);
    }
}

/// `n` little-endian bytes hold any value below 256^n.
pub proof fn lemma_le_bytes_value(v: nat, n: nat)
    requires
        v < pow256(n),
    ensures
        le_value(le_bytes(v, n)) == v,
    decreases n,
{
    if n > 0 {
        let rest = le_bytes(v / 256, (n - 1) as nat);
        let p = pow256((n - 1) as nat);
        assert(v / 256 < p) by (nonlinear_arith)
            requires
                v < 256 * p,
        ;
        lemma_le_bytes_value(v / 256, (n - 1) as nat);
        assert(le_bytes(v, n).drop_first() =~= rest);
        assert(v == v % 256 + 256 * (v / 256)) by (nonlinear_arith);
    } else {
        assert(pow256(0) == 1);
    }
}

/// The encoding of a 64-bit integer determines it.
pub proof fn lemma_le_bytes_u64_injective(a: u64, b: u64)
    requires
        le_bytes(a as nat, 8) == le_bytes(b as nat, 8),
    ensures
        a == b,
{
    lemma_pow256_eight();
    lemma_le_bytes_value(a as nat, 8);
    lemma_le_bytes_value(b as nat, 8);
}

/// The little-endian bytes of a 64-bit integer, appended to `out`.
pub fn push_u64(out: &mut Vec<u8>, v: u64)
    ensures
        final(out)@ == old(out)@ + le_bytes(v as nat, 8),
{
    let ghost start = out@;
    let mut x: u64 = v;
    let mut i: usize = 0;
    while i < 8
        invariant
            i <= 8,
            out@ + le_bytes(x as nat, (8 - i) as nat) == start + le_bytes(v as nat, 8),
        decreases 8 - i,
    {
        let ghost before = out@;
        out.push((x % 256) as u8);
        proof {
            let k = (8 - i) as nat;
            assert(le_bytes(x as nat, k) == seq![(x % 256) as u8] + le_bytes(
                (x / 256) as nat,
                (k - 1) as nat,
            ));
            assert(out@ + le_bytes((x / 256) as nat, (k - 1) as nat) =~= before + le_bytes(
                x as nat,
                k,
            ));
        }
        x = x / 256;
        i = i + 1;
    }
    assert(out@ =~= out@ + le_bytes(x as nat, 0));
}

/// The 64-bit integer whose little-endian bytes are `b[start..start + 8]`.
pub fn read_u64(b: &[u8], start: usize) -> (r: u64)
    requires
        start + 8 <= b@.len(),
    ensures
        r == le_value(b@.subrange(start as int, start + 8)),
{
    let len = b.len();
    assert(start + 8 <= len);
    let end = start + 8;
    let mut v: u64 = 0;
    let mut i: usize = end;
    proof { lemma_pow256_eight(); }
    while i > start
        invariant
            start <= i <= end,
            end == start + 8,
            end <= b@.len(),
            v == le_value(b@.subrange(i as int, end as int)),
            v < pow256((end - i) as nat),
            pow256(8) == 0x1_0000_0000_0000_0000nat,
        decreases i - start,
    {
        i = i - 1;
        let ghost k = (end - i) as nat;
        proof {
            assert(b@.subrange(i as int, end as int).drop_first() =~= b@.subrange(
                i + 1,
                end as int,
            ));
            assert(pow256(k) == 256 * pow256((k - 1) as nat));
            let p = pow256((k - 1) as nat);
            let byte = b@[i as int];
            assert(v * 256 + byte < 256 * p) by (nonlinear_arith)
                requires
                    v < p,
                    byte < 256,
            ;
            lemma_pow_mono(k, 8);
        }
        v = v * 256 + b[i] as u64;
    }
    v
}

/// Powers of 256 grow with the exponent.
proof fn lemma_pow_mono(a: nat, b: nat)
    requires
        a <= b,
    ensures
        pow256(a) <= pow256(b),
    decreases b,
{
    if a < b {
        lemma_pow_mono(a, (b - 1) as nat);
        lemma_pow256_pos((b - 1) as nat);
    }
}

/// The 32 bytes `b[start..start + 32]`.
pub fn read_bytes32(b: &[u8], start: usize) -> (r: [u8; 32])
    requires
        start + 32 <= b@.len(),
    ensures
        r@ == b@.subrange(start as int, start + 32),
{
    let len = b.len();
    let mut out = [0u8; 32];
    let mut i: usize = 0;
    while i < 32
        invariant
            i <= 32,
            start + 32 <= b@.len(),
            len == b@.len(),
            forall|j: int| 0 <= j < i ==> out@[j] == b@[start + j],
        decreases 32 - i,
    {
        out[i] = b[start + i];
        i = i + 1;
    }
    assert(out@ =~= b@.subrange(start as int, start + 32));
    out
}

/// `b` appended to `out`.
pub fn push_bytes32(out: &mut Vec<u8>, b: &[u8; 32])
    ensures
        final(out)@ == old(out)@ + b@,
{
    let ghost start = out@;
    let mut i: usize = 0;
    while i < 32
        invariant
            i <= 32,
            out@ == start + b@.subrange(0, i as int),
        decreases 32 - i,
    {
        out.push(b[i]);
        i = i + 1;
        assert(out@ =~= start + b@.subrange(0, i as int));
    }
    assert(b@.subrange(0, 32) =~= b@);
}

impl Seal {
    /// The canonical encoding of the seal.
    pub fn encode(&self) -> (r: Vec<u8>)
        ensures
            r@ == seal_bytes(*self),
    {
        let mut out: Vec<u8> = Vec::new();
        push_bytes32(&mut out, &self.difficulty.0);
        push_bytes32(&mut out, &self.work.0);
        push_bytes32(&mut out, &self.nonce.0);
        assert(out@ =~= seal_bytes(*self));
        out
    }

    /// Reads a seal from exactly its canonical encoding; any other length is
    /// refused.
    pub fn decode(bytes: &[u8]) -> (r: Result<Seal, DecodeError>)
        ensures
            r is Ok <==> bytes@.len() == QUICK_SEAL_LEN,
            r is Ok ==> seal_bytes(r->Ok_0) == bytes@,
            r is Err ==> r->Err_0 == DecodeError::WrongLength,
    {
        if bytes.len() != QUICK_SEAL_LEN {
            return Err(DecodeError::WrongLength);
        }
        let s = Seal {
            difficulty: U256(read_bytes32(bytes, 0)),
            work: H256(read_bytes32(bytes, 32)),
            nonce: U256(read_bytes32(bytes, 64)),
        };
        assert(seal_bytes(s) =~= bytes@);
        Ok(s)
    }
}

impl Compute {
    /// The canonical encoding, the input of the work hash.
    pub fn encode(&self) -> (r: Vec<u8>)
        ensures
            r@ == compute_bytes(*self),
    {
        let mut out: Vec<u8> = Vec::new();
        push_bytes32(&mut out, &self.difficulty.0);
        push_bytes32(&mut out, &self.pre_hash.0);
        push_bytes32(&mut out, &self.nonce.0);
        assert(out@ =~= compute_bytes(*self));
        out
    }
}

impl LightSeal {
    /// The canonical encoding of the seal.
    pub fn encode(&self) -> (r: Vec<u8>)
        ensures
            r@ == light_seal_bytes(*self),
    {
        let mut out: Vec<u8> = Vec::new();
        push_u64(&mut out, self.block_height);
        push_bytes32(&mut out, &self.pow_hash.0);
        push_bytes32(&mut out, &self.mix_digest.0);
        push_u64(&mut out, self.nonce);
        assert(out@ =~= light_seal_bytes(*self));
        out
    }

    /// Reads a light seal from exactly its canonical encoding; any other
    /// length is refused.
    pub fn decode(bytes: &[u8]) -> (r: Result<LightSeal, DecodeError>)
        ensures
            r is Ok <==> bytes@.len() == LIGHT_SEAL_LEN,
            r is Ok ==> light_seal_bytes(r->Ok_0) == bytes@,
            r is Err ==> r->Err_0 == DecodeError::WrongLength,
    {
        if bytes.len() != LIGHT_SEAL_LEN {
            return Err(DecodeError::WrongLength);
        }
        let block_height = read_u64(bytes, 0);
        let pow_hash = H256(read_bytes32(bytes, 8));
        let mix_digest = H256(read_bytes32(bytes, 40));
        let nonce = read_u64(bytes, 72);
        let s = LightSeal { block_height, pow_hash, mix_digest, nonce };
        proof {
            lemma_pow256_eight();
            lemma_le_bytes_round_trip(bytes@.subrange(0, 8));
            lemma_le_bytes_round_trip(bytes@.subrange(72, 80));
            assert(light_seal_bytes(s) =~= bytes@);
        }
        Ok(s)
    }
}

/// Bytes are the encoding of their own little-endian value.
pub proof fn lemma_le_bytes_round_trip(s: Seq<u8>)
    ensures
        le_bytes(le_value(s), s.len()) == s,
    decreases s.len(),
{
    if s.len() > 0 {
        let rest = s.drop_first();
        lemma_le_bytes_round_trip(rest);
        let v = le_value(s);
        assert(v % 256 == s[0] as nat && v / 256 == le_value(rest)) by (nonlinear_arith)
            requires
                v == s[0] as nat + 256 * le_value(rest),
                s[0] < 256,
        ;
        assert(le_bytes(v, s.len()) =~= s);
    } else {
        assert(le_bytes(le_value(s), 0) =~= s);
    }
}

/// Decoding the encoding of a quick seal gives the same seal back: two seals
/// with the same encoding are equal.
pub proof fn lemma_seal_round_trip(s: Seal, t: Seal)
    requires
        seal_bytes(t) == seal_bytes(s),
    ensures
        t == s,
{
    let a = seal_bytes(s);
    assert(t.difficulty.0@ =~= a.subrange(0, 32));
    assert(s.difficulty.0@ =~= a.subrange(0, 32));
    assert(t.work.0@ =~= a.subrange(32, 64));
    assert(s.work.0@ =~= a.subrange(32, 64));
    assert(t.nonce.0@ =~= a.subrange(64, 96));
    assert(s.nonce.0@ =~= a.subrange(64, 96));
    assert(t.difficulty.0 == s.difficulty.0);
    assert(t.work.0 == s.work.0);
    assert(t.nonce.0 == s.nonce.0);
}

/// Decoding the encoding of a light seal gives the same seal back: two light
/// seals with the same encoding are equal.
pub proof fn lemma_light_seal_round_trip(s: LightSeal, t: LightSeal)
    requires
        light_seal_bytes(t) == light_seal_bytes(s),
    ensures
        t == s,
{
    let a = light_seal_bytes(s);
    lemma_le_bytes_len(s.block_height as nat, 8);
    lemma_le_bytes_len(t.block_height as nat, 8);
    lemma_le_bytes_len(s.nonce as nat, 8);
    lemma_le_bytes_len(t.nonce as nat, 8);
    assert(le_bytes(t.block_height as nat, 8) =~= a.subrange(0, 8));
    assert(le_bytes(s.block_height as nat, 8) =~= a.subrange(0, 8));
    assert(t.pow_hash.0@ =~= a.subrange(8, 40));
    assert(s.pow_hash.0@ =~= a.subrange(8, 40));
    assert(t.mix_digest.0@ =~= a.subrange(40, 72));
    assert(s.mix_digest.0@ =~= a.subrange(40, 72));
    assert(le_bytes(t.nonce as nat, 8) =~= a.subrange(72, 80));
    assert(le_bytes(s.nonce as nat, 8) =~= a.subrange(72, 80));
    lemma_le_bytes_u64_injective(t.block_height, s.block_height);
    lemma_le_bytes_u64_injective(t.nonce, s.nonce);
    assert(t.pow_hash.0 == s.pow_hash.0);
    assert(t.mix_digest.0 == s.mix_digest.0);
}

} // verus!
