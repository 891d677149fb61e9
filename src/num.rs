//! 256-bit digests and unsigned integers, with their numeric reading and the
//! difficulty predicate.

use vstd::prelude::*;

verus! {

/// Two to the power 256: one past the largest 256-bit value.
pub open spec fn word_limit() -> nat {
    115792089237316195423570985008687907853269984665640564039457584007913129639936nat
}

/// 256 to the power `n`.
pub open spec fn pow256(n: nat) -> nat
    decreases n,
{
    if n == 0 {
        1
    } else {
        256 * pow256((n - 1) as nat)
    }
}

/// The unsigned integer whose little-endian bytes are `s`.
pub open spec fn le_value(s: Seq<u8>) -> nat
    decreases s.len(),
{
    if s.len() == 0 {
        0
    } else {
        s[0] as nat + 256 * le_value(s.drop_first())
    }
}

/// The unsigned integer whose big-endian bytes are `s`.
pub open spec fn be_value(s: Seq<u8>) -> nat
    decreases s.len(),
{
    if s.len() == 0 {
        0
    } else {
        be_value(s.drop_last()) * 256 + s.last() as nat
    }
}

/// A 32-byte digest (pre-hash, work, mix digest).
#[derive(Clone, Copy, Debug, Eq)]
pub struct H256(pub [u8; 32]);

/// A 256-bit unsigned integer, held as its 32 little-endian bytes.
#[derive(Clone, Copy, Debug, Eq)]
pub struct U256(pub [u8; 32]);

/// Byte-wise equality of two 32-byte arrays.
pub fn bytes32_eq(a: &[u8; 32], b: &[u8; 32]) -> (r: bool)
    ensures
        r == (a@ == b@),
{
    let mut i: usize = 0;
    while i < 32
        invariant
            i <= 32,
            forall|j: int| 0 <= j < i ==> a@[j] == b@[j],
        decreases 32 - i,
    {
        if a[i] != b[i] {
            return false;
        }
        i = i + 1;
    }
    assert(a@ =~= b@);
    true
}

impl PartialEq for H256 {
    fn eq(&self, o: &H256) -> (r: bool) {
        bytes32_eq(&self.0, &o.0)
    }
}

impl vstd::std_specs::cmp::PartialEqSpecImpl for H256 {
    open spec fn obeys_eq_spec() -> bool {
        true
    }

    open spec fn eq_spec(&self, o: &H256) -> bool {
        self.0@ == o.0@
    }
}

impl PartialEq for U256 {
    fn eq(&self, o: &U256) -> (r: bool) {
        bytes32_eq(&self.0, &o.0)
    }
}

impl vstd::std_specs::cmp::PartialEqSpecImpl for U256 {
    open spec fn obeys_eq_spec() -> bool {
        true
    }

    open spec fn eq_spec(&self, o: &U256) -> bool {
        self.0@ == o.0@
    }
}

impl H256 {
    /// The digest read as a big-endian integer.
    pub open spec fn uint(self) -> nat {
        be_value(self.0@)
    }
}

impl U256 {
    /// The number this value stands for.
    pub open spec fn value(self) -> nat {
        le_value(self.0@)
    }
}

/// A hash meets a difficulty when hash times difficulty stays below 2^256.
pub open spec fn meets_difficulty(hash: H256, difficulty: U256) -> bool {
    hash.uint() * difficulty.value() < word_limit()
}

/// Powers of 256 are positive.
pub proof fn lemma_pow256_pos(n: nat)
    ensures
        pow256(n) > 0,
    decreases n,
{
    if n > 0 {
        lemma_pow256_pos((n - 1) as nat);
    }
}

/// Eight bytes reach 2^64.
pub proof fn lemma_pow256_eight()
    ensures
        pow256(8) == 0x1_0000_0000_0000_0000nat,
{
    assert(pow256(0) == 1);
    assert(pow256(1) == 256);
    assert(pow256(2) == 0x1_0000);
    assert(pow256(3) == 0x100_0000);
    assert(pow256(4) == 0x1_0000_0000);
    assert(pow256(5) == 0x100_0000_0000);
    assert(pow256(6) == 0x1_0000_0000_0000);
    assert(pow256(7) == 0x100_0000_0000_0000);
}

/// Little-endian value of a concatenation.
pub proof fn lemma_le_value_concat(a: Seq<u8>, b: Seq<u8>)
    ensures
        le_value(a + b) == le_value(a) + pow256(a.len()) * le_value(b),
    decreases a.len(),
{
    if a.len() > 0 {
        assert((a + b).drop_first() =~= a.drop_first() + b);
        assert((a + b)[0] == a[0]);
        assert(le_value(a + b) == a[0] as nat + 256 * le_value(a.drop_first() + b));
        assert(pow256(a.len()) == 256 * pow256(a.drop_first().len()));
        lemma_le_value_concat(a.drop_first(), b);
        let t = pow256(a.drop_first().len()) * le_value(b);
        assert(256 * (le_value(a.drop_first()) + t) == 256 * le_value(a.drop_first()) + 256 * t)
            by (nonlinear_arith);
        assert(256 * t == pow256(a.len()) * le_value(b)) by (nonlinear_arith)
            requires
                t == pow256(a.drop_first().len()) * le_value(b),
                pow256(a.len()) == 256 * pow256(a.drop_first().len()),
        ;
        assert(le_value(a) == a[0] as nat + 256 * le_value(a.drop_first()));
    } else {
        assert(a + b =~= b);
        assert(pow256(0) == 1);
        assert(le_value(a) == 0);
    }
}

/// Bytes that are all zero have value zero.
pub proof fn lemma_le_value_zeros(s: Seq<u8>)
    requires
        forall|i: int| 0 <= i < s.len() ==> s[i] == 0,
    ensures
        le_value(s) == 0,
    decreases s.len(),
{
    if s.len() > 0 {
        lemma_le_value_zeros(s.drop_first());
    }
}

/// Reading bytes big-endian is reading them reversed little-endian.
pub proof fn lemma_be_is_reversed_le(s: Seq<u8>)
    ensures
        le_value(s.reverse()) == be_value(s),
    decreases s.len(),
{
    if s.len() > 0 {
        assert(s.reverse().drop_first() =~= s.drop_last().reverse());
        lemma_be_is_reversed_le(s.drop_last());
    }
}

/// Relies on uint's `overflowing_mul` on sp_core::U256: its flag is set
/// exactly when the full product has a nonzero upper half, that is when it
/// reaches 2^256. `from_little_endian` only changes the representation.
#[verifier::external_body]
fn product_overflows(a: &U256, b: &U256) -> (r: bool)
    ensures
        r == (a.value() * b.value() >= word_limit()),
{
    let x = sp_core::U256::from_little_endian(&a.0);
    let y = sp_core::U256::from_little_endian(&b.0);
    x.overflowing_mul(y).1
}

impl U256 {
    /// The value `v`.
    pub fn from_u64(v: u64) -> (r: U256)
        ensures
            r.value() == v,
    {
        let mut out = [0u8; 32];
        let mut x: u64 = v;
        let mut i: usize = 0;
        assert(le_value(out@.subrange(0, 0)) == 0);
        assert(pow256(0) == 1);
        while i < 8
            invariant
                i <= 8,
                v == le_value(out@.subrange(0, i as int)) + pow256(i as nat) * x,
                forall|j: int| i <= j < 32 ==> out@[j] == 0,
            decreases 8 - i,
        {
            let ghost before = out@;
            let b = (x % 256) as u8;
            out[i] = b;
            proof {
                assert(out@.subrange(0, i + 1) =~= before.subrange(0, i as int) + seq![b]);
                lemma_le_value_concat(before.subrange(0, i as int), seq![b]);
                assert(seq![b].drop_first() =~= Seq::<u8>::empty());
                assert(seq![b].len() == 1 && seq![b][0] == b);
                assert(le_value(seq![b].drop_first()) == 0);
                assert(le_value(seq![b]) == b as nat);
                assert(pow256((i + 1) as nat) == 256 * pow256(i as nat));
                let p = pow256(i as nat);
                assert(p * x == p * (x % 256) + (256 * p) * (x / 256)) by (nonlinear_arith);
            }
            x = x / 256;
            i = i + 1;
        }
        proof {
            lemma_pow256_eight();
            assert(x == 0) by (nonlinear_arith)
                requires
                    v == le_value(out@.subrange(0, 8)) + 0x1_0000_0000_0000_0000nat * x,
                    v < 0x1_0000_0000_0000_0000nat,
            ;
            assert(out@ =~= out@.subrange(0, 8) + out@.subrange(8, 32));
            lemma_le_value_concat(out@.subrange(0, 8), out@.subrange(8, 32));
            lemma_le_value_zeros(out@.subrange(8, 32));
        }
        U256(out)
    }

    /// The digest's bytes read as a big-endian integer.
    pub fn from_hash(hash: &H256) -> (r: U256)
        ensures
            r.value() == hash.uint(),
            r.0@ == hash.0@.reverse(),
    {
        let mut out = [0u8; 32];
        let mut i: usize = 0;
        while i < 32
            invariant
                i <= 32,
                forall|j: int| 0 <= j < i ==> out@[j] == hash.0@[31 - j],
            decreases 32 - i,
        {
            out[i] = hash.0[31 - i];
            i = i + 1;
        }
        let r = U256(out);
        proof {
            assert(r.0@ =~= hash.0@.reverse());
            lemma_be_is_reversed_le(hash.0@);
        }
        r
    }
}

/// Determine whether the given hash satisfies the given difficulty: the
/// hash, read as a big-endian integer, times the difficulty must not overflow
/// 256 bits.
pub fn hash_meets_difficulty(hash: &H256, difficulty: U256) -> (r: bool)
    ensures
        r == meets_difficulty(*hash, difficulty),
{
    let num_hash = U256::from_hash(hash);
    !product_overflows(&num_hash, &difficulty)
}

} // verus!
