use ethash_pow::codec::QUICK_SEAL_LEN;
use ethash_pow::{hash_meets_difficulty, verify_quick_seal};
use ethash_pow::{Compute, DecodeError, DifficultyError, EthashAlgorithm, Seal, H256, U256};
use parity_scale_codec::Encode;
use std::sync::Arc;

fn be_hash_of_u64(v: u64) -> H256 {
    let mut b = [0u8; 32];
    b[24..].copy_from_slice(&v.to_be_bytes());
    H256(b)
}

#[test]
fn zero_hash_meets_any_difficulty() {
    assert!(hash_meets_difficulty(&H256([0u8; 32]), U256([0xff; 32])));
    assert!(hash_meets_difficulty(&H256([0u8; 32]), U256::from_u64(1)));
}

#[test]
fn largest_difficulty_boundary() {
    let max = U256([0xff; 32]);
    assert!(hash_meets_difficulty(&be_hash_of_u64(1), max));
    assert!(!hash_meets_difficulty(&be_hash_of_u64(2), max));
}

#[test]
fn hash_is_read_big_endian() {
    // difficulty 2^128
    let mut d = [0u8; 32];
    d[16] = 1;
    let difficulty = U256(d);
    // 2^128 - 1 as a big-endian digest: the product stays below 2^256
    let mut below = [0u8; 32];
    for b in below[16..].iter_mut() {
        *b = 0xff;
    }
    assert!(hash_meets_difficulty(&H256(below), difficulty));
    // 2^128: the product is exactly 2^256
    let mut at = [0u8; 32];
    at[15] = 1;
    assert!(!hash_meets_difficulty(&H256(at), difficulty));
    // the same bytes read little-endian would be small; big-endian they are not
    let mut high = [0u8; 32];
    high[0] = 1;
    assert!(!hash_meets_difficulty(&H256(high), difficulty));
}

#[test]
fn meets_difficulty_near_quotient() {
    let d: u64 = 1_000_000;
    let difficulty = U256::from_u64(d);
    let limit = sp_core::U256::MAX / sp_core::U256::from(d);
    let ok = limit.to_big_endian();
    assert!(hash_meets_difficulty(&H256(ok), difficulty));
    let over = (limit + 1).to_big_endian();
    assert!(!hash_meets_difficulty(&H256(over), difficulty));
}

#[test]
fn u256_from_u64_little_endian() {
    let v = U256::from_u64(1_000_000);
    let mut expected = [0u8; 32];
    expected[0] = 0x40;
    expected[1] = 0x42;
    expected[2] = 0x0f;
    assert_eq!(v.0, expected);
    assert_eq!(v.0.to_vec(), sp_core::U256::from(1_000_000u64).encode());
    assert_eq!(U256::from_u64(u64::MAX).0[..8], [0xff; 8]);
}

fn sample_seal() -> Seal {
    let mut work = [0u8; 32];
    for (i, b) in work.iter_mut().enumerate() {
        *b = i as u8;
    }
    Seal { difficulty: U256::from_u64(1_000_000), work: H256(work), nonce: U256::from_u64(42) }
}

#[test]
fn seal_encoding_matches_scale() {
    let s = sample_seal();
    let scale = (
        sp_core::U256::from(1_000_000u64),
        sp_core::H256(s.work.0),
        sp_core::U256::from(42u64),
    )
        .encode();
    assert_eq!(s.encode(), scale);
    assert_eq!(s.encode().len(), QUICK_SEAL_LEN);
}

#[test]
fn seal_round_trip() {
    let zero = Seal { difficulty: U256([0; 32]), work: H256([0; 32]), nonce: U256([0; 32]) };
    let max = Seal { difficulty: U256([0xff; 32]), work: H256([0xff; 32]), nonce: U256([0xff; 32]) };
    for s in [zero, max, sample_seal()] {
        assert_eq!(Seal::decode(&s.encode()), Ok(s));
    }
}

#[test]
fn malformed_seal_bytes_are_refused() {
    let bytes = sample_seal().encode();
    assert_eq!(Seal::decode(&bytes[..bytes.len() - 1]), Err(DecodeError::WrongLength));
    assert_eq!(Seal::decode(&[]), Err(DecodeError::WrongLength));
    let mut longer = bytes.clone();
    longer.push(0);
    assert_eq!(Seal::decode(&longer), Err(DecodeError::WrongLength));
    let d = U256::from_u64(1);
    let pre = H256([0u8; 32]);
    assert!(!verify_quick_seal(&pre, &bytes[..bytes.len() - 1], d));
    assert!(!verify_quick_seal(&pre, &[], d));
    assert!(!verify_quick_seal(&pre, &longer, d));
}

#[test]
fn compute_hashes_the_encoding() {
    let c = Compute { difficulty: U256::from_u64(7), pre_hash: H256([3u8; 32]), nonce: U256::from_u64(9) };
    let bytes = c.encode();
    let s = c.compute();
    let expected = <sp_core::KeccakHasher as sp_core::Hasher>::hash(&bytes);
    assert_eq!(s.work.0, expected.0);
    assert_ne!(&s.work.0[..], &bytes[..32]);
    assert_eq!(s.difficulty, c.difficulty);
    assert_eq!(s.nonce, c.nonce);
}

#[test]
fn computed_seal_verifies_and_mutations_fail() {
    // at difficulty 1 every work meets the difficulty
    let difficulty = U256::from_u64(1);
    let pre_hash = H256([7u8; 32]);
    let seal = Compute { difficulty, pre_hash, nonce: U256::from_u64(5) }.compute();
    let algo = EthashAlgorithm::new(Arc::new(()));
    assert!(algo.verify(&pre_hash, &seal.encode(), difficulty));

    let other_nonce = Seal { nonce: U256::from_u64(6), ..seal };
    assert!(!algo.verify(&pre_hash, &other_nonce.encode(), difficulty));

    let mut w = seal.work.0;
    w[31] ^= 1;
    let other_work = Seal { work: H256(w), ..seal };
    assert!(!algo.verify(&pre_hash, &other_work.encode(), difficulty));

    let other_difficulty = Seal { difficulty: U256::from_u64(2), ..seal };
    assert!(!algo.verify(&pre_hash, &other_difficulty.encode(), difficulty));

    assert!(!algo.verify(&H256([8u8; 32]), &seal.encode(), difficulty));
}

#[test]
fn end_to_end_fixed_difficulty() {
    let pre_hash = H256([0u8; 32]);
    let d1 = U256::from_u64(1_000_000);
    let seal = Compute { difficulty: d1, pre_hash, nonce: U256::from_u64(0) }.compute();
    let bytes = seal.encode();
    assert_eq!(verify_quick_seal(&pre_hash, &bytes, d1), hash_meets_difficulty(&seal.work, d1));
    let d2 = U256::from_u64(2_000_000);
    // the seal names 1_000_000, so at another difficulty it never verifies
    assert!(!verify_quick_seal(&pre_hash, &bytes, d2));
    let seal2 = Compute { difficulty: d2, pre_hash, nonce: U256::from_u64(0) }.compute();
    assert_eq!(
        verify_quick_seal(&pre_hash, &seal2.encode(), d2),
        hash_meets_difficulty(&seal2.work, d2)
    );
}

#[test]
fn clone_shares_the_client() {
    let client = Arc::new(5u32);
    let a = EthashAlgorithm::new(client.clone());
    let b = a.clone();
    assert!(Arc::ptr_eq(a.client(), b.client()));
    assert!(Arc::ptr_eq(a.client(), &client));
}

#[test]
fn failed_difficulty_read_is_an_environment_error() {
    let algo = EthashAlgorithm::new(Arc::new(()));
    let d = U256::from_u64(1_000_000);
    assert!(matches!(algo.difficulty(Ok(d)), Ok(x) if x == d));
    let r = algo.difficulty(Err("state pruned".to_string()));
    assert!(matches!(r, Err(DifficultyError::Environment(m))
        if m == "Fetching difficulty from runtime failed: state pruned"));
}
