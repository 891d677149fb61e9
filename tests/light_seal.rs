use ethash_pow::codec::LIGHT_SEAL_LEN;
use ethash_pow::light::{check_mix_digest, epoch_for_height, EpochData, EPOCH_LENGTH, MAX_EPOCH};
use ethash_pow::{DecodeError, EpochCache, LightError, LightSeal, MinimalEthashAlgorithm, H256, U256};
use parity_scale_codec::Encode;

fn sample() -> LightSeal {
    LightSeal {
        block_height: 0x0102_0304_0506_0708,
        pow_hash: H256([0x11; 32]),
        mix_digest: H256([0x22; 32]),
        nonce: 0xdead_beef,
    }
}

#[test]
fn light_seal_encoding_matches_scale() {
    let s = sample();
    let scale = (s.block_height, sp_core::H256(s.pow_hash.0), sp_core::H256(s.mix_digest.0), s.nonce).encode();
    assert_eq!(s.encode(), scale);
    assert_eq!(s.encode().len(), LIGHT_SEAL_LEN);
}

#[test]
fn light_seal_round_trip() {
    let zero = LightSeal { block_height: 0, pow_hash: H256([0; 32]), mix_digest: H256([0; 32]), nonce: 0 };
    let max = LightSeal {
        block_height: u64::MAX,
        pow_hash: H256([0xff; 32]),
        mix_digest: H256([0xff; 32]),
        nonce: u64::MAX,
    };
    for s in [zero, max, sample()] {
        assert_eq!(LightSeal::decode(&s.encode()), Ok(s));
    }
}

#[test]
fn malformed_light_seal_bytes_are_refused() {
    let bytes = sample().encode();
    assert_eq!(LightSeal::decode(&bytes[..bytes.len() - 1]), Err(DecodeError::WrongLength));
    assert_eq!(LightSeal::decode(&[]), Err(DecodeError::WrongLength));
    let mut longer = bytes.clone();
    longer.push(0);
    assert_eq!(LightSeal::decode(&longer), Err(DecodeError::WrongLength));
    let mut algo = MinimalEthashAlgorithm::new();
    let d = algo.difficulty();
    assert_eq!(algo.verify(&H256([0; 32]), &bytes[..bytes.len() - 1], d), Ok(false));
    assert_eq!(algo.verify(&H256([0; 32]), &[], d), Ok(false));
    assert_eq!(algo.verify(&H256([0; 32]), &longer, d), Ok(false));
}

#[test]
fn fixed_difficulty_is_one_million() {
    let algo = MinimalEthashAlgorithm::new();
    assert_eq!(algo.difficulty(), U256::from_u64(1_000_000));
}

#[test]
fn mix_digest_comparison() {
    let s = sample();
    assert_eq!(check_mix_digest(&H256([0x22; 32]), &s), Ok(()));
    assert_eq!(check_mix_digest(&H256([0x23; 32]), &s), Err(LightError::MismatchedSealElement));
}

#[test]
fn epoch_beyond_range_is_unavailable() {
    let mut cache = EpochCache::new();
    let height = (MAX_EPOCH + 1) * EPOCH_LENGTH;
    assert_eq!(cache.prepare(height), Err(LightError::CacheUnavailable));
    assert!(!cache.contains(MAX_EPOCH + 1));
    assert!(EpochData::build(MAX_EPOCH + 1).is_none());
    let seal = LightSeal { block_height: u64::MAX, ..sample() };
    let mut algo = MinimalEthashAlgorithm::new();
    let d = algo.difficulty();
    assert_eq!(algo.verify(&H256([0; 32]), &seal.encode(), d), Err(LightError::CacheUnavailable));
}

#[test]
fn nothing_is_computed_before_an_epoch_is_prepared() {
    let cache = EpochCache::new();
    assert!(!cache.contains(0));
    assert!(cache.compute_light(5, &H256([0x11; 32]), 7).is_none());
}

#[test]
fn epochs_are_thirty_thousand_blocks() {
    assert_eq!(epoch_for_height(0), 0);
    assert_eq!(epoch_for_height(29_999), 0);
    assert_eq!(epoch_for_height(30_000), 1);
    assert_eq!(epoch_for_height(u64::MAX), u64::MAX / 30_000);
}
