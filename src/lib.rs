//! Proof-of-work seal verification: a fixed-difficulty quick seal checked by
//! re-hashing, and an Ethash light-client seal checked against a per-epoch cache.

pub mod num;
pub mod codec;
pub mod quick;
pub mod light;

pub use codec::{Compute, DecodeError, LightSeal, Seal};
pub use light::{EpochCache, LightError, MinimalEthashAlgorithm};
pub use num::{H256, U256, hash_meets_difficulty};
pub use quick::{DifficultyError, EthashAlgorithm, verify_quick_seal};
