//! A single-node proof-of-work ledger with difficulty retargeting, and the
//! encrypted-profile access control that is layered on top of it.

pub mod codec;
pub mod crypto;
pub mod clock;
pub mod transaction;
pub mod block;
pub mod canonical;
pub mod ledger;
pub mod chainscan;
pub mod keypair;
pub mod keystore;
pub mod profile;
pub mod filter;
pub mod visibility;
pub mod shard;
