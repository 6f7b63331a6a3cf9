//! A deterministic state-transition engine for a registry of breedable,
//! ownable digital assets ("kitties") on a ledger, together with a small
//! token-balance contract.
//!
//! The registry allocates identifiers monotonically, derives genomes from a
//! hash of the block seed, records parent/child/spouse relationships, keeps
//! an ownership index, and ties each creation to a currency stake reserved
//! against the creator.

pub mod erc20;
pub mod genome;
pub mod kv_seq;
pub mod ledger;
pub mod registry;
pub mod seq_facts;
