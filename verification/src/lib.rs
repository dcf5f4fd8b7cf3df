//! Tiered block store: block metadata records with a fixed binary codec, an
//! archival (append-only, chain-length-ordered) tier, a working-set (id-keyed)
//! tier, and an iterator that walks a run of ancestors across both tiers.
//! A separate module provides Pedersen-style commitments over a small group.

pub mod codec;
pub mod gang;
pub mod commitment;
pub mod store;
pub mod iterator;
