//! Core of a cross-chain relayer node: per-chain header tracking with reorg
//! resolution, Merkle inclusion checks, proof generation and the admission
//! bookkeeping of the proving service.
use vstd::prelude::*;

pub mod header;
pub mod header_store;
pub mod sync;
pub mod admission;
pub mod light_client;
pub mod p2p;
pub mod prover;
