//! Core of a BFT consensus engine over a certified DAG of proposal vertices:
//! quorum certificates, the DAG store and its deterministic linearization,
//! and the per-round consensus state machine.

pub mod bytes;
pub mod text;
pub mod types;
pub mod sorting;
pub mod codec;
pub mod parser;
pub mod crypto;
pub mod cache;
pub mod store;
pub mod linearize;
pub mod dag;
pub mod consensus;
pub mod geo_latency;
pub mod random;
pub mod fault_injector;
pub mod ml_predictor;
pub mod net;
pub mod clock;
pub mod bls_crypto;
