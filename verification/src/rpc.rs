//! Reading the chain and submitting to it.
pub mod asking;
pub mod fetcher;
pub mod leader_tx;
pub mod market_registry;
pub mod pda;
pub mod replies;
pub mod rows;
pub mod shape;
pub mod sight;
pub mod snapshot;
pub mod solana;
pub mod tx;
