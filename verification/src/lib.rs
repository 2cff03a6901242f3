//! Off-chain keeper for a lazily distributed options market.
pub mod base58;
pub mod bot;
pub mod complaints;
pub mod decoder;
pub mod ids;
pub mod molemath;
pub mod order;
pub mod planner;
pub mod rpc;
pub mod table;
pub mod text;
pub mod wire;
