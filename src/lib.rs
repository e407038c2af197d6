//! A two-asset constant-product liquidity pool with fee-bearing swaps and
//! proportional ownership tokens.
pub mod fixed;
pub mod laws;
pub mod pool;
pub mod pricing;
pub mod resource;
