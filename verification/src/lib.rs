//! A router over a network of constant-product liquidity pools.
//!
//! Pools connecting the same pair of tokens are aggregated into a single
//! weighted edge of a token graph, and a trade is priced by driving the whole
//! graph to a simultaneous no-arbitrage equilibrium rather than by routing
//! along an explicit path.
//!
//! All quantities (reserves, prices, liquidities, trade amounts) are
//! fixed-point numbers: a `u64` counts multiples of one billionth of a token,
//! so that the arithmetic of the solver can be specified and verified exactly.

pub mod fixed;
pub mod router;
pub mod uni_v2_pool;
