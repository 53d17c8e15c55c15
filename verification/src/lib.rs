//! Monte Carlo estimation of confirmation latency for longest-chain protocols.
//!
//! The library compares a unit-work protocol ("Bitcoin") against a variant with
//! exponentially distributed per-block work plus a tunable bonus ("PoEM").  It
//! simulates how the heaviest visible chain grows under a bounded network
//! delay, computes the critical work depth `k` beyond which a delayed-broadcast
//! adversary can no longer overtake the honest chain, and reduces thousands of
//! independent trials to a single tail statistic per parameter choice.
//!
//! All quantities are exact rationals: each block or chain record stores an
//! integer numerator, and the enclosing sequence stores one denominator for
//! timestamps and one for work values.  Random draws are quantized to this
//! grid by the caller before they enter the library.

pub mod abstract_simulations;
pub mod analysis;
pub mod formatting;
pub mod laws;
pub mod sampling;
pub mod serial_simulations;
pub mod simulations;
pub mod sweeps;
pub mod types;
