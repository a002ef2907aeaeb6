//! Verified core of an inference gateway: cache keys, the latency window that
//! sets the hedging deadline, replica routing, prompt token estimation, the
//! fail-open rate limiter and the response decisions.

pub mod cache;
pub mod config;
pub mod handlers;
pub mod latency;
pub mod ratelimit;
pub mod routing;
pub mod text;
pub mod tokens;
