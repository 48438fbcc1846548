//! Client-side engine of a length-prefixed, verb-dispatch RPC protocol.
//!
//! The verified core covers request/response wire framing, response-kind
//! classification, the retry-with-backoff dispatch decisions, the global
//! admission limiter, and the per-destination connection-pool bookkeeping.
//! The async transport that drives it lives outside the library and feeds
//! it plain values.

use vstd::prelude::*;

pub mod classify;
pub mod client;
pub mod errors;
pub mod limiter;
pub mod pool;
pub mod retry;
pub mod wire;

pub use classify::Classified;
pub use client::Client;
pub use errors::MelnetError;
pub use limiter::AdmissionLimiter;
pub use pool::Destination;
pub use pool::LeaseDecision;
pub use pool::PoolEntry;
pub use retry::AttemptOutcome;
pub use retry::Step;
pub use wire::RawRequest;
pub use wire::RawResponse;

verus! {

/// Protocol version tag carried in every request envelope.
pub const PROTO_VER: u8 = 1;

} // verus!
