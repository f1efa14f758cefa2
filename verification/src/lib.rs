//! A chunked blob store over a rate-limited remote messaging channel.
//!
//! Large files are split into fixed-size chunks, transferred through a pool
//! of rate-limited credentials with retry-on-throttle, and reassembled by
//! chunk position on retrieval. This crate holds the verified core: the
//! chunking and reassembly arithmetic, the retry and backoff decisions, the
//! credential-poll decisions, and the admission-control bound. The
//! surrounding I/O (HTTP calls, persistence, timers) lives outside and feeds
//! these functions plain values.

pub mod chunks;
pub mod errors;
pub mod ids;
pub mod limiter;
pub mod scheduler;
pub mod telegram;
