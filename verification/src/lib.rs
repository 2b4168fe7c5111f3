//! Instrumenting-allocator bookkeeping: a growable vector with an explicit
//! capacity policy, an address table with free-slot reuse, event counters,
//! point-in-time snapshots, and the HTTP/JSON sampling surface.

pub mod allocator_vec;
pub mod server;
pub mod stats;
