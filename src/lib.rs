//! Sharded gossip reconciliation: circular arcs, canonical filter keys, a
//! self-describing bloom filter codec, set snapshots, time-windowed diff
//! resolution, the wire envelope and the per-session round state machine.
pub mod arc;
pub mod bloom;
pub mod connection;
pub mod diff;
pub mod error;
pub mod key;
pub mod round;
pub mod snapshot;
pub mod wire;
