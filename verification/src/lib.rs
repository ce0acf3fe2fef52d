//! Core logic of a small real-time message board.
//!
//! The crate covers the abuse-mitigation pipeline (content scoring and a
//! tri-state policy decision), the per-recipient wire encoding of message
//! events (length-prefixed encrypted frames with noise padding), and the
//! state of the connection fan-out actor (subscription, broadcast target
//! selection, failure pruning and live-count replies).  I/O — sockets,
//! the database, HTTP — lives outside; every function here is pure
//! computation over plain values and is verified against its contract.

pub mod bridge;
pub mod bytesfmt;
pub mod uuidfmt;
pub mod score;
pub mod messages;
pub mod jsonout;
pub mod user;
pub mod policy;
pub mod wire;
pub mod registry;
pub mod util;
pub mod submit;
