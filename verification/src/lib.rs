//! A per-channel, ordered, cryptographically verifiable message queue.
//!
//! Each channel owns a paged ring buffer of messages, a logical
//! message-count window in 1:1 correspondence with the stored messages,
//! and a running hash chain (MQC) that lets a consumer verify that it
//! received the exact, correctly ordered message history.

pub mod dmp;
pub mod indices;
pub mod model;
pub mod mqc;
pub mod ringbuf;
pub mod weights;
