//! A minimal persistent key-value store with a blocking "read or wait"
//! operation.
//!
//! The store maps string keys to opaque binary values.  Reads and writes are
//! non-blocking; `read_or_wait` suspends its caller until the key becomes
//! present, waking on every write.  The pieces that can be verified live
//! here: the volatile storage medium ([`backend`]) and the race-free polling
//! loop of the blocking read ([`waitloop`]).  Durable storage and the actual
//! suspension are the embedding program's concern; it drives the verified
//! loop one step at a time.

pub mod backend;
pub mod error;
pub mod waitloop;
