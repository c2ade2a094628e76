//! A small distributed key-value store built around an append-only,
//! totally-ordered log, with verified core logic: the log's optimistic
//! concurrency control, the snapshot codec, the client cache and its
//! synchronization rules, and the write retry policy.

pub mod cache;
pub mod codec;
pub mod error;
pub mod keys;
pub mod log;
pub mod map;
pub mod matrix;
pub mod num;
pub mod record;
pub mod server;
pub mod snapshot;
pub mod sync;
pub mod text;
