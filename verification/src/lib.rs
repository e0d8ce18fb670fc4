//! Server core for an ephemeral, end-to-end-encrypted group chat service:
//! password-gated rooms behind derived join keys, a content-addressed file
//! store with per-object expiry, the message router that turns client frames
//! into state changes and outbound messages, and the line-oriented crypto
//! sidecar's request processing.

pub mod aead;
pub mod connections;
pub mod crypto;
pub mod encoding;
pub mod files;
pub mod hashing;
pub mod messages;
pub mod randomness;
pub mod registry;
pub mod room;
pub mod server;
pub mod sidecar;
