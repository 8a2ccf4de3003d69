//! Engine of a LAN peer-to-peer encrypted messaging mesh: message catalog and
//! wire codec, flood router, peer registry, chunked file transfer, the node's
//! decision logic, and thin wrappers over the cryptographic primitives.

pub mod bytes;
pub mod message;
pub mod wire;
pub mod payload;
pub mod router;
pub mod file_transfer;
pub mod crypto;
pub mod identity;
pub mod gateway;
pub mod peer;
pub mod node;
pub mod discovery;
pub mod transport;
pub mod storage;
