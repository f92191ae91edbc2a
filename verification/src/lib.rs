//! Local sharing network: the key handling, message framing and protocol
//! decisions of a node, verified with Verus.

pub mod addresses;
pub mod connection_process;
pub mod crc32;
pub mod crypto;
pub mod crypto_node;
pub mod decimal;
pub mod error;
pub mod hex_codec;
pub mod messages;
pub mod ossl;
pub mod proto;
pub mod wire;
