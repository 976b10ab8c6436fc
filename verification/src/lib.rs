//! A CoAP (RFC 7252) endpoint library: message model, reliability layer,
//! per-peer sessions, the transport stack's decisions and a routing trie.

pub mod reliability;
pub mod table;
pub mod codes;
pub mod wire;
pub mod path;
pub mod message;
pub mod exchange;
pub mod session;
pub mod stack;
pub mod stack_laws;
pub mod context;
pub mod handler;
pub mod router;
pub mod client;
pub mod error;
pub mod oscore;
