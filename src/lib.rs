//! A peer-discovery tracker: clients register IPv6 addresses under a signed
//! 32-byte identity and others resolve that identity to its live addresses.
pub mod codec;
pub mod store;
pub mod signature;
pub mod server;
