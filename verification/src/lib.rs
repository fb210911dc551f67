//! An in-memory key-value server core: the RESP wire codec, the command
//! interpreter and the expiring key-value store.

pub mod connection;
pub mod resp;
pub mod server;
pub mod store;
