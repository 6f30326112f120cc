//! The socket.io server: namespaces, the connections of engine.io clients,
//! and the decisions taken on their messages.
pub mod connection;
pub mod error;
pub mod namespace;
pub mod server;
pub mod socket;
pub mod storage;
