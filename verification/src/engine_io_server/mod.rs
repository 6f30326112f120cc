//! The engine.io server: requests, transports, sockets, and the server's
//! registry of clients.
pub mod adapter;
pub mod server;
pub mod socket;
pub mod transport;
pub mod util;
