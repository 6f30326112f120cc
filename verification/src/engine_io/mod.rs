//! The first engine.io server interface: its errors, events, states and
//! transport options.
pub mod server;
pub mod socket;
pub mod transport;
