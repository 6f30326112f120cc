//! The socket.io protocol parser: packet texts, binary attachments, and
//! encoding packets for the engine.io layer.
pub mod decoder;
pub mod encoder;
pub mod packet;
pub mod parser;
pub mod laws;
