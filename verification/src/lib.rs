use vstd::prelude::*;

pub mod digits;
pub mod engine_io;
pub mod strings;
pub mod string_map;
pub mod engine_io_parser;
pub mod engine_io_server;
pub mod engine_io_warp;
pub mod socket_io_parser;
pub mod socket_io_server;

verus! {

/// The engine.io protocol revision implemented by this library.
pub const PROTOCOL: u8 = 3;

} // verus!
