//! The choice of an encoder and a decoder.
use vstd::prelude::*;
use crate::socket_io_parser::decoder::DefaultDecoder;
use crate::socket_io_parser::encoder::DefaultEncoder;

verus! {

/// An encoder and a decoder that work together.
pub trait Parser {
    type Encoder;
    type Decoder;
}

/// The parser of the socket.io protocol.
#[derive(Debug, Clone, Copy, PartialEq, Eq, Structural)]
pub struct DefaultParser;

impl Parser for DefaultParser {
    type Encoder = DefaultEncoder;
    type Decoder = DefaultDecoder;
}

} // verus!
