//! The engine.io protocol parser: packets and payloads in text and in binary.
pub mod base64_codec;
pub mod binary;
pub mod decoder;
pub mod packet;
pub mod string;
pub mod laws;
