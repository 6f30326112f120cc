//! Engine.io packets: their type, their data, and the error of a failed parse.
use vstd::prelude::*;

verus! {

/// The type of an engine.io packet; its number on the wire is [`PacketType::code`].
#[derive(Debug, Clone, Copy, PartialEq, Eq, Structural)]
pub enum PacketType {
    Open,
    Close,
    Ping,
    Pong,
    Message,
    Upgrade,
    Noop,
}

impl PacketType {
    /// The number of the packet type on the wire.
    pub open spec fn code(self) -> u8 {
        match self {
            PacketType::Open => 0,
            PacketType::Close => 1,
            PacketType::Ping => 2,
            PacketType::Pong => 3,
            PacketType::Message => 4,
            PacketType::Upgrade => 5,
            PacketType::Noop => 6,
        }
    }

    /// The packet type with the number `c`, for `c <= 6`.
    pub open spec fn from_code(c: nat) -> PacketType {
        if c == 0 {
            PacketType::Open
        } else if c == 1 {
            PacketType::Close
        } else if c == 2 {
            PacketType::Ping
        } else if c == 3 {
            PacketType::Pong
        } else if c == 4 {
            PacketType::Message
        } else if c == 5 {
            PacketType::Upgrade
        } else {
            PacketType::Noop
        }
    }

    /// The number of this packet type on the wire.
    pub fn to_u8(self) -> (c: u8)
        ensures
            c == self.code(),
            c <= 6,
            PacketType::from_code(c as nat) == self,
    {
        match self {
            PacketType::Open => 0,
            PacketType::Close => 1,
            PacketType::Ping => 2,
            PacketType::Pong => 3,
            PacketType::Message => 4,
            PacketType::Upgrade => 5,
            PacketType::Noop => 6,
        }
    }

    /// The packet type with the number `value`; numbers above 6 are refused
    /// with the message "Invalid packet".
    pub fn parse_from_u8(value: u8) -> (r: Result<PacketType, ParsePacketError>)
        ensures
            value <= 6 ==> r == Ok::<PacketType, ParsePacketError>(PacketType::from_code(value as nat)),
            value <= 6 ==> PacketType::from_code(value as nat).code() == value,
            value > 6 ==> (r matches Err(e) && e.message@ == "Invalid packet"@),
    {
        if value == 0 {
            Ok(PacketType::Open)
        } else if value == 1 {
            Ok(PacketType::Close)
        } else if value == 2 {
            Ok(PacketType::Ping)
        } else if value == 3 {
            Ok(PacketType::Pong)
        } else if value == 4 {
            Ok(PacketType::Message)
        } else if value == 5 {
            Ok(PacketType::Upgrade)
        } else if value == 6 {
            Ok(PacketType::Noop)
        } else {
            Err(ParsePacketError { message: "Invalid packet".to_owned() })
        }
    }
}

/// The data of a packet: text, bytes, or nothing.
/// In text-encoded payloads bytes travel as base64; in binary-encoded
/// payloads text travels as UTF-8.
#[derive(Debug, Clone, PartialEq)]
pub enum PacketData {
    Plaintext(String),
    Binary(Vec<u8>),
    Empty,
}

/// The mathematical value of [`PacketData`].
pub enum PacketDataView {
    Plaintext(Seq<char>),
    Binary(Seq<u8>),
    Empty,
}

impl View for PacketData {
    type V = PacketDataView;

    open spec fn view(&self) -> PacketDataView {
        match self {
            PacketData::Plaintext(s) => PacketDataView::Plaintext(s@),
            PacketData::Binary(b) => PacketDataView::Binary(b@),
            PacketData::Empty => PacketDataView::Empty,
        }
    }
}

/// An engine.io packet.
#[derive(Debug, Clone, PartialEq)]
pub struct Packet {
    pub packet_type: PacketType,
    pub data: PacketData,
}

/// The mathematical value of a [`Packet`].
pub struct PacketView {
    pub packet_type: PacketType,
    pub data: PacketDataView,
}

impl View for Packet {
    type V = PacketView;

    open spec fn view(&self) -> PacketView {
        PacketView { packet_type: self.packet_type, data: self.data@ }
    }
}

/// The views of a sequence of packets.
pub open spec fn packets_view(ps: Seq<Packet>) -> Seq<PacketView> {
    ps.map_values(|p: Packet| p@)
}

/// One step of decoding a payload at a position: the parser stops there
/// without error (the payload ends), fails, would panic, or reads a packet
/// and ends at the given position.
pub enum PayloadStep {
    Stop,
    Fail,
    Panic,
    Item(PacketView, int),
}

/// The outcome of decoding a payload: the packets read, a failure, or an
/// input on which decoding is undefined (that callers must not give).
pub enum PayloadOutcome {
    Done(Seq<PacketView>),
    Failed,
    Panics,
}

/// `ps` read before the given outcome.
pub open spec fn prepend(ps: Seq<PacketView>, o: PayloadOutcome) -> PayloadOutcome {
    match o {
        PayloadOutcome::Done(q) => PayloadOutcome::Done(ps + q),
        other => other,
    }
}

/// A packet or payload could not be decoded.
#[derive(Debug, Clone, PartialEq)]
pub struct ParsePacketError {
    pub message: String,
}

impl ParsePacketError {
    /// The error of a packet that could not be decoded.
    pub fn packet() -> (e: ParsePacketError)
        ensures
            e.message@ == "Unable to decode packet"@,
    {
        ParsePacketError { message: "Unable to decode packet".to_owned() }
    }

    /// The error of a payload that could not be decoded.
    pub fn payload() -> (e: ParsePacketError)
        ensures
            e.message@ == "Unable to decode payload"@,
    {
        ParsePacketError { message: "Unable to decode payload".to_owned() }
    }

    /// The message of the error, as `Display` shows it.
    pub fn to_string(&self) -> (s: String)
        ensures
            s@ == self.message@,
    {
        self.message.clone()
    }
}

} // verus!
