//! Where a namespace keeps its rooms, and how it broadcasts to them.
use vstd::prelude::*;
use crate::socket_io_parser::packet::{DataView, Packet, PacketType};
use crate::socket_io_server::error::BroadcastError;
use crate::string_map::StringSet;

verus! {

/// The rooms of a namespace and the broadcasts to them. Users of the server
/// implement it; of a broadcast's answer nothing is promised here beyond
/// what an implementation states in `broadcast_answer`.
pub trait Storage: Sized {
    /// An empty storage.
    fn new() -> Self;

    /// What the storage may hold once `add_all` put the socket in the rooms.
    /// An implementation may narrow it; as given here it allows every
    /// storage.
    open spec fn rooms_joined(&self, socket_id: Seq<char>, rooms: Set<Seq<char>>) -> bool {
        true
    }

    /// Adds the socket to each of the rooms.
    fn add_all(&self, socket_id: &str, room_names: StringSet)
        ensures
            self.rooms_joined(socket_id@, room_names@),
    ;

    /// What the storage may hold once `del` took the socket out of the
    /// room. An implementation may narrow it; as given here it allows every
    /// storage.
    open spec fn room_left(&self, socket_id: Seq<char>, room: Seq<char>) -> bool {
        true
    }

    /// Takes the socket out of the room.
    fn del(&self, socket_id: &str, room_name: &str)
        ensures
            self.room_left(socket_id@, room_name@),
    ;

    /// What the storage may answer to a broadcast of the packet (by its
    /// view) to the rooms with the flags. An implementation may narrow it;
    /// as given here it allows every answer.
    open spec fn broadcast_answer(
        &self,
        packet: (PacketType, Option<u64>, Seq<char>, DataView),
        rooms: Seq<Seq<char>>,
        flags: Flags,
        r: Result<(), BroadcastError>,
    ) -> bool {
        true
    }

    /// Sends the packet to the sockets of the rooms (to all, when `rooms` is
    /// empty).
    fn broadcast(&self, packet: Packet, rooms: &[String], flags: Flags) -> (r: Result<(), BroadcastError>)
        ensures
            self.broadcast_answer(packet_view(packet), room_names(rooms@), flags, r),
    ;
}

/// A packet by its type, id, namespace and data.
pub open spec fn packet_view(p: Packet) -> (PacketType, Option<u64>, Seq<char>, DataView) {
    (p.packet_type, p.id, p.nsp@, p.data@)
}

/// The names of the rooms, in order.
pub open spec fn room_names(rooms: Seq<String>) -> Seq<Seq<char>> {
    rooms.map_values(|s: String| s@)
}

/// How a broadcast is made.
#[derive(Debug, Clone, Copy, PartialEq, Eq, Structural)]
pub struct Flags {
    pub volatile: bool,
    pub compress: bool,
    pub local: bool,
}

impl Flags {
    /// No flag set.
    pub fn default() -> (f: Flags)
        ensures
            f == (Flags { volatile: false, compress: false, local: false }),
    {
        Flags { volatile: false, compress: false, local: false }
    }
}

/// The storage that the server uses when none is given.
#[derive(Debug)]
pub struct DefaultStorage {}

} // verus!
