//! Namespaces: the packets they broadcast, the sockets they hold, and the
//! rooms a broadcast targets.
use vstd::prelude::*;
use crate::socket_io_parser::packet::{DataView, Packet, PacketDataValue, PacketType};
use crate::socket_io_server::error::{BroadcastError, EmitError};
use crate::socket_io_server::storage::{room_names, Flags, Storage};
use crate::string_map::{owned, StringSet};
use std::sync::Arc;

verus! {

/// Events of a namespace, for its listeners.
#[derive(Debug)]
pub enum NamespaceEvent {
    Broadcast,
    Connection { socket_id: String },
}

/// A set that holds `input_str` alone.
pub fn make_hash_set_from_str(input_str: &str) -> (s: StringSet)
    ensures
        s.wf(),
        s@ == Set::<Seq<char>>::empty().insert(input_str@),
{
    let mut set = StringSet::new();
    set.insert(owned(input_str));
    set
}

/// The view of the packet that an event makes: an `Event` packet of the
/// namespace, without id, whose data is the array of the event's name and
/// its data.
pub open spec fn event_packet(event_name: Seq<char>, data: DataView, namespace_name: Seq<char>) -> (
    PacketType,
    Option<u64>,
    Seq<char>,
    DataView,
) {
    (PacketType::Event, None, namespace_name, DataView::Array(seq![DataView::String(event_name), data]))
}

/// The packet that broadcasts the event `event_name` with `data` in the
/// namespace `namespace_name`.
pub fn make_packet_for_event(event_name: &str, data: PacketDataValue, namespace_name: &str) -> (p:
    Packet)
    ensures
        (p.packet_type, p.id, p.nsp@, p.data@) == event_packet(event_name@, data@, namespace_name@),
{
    let name = PacketDataValue::String(owned(event_name));
    let ghost name_view = name@;
    let ghost data_v = data@;
    let mut items: Vec<PacketDataValue> = Vec::new();
    items.push(name);
    items.push(data);
    let packet_data = PacketDataValue::Array(items);
    proof {
        let v = packet_data@;
        assert(v->Array_0 =~= seq![name_view, data_v]);
    }
    Packet { packet_type: PacketType::Event, data: packet_data, nsp: owned(namespace_name), id: None }
}

/// What adding the socket `socket_id` to the room `room` does to a
/// namespace (`old` before, `new` after, `e` the event): the storage is told
/// that the socket joins exactly the rooms `{room}`, the socket joins the
/// namespace, and its listeners are to hear `Connection` with the socket.
pub open spec fn joined_post<S: Storage>(
    old: SimpleNamespace<S>,
    new: SimpleNamespace<S>,
    socket_id: Seq<char>,
    room: Seq<char>,
    e: NamespaceEvent,
) -> bool {
    &&& new.wf()
    &&& new.spec_name() == old.spec_name()
    &&& new.spec_storage() == old.spec_storage()
    &&& new.spec_socket_ids() == old.spec_socket_ids().insert(socket_id)
    &&& old.spec_storage().rooms_joined(socket_id, Set::<Seq<char>>::empty().insert(room))
    &&& e matches NamespaceEvent::Connection { socket_id: s } && s@ == socket_id
}

/// Adding a socket to a room tells the namespace's storage, which stays the
/// same, to put that socket in that room and in no other; the socket is then
/// among the namespace's sockets, with those that were there.
pub proof fn law_joining_a_room_tells_the_storage<S: Storage>(
    old: SimpleNamespace<S>,
    new: SimpleNamespace<S>,
    socket_id: Seq<char>,
    room: Seq<char>,
    e: NamespaceEvent,
)
    requires
        joined_post(old, new, socket_id, room, e),
    ensures
        new.spec_storage() == old.spec_storage(),
        old.spec_storage().rooms_joined(socket_id, set![room]),
        new.spec_socket_ids().contains(socket_id),
        forall|k: Seq<char>| old.spec_socket_ids().contains(k) ==> new.spec_socket_ids().contains(k),
        forall|k: Seq<char>| new.spec_socket_ids().contains(k) ==> k == socket_id || old.spec_socket_ids().contains(k),
{
    assert(Set::<Seq<char>>::empty().insert(room) =~= set![room]);
}

/// What an emit hands to a broadcast: the event's name and data, the
/// targeted rooms (none: all sockets) and the flags.
#[derive(Debug)]
pub struct BroadcastRequest {
    pub event_name: String,
    pub data: PacketDataValue,
    pub rooms: Vec<String>,
    pub flags: Flags,
}

/// The broadcast that emitting the event makes; `None` for an empty event
/// name, which is refused before anything is sent.
pub fn broadcast_request(event_name: &str, data: PacketDataValue, rooms: Vec<String>, flags: Flags) -> (r:
    Option<BroadcastRequest>)
    ensures
        event_name@.len() == 0 <==> r is None,
        r matches Some(q) ==> q.event_name@ == event_name@ && q.data == data && q.rooms == rooms && q.flags
            == flags,
{
    if event_name.unicode_len() == 0 {
        None
    } else {
        Some(BroadcastRequest { event_name: owned(event_name), data, rooms, flags })
    }
}

/// What an emit answers for the outcome `b` of its broadcast.
pub open spec fn emit_answer(b: Result<(), BroadcastError>) -> Result<(), EmitError> {
    match b {
        Ok(()) => Ok(()),
        Err(_) => Err(EmitError::BroadcastError),
    }
}

/// `rooms` names each room of `set` once, and no other room.
pub open spec fn lists_each_once(rooms: Seq<Seq<char>>, set: Set<Seq<char>>) -> bool {
    &&& forall|i: int, j: int| 0 <= i < j < rooms.len() ==> #[trigger] rooms[i] != #[trigger] rooms[j]
    &&& forall|k: Seq<char>| set.contains(k) <==> rooms.contains(k)
}

/// What an emit answers for the outcome of its broadcast: `Ok` for `Ok`,
/// `BroadcastError` for a failure.
pub fn emit_outcome(r: Result<(), BroadcastError>) -> (e: Result<(), EmitError>)
    ensures
        e == emit_answer(r),
{
    match r {
        Ok(()) => Ok(()),
        Err(b) => Err(EmitError::from(b)),
    }
}

/// What every namespace can do: broadcast an event to rooms.
pub trait NamespacePriv: Sized {
    /// What the storages of the namespace may answer to a broadcast of the
    /// event to the rooms: the relation that `broadcast_packet` keeps
    /// between its arguments and its result.
    spec fn broadcast_answered(
        &self,
        event_name: Seq<char>,
        data: DataView,
        rooms: Seq<Seq<char>>,
        flags: Flags,
        r: Result<(), BroadcastError>,
    ) -> bool;

    /// Broadcasts the event to the sockets of the rooms (to all, when
    /// `rooms` is empty).
    fn broadcast_packet(
        &self,
        event_name: &str,
        data: PacketDataValue,
        rooms: &[String],
        flags: Flags,
    ) -> (r: Result<(), BroadcastError>)
        ensures
            self.broadcast_answered(event_name@, data@, room_names(rooms@), flags, r),
    ;
}

/// A namespace with a name: its sockets and the storage of its rooms.
#[derive(Debug)]
pub struct SimpleNamespace<S: Storage> {
    pub name: String,
    socket_ids: StringSet,
    storage: Arc<S>,
}

impl<S: Storage> SimpleNamespace<S> {
    /// The namespace's name.
    pub closed spec fn spec_name(&self) -> Seq<char> {
        self.name@
    }

    /// The sockets that joined the namespace.
    pub closed spec fn spec_socket_ids(&self) -> Set<Seq<char>> {
        self.socket_ids@
    }

    /// The storage of the namespace's rooms.
    pub closed spec fn spec_storage(&self) -> Arc<S> {
        self.storage
    }

    /// The set of sockets is well formed.
    pub closed spec fn wf(&self) -> bool {
        self.socket_ids.wf()
    }

    /// A namespace with the given name, no socket, and a new storage.
    pub fn new(name: String) -> (n: SimpleNamespace<S>)
        ensures
            n.wf(),
            n.spec_name() == name@,
            n.spec_socket_ids() == Set::<Seq<char>>::empty(),
    {
        SimpleNamespace { name, socket_ids: StringSet::new(), storage: Arc::new(S::new()) }
    }

    /// A namespace with the same name and storage, and no socket: what a
    /// dynamic namespace keeps of its members.
    pub fn share(&self) -> (n: SimpleNamespace<S>)
        ensures
            n.wf(),
            n.spec_name() == self.spec_name(),
            n.spec_storage() == self.spec_storage(),
            n.spec_socket_ids() == Set::<Seq<char>>::empty(),
    {
        SimpleNamespace {
            name: owned(self.name.as_str()),
            socket_ids: StringSet::new(),
            storage: Arc::clone(&self.storage),
        }
    }

    /// The namespace's name.
    pub fn get_name(&self) -> (s: &str)
        ensures
            s@ == self.spec_name(),
    {
        self.name.as_str()
    }

    /// Adds the socket to the room and to the namespace; the namespace's
    /// listeners are to hear the returned `Connection` event.
    pub fn add_socket_to_room(&mut self, socket_id: &str, room: &str) -> (e: NamespaceEvent)
        requires
            old(self).wf(),
        ensures
            joined_post(*old(self), *final(self), socket_id@, room@, e),
    {
        self.storage.add_all(socket_id, make_hash_set_from_str(room));
        self.socket_ids.insert(owned(socket_id));
        NamespaceEvent::Connection { socket_id: owned(socket_id) }
    }

    /// Adds the socket to the namespace and to its own room.
    pub fn add_socket(&mut self, socket_id: &str) -> (e: NamespaceEvent)
        requires
            old(self).wf(),
        ensures
            joined_post(*old(self), *final(self), socket_id@, socket_id@, e),
    {
        self.add_socket_to_room(socket_id, socket_id)
    }

    /// Takes the socket out of the namespace and of its own room.
    pub fn remove_socket(&mut self, socket_id: &str)
        requires
            old(self).wf(),
        ensures
            final(self).wf(),
            final(self).spec_name() == old(self).spec_name(),
            final(self).spec_storage() == old(self).spec_storage(),
            final(self).spec_socket_ids() == old(self).spec_socket_ids().remove(socket_id@),
            old(self).spec_storage().room_left(socket_id@, socket_id@),
    {
        self.socket_ids.remove(socket_id);
        self.storage.del(socket_id, socket_id);
    }

    /// Takes the socket out of the room.
    pub fn remove_socket_from_room(&self, socket_id: &str, room: &str)
        ensures
            self.spec_storage().room_left(socket_id@, room@),
    {
        self.storage.del(socket_id, room);
    }

    /// Targets the clients of the room.
    pub fn to(&self, room_name: &str) -> (f: FilteredNamespace<'_, SimpleNamespace<S>>)
        ensures
            f.spec_rooms() == Set::<Seq<char>>::empty().insert(room_name@),
            f.spec_namespace() == self,
    {
        FilteredNamespace::new(room_name, self)
    }

    /// What an emit of the event hands to the broadcast: `None` for an
    /// empty name; otherwise the name, the data, no room (all clients) and
    /// the flags.
    pub fn emit_request(&self, event_name: &str, data: PacketDataValue, flags: Flags) -> (q: Option<
        BroadcastRequest,
    >)
        ensures
            event_name@.len() == 0 <==> q is None,
            q matches Some(q) ==> q.event_name@ == event_name@ && q.data == data && q.flags == flags
                && q.rooms@.len() == 0,
    {
        broadcast_request(event_name, data, Vec::new(), flags)
    }

    /// Sends an event to all clients; an empty name is refused.
    pub fn emit(&self, event_name: &str, data: PacketDataValue) -> (r: Result<(), EmitError>)
        ensures
            event_name@.len() == 0 ==> r == Err::<(), EmitError>(EmitError::EmptyEventName),
            event_name@.len() > 0 ==> exists|b: Result<(), BroadcastError>|
                #[trigger] self.broadcast_answered(
                    event_name@,
                    data@,
                    Seq::empty(),
                    (Flags { volatile: false, compress: false, local: false }),
                    b,
                ) && r == emit_answer(b),
    {
        self.emit_with_flags(event_name, data, Flags::default())
    }

    /// Sends an event to all clients with the given flags; an empty name is
    /// refused. The request of [`SimpleNamespace::emit_request`] goes to the
    /// broadcast unchanged, and the emit answers for its outcome.
    pub fn emit_with_flags(&self, event_name: &str, data: PacketDataValue, flags: Flags) -> (r: Result<
        (),
        EmitError,
    >)
        ensures
            event_name@.len() == 0 ==> r == Err::<(), EmitError>(EmitError::EmptyEventName),
            event_name@.len() > 0 ==> exists|b: Result<(), BroadcastError>|
                #[trigger] self.broadcast_answered(event_name@, data@, Seq::empty(), flags, b) && r
                    == emit_answer(b),
    {
        let ghost dv = data@;
        match self.emit_request(event_name, data, flags) {
            None => Err(EmitError::EmptyEventName),
            Some(q) => {
                let b = self.broadcast_packet(q.event_name.as_str(), q.data, q.rooms.as_slice(), q.flags);
                proof {
                    assert(room_names(q.rooms@) =~= Seq::<Seq<char>>::empty());
                    assert(self.broadcast_answered(event_name@, dv, Seq::empty(), flags, b));
                }
                emit_outcome(b)
            },
        }
    }

    /// Sends a `message` event to all clients.
    pub fn send(&self, data: PacketDataValue) -> (r: Result<(), EmitError>)
        ensures
            exists|b: Result<(), BroadcastError>|
                #[trigger] self.broadcast_answered(
                    "message"@,
                    data@,
                    Seq::empty(),
                    (Flags { volatile: false, compress: false, local: false }),
                    b,
                ) && r == emit_answer(b),
    {
        self.send_with_flags(data, Flags::default())
    }

    /// Sends a `message` event to all clients with the given flags.
    pub fn send_with_flags(&self, data: PacketDataValue, flags: Flags) -> (r: Result<(), EmitError>)
        ensures
            exists|b: Result<(), BroadcastError>|
                #[trigger] self.broadcast_answered("message"@, data@, Seq::empty(), flags, b) && r
                    == emit_answer(b),
    {
        proof {
            reveal_strlit("message");
        }
        self.emit_with_flags("message", data, flags)
    }
}

impl<S: Storage> NamespacePriv for SimpleNamespace<S> {
    /// The answer that the namespace's storage may give to the broadcast of
    /// the event's packet in this namespace.
    open spec fn broadcast_answered(
        &self,
        event_name: Seq<char>,
        data: DataView,
        rooms: Seq<Seq<char>>,
        flags: Flags,
        r: Result<(), BroadcastError>,
    ) -> bool {
        self.spec_storage().broadcast_answer(event_packet(event_name, data, self.spec_name()), rooms, flags, r)
    }

    fn broadcast_packet(
        &self,
        event_name: &str,
        data: PacketDataValue,
        rooms: &[String],
        flags: Flags,
    ) -> (r: Result<(), BroadcastError>) {
        let packet = make_packet_for_event(event_name, data, self.get_name());
        self.storage.broadcast(packet, rooms, flags)
    }
}

/// A namespace made of the namespaces whose names matched a pattern; a
/// broadcast goes to each of them.
#[derive(Debug)]
pub struct DynamicNamespace<S: Storage> {
    members: Vec<SimpleNamespace<S>>,
}

impl<S: Storage> DynamicNamespace<S> {
    /// The names of the members, in the order they joined.
    pub closed spec fn spec_member_names(&self) -> Seq<Seq<char>> {
        Seq::new(self.members@.len(), |i: int| self.members@[i].spec_name())
    }

    /// A dynamic namespace without members.
    pub fn new() -> (d: DynamicNamespace<S>)
        ensures
            d.spec_member_names() == Seq::<Seq<char>>::empty(),
    {
        let d = DynamicNamespace { members: Vec::new() };
        assert(d.spec_member_names() =~= Seq::<Seq<char>>::empty());
        d
    }

    /// Adds a member; one with the same name is replaced in its place.
    pub fn insert_simple_namespace(&mut self, simple_namespace: SimpleNamespace<S>)
        ensures
            ({
                let names = old(self).spec_member_names();
                let n = simple_namespace.spec_name();
                if names.contains(n) {
                    final(self).spec_member_names() == names
                } else {
                    final(self).spec_member_names() == names.push(n)
                }
            }),
    {
        let ghost n = simple_namespace.spec_name();
        let mut i: usize = 0;
        while i < self.members.len()
            invariant
                self.members@ == old(self).members@,
                n == simple_namespace.spec_name(),
                i <= self.members@.len(),
                forall|j: int| 0 <= j < i ==> #[trigger] self.members@[j].spec_name() != n,
            decreases self.members@.len() - i,
        {
            if crate::string_map::str_eq(self.members[i].get_name(), simple_namespace.get_name()) {
                self.members.set(i, simple_namespace);
                proof {
                    assert(old(self).spec_member_names()[i as int] == n);
                    assert(final(self).spec_member_names() =~= old(self).spec_member_names());
                }
                return;
            }
            i = i + 1;
        }
        self.members.push(simple_namespace);
        proof {
            assert(final(self).spec_member_names() =~= old(self).spec_member_names().push(n));
            assert forall|j: int| 0 <= j < old(self).spec_member_names().len() implies
                old(self).spec_member_names()[j] != n by {
                assert(old(self).members@[j].spec_name() != n);
            }
        }
    }

    /// What an emit of the event hands to the broadcast: `None` for an
    /// empty name; otherwise the name, the data, no room (all clients) and
    /// the flags.
    pub fn emit_request(&self, event_name: &str, data: PacketDataValue, flags: Flags) -> (q: Option<
        BroadcastRequest,
    >)
        ensures
            event_name@.len() == 0 <==> q is None,
            q matches Some(q) ==> q.event_name@ == event_name@ && q.data == data && q.flags == flags
                && q.rooms@.len() == 0,
    {
        broadcast_request(event_name, data, Vec::new(), flags)
    }

    /// Sends an event to all clients of all members; an empty name is
    /// refused. Without members there is nothing to fail.
    pub fn emit(&self, event_name: &str, data: PacketDataValue) -> (r: Result<(), EmitError>)
        ensures
            event_name@.len() == 0 ==> r == Err::<(), EmitError>(EmitError::EmptyEventName),
            event_name@.len() > 0 ==> exists|b: Result<(), BroadcastError>|
                #[trigger] self.broadcast_answered(
                    event_name@,
                    data@,
                    Seq::empty(),
                    (Flags { volatile: false, compress: false, local: false }),
                    b,
                ) && r == emit_answer(b),
            event_name@.len() > 0 && self.spec_member_names().len() == 0 ==> r == Ok::<(), EmitError>(()),
    {
        self.emit_with_flags(event_name, data, Flags::default())
    }

    /// Sends an event with the given flags to all clients of all members; an
    /// empty name is refused. The request of
    /// [`DynamicNamespace::emit_request`] goes to the broadcast unchanged,
    /// and the emit answers for its outcome.
    pub fn emit_with_flags(&self, event_name: &str, data: PacketDataValue, flags: Flags) -> (r: Result<
        (),
        EmitError,
    >)
        ensures
            event_name@.len() == 0 ==> r == Err::<(), EmitError>(EmitError::EmptyEventName),
            event_name@.len() > 0 ==> exists|b: Result<(), BroadcastError>|
                #[trigger] self.broadcast_answered(event_name@, data@, Seq::empty(), flags, b) && r
                    == emit_answer(b),
            event_name@.len() > 0 && self.spec_member_names().len() == 0 ==> r == Ok::<(), EmitError>(()),
    {
        let ghost dv = data@;
        match self.emit_request(event_name, data, flags) {
            None => Err(EmitError::EmptyEventName),
            Some(q) => {
                let b = self.broadcast_packet(q.event_name.as_str(), q.data, q.rooms.as_slice(), q.flags);
                proof {
                    assert(room_names(q.rooms@) =~= Seq::<Seq<char>>::empty());
                    assert(self.broadcast_answered(event_name@, dv, Seq::empty(), flags, b));
                    if self.spec_member_names().len() == 0 && b is Err {
                        assert(self.spec_members().len() == 0);
                    }
                }
                emit_outcome(b)
            },
        }
    }

    /// Sends a `message` event to all clients of all members.
    pub fn send(&self, data: PacketDataValue) -> (r: Result<(), EmitError>)
        ensures
            exists|b: Result<(), BroadcastError>|
                #[trigger] self.broadcast_answered(
                    "message"@,
                    data@,
                    Seq::empty(),
                    (Flags { volatile: false, compress: false, local: false }),
                    b,
                ) && r == emit_answer(b),
            self.spec_member_names().len() == 0 ==> r == Ok::<(), EmitError>(()),
    {
        proof {
            reveal_strlit("message");
        }
        self.emit("message", data)
    }

    /// Sends a `message` event with the given flags to all clients of all
    /// members.
    pub fn send_with_flags(&self, data: PacketDataValue, flags: Flags) -> (r: Result<(), EmitError>)
        ensures
            exists|b: Result<(), BroadcastError>|
                #[trigger] self.broadcast_answered("message"@, data@, Seq::empty(), flags, b) && r
                    == emit_answer(b),
            self.spec_member_names().len() == 0 ==> r == Ok::<(), EmitError>(()),
    {
        proof {
            reveal_strlit("message");
        }
        self.emit_with_flags("message", data, flags)
    }
}

/// What the members may answer, in turn, to a broadcast of the event to
/// the rooms: `Ok` when each member answered `Ok`; a failure when the
/// members before one answered `Ok` and that one failed.
pub open spec fn members_answered<S: Storage>(
    members: Seq<SimpleNamespace<S>>,
    event_name: Seq<char>,
    data: DataView,
    rooms: Seq<Seq<char>>,
    flags: Flags,
    r: Result<(), BroadcastError>,
) -> bool {
    match r {
        Ok(()) => forall|j: int|
            0 <= j < members.len() ==> #[trigger] members[j].broadcast_answered(
                event_name,
                data,
                rooms,
                flags,
                Ok(()),
            ),
        Err(e) => exists|j: int|
            0 <= j < members.len() && (forall|k: int|
                0 <= k < j ==> #[trigger] members[k].broadcast_answered(event_name, data, rooms, flags, Ok(())))
                && #[trigger] members[j].broadcast_answered(event_name, data, rooms, flags, Err(e)),
    }
}

impl<S: Storage> DynamicNamespace<S> {
    /// The members, in the order they joined.
    pub closed spec fn spec_members(&self) -> Seq<SimpleNamespace<S>> {
        self.members@
    }
}

impl<S: Storage> NamespacePriv for DynamicNamespace<S> {
    /// The answers of the members, in turn.
    open spec fn broadcast_answered(
        &self,
        event_name: Seq<char>,
        data: DataView,
        rooms: Seq<Seq<char>>,
        flags: Flags,
        r: Result<(), BroadcastError>,
    ) -> bool {
        members_answered(self.spec_members(), event_name, data, rooms, flags, r)
    }

    /// Broadcasts to each member in turn, stopping at the first that fails.
    fn broadcast_packet(
        &self,
        event_name: &str,
        data: PacketDataValue,
        rooms: &[String],
        flags: Flags,
    ) -> (r: Result<(), BroadcastError>) {
        let ghost names = room_names(rooms@);
        let mut i: usize = 0;
        while i < self.members.len()
            invariant
                i <= self.members@.len(),
                names == room_names(rooms@),
                forall|k: int|
                    0 <= k < i ==> #[trigger] self.members@[k].broadcast_answered(
                        event_name@,
                        data@,
                        names,
                        flags,
                        Ok(()),
                    ),
            decreases self.members@.len() - i,
        {
            let member = &self.members[i];
            let d = data.copy();
            let b = member.broadcast_packet(event_name, d, rooms, flags);
            assert(self.members@[i as int].broadcast_answered(event_name@, data@, names, flags, b));
            match b {
                Ok(()) => {
                    assert(b == Ok::<(), BroadcastError>(b->Ok_0));
                },
                Err(e) => {
                    proof {
                        assert(self.spec_members()[i as int].broadcast_answered(
                            event_name@,
                            data@,
                            names,
                            flags,
                            Err(e),
                        ));
                    }
                    return Err(e);
                },
            }
            i = i + 1;
        }
        Ok(())
    }
}

/// A namespace narrowed to one or more rooms.
#[derive(Debug)]
pub struct FilteredNamespace<'a, N: NamespacePriv> {
    namespace: &'a N,
    rooms: StringSet,
}

impl<'a, N: NamespacePriv> FilteredNamespace<'a, N> {
    /// The targeted rooms.
    pub closed spec fn spec_rooms(&self) -> Set<Seq<char>> {
        self.rooms@
    }

    /// The namespace that is narrowed.
    pub closed spec fn spec_namespace(&self) -> &'a N {
        self.namespace
    }

    /// The set of rooms is well formed: no room occurs twice.
    #[verifier::type_invariant]
    pub closed spec fn wf(&self) -> bool {
        self.rooms.wf()
    }

    /// The namespace narrowed to the room.
    pub fn new(room: &str, namespace: &'a N) -> (f: FilteredNamespace<'a, N>)
        ensures
            f.wf(),
            f.spec_rooms() == Set::<Seq<char>>::empty().insert(room@),
            f.spec_namespace() == namespace,
    {
        FilteredNamespace { namespace, rooms: make_hash_set_from_str(room) }
    }

    /// Widens the audience by another room.
    pub fn to(&self, room_name: &str) -> (f: FilteredNamespace<'a, N>)
        ensures
            f.wf(),
            f.spec_rooms() == self.spec_rooms().insert(room_name@),
            f.spec_namespace() == self.spec_namespace(),
    {
        proof {
            use_type_invariant(self);
        }
        let items = self.rooms.to_vec();
        let mut rooms = StringSet::new();
        let mut i: usize = 0;
        proof {
            self.rooms.lemma_items();
        }
        while i < items.len()
            invariant
                rooms.wf(),
                i <= items@.len(),
                items@.len() == self.rooms.spec_items().len(),
                forall|j: int| 0 <= j < items@.len() ==> #[trigger] items@[j]@ == self.rooms.spec_items()[j],
                rooms@ == Set::new(|k: Seq<char>| exists|j: int| 0 <= j < i && #[trigger] items@[j]@ == k),
            decreases items@.len() - i,
        {
            let ghost before = rooms@;
            rooms.insert(copy_room(&items[i]));
            i = i + 1;
            assert(rooms@ =~= Set::new(|k: Seq<char>| exists|j: int| 0 <= j < i && #[trigger] items@[j]@ == k)) by {
                assert forall|k: Seq<char>| rooms@.contains(k) implies (exists|j: int| 0 <= j < i && #[trigger] items@[j]@ == k) by {
                    if k == items@[i - 1]@ {
                    } else {
                        assert(before.contains(k));
                    }
                }
            }
        }
        assert(rooms@ =~= self.rooms@) by {
            assert forall|k: Seq<char>| self.rooms@.contains(k) implies rooms@.contains(k) by {
                assert(self.rooms.spec_items().contains(k));
                let j = choose|j: int| 0 <= j < self.rooms.spec_items().len() && self.rooms.spec_items()[j] == k;
                assert(items@[j]@ == k);
            }
            assert forall|k: Seq<char>| rooms@.contains(k) implies self.rooms@.contains(k) by {
                let j = choose|j: int| 0 <= j < items@.len() && #[trigger] items@[j]@ == k;
                assert(self.rooms.spec_items()[j] == k);
                assert(self.rooms.spec_items().contains(k));
            }
        }
        rooms.insert(owned(room_name));
        FilteredNamespace { namespace: self.namespace, rooms }
    }

    /// Widens the audience by another room.
    pub fn add_room(self, room_name: &str) -> (f: FilteredNamespace<'a, N>)
        ensures
            f.wf(),
            f.spec_rooms() == self.spec_rooms().insert(room_name@),
            f.spec_namespace() == self.spec_namespace(),
    {
        proof {
            use_type_invariant(&self);
        }
        let mut rooms = self.rooms;
        rooms.insert(owned(room_name));
        FilteredNamespace { namespace: self.namespace, rooms }
    }

    /// The targeted rooms, each once.
    pub fn target_rooms(&self) -> (v: Vec<String>)
        ensures
            lists_each_once(room_names(v@), self.spec_rooms()),
    {
        proof {
            use_type_invariant(self);
        }
        let v = self.rooms.to_vec();
        proof {
            let names = room_names(v@);
            self.rooms.lemma_items();
            assert forall|i: int, j: int| 0 <= i < j < names.len() implies #[trigger] names[i] != #[trigger] names[j] by {
                assert(v@[i]@ != v@[j]@);
            }
            assert forall|k: Seq<char>| self.spec_rooms().contains(k) <==> names.contains(k) by {
                if self.spec_rooms().contains(k) {
                    let i = choose|i: int| 0 <= i < self.rooms.spec_items().len() && self.rooms.spec_items()[i] == k;
                    assert(names[i] == k);
                }
                if names.contains(k) {
                    let i = choose|i: int| 0 <= i < names.len() && names[i] == k;
                    assert(self.rooms.spec_items()[i] == k);
                }
            }
        }
        v
    }

    /// What an emit of the event hands to the broadcast: `None` for an
    /// empty name; otherwise the name, the data, the targeted rooms each
    /// once, and the flags.
    pub fn emit_request(&self, event_name: &str, data: PacketDataValue, flags: Flags) -> (q: Option<
        BroadcastRequest,
    >)
        ensures
            event_name@.len() == 0 <==> q is None,
            q matches Some(q) ==> q.event_name@ == event_name@ && q.data == data && q.flags == flags
                && lists_each_once(room_names(q.rooms@), self.spec_rooms()),
    {
        broadcast_request(event_name, data, self.target_rooms(), flags)
    }

    /// Sends an event to the clients of the rooms; an empty name is refused.
    pub fn emit(&self, event_name: &str, data: PacketDataValue) -> (r: Result<(), EmitError>)
        ensures
            event_name@.len() == 0 ==> r == Err::<(), EmitError>(EmitError::EmptyEventName),
            event_name@.len() > 0 ==> exists|rooms: Seq<Seq<char>>, b: Result<(), BroadcastError>|
                lists_each_once(rooms, self.spec_rooms()) && #[trigger] self.spec_namespace().broadcast_answered(
                    event_name@,
                    data@,
                    rooms,
                    (Flags { volatile: false, compress: false, local: false }),
                    b,
                ) && r == emit_answer(b),
    {
        self.emit_with_flags(event_name, data, Flags::default())
    }

    /// Sends an event with the given flags to the clients of the rooms; an
    /// empty name is refused. The request of
    /// [`FilteredNamespace::emit_request`] goes to the namespace's broadcast
    /// unchanged, and the emit answers for its outcome.
    pub fn emit_with_flags(&self, event_name: &str, data: PacketDataValue, flags: Flags) -> (r: Result<
        (),
        EmitError,
    >)
        ensures
            event_name@.len() == 0 ==> r == Err::<(), EmitError>(EmitError::EmptyEventName),
            event_name@.len() > 0 ==> exists|rooms: Seq<Seq<char>>, b: Result<(), BroadcastError>|
                lists_each_once(rooms, self.spec_rooms())
                    && #[trigger] self.spec_namespace().broadcast_answered(event_name@, data@, rooms, flags, b)
                    && r == emit_answer(b),
    {
        let ghost dv = data@;
        match self.emit_request(event_name, data, flags) {
            None => Err(EmitError::EmptyEventName),
            Some(q) => {
                let ghost rooms = room_names(q.rooms@);
                let b = self.namespace.broadcast_packet(q.event_name.as_str(), q.data, q.rooms.as_slice(), q.flags);
                proof {
                    assert(lists_each_once(rooms, self.spec_rooms()));
                    assert(self.spec_namespace().broadcast_answered(event_name@, dv, rooms, flags, b));
                }
                emit_outcome(b)
            },
        }
    }

    /// Sends a `message` event to the clients of the rooms.
    pub fn send(&self, data: PacketDataValue) -> (r: Result<(), EmitError>)
        ensures
            exists|rooms: Seq<Seq<char>>, b: Result<(), BroadcastError>|
                lists_each_once(rooms, self.spec_rooms()) && #[trigger] self.spec_namespace().broadcast_answered(
                    "message"@,
                    data@,
                    rooms,
                    (Flags { volatile: false, compress: false, local: false }),
                    b,
                ) && r == emit_answer(b),
    {
        proof {
            reveal_strlit("message");
        }
        self.emit("message", data)
    }

    /// Sends a `message` event with the given flags to the clients of the
    /// rooms.
    pub fn send_with_flags(&self, data: PacketDataValue, flags: Flags) -> (r: Result<(), EmitError>)
        ensures
            exists|rooms: Seq<Seq<char>>, b: Result<(), BroadcastError>|
                lists_each_once(rooms, self.spec_rooms())
                    && #[trigger] self.spec_namespace().broadcast_answered("message"@, data@, rooms, flags, b)
                    && r == emit_answer(b),
    {
        proof {
            reveal_strlit("message");
        }
        self.emit_with_flags("message", data, flags)
    }
}

/// A copy of a room's name.
fn copy_room(s: &String) -> (r: String)
    ensures
        r@ == s@,
{
    crate::string_map::copy_string(s)
}

} // verus!
