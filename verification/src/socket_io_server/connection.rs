//! The record of an engine.io connection: its sockets, one per namespace it
//! joined, and the decoder of a packet whose attachments are arriving.
use vstd::prelude::*;
use crate::socket_io_parser::decoder::{all_attachments, reconstruct, DefaultDecoder, HandleEngineMessageError};
use crate::socket_io_parser::packet::{binary_to_packet_type, MultipartPacketHeader};
use crate::socket_io_parser::packet::Packet;
use crate::socket_io_server::namespace::{NamespaceEvent, SimpleNamespace};
use crate::engine_io_server::server::uuid_v4_text;
use crate::socket_io_server::socket::{Handshake, Socket};
use crate::socket_io_server::storage::Storage;
use crate::string_map::{copy_string, owned, str_eq};

verus! {

/// How a connection joined a namespace.
#[derive(Debug)]
pub enum AddToNamespaceSuccess {
    Added { socket_id: String },
    AlreadyExisting { socket_id: String },
}

/// Where the decoding of a packet's attachments stands.
#[derive(Debug)]
pub enum DecodeBinarySuccess {
    Done { packet: Packet },
    InProgress,
}

/// Why binary data could not be decoded.
#[derive(Debug)]
pub enum DecodeError {
    DecodeFailed(HandleEngineMessageError),
    InvalidDecoderState,
}

/// The packet that a decoder of the header makes of the attachments: the
/// header's type, id and namespace (`/` when it has none), and its JSON with
/// each placeholder replaced by its attachment.
pub open spec fn collected(header: MultipartPacketHeader, attachments: Seq<Seq<u8>>, packet: Packet) -> bool {
    &&& packet.packet_type == binary_to_packet_type(header.packet_type)
    &&& packet.id == header.id
    &&& packet.nsp@ == match header.nsp {
        Some(n) => n@,
        None => "/"@,
    }
    &&& packet.data@ == reconstruct(header.data@, all_attachments(attachments)).0
}

/// Where a packet of the namespace `nsp` goes on the connection: to the
/// socket recorded for that namespace (`Some` of its id), or nowhere when
/// none is recorded.
pub open spec fn delivered_to(c: Connection, nsp: Seq<char>, socket_id: Option<String>) -> bool {
    match socket_id {
        Some(id) => exists|i: int|
            0 <= i < c.spec_namespaces().len() && #[trigger] c.spec_namespaces()[i] == (nsp, id@)
                && c.spec_socket_ids().contains(id@),
        None => forall|i: int|
            0 <= i < c.spec_namespaces().len() && #[trigger] c.spec_namespaces()[i].0 == nsp
                ==> !c.spec_socket_ids().contains(c.spec_namespaces()[i].1),
    }
}

/// The id of the socket that joining a namespace answers.
pub open spec fn joined_socket(r: AddToNamespaceSuccess) -> Seq<char> {
    match r {
        AddToNamespaceSuccess::Added { socket_id } => socket_id@,
        AddToNamespaceSuccess::AlreadyExisting { socket_id } => socket_id@,
    }
}

/// What joining the namespace `name` does to a connection: with a socket
/// recorded for the name, that socket is answered and nothing changes;
/// else a socket made of the random bytes is added and recorded for it.
/// Either way the answered socket is the connection's and is recorded for
/// the name afterwards.
pub open spec fn joined(
    old: Connection,
    new: Connection,
    name: Seq<char>,
    id_bytes: Seq<u8>,
    r: AddToNamespaceSuccess,
) -> bool {
    let id = joined_socket(r);
    &&& new.spec_socket_ids().contains(id)
    &&& exists|i: int| 0 <= i < new.spec_namespaces().len() && #[trigger] new.spec_namespaces()[i] == (name, id)
    &&& if exists|i: int| 0 <= i < old.spec_namespaces().len() && #[trigger] old.spec_namespaces()[i].0 == name {
        &&& r is AlreadyExisting
        &&& exists|i: int| 0 <= i < old.spec_namespaces().len() && #[trigger] old.spec_namespaces()[i] == (name, id)
        &&& new.spec_namespaces() == old.spec_namespaces()
        &&& new.spec_socket_ids() == old.spec_socket_ids()
    } else {
        &&& r is Added
        &&& id == uuid_v4_text(id_bytes)
        &&& new.spec_namespaces() == old.spec_namespaces().push((name, id))
        &&& new.spec_socket_ids() == old.spec_socket_ids().push(id)
    }
}

/// An engine.io connection and its socket.io sockets.
#[derive(Debug)]
pub struct Connection {
    pub id: String,
    /// All the sockets owned by the connection, by id.
    sockets: Vec<Socket>,
    /// For each namespace name, the id of the connection's socket in it.
    namespaces: Vec<(String, String)>,
    decoder: Option<DefaultDecoder>,
}

impl Connection {
    /// The ids of the connection's sockets, in the order they were made.
    pub closed spec fn spec_socket_ids(&self) -> Seq<Seq<char>> {
        Seq::new(self.sockets@.len(), |i: int| self.sockets@[i].spec_id())
    }

    /// The names of the namespaces recorded with a socket, and the sockets.
    pub closed spec fn spec_namespaces(&self) -> Seq<(Seq<char>, Seq<char>)> {
        Seq::new(self.namespaces@.len(), |i: int| (self.namespaces@[i].0@, self.namespaces@[i].1@))
    }

    /// The decoder of the packet whose attachments are arriving, if any.
    pub closed spec fn spec_decoder(&self) -> Option<DefaultDecoder> {
        self.decoder
    }

    /// The connection's id.
    pub closed spec fn spec_id(&self) -> Seq<char> {
        self.id@
    }

    /// Whether the connection is collecting the attachments of a packet.
    pub fn has_decoder(&self) -> (r: bool)
        ensures
            r == self.spec_decoder() is Some,
    {
        self.decoder.is_some()
    }

    /// The connection's id.
    pub fn id_str(&self) -> (s: &str)
        ensures
            s@ == self.spec_id(),
    {
        self.id.as_str()
    }

    /// The decoder, when there is one, is well formed, and no namespace is
    /// recorded twice.
    pub open spec fn wf(&self) -> bool {
        &&& self.spec_decoder() matches Some(d) ==> d.wf()
        &&& forall|i: int, j: int|
            0 <= i < j < self.spec_namespaces().len() ==> #[trigger] self.spec_namespaces()[i].0
                != #[trigger] self.spec_namespaces()[j].0
        &&& forall|i: int|
            0 <= i < self.spec_namespaces().len() ==> self.spec_socket_ids().contains(
                #[trigger] self.spec_namespaces()[i].1,
            )
    }

    /// A new connection record with a first socket, whose id is made of the
    /// random bytes, which joins the namespace and is recorded for it; the
    /// namespace's listeners are to hear the returned event.
    pub fn initialize<S: Storage>(
        engine_connection_id: &str,
        handshake: Handshake,
        namespace: &mut SimpleNamespace<S>,
        id_bytes: [u8; 16],
    ) -> (r: (Connection, String, NamespaceEvent))
        requires
            old(namespace).wf(),
        ensures
            r.0.wf(),
            r.0.spec_id() == engine_connection_id@,
            r.0.spec_socket_ids() == seq![r.1@],
            r.1@ == uuid_v4_text(id_bytes@),
            r.0.spec_namespaces() == seq![(old(namespace).spec_name(), r.1@)],
            r.0.spec_decoder() is None,
            final(namespace).wf(),
            final(namespace).spec_name() == old(namespace).spec_name(),
            final(namespace).spec_storage() == old(namespace).spec_storage(),
            final(namespace).spec_socket_ids() == old(namespace).spec_socket_ids().insert(r.1@),
            r.2 matches NamespaceEvent::Connection { socket_id: s } && s@ == r.1@,
    {
        let mut connection = Connection {
            id: owned(engine_connection_id),
            sockets: Vec::new(),
            namespaces: Vec::new(),
            decoder: None,
        };
        proof {
            assert(connection.spec_namespaces() =~= Seq::<(Seq<char>, Seq<char>)>::empty());
            assert(connection.spec_socket_ids() =~= Seq::<Seq<char>>::empty());
        }
        let (socket_id, event) = connection.create_socket(handshake, namespace, id_bytes);
        proof {
            assert(connection.spec_socket_ids() =~= seq![socket_id@]);
            assert(connection.spec_namespaces() =~= seq![(old(namespace).spec_name(), socket_id@)]);
        }
        (connection, socket_id, event)
    }

    /// Makes a socket for the namespace, records it among the sockets and
    /// for the namespace, and adds it to the namespace.
    fn create_socket<S: Storage>(
        &mut self,
        handshake: Handshake,
        namespace: &mut SimpleNamespace<S>,
        id_bytes: [u8; 16],
    ) -> (r: (String, NamespaceEvent))
        requires
            old(self).wf(),
            old(namespace).wf(),
            forall|i: int| 0 <= i < old(self).spec_namespaces().len() ==> #[trigger] old(self).spec_namespaces()[i].0
                != old(namespace).spec_name(),
        ensures
            final(self).wf(),
            r.0@ == uuid_v4_text(id_bytes@),
            final(self).spec_id() == old(self).spec_id(),
            final(self).spec_namespaces() == old(self).spec_namespaces().push((old(namespace).spec_name(), r.0@)),
            final(self).spec_decoder() == old(self).spec_decoder(),
            final(self).spec_socket_ids() == old(self).spec_socket_ids().push(r.0@),
            final(namespace).wf(),
            final(namespace).spec_name() == old(namespace).spec_name(),
            final(namespace).spec_storage() == old(namespace).spec_storage(),
            final(namespace).spec_socket_ids() == old(namespace).spec_socket_ids().insert(r.0@),
            r.1 matches NamespaceEvent::Connection { socket_id: s } && s@ == r.0@,
    {
        let socket = Socket::new(handshake, namespace.get_name(), id_bytes);
        let socket_id = owned(socket.id_str());
        let ghost id_view = socket.spec_id();
        self.sockets.push(socket);
        proof {
            assert(self.spec_socket_ids() =~= old(self).spec_socket_ids().push(id_view));
        }
        self.namespaces.push((owned(namespace.get_name()), copy_string(&socket_id)));
        proof {
            let ns = old(self).spec_namespaces();
            assert(self.spec_namespaces() =~= ns.push((old(namespace).spec_name(), socket_id@)));
            let ids = self.spec_socket_ids();
            assert(ids[ids.len() - 1] == socket_id@);
            assert forall|k: int| 0 <= k < self.spec_namespaces().len() implies ids.contains(
                #[trigger] self.spec_namespaces()[k].1,
            ) by {
                if k < ns.len() {
                    let x = ns[k].1;
                    assert(old(self).spec_socket_ids().contains(x));
                    let w = choose|m: int| 0 <= m < old(self).spec_socket_ids().len() && old(self).spec_socket_ids()[m] == x;
                    assert(ids[w] == x);
                }
            }
        }
        let event = namespace.add_socket(socket_id.as_str());
        (socket_id, event)
    }

    /// The socket recorded for the namespace `name`, if any.
    fn find_namespace(&self, name: &str) -> (r: Option<usize>)
        ensures
            r is None ==> forall|i: int| 0 <= i < self.spec_namespaces().len() ==> #[trigger] self.spec_namespaces()[i].0 != name@,
            r matches Some(i) ==> i < self.spec_namespaces().len() && self.spec_namespaces()[i as int].0 == name@,
    {
        let mut i: usize = 0;
        while i < self.namespaces.len()
            invariant
                i <= self.namespaces@.len(),
                forall|j: int| 0 <= j < i ==> #[trigger] self.spec_namespaces()[j].0 != name@,
            decreases self.namespaces@.len() - i,
        {
            if str_eq(self.namespaces[i].0.as_str(), name) {
                return Some(i);
            }
            i = i + 1;
        }
        None
    }

    /// Joins the namespace: with a socket already recorded for it, that
    /// socket's id comes back; else a new socket, whose id is made of the
    /// random bytes, is made and recorded for it (see
    /// [`Connection::initialize`]).
    pub fn add_to_namespace<S: Storage>(
        &mut self,
        handshake: Handshake,
        namespace: &mut SimpleNamespace<S>,
        id_bytes: [u8; 16],
    ) -> (r: (AddToNamespaceSuccess, Option<NamespaceEvent>))
        requires
            old(self).wf(),
            old(namespace).wf(),
        ensures
            final(self).wf(),
            final(self).spec_id() == old(self).spec_id(),
            final(self).spec_decoder() == old(self).spec_decoder(),
            final(namespace).wf(),
            final(namespace).spec_name() == old(namespace).spec_name(),
            final(namespace).spec_storage() == old(namespace).spec_storage(),
            joined(*old(self), *final(self), old(namespace).spec_name(), id_bytes@, r.0),
            ({
                let recorded = exists|i: int|
                    0 <= i < old(self).spec_namespaces().len()
                        && #[trigger] old(self).spec_namespaces()[i].0 == old(namespace).spec_name();
                &&& final(self).spec_socket_ids().contains(
                    match r.0 {
                        AddToNamespaceSuccess::Added { socket_id } => socket_id@,
                        AddToNamespaceSuccess::AlreadyExisting { socket_id } => socket_id@,
                    },
                )
                &&& if recorded {
                    &&& r.0 matches AddToNamespaceSuccess::AlreadyExisting { socket_id } && exists|i: int|
                        0 <= i < old(self).spec_namespaces().len()
                            && #[trigger] old(self).spec_namespaces()[i] == (old(namespace).spec_name(), socket_id@)
                    &&& r.1 is None
                    &&& final(self).spec_namespaces() == old(self).spec_namespaces()
                    &&& final(self).spec_socket_ids() == old(self).spec_socket_ids()
                    &&& final(namespace).spec_socket_ids() == old(namespace).spec_socket_ids()
                } else {
                    &&& r.0 matches AddToNamespaceSuccess::Added { socket_id }
                        && socket_id@ == uuid_v4_text(id_bytes@)
                        && final(self).spec_namespaces() == old(self).spec_namespaces().push(
                            (old(namespace).spec_name(), socket_id@),
                        )
                        && final(self).spec_socket_ids() == old(self).spec_socket_ids().push(socket_id@)
                        && final(namespace).spec_socket_ids() == old(namespace).spec_socket_ids().insert(socket_id@)
                        && (r.1 matches Some(NamespaceEvent::Connection { socket_id: s }) && s@ == socket_id@)
                }
            }),
    {
        match self.find_namespace(namespace.get_name()) {
            Some(i) => {
                let socket_id = copy_string(&self.namespaces[i].1);
                proof {
                    assert(old(self).spec_namespaces()[i as int] == (old(namespace).spec_name(), socket_id@));
                    assert(self.spec_socket_ids().contains(self.spec_namespaces()[i as int].1));
                    assert(old(self).spec_namespaces()[i as int].0 == old(namespace).spec_name());
                }
                (AddToNamespaceSuccess::AlreadyExisting { socket_id }, None)
            },
            None => {
                let (socket_id, event) = self.create_socket(handshake, namespace, id_bytes);
                proof {
                    let ids = old(self).spec_socket_ids();
                    assert(self.spec_socket_ids()[ids.len() as int] == socket_id@);
                    let ns = old(self).spec_namespaces();
                    assert(self.spec_namespaces()[ns.len() as int] == (old(namespace).spec_name(), socket_id@));
                }
                (AddToNamespaceSuccess::Added { socket_id }, Some(event))
            },
        }
    }

    /// The ids of the connection's sockets.
    pub fn socket_ids(&self) -> (v: Vec<String>)
        ensures
            v@.len() == self.spec_socket_ids().len(),
            forall|i: int| 0 <= i < v@.len() ==> #[trigger] v@[i]@ == self.spec_socket_ids()[i],
    {
        let mut v: Vec<String> = Vec::new();
        let mut i: usize = 0;
        while i < self.sockets.len()
            invariant
                i <= self.sockets@.len(),
                v@.len() == i,
                forall|j: int| 0 <= j < i ==> #[trigger] v@[j]@ == self.spec_socket_ids()[j],
            decreases self.sockets@.len() - i,
        {
            v.push(owned(self.sockets[i].id_str()));
            i = i + 1;
        }
        v
    }

    /// Hands binary data to the decoder of the packet whose attachments are
    /// arriving: once the last one came, the packet comes back and the
    /// decoder is gone; before that the decoder waits for more. Without a
    /// decoder the state is invalid; when the decoder fails, it is dropped.
    pub fn decode_binary_data(&mut self, buffer: Vec<u8>) -> (r: Result<DecodeBinarySuccess, DecodeError>)
        requires
            old(self).wf(),
        ensures
            final(self).wf(),
            final(self).spec_id() == old(self).spec_id(),
            final(self).spec_socket_ids() == old(self).spec_socket_ids(),
            final(self).spec_namespaces() == old(self).spec_namespaces(),
            old(self).spec_decoder() is None ==> (r matches Err(DecodeError::InvalidDecoderState)
                && final(self).spec_decoder() is None),
            old(self).spec_decoder() matches Some(d) ==> ({
                let count = d.spec_header().attachments_count;
                if d.spec_buffer().len() == count {
                    r matches Err(DecodeError::DecodeFailed(HandleEngineMessageError::TooManyAttachments))
                        && final(self).spec_decoder() is None
                } else if d.spec_buffer().len() + 1 == count {
                    &&& r matches Ok(DecodeBinarySuccess::Done { packet }) && collected(
                        d.spec_header(),
                        d.spec_buffer().push(buffer@),
                        packet,
                    )
                    &&& final(self).spec_decoder() is None
                } else {
                    r matches Ok(DecodeBinarySuccess::InProgress) && final(self).spec_decoder() matches Some(
                        nd,
                    ) && nd.spec_header() == d.spec_header() && nd.spec_buffer() == d.spec_buffer().push(
                        buffer@,
                    )
                }
            }),
    {
        let r = match self.decoder.take() {
            Some(mut decoder) => {
                match decoder.decode_binary_data(buffer) {
                    Err(err) => Err(DecodeError::DecodeFailed(err)),
                    Ok(true) => {
                        let packet = decoder.collect_packet();
                        match packet {
                            Some(packet) => Ok(DecodeBinarySuccess::Done { packet }),
                            None => Err(DecodeError::InvalidDecoderState),
                        }
                    },
                    Ok(false) => {
                        self.decoder = Some(decoder);
                        Ok(DecodeBinarySuccess::InProgress)
                    },
                }
            },
            None => Err(DecodeError::InvalidDecoderState),
        };
        assert(self.spec_namespaces() =~= old(self).spec_namespaces());
        r
    }

    /// Starts collecting the attachments of a packet; refused while another
    /// packet's attachments are being collected.
    pub fn set_decoder(&mut self, decoder: DefaultDecoder) -> (r: Result<(), DecodeError>)
        requires
            old(self).wf(),
            decoder.wf(),
        ensures
            final(self).wf(),
            final(self).spec_id() == old(self).spec_id(),
            final(self).spec_socket_ids() == old(self).spec_socket_ids(),
            final(self).spec_namespaces() == old(self).spec_namespaces(),
            old(self).spec_decoder() is None ==> r is Ok && final(self).spec_decoder() == Some(decoder),
            old(self).spec_decoder() is Some ==> (r matches Err(DecodeError::InvalidDecoderState)
                && *final(self) == *old(self)),
    {
        let r = if self.decoder.is_none() {
            self.decoder = Some(decoder);
            Ok(())
        } else {
            Err(DecodeError::InvalidDecoderState)
        };
        assert(self.spec_namespaces() =~= old(self).spec_namespaces());
        r
    }

    /// The id of the socket that is to handle a packet: the one recorded for
    /// the packet's namespace, if any.
    pub fn handle_packet(&self, packet: &Packet) -> (r: Option<String>)
        requires
            self.wf(),
        ensures
            delivered_to(*self, packet.nsp@, r),
    {
        match self.find_namespace(packet.nsp.as_str()) {
            Some(i) => {
                let socket_id = &self.namespaces[i].1;
                let mut k: usize = 0;
                while k < self.sockets.len()
                    invariant
                        i < self.spec_namespaces().len(),
                        self.spec_namespaces()[i as int] == (packet.nsp@, socket_id@),
                        k <= self.sockets@.len(),
                        forall|j: int| 0 <= j < k ==> #[trigger] self.spec_socket_ids()[j] != socket_id@,
                    decreases self.sockets@.len() - k,
                {
                    if str_eq(self.sockets[k].id_str(), socket_id.as_str()) {
                        proof {
                            assert(self.spec_socket_ids()[k as int] == socket_id@);
                            assert(self.spec_namespaces()[i as int] == (packet.nsp@, socket_id@));
                        }
                        return Some(copy_string(socket_id));
                    }
                    k = k + 1;
                }
                proof {
                    assert forall|a: int| 0 <= a < self.spec_namespaces().len() && #[trigger] self.spec_namespaces()[a].0 == packet.nsp@
                        implies !self.spec_socket_ids().contains(self.spec_namespaces()[a].1) by {
                        if a != i {
                            if a < i {
                                assert(self.spec_namespaces()[a].0 != self.spec_namespaces()[i as int].0);
                            } else {
                                assert(self.spec_namespaces()[i as int].0 != self.spec_namespaces()[a].0);
                            }
                        }
                        if self.spec_socket_ids().contains(self.spec_namespaces()[a].1) {
                            let j = choose|j: int| 0 <= j < self.spec_socket_ids().len() && self.spec_socket_ids()[j] == self.spec_namespaces()[a].1;
                            assert(self.spec_socket_ids()[j] != socket_id@);
                        }
                    }
                }
                None
            },
            None => None,
        }
    }
}

/// Joining the same namespace twice answers, the second time, the socket
/// that the first join answered, and changes nothing more.
pub proof fn law_joining_twice_answers_the_first_socket(
    c0: Connection,
    c1: Connection,
    c2: Connection,
    name: Seq<char>,
    bytes1: Seq<u8>,
    bytes2: Seq<u8>,
    r1: AddToNamespaceSuccess,
    r2: AddToNamespaceSuccess,
)
    requires
        c1.wf(),
        joined(c0, c1, name, bytes1, r1),
        joined(c1, c2, name, bytes2, r2),
    ensures
        r2 is AlreadyExisting,
        joined_socket(r2) == joined_socket(r1),
        c2.spec_namespaces() == c1.spec_namespaces(),
        c2.spec_socket_ids() == c1.spec_socket_ids(),
{
    let a = choose|i: int| 0 <= i < c1.spec_namespaces().len() && #[trigger] c1.spec_namespaces()[i] == (
        name,
        joined_socket(r1),
    );
    assert(c1.spec_namespaces()[a].0 == name);
    let b = choose|i: int| 0 <= i < c1.spec_namespaces().len() && #[trigger] c1.spec_namespaces()[i] == (
        name,
        joined_socket(r2),
    );
    if a != b {
        if a < b {
            assert(c1.spec_namespaces()[a].0 != c1.spec_namespaces()[b].0);
        } else {
            assert(c1.spec_namespaces()[b].0 != c1.spec_namespaces()[a].0);
        }
    }
}

} // verus!
