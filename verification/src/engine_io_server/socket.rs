//! Engine.io sockets: the state of a client connection and the decisions
//! taken on each event. The caller runs the transport and the timers and
//! carries out the returned [`SocketActions`].
use vstd::prelude::*;
use crate::engine_io_parser::packet::{Packet, PacketData, PacketDataView, PacketType, PacketView};
use crate::engine_io_server::transport::{RequestReply, TransportError, TransportEvent, TransportKind};
use crate::engine_io_server::util::{RequestContext, ServerError};
use crate::string_map::copy_string;
use std::sync::Arc;

verus! {

/// Every socket connection in Socket.io v2.x starts with polling, then upgrades to
/// websocket. Note that this will be reverse in v3.0.
#[derive(Debug, Clone, Copy, PartialEq, Eq, Structural)]
pub enum UpgradeState {
    Initial,
    Upgrading,
    Upgraded,
}

/// Where a socket stands between opening and closing.
#[derive(Debug, Clone, Copy, PartialEq, Eq, Structural)]
pub enum ReadyState {
    Opening,
    Open,
    Closing { with_discard: bool },
    Closed,
}

/// Events that a socket sends to the server.
#[derive(Debug)]
pub enum SocketEvent {
    Open { socket_id: String },
    Close { socket_id: String },
    Flush { socket_id: String },
    Drain { socket_id: String },
    Upgrade { socket_id: String, context: Arc<RequestContext> },
    Heartbeat { socket_id: String },
    Message { socket_id: String, context: Arc<RequestContext>, data: PacketData },
    Error { socket_id: String },
}

/// Why a socket closed.
#[derive(Debug, Clone, Copy, PartialEq, Eq, Structural)]
pub enum SocketError {
    TransportError,
    ParseError,
}

/// The acknowledgement callbacks of packets that were handed to the
/// transport together: one per packet when the transport frames packets,
/// else all of those flushed at once. Callbacks are known by their number.
#[derive(Debug, Clone, PartialEq)]
pub enum CallbackBatch {
    NonFramed { callbacks: Vec<u64> },
    Framed { callback: u64 },
}

/// What the caller must do after a socket took a decision.
#[derive(Debug)]
pub struct SocketActions {
    /// Events for the server, in order.
    pub events: Vec<SocketEvent>,
    /// Packets to hand to the transport, in order.
    pub transport_send: Option<Vec<Packet>>,
    /// The transport is to be dropped.
    pub drop_transport: bool,
    /// Acknowledgement callbacks to run, in order.
    pub run_callbacks: Vec<u64>,
    /// The ping timeout is to be started again.
    pub reset_ping_timer: bool,
}

/// The kinds of socket events, with their data's views.
pub enum SocketEventKind {
    Open,
    Close,
    Flush,
    Drain,
    Upgrade,
    Heartbeat,
    Message(crate::engine_io_parser::packet::PacketDataView),
    Error,
}

/// The kind of a socket event, and the socket it names.
pub open spec fn event_kind(e: SocketEvent) -> (SocketEventKind, Seq<char>) {
    match e {
        SocketEvent::Open { socket_id } => (SocketEventKind::Open, socket_id@),
        SocketEvent::Close { socket_id } => (SocketEventKind::Close, socket_id@),
        SocketEvent::Flush { socket_id } => (SocketEventKind::Flush, socket_id@),
        SocketEvent::Drain { socket_id } => (SocketEventKind::Drain, socket_id@),
        SocketEvent::Upgrade { socket_id, .. } => (SocketEventKind::Upgrade, socket_id@),
        SocketEvent::Heartbeat { socket_id } => (SocketEventKind::Heartbeat, socket_id@),
        SocketEvent::Message { socket_id, data, .. } => (SocketEventKind::Message(data@), socket_id@),
        SocketEvent::Error { socket_id } => (SocketEventKind::Error, socket_id@),
    }
}

/// The kinds of a sequence of events.
pub open spec fn event_kinds(es: Seq<SocketEvent>) -> Seq<(SocketEventKind, Seq<char>)> {
    es.map_values(|e: SocketEvent| event_kind(e))
}

/// The views of a sequence of packets.
pub open spec fn packet_views(ps: Seq<Packet>) -> Seq<PacketView> {
    ps.map_values(|p: Packet| p@)
}

impl SocketActions {
    /// No action.
    pub fn none() -> (a: SocketActions)
        ensures
            a.events@.len() == 0,
            a.transport_send is None,
            !a.drop_transport,
            a.run_callbacks@.len() == 0,
            !a.reset_ping_timer,
    {
        SocketActions {
            events: Vec::new(),
            transport_send: None,
            drop_transport: false,
            run_callbacks: Vec::new(),
            reset_ping_timer: false,
        }
    }
}

/// The state of a client connection.
#[derive(Debug)]
pub struct Socket {
    pub id: String,
    pub remote_address: String,
    upgrade: UpgradeState,
    ready: ReadyState,
    transport: Option<TransportKind>,
    write_buffer: Vec<Packet>,
    /// The callbacks of the packets in the write buffer.
    pending_callbacks: Vec<u64>,
    /// The callbacks of packets handed to the transport, in batches.
    flushed_callbacks: Vec<CallbackBatch>,
}

/// What a batch holds: whether the transport frames packets, and the
/// callbacks to run when it drains.
pub open spec fn batch_view(b: CallbackBatch) -> (bool, Seq<u64>) {
    match b {
        CallbackBatch::NonFramed { callbacks } => (false, callbacks@),
        CallbackBatch::Framed { callback } => (true, seq![callback]),
    }
}

/// What each batch holds.
pub open spec fn batch_views(s: Seq<CallbackBatch>) -> Seq<(bool, Seq<u64>)> {
    s.map_values(|b: CallbackBatch| batch_view(b))
}

/// The batches that a flush adds for the pending callbacks: one per
/// callback on a framing (websocket) transport, one for all of them else.
pub open spec fn batches_for(framing: bool, pending: Seq<u64>) -> Seq<(bool, Seq<u64>)> {
    if framing {
        Seq::new(pending.len(), |i: int| (true, seq![pending[i]]))
    } else {
        seq![(false, pending)]
    }
}

/// What [`Socket::send_packet`] does: an opening or open socket queues the
/// packet and its callback; with a transport that is writable it then hands
/// the whole buffer to the transport (the server hears `Flush` then `Drain`,
/// and the pending callbacks become batches). Any other socket is left as it
/// is.
pub open spec fn send_packet_post(
    old: Socket,
    new: Socket,
    packet: PacketView,
    callback: Option<u64>,
    writable: bool,
    a: SocketActions,
) -> bool {
    &&& new.wf()
    &&& new.spec_id() == old.spec_id()
    &&& new.spec_upgrade() == old.spec_upgrade()
    &&& new.spec_ready() == old.spec_ready()
    &&& new.spec_transport() == old.spec_transport()
    &&& !a.reset_ping_timer
    &&& !a.drop_transport
    &&& a.run_callbacks@.len() == 0
    &&& if old.spec_ready() == ReadyState::Opening || old.spec_ready() == ReadyState::Open {
        let buffer = old.spec_buffer().push(packet);
        let pending = match callback {
            Some(c) => old.spec_pending().push(c),
            None => old.spec_pending(),
        };
        if old.spec_transport() is Some && writable {
            &&& a.transport_send matches Some(cmd) && packet_views(cmd@) == buffer
            &&& event_kinds(a.events@) == seq![
                (SocketEventKind::Flush, old.spec_id()),
                (SocketEventKind::Drain, old.spec_id()),
            ]
            &&& new.spec_buffer().len() == 0
            &&& new.spec_pending().len() == 0
            &&& new.spec_flushed() == old.spec_flushed() + batches_for(
                old.spec_transport() == Some(TransportKind::WebSocket),
                pending,
            )
        } else {
            &&& a.transport_send is None
            &&& a.events@.len() == 0
            &&& new.spec_buffer() == buffer
            &&& new.spec_pending() == pending
            &&& new.spec_flushed() == old.spec_flushed()
        }
    } else {
        &&& a.transport_send is None
        &&& a.events@.len() == 0
        &&& new.spec_buffer() == old.spec_buffer()
        &&& new.spec_pending() == old.spec_pending()
        &&& new.spec_flushed() == old.spec_flushed()
    }
}

/// What [`Socket::on_packet`] does with a packet that came in: `old` and
/// `new` are the socket before and after, `a` the actions.
pub open spec fn on_packet_post(old: Socket, new: Socket, packet: PacketView, writable: bool, a: SocketActions) -> bool {
    let id = old.spec_id();
    &&& new.wf()
    &&& new.spec_id() == id
    &&& old.spec_ready() != ReadyState::Open ==> a.events@.len() == 0 && a.transport_send is None
        && !a.reset_ping_timer && !a.drop_transport && a.run_callbacks@.len() == 0 && new == old
    &&& old.spec_ready() == ReadyState::Open ==> a.reset_ping_timer
    &&& old.spec_ready() == ReadyState::Open && packet.packet_type == PacketType::Ping ==> {
        let buffer = old.spec_buffer().push(PacketView { packet_type: PacketType::Pong, data: PacketDataView::Empty });
        &&& new.spec_ready() == old.spec_ready()
        &&& new.spec_upgrade() == old.spec_upgrade()
        &&& new.spec_transport() == old.spec_transport()
        &&& !a.drop_transport
        &&& a.run_callbacks@.len() == 0
        &&& if old.spec_transport() is Some && writable {
            &&& a.transport_send matches Some(cmd) && packet_views(cmd@) == buffer
            &&& event_kinds(a.events@) == seq![
                (SocketEventKind::Flush, id),
                (SocketEventKind::Drain, id),
                (SocketEventKind::Heartbeat, id),
            ]
            &&& new.spec_buffer().len() == 0
            &&& new.spec_pending().len() == 0
            &&& new.spec_flushed() == old.spec_flushed() + batches_for(
                old.spec_transport() == Some(TransportKind::WebSocket),
                old.spec_pending(),
            )
        } else {
            &&& a.transport_send is None
            &&& event_kinds(a.events@) == seq![(SocketEventKind::Heartbeat, id)]
            &&& new.spec_buffer() == buffer
            &&& new.spec_pending() == old.spec_pending()
            &&& new.spec_flushed() == old.spec_flushed()
        }
    }
    &&& old.spec_ready() == ReadyState::Open && packet.packet_type == PacketType::Message ==> {
        &&& event_kinds(a.events@) == seq![(SocketEventKind::Message(packet.data), id)]
        &&& a.transport_send is None
        &&& !a.drop_transport
        &&& a.run_callbacks@.len() == 0
        &&& new == old
    }
    &&& old.spec_ready() == ReadyState::Open && packet.packet_type == PacketType::Upgrade
        && old.spec_upgrade() == UpgradeState::Upgrading ==> {
        &&& new.spec_transport() is None
        &&& a.drop_transport
        &&& event_kinds(a.events@) == seq![(SocketEventKind::Upgrade, id)]
        &&& a.transport_send is None
        &&& a.run_callbacks@.len() == 0
        &&& new.spec_buffer() == old.spec_buffer()
        &&& new.spec_pending() == old.spec_pending()
        &&& new.spec_flushed() == old.spec_flushed()
        &&& new.spec_ready() == old.spec_ready()
        &&& new.spec_upgrade() == old.spec_upgrade()
    }
    &&& old.spec_ready() == ReadyState::Open && packet.packet_type == PacketType::Upgrade
        && old.spec_upgrade() != UpgradeState::Upgrading ==> a.events@.len() == 0 && a.transport_send is None
        && !a.drop_transport && a.run_callbacks@.len() == 0 && new == old
}

/// An upgrade packet on an open socket that is upgrading drops the old
/// transport but keeps what was queued for the new one: the buffer, the
/// pending callbacks and the flushed batches stay as they were, nothing is
/// sent, and the server hears `Upgrade`.
pub proof fn law_upgrade_keeps_the_queue(
    old: Socket,
    new: Socket,
    packet: PacketView,
    writable: bool,
    a: SocketActions,
)
    requires
        on_packet_post(old, new, packet, writable, a),
        old.spec_ready() == ReadyState::Open,
        old.spec_upgrade() == UpgradeState::Upgrading,
        packet.packet_type == PacketType::Upgrade,
    ensures
        new.spec_buffer() == old.spec_buffer(),
        new.spec_pending() == old.spec_pending(),
        new.spec_flushed() == old.spec_flushed(),
        a.transport_send is None,
        a.drop_transport,
        new.spec_transport() is None,
        new.spec_ready() == ReadyState::Open,
        event_kinds(a.events@) == seq![(SocketEventKind::Upgrade, old.spec_id())],
{
}

/// A socket that is closing or closed queues nothing: a packet sent to it
/// changes neither its buffer nor its callbacks, and nothing is sent.
pub proof fn law_closed_socket_ignores_sends(
    old: Socket,
    new: Socket,
    packet: PacketView,
    callback: Option<u64>,
    writable: bool,
    a: SocketActions,
)
    requires
        !(old.spec_ready() == ReadyState::Opening || old.spec_ready() == ReadyState::Open),
        send_packet_post(old, new, packet, callback, writable, a),
    ensures
        new.spec_buffer() == old.spec_buffer(),
        new.spec_pending() == old.spec_pending(),
        a.transport_send is None,
        a.events@.len() == 0,
{
}

impl Socket {
    /// The socket's id.
    pub closed spec fn spec_id(&self) -> Seq<char> {
        self.id@
    }

    /// The address of the client.
    pub closed spec fn spec_remote_address(&self) -> Seq<char> {
        self.remote_address@
    }

    pub closed spec fn spec_upgrade(&self) -> UpgradeState {
        self.upgrade
    }

    pub closed spec fn spec_ready(&self) -> ReadyState {
        self.ready
    }

    pub closed spec fn spec_transport(&self) -> Option<TransportKind> {
        self.transport
    }

    pub closed spec fn spec_buffer(&self) -> Seq<PacketView> {
        packet_views(self.write_buffer@)
    }

    pub closed spec fn spec_pending(&self) -> Seq<u64> {
        self.pending_callbacks@
    }

    pub closed spec fn spec_flushed(&self) -> Seq<(bool, Seq<u64>)> {
        batch_views(self.flushed_callbacks@)
    }

    /// A closed socket holds no packets and no callbacks to send.
    pub open spec fn wf(&self) -> bool {
        self.spec_ready() == ReadyState::Closed ==> self.spec_buffer().len() == 0
            && self.spec_pending().len() == 0
    }

    /// Whether a flush hands the buffer to the transport now.
    pub open spec fn flushes(&self, writable: bool) -> bool {
        &&& self.spec_ready() != ReadyState::Closed
        &&& self.spec_buffer().len() > 0
        &&& self.spec_transport() is Some
        &&& writable
    }

    /// A new socket, opening, with a transport of the given kind.
    pub fn new(id: String, remote_address: String, transport_kind: TransportKind) -> (s: Socket)
        ensures
            s.wf(),
            s.spec_id() == id@,
            s.spec_remote_address() == remote_address@,
            s.spec_upgrade() == UpgradeState::Initial,
            s.spec_ready() == ReadyState::Opening,
            s.spec_transport() == Some(transport_kind),
            s.spec_buffer().len() == 0,
            s.spec_pending().len() == 0,
            s.spec_flushed().len() == 0,
    {
        Socket {
            id,
            remote_address,
            upgrade: UpgradeState::Initial,
            ready: ReadyState::Opening,
            transport: Some(transport_kind),
            write_buffer: Vec::new(),
            pending_callbacks: Vec::new(),
            flushed_callbacks: Vec::new(),
        }
    }

    /// The socket's id.
    pub fn id_str(&self) -> (s: &str)
        ensures
            s@ == self.spec_id(),
    {
        self.id.as_str()
    }

    /// The kind of the socket's transport, if it has one.
    pub fn get_transport_kind(&self) -> (k: Option<TransportKind>)
        ensures
            k == self.spec_transport(),
    {
        self.transport
    }

    /// The kind of the socket's transport; `Unknown` without one.
    pub fn get_transport_or_fail(&self) -> (r: Result<TransportKind, ServerError>)
        ensures
            match self.spec_transport() {
                Some(k) => r == Ok::<TransportKind, ServerError>(k),
                None => r == Err::<TransportKind, ServerError>(ServerError::Unknown),
            },
    {
        match self.transport {
            Some(k) => Ok(k),
            None => Err(ServerError::Unknown),
        }
    }

    /// The socket's ready state.
    pub fn ready_state(&self) -> (r: ReadyState)
        ensures
            r == self.spec_ready(),
    {
        self.ready
    }

    /// Opens the socket: it becomes open and queues an `Open` packet holding
    /// `open_packet_data` (see [`Socket::send_packet`]); the server hears
    /// `Open`, last, and the ping timeout is started.
    pub fn open(&mut self, open_packet_data: String, writable: bool) -> (a: SocketActions)
        requires
            old(self).wf(),
        ensures
            final(self).wf(),
            final(self).spec_id() == old(self).spec_id(),
            final(self).spec_ready() == ReadyState::Open,
            final(self).spec_transport() == old(self).spec_transport(),
            a.reset_ping_timer,
            !a.drop_transport,
            a.run_callbacks@.len() == 0,
            ({
                let open_packet = PacketView {
                    packet_type: PacketType::Open,
                    data: PacketDataView::Plaintext(open_packet_data@),
                };
                let buffer = old(self).spec_buffer().push(open_packet);
                if old(self).spec_transport() is Some && writable {
                    &&& a.transport_send matches Some(cmd) && packet_views(cmd@) == buffer
                    &&& final(self).spec_buffer().len() == 0
                    &&& event_kinds(a.events@) == seq![
                        (SocketEventKind::Flush, old(self).spec_id()),
                        (SocketEventKind::Drain, old(self).spec_id()),
                        (SocketEventKind::Open, old(self).spec_id()),
                    ]
                } else {
                    &&& a.transport_send is None
                    &&& final(self).spec_buffer() == buffer
                    &&& event_kinds(a.events@) == seq![(SocketEventKind::Open, old(self).spec_id())]
                }
            }),
    {
        self.ready = ReadyState::Open;
        let mut actions = self.send_packet(
            Packet { packet_type: PacketType::Open, data: PacketData::Plaintext(open_packet_data) },
            None,
            writable,
        );
        let ghost before = actions.events@;
        actions.events.push(SocketEvent::Open { socket_id: copy_string(&self.id) });
        actions.reset_ping_timer = true;
        proof {
            before.lemma_push_map_commute(|e: SocketEvent| event_kind(e), actions.events@.last());
            assert(actions.events@ == before.push(actions.events@.last()));
        }
        actions
    }

    /// Starts closing an open socket: with nothing left to send its
    /// transport is dropped at once; else the flush that empties the buffer
    /// drops it. A socket that is not open is left as it is.
    pub fn close(&mut self, discard: bool) -> (a: SocketActions)
        requires
            old(self).wf(),
        ensures
            final(self).wf(),
            final(self).spec_id() == old(self).spec_id(),
            final(self).spec_buffer() == old(self).spec_buffer(),
            final(self).spec_pending() == old(self).spec_pending(),
            final(self).spec_flushed() == old(self).spec_flushed(),
            final(self).spec_upgrade() == old(self).spec_upgrade(),
            a.events@.len() == 0,
            a.transport_send is None,
            a.run_callbacks@.len() == 0,
            !a.reset_ping_timer,
            old(self).spec_ready() == ReadyState::Open ==> {
                &&& final(self).spec_ready() == (ReadyState::Closing { with_discard: discard })
                &&& old(self).spec_buffer().len() == 0 ==> final(self).spec_transport() is None
                    && a.drop_transport
                &&& old(self).spec_buffer().len() > 0 ==> final(self).spec_transport()
                    == old(self).spec_transport() && !a.drop_transport
            },
            old(self).spec_ready() != ReadyState::Open ==> final(self).spec_ready() == old(
                self,
            ).spec_ready() && final(self).spec_transport() == old(self).spec_transport()
                && !a.drop_transport,
    {
        let mut actions = SocketActions::none();
        if self.ready == ReadyState::Open {
            self.ready = ReadyState::Closing { with_discard: discard };
            if self.write_buffer.len() == 0 {
                self.transport = None;
                actions.drop_transport = true;
            }
        }
        actions
    }

    /// Hands the write buffer to the transport when the socket is not
    /// closed, has packets to send, and has a writable transport: the server
    /// hears `Flush` then `Drain`; the pending callbacks become batches
    /// (see [`batches_for`]); a closing socket drops its transport. Returns
    /// the packets sent, if any.
    pub fn flush(&mut self, writable: bool) -> (r: (Option<Vec<Packet>>, SocketActions))
        requires
            old(self).wf(),
        ensures
            final(self).wf(),
            final(self).spec_id() == old(self).spec_id(),
            final(self).spec_upgrade() == old(self).spec_upgrade(),
            r.1.run_callbacks@.len() == 0,
            !r.1.reset_ping_timer,
            old(self).flushes(writable) ==> {
                &&& r.0 matches Some(sent) && packet_views(sent@) == old(self).spec_buffer()
                &&& r.1.transport_send matches Some(cmd) && packet_views(cmd@) == old(
                    self,
                ).spec_buffer()
                &&& event_kinds(r.1.events@) == seq![
                    (SocketEventKind::Flush, old(self).spec_id()),
                    (SocketEventKind::Drain, old(self).spec_id()),
                ]
                &&& final(self).spec_buffer().len() == 0
                &&& final(self).spec_pending().len() == 0
                &&& final(self).spec_flushed() == old(self).spec_flushed() + batches_for(
                    old(self).spec_transport() == Some(TransportKind::WebSocket),
                    old(self).spec_pending(),
                )
                &&& final(self).spec_ready() == old(self).spec_ready()
                &&& (old(self).spec_ready() is Closing ==> final(self).spec_transport() is None
                    && r.1.drop_transport)
                &&& (!(old(self).spec_ready() is Closing) ==> final(self).spec_transport() == old(
                    self,
                ).spec_transport() && !r.1.drop_transport)
            },
            !old(self).flushes(writable) ==> {
                &&& r.0 is None
                &&& r.1.transport_send is None
                &&& r.1.events@.len() == 0
                &&& !r.1.drop_transport
                &&& final(self).spec_buffer() == old(self).spec_buffer()
                &&& final(self).spec_pending() == old(self).spec_pending()
                &&& final(self).spec_flushed() == old(self).spec_flushed()
                &&& final(self).spec_ready() == old(self).spec_ready()
                &&& final(self).spec_transport() == old(self).spec_transport()
            },
    {
        let mut actions = SocketActions::none();
        let has_transport = self.transport.is_some();
        if self.ready != ReadyState::Closed && self.write_buffer.len() > 0 && has_transport && writable {
            actions.events.push(SocketEvent::Flush { socket_id: copy_string(&self.id) });
            let mut buffer: Vec<Packet> = Vec::new();
            std::mem::swap(&mut buffer, &mut self.write_buffer);
            let sent = clone_packets(&buffer);
            actions.transport_send = Some(sent);
            let mut callbacks: Vec<u64> = Vec::new();
            std::mem::swap(&mut callbacks, &mut self.pending_callbacks);
            let framing = match self.transport {
                Some(kind) => kind.supports_framing(),
                None => false,
            };
            let ghost flushed_before = self.spec_flushed();
            let mut added: Vec<CallbackBatch> = Vec::new();
            if framing {
                let mut k: usize = 0;
                while k < callbacks.len()
                    invariant
                        k <= callbacks@.len(),
                        batch_views(added@) == batches_for(
                            true,
                            callbacks@.subrange(0, k as int),
                        ),
                    decreases callbacks@.len() - k,
                {
                    let ghost prev = added@;
                    added.push(CallbackBatch::Framed { callback: callbacks[k] });
                    k = k + 1;
                    proof {
                        let sub = callbacks@.subrange(0, k - 1);
                        assert(callbacks@.subrange(0, k as int) =~= sub.push(callbacks@[k - 1]));
                        prev.lemma_push_map_commute(
                            |b: CallbackBatch| batch_view(b),
                            CallbackBatch::Framed { callback: callbacks@[k - 1] },
                        );
                    }
                    assert(batch_views(added@) =~= batches_for(
                        true,
                        callbacks@.subrange(0, k as int),
                    ));
                }
                assert(callbacks@.subrange(0, callbacks@.len() as int) =~= callbacks@);
            } else {
                added.push(CallbackBatch::NonFramed { callbacks });
                assert(batch_views(added@) =~= batches_for(
                    false,
                    old(self).spec_pending(),
                ));
            }
            let ghost added_view = added@;
            self.flushed_callbacks.append(&mut added);
            assert(self.spec_flushed() =~= flushed_before + batch_views(added_view));
            actions.events.push(SocketEvent::Drain { socket_id: copy_string(&self.id) });
            if let ReadyState::Closing { with_discard: _ } = self.ready {
                self.transport = None;
                actions.drop_transport = true;
            }
            proof {
                assert(self.spec_buffer() =~= Seq::<PacketView>::empty());
                assert(event_kinds(actions.events@) =~= seq![
                    (SocketEventKind::Flush, old(self).spec_id()),
                    (SocketEventKind::Drain, old(self).spec_id()),
                ]);
            }
            (Some(buffer), actions)
        } else {
            (None, actions)
        }
    }

    /// Queues a packet (and its callback) when the socket is opening or open,
    /// then flushes (see [`Socket::flush`]); otherwise does nothing. See
    /// [`send_packet_post`].
    pub fn send_packet(&mut self, packet: Packet, callback: Option<u64>, writable: bool) -> (a:
        SocketActions)
        requires
            old(self).wf(),
        ensures
            send_packet_post(*old(self), *final(self), packet@, callback, writable, a),
    {
        if self.ready == ReadyState::Opening || self.ready == ReadyState::Open {
            let ghost before = self.spec_buffer();
            self.write_buffer.push(packet);
            assert(self.spec_buffer() =~= before.push(packet@));
            if let Some(c) = callback {
                self.pending_callbacks.push(c);
            }
            let (_sent, actions) = self.flush(writable);
            actions
        } else {
            SocketActions::none()
        }
    }

    /// Queues a message with the given data (see [`Socket::send_packet`]).
    pub fn send(&mut self, packet_data: PacketData, callback: Option<u64>, writable: bool) -> (a:
        SocketActions)
        requires
            old(self).wf(),
        ensures
            send_packet_post(
                *old(self),
                *final(self),
                PacketView { packet_type: PacketType::Message, data: packet_data@ },
                callback,
                writable,
                a,
            ),
    {
        self.send_packet(Packet { packet_type: PacketType::Message, data: packet_data }, callback, writable)
    }

    /// The same as [`Socket::send`].
    pub fn write(&mut self, packet_data: PacketData, callback: Option<u64>, writable: bool) -> (a:
        SocketActions)
        requires
            old(self).wf(),
        ensures
            send_packet_post(
                *old(self),
                *final(self),
                PacketView { packet_type: PacketType::Message, data: packet_data@ },
                callback,
                writable,
                a,
            ),
    {
        self.send_packet(Packet { packet_type: PacketType::Message, data: packet_data }, callback, writable)
    }

    /// Replaces the transport with a new one of the given kind.
    pub fn maybe_upgrade(&mut self, transport_kind: TransportKind)
        requires
            old(self).wf(),
        ensures
            final(self).wf(),
            final(self).spec_transport() == Some(transport_kind),
            final(self).spec_ready() == old(self).spec_ready(),
            final(self).spec_buffer() == old(self).spec_buffer(),
            final(self).spec_pending() == old(self).spec_pending(),
    {
        self.transport = Some(transport_kind);
    }

    /// The transport closed: a socket that is not closed yet becomes closed,
    /// forgets what it had to send, drops its transport, and the server hears
    /// `Close`.
    pub fn on_close(&mut self, reason: SocketError) -> (a: SocketActions)
        requires
            old(self).wf(),
        ensures
            final(self).wf(),
            final(self).spec_id() == old(self).spec_id(),
            final(self).spec_ready() == ReadyState::Closed,
            a.transport_send is None,
            a.run_callbacks@.len() == 0,
            !a.reset_ping_timer,
            old(self).spec_ready() != ReadyState::Closed ==> {
                &&& final(self).spec_buffer().len() == 0
                &&& final(self).spec_pending().len() == 0
                &&& final(self).spec_transport() is None
                &&& final(self).spec_flushed() == old(self).spec_flushed()
                &&& final(self).spec_upgrade() == old(self).spec_upgrade()
                &&& final(self).spec_remote_address() == old(self).spec_remote_address()
                &&& a.drop_transport
                &&& event_kinds(a.events@) == seq![(SocketEventKind::Close, old(self).spec_id())]
            },
            // Closing a closed socket changes nothing, so closing twice is
            // closing once.
            old(self).spec_ready() == ReadyState::Closed ==> a.events@.len() == 0 && !a.drop_transport
                && *final(self) == *old(self),
    {
        let mut actions = SocketActions::none();
        if self.ready != ReadyState::Closed {
            self.ready = ReadyState::Closed;
            self.write_buffer.clear();
            self.pending_callbacks.clear();
            self.transport = None;
            actions.drop_transport = true;
            actions.events.push(SocketEvent::Close { socket_id: copy_string(&self.id) });
            assert(self.spec_buffer() =~= Seq::<PacketView>::empty());
            assert(event_kinds(actions.events@) =~= seq![(SocketEventKind::Close, old(self).spec_id())]);
        }
        actions
    }

    /// The transport failed: an opening or open socket closes (see
    /// [`Socket::on_close`]); the server hears `Error` in any case, last.
    pub fn on_transport_error(&mut self, error: TransportError) -> (a: SocketActions)
        requires
            old(self).wf(),
        ensures
            final(self).wf(),
            final(self).spec_id() == old(self).spec_id(),
            a.events@.len() >= 1,
            event_kind(a.events@.last()) == (SocketEventKind::Error, old(self).spec_id()),
            (old(self).spec_ready() == ReadyState::Opening || old(self).spec_ready()
                == ReadyState::Open) ==> final(self).spec_ready() == ReadyState::Closed
                && final(self).spec_transport() is None,
            !(old(self).spec_ready() == ReadyState::Opening || old(self).spec_ready()
                == ReadyState::Open) ==> final(self).spec_ready() == old(self).spec_ready()
                && a.events@.len() == 1,
    {
        let mut actions = if self.ready == ReadyState::Opening || self.ready == ReadyState::Open {
            match error {
                TransportError::PacketParseError => self.on_close(SocketError::ParseError),
                _ => self.on_close(SocketError::TransportError),
            }
        } else {
            SocketActions::none()
        };
        actions.events.push(SocketEvent::Error { socket_id: copy_string(&self.id) });
        actions
    }

    /// A packet came from the transport to an open socket (a socket in any
    /// other state ignores it): the ping timeout starts again; a ping is
    /// answered with a pong and the server hears `Heartbeat`; an upgrade of an
    /// upgrading socket drops the old transport, the server hears `Upgrade`
    /// and the socket flushes; a message reaches the server as `Message`.
    /// The other packet types have no handling yet on an open socket; they
    /// are not accepted.
    pub fn on_packet(&mut self, context: Arc<RequestContext>, packet: Packet, writable: bool) -> (a:
        SocketActions)
        requires
            old(self).wf(),
            old(self).spec_ready() == ReadyState::Open ==> (packet.packet_type == PacketType::Ping
                || packet.packet_type == PacketType::Upgrade || packet.packet_type
                == PacketType::Message),
        ensures
            on_packet_post(*old(self), *final(self), packet@, writable, a),
    {
        if self.ready != ReadyState::Open {
            return SocketActions::none();
        }
        match packet.packet_type {
            PacketType::Ping => {
                let mut actions = self.send_packet(
                    Packet { packet_type: PacketType::Pong, data: PacketData::Empty },
                    None,
                    writable,
                );
                let ghost before = actions.events@;
                let beat = SocketEvent::Heartbeat { socket_id: copy_string(&self.id) };
                let ghost beat_view = beat;
                actions.events.push(beat);
                actions.reset_ping_timer = true;
                proof {
                    assert(actions.events@ == before.push(beat_view));
                    assert(event_kinds(actions.events@) =~= event_kinds(before).push(
                        (SocketEventKind::Heartbeat, old(self).spec_id()),
                    ));
                    let id = old(self).spec_id();
                    if old(self).spec_transport() is Some && writable {
                        assert(event_kinds(actions.events@) =~= seq![
                            (SocketEventKind::Flush, id),
                            (SocketEventKind::Drain, id),
                            (SocketEventKind::Heartbeat, id),
                        ]);
                    } else {
                        assert(event_kinds(actions.events@) =~= seq![(SocketEventKind::Heartbeat, id)]);
                    }
                }
                actions
            },
            PacketType::Upgrade => {
                if self.upgrade == UpgradeState::Upgrading {
                    self.transport = None;
                    let socket_id = copy_string(&self.id);
                    let (_sent, mut actions) = self.flush(writable);
                    actions.events.insert(0, SocketEvent::Upgrade { socket_id, context });
                    actions.drop_transport = true;
                    actions.reset_ping_timer = true;
                    proof {
                        assert(event_kinds(actions.events@) =~= seq![
                            (SocketEventKind::Upgrade, old(self).spec_id()),
                        ]);
                    }
                    actions
                } else {
                    let mut actions = SocketActions::none();
                    actions.reset_ping_timer = true;
                    actions
                }
            },
            _ => {
                let mut actions = SocketActions::none();
                actions.events.push(
                    SocketEvent::Message {
                        context,
                        socket_id: copy_string(&self.id),
                        data: packet.data,
                    },
                );
                actions.reset_ping_timer = true;
                proof {
                    assert(event_kinds(actions.events@) =~= seq![
                        (SocketEventKind::Message(packet.data@), old(self).spec_id()),
                    ]);
                }
                actions
            },
        }
    }

    /// The transport drained: the first batch of flushed callbacks, if any,
    /// is taken out and run.
    pub fn on_drain(&mut self) -> (a: SocketActions)
        requires
            old(self).wf(),
        ensures
            final(self).wf(),
            final(self).spec_id() == old(self).spec_id(),
            final(self).spec_ready() == old(self).spec_ready(),
            final(self).spec_buffer() == old(self).spec_buffer(),
            old(self).spec_flushed().len() == 0 ==> a.run_callbacks@.len() == 0
                && final(self).spec_flushed() == old(self).spec_flushed(),
            old(self).spec_flushed().len() > 0 ==> {
                &&& final(self).spec_flushed() == old(self).spec_flushed().drop_first()
                &&& a.run_callbacks@ == old(self).spec_flushed()[0].1
            },
            a.events@.len() == 0,
            a.transport_send is None,
    {
        let mut actions = SocketActions::none();
        if self.flushed_callbacks.len() > 0 {
            let first = self.flushed_callbacks.remove(0);
            match first {
                CallbackBatch::Framed { callback } => {
                    actions.run_callbacks.push(callback);
                    assert(actions.run_callbacks@ =~= seq![callback]);
                },
                CallbackBatch::NonFramed { callbacks } => {
                    actions.run_callbacks = callbacks;
                },
            }
            assert(self.flushed_callbacks@ =~= old(self).flushed_callbacks@.drop_first());
        }
        actions
    }
}

impl Socket {
    /// Acts on an event from the transport: an error is
    /// [`Socket::on_transport_error`], a packet [`Socket::on_packet`], a drain
    /// a [`Socket::flush`] followed by [`Socket::on_drain`], a close
    /// [`Socket::on_close`] with a transport error as the reason.
    pub fn on_transport_event(&mut self, event: TransportEvent, writable: bool) -> (a: SocketActions)
        requires
            old(self).wf(),
            event matches TransportEvent::Packet { packet, .. } ==> (old(self).spec_ready()
                == ReadyState::Open ==> (packet.packet_type == PacketType::Ping
                || packet.packet_type == PacketType::Upgrade || packet.packet_type
                == PacketType::Message)),
        ensures
            final(self).wf(),
            final(self).spec_id() == old(self).spec_id(),
            event is Close ==> final(self).spec_ready() == ReadyState::Closed,
            event is Error ==> a.events@.len() >= 1 && event_kind(a.events@.last()) == (
                SocketEventKind::Error,
                old(self).spec_id(),
            ),
            event is Drain ==> {
                let flushed = if old(self).flushes(writable) {
                    old(self).spec_flushed() + batches_for(
                        old(self).spec_transport() == Some(TransportKind::WebSocket),
                        old(self).spec_pending(),
                    )
                } else {
                    old(self).spec_flushed()
                };
                &&& final(self).spec_ready() == old(self).spec_ready()
                &&& (old(self).flushes(writable) ==> final(self).spec_buffer().len() == 0
                    && (a.transport_send matches Some(cmd) && packet_views(cmd@) == old(
                    self,
                ).spec_buffer()))
                &&& (!old(self).flushes(writable) ==> a.transport_send is None && final(self).spec_buffer() == old(self).spec_buffer())
                &&& (flushed.len() == 0 ==> a.run_callbacks@.len() == 0 && final(self).spec_flushed().len() == 0)
                &&& (flushed.len() > 0 ==> a.run_callbacks@ == flushed[0].1 && final(self).spec_flushed() == flushed.drop_first())
            },
    {
        match event {
            TransportEvent::Error { error } => self.on_transport_error(error),
            TransportEvent::Packet { context, packet } => self.on_packet(context, packet, writable),
            TransportEvent::Drain => {
                let (_sent, mut actions) = self.flush(writable);
                let drained = self.on_drain();
                actions.run_callbacks = drained.run_callbacks;
                actions
            },
            TransportEvent::Close => self.on_close(SocketError::TransportError),
        }
    }
}

/// What a polling request is answered with: the transport's own response,
/// or the packets that a flush handed out, for the transport to send.
#[derive(Debug)]
pub enum PollingResponse<R> {
    Response(R),
    Packets(Vec<Packet>),
}

impl Socket {
    /// A polling request needs the socket's transport to be a polling one:
    /// `Unknown` without a transport, `BadRequest` with a websocket.
    pub fn polling_transport_or_fail(&self) -> (r: Result<(), ServerError>)
        ensures
            match self.spec_transport() {
                None => r == Err::<(), ServerError>(ServerError::Unknown),
                Some(TransportKind::Polling) => r is Ok,
                Some(TransportKind::WebSocket) => r == Err::<(), ServerError>(ServerError::BadRequest),
            },
    {
        let kind = self.get_transport_or_fail()?;
        kind.as_polling_or_fail()
    }

    /// Acts on what the polling transport made of a request: its own
    /// response is handed back; a drain (a poll request) flushes the socket
    /// whole (see [`Socket::flush`]): a polling transport is written to only
    /// when a poll request comes, so the poll is answered with every packet
    /// in the buffer, in order, or is a bad request when there is nothing to
    /// send; any other event is an unknown error.
    pub fn on_polling_reply<R>(&mut self, reply: RequestReply<R>) -> (r: (
        Result<PollingResponse<R>, ServerError>,
        SocketActions,
    ))
        requires
            old(self).wf(),
        ensures
            final(self).wf(),
            final(self).spec_id() == old(self).spec_id(),
            final(self).spec_ready() == old(self).spec_ready(),
            match reply {
                RequestReply::Response(resp) => {
                    &&& r.0 == Ok::<PollingResponse<R>, ServerError>(PollingResponse::Response(resp))
                    &&& r.1.events@.len() == 0 && r.1.transport_send is None
                    &&& final(self).spec_buffer() == old(self).spec_buffer()
                },
                RequestReply::Action(TransportEvent::Drain) => if old(self).flushes(true) {
                    &&& r.0 matches Ok(PollingResponse::Packets(ps)) && packet_views(ps@) == old(
                        self,
                    ).spec_buffer()
                    &&& r.1.transport_send matches Some(cmd) && packet_views(cmd@) == old(
                        self,
                    ).spec_buffer()
                    &&& event_kinds(r.1.events@) == seq![
                        (SocketEventKind::Flush, old(self).spec_id()),
                        (SocketEventKind::Drain, old(self).spec_id()),
                    ]
                    &&& final(self).spec_buffer().len() == 0
                } else {
                    &&& r.0 == Err::<PollingResponse<R>, ServerError>(ServerError::BadRequest)
                    &&& r.1.events@.len() == 0 && r.1.transport_send is None
                    &&& final(self).spec_buffer() == old(self).spec_buffer()
                },
                RequestReply::Action(_) => {
                    &&& r.0 == Err::<PollingResponse<R>, ServerError>(ServerError::Unknown)
                    &&& r.1.events@.len() == 0 && r.1.transport_send is None
                    &&& final(self).spec_buffer() == old(self).spec_buffer()
                },
            },
    {
        match reply {
            RequestReply::Action(TransportEvent::Drain) => {
                let (sent, actions) = self.flush(true);
                match sent {
                    Some(packets) => (Ok(PollingResponse::Packets(packets)), actions),
                    None => (Err(ServerError::BadRequest), actions),
                }
            },
            RequestReply::Action(_) => (Err(ServerError::Unknown), SocketActions::none()),
            RequestReply::Response(response) => (
                Ok(PollingResponse::Response(response)),
                SocketActions::none(),
            ),
        }
    }
}

/// Copies of the packets, with the same views.
pub fn clone_packets(ps: &Vec<Packet>) -> (r: Vec<Packet>)
    ensures
        packet_views(r@) == packet_views(ps@),
{
    let mut out: Vec<Packet> = Vec::new();
    let mut i: usize = 0;
    while i < ps.len()
        invariant
            i <= ps@.len(),
            packet_views(out@) == packet_views(ps@.subrange(0, i as int)),
        decreases ps@.len() - i,
    {
        let p = clone_packet(&ps[i]);
        let ghost before = out@;
        out.push(p);
        proof {
            let sub = ps@.subrange(0, i as int);
            assert(ps@.subrange(0, i + 1) =~= sub.push(ps@[i as int]));
            before.lemma_push_map_commute(|q: Packet| q@, p);
            sub.lemma_push_map_commute(|q: Packet| q@, ps@[i as int]);
        }
        i = i + 1;
    }
    assert(ps@.subrange(0, ps@.len() as int) =~= ps@);
    out
}

/// A copy of a packet.
pub fn clone_packet(p: &Packet) -> (r: Packet)
    ensures
        r@ == p@,
{
    let data = match &p.data {
        PacketData::Plaintext(s) => PacketData::Plaintext(copy_string(s)),
        PacketData::Binary(b) => PacketData::Binary(vstd::slice::slice_to_vec(b.as_slice())),
        PacketData::Empty => PacketData::Empty,
    };
    Packet { packet_type: p.packet_type, data }
}

} // verus!
