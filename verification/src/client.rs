//! The client's side of a request: what to send, what to wait for, and
//! when to give up.
//!
//! An exchange touches no socket. The caller sends what an `Action` names,
//! waits for a datagram, and hands what arrived, or that nothing arrived in
//! time, to `Exchange::step`, which gives the next action.

use vstd::prelude::*;
use crate::protocol::{
    AckPayload, DataPayload, DataPayloadView, Packet, PacketType, PacketView, PayloadError,
    ACK_TIMEOUT, MAX_RETRIES,
};
use crate::model::LEADER_ID;
use crate::wire::NAME_WINDOW;
use vstd::utf8::*;

verus! {

/// What a client asks of a node.
#[derive(Debug, Clone, Copy, PartialEq, Eq, Structural)]
pub enum RequestKind {
    SetData,
    GetData,
}

/// Where an exchange stands.
#[derive(Debug, Clone, Copy, PartialEq, Eq, Structural)]
pub enum Phase {
    /// The request was sent and its `Ack` is awaited.
    AwaitAck,
    /// The request was acknowledged and the `Data` frame is awaited.
    AwaitData,
    /// The exchange is over.
    Closed,
}

/// What the caller is to do next.
#[derive(Debug)]
pub enum Action {
    /// Wait `pause_ms` milliseconds, send `packet`, then wait for a
    /// datagram.
    Send { pause_ms: u64, packet: Packet },
    /// Wait for another datagram.
    Receive,
    /// The blob arrived: send `ack` and hand `data` to the asker.
    Deliver { ack: Packet, data: Vec<u8> },
    /// The request was acknowledged; there is nothing more to do.
    Done,
    /// Every attempt failed.
    Failed,
    /// The exchange was over before.
    Closed,
}

/// What an action holds.
pub enum ActionView {
    Send { pause_ms: u64, packet: PacketView },
    Receive,
    Deliver { ack: PacketView, data: Seq<u8> },
    Done,
    Failed,
    Closed,
}

impl View for Action {
    type V = ActionView;

    open spec fn view(&self) -> ActionView {
        match self {
            Action::Send { pause_ms, packet } => ActionView::Send {
                pause_ms: *pause_ms,
                packet: packet@,
            },
            Action::Receive => ActionView::Receive,
            Action::Deliver { ack, data } => ActionView::Deliver { ack: ack@, data: data@ },
            Action::Done => ActionView::Done,
            Action::Failed => ActionView::Failed,
            Action::Closed => ActionView::Closed,
        }
    }
}

/// One request and what became of it so far.
#[derive(Debug)]
pub struct Exchange {
    client_id: u16,
    kind: RequestKind,
    payload: Vec<u8>,
    attempts: u8,
    phase: Phase,
    sent_id: u32,
}

/// What an exchange holds.
pub struct ExchangeView {
    pub client_id: u16,
    pub kind: RequestKind,
    /// The payload of the request.
    pub payload: Seq<u8>,
    /// How many attempts have failed.
    pub attempts: u8,
    pub phase: Phase,
    /// The packet id of the request that was sent last.
    pub sent_id: u32,
}

/// An exchange after a step, and what the caller is to do.
pub struct Turn {
    pub exchange: ExchangeView,
    pub action: ActionView,
}

impl View for Exchange {
    type V = ExchangeView;

    closed spec fn view(&self) -> ExchangeView {
        ExchangeView {
            client_id: self.client_id,
            kind: self.kind,
            payload: self.payload@,
            attempts: self.attempts,
            phase: self.phase,
            sent_id: self.sent_id,
        }
    }
}

/// The kind of frame that carries a request.
pub open spec fn request_type(kind: RequestKind) -> PacketType {
    match kind {
        RequestKind::SetData => PacketType::SetData,
        RequestKind::GetData => PacketType::GetData,
    }
}

impl ExchangeView {
    /// While an exchange is open, fewer than `MAX_RETRIES + 1` attempts
    /// have failed.
    pub open spec fn wf(self) -> bool {
        self.attempts <= MAX_RETRIES
    }

    /// The request, in a frame with the id `id`.
    pub open spec fn request(self, id: u32) -> PacketView {
        PacketView::with_id(id, self.client_id, LEADER_ID, request_type(self.kind), self.payload)
    }

    /// The first turn of an exchange: the request goes out at once.
    pub open spec fn begin(client_id: u16, kind: RequestKind, payload: Seq<u8>, id: u32) -> Turn {
        let exchange = ExchangeView {
            client_id,
            kind,
            payload,
            attempts: 0,
            phase: Phase::AwaitAck,
            sent_id: id,
        };
        Turn { exchange, action: ActionView::Send { pause_ms: 0, packet: exchange.request(id) } }
    }

    /// `datagram` is an `Ack` of the request that was sent last.
    pub open spec fn acknowledges(self, datagram: Seq<u8>) -> bool {
        &&& PacketView::decode(datagram) matches Some(packet)
        &&& packet.packet_type == PacketType::Ack.spec_tag()
        &&& AckPayload::decode(packet.payload) == Some(AckPayload { packet_id: self.sent_id })
    }

    /// The blob that `datagram` carries, if it is a `Data` frame whose
    /// payload decodes, and the id of that frame.
    pub open spec fn carried(datagram: Seq<u8>) -> Option<(u32, Seq<u8>)> {
        match PacketView::decode(datagram) {
            Some(packet) => if packet.packet_type == PacketType::Data.spec_tag() {
                match DataPayloadView::decode(packet.payload) {
                    Some(data) => Some((packet.packet_id, data.data)),
                    None => None,
                }
            } else {
                None
            },
            None => None,
        }
    }

    /// What follows a failed attempt: after `MAX_RETRIES` failures before
    /// it the exchange fails; else the request goes out again, in a frame
    /// with the id `next_id`, after a pause of `ACK_TIMEOUT`.
    pub open spec fn retry(self, next_id: u32) -> Turn {
        if self.attempts >= MAX_RETRIES {
            Turn {
                exchange: ExchangeView { phase: Phase::Closed, ..self },
                action: ActionView::Failed,
            }
        } else {
            Turn {
                exchange: ExchangeView {
                    attempts: (self.attempts + 1) as u8,
                    phase: Phase::AwaitAck,
                    sent_id: next_id,
                    ..self
                },
                action: ActionView::Send { pause_ms: ACK_TIMEOUT, packet: self.request(next_id) },
            }
        }
    }

    /// One turn: `received` is the datagram that arrived, or `None` if
    /// none arrived in time.
    ///
    /// While the `Ack` is awaited, an `Ack` of the request ends a `SetData`
    /// and lets a `GetData` wait for its `Data`. While the `Data` frame is
    /// awaited, one whose payload decodes is acknowledged in a frame with
    /// the id `next_id`, and its blob delivered. Anything else is a failed
    /// attempt.
    pub open spec fn step(self, received: Option<Seq<u8>>, next_id: u32) -> Turn {
        match self.phase {
            Phase::Closed => Turn { exchange: self, action: ActionView::Closed },
            Phase::AwaitAck => if received is Some && self.acknowledges(received->0) {
                match self.kind {
                    RequestKind::SetData => Turn {
                        exchange: ExchangeView { phase: Phase::Closed, ..self },
                        action: ActionView::Done,
                    },
                    RequestKind::GetData => Turn {
                        exchange: ExchangeView { phase: Phase::AwaitData, ..self },
                        action: ActionView::Receive,
                    },
                }
            } else {
                self.retry(next_id)
            },
            Phase::AwaitData => match received {
                Some(datagram) => match Self::carried(datagram) {
                    Some((id, data)) => Turn {
                        exchange: ExchangeView { phase: Phase::Closed, ..self },
                        action: ActionView::Deliver {
                            ack: PacketView::with_id(
                                next_id,
                                self.client_id,
                                LEADER_ID,
                                PacketType::Ack,
                                AckPayload { packet_id: id }.encode(),
                            ),
                            data,
                        },
                    },
                    None => self.retry(next_id),
                },
                None => self.retry(next_id),
            },
        }
    }
}

/// A client, known to nodes by its id.
#[derive(Debug, Clone, Copy)]
pub struct Client {
    id: u16,
}

impl Client {
    /// The id of the client.
    pub closed spec fn spec_id(&self) -> u16 {
        self.id
    }

    /// A client with the given id.
    pub fn new(id: u16) -> (client: Client)
        ensures
            client.spec_id() == id,
    {
        Client { id }
    }

    /// The id of the client.
    pub fn id(&self) -> (id: u16)
        ensures
            id == self.spec_id(),
    {
        self.id
    }

    /// Opens the exchange that stores `data` under `data_name`. The
    /// request goes out in a frame with the id `packet_id`. A name of more
    /// than 64 bytes is refused.
    pub fn set_data(&self, data_name: &str, data: &[u8], packet_id: u32) -> (opened: Result<
        (Exchange, Action),
        PayloadError,
    >)
        ensures
            match opened {
                Ok((exchange, action)) => {
                    &&& encode_utf8(data_name@).len() <= NAME_WINDOW
                    &&& exchange@.wf()
                    &&& (Turn { exchange: exchange@, action: action@ }) == ExchangeView::begin(
                        self.spec_id(),
                        RequestKind::SetData,
                        (DataPayloadView { name: data_name@, data: data@ }).encode(),
                        packet_id,
                    )
                },
                Err(PayloadError::NameTooLong) => encode_utf8(data_name@).len() > NAME_WINDOW,
            },
    {
        self.open(RequestKind::SetData, data_name, vstd::slice::slice_to_vec(data), packet_id)
    }

    /// Opens the exchange that asks for the blob stored under `data_name`.
    /// The request goes out in a frame with the id `packet_id`. A name of
    /// more than 64 bytes is refused.
    pub fn get_data(&self, data_name: &str, packet_id: u32) -> (opened: Result<
        (Exchange, Action),
        PayloadError,
    >)
        ensures
            match opened {
                Ok((exchange, action)) => {
                    &&& encode_utf8(data_name@).len() <= NAME_WINDOW
                    &&& exchange@.wf()
                    &&& (Turn { exchange: exchange@, action: action@ }) == ExchangeView::begin(
                        self.spec_id(),
                        RequestKind::GetData,
                        (DataPayloadView { name: data_name@, data: Seq::empty() }).encode(),
                        packet_id,
                    )
                },
                Err(PayloadError::NameTooLong) => encode_utf8(data_name@).len() > NAME_WINDOW,
            },
    {
        self.open(RequestKind::GetData, data_name, Vec::new(), packet_id)
    }

    /// Opens an exchange of the given kind.
    fn open(&self, kind: RequestKind, data_name: &str, data: Vec<u8>, packet_id: u32) -> (opened:
        Result<(Exchange, Action), PayloadError>)
        ensures
            match opened {
                Ok((exchange, action)) => {
                    &&& encode_utf8(data_name@).len() <= NAME_WINDOW
                    &&& exchange@.wf()
                    &&& (Turn { exchange: exchange@, action: action@ }) == ExchangeView::begin(
                        self.spec_id(),
                        kind,
                        (DataPayloadView { name: data_name@, data: data@ }).encode(),
                        packet_id,
                    )
                },
                Err(PayloadError::NameTooLong) => encode_utf8(data_name@).len() > NAME_WINDOW,
            },
    {
        match DataPayload::new(data_name.to_owned(), data) {
            Ok(payload) => {
                let bytes = payload.as_bytes();
                let exchange = Exchange {
                    client_id: self.id,
                    kind,
                    payload: bytes,
                    attempts: 0,
                    phase: Phase::AwaitAck,
                    sent_id: packet_id,
                };
                let packet = exchange.request(packet_id);
                Ok((exchange, Action::Send { pause_ms: 0, packet }))
            },
            Err(e) => Err(e),
        }
    }
}

impl Exchange {
    /// The request, in a frame with the id `id`.
    fn request(&self, id: u32) -> (packet: Packet)
        ensures
            packet@ == self@.request(id),
    {
        let kind = match self.kind {
            RequestKind::SetData => PacketType::SetData,
            RequestKind::GetData => PacketType::GetData,
        };
        Packet::with_id(
            id,
            self.client_id,
            LEADER_ID,
            kind,
            vstd::slice::slice_to_vec(self.payload.as_slice()),
        )
    }

    /// Counts a failed attempt.
    fn retry(&mut self, next_id: u32) -> (action: Action)
        requires
            old(self)@.wf(),
        ensures
            final(self)@.wf(),
            (Turn { exchange: final(self)@, action: action@ }) == old(self)@.retry(next_id),
    {
        if self.attempts >= MAX_RETRIES {
            self.phase = Phase::Closed;
            Action::Failed
        } else {
            let packet = self.request(next_id);
            self.attempts = self.attempts + 1;
            self.phase = Phase::AwaitAck;
            self.sent_id = next_id;
            Action::Send { pause_ms: ACK_TIMEOUT, packet }
        }
    }

    /// Whether `datagram` is an `Ack` of the request that was sent last.
    fn acknowledges(&self, datagram: &[u8]) -> (yes: bool)
        ensures
            yes == self@.acknowledges(datagram@),
    {
        match Packet::from_bytes(datagram) {
            Some(packet) => {
                if packet.packet_type != PacketType::Ack.tag() {
                    return false;
                }
                match AckPayload::from_bytes(packet.payload.as_slice()) {
                    Some(ack) => ack.packet_id == self.sent_id,
                    None => false,
                }
            },
            None => false,
        }
    }

    /// Whether the exchange still waits for something.
    pub fn is_open(&self) -> (open: bool)
        ensures
            open == (self@.phase != Phase::Closed),
    {
        match self.phase {
            Phase::Closed => false,
            _ => true,
        }
    }

    /// How many attempts have failed.
    pub fn attempts(&self) -> (attempts: u8)
        ensures
            attempts == self@.attempts,
    {
        self.attempts
    }

    /// Takes what arrived, or `None` if nothing arrived in time, and says
    /// what to do next. `next_id` is the packet id for the frame that the
    /// next action sends, if it sends one.
    pub fn step(&mut self, received: Option<&[u8]>, next_id: u32) -> (action: Action)
        requires
            old(self)@.wf(),
        ensures
            final(self)@.wf(),
            (Turn { exchange: final(self)@, action: action@ }) == old(self)@.step(
                match received {
                    Some(datagram) => Some(datagram@),
                    None => None,
                },
                next_id,
            ),
    {
        match self.phase {
            Phase::Closed => Action::Closed,
            Phase::AwaitAck => {
                let acked = match received {
                    Some(datagram) => self.acknowledges(datagram),
                    None => false,
                };
                if acked {
                    match self.kind {
                        RequestKind::SetData => {
                            self.phase = Phase::Closed;
                            Action::Done
                        },
                        RequestKind::GetData => {
                            self.phase = Phase::AwaitData;
                            Action::Receive
                        },
                    }
                } else {
                    self.retry(next_id)
                }
            },
            Phase::AwaitData => {
                let datagram = match received {
                    Some(datagram) => datagram,
                    None => {
                        return self.retry(next_id);
                    },
                };
                let packet = match Packet::from_bytes(datagram) {
                    Some(packet) => packet,
                    None => {
                        return self.retry(next_id);
                    },
                };
                if packet.packet_type != PacketType::Data.tag() {
                    return self.retry(next_id);
                }
                match DataPayload::from_bytes(packet.payload.as_slice()) {
                    Some(data) => {
                        let ack = Packet::with_id(
                            next_id,
                            self.client_id,
                            LEADER_ID,
                            PacketType::Ack,
                            AckPayload::new(packet.packet_id).as_bytes(),
                        );
                        self.phase = Phase::Closed;
                        Action::Deliver { ack, data: data.data }
                    },
                    None => self.retry(next_id),
                }
            },
        }
    }
}

/// A request is sent `MAX_RETRIES + 1` times at most: every turn that
/// sends it again counts one failed attempt more, and never more than
/// `MAX_RETRIES`.
pub proof fn lemma_attempts_bounded(exchange: ExchangeView, received: Option<Seq<u8>>, next_id: u32)
    requires
        exchange.wf(),
    ensures
        exchange.step(received, next_id).exchange.wf(),
        exchange.step(received, next_id).action is Send ==> {
            &&& exchange.step(received, next_id).exchange.attempts == exchange.attempts + 1
            &&& exchange.step(received, next_id).action->Send_packet == exchange.request(next_id)
        },
        exchange.step(received, next_id).action !is Send ==> exchange.step(
            received,
            next_id,
        ).exchange.attempts == exchange.attempts,
{
}

} // verus!
