//! The wire frame and the payloads that it carries.

use vstd::prelude::*;
use vstd::bytes::*;
use vstd::slice::*;
use vstd::utf8::*;
use crate::block::{Block, BlockView};
use crate::crypto::random_bytes;
use crate::transaction::{
    lemma_decoded_name_fits, lemma_encode_len, lemma_transaction_round_trip, Transaction,
    TransactionView, TRANSACTION_LEN,
};
use crate::wire::{
    get_array32, get_array64, get_name, get_u16, get_u32, get_u64, lemma_window_name_round_trip,
    name_survives_window, pad_name, put_bytes, put_name, put_u16, put_u32, put_u64, window_name,
    NAME_WINDOW,
};

verus! {

/// The four bytes that open every frame.
pub const MAGIC_NUMBER: u32 = 0xA71A5001;

/// Length of the receive buffer, and so of the longest frame that is read.
pub const PACKET_BUFFER_SIZE: usize = 1024;

/// How often a frame is sent again before it is given up.
pub const MAX_RETRIES: u8 = 3;

/// Milliseconds to wait for an acknowledgement.
pub const ACK_TIMEOUT: u64 = 500;

/// Length of the frame header.
pub const HEADER_LEN: usize = 21;

/// The kinds of frame.
#[derive(Debug, Clone, Copy, PartialEq, Eq, Structural)]
pub enum PacketType {
    Probe,
    Sync,
    SetData,
    GetData,
    Data,
    GetChain,
    Chain,
    Block,
    Transaction,
    Ack,
}

impl PacketType {
    /// The tag that stands for a kind on the wire.
    pub open spec fn spec_tag(self) -> u8 {
        match self {
            PacketType::Probe => 0,
            PacketType::Sync => 1,
            PacketType::SetData => 2,
            PacketType::GetData => 3,
            PacketType::Data => 4,
            PacketType::GetChain => 5,
            PacketType::Chain => 6,
            PacketType::Block => 7,
            PacketType::Transaction => 8,
            PacketType::Ack => 9,
        }
    }

    /// The kind that a tag stands for.
    pub open spec fn spec_from_tag(value: u8) -> Option<PacketType> {
        if value == 0 {
            Some(PacketType::Probe)
        } else if value == 1 {
            Some(PacketType::Sync)
        } else if value == 2 {
            Some(PacketType::SetData)
        } else if value == 3 {
            Some(PacketType::GetData)
        } else if value == 4 {
            Some(PacketType::Data)
        } else if value == 5 {
            Some(PacketType::GetChain)
        } else if value == 6 {
            Some(PacketType::Chain)
        } else if value == 7 {
            Some(PacketType::Block)
        } else if value == 8 {
            Some(PacketType::Transaction)
        } else if value == 9 {
            Some(PacketType::Ack)
        } else {
            None
        }
    }

    /// The tag of this kind.
    pub fn tag(self) -> (value: u8)
        ensures
            value == self.spec_tag(),
            Self::spec_from_tag(value) == Some(self),
    {
        match self {
            PacketType::Probe => 0,
            PacketType::Sync => 1,
            PacketType::SetData => 2,
            PacketType::GetData => 3,
            PacketType::Data => 4,
            PacketType::GetChain => 5,
            PacketType::Chain => 6,
            PacketType::Block => 7,
            PacketType::Transaction => 8,
            PacketType::Ack => 9,
        }
    }

    /// The kind with the given tag, if there is one.
    pub fn from_tag(value: u8) -> (kind: Option<PacketType>)
        ensures
            kind == Self::spec_from_tag(value),
    {
        if value == 0 {
            Some(PacketType::Probe)
        } else if value == 1 {
            Some(PacketType::Sync)
        } else if value == 2 {
            Some(PacketType::SetData)
        } else if value == 3 {
            Some(PacketType::GetData)
        } else if value == 4 {
            Some(PacketType::Data)
        } else if value == 5 {
            Some(PacketType::GetChain)
        } else if value == 6 {
            Some(PacketType::Chain)
        } else if value == 7 {
            Some(PacketType::Block)
        } else if value == 8 {
            Some(PacketType::Transaction)
        } else if value == 9 {
            Some(PacketType::Ack)
        } else {
            None
        }
    }

    /// The kind with the given tag, which must be below ten.
    pub fn from(value: u8) -> (kind: PacketType)
        requires
            value <= 9,
        ensures
            Some(kind) == Self::spec_from_tag(value),
    {
        match Self::from_tag(value) {
            Some(kind) => kind,
            None => PacketType::Ack,
        }
    }
}

/// A frame.
#[derive(Debug)]
pub struct Packet {
    pub magic_number: u32,
    pub packet_id: u32,
    pub src: u16,
    pub dst: u16,
    pub packet_type: u8,
    pub timestamp: u64,
    pub payload: Vec<u8>,
}

/// What a frame holds.
pub struct PacketView {
    pub magic_number: u32,
    pub packet_id: u32,
    pub src: u16,
    pub dst: u16,
    pub packet_type: u8,
    pub timestamp: u64,
    pub payload: Seq<u8>,
}

impl View for Packet {
    type V = PacketView;

    open spec fn view(&self) -> PacketView {
        PacketView {
            magic_number: self.magic_number,
            packet_id: self.packet_id,
            src: self.src,
            dst: self.dst,
            packet_type: self.packet_type,
            timestamp: self.timestamp,
            payload: self.payload@,
        }
    }
}

impl PacketView {
    /// The frame that `with_id` makes.
    pub open spec fn with_id(
        packet_id: u32,
        src: u16,
        dst: u16,
        packet_type: PacketType,
        payload: Seq<u8>,
    ) -> PacketView {
        PacketView {
            magic_number: MAGIC_NUMBER,
            packet_id,
            src,
            dst,
            packet_type: packet_type.spec_tag(),
            timestamp: 0,
            payload,
        }
    }

    /// The bytes of a frame: the 21-byte little-endian header, then the
    /// payload.
    pub open spec fn encode(self) -> Seq<u8> {
        spec_u32_to_le_bytes(self.magic_number) + spec_u32_to_le_bytes(self.packet_id)
            + spec_u16_to_le_bytes(self.src) + spec_u16_to_le_bytes(self.dst) + seq![
            self.packet_type,
        ] + spec_u64_to_le_bytes(self.timestamp) + self.payload
    }

    /// The frame that `bytes` hold, if they hold a header that opens with
    /// the magic number. The payload is whatever follows the header.
    pub open spec fn decode(bytes: Seq<u8>) -> Option<PacketView> {
        if bytes.len() < HEADER_LEN || spec_u32_from_le_bytes(bytes.subrange(0, 4))
            != MAGIC_NUMBER {
            None
        } else {
            Some(
                PacketView {
                    magic_number: MAGIC_NUMBER,
                    packet_id: spec_u32_from_le_bytes(bytes.subrange(4, 8)),
                    src: spec_u16_from_le_bytes(bytes.subrange(8, 10)),
                    dst: spec_u16_from_le_bytes(bytes.subrange(10, 12)),
                    packet_type: bytes[12],
                    timestamp: spec_u64_from_le_bytes(bytes.subrange(13, 21)),
                    payload: bytes.skip(HEADER_LEN as int),
                },
            )
        }
    }
}

impl Packet {
    /// Makes a frame with the given id.
    pub fn with_id(
        packet_id: u32,
        src: u16,
        dst: u16,
        packet_type: PacketType,
        payload: Vec<u8>,
    ) -> (packet: Self)
        ensures
            packet@ == PacketView::with_id(packet_id, src, dst, packet_type, payload@),
    {
        Packet {
            magic_number: MAGIC_NUMBER,
            packet_id,
            src,
            dst,
            packet_type: packet_type.tag(),
            timestamp: 0,
            payload,
        }
    }

    /// Makes a frame with a random id. `None` means that the system gave no
    /// random bytes.
    pub fn new(src: u16, dst: u16, packet_type: PacketType, payload: Vec<u8>) -> (packet: Option<
        Self,
    >)
        ensures
            packet matches Some(p) ==> p@ == PacketView::with_id(
                p.packet_id,
                src,
                dst,
                packet_type,
                payload@,
            ),
    {
        match fresh_packet_id() {
            Some(packet_id) => Some(Self::with_id(packet_id, src, dst, packet_type, payload)),
            None => None,
        }
    }

    /// Reads a frame.
    ///
    /// Returns `None` when there are fewer than 21 bytes or the first four
    /// are not the magic number. The payload is not looked into.
    pub fn from_bytes(bytes: &[u8]) -> (read: Option<Self>)
        ensures
            match read {
                Some(packet) => PacketView::decode(bytes@) == Some(packet@),
                None => PacketView::decode(bytes@) is None,
            },
    {
        let len: usize = bytes.len();
        if len < HEADER_LEN {
            return None;
        }
        let magic_number = get_u32(bytes, 0);
        if magic_number != MAGIC_NUMBER {
            return None;
        }
        let payload = slice_to_vec(slice_subrange(bytes, HEADER_LEN, len));
        assert(payload@ =~= bytes@.skip(HEADER_LEN as int));
        Some(
            Packet {
                magic_number: MAGIC_NUMBER,
                packet_id: get_u32(bytes, 4),
                src: get_u16(bytes, 8),
                dst: get_u16(bytes, 10),
                packet_type: bytes[12],
                timestamp: get_u64(bytes, 13),
                payload,
            },
        )
    }

    /// Writes the frame as bytes. A frame that opens with the magic number
    /// is read back from them as it is.
    pub fn as_bytes(&self) -> (bytes: Vec<u8>)
        ensures
            bytes@ == self@.encode(),
            bytes@.len() == HEADER_LEN + self.payload@.len(),
            self.magic_number == MAGIC_NUMBER ==> PacketView::decode(bytes@) == Some(self@),
    {
        proof {
            if self.magic_number == MAGIC_NUMBER {
                lemma_packet_round_trip(self@);
            }
        }
        let mut bytes: Vec<u8> = Vec::new();
        put_u32(&mut bytes, self.magic_number);
        put_u32(&mut bytes, self.packet_id);
        put_u16(&mut bytes, self.src);
        put_u16(&mut bytes, self.dst);
        bytes.push(self.packet_type);
        put_u64(&mut bytes, self.timestamp);
        put_bytes(&mut bytes, self.payload.as_slice());
        proof {
            lemma_auto_spec_u16_to_from_le_bytes();
            lemma_auto_spec_u32_to_from_le_bytes();
            lemma_auto_spec_u64_to_from_le_bytes();
            assert(bytes@ =~= self@.encode());
        }
        bytes
    }

    /// A copy of the frame.
    pub fn clone(&self) -> (copy: Self)
        ensures
            copy@ == self@,
    {
        Packet {
            magic_number: self.magic_number,
            packet_id: self.packet_id,
            src: self.src,
            dst: self.dst,
            packet_type: self.packet_type,
            timestamp: self.timestamp,
            payload: slice_to_vec(self.payload.as_slice()),
        }
    }
}

impl Clone for Packet {
    fn clone(&self) -> (copy: Self)
        ensures
            copy@ == self@,
    {
        Packet::clone(self)
    }
}

/// Draws a packet id from the system's random source.
pub fn fresh_packet_id() -> (id: Option<u32>) {
    match random_bytes() {
        Some(bytes) => Some(get_u32(bytes.as_slice(), 0)),
        None => None,
    }
}

/// Decoding an encoded frame gives the frame back, provided it opens with
/// the magic number.
pub proof fn lemma_packet_round_trip(packet: PacketView)
    requires
        packet.magic_number == MAGIC_NUMBER,
    ensures
        PacketView::decode(packet.encode()) == Some(packet),
{
    lemma_auto_spec_u16_to_from_le_bytes();
    lemma_auto_spec_u32_to_from_le_bytes();
    lemma_auto_spec_u64_to_from_le_bytes();
    let b = packet.encode();
    assert(b.subrange(0, 4) =~= spec_u32_to_le_bytes(packet.magic_number));
    assert(b.subrange(4, 8) =~= spec_u32_to_le_bytes(packet.packet_id));
    assert(b.subrange(8, 10) =~= spec_u16_to_le_bytes(packet.src));
    assert(b.subrange(10, 12) =~= spec_u16_to_le_bytes(packet.dst));
    assert(b[12] == packet.packet_type);
    assert(b.subrange(13, 21) =~= spec_u64_to_le_bytes(packet.timestamp));
    assert(b.skip(HEADER_LEN as int) =~= packet.payload);
}

/// A frame that does not open with the magic number is not read, whatever
/// follows.
pub proof fn lemma_wrong_magic_is_dropped(bytes: Seq<u8>)
    requires
        bytes.len() < 4 || spec_u32_from_le_bytes(bytes.subrange(0, 4)) != MAGIC_NUMBER,
    ensures
        PacketView::decode(bytes) is None,
{
}

/// Why a payload could not be made.
#[derive(Debug, Clone, Copy, PartialEq, Eq, Structural)]
pub enum PayloadError {
    /// The data name takes more than 64 bytes.
    NameTooLong,
}

/// Payload of an `Ack`: the id of the frame that is acknowledged.
#[derive(Debug, Clone, Copy, PartialEq, Eq, Structural)]
pub struct AckPayload {
    pub packet_id: u32,
}

impl AckPayload {
    /// The four bytes of the payload.
    pub open spec fn encode(self) -> Seq<u8> {
        spec_u32_to_le_bytes(self.packet_id)
    }

    /// The payload that `bytes` open with, if there are four bytes.
    pub open spec fn decode(bytes: Seq<u8>) -> Option<AckPayload> {
        if bytes.len() < 4 {
            None
        } else {
            Some(AckPayload { packet_id: spec_u32_from_le_bytes(bytes.subrange(0, 4)) })
        }
    }

    /// A payload with the given fields.
    pub fn new(packet_id: u32) -> (payload: Self)
        ensures
            payload.packet_id == packet_id,
    {
        AckPayload { packet_id }
    }

    /// Reads the payload from the first four bytes; `None` if there are
    /// fewer.
    pub fn from_bytes(bytes: &[u8]) -> (read: Option<Self>)
        ensures
            read == Self::decode(bytes@),
    {
        if bytes.len() < 4 {
            return None;
        }
        Some(AckPayload { packet_id: get_u32(bytes, 0) })
    }

    /// Writes the payload as bytes.
    pub fn as_bytes(&self) -> (bytes: Vec<u8>)
        ensures
            bytes@ == self.encode(),
            bytes@.len() == 4,
    {
        u32_to_le_bytes(self.packet_id)
    }
}

/// Payload of a `Probe`: who is joining, and its public key.
#[derive(Debug, Clone, Copy)]
pub struct ProbePayload {
    pub node_id: u16,
    pub public_key: [u8; 32],
}

/// What a `Probe` payload holds.
pub struct ProbePayloadView {
    pub node_id: u16,
    pub public_key: Seq<u8>,
}

impl View for ProbePayload {
    type V = ProbePayloadView;

    open spec fn view(&self) -> ProbePayloadView {
        ProbePayloadView { node_id: self.node_id, public_key: self.public_key@ }
    }
}

impl ProbePayloadView {
    /// The 34 bytes of the payload.
    pub open spec fn encode(self) -> Seq<u8> {
        spec_u16_to_le_bytes(self.node_id) + self.public_key
    }

    /// The payload that `bytes` open with, if there are 34 bytes.
    pub open spec fn decode(bytes: Seq<u8>) -> Option<ProbePayloadView> {
        if bytes.len() < 34 {
            None
        } else {
            Some(
                ProbePayloadView {
                    node_id: spec_u16_from_le_bytes(bytes.subrange(0, 2)),
                    public_key: bytes.subrange(2, 34),
                },
            )
        }
    }
}

impl ProbePayload {
    /// A payload with the given fields.
    pub fn new(node_id: u16, public_key: [u8; 32]) -> (payload: Self)
        ensures
            payload.node_id == node_id,
            payload.public_key == public_key,
    {
        ProbePayload { node_id, public_key }
    }

    /// Reads the payload from the first 34 bytes; `None` if there are
    /// fewer.
    pub fn from_bytes(bytes: &[u8]) -> (read: Option<Self>)
        ensures
            match read {
                Some(payload) => ProbePayloadView::decode(bytes@) == Some(payload@),
                None => ProbePayloadView::decode(bytes@) is None,
            },
    {
        if bytes.len() < 34 {
            return None;
        }
        Some(ProbePayload { node_id: get_u16(bytes, 0), public_key: get_array32(bytes, 2) })
    }

    /// Writes the payload as bytes.
    pub fn as_bytes(&self) -> (bytes: Vec<u8>)
        ensures
            bytes@ == self@.encode(),
            bytes@.len() == 34,
    {
        let mut bytes: Vec<u8> = Vec::new();
        put_u16(&mut bytes, self.node_id);
        put_bytes(&mut bytes, self.public_key.as_slice());
        proof {
            lemma_auto_spec_u16_to_from_le_bytes();
        }
        bytes
    }
}

/// Payload of a `Sync`: who answers, its public key, and where its chain
/// stands.
#[derive(Debug, Clone, Copy)]
pub struct SyncPayload {
    pub node_id: u16,
    pub public_key: [u8; 32],
    pub chain_height: u32,
    pub last_block_hash: [u8; 32],
    pub last_block_timestamp: u64,
}

/// What a `Sync` payload holds.
pub struct SyncPayloadView {
    pub node_id: u16,
    pub public_key: Seq<u8>,
    pub chain_height: u32,
    pub last_block_hash: Seq<u8>,
    pub last_block_timestamp: u64,
}

impl View for SyncPayload {
    type V = SyncPayloadView;

    open spec fn view(&self) -> SyncPayloadView {
        SyncPayloadView {
            node_id: self.node_id,
            public_key: self.public_key@,
            chain_height: self.chain_height,
            last_block_hash: self.last_block_hash@,
            last_block_timestamp: self.last_block_timestamp,
        }
    }
}

impl SyncPayloadView {
    /// The 78 bytes of the payload.
    pub open spec fn encode(self) -> Seq<u8> {
        spec_u16_to_le_bytes(self.node_id) + self.public_key + spec_u32_to_le_bytes(
            self.chain_height,
        ) + self.last_block_hash + spec_u64_to_le_bytes(self.last_block_timestamp)
    }

    /// The payload that `bytes` open with, if there are 78 bytes.
    pub open spec fn decode(bytes: Seq<u8>) -> Option<SyncPayloadView> {
        if bytes.len() < 78 {
            None
        } else {
            Some(
                SyncPayloadView {
                    node_id: spec_u16_from_le_bytes(bytes.subrange(0, 2)),
                    public_key: bytes.subrange(2, 34),
                    chain_height: spec_u32_from_le_bytes(bytes.subrange(34, 38)),
                    last_block_hash: bytes.subrange(38, 70),
                    last_block_timestamp: spec_u64_from_le_bytes(bytes.subrange(70, 78)),
                },
            )
        }
    }
}

impl SyncPayload {
    /// A payload with the given fields.
    pub fn new(
        node_id: u16,
        public_key: [u8; 32],
        chain_height: u32,
        last_block_hash: [u8; 32],
        last_block_timestamp: u64,
    ) -> (payload: Self)
        ensures
            payload.node_id == node_id,
            payload.public_key == public_key,
            payload.chain_height == chain_height,
            payload.last_block_hash == last_block_hash,
            payload.last_block_timestamp == last_block_timestamp,
    {
        SyncPayload { node_id, public_key, chain_height, last_block_hash, last_block_timestamp }
    }

    /// Reads the payload from the first 78 bytes; `None` if there are
    /// fewer.
    pub fn from_bytes(bytes: &[u8]) -> (read: Option<Self>)
        ensures
            match read {
                Some(payload) => SyncPayloadView::decode(bytes@) == Some(payload@),
                None => SyncPayloadView::decode(bytes@) is None,
            },
    {
        if bytes.len() < 78 {
            return None;
        }
        Some(
            SyncPayload {
                node_id: get_u16(bytes, 0),
                public_key: get_array32(bytes, 2),
                chain_height: get_u32(bytes, 34),
                last_block_hash: get_array32(bytes, 38),
                last_block_timestamp: get_u64(bytes, 70),
            },
        )
    }

    /// Writes the payload as bytes.
    pub fn as_bytes(&self) -> (bytes: Vec<u8>)
        ensures
            bytes@ == self@.encode(),
            bytes@.len() == 78,
    {
        let mut bytes: Vec<u8> = Vec::new();
        put_u16(&mut bytes, self.node_id);
        put_bytes(&mut bytes, self.public_key.as_slice());
        put_u32(&mut bytes, self.chain_height);
        put_bytes(&mut bytes, self.last_block_hash.as_slice());
        put_u64(&mut bytes, self.last_block_timestamp);
        proof {
            lemma_auto_spec_u16_to_from_le_bytes();
            lemma_auto_spec_u32_to_from_le_bytes();
            lemma_auto_spec_u64_to_from_le_bytes();
        }
        bytes
    }
}

/// Payload of `SetData`, `GetData` and `Data`: a name and a blob.
#[derive(Debug)]
pub struct DataPayload {
    pub name: String,
    pub data: Vec<u8>,
}

/// What a data payload holds.
pub struct DataPayloadView {
    pub name: Seq<char>,
    pub data: Seq<u8>,
}

impl View for DataPayload {
    type V = DataPayloadView;

    open spec fn view(&self) -> DataPayloadView {
        DataPayloadView { name: self.name@, data: self.data@ }
    }
}

impl DataPayloadView {
    /// The name fits its window.
    pub open spec fn wf(self) -> bool {
        encode_utf8(self.name).len() <= NAME_WINDOW
    }

    /// The bytes of the payload: the name window, then the blob.
    pub open spec fn encode(self) -> Seq<u8> {
        pad_name(encode_utf8(self.name)) + self.data
    }

    /// The payload that `bytes` hold, if they hold a name window whose name
    /// is UTF-8. The blob is whatever follows the window.
    pub open spec fn decode(bytes: Seq<u8>) -> Option<DataPayloadView> {
        if bytes.len() < NAME_WINDOW {
            None
        } else {
            match window_name(bytes.subrange(0, NAME_WINDOW as int)) {
                Some(name) => Some(DataPayloadView { name, data: bytes.skip(NAME_WINDOW as int) }),
                None => None,
            }
        }
    }
}

impl Clone for DataPayload {
    fn clone(&self) -> (copy: Self)
        ensures
            copy@ == self@,
    {
        DataPayload { name: self.name.clone(), data: slice_to_vec(self.data.as_slice()) }
    }
}

impl DataPayload {
    /// The name fits its window.
    pub open spec fn wf(&self) -> bool {
        self@.wf()
    }

    /// Makes a payload. A name of more than 64 bytes is refused.
    pub fn new(name: String, data: Vec<u8>) -> (made: Result<Self, PayloadError>)
        ensures
            match made {
                Ok(payload) => payload.name == name && payload.data == data && payload.wf(),
                Err(PayloadError::NameTooLong) => encode_utf8(name@).len() > NAME_WINDOW,
            },
    {
        if name.as_str().as_bytes().len() > NAME_WINDOW {
            return Err(PayloadError::NameTooLong);
        }
        Ok(DataPayload { name, data })
    }

    /// Reads the payload; `None` if there are fewer than 64 bytes or the
    /// name is not UTF-8.
    pub fn from_bytes(bytes: &[u8]) -> (read: Option<Self>)
        ensures
            match read {
                Some(payload) => DataPayloadView::decode(bytes@) == Some(payload@) && payload.wf(),
                None => DataPayloadView::decode(bytes@) is None,
            },
    {
        let len: usize = bytes.len();
        if len < NAME_WINDOW {
            return None;
        }
        match get_name(bytes, 0) {
            Some(name) => {
                let data = slice_to_vec(slice_subrange(bytes, NAME_WINDOW, len));
                proof {
                    lemma_decoded_name_fits(bytes@.subrange(0, NAME_WINDOW as int));
                    assert(data@ =~= bytes@.skip(NAME_WINDOW as int));
                }
                Some(DataPayload { name, data })
            },
            None => None,
        }
    }

    /// Writes the payload as bytes.
    pub fn as_bytes(&self) -> (bytes: Vec<u8>)
        requires
            self.wf(),
        ensures
            bytes@ == self@.encode(),
            bytes@.len() == NAME_WINDOW + self.data@.len(),
    {
        let mut bytes: Vec<u8> = Vec::new();
        put_name(&mut bytes, self.name.as_str());
        put_bytes(&mut bytes, self.data.as_slice());
        bytes
    }
}

/// Payload of a `Transaction`: the transaction and its signature.
#[derive(Debug)]
pub struct TransactionPayload {
    pub transaction: Transaction,
    pub signature: [u8; 64],
}

/// What a transaction payload holds.
pub struct TransactionPayloadView {
    pub transaction: TransactionView,
    pub signature: Seq<u8>,
}

/// Length of a transaction payload.
pub const TRANSACTION_PAYLOAD_LEN: usize = 173;

impl View for TransactionPayload {
    type V = TransactionPayloadView;

    open spec fn view(&self) -> TransactionPayloadView {
        TransactionPayloadView { transaction: self.transaction@, signature: self.signature@ }
    }
}

impl TransactionPayloadView {
    /// The 173 bytes of the payload.
    pub open spec fn encode(self) -> Seq<u8> {
        self.transaction.encode() + self.signature
    }

    /// The payload that 173 bytes hold, if the first 109 decode as a
    /// transaction.
    pub open spec fn decode(bytes: Seq<u8>) -> Option<TransactionPayloadView> {
        if bytes.len() != TRANSACTION_PAYLOAD_LEN {
            None
        } else {
            match TransactionView::decode(bytes.subrange(0, TRANSACTION_LEN as int)) {
                Some(transaction) => Some(
                    TransactionPayloadView {
                        transaction,
                        signature: bytes.subrange(
                            TRANSACTION_LEN as int,
                            TRANSACTION_PAYLOAD_LEN as int,
                        ),
                    },
                ),
                None => None,
            }
        }
    }
}

impl Clone for TransactionPayload {
    fn clone(&self) -> (copy: Self)
        ensures
            copy == *self,
    {
        TransactionPayload { transaction: self.transaction.clone(), signature: self.signature }
    }
}

impl TransactionPayload {
    /// A payload with the given fields.
    pub fn new(transaction: Transaction, signature: [u8; 64]) -> (payload: Self)
        ensures
            payload.transaction == transaction,
            payload.signature == signature,
    {
        TransactionPayload { transaction, signature }
    }

    /// Reads the payload; `None` unless there are 173 bytes of which the
    /// first 109 decode as a transaction.
    pub fn from_bytes(bytes: &[u8]) -> (read: Option<Self>)
        ensures
            match read {
                Some(payload) => TransactionPayloadView::decode(bytes@) == Some(payload@)
                    && payload.transaction.wf(),
                None => TransactionPayloadView::decode(bytes@) is None,
            },
    {
        if bytes.len() != TRANSACTION_PAYLOAD_LEN {
            return None;
        }
        match Transaction::from_bytes(slice_subrange(bytes, 0, TRANSACTION_LEN)) {
            Some(transaction) => Some(
                TransactionPayload { transaction, signature: get_array64(bytes, TRANSACTION_LEN) },
            ),
            None => None,
        }
    }

    /// Writes the payload as bytes.
    pub fn as_bytes(&self) -> (bytes: Vec<u8>)
        requires
            self.transaction.wf(),
        ensures
            bytes@ == self@.encode(),
            bytes@.len() == TRANSACTION_PAYLOAD_LEN,
    {
        let mut bytes = self.transaction.as_bytes();
        put_bytes(&mut bytes, self.signature.as_slice());
        bytes
    }
}

/// Payload of a `Block`: one block.
#[derive(Debug)]
pub struct BlockPayload {
    pub block: Block,
}

impl View for BlockPayload {
    type V = BlockView;

    open spec fn view(&self) -> BlockView {
        self.block@
    }
}

impl Clone for BlockPayload {
    fn clone(&self) -> (copy: Self)
        ensures
            copy@ == self@,
            copy.block.wf() == self.block.wf(),
    {
        BlockPayload { block: self.block.clone() }
    }
}

impl BlockPayload {
    /// A payload with the given fields.
    pub fn new(block: Block) -> (payload: Self)
        ensures
            payload.block == block,
    {
        BlockPayload { block }
    }

    /// Reads the payload; `None` where the bytes do not decode as a block.
    pub fn from_bytes(bytes: &[u8]) -> (read: Option<Self>)
        ensures
            match read {
                Some(payload) => BlockView::decode(bytes@) == Some(payload@) && payload.block.wf(),
                None => BlockView::decode(bytes@) is None,
            },
    {
        match Block::from_bytes(bytes) {
            Some(block) => Some(BlockPayload { block }),
            None => None,
        }
    }

    /// Writes the payload as bytes.
    pub fn as_bytes(&self) -> (bytes: Vec<u8>)
        requires
            self.block.wf(),
        ensures
            bytes@ == self@.encode(),
    {
        self.block.as_bytes()
    }
}

/// Payload of a `Chain`: a run of blocks, each behind its length.
#[derive(Debug)]
pub struct ChainPayload {
    pub chain: Vec<Block>,
}

/// The views of a run of blocks.
pub open spec fn block_views(blocks: Seq<Block>) -> Seq<BlockView> {
    Seq::new(blocks.len(), |i: int| blocks[i]@)
}

/// Every block of a run is well formed.
pub open spec fn blocks_wf(blocks: Seq<Block>) -> bool {
    forall|i: int| 0 <= i < blocks.len() ==> (#[trigger] blocks[i]).wf()
}

/// The length that stands before a block of `len` bytes: `len` cut down to
/// its low 16 bits.
pub open spec fn length_prefix(len: nat) -> u16 {
    (len % 0x1_0000) as u16
}

/// One block behind its two-byte little-endian length.
pub open spec fn encode_record(block: BlockView) -> Seq<u8> {
    spec_u16_to_le_bytes(length_prefix(block.encode().len())) + block.encode()
}

/// The bytes of a run of blocks, record after record.
pub open spec fn encode_chain(blocks: Seq<BlockView>) -> Seq<u8>
    decreases blocks.len(),
{
    if blocks.len() == 0 {
        Seq::empty()
    } else {
        encode_record(blocks[0]) + encode_chain(blocks.drop_first())
    }
}

/// The blocks that `bytes` hold: record after record, up to the first one
/// that is cut short or does not decode as a block.
pub open spec fn decode_chain(bytes: Seq<u8>) -> Seq<BlockView>
    decreases bytes.len(),
{
    if bytes.len() < 2 {
        Seq::empty()
    } else {
        let size = spec_u16_from_le_bytes(bytes.subrange(0, 2)) as int;
        if 2 + size > bytes.len() {
            Seq::empty()
        } else {
            match BlockView::decode(bytes.subrange(2, 2 + size)) {
                Some(block) => seq![block] + decode_chain(bytes.skip(2 + size)),
                None => Seq::empty(),
            }
        }
    }
}

impl View for ChainPayload {
    type V = Seq<BlockView>;

    open spec fn view(&self) -> Seq<BlockView> {
        block_views(self.chain@)
    }
}

impl Clone for ChainPayload {
    fn clone(&self) -> (copy: Self)
        ensures
            copy@ == self@,
            blocks_wf(self.chain@) ==> blocks_wf(copy.chain@),
    {
        let mut chain: Vec<Block> = Vec::new();
        let mut i: usize = 0;
        while i < self.chain.len()
            invariant
                i <= self.chain@.len(),
                chain@.len() == i,
                forall|k: int| 0 <= k < i ==> (#[trigger] chain@[k])@ == self.chain@[k]@,
                forall|k: int| 0 <= k < i ==> (#[trigger] chain@[k]).wf() == self.chain@[k].wf(),
            decreases self.chain@.len() - i,
        {
            chain.push(self.chain[i].clone());
            i += 1;
        }
        assert(block_views(chain@) =~= block_views(self.chain@));
        proof {
            if blocks_wf(self.chain@) {
                assert forall|k: int| 0 <= k < chain@.len() implies (#[trigger] chain@[k]).wf() by {
                    assert(self.chain@[k].wf());
                }
            }
        }
        ChainPayload { chain }
    }
}

impl ChainPayload {
    /// A payload with the given fields.
    pub fn new(chain: Vec<Block>) -> (payload: Self)
        ensures
            payload.chain == chain,
    {
        ChainPayload { chain }
    }

    /// Reads the blocks of a payload. Reading stops, without an error, at
    /// the first record that is cut short or does not decode as a block;
    /// the blocks before it are kept.
    pub fn from_bytes(bytes: &[u8]) -> (payload: Self)
        ensures
            payload@ == decode_chain(bytes@),
            blocks_wf(payload.chain@),
    {
        let len: usize = bytes.len();
        let mut blocks: Vec<Block> = Vec::new();
        let mut offset: usize = 0;
        proof {
            assert(bytes@.skip(0) =~= bytes@);
            assert(block_views(blocks@) + decode_chain(bytes@) =~= decode_chain(bytes@));
        }
        while len - offset >= 2
            invariant
                len == bytes@.len(),
                offset <= len,
                blocks_wf(blocks@),
                decode_chain(bytes@) == block_views(blocks@) + decode_chain(
                    bytes@.skip(offset as int),
                ),
            ensures
                blocks_wf(blocks@),
                decode_chain(bytes@) == block_views(blocks@),
            decreases len - offset,
        {
            let ghost rest = bytes@.skip(offset as int);
            let size: usize = get_u16(bytes, offset) as usize;
            assert(bytes@.subrange(offset as int, offset + 2) =~= rest.subrange(0, 2));
            if size > len - offset - 2 {
                assert(decode_chain(rest) =~= Seq::empty());
                assert(block_views(blocks@) + decode_chain(rest) =~= block_views(blocks@));
                break ;
            }
            let record = slice_subrange(bytes, offset + 2, offset + 2 + size);
            assert(record@ =~= rest.subrange(2, 2 + size));
            match Block::from_bytes(record) {
                Some(block) => {
                    let ghost before = blocks@;
                    blocks.push(block);
                    offset = offset + 2 + size;
                    proof {
                        assert(rest.skip(2 + size) =~= bytes@.skip(offset as int));
                        assert(block_views(blocks@) =~= block_views(before) + seq![block@]);
                        assert(block_views(before) + (seq![block@] + decode_chain(
                            bytes@.skip(offset as int),
                        )) =~= block_views(blocks@) + decode_chain(bytes@.skip(offset as int)));
                    }
                },
                None => {
                    assert(decode_chain(rest) =~= Seq::empty());
                    assert(block_views(blocks@) + decode_chain(rest) =~= block_views(blocks@));
                    break ;
                },
            }
        }
        proof {
            if len - offset < 2 {
                assert(decode_chain(bytes@.skip(offset as int)) =~= Seq::empty());
            }
            assert(block_views(blocks@) + Seq::<BlockView>::empty() =~= block_views(blocks@));
        }
        ChainPayload { chain: blocks }
    }

    /// Writes the blocks, each behind its length. A block of more than
    /// 65535 bytes gets the low 16 bits of its length and cannot be read
    /// back.
    pub fn as_bytes(&self) -> (bytes: Vec<u8>)
        requires
            blocks_wf(self.chain@),
        ensures
            bytes@ == encode_chain(self@),
    {
        blocks_to_bytes(self.chain.as_slice())
    }
}

/// Writes a run of blocks as the payload of a `Chain` frame.
pub fn blocks_to_bytes(chain: &[Block]) -> (bytes: Vec<u8>)
    requires
        blocks_wf(chain@),
    ensures
        bytes@ == encode_chain(block_views(chain@)),
{
    let ghost views = block_views(chain@);
    let mut bytes: Vec<u8> = Vec::new();
    let mut i: usize = 0;
    assert(views.skip(0) =~= views);
    while i < chain.len()
        invariant
            i <= chain@.len(),
            blocks_wf(chain@),
            views == block_views(chain@),
            bytes@ + encode_chain(views.skip(i as int)) == encode_chain(views),
        decreases chain@.len() - i,
    {
        let block_bytes = chain[i].as_bytes();
        let n: usize = block_bytes.len();
        let prefix: u16 = (n % 0x1_0000) as u16;
        let ghost before = bytes@;
        put_u16(&mut bytes, prefix);
        put_bytes(&mut bytes, block_bytes.as_slice());
        proof {
            let rest = views.skip(i as int);
            assert(rest[0] == chain@[i as int]@);
            assert(rest.drop_first() =~= views.skip(i + 1));
            assert(bytes@ =~= before + encode_record(rest[0]));
            assert(bytes@ + encode_chain(views.skip(i + 1)) =~= before + encode_chain(rest));
        }
        i += 1;
    }
    assert(encode_chain(views.skip(i as int)) =~= Seq::empty());
    assert(bytes@ =~= encode_chain(views));
    bytes
}

/// Decoding an encoded `Ack` payload gives the payload back.
pub proof fn lemma_ack_round_trip(payload: AckPayload)
    ensures
        AckPayload::decode(payload.encode()) == Some(payload),
{
    lemma_auto_spec_u32_to_from_le_bytes();
    assert(payload.encode().subrange(0, 4) =~= payload.encode());
}

/// Decoding an encoded `Probe` payload gives the payload back.
pub proof fn lemma_probe_round_trip(payload: ProbePayloadView)
    requires
        payload.public_key.len() == 32,
    ensures
        ProbePayloadView::decode(payload.encode()) == Some(payload),
{
    lemma_auto_spec_u16_to_from_le_bytes();
    let b = payload.encode();
    assert(b.subrange(0, 2) =~= spec_u16_to_le_bytes(payload.node_id));
    assert(b.subrange(2, 34) =~= payload.public_key);
}

/// Decoding an encoded `Sync` payload gives the payload back.
pub proof fn lemma_sync_round_trip(payload: SyncPayloadView)
    requires
        payload.public_key.len() == 32,
        payload.last_block_hash.len() == 32,
    ensures
        SyncPayloadView::decode(payload.encode()) == Some(payload),
{
    lemma_auto_spec_u16_to_from_le_bytes();
    lemma_auto_spec_u32_to_from_le_bytes();
    lemma_auto_spec_u64_to_from_le_bytes();
    let b = payload.encode();
    assert(b.subrange(0, 2) =~= spec_u16_to_le_bytes(payload.node_id));
    assert(b.subrange(2, 34) =~= payload.public_key);
    assert(b.subrange(34, 38) =~= spec_u32_to_le_bytes(payload.chain_height));
    assert(b.subrange(38, 70) =~= payload.last_block_hash);
    assert(b.subrange(70, 78) =~= spec_u64_to_le_bytes(payload.last_block_timestamp));
}

/// Decoding an encoded data payload gives the payload back, provided its
/// name fits the window and holds no NUL.
pub proof fn lemma_data_round_trip(payload: DataPayloadView)
    requires
        name_survives_window(payload.name),
    ensures
        DataPayloadView::decode(payload.encode()) == Some(payload),
{
    lemma_window_name_round_trip(payload.name);
    let b = payload.encode();
    let window = pad_name(encode_utf8(payload.name));
    assert(b.subrange(0, NAME_WINDOW as int) =~= window);
    assert(b.skip(NAME_WINDOW as int) =~= payload.data);
}

/// Decoding an encoded transaction payload gives the payload back,
/// provided the data name holds no NUL.
pub proof fn lemma_transaction_payload_round_trip(payload: TransactionPayloadView)
    requires
        payload.transaction.wf(),
        payload.transaction.sized(),
        name_survives_window(payload.transaction.data_name),
        payload.signature.len() == 64,
    ensures
        TransactionPayloadView::decode(payload.encode()) == Some(payload),
{
    lemma_encode_len(payload.transaction);
    lemma_transaction_round_trip(payload.transaction);
    let b = payload.encode();
    assert(b.subrange(0, TRANSACTION_LEN as int) =~= payload.transaction.encode());
    assert(b.subrange(TRANSACTION_LEN as int, TRANSACTION_PAYLOAD_LEN as int)
        =~= payload.signature);
}

/// A block that a chain payload gives back: well formed, no NUL in a data
/// name, and short enough for the two-byte length.
pub open spec fn block_survives_chain(block: BlockView) -> bool {
    &&& block.wf()
    &&& block.sized()
    &&& forall|i: int|
        0 <= i < block.transactions.len() ==> name_survives_window(
            (#[trigger] block.transactions[i]).data_name,
        )
    &&& block.encode().len() <= u16::MAX
}

/// Decoding an encoded run of blocks gives the run back, provided each
/// block survives.
pub proof fn lemma_chain_round_trip(blocks: Seq<BlockView>)
    requires
        forall|i: int| 0 <= i < blocks.len() ==> block_survives_chain(#[trigger] blocks[i]),
    ensures
        decode_chain(encode_chain(blocks)) == blocks,
    decreases blocks.len(),
{
    if blocks.len() == 0 {
        assert(decode_chain(encode_chain(blocks)) =~= blocks);
    } else {
        let first = blocks[0];
        let rest = blocks.drop_first();
        assert(block_survives_chain(first));
        assert forall|i: int| 0 <= i < rest.len() implies block_survives_chain(
            #[trigger] rest[i],
        ) by {
            assert(rest[i] == blocks[i + 1]);
        }
        lemma_chain_round_trip(rest);
        crate::block::lemma_block_round_trip(first);
        lemma_auto_spec_u16_to_from_le_bytes();
        let bytes = encode_chain(blocks);
        let size = first.encode().len() as int;
        assert(length_prefix(first.encode().len()) == size);
        assert(bytes.subrange(0, 2) =~= spec_u16_to_le_bytes(length_prefix(first.encode().len())));
        assert(bytes.subrange(2, 2 + size) =~= first.encode());
        assert(bytes.skip(2 + size) =~= encode_chain(rest));
        assert(seq![first] + rest =~= blocks);
    }
}

/// The transaction read from a transaction payload is well formed.
pub proof fn lemma_decoded_transaction_payload_wf(bytes: Seq<u8>)
    requires
        TransactionPayloadView::decode(bytes) is Some,
    ensures
        TransactionPayloadView::decode(bytes)->0.transaction.wf(),
{
    crate::transaction::lemma_decoded_wf(bytes.subrange(0, TRANSACTION_LEN as int));
}

/// Every block read from a chain payload is well formed.
pub proof fn lemma_decode_chain_wf(bytes: Seq<u8>)
    ensures
        forall|i: int| 0 <= i < decode_chain(bytes).len() ==> (#[trigger] decode_chain(bytes)[i]).wf(),
    decreases bytes.len(),
{
    if bytes.len() >= 2 {
        let size = spec_u16_from_le_bytes(bytes.subrange(0, 2)) as int;
        if 2 + size <= bytes.len() {
            let record = bytes.subrange(2, 2 + size);
            if let Some(block) = BlockView::decode(record) {
                crate::block::lemma_decoded_block_wf(record);
                lemma_decode_chain_wf(bytes.skip(2 + size));
                let rest = decode_chain(bytes.skip(2 + size));
                let all = decode_chain(bytes);
                assert(all =~= seq![block] + rest);
                assert forall|i: int| 0 <= i < all.len() implies (#[trigger] all[i]).wf() by {
                    if i > 0 {
                        assert(all[i] == rest[i - 1]);
                    }
                }
            }
        }
    }
}

} // verus!
