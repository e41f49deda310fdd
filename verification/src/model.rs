//! The mathematical account of a node: what it holds, and what each step
//! of its life does to it and has it send.
//!
//! A step takes the time and the packet ids it may use, and gives the node
//! after the step with the frames to send.

use vstd::prelude::*;
use crate::block::{merkle_root, transaction_hashes, BlockView, BLOCK_PERIOD};
use crate::cache::{blobs_of, name_key, read, stored, CacheEntryView, CacheOperation};
use crate::crypto::{ed25519_signature, ed25519_verifies, sha256, MAX_DIGEST_INPUT};
use crate::keyed::{distinct, lookup, upsert, without};
use crate::protocol::{
    decode_chain, encode_chain, AckPayload, DataPayloadView, PacketType, PacketView,
    ProbePayloadView, SyncPayloadView, TransactionPayloadView, ACK_TIMEOUT, MAX_RETRIES,
};
use crate::transaction::{canonical_fields, TransactionView};
use crate::wire::zeros;

verus! {

/// The node that seals blocks.
pub const LEADER_ID: u16 = 0;

/// What a waiting frame holds.
pub struct PendingAckView {
    pub retries: u8,
    pub sent_at: u64,
    pub packet: PacketView,
}

/// What an announced key holds.
pub struct PeerKeyView {
    pub node_id: u16,
    pub public_key: Seq<u8>,
}

/// What a frame to send holds.
pub struct OutgoingView {
    pub address: String,
    pub packet: PacketView,
}

/// A waiting frame is known by its packet id.
pub open spec fn ack_key() -> spec_fn(PendingAckView) -> u32 {
    |a: PendingAckView| a.packet.packet_id
}

/// An announced key is known by the node that announced it.
pub open spec fn peer_key() -> spec_fn(PeerKeyView) -> u16 {
    |p: PeerKeyView| p.node_id
}

/// A pending transaction is known by its hash.
pub open spec fn pool_key() -> spec_fn(TransactionView) -> Seq<u8> {
    |t: TransactionView| t.hash
}

/// The tag of an `Ack` frame.
pub open spec fn ack_tag() -> u8 {
    PacketType::Ack.spec_tag()
}

/// A frame has waited for `ACK_TIMEOUT` milliseconds or more at `now_ms`.
pub open spec fn expired(ack: PendingAckView, now_ms: u64) -> bool {
    now_ms >= ack.sent_at && now_ms - ack.sent_at >= ACK_TIMEOUT
}

/// The entry of a frame that is sent again at `now_ms`.
pub open spec fn retried(ack: PendingAckView, now_ms: u64) -> PendingAckView {
    PendingAckView { retries: (ack.retries + 1) as u8, sent_at: now_ms, packet: ack.packet }
}

/// What the retransmission sweep leaves of the waiting frames: a frame that
/// has not expired stays; an expired one with retries left and a known
/// address stays with one retry more and the new time; any other is dropped.
pub open spec fn swept(
    acks: Seq<PendingAckView>,
    addresses: Map<u16, String>,
    now_ms: u64,
) -> Seq<PendingAckView>
    decreases acks.len(),
{
    if acks.len() == 0 {
        acks
    } else {
        let rest = swept(acks.drop_last(), addresses, now_ms);
        let ack = acks.last();
        if !expired(ack, now_ms) {
            rest.push(ack)
        } else if ack.retries < MAX_RETRIES && addresses.contains_key(ack.packet.dst) {
            rest.push(retried(ack, now_ms))
        } else {
            rest
        }
    }
}

/// The frames that the retransmission sweep sends again, in the order in
/// which they wait.
pub open spec fn resent(
    acks: Seq<PendingAckView>,
    addresses: Map<u16, String>,
    now_ms: u64,
) -> Seq<OutgoingView>
    decreases acks.len(),
{
    if acks.len() == 0 {
        Seq::empty()
    } else {
        let rest = resent(acks.drop_last(), addresses, now_ms);
        let ack = acks.last();
        if expired(ack, now_ms) && ack.retries < MAX_RETRIES && addresses.contains_key(
            ack.packet.dst,
        ) {
            rest.push(OutgoingView { address: addresses[ack.packet.dst], packet: ack.packet })
        } else {
            rest
        }
    }
}

/// The ids of the peers whose keys are known, in the order in which they
/// were first announced.
pub open spec fn peer_ids(peers: Seq<PeerKeyView>) -> Seq<u16> {
    Seq::new(peers.len(), |i: int| peers[i].node_id)
}

/// What a node holds.
pub struct NodeView {
    pub id: u16,
    pub leader: u16,
    /// The PKCS#8 document of the node's key pair.
    pub pkcs8: Seq<u8>,
    pub public_key: Seq<u8>,
    /// Where each node was last heard from.
    pub addresses: Map<u16, String>,
    pub pending_acks: Seq<PendingAckView>,
    pub peers: Seq<PeerKeyView>,
    /// The pending transactions, in the order in which they were admitted.
    pub pool: Seq<TransactionView>,
    pub chain: Seq<BlockView>,
    /// The entries of the cache, oldest name first.
    pub cache: Seq<CacheEntryView>,
}

/// A node after a step, and the frames that the step sends.
pub struct Effect {
    pub node: NodeView,
    pub sent: Seq<OutgoingView>,
}

impl Effect {
    /// A step that changes nothing and sends nothing.
    pub open spec fn none(node: NodeView) -> Effect {
        Effect { node, sent: Seq::empty() }
    }

    /// This step, then `next`.
    pub open spec fn followed_by(self, next: Effect) -> Effect {
        Effect { node: next.node, sent: self.sent + next.sent }
    }
}

impl NodeView {
    /// What holds of a node at all times: the public key has 32 bytes; no
    /// packet id waits twice, and no frame was sent again more than
    /// `MAX_RETRIES` times; no peer has two keys; no name is cached twice;
    /// no hash is pending twice; every transaction held is well formed.
    pub open spec fn wf(self) -> bool {
        &&& self.public_key.len() == 32
        &&& distinct(self.pending_acks, ack_key())
        &&& forall|i: int|
            0 <= i < self.pending_acks.len() ==> (#[trigger] self.pending_acks[i]).retries
                <= MAX_RETRIES
        &&& distinct(self.peers, peer_key())
        &&& forall|i: int|
            0 <= i < self.peers.len() ==> (#[trigger] self.peers[i]).public_key.len() == 32
        &&& distinct(self.cache, name_key())
        &&& distinct(self.pool, pool_key())
        &&& forall|i: int| 0 <= i < self.pool.len() ==> (#[trigger] self.pool[i]).wf()
        &&& forall|i: int| 0 <= i < self.chain.len() ==> (#[trigger] self.chain[i]).wf()
    }

    /// The blobs in the cache, by name.
    pub open spec fn blobs(self) -> Map<Seq<char>, Seq<u8>> {
        blobs_of(self.cache)
    }

    /// The root of the last block, or 32 zero bytes while there is none.
    pub open spec fn tip_root(self) -> Seq<u8> {
        if self.chain.len() == 0 {
            zeros(32)
        } else {
            self.chain.last().merkle_root
        }
    }

    /// Sending a frame: it goes out if the address of its destination is
    /// known, and it then waits for its acknowledgement unless it is an
    /// `Ack` itself.
    pub open spec fn send(self, packet: PacketView, now_ms: u64) -> Effect {
        if self.addresses.contains_key(packet.dst) {
            Effect {
                node: if packet.packet_type != ack_tag() {
                    NodeView {
                        pending_acks: upsert(
                            self.pending_acks,
                            ack_key(),
                            PendingAckView { retries: 0, sent_at: now_ms, packet },
                        ),
                        ..self
                    }
                } else {
                    self
                },
                sent: seq![OutgoingView { address: self.addresses[packet.dst], packet }],
            }
        } else {
            Effect::none(self)
        }
    }

    /// Sending one frame of the same kind and payload to each of `peers`
    /// in turn, with the packet ids taken from `ids` in turn.
    pub open spec fn broadcast(
        self,
        peers: Seq<u16>,
        ids: Seq<u32>,
        kind: PacketType,
        payload: Seq<u8>,
        now_ms: u64,
    ) -> Effect
        decreases peers.len(),
    {
        if peers.len() == 0 {
            Effect::none(self)
        } else {
            let first = self.send(
                PacketView::with_id(ids[0], self.id, peers[0], kind, payload),
                now_ms,
            );
            first.followed_by(
                first.node.broadcast(peers.drop_first(), ids.drop_first(), kind, payload, now_ms),
            )
        }
    }

    /// Acknowledging a frame.
    pub open spec fn reply_ack(self, packet: PacketView, ack_id: u32, now_ms: u64) -> Effect {
        self.send(
            PacketView::with_id(
                ack_id,
                self.id,
                packet.src,
                PacketType::Ack,
                AckPayload { packet_id: packet.packet_id }.encode(),
            ),
            now_ms,
        )
    }

    /// Announcing oneself to the leader at `leader_address`.
    pub open spec fn send_probe(self, leader_address: String, probe_id: u32, now_ms: u64) -> Effect {
        NodeView { addresses: self.addresses.insert(LEADER_ID, leader_address), ..self }.send(
            PacketView::with_id(
                probe_id,
                self.id,
                LEADER_ID,
                PacketType::Probe,
                ProbePayloadView { node_id: self.id, public_key: self.public_key }.encode(),
            ),
            now_ms,
        )
    }

    /// The start of a node's life: a node that is not the leader announces
    /// itself.
    pub open spec fn start(self, leader_address: String, probe_id: u32, now_ms: u64) -> Effect {
        if self.id != self.leader {
            self.send_probe(leader_address, probe_id, now_ms)
        } else {
            Effect::none(self)
        }
    }

    /// The retransmission sweep.
    pub open spec fn check_ack_timeouts(self, now_ms: u64) -> Effect {
        Effect {
            node: NodeView {
                pending_acks: swept(self.pending_acks, self.addresses, now_ms),
                ..self
            },
            sent: resent(self.pending_acks, self.addresses, now_ms),
        }
    }

    /// The block that is sealed at `now_secs`: the whole pool, in its
    /// order, on top of the chain.
    pub open spec fn next_block(self, now_secs: u64) -> BlockView {
        BlockView {
            merkle_root: merkle_root(transaction_hashes(self.pool), now_secs, self.tip_root()),
            prev_block_hash: self.tip_root(),
            timestamp: now_secs,
            transactions: self.pool,
        }
    }

    /// Sealing a block: the pool is drained into it, it joins the chain,
    /// and it is sent to every peer whose key is known.
    pub open spec fn create_block(self, now_secs: u64, now_ms: u64, ids: Seq<u32>) -> Effect {
        let block = self.next_block(now_secs);
        NodeView { pool: Seq::empty(), chain: self.chain.push(block), ..self }.broadcast(
            peer_ids(self.peers),
            ids,
            PacketType::Block,
            block.encode(),
            now_ms,
        )
    }

    /// A block is due: the node is the leader, and its chain is empty or
    /// its last block is `BLOCK_PERIOD` seconds old.
    pub open spec fn block_due(self, now_secs: u64) -> bool {
        &&& self.id == self.leader
        &&& (self.chain.len() == 0 || (now_secs >= self.chain.last().timestamp && now_secs
            - self.chain.last().timestamp >= BLOCK_PERIOD))
    }

    /// One tick of the loop: the retransmission sweep, then a block if one
    /// is due.
    pub open spec fn tick(self, now_ms: u64, now_secs: u64, ids: Seq<u32>) -> Effect {
        let swept = self.check_ack_timeouts(now_ms);
        if self.block_due(now_secs) {
            swept.followed_by(swept.node.create_block(now_secs, now_ms, ids))
        } else {
            swept
        }
    }

    /// An `Ack` takes the frame that it names off the waiting list.
    pub open spec fn handle_ack(self, packet: PacketView) -> Effect {
        match AckPayload::decode(packet.payload) {
            Some(ack) => Effect::none(
                NodeView {
                    pending_acks: without(self.pending_acks, ack_key(), ack.packet_id),
                    ..self
                },
            ),
            None => Effect::none(self),
        }
    }

    /// The summary of the chain that a `Sync` carries.
    pub open spec fn sync_payload(self) -> SyncPayloadView {
        if self.chain.len() == 0 {
            SyncPayloadView {
                node_id: self.id,
                public_key: self.public_key,
                chain_height: 0,
                last_block_hash: zeros(32),
                last_block_timestamp: 0,
            }
        } else {
            SyncPayloadView {
                node_id: self.id,
                public_key: self.public_key,
                chain_height: (self.chain.len() % 0x1_0000_0000) as u32,
                last_block_hash: self.chain.last().merkle_root,
                last_block_timestamp: self.chain.last().timestamp,
            }
        }
    }

    /// A `Probe` registers the sender's key and is answered with a `Sync`.
    pub open spec fn handle_probe(self, packet: PacketView, id: u32, now_ms: u64) -> Effect {
        match ProbePayloadView::decode(packet.payload) {
            Some(probe) => NodeView {
                peers: upsert(
                    self.peers,
                    peer_key(),
                    PeerKeyView { node_id: probe.node_id, public_key: probe.public_key },
                ),
                ..self
            }.send(
                PacketView::with_id(
                    id,
                    self.id,
                    probe.node_id,
                    PacketType::Sync,
                    self.sync_payload().encode(),
                ),
                now_ms,
            ),
            None => Effect::none(self),
        }
    }

    /// A `Sync` registers the sender's key; if the sender's chain is higher,
    /// it is asked for.
    pub open spec fn handle_sync(self, packet: PacketView, id: u32, now_ms: u64) -> Effect {
        match SyncPayloadView::decode(packet.payload) {
            Some(sync) => {
                let registered = NodeView {
                    peers: upsert(
                        self.peers,
                        peer_key(),
                        PeerKeyView { node_id: sync.node_id, public_key: sync.public_key },
                    ),
                    ..self
                };
                if self.chain.len() < sync.chain_height {
                    registered.send(
                        PacketView::with_id(
                            id,
                            self.id,
                            sync.node_id,
                            PacketType::GetChain,
                            Seq::empty(),
                        ),
                        now_ms,
                    )
                } else {
                    Effect::none(registered)
                }
            },
            None => Effect::none(self),
        }
    }

    /// The transaction that records a `SetData` of `name` from `client`.
    pub open spec fn minted(self, client: u16, name: Seq<char>, now_secs: u64) -> TransactionView {
        TransactionView {
            node_id: self.id,
            client_id: client,
            data_name: name,
            operation: CacheOperation::Put,
            timestamp: now_secs,
            hash: sha256(canonical_fields(self.id, client, name, CacheOperation::Put, now_secs)),
        }
    }

    /// A `SetData` stores the blob, and records the operation: a signed
    /// transaction joins the pool and is sent to every peer whose key is
    /// known. Where the text to hash is too long for the digest, the blob is
    /// stored and nothing is recorded.
    pub open spec fn handle_set_data(
        self,
        packet: PacketView,
        now_secs: u64,
        now_ms: u64,
        ids: Seq<u32>,
    ) -> Effect {
        match DataPayloadView::decode(packet.payload) {
            Some(data) => {
                let stored = NodeView {
                    cache: upsert(
                        self.cache,
                        name_key(),
                        stored(
                            self.cache,
                            data.name,
                            data.data,
                            data.data.len() as usize,
                            now_secs,
                        ),
                    ),
                    ..self
                };
                let transaction = self.minted(packet.src, data.name, now_secs);
                if transaction.canonical_fields().len() < MAX_DIGEST_INPUT {
                    NodeView {
                        pool: upsert(self.pool, pool_key(), transaction),
                        ..stored
                    }.broadcast(
                        peer_ids(self.peers),
                        ids,
                        PacketType::Transaction,
                        TransactionPayloadView {
                            transaction,
                            signature: ed25519_signature(self.pkcs8, transaction.encode())->0,
                        }.encode(),
                        now_ms,
                    )
                } else {
                    Effect::none(stored)
                }
            },
            None => Effect::none(self),
        }
    }

    /// A `GetData` reads the blob that it names: the cache counts the
    /// access. Nothing is sent back.
    pub open spec fn handle_get_data(self, packet: PacketView, now_secs: u64) -> Effect {
        match DataPayloadView::decode(packet.payload) {
            Some(data) => match lookup(self.cache, name_key(), data.name) {
                Some(known) => Effect::none(
                    NodeView {
                        cache: upsert(self.cache, name_key(), read(known, now_secs)),
                        ..self
                    },
                ),
                None => Effect::none(self),
            },
            None => Effect::none(self),
        }
    }

    /// A `GetChain` is answered with the whole chain.
    pub open spec fn handle_get_chain(self, packet: PacketView, id: u32, now_ms: u64) -> Effect {
        self.send(
            PacketView::with_id(
                id,
                self.id,
                packet.src,
                PacketType::Chain,
                encode_chain(self.chain),
            ),
            now_ms,
        )
    }

    /// A `Chain` replaces the local chain if it holds more blocks.
    pub open spec fn handle_chain(self, packet: PacketView) -> Effect {
        let received = decode_chain(packet.payload);
        if self.chain.len() < received.len() {
            Effect::none(NodeView { chain: received, ..self })
        } else {
            Effect::none(self)
        }
    }

    /// Whether a gossiped transaction is admitted: the sender's key is
    /// known, the signature over the transaction's 109 bytes verifies under
    /// it, and the hash is that of the other fields.
    pub open spec fn admits(self, src: u16, payload: TransactionPayloadView) -> bool {
        &&& lookup(self.peers, peer_key(), src) matches Some(peer)
        &&& ed25519_verifies(peer.public_key, payload.transaction.encode(), payload.signature)
        &&& payload.transaction.canonical_fields().len() < MAX_DIGEST_INPUT
        &&& payload.transaction.hash_matches()
    }

    /// A `Transaction` that is admitted joins the pool; any other changes
    /// nothing.
    pub open spec fn handle_transaction(self, packet: PacketView) -> Effect {
        match TransactionPayloadView::decode(packet.payload) {
            Some(payload) => if self.admits(packet.src, payload) {
                Effect::none(
                    NodeView { pool: upsert(self.pool, pool_key(), payload.transaction), ..self },
                )
            } else {
                Effect::none(self)
            },
            None => Effect::none(self),
        }
    }

    /// A `Block` joins the chain.
    pub open spec fn handle_block(self, packet: PacketView) -> Effect {
        match BlockView::decode(packet.payload) {
            Some(block) => Effect::none(NodeView { chain: self.chain.push(block), ..self }),
            None => Effect::none(self),
        }
    }

    /// What the handler of a frame's kind does with it. A payload that
    /// does not decode changes nothing.
    pub open spec fn dispatch(
        self,
        kind: PacketType,
        packet: PacketView,
        now_ms: u64,
        now_secs: u64,
        ids: Seq<u32>,
    ) -> Effect {
        match kind {
            PacketType::Ack => self.handle_ack(packet),
            PacketType::Probe => self.handle_probe(packet, ids[0], now_ms),
            PacketType::Sync => self.handle_sync(packet, ids[0], now_ms),
            PacketType::SetData => self.handle_set_data(packet, now_secs, now_ms, ids),
            PacketType::GetData => self.handle_get_data(packet, now_secs),
            PacketType::Data => Effect::none(self),
            PacketType::GetChain => self.handle_get_chain(packet, ids[0], now_ms),
            PacketType::Chain => self.handle_chain(packet),
            PacketType::Transaction => self.handle_transaction(packet),
            PacketType::Block => self.handle_block(packet),
        }
    }

    /// A datagram is answered with an `Ack`: it is a frame, and no `Ack`
    /// itself.
    pub open spec fn is_answered(datagram: Seq<u8>) -> bool {
        PacketView::decode(datagram) matches Some(packet) && packet.packet_type != ack_tag()
    }

    /// How many packet ids the handler of a datagram may take: one for each
    /// peer whose key is known for a `SetData`, which is gossiped; one for
    /// a `Probe`, a `Sync` and a `GetChain`, which get a single answer;
    /// none for any other.
    pub open spec fn ids_wanted(self, datagram: Seq<u8>) -> nat {
        match PacketView::decode(datagram) {
            Some(packet) => match PacketType::spec_from_tag(packet.packet_type) {
                Some(PacketType::SetData) => self.peers.len(),
                Some(PacketType::Probe) => 1,
                Some(PacketType::Sync) => 1,
                Some(PacketType::GetChain) => 1,
                _ => 0,
            },
            None => 0,
        }
    }

    /// What a datagram does to a node. One that is no frame changes
    /// nothing. Of a frame the sender's address is noted; unless it is an
    /// `Ack` it is acknowledged; then the handler of its kind, if it has a
    /// known kind, takes it.
    pub open spec fn receive(
        self,
        datagram: Seq<u8>,
        sender: String,
        now_ms: u64,
        now_secs: u64,
        ack_id: u32,
        ids: Seq<u32>,
    ) -> Effect {
        match PacketView::decode(datagram) {
            Some(packet) => {
                let noted = NodeView { addresses: self.addresses.insert(packet.src, sender), ..self };
                match PacketType::spec_from_tag(packet.packet_type) {
                    Some(PacketType::Ack) => noted.handle_ack(packet),
                    Some(kind) => {
                        let acked = noted.reply_ack(packet, ack_id, now_ms);
                        acked.followed_by(acked.node.dispatch(kind, packet, now_ms, now_secs, ids))
                    },
                    None => noted.reply_ack(packet, ack_id, now_ms),
                }
            },
            None => Effect::none(self),
        }
    }
}

} // verus!
