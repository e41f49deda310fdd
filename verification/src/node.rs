//! The node engine: what a node holds, and what it does with each tick of
//! its loop and each datagram that arrives.
//!
//! The engine touches no socket and no clock. Each step takes the time and
//! the packet ids it may use, changes the node, and returns the frames to
//! send with the addresses to send them to. Each method is proved to do
//! what the function of the same name says in `model`.

use vstd::prelude::*;
use std::collections::HashMap;
use crate::block::{lemma_block_wf, transaction_views, Block, BLOCK_PERIOD};
use crate::cache::{name_key, Cache, CacheOperation, InMemoryCache};
use crate::crypto::{verify, KeyPair};
use crate::keyed::{distinct, lemma_index_of, lemma_no_key, lemma_without, lookup, upsert, without};
use crate::laws::{
    lemma_admit_wf, lemma_check_ack_timeouts_wf, lemma_dispatch_wf, lemma_followed_by_assoc,
    lemma_followed_by_none, lemma_none_followed_by, lemma_register_wf, lemma_send_wf,
    lemma_without_keeps,
};
use crate::model::{
    ack_key, peer_ids, peer_key, pool_key, resent, retried, swept, Effect, NodeView, OutgoingView,
    PeerKeyView, PendingAckView, LEADER_ID,
};
use crate::protocol::{
    block_views, blocks_to_bytes, encode_chain, fresh_packet_id, AckPayload, BlockPayload,
    ChainPayload,
    DataPayload, Packet, PacketType, ProbePayload, SyncPayload, TransactionPayload, ACK_TIMEOUT,
    MAX_RETRIES,
};
use crate::transaction::Transaction;
use crate::wire::{same_bytes32, zeros};

verus! {

broadcast use vstd::std_specs::hash::group_hash_axioms;

/// A frame that waits for its acknowledgement.
#[derive(Debug)]
pub struct PendingAck {
    /// How often the frame was sent again.
    pub retries: u8,
    /// When it was last sent, in milliseconds.
    pub sent_at: u64,
    pub packet: Packet,
}

impl View for PendingAck {
    type V = PendingAckView;

    open spec fn view(&self) -> PendingAckView {
        PendingAckView { retries: self.retries, sent_at: self.sent_at, packet: self.packet@ }
    }
}

/// The public key that a peer announced.
#[derive(Debug, Clone, Copy)]
pub struct PeerKey {
    pub node_id: u16,
    pub public_key: [u8; 32],
}

impl View for PeerKey {
    type V = PeerKeyView;

    open spec fn view(&self) -> PeerKeyView {
        PeerKeyView { node_id: self.node_id, public_key: self.public_key@ }
    }
}

/// A frame to send, and the address to send it to.
#[derive(Debug)]
pub struct Outgoing {
    pub address: String,
    pub packet: Packet,
}

impl View for Outgoing {
    type V = OutgoingView;

    open spec fn view(&self) -> OutgoingView {
        OutgoingView { address: self.address, packet: self.packet@ }
    }
}

/// The views of a run of waiting frames.
pub open spec fn ack_views(acks: Seq<PendingAck>) -> Seq<PendingAckView> {
    Seq::new(acks.len(), |i: int| acks[i]@)
}

/// The views of a run of announced keys.
pub open spec fn peer_views(peers: Seq<PeerKey>) -> Seq<PeerKeyView> {
    Seq::new(peers.len(), |i: int| peers[i]@)
}

/// The views of a run of frames to send.
pub open spec fn outgoing_views(out: Seq<Outgoing>) -> Seq<OutgoingView> {
    Seq::new(out.len(), |i: int| out[i]@)
}

/// Puts `entry` in the place of the frame that waits under its packet id,
/// or at the end.
fn upsert_ack(acks: &mut Vec<PendingAck>, entry: PendingAck)
    requires
        distinct(ack_views(old(acks)@), ack_key()),
    ensures
        ack_views(final(acks)@) == upsert(ack_views(old(acks)@), ack_key(), entry@),
{
    let ghost before = ack_views(acks@);
    let id: u32 = entry.packet.packet_id;
    let mut i: usize = 0;
    while i < acks.len()
        invariant
            i <= acks@.len(),
            *acks == *old(acks),
            before == ack_views(acks@),
            distinct(before, ack_key()),
            id == entry.packet.packet_id,
            forall|k: int| 0 <= k < i ==> (ack_key())(#[trigger] before[k]) != id,
        decreases acks@.len() - i,
    {
        if acks[i].packet.packet_id == id {
            proof {
                assert((ack_key())(before[i as int]) == id);
                lemma_index_of(before, ack_key(), i as int);
            }
            acks.set(i, entry);
            assert(ack_views(acks@) =~= before.update(i as int, entry@));
            return ;
        }
        i += 1;
    }
    proof {
        lemma_no_key(before, ack_key(), id);
    }
    acks.push(entry);
    assert(ack_views(acks@) =~= before.push(entry@));
}

/// Takes out the frame that waits under `id`, if there is one.
fn remove_ack(acks: &mut Vec<PendingAck>, id: u32)
    requires
        distinct(ack_views(old(acks)@), ack_key()),
    ensures
        ack_views(final(acks)@) == without(ack_views(old(acks)@), ack_key(), id),
{
    let ghost before = ack_views(acks@);
    let mut i: usize = 0;
    while i < acks.len()
        invariant
            i <= acks@.len(),
            *acks == *old(acks),
            before == ack_views(acks@),
            distinct(before, ack_key()),
            forall|k: int| 0 <= k < i ==> (ack_key())(#[trigger] before[k]) != id,
        decreases acks@.len() - i,
    {
        if acks[i].packet.packet_id == id {
            proof {
                assert((ack_key())(before[i as int]) == id);
                lemma_index_of(before, ack_key(), i as int);
            }
            acks.remove(i);
            assert(ack_views(acks@) =~= before.remove(i as int));
            return ;
        }
        i += 1;
    }
    proof {
        lemma_no_key(before, ack_key(), id);
    }
}

/// Puts `peer` in the place of the key that its node announced before, or
/// at the end.
fn upsert_peer(peers: &mut Vec<PeerKey>, peer: PeerKey)
    requires
        distinct(peer_views(old(peers)@), peer_key()),
    ensures
        peer_views(final(peers)@) == upsert(peer_views(old(peers)@), peer_key(), peer@),
{
    let ghost before = peer_views(peers@);
    let mut i: usize = 0;
    while i < peers.len()
        invariant
            i <= peers@.len(),
            *peers == *old(peers),
            before == peer_views(peers@),
            distinct(before, peer_key()),
            forall|k: int| 0 <= k < i ==> (peer_key())(#[trigger] before[k]) != peer.node_id,
        decreases peers@.len() - i,
    {
        if peers[i].node_id == peer.node_id {
            proof {
                assert((peer_key())(before[i as int]) == peer.node_id);
                lemma_index_of(before, peer_key(), i as int);
            }
            peers.set(i, peer);
            assert(peer_views(peers@) =~= before.update(i as int, peer@));
            return ;
        }
        i += 1;
    }
    proof {
        lemma_no_key(before, peer_key(), peer.node_id);
    }
    peers.push(peer);
    assert(peer_views(peers@) =~= before.push(peer@));
}

/// The key that the node `id` announced, if it announced one.
fn find_peer(peers: &Vec<PeerKey>, id: u16) -> (found: Option<PeerKey>)
    requires
        distinct(peer_views(peers@), peer_key()),
    ensures
        match found {
            Some(peer) => lookup(peer_views(peers@), peer_key(), id) == Some(peer@),
            None => lookup(peer_views(peers@), peer_key(), id) is None,
        },
{
    let ghost views = peer_views(peers@);
    let mut i: usize = 0;
    while i < peers.len()
        invariant
            i <= peers@.len(),
            views == peer_views(peers@),
            distinct(views, peer_key()),
            forall|k: int| 0 <= k < i ==> (peer_key())(#[trigger] views[k]) != id,
        decreases peers@.len() - i,
    {
        if peers[i].node_id == id {
            proof {
                assert((peer_key())(views[i as int]) == id);
                lemma_index_of(views, peer_key(), i as int);
            }
            return Some(peers[i]);
        }
        i += 1;
    }
    proof {
        lemma_no_key(views, peer_key(), id);
    }
    None
}

/// Puts `transaction` in the place of the pending transaction with its
/// hash, or at the end.
fn upsert_transaction(pool: &mut Vec<Transaction>, transaction: Transaction)
    requires
        distinct(transaction_views(old(pool)@), pool_key()),
    ensures
        transaction_views(final(pool)@) == upsert(
            transaction_views(old(pool)@),
            pool_key(),
            transaction@,
        ),
{
    let ghost before = transaction_views(pool@);
    let mut i: usize = 0;
    while i < pool.len()
        invariant
            i <= pool@.len(),
            *pool == *old(pool),
            before == transaction_views(pool@),
            distinct(before, pool_key()),
            forall|k: int| 0 <= k < i ==> (pool_key())(#[trigger] before[k]) != transaction.hash@,
        decreases pool@.len() - i,
    {
        if same_bytes32(&pool[i].hash, &transaction.hash) {
            proof {
                assert((pool_key())(before[i as int]) == transaction.hash@);
                lemma_index_of(before, pool_key(), i as int);
            }
            pool.set(i, transaction);
            assert(transaction_views(pool@) =~= before.update(i as int, transaction@));
            return ;
        }
        i += 1;
    }
    proof {
        lemma_no_key(before, pool_key(), transaction.hash@);
    }
    pool.push(transaction);
    assert(transaction_views(pool@) =~= before.push(transaction@));
}

/// A node: its identity and keys, what it knows of its peers, the frames
/// and transactions that are pending, its chain and its cache.
pub struct Node {
    id: u16,
    leader: u16,
    key_pair: KeyPair,
    addr_table: HashMap<u16, String>,
    pending_acks: Vec<PendingAck>,
    peer_public_keys: Vec<PeerKey>,
    pending_transactions: Vec<Transaction>,
    chain: Vec<Block>,
    cache: InMemoryCache,
}

impl View for Node {
    type V = NodeView;

    closed spec fn view(&self) -> NodeView {
        NodeView {
            id: self.id,
            leader: self.leader,
            pkcs8: self.key_pair.spec_pkcs8(),
            public_key: self.key_pair.spec_public_key(),
            addresses: self.addr_table@,
            pending_acks: ack_views(self.pending_acks@),
            peers: peer_views(self.peer_public_keys@),
            pool: transaction_views(self.pending_transactions@),
            chain: block_views(self.chain@),
            cache: self.cache.entries(),
        }
    }
}

impl Node {
    /// The cache is in order.
    pub closed spec fn cache_wf(&self) -> bool {
        self.cache.wf()
    }

    /// What holds of a node at all times.
    pub open spec fn wf(&self) -> bool {
        self@.wf() && self.cache_wf()
    }

    /// The node and the frames in `out`, as the account of a step.
    pub open spec fn effect(&self, out: Seq<Outgoing>) -> Effect {
        Effect { node: self@, sent: outgoing_views(out) }
    }

    /// A node with the identity `id`, that knows no peer and holds
    /// nothing. Node 0 is its leader.
    pub fn new(id: u16, key_pair: KeyPair) -> (node: Node)
        ensures
            node.wf(),
            node@ == (NodeView {
                id,
                leader: LEADER_ID,
                pkcs8: key_pair.spec_pkcs8(),
                public_key: key_pair.spec_public_key(),
                addresses: Map::empty(),
                pending_acks: Seq::empty(),
                peers: Seq::empty(),
                pool: Seq::empty(),
                chain: Seq::empty(),
                cache: Seq::empty(),
            }),
    {
        // Reading the key brings what holds of the pair into view.
        let _key: [u8; 32] = key_pair.public_key();
        let node = Node {
            id,
            leader: LEADER_ID,
            key_pair,
            addr_table: HashMap::new(),
            pending_acks: Vec::new(),
            peer_public_keys: Vec::new(),
            pending_transactions: Vec::new(),
            chain: Vec::new(),
            cache: InMemoryCache::new(),
        };
        proof {
            assert(node@.pending_acks =~= Seq::empty());
            assert(node@.peers =~= Seq::empty());
            assert(node@.pool =~= Seq::empty());
            assert(node@.chain =~= Seq::empty());
        }
        node
    }

    /// Sends `packet` if the address of its destination is known; unless it
    /// is an `Ack`, it then waits for its acknowledgement.
    fn send(&mut self, packet: Packet, now_ms: u64, out: &mut Vec<Outgoing>)
        requires
            old(self).wf(),
        ensures
            final(self).wf(),
            final(self).effect(final(out)@) == old(self).effect(old(out)@).followed_by(
                old(self)@.send(packet@, now_ms),
            ),
    {
        proof {
            lemma_send_wf(self@, packet@, now_ms);
        }
        let ghost sent_before = outgoing_views(out@);
        match self.addr_table.get(&packet.dst) {
            Some(address) => {
                let address = address.clone();
                if packet.packet_type != PacketType::Ack.tag() {
                    let waiting = PendingAck { retries: 0, sent_at: now_ms, packet: packet.clone() };
                    upsert_ack(&mut self.pending_acks, waiting);
                }
                out.push(Outgoing { address, packet });
                assert(outgoing_views(out@) =~= sent_before + seq![
                    OutgoingView { address, packet: packet@ },
                ]);
            },
            None => {
                assert(outgoing_views(out@) =~= sent_before + Seq::<OutgoingView>::empty());
            },
        }
    }

    /// Sends one frame of the given kind and payload to each peer whose key
    /// is known, in the order in which the keys were announced.
    fn broadcast(
        &mut self,
        ids: &Vec<u32>,
        kind: PacketType,
        payload: &Vec<u8>,
        now_ms: u64,
        out: &mut Vec<Outgoing>,
    )
        requires
            old(self).wf(),
            ids@.len() >= old(self)@.peers.len(),
        ensures
            final(self).wf(),
            final(self).effect(final(out)@) == old(self).effect(old(out)@).followed_by(
                old(self)@.broadcast(
                    peer_ids(old(self)@.peers),
                    ids@,
                    kind,
                    payload@,
                    now_ms,
                ),
            ),
    {
        let ghost start = self.effect(out@);
        let ghost peers = peer_ids(self@.peers);
        let ghost whole = self@.broadcast(peers, ids@, kind, payload@, now_ms);
        let count: usize = self.peer_public_keys.len();
        let mut i: usize = 0;
        proof {
            assert(peers.skip(0) =~= peers);
            assert(ids@.skip(0) =~= ids@);
        }
        while i < count
            invariant
                i <= count,
                count == peers.len(),
                ids@.len() >= count,
                self.wf(),
                peers == peer_ids(self@.peers),
                self.peer_public_keys@.len() == count,
                start.followed_by(whole) == self.effect(out@).followed_by(
                    self@.broadcast(peers.skip(i as int), ids@.skip(i as int), kind, payload@, now_ms),
                ),
            decreases count - i,
        {
            let peer: u16 = self.peer_public_keys[i].node_id;
            let packet = Packet::with_id(
                ids[i],
                self.id,
                peer,
                kind,
                vstd::slice::slice_to_vec(payload.as_slice()),
            );
            let ghost before = self.effect(out@);
            let ghost node = self@;
            proof {
                assert(peers.skip(i as int)[0] == peer);
                assert(ids@.skip(i as int)[0] == ids@[i as int]);
                assert(peers.skip(i as int).drop_first() =~= peers.skip(i + 1));
                assert(ids@.skip(i as int).drop_first() =~= ids@.skip(i + 1));
            }
            self.send(packet, now_ms, out);
            proof {
                let first = node.send(packet@, now_ms);
                let rest = first.node.broadcast(
                    peers.skip(i + 1),
                    ids@.skip(i + 1),
                    kind,
                    payload@,
                    now_ms,
                );
                lemma_followed_by_assoc(before, first, rest);
                assert(self@.peers == node.peers);
            }
            i += 1;
        }
        proof {
            assert(peers.skip(i as int).len() == 0);
            lemma_followed_by_none(self.effect(out@));
        }
    }

    /// Acknowledges `packet` with an `Ack` that has the id `ack_id`.
    fn reply_ack(&mut self, packet: &Packet, ack_id: u32, now_ms: u64, out: &mut Vec<Outgoing>)
        requires
            old(self).wf(),
        ensures
            final(self).wf(),
            final(self).effect(final(out)@) == old(self).effect(old(out)@).followed_by(
                old(self)@.reply_ack(packet@, ack_id, now_ms),
            ),
    {
        let ack = Packet::with_id(
            ack_id,
            self.id,
            packet.src,
            PacketType::Ack,
            AckPayload::new(packet.packet_id).as_bytes(),
        );
        self.send(ack, now_ms, out);
    }

    /// Notes the leader's address and announces this node to it.
    fn send_probe(
        &mut self,
        leader_address: String,
        probe_id: u32,
        now_ms: u64,
        out: &mut Vec<Outgoing>,
    )
        requires
            old(self).wf(),
        ensures
            final(self).wf(),
            final(self).effect(final(out)@) == old(self).effect(old(out)@).followed_by(
                old(self)@.send_probe(leader_address, probe_id, now_ms),
            ),
    {
        self.addr_table.insert(LEADER_ID, leader_address);
        assert(self@ == NodeView {
            addresses: old(self)@.addresses.insert(LEADER_ID, leader_address),
            ..old(self)@
        });
        let probe = Packet::with_id(
            probe_id,
            self.id,
            LEADER_ID,
            PacketType::Probe,
            ProbePayload::new(self.id, self.key_pair.public_key()).as_bytes(),
        );
        self.send(probe, now_ms, out);
    }

    /// Starts the node: unless it is the leader, it announces itself to the
    /// leader at `leader_address`, in a frame with the id `probe_id`.
    pub fn start(&mut self, leader_address: String, probe_id: u32, now_ms: u64) -> (out: Vec<
        Outgoing,
    >)
        requires
            old(self).wf(),
        ensures
            final(self).wf(),
            final(self).effect(out@) == old(self)@.start(leader_address, probe_id, now_ms),
    {
        let mut out: Vec<Outgoing> = Vec::new();
        let ghost begin = self.effect(out@);
        if self.id != self.leader {
            self.send_probe(leader_address, probe_id, now_ms, &mut out);
        }
        proof {
            lemma_none_followed_by(begin.node, self@.start(leader_address, probe_id, now_ms));
            assert(outgoing_views(Seq::<Outgoing>::empty()) =~= Seq::<OutgoingView>::empty());
        }
        out
    }

    /// The retransmission sweep at `now_ms`: every frame that has waited
    /// `ACK_TIMEOUT` milliseconds is sent again if it was sent again fewer
    /// than `MAX_RETRIES` times and its destination has an address, and is
    /// given up otherwise.
    pub fn check_ack_timeouts(&mut self, now_ms: u64) -> (out: Vec<Outgoing>)
        requires
            old(self).wf(),
        ensures
            final(self).wf(),
            final(self).effect(out@) == old(self)@.check_ack_timeouts(now_ms),
    {
        let mut out: Vec<Outgoing> = Vec::new();
        let mut kept: Vec<PendingAck> = Vec::new();
        let ghost views = self@.pending_acks;
        let ghost addresses = self@.addresses;
        let count: usize = self.pending_acks.len();
        let mut i: usize = 0;
        proof {
            assert(views.take(0) =~= Seq::empty());
            assert(ack_views(kept@) =~= swept(views.take(0), addresses, now_ms));
            assert(outgoing_views(out@) =~= resent(views.take(0), addresses, now_ms));
        }
        while i < count
            invariant
                i <= count,
                count == self.pending_acks@.len(),
                views == ack_views(self.pending_acks@),
                addresses == self.addr_table@,
                forall|k: int| 0 <= k < views.len() ==> (#[trigger] views[k]).retries <= MAX_RETRIES,
                ack_views(kept@) == swept(views.take(i as int), addresses, now_ms),
                outgoing_views(out@) == resent(views.take(i as int), addresses, now_ms),
            decreases count - i,
        {
            let ghost kept_before = ack_views(kept@);
            let ghost out_before = outgoing_views(out@);
            let entry = &self.pending_acks[i];
            proof {
                assert(views.take(i + 1).drop_last() =~= views.take(i as int));
                assert(views.take(i + 1).last() == views[i as int]);
                assert(views[i as int] == entry@);
            }
            if !(now_ms >= entry.sent_at && now_ms - entry.sent_at >= ACK_TIMEOUT) {
                kept.push(
                    PendingAck {
                        retries: entry.retries,
                        sent_at: entry.sent_at,
                        packet: entry.packet.clone(),
                    },
                );
                assert(ack_views(kept@) =~= kept_before.push(entry@));
            } else if entry.retries < MAX_RETRIES {
                match self.addr_table.get(&entry.packet.dst) {
                    Some(address) => {
                        out.push(Outgoing { address: address.clone(), packet: entry.packet.clone() });
                        kept.push(
                            PendingAck {
                                retries: entry.retries + 1,
                                sent_at: now_ms,
                                packet: entry.packet.clone(),
                            },
                        );
                        assert(ack_views(kept@) =~= kept_before.push(retried(entry@, now_ms)));
                        assert(outgoing_views(out@) =~= out_before.push(
                            OutgoingView {
                                address: addresses[entry.packet.dst],
                                packet: entry.packet@,
                            },
                        ));
                    },
                    None => {},
                }
            }
            i += 1;
        }
        proof {
            assert(views.take(i as int) =~= views);
            lemma_check_ack_timeouts_wf(self@, now_ms);
        }
        self.pending_acks = kept;
        out
    }

    /// Seals the pending transactions into a block made at `now_secs`,
    /// appends it to the chain and sends it to every peer whose key is
    /// known.
    fn create_block(&mut self, now_secs: u64, now_ms: u64, ids: &Vec<u32>, out: &mut Vec<Outgoing>)
        requires
            old(self).wf(),
            ids@.len() >= old(self)@.peers.len(),
        ensures
            final(self).wf(),
            final(self).effect(final(out)@) == old(self).effect(old(out)@).followed_by(
                old(self)@.create_block(now_secs, now_ms, ids@),
            ),
    {
        let ghost before = self@;
        let mut transactions: Vec<Transaction> = Vec::new();
        std::mem::swap(&mut self.pending_transactions, &mut transactions);
        let prev: [u8; 32] = if self.chain.len() == 0 {
            [0u8; 32]
        } else {
            self.chain[self.chain.len() - 1].merkle_root
        };
        assert(prev@ =~= before.tip_root());
        let block = Block::new(transactions, prev, now_secs);
        proof {
            assert(block@.transactions =~= before.pool);
            assert(block@ == before.next_block(now_secs));
            assert forall|k: int| 0 <= k < block.transactions@.len() implies (
            #[trigger] block.transactions@[k]).wf() by {
                assert(before.pool[k].wf());
            }
            lemma_block_wf(block);
        }
        let payload = block.as_bytes();
        let ghost chain_before = block_views(self.chain@);
        self.chain.push(block);
        proof {
            assert(block_views(self.chain@) =~= chain_before.push(block@));
            assert(transaction_views(self.pending_transactions@) =~= Seq::empty());
            assert(self@ == NodeView {
                pool: Seq::empty(),
                chain: before.chain.push(before.next_block(now_secs)),
                ..before
            });
            assert(self@.wf()) by {
                assert forall|k: int| 0 <= k < self@.chain.len() implies (
                #[trigger] self@.chain[k]).wf() by {
                    if k < before.chain.len() {
                        assert(self@.chain[k] == before.chain[k]);
                    }
                }
            }
        }
        self.broadcast(ids, PacketType::Block, &payload, now_ms, out);
    }

    /// Whether the leader owes a block at `now_secs`.
    pub fn block_due(&self, now_secs: u64) -> (due: bool)
        ensures
            due == self@.block_due(now_secs),
    {
        if self.id != self.leader {
            return false;
        }
        let height: usize = self.chain.len();
        if height == 0 {
            return true;
        }
        let last: u64 = self.chain[height - 1].timestamp;
        assert(self@.chain.last().timestamp == last);
        now_secs >= last && now_secs - last >= BLOCK_PERIOD
    }

    /// One tick of the loop at `now_ms` milliseconds on the monotonic clock
    /// and `now_secs` seconds on the wall clock: the retransmission sweep,
    /// then a new block if this node is the leader and one is due. `ids`
    /// gives the packet ids for the frames that carry the block, one for
    /// each peer whose key is known; where no block is due it may be empty.
    pub fn tick(&mut self, now_ms: u64, now_secs: u64, ids: &Vec<u32>) -> (out: Vec<Outgoing>)
        requires
            old(self).wf(),
            old(self)@.block_due(now_secs) ==> ids@.len() >= old(self)@.peers.len(),
        ensures
            final(self).wf(),
            final(self).effect(out@) == old(self)@.tick(now_ms, now_secs, ids@),
    {
        let due = self.block_due(now_secs);
        let mut out = self.check_ack_timeouts(now_ms);
        if due {
            self.create_block(now_secs, now_ms, ids, &mut out);
        }
        out
    }

    /// Takes the frame that an `Ack` names off the waiting list.
    fn handle_ack(&mut self, packet: &Packet)
        requires
            old(self).wf(),
        ensures
            final(self).wf(),
            Effect::none(final(self)@) == old(self)@.handle_ack(packet@),
    {
        match AckPayload::from_bytes(packet.payload.as_slice()) {
            Some(ack) => {
                proof {
                    lemma_without(self@.pending_acks, ack_key(), ack.packet_id);
                    lemma_without_keeps(self@.pending_acks, ack.packet_id);
                }
                remove_ack(&mut self.pending_acks, ack.packet_id);
                assert(self@ == NodeView {
                    pending_acks: without(old(self)@.pending_acks, ack_key(), ack.packet_id),
                    ..old(self)@
                });
            },
            None => {},
        }
    }

    /// The summary of the chain that a `Sync` carries.
    fn sync_payload(&self) -> (payload: SyncPayload)
        requires
            self.wf(),
        ensures
            payload@ == self@.sync_payload(),
    {
        let height: usize = self.chain.len();
        let key = self.key_pair.public_key();
        if height == 0 {
            let payload = SyncPayload::new(self.id, key, 0, [0u8; 32], 0);
            assert(payload.last_block_hash@ =~= zeros(32));
            payload
        } else {
            let last = &self.chain[height - 1];
            assert(self@.chain.last() == last@);
            SyncPayload::new(
                self.id,
                key,
                ((height as u64) % 0x1_0000_0000u64) as u32,
                last.merkle_root,
                last.timestamp,
            )
        }
    }

    /// Registers the key that a `Probe` announces and answers with a
    /// `Sync`.
    fn handle_probe(&mut self, packet: &Packet, id: u32, now_ms: u64, out: &mut Vec<Outgoing>)
        requires
            old(self).wf(),
        ensures
            final(self).wf(),
            final(self).effect(final(out)@) == old(self).effect(old(out)@).followed_by(
                old(self)@.handle_probe(packet@, id, now_ms),
            ),
    {
        match ProbePayload::from_bytes(packet.payload.as_slice()) {
            Some(probe) => {
                let answer = self.sync_payload().as_bytes();
                let peer = PeerKey { node_id: probe.node_id, public_key: probe.public_key };
                proof {
                    lemma_register_wf(self@, peer@);
                }
                upsert_peer(&mut self.peer_public_keys, peer);
                let sync = Packet::with_id(id, self.id, probe.node_id, PacketType::Sync, answer);
                self.send(sync, now_ms, out);
            },
            None => {
                proof {
                    lemma_followed_by_none(self.effect(out@));
                }
            },
        }
    }

    /// Registers the key that a `Sync` announces, and asks for the
    /// sender's chain if it is higher than this node's.
    fn handle_sync(&mut self, packet: &Packet, id: u32, now_ms: u64, out: &mut Vec<Outgoing>)
        requires
            old(self).wf(),
        ensures
            final(self).wf(),
            final(self).effect(final(out)@) == old(self).effect(old(out)@).followed_by(
                old(self)@.handle_sync(packet@, id, now_ms),
            ),
    {
        match SyncPayload::from_bytes(packet.payload.as_slice()) {
            Some(sync) => {
                let peer = PeerKey { node_id: sync.node_id, public_key: sync.public_key };
                proof {
                    lemma_register_wf(self@, peer@);
                }
                upsert_peer(&mut self.peer_public_keys, peer);
                if (self.chain.len() as u64) < sync.chain_height as u64 {
                    let request = Packet::with_id(
                        id,
                        self.id,
                        sync.node_id,
                        PacketType::GetChain,
                        Vec::new(),
                    );
                    self.send(request, now_ms, out);
                } else {
                    proof {
                        lemma_followed_by_none(self.effect(out@));
                    }
                }
            },
            None => {
                proof {
                    lemma_followed_by_none(self.effect(out@));
                }
            },
        }
    }

    /// Stores the blob of a `SetData`, records the operation in a signed
    /// transaction, admits it to the pool and sends it to every peer whose
    /// key is known.
    fn handle_set_data(
        &mut self,
        packet: &Packet,
        now_secs: u64,
        now_ms: u64,
        ids: &Vec<u32>,
        out: &mut Vec<Outgoing>,
    )
        requires
            old(self).wf(),
            ids@.len() >= old(self)@.peers.len(),
        ensures
            final(self).wf(),
            final(self).effect(final(out)@) == old(self).effect(old(out)@).followed_by(
                old(self)@.handle_set_data(packet@, now_secs, now_ms, ids@),
            ),
    {
        let ghost before = self@;
        match DataPayload::from_bytes(packet.payload.as_slice()) {
            Some(data) => {
                self.cache.set(data.name.as_str(), data.data.as_slice(), now_secs);
                let ghost stored = self@;
                assert(stored == NodeView {
                    cache: upsert(
                        before.cache,
                        name_key(),
                        crate::cache::stored(
                            before.cache,
                            data.name@,
                            data.data@,
                            data.data@.len() as usize,
                            now_secs,
                        ),
                    ),
                    ..before
                });
                match Transaction::new(
                    self.id,
                    packet.src,
                    data.name,
                    CacheOperation::Put,
                    now_secs,
                ) {
                    Ok(transaction) => {
                        let message = transaction.as_bytes();
                        let signature = self.key_pair.sign(message.as_slice());
                        let payload = TransactionPayload::new(
                            transaction.clone(),
                            signature,
                        ).as_bytes();
                        proof {
                            lemma_admit_wf(stored, transaction@);
                        }
                        upsert_transaction(&mut self.pending_transactions, transaction);
                        self.broadcast(ids, PacketType::Transaction, &payload, now_ms, out);
                    },
                    Err(_) => {
                        proof {
                            lemma_followed_by_none(self.effect(out@));
                        }
                    },
                }
            },
            None => {
                proof {
                    lemma_followed_by_none(self.effect(out@));
                }
            },
        }
    }

    /// Looks up the blob that a `GetData` names. Nothing is sent back.
    fn handle_get_data(&mut self, packet: &Packet, now_secs: u64)
        requires
            old(self).wf(),
        ensures
            final(self).wf(),
            Effect::none(final(self)@) == old(self)@.handle_get_data(packet@, now_secs),
    {
        proof {
            lemma_dispatch_wf(self@, PacketType::GetData, packet@, 0, now_secs, Seq::empty());
        }
        match DataPayload::from_bytes(packet.payload.as_slice()) {
            Some(data) => {
                let _blob: Option<Vec<u8>> = self.cache.get(data.name.as_str(), now_secs);
            },
            None => {},
        }
    }

    /// Answers a `GetChain` with the whole chain.
    fn handle_get_chain(&mut self, packet: &Packet, id: u32, now_ms: u64, out: &mut Vec<Outgoing>)
        requires
            old(self).wf(),
        ensures
            final(self).wf(),
            final(self).effect(final(out)@) == old(self).effect(old(out)@).followed_by(
                old(self)@.handle_get_chain(packet@, id, now_ms),
            ),
    {
        let payload = self.encode_chain();
        let answer = Packet::with_id(id, self.id, packet.src, PacketType::Chain, payload);
        self.send(answer, now_ms, out);
    }

    /// The chain as the payload of a `Chain` frame.
    fn encode_chain(&self) -> (bytes: Vec<u8>)
        requires
            self.wf(),
        ensures
            bytes@ == encode_chain(self@.chain),
    {
        proof {
            assert forall|k: int| 0 <= k < self.chain@.len() implies (#[trigger] self.chain@[k]).wf() by {
                assert(self@.chain[k].wf());
                lemma_block_wf(self.chain@[k]);
            }
        }
        blocks_to_bytes(self.chain.as_slice())
    }

    /// Takes the chain of a `Chain` frame in place of this node's, if it
    /// holds more blocks.
    fn handle_chain(&mut self, packet: &Packet)
        requires
            old(self).wf(),
        ensures
            final(self).wf(),
            Effect::none(final(self)@) == old(self)@.handle_chain(packet@),
    {
        let received = ChainPayload::from_bytes(packet.payload.as_slice());
        if self.chain.len() < received.chain.len() {
            proof {
                assert forall|k: int| 0 <= k < received@.len() implies (#[trigger] received@[k]).wf() by {
                    assert(received.chain@[k].wf());
                    lemma_block_wf(received.chain@[k]);
                }
            }
            self.chain = received.chain;
        }
    }

    /// Admits the transaction of a `Transaction` frame to the pool if the
    /// sender's key is known, the signature verifies under it and the hash
    /// is that of the other fields.
    fn handle_transaction(&mut self, packet: &Packet)
        requires
            old(self).wf(),
        ensures
            final(self).wf(),
            Effect::none(final(self)@) == old(self)@.handle_transaction(packet@),
    {
        match TransactionPayload::from_bytes(packet.payload.as_slice()) {
            Some(payload) => {
                match find_peer(&self.peer_public_keys, packet.src) {
                    Some(peer) => {
                        let message = payload.transaction.as_bytes();
                        if verify(
                            message.as_slice(),
                            payload.signature.as_slice(),
                            peer.public_key.as_slice(),
                        ) && payload.transaction.hash_matches() {
                            proof {
                                lemma_admit_wf(self@, payload.transaction@);
                            }
                            upsert_transaction(&mut self.pending_transactions, payload.transaction);
                        }
                    },
                    None => {},
                }
            },
            None => {},
        }
    }

    /// Appends the block of a `Block` frame to the chain.
    fn handle_block(&mut self, packet: &Packet)
        requires
            old(self).wf(),
        ensures
            final(self).wf(),
            Effect::none(final(self)@) == old(self)@.handle_block(packet@),
    {
        match BlockPayload::from_bytes(packet.payload.as_slice()) {
            Some(payload) => {
                let ghost before = self@.chain;
                proof {
                    lemma_block_wf(payload.block);
                }
                self.chain.push(payload.block);
                proof {
                    assert(self@.chain =~= before.push(payload@));
                    assert forall|k: int| 0 <= k < self@.chain.len() implies (
                    #[trigger] self@.chain[k]).wf() by {
                        if k < before.len() {
                            assert(self@.chain[k] == before[k]);
                        }
                    }
                }
            },
            None => {},
        }
    }

    /// Takes a datagram that arrived from `sender` at `now_ms` milliseconds
    /// on the monotonic clock and `now_secs` seconds on the wall clock.
    ///
    /// A datagram that is no frame is dropped: nothing changes and nothing
    /// is sent. Of a frame the sender's address is noted; unless it is an
    /// `Ack`, it is acknowledged in a frame with the id `ack_id`; then the
    /// handler of its kind takes it. `ids` gives the packet ids for the
    /// frames that the handler sends: the first for a single answer, one
    /// for each peer whose key is known for gossip.
    pub fn receive(
        &mut self,
        datagram: &[u8],
        sender: String,
        now_ms: u64,
        now_secs: u64,
        ack_id: u32,
        ids: &Vec<u32>,
    ) -> (out: Vec<Outgoing>)
        requires
            old(self).wf(),
            ids@.len() >= old(self)@.ids_wanted(datagram@),
        ensures
            final(self).wf(),
            final(self).effect(out@) == old(self)@.receive(
                datagram@,
                sender,
                now_ms,
                now_secs,
                ack_id,
                ids@,
            ),
    {
        let mut out: Vec<Outgoing> = Vec::new();
        let ghost before = self@;
        proof {
            assert(outgoing_views(out@) =~= Seq::<OutgoingView>::empty());
        }
        let packet = match Packet::from_bytes(datagram) {
            Some(packet) => packet,
            None => {
                return out;
            },
        };
        self.addr_table.insert(packet.src, sender);
        let ghost noted = self@;
        proof {
            assert(noted == NodeView {
                addresses: before.addresses.insert(packet.src, sender),
                ..before
            });
            lemma_none_followed_by(
                noted,
                before.receive(datagram@, sender, now_ms, now_secs, ack_id, ids@),
            );
        }
        let kind = PacketType::from_tag(packet.packet_type);
        match kind {
            Some(PacketType::Ack) => {
                self.handle_ack(&packet);
            },
            Some(kind) => {
                self.reply_ack(&packet, ack_id, now_ms, &mut out);
                let ghost acked = self.effect(out@);
                proof {
                    lemma_none_followed_by(noted, noted.reply_ack(packet@, ack_id, now_ms));
                    assert(acked == noted.reply_ack(packet@, ack_id, now_ms));
                    assert(self@.peers == before.peers);
                }
                match kind {
                    PacketType::Ack => {},
                    PacketType::Probe => {
                        self.handle_probe(&packet, ids[0], now_ms, &mut out);
                    },
                    PacketType::Sync => {
                        self.handle_sync(&packet, ids[0], now_ms, &mut out);
                    },
                    PacketType::SetData => {
                        self.handle_set_data(&packet, now_secs, now_ms, ids, &mut out);
                    },
                    PacketType::GetData => {
                        self.handle_get_data(&packet, now_secs);
                    },
                    PacketType::Data => {
                        proof {
                            lemma_followed_by_none(acked);
                        }
                    },
                    PacketType::GetChain => {
                        self.handle_get_chain(&packet, ids[0], now_ms, &mut out);
                    },
                    PacketType::Chain => {
                        self.handle_chain(&packet);
                    },
                    PacketType::Transaction => {
                        self.handle_transaction(&packet);
                    },
                    PacketType::Block => {
                        self.handle_block(&packet);
                    },
                }
            },
            None => {
                self.reply_ack(&packet, ack_id, now_ms, &mut out);
                proof {
                    lemma_none_followed_by(noted, noted.reply_ack(packet@, ack_id, now_ms));
                }
            },
        }
        out
    }

    /// Starts the node as `start` does, with a packet id drawn from the
    /// system's random source. The leader sends no frame, draws no id and
    /// always starts. For any other node `None` means that the system gave
    /// no random bytes; the node is then as it was.
    pub fn on_start(&mut self, leader_address: String, now_ms: u64) -> (out: Option<Vec<Outgoing>>)
        requires
            old(self).wf(),
        ensures
            final(self).wf(),
            match out {
                Some(sent) => exists|probe_id: u32|
                    final(self).effect(sent@) == #[trigger] old(self)@.start(
                        leader_address,
                        probe_id,
                        now_ms,
                    ),
                None => final(self)@ == old(self)@,
            },
            old(self)@.id == old(self)@.leader ==> out is Some,
    {
        let probe_id: u32 = if self.id == self.leader {
            0
        } else {
            match fresh_packet_id() {
                Some(id) => id,
                None => {
                    return None;
                },
            }
        };
        Some(self.start(leader_address, probe_id, now_ms))
    }

    /// Does one tick as `tick` does, with packet ids drawn from the
    /// system's random source. Ids are drawn only for the frames that carry
    /// a new block: where no block is due, or no peer's key is known, none
    /// is drawn and the tick always takes place. Otherwise `None` means
    /// that the system gave no random bytes; the node is then as it was.
    pub fn on_tick(&mut self, now_ms: u64, now_secs: u64) -> (out: Option<Vec<Outgoing>>)
        requires
            old(self).wf(),
        ensures
            final(self).wf(),
            match out {
                Some(sent) => exists|ids: Seq<u32>|
                    final(self).effect(sent@) == #[trigger] old(self)@.tick(now_ms, now_secs, ids),
                None => final(self)@ == old(self)@,
            },
            !(old(self)@.block_due(now_secs) && old(self)@.peers.len() > 0) ==> out is Some,
    {
        let count: usize = if self.block_due(now_secs) {
            self.peer_public_keys.len()
        } else {
            0
        };
        match draw_ids(count) {
            Some(ids) => Some(self.tick(now_ms, now_secs, &ids)),
            None => None,
        }
    }

    /// Whether a datagram is answered with an `Ack`, and how many packet
    /// ids its handler may take.
    fn wanted(&self, datagram: &[u8]) -> (wanted: (bool, usize))
        ensures
            wanted.0 == NodeView::is_answered(datagram@),
            wanted.1 == self@.ids_wanted(datagram@),
    {
        match Packet::from_bytes(datagram) {
            Some(packet) => {
                let answered = packet.packet_type != PacketType::Ack.tag();
                let count: usize = match PacketType::from_tag(packet.packet_type) {
                    Some(PacketType::SetData) => self.peer_public_keys.len(),
                    Some(PacketType::Probe) => 1,
                    Some(PacketType::Sync) => 1,
                    Some(PacketType::GetChain) => 1,
                    _ => 0,
                };
                (answered, count)
            },
            None => (false, 0),
        }
    }

    /// Takes a datagram as `receive` does, with packet ids drawn from the
    /// system's random source. Ids are drawn only for the frames that the
    /// node sends: a datagram that is no frame, and an `Ack`, are answered
    /// by none, so that none is drawn and the datagram is always taken.
    /// Otherwise `None` means that the system gave no random bytes; the
    /// node is then as it was.
    pub fn on_datagram(
        &mut self,
        datagram: &[u8],
        sender: String,
        now_ms: u64,
        now_secs: u64,
    ) -> (out: Option<Vec<Outgoing>>)
        requires
            old(self).wf(),
        ensures
            final(self).wf(),
            match out {
                Some(sent) => exists|ack_id: u32, ids: Seq<u32>|
                    final(self).effect(sent@) == #[trigger] old(self)@.receive(
                        datagram@,
                        sender,
                        now_ms,
                        now_secs,
                        ack_id,
                        ids,
                    ),
                None => final(self)@ == old(self)@,
            },
            !NodeView::is_answered(datagram@) ==> out is Some,
    {
        let (answered, count) = self.wanted(datagram);
        let ack_id: u32 = if answered {
            match fresh_packet_id() {
                Some(id) => id,
                None => {
                    return None;
                },
            }
        } else {
            0
        };
        match draw_ids(count) {
            Some(ids) => Some(self.receive(datagram, sender, now_ms, now_secs, ack_id, &ids)),
            None => None,
        }
    }

    /// How many packet ids are enough for any `tick` and `receive`: one
    /// for each peer whose key is known, and one at least.
    pub fn ids_needed(&self) -> (count: usize)
        ensures
            count == if self@.peers.len() == 0 {
                1
            } else {
                self@.peers.len()
            },
    {
        let peers: usize = self.peer_public_keys.len();
        if peers == 0 {
            1
        } else {
            peers
        }
    }

    /// The identity of the node.
    pub fn id(&self) -> (id: u16)
        ensures
            id == self@.id,
    {
        self.id
    }

    /// The identity of the node that seals blocks.
    pub fn leader(&self) -> (leader: u16)
        ensures
            leader == self@.leader,
    {
        self.leader
    }

    /// The node's public key.
    pub fn public_key(&self) -> (key: [u8; 32])
        ensures
            key@ == self@.public_key,
    {
        self.key_pair.public_key()
    }

    /// The chain, oldest block first.
    pub fn chain(&self) -> (chain: &Vec<Block>)
        ensures
            block_views(chain@) == self@.chain,
    {
        &self.chain
    }

    /// The pending transactions, in the order in which they were admitted.
    pub fn pending_transactions(&self) -> (pool: &Vec<Transaction>)
        ensures
            transaction_views(pool@) == self@.pool,
    {
        &self.pending_transactions
    }

    /// The frames that wait for their acknowledgement.
    pub fn pending_acks(&self) -> (acks: &Vec<PendingAck>)
        ensures
            ack_views(acks@) == self@.pending_acks,
    {
        &self.pending_acks
    }

    /// The public keys that peers announced, in the order in which they
    /// were first announced.
    pub fn peer_public_keys(&self) -> (peers: &Vec<PeerKey>)
        ensures
            peer_views(peers@) == self@.peers,
    {
        &self.peer_public_keys
    }

    /// The address from which the node `id` was last heard, if it was.
    pub fn address_of(&self, id: u16) -> (address: Option<String>)
        ensures
            match address {
                Some(a) => self@.addresses.contains_key(id) && self@.addresses[id] == a,
                None => !self@.addresses.contains_key(id),
            },
    {
        match self.addr_table.get(&id) {
            Some(address) => Some(address.clone()),
            None => None,
        }
    }

    /// The cache.
    pub fn cache(&self) -> (cache: &InMemoryCache)
        ensures
            cache.entries() == self@.cache,
            cache.blobs() == self@.blobs(),
            self.cache_wf() ==> cache.wf(),
    {
        &self.cache
    }
}

/// Draws `count` packet ids from the system's random source. Where none
/// is asked for, the source is not touched and the empty run is given.
/// Otherwise `None` means that the system gave no random bytes.
pub fn draw_ids(count: usize) -> (ids: Option<Vec<u32>>)
    ensures
        ids matches Some(v) ==> v@.len() == count,
        count == 0 ==> ids is Some,
{
    let mut ids: Vec<u32> = Vec::new();
    let mut i: usize = 0;
    while i < count
        invariant
            i <= count,
            ids@.len() == i,
        decreases count - i,
    {
        match fresh_packet_id() {
            Some(id) => {
                ids.push(id);
            },
            None => {
                return None;
            },
        }
        i += 1;
    }
    Some(ids)
}

} // verus!
