//! What holds of every node: each step keeps it well formed, frames are
//! sent again a bounded number of times, no hash is pending twice, and
//! blocks keep their distance.

use vstd::prelude::*;
use crate::block::{lemma_decoded_block_wf, BlockView, BLOCK_PERIOD};
use crate::cache::{lemma_blobs_upsert, name_key, read, stored};
use crate::crypto::ed25519_signature;
use crate::keyed::{
    distinct, has_key, index_of, lemma_upsert, lemma_without, lookup, upsert, without,
};
use crate::model::{
    ack_key, ack_tag, expired, peer_ids, peer_key, pool_key, retried, swept, Effect,
    NodeView, OutgoingView, PeerKeyView, PendingAckView, LEADER_ID,
};
use crate::protocol::{
    block_survives_chain, encode_chain, lemma_chain_round_trip, lemma_decode_chain_wf,
    lemma_decoded_transaction_payload_wf, AckPayload,
    DataPayloadView, PacketType, PacketView, ProbePayloadView, SyncPayloadView,
    TransactionPayloadView, MAX_RETRIES,
};
use crate::transaction::{lemma_decoded_name_fits, TransactionView};
use crate::wire::NAME_WINDOW;

verus! {

/// Sending keeps a node well formed.
pub proof fn lemma_send_wf(node: NodeView, packet: PacketView, now_ms: u64)
    requires
        node.wf(),
    ensures
        node.send(packet, now_ms).node.wf(),
{
    let entry = PendingAckView { retries: 0, sent_at: now_ms, packet };
    lemma_upsert(node.pending_acks, ack_key(), entry);
    let after = upsert(node.pending_acks, ack_key(), entry);
    assert forall|i: int| 0 <= i < after.len() implies (#[trigger] after[i]).retries
        <= MAX_RETRIES by {
        if has_key(node.pending_acks, ack_key(), packet.packet_id) {
            if i != index_of(node.pending_acks, ack_key(), packet.packet_id) {
                assert(after[i] == node.pending_acks[i]);
            }
        } else {
            if i < node.pending_acks.len() {
                assert(after[i] == node.pending_acks[i]);
            }
        }
    }
}

/// Broadcasting keeps a node well formed, and changes nothing but the
/// list of waiting frames.
pub proof fn lemma_broadcast_wf(
    node: NodeView,
    peers: Seq<u16>,
    ids: Seq<u32>,
    kind: PacketType,
    payload: Seq<u8>,
    now_ms: u64,
)
    requires
        node.wf(),
    ensures
        node.broadcast(peers, ids, kind, payload, now_ms).node.wf(),
        node.broadcast(peers, ids, kind, payload, now_ms).node == (NodeView {
            pending_acks: node.broadcast(peers, ids, kind, payload, now_ms).node.pending_acks,
            ..node
        }),
    decreases peers.len(),
{
    if peers.len() > 0 {
        let first = node.send(PacketView::with_id(ids[0], node.id, peers[0], kind, payload), now_ms);
        lemma_send_wf(node, PacketView::with_id(ids[0], node.id, peers[0], kind, payload), now_ms);
        lemma_broadcast_wf(
            first.node,
            peers.drop_first(),
            ids.drop_first(),
            kind,
            payload,
            now_ms,
        );
    }
}

/// Registering a peer's 32-byte key keeps a node well formed.
pub proof fn lemma_register_wf(node: NodeView, peer: PeerKeyView)
    requires
        node.wf(),
        peer.public_key.len() == 32,
    ensures
        (NodeView { peers: upsert(node.peers, peer_key(), peer), ..node }).wf(),
{
    lemma_upsert(node.peers, peer_key(), peer);
    let after = upsert(node.peers, peer_key(), peer);
    assert forall|i: int| 0 <= i < after.len() implies (#[trigger] after[i]).public_key.len()
        == 32 by {
        if has_key(node.peers, peer_key(), peer.node_id) {
            if i != index_of(node.peers, peer_key(), peer.node_id) {
                assert(after[i] == node.peers[i]);
            }
        } else {
            if i < node.peers.len() {
                assert(after[i] == node.peers[i]);
            }
        }
    }
}

/// Admitting a well-formed transaction keeps a node well formed: no hash
/// comes to be pending twice.
pub proof fn lemma_admit_wf(node: NodeView, transaction: TransactionView)
    requires
        node.wf(),
        transaction.wf(),
    ensures
        (NodeView { pool: upsert(node.pool, pool_key(), transaction), ..node }).wf(),
        distinct(upsert(node.pool, pool_key(), transaction), pool_key()),
{
    lemma_upsert(node.pool, pool_key(), transaction);
    let after = upsert(node.pool, pool_key(), transaction);
    assert forall|i: int| 0 <= i < after.len() implies (#[trigger] after[i]).wf() by {
        if has_key(node.pool, pool_key(), transaction.hash) {
            if i != index_of(node.pool, pool_key(), transaction.hash) {
                assert(after[i] == node.pool[i]);
            }
        } else {
            if i < node.pool.len() {
                assert(after[i] == node.pool[i]);
            }
        }
    }
}

/// What the sweep does with each waiting frame, and that it keeps the list
/// in order: a frame that has not expired waits on as it was; an expired
/// one waits on with one retry more if it has retries left and an address,
/// and is gone otherwise.
pub proof fn lemma_swept(acks: Seq<PendingAckView>, addresses: Map<u16, String>, now_ms: u64)
    requires
        distinct(acks, ack_key()),
    ensures
        distinct(swept(acks, addresses, now_ms), ack_key()),
        forall|k: u32|
            has_key(swept(acks, addresses, now_ms), ack_key(), k) ==> #[trigger] has_key(
                acks,
                ack_key(),
                k,
            ),
        forall|i: int|
            0 <= i < acks.len() ==> lookup(
                swept(acks, addresses, now_ms),
                ack_key(),
                (#[trigger] acks[i]).packet.packet_id,
            ) == if !expired(acks[i], now_ms) {
                Some(acks[i])
            } else if acks[i].retries < MAX_RETRIES && addresses.contains_key(acks[i].packet.dst) {
                Some(retried(acks[i], now_ms))
            } else {
                None
            },
    decreases acks.len(),
{
    if acks.len() > 0 {
        let front = acks.drop_last();
        let last = acks.last();
        let rest = swept(front, addresses, now_ms);
        let all = swept(acks, addresses, now_ms);
        assert forall|i: int, j: int| 0 <= i < j < front.len() implies (ack_key())(
            #[trigger] front[i],
        ) != (ack_key())(#[trigger] front[j]) by {
            assert((ack_key())(acks[i]) != (ack_key())(acks[j]));
        }
        lemma_swept(front, addresses, now_ms);
        let id = last.packet.packet_id;
        if has_key(rest, ack_key(), id) {
            assert(has_key(front, ack_key(), id));
            let j = index_of(front, ack_key(), id);
            assert((ack_key())(acks[j]) != (ack_key())(acks[acks.len() - 1]));
        }
        let stays = !expired(last, now_ms) || (last.retries < MAX_RETRIES
            && addresses.contains_key(last.packet.dst));
        let entry = if !expired(last, now_ms) { last } else { retried(last, now_ms) };
        if stays {
            assert(all == rest.push(entry));
            assert(upsert(rest, ack_key(), entry) == rest.push(entry));
            lemma_upsert(rest, ack_key(), entry);
        } else {
            assert(all == rest);
        }
        assert forall|k: u32| has_key(all, ack_key(), k) implies #[trigger] has_key(
            acks,
            ack_key(),
            k,
        ) by {
            let j = index_of(all, ack_key(), k);
            if j < rest.len() {
                assert((ack_key())(rest[j]) == k);
                assert(has_key(rest, ack_key(), k));
                assert(has_key(front, ack_key(), k));
                let m = index_of(front, ack_key(), k);
                assert((ack_key())(acks[m]) == k);
            } else {
                assert((ack_key())(acks[acks.len() - 1]) == k);
            }
        }
        assert forall|i: int| 0 <= i < acks.len() implies lookup(
            all,
            ack_key(),
            (#[trigger] acks[i]).packet.packet_id,
        ) == if !expired(acks[i], now_ms) {
            Some(acks[i])
        } else if acks[i].retries < MAX_RETRIES && addresses.contains_key(acks[i].packet.dst) {
            Some(retried(acks[i], now_ms))
        } else {
            None
        } by {
            if i < front.len() {
                assert(acks[i] == front[i]);
                assert((ack_key())(acks[i]) != (ack_key())(acks[acks.len() - 1]));
            }
        }
    }
}

/// The sweep keeps a node well formed.
pub proof fn lemma_check_ack_timeouts_wf(node: NodeView, now_ms: u64)
    requires
        node.wf(),
    ensures
        node.check_ack_timeouts(now_ms).node.wf(),
{
    lemma_swept(node.pending_acks, node.addresses, now_ms);
    lemma_swept_retries(node.pending_acks, node.addresses, now_ms);
}

/// After the sweep no frame has been sent again more than `MAX_RETRIES`
/// times.
pub proof fn lemma_swept_retries(
    acks: Seq<PendingAckView>,
    addresses: Map<u16, String>,
    now_ms: u64,
)
    requires
        forall|i: int| 0 <= i < acks.len() ==> (#[trigger] acks[i]).retries <= MAX_RETRIES,
    ensures
        forall|i: int|
            0 <= i < swept(acks, addresses, now_ms).len() ==> (#[trigger] swept(
                acks,
                addresses,
                now_ms,
            )[i]).retries <= MAX_RETRIES,
    decreases acks.len(),
{
    if acks.len() > 0 {
        let front = acks.drop_last();
        assert forall|i: int| 0 <= i < front.len() implies (#[trigger] front[i]).retries
            <= MAX_RETRIES by {
            assert(front[i] == acks[i]);
        }
        lemma_swept_retries(front, addresses, now_ms);
        let rest = swept(front, addresses, now_ms);
        let all = swept(acks, addresses, now_ms);
        assert(acks.last() == acks[acks.len() - 1]);
        assert forall|i: int| 0 <= i < all.len() implies (#[trigger] all[i]).retries
            <= MAX_RETRIES by {
            if i < rest.len() {
                assert(all[i] == rest[i]);
            }
        }
    }
}

/// One step after another, after a third, is the same whichever two are
/// taken together.
pub proof fn lemma_followed_by_assoc(a: Effect, b: Effect, c: Effect)
    ensures
        a.followed_by(b).followed_by(c) == a.followed_by(b.followed_by(c)),
{
    assert((a.sent + b.sent) + c.sent =~= a.sent + (b.sent + c.sent));
}

/// A step that sends nothing and leaves the node as the step before left
/// it adds nothing.
pub proof fn lemma_followed_by_none(a: Effect)
    ensures
        a.followed_by(Effect::none(a.node)) == a,
{
    assert(a.sent + Seq::<OutgoingView>::empty() =~= a.sent);
}

/// Taking a frame off the waiting list leaves the retry counts of the
/// others as they were.
pub proof fn lemma_without_keeps(acks: Seq<PendingAckView>, id: u32)
    requires
        forall|i: int| 0 <= i < acks.len() ==> (#[trigger] acks[i]).retries <= MAX_RETRIES,
    ensures
        forall|i: int|
            0 <= i < without(acks, ack_key(), id).len() ==> (#[trigger] without(
                acks,
                ack_key(),
                id,
            )[i]).retries <= MAX_RETRIES,
{
    let after = without(acks, ack_key(), id);
    if has_key(acks, ack_key(), id) {
        let at = index_of(acks, ack_key(), id);
        assert forall|i: int| 0 <= i < after.len() implies (#[trigger] after[i]).retries
            <= MAX_RETRIES by {
            if i < at {
                assert(after[i] == acks[i]);
            } else {
                assert(after[i] == acks[i + 1]);
            }
        }
    }
}

/// A step after one that sends nothing and changes nothing is that step.
pub proof fn lemma_none_followed_by(node: NodeView, next: Effect)
    ensures
        Effect::none(node).followed_by(next) == next,
{
    assert(Seq::<OutgoingView>::empty() + next.sent =~= next.sent);
}

/// Every step keeps a node well formed.
pub proof fn lemma_steps_keep_wf(
    node: NodeView,
    datagram: Seq<u8>,
    sender: String,
    leader_address: String,
    now_ms: u64,
    now_secs: u64,
    ack_id: u32,
    ids: Seq<u32>,
)
    requires
        node.wf(),
    ensures
        node.start(leader_address, ack_id, now_ms).node.wf(),
        node.tick(now_ms, now_secs, ids).node.wf(),
        node.receive(datagram, sender, now_ms, now_secs, ack_id, ids).node.wf(),
{
    lemma_start_wf(node, leader_address, ack_id, now_ms);
    lemma_tick_wf(node, now_ms, now_secs, ids);
    lemma_receive_wf(node, datagram, sender, now_ms, now_secs, ack_id, ids);
}

/// Starting keeps a node well formed.
pub proof fn lemma_start_wf(node: NodeView, leader_address: String, probe_id: u32, now_ms: u64)
    requires
        node.wf(),
    ensures
        node.start(leader_address, probe_id, now_ms).node.wf(),
{
    let noted = NodeView { addresses: node.addresses.insert(LEADER_ID, leader_address), ..node };
    lemma_send_wf(
        noted,
        PacketView::with_id(
            probe_id,
            node.id,
            LEADER_ID,
            PacketType::Probe,
            ProbePayloadView { node_id: node.id, public_key: node.public_key }.encode(),
        ),
        now_ms,
    );
}

/// Sealing a block keeps a node well formed; it appends the block and
/// leaves the pool empty.
pub proof fn lemma_create_block_wf(node: NodeView, now_secs: u64, now_ms: u64, ids: Seq<u32>)
    requires
        node.wf(),
    ensures
        node.create_block(now_secs, now_ms, ids).node.wf(),
        node.create_block(now_secs, now_ms, ids).node.chain == node.chain.push(
            node.next_block(now_secs),
        ),
        node.create_block(now_secs, now_ms, ids).node.pool == Seq::<TransactionView>::empty(),
{
    let block = node.next_block(now_secs);
    let sealed = NodeView { pool: Seq::empty(), chain: node.chain.push(block), ..node };
    assert(block.wf());
    assert forall|k: int| 0 <= k < sealed.chain.len() implies (#[trigger] sealed.chain[k]).wf() by {
        if k < node.chain.len() {
            assert(sealed.chain[k] == node.chain[k]);
        }
    }
    lemma_broadcast_wf(
        sealed,
        peer_ids(node.peers),
        ids,
        PacketType::Block,
        block.encode(),
        now_ms,
    );
}

/// A tick keeps a node well formed.
pub proof fn lemma_tick_wf(node: NodeView, now_ms: u64, now_secs: u64, ids: Seq<u32>)
    requires
        node.wf(),
    ensures
        node.tick(now_ms, now_secs, ids).node.wf(),
{
    lemma_check_ack_timeouts_wf(node, now_ms);
    lemma_create_block_wf(node.check_ack_timeouts(now_ms).node, now_secs, now_ms, ids);
}

/// Every handler keeps a node well formed.
pub proof fn lemma_dispatch_wf(
    node: NodeView,
    kind: PacketType,
    packet: PacketView,
    now_ms: u64,
    now_secs: u64,
    ids: Seq<u32>,
)
    requires
        node.wf(),
    ensures
        node.dispatch(kind, packet, now_ms, now_secs, ids).node.wf(),
{
    match kind {
        PacketType::Ack => {
            lemma_handle_ack_wf(node, packet);
        },
        PacketType::Probe => {
            if let Some(probe) = ProbePayloadView::decode(packet.payload) {
                let peer = PeerKeyView { node_id: probe.node_id, public_key: probe.public_key };
                lemma_register_wf(node, peer);
                lemma_send_wf(
                    NodeView { peers: upsert(node.peers, peer_key(), peer), ..node },
                    PacketView::with_id(
                        ids[0],
                        node.id,
                        probe.node_id,
                        PacketType::Sync,
                        node.sync_payload().encode(),
                    ),
                    now_ms,
                );
            }
        },
        PacketType::Sync => {
            if let Some(sync) = SyncPayloadView::decode(packet.payload) {
                let peer = PeerKeyView { node_id: sync.node_id, public_key: sync.public_key };
                lemma_register_wf(node, peer);
                lemma_send_wf(
                    NodeView { peers: upsert(node.peers, peer_key(), peer), ..node },
                    PacketView::with_id(
                        ids[0],
                        node.id,
                        sync.node_id,
                        PacketType::GetChain,
                        Seq::empty(),
                    ),
                    now_ms,
                );
            }
        },
        PacketType::SetData => {
            if let Some(data) = DataPayloadView::decode(packet.payload) {
                let entry = stored(
                    node.cache,
                    data.name,
                    data.data,
                    data.data.len() as usize,
                    now_secs,
                );
                lemma_blobs_upsert(node.cache, entry);
                let stored = NodeView { cache: upsert(node.cache, name_key(), entry), ..node };
                let transaction = node.minted(packet.src, data.name, now_secs);
                lemma_decoded_name_fits(
                    packet.payload.subrange(0, NAME_WINDOW as int),
                );
                lemma_admit_wf(stored, transaction);
                lemma_broadcast_wf(
                    NodeView { pool: upsert(node.pool, pool_key(), transaction), ..stored },
                    peer_ids(node.peers),
                    ids,
                    PacketType::Transaction,
                    TransactionPayloadView {
                        transaction,
                        signature: ed25519_signature(node.pkcs8, transaction.encode())->0,
                    }.encode(),
                    now_ms,
                );
            }
        },
        PacketType::GetData => {
            if let Some(data) = DataPayloadView::decode(packet.payload) {
                if let Some(known) = lookup(node.cache, name_key(), data.name) {
                    lemma_blobs_upsert(node.cache, read(known, now_secs));
                }
            }
        },
        PacketType::Data => {},
        PacketType::GetChain => {
            lemma_send_wf(
                node,
                PacketView::with_id(
                    ids[0],
                    node.id,
                    packet.src,
                    PacketType::Chain,
                    encode_chain(node.chain),
                ),
                now_ms,
            );
        },
        PacketType::Chain => {
            lemma_decode_chain_wf(packet.payload);
        },
        PacketType::Transaction => {
            if let Some(payload) = TransactionPayloadView::decode(packet.payload) {
                lemma_decoded_transaction_payload_wf(packet.payload);
                lemma_admit_wf(node, payload.transaction);
            }
        },
        PacketType::Block => {
            if let Some(block) = BlockView::decode(packet.payload) {
                lemma_decoded_block_wf(packet.payload);
                let after = node.chain.push(block);
                assert forall|k: int| 0 <= k < after.len() implies (#[trigger] after[k]).wf() by {
                    if k < node.chain.len() {
                        assert(after[k] == node.chain[k]);
                    }
                }
            }
        },
    }
}

/// Taking an acknowledged frame off the list keeps a node well formed.
pub proof fn lemma_handle_ack_wf(node: NodeView, packet: PacketView)
    requires
        node.wf(),
    ensures
        node.handle_ack(packet).node.wf(),
{
    if let Some(ack) = AckPayload::decode(packet.payload) {
        lemma_without(node.pending_acks, ack_key(), ack.packet_id);
        lemma_without_keeps(node.pending_acks, ack.packet_id);
    }
}

/// Taking a datagram keeps a node well formed.
pub proof fn lemma_receive_wf(
    node: NodeView,
    datagram: Seq<u8>,
    sender: String,
    now_ms: u64,
    now_secs: u64,
    ack_id: u32,
    ids: Seq<u32>,
)
    requires
        node.wf(),
    ensures
        node.receive(datagram, sender, now_ms, now_secs, ack_id, ids).node.wf(),
{
    if let Some(packet) = PacketView::decode(datagram) {
        let noted = NodeView { addresses: node.addresses.insert(packet.src, sender), ..node };
        let ack = PacketView::with_id(
            ack_id,
            node.id,
            packet.src,
            PacketType::Ack,
            AckPayload { packet_id: packet.packet_id }.encode(),
        );
        lemma_send_wf(noted, ack, now_ms);
        lemma_handle_ack_wf(noted, packet);
        if let Some(kind) = PacketType::spec_from_tag(packet.packet_type) {
            lemma_dispatch_wf(noted.send(ack, now_ms).node, kind, packet, now_ms, now_secs, ids);
        }
    }
}

/// The pool never holds two transactions with the same hash.
pub proof fn lemma_pool_hashes_distinct(node: NodeView, i: int, j: int)
    requires
        node.wf(),
        0 <= i < node.pool.len(),
        0 <= j < node.pool.len(),
        i != j,
    ensures
        node.pool[i].hash != node.pool[j].hash,
{
    if i < j {
        assert((pool_key())(node.pool[i]) != (pool_key())(node.pool[j]));
    } else {
        assert((pool_key())(node.pool[j]) != (pool_key())(node.pool[i]));
    }
}

/// A frame is sent at most `MAX_RETRIES + 1` times. At the sweep a frame
/// that has expired and was sent again `MAX_RETRIES` times is given up: it
/// waits no longer and is not sent. One with retries left and a known
/// address waits on with one retry more, which is still no more than
/// `MAX_RETRIES`. An `Ack` that names the frame takes it off the list.
pub proof fn lemma_retry_ceiling(node: NodeView, now_ms: u64, i: int, ack: PacketView)
    requires
        node.wf(),
        0 <= i < node.pending_acks.len(),
    ensures
        node.pending_acks[i].retries <= MAX_RETRIES,
        expired(node.pending_acks[i], now_ms) ==> match lookup(
            node.check_ack_timeouts(now_ms).node.pending_acks,
            ack_key(),
            node.pending_acks[i].packet.packet_id,
        ) {
            Some(entry) => {
                &&& node.pending_acks[i].retries < MAX_RETRIES
                &&& entry.retries == node.pending_acks[i].retries + 1
                &&& entry.packet == node.pending_acks[i].packet
                &&& entry.sent_at == now_ms
            },
            None => node.pending_acks[i].retries == MAX_RETRIES || !node.addresses.contains_key(
                node.pending_acks[i].packet.dst,
            ),
        },
        AckPayload::decode(ack.payload) == Some(
            AckPayload { packet_id: node.pending_acks[i].packet.packet_id },
        ) ==> !has_key(
            node.handle_ack(ack).node.pending_acks,
            ack_key(),
            node.pending_acks[i].packet.packet_id,
        ),
{
    lemma_swept(node.pending_acks, node.addresses, now_ms);
    lemma_without(node.pending_acks, ack_key(), node.pending_acks[i].packet.packet_id);
}

/// Between two blocks that the leader seals, `BLOCK_PERIOD` seconds pass:
/// a tick adds at most one block to a chain that is not empty, and adds it
/// only if the last block is that old; the new block carries the time of
/// the tick.
pub proof fn lemma_block_cadence(node: NodeView, now_ms: u64, now_secs: u64, ids: Seq<u32>)
    requires
        node.wf(),
        node.chain.len() > 0,
    ensures
        ({
            let after = node.tick(now_ms, now_secs, ids).node.chain;
            if node.id == node.leader && now_secs >= node.chain.last().timestamp && now_secs
                - node.chain.last().timestamp >= BLOCK_PERIOD {
                &&& after == node.chain.push(node.next_block(now_secs))
                &&& after.last().timestamp - node.chain.last().timestamp >= BLOCK_PERIOD
            } else {
                after == node.chain
            }
        }),
{
    lemma_check_ack_timeouts_wf(node, now_ms);
    lemma_create_block_wf(node.check_ack_timeouts(now_ms).node, now_secs, now_ms, ids);
}

/// A datagram that is no frame, because it is shorter than a header or
/// does not open with the magic number, changes nothing and is not
/// answered.
pub proof fn lemma_malformed_is_dropped(
    node: NodeView,
    datagram: Seq<u8>,
    sender: String,
    now_ms: u64,
    now_secs: u64,
    ack_id: u32,
    ids: Seq<u32>,
)
    requires
        PacketView::decode(datagram) is None,
    ensures
        node.receive(datagram, sender, now_ms, now_secs, ack_id, ids) == Effect::none(node),
{
}

/// A frame that is sent waits for its acknowledgement: after a frame that
/// is no `Ack` went out to a known address, it is on the waiting list under
/// its packet id, with no retry yet.
pub proof fn lemma_sent_frame_waits(node: NodeView, packet: PacketView, now_ms: u64)
    requires
        node.wf(),
        node.addresses.contains_key(packet.dst),
        packet.packet_type != ack_tag(),
    ensures
        node.send(packet, now_ms).sent == seq![
            OutgoingView { address: node.addresses[packet.dst], packet },
        ],
        lookup(node.send(packet, now_ms).node.pending_acks, ack_key(), packet.packet_id) == Some(
            PendingAckView { retries: 0, sent_at: now_ms, packet },
        ),
{
    lemma_upsert(
        node.pending_acks,
        ack_key(),
        PendingAckView { retries: 0, sent_at: now_ms, packet },
    );
}

/// An `Ack` frame is never waited for: sending one leaves the waiting list
/// as it was.
pub proof fn lemma_ack_is_not_acked(node: NodeView, packet: PacketView, now_ms: u64)
    requires
        packet.packet_type == ack_tag(),
    ensures
        node.send(packet, now_ms).node == node,
{
}

/// Two nodes with the same pending transactions in the same order, on top
/// of the same root, seal blocks with the same Merkle root at the same
/// time.
pub proof fn lemma_nodes_agree_on_root(a: NodeView, b: NodeView, now_secs: u64)
    requires
        a.pool == b.pool,
        a.tip_root() == b.tip_root(),
    ensures
        a.next_block(now_secs).merkle_root == b.next_block(now_secs).merkle_root,
        a.next_block(now_secs) == b.next_block(now_secs),
{
}

/// A follower that is behind catches up: when it takes the `Chain` frame
/// with which a node answers a `GetChain`, it holds that node's chain,
/// block for block. This asks of each block that it can be read back from
/// a chain payload.
pub proof fn lemma_catch_up(
    leader: NodeView,
    follower: NodeView,
    request: PacketView,
    id: u32,
    now_ms: u64,
)
    requires
        forall|i: int| 0 <= i < leader.chain.len() ==> block_survives_chain(#[trigger] leader.chain[i]),
        leader.addresses.contains_key(request.src),
        follower.chain.len() < leader.chain.len(),
    ensures
        leader.handle_get_chain(request, id, now_ms).sent.len() == 1,
        follower.handle_chain(
            leader.handle_get_chain(request, id, now_ms).sent[0].packet,
        ).node.chain == leader.chain,
{
    lemma_chain_round_trip(leader.chain);
}

/// A `SetData` frame whose payload decodes leaves its blob in the cache
/// under its name.
pub proof fn lemma_set_data_is_stored(
    node: NodeView,
    packet: PacketView,
    now_secs: u64,
    now_ms: u64,
    ids: Seq<u32>,
)
    requires
        node.wf(),
        DataPayloadView::decode(packet.payload) is Some,
    ensures
        node.handle_set_data(packet, now_secs, now_ms, ids).node.blobs() == node.blobs().insert(
            DataPayloadView::decode(packet.payload)->0.name,
            DataPayloadView::decode(packet.payload)->0.data,
        ),
{
    let data = DataPayloadView::decode(packet.payload)->0;
    let entry = stored(node.cache, data.name, data.data, data.data.len() as usize, now_secs);
    lemma_blobs_upsert(node.cache, entry);
    let stored = NodeView { cache: upsert(node.cache, name_key(), entry), ..node };
    let transaction = node.minted(packet.src, data.name, now_secs);
    lemma_broadcast_frame(
        NodeView { pool: upsert(node.pool, pool_key(), transaction), ..stored },
        peer_ids(node.peers),
        ids,
        PacketType::Transaction,
        TransactionPayloadView {
            transaction,
            signature: ed25519_signature(node.pkcs8, transaction.encode())->0,
        }.encode(),
        now_ms,
    );
}

/// Broadcasting changes nothing but the list of waiting frames.
pub proof fn lemma_broadcast_frame(
    node: NodeView,
    peers: Seq<u16>,
    ids: Seq<u32>,
    kind: PacketType,
    payload: Seq<u8>,
    now_ms: u64,
)
    ensures
        node.broadcast(peers, ids, kind, payload, now_ms).node == (NodeView {
            pending_acks: node.broadcast(peers, ids, kind, payload, now_ms).node.pending_acks,
            ..node
        }),
    decreases peers.len(),
{
    if peers.len() > 0 {
        let first = node.send(PacketView::with_id(ids[0], node.id, peers[0], kind, payload), now_ms);
        lemma_broadcast_frame(
            first.node,
            peers.drop_first(),
            ids.drop_first(),
            kind,
            payload,
            now_ms,
        );
    }
}

/// An `Ack` is never answered: a datagram that is an `Ack` frame has the
/// node send nothing.
pub proof fn lemma_ack_is_not_answered(
    node: NodeView,
    datagram: Seq<u8>,
    sender: String,
    now_ms: u64,
    now_secs: u64,
    ack_id: u32,
    ids: Seq<u32>,
)
    requires
        PacketView::decode(datagram) matches Some(packet) && packet.packet_type == ack_tag(),
    ensures
        node.receive(datagram, sender, now_ms, now_secs, ack_id, ids).sent == Seq::<
            OutgoingView,
        >::empty(),
{
}

/// Every frame that is no `Ack` is acknowledged at once: the first frame
/// that the node sends goes to the sender's address and is an `Ack` that
/// carries the id of the frame that arrived.
pub proof fn lemma_frame_is_acked(
    node: NodeView,
    datagram: Seq<u8>,
    sender: String,
    now_ms: u64,
    now_secs: u64,
    ack_id: u32,
    ids: Seq<u32>,
)
    requires
        PacketView::decode(datagram) matches Some(packet) && packet.packet_type != ack_tag(),
    ensures
        node.receive(datagram, sender, now_ms, now_secs, ack_id, ids).sent.len() >= 1,
        node.receive(datagram, sender, now_ms, now_secs, ack_id, ids).sent[0] == (OutgoingView {
            address: sender,
            packet: PacketView::with_id(
                ack_id,
                node.id,
                PacketView::decode(datagram)->0.src,
                PacketType::Ack,
                AckPayload { packet_id: PacketView::decode(datagram)->0.packet_id }.encode(),
            ),
        }),
{
}

/// The address of a sender is learned from every frame: after a frame
/// from the node `src` arrived from `sender`, that is where `src` is to be
/// found.
pub proof fn lemma_address_is_learned(
    node: NodeView,
    datagram: Seq<u8>,
    sender: String,
    now_ms: u64,
    now_secs: u64,
    ack_id: u32,
    ids: Seq<u32>,
)
    requires
        PacketView::decode(datagram) is Some,
    ensures
        node.receive(datagram, sender, now_ms, now_secs, ack_id, ids).node.addresses
            == node.addresses.insert(PacketView::decode(datagram)->0.src, sender),
{
    let packet = PacketView::decode(datagram)->0;
    let noted = NodeView { addresses: node.addresses.insert(packet.src, sender), ..node };
    let acked = noted.reply_ack(packet, ack_id, now_ms).node;
    if let Some(kind) = PacketType::spec_from_tag(packet.packet_type) {
        lemma_dispatch_keeps_addresses(acked, kind, packet, now_ms, now_secs, ids);
    }
}

/// No handler changes where nodes are to be found.
pub proof fn lemma_dispatch_keeps_addresses(
    node: NodeView,
    kind: PacketType,
    packet: PacketView,
    now_ms: u64,
    now_secs: u64,
    ids: Seq<u32>,
)
    ensures
        node.dispatch(kind, packet, now_ms, now_secs, ids).node.addresses == node.addresses,
{
    if kind == PacketType::SetData {
        if let Some(data) = DataPayloadView::decode(packet.payload) {
            let entry = stored(node.cache, data.name, data.data, data.data.len() as usize, now_secs);
            let transaction = node.minted(packet.src, data.name, now_secs);
            lemma_broadcast_frame(
                NodeView {
                    pool: upsert(node.pool, pool_key(), transaction),
                    cache: upsert(node.cache, name_key(), entry),
                    ..node
                },
                peer_ids(node.peers),
                ids,
                PacketType::Transaction,
                TransactionPayloadView {
                    transaction,
                    signature: ed25519_signature(node.pkcs8, transaction.encode())->0,
                }.encode(),
                now_ms,
            );
        }
    }
}

} // verus!
