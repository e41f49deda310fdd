use atlas::block::BLOCK_PERIOD;
use atlas::cache::{Cache, CacheOperation};
use atlas::crypto::{sha256_checked, verify, KeyPair};
use atlas::model::LEADER_ID;
use atlas::node::{draw_ids, Node, Outgoing};
use atlas::protocol::{
    AckPayload, BlockPayload, ChainPayload, DataPayload, Packet, PacketType, ProbePayload,
    SyncPayload, TransactionPayload, ACK_TIMEOUT, MAX_RETRIES,
};
use atlas::transaction::Transaction;

const LEADER_ADDR: &str = "127.0.0.1:8080";
const FOLLOWER_ADDR: &str = "127.0.0.2:9000";
const CLIENT_ADDR: &str = "127.0.0.9:5000";

fn node(id: u16) -> Node {
    Node::new(id, KeyPair::generate().unwrap())
}

fn ids(from: u32, count: usize) -> Vec<u32> {
    (0..count as u32).map(|i| from + i).collect()
}

/// Hands every frame in `out` to `to`, as coming from `from_addr`, and
/// returns what `to` sends in answer.
fn deliver(out: &[Outgoing], to: &mut Node, from_addr: &str, now_ms: u64, seed: u32) -> Vec<Outgoing> {
    let mut answers = Vec::new();
    for (k, frame) in out.iter().enumerate() {
        let base = seed + 100 * k as u32;
        let n = to.ids_needed();
        let mut sent = to.receive(
            &frame.packet.as_bytes(),
            from_addr.to_string(),
            now_ms,
            now_ms / 1000,
            base,
            &ids(base + 1, n),
        );
        answers.append(&mut sent);
    }
    answers
}

fn kinds(out: &[Outgoing]) -> Vec<u8> {
    out.iter().map(|o| o.packet.packet_type).collect()
}

/// Leader and follower after the follower's probe was answered.
fn acquainted() -> (Node, Node) {
    let mut leader = node(0);
    let mut follower = node(1);
    let probe = follower.start(LEADER_ADDR.to_string(), 1, 0);
    let answers = deliver(&probe, &mut leader, FOLLOWER_ADDR, 0, 1000);
    let _ = deliver(&answers, &mut follower, LEADER_ADDR, 0, 2000);
    (leader, follower)
}

#[test]
fn new_node_holds_nothing() {
    let n = node(4);
    assert_eq!(n.id(), 4);
    assert_eq!(n.leader(), LEADER_ID);
    assert!(n.chain().is_empty());
    assert!(n.pending_transactions().is_empty());
    assert!(n.pending_acks().is_empty());
    assert!(n.peer_public_keys().is_empty());
    assert_eq!(n.address_of(0), None);
    assert_eq!(n.ids_needed(), 1);
}

#[test]
fn genesis_block_at_first_tick() {
    let mut leader = node(0);
    let out = leader.tick(0, 1_700_000_000, &vec![]);
    assert!(out.is_empty());
    assert_eq!(leader.chain().len(), 1);
    let block = &leader.chain()[0];
    assert_eq!(block.prev_block_hash, [0u8; 32]);
    assert_eq!(block.timestamp, 1_700_000_000);
    assert!(block.transactions.is_empty());
    let mut data = vec![0u8; 32];
    data.extend_from_slice(&1_700_000_000u64.to_be_bytes());
    assert_eq!(block.merkle_root, sha256_checked(&data).unwrap());
}

#[test]
fn follower_seals_no_block() {
    let mut follower = node(1);
    let out = follower.tick(0, 1_700_000_000, &vec![]);
    assert!(out.is_empty());
    assert!(follower.chain().is_empty());
    assert!(!follower.block_due(1_700_000_000));
}

#[test]
fn block_cadence_is_the_block_period() {
    let mut leader = node(0);
    assert!(leader.block_due(1000));
    leader.tick(0, 1000, &vec![]);
    assert_eq!(leader.chain().len(), 1);
    assert!(!leader.block_due(1000 + BLOCK_PERIOD - 1));
    leader.tick(9_000, 1000 + BLOCK_PERIOD - 1, &vec![]);
    assert_eq!(leader.chain().len(), 1);
    assert!(leader.block_due(1000 + BLOCK_PERIOD));
    leader.tick(10_000, 1000 + BLOCK_PERIOD, &vec![]);
    assert_eq!(leader.chain().len(), 2);
    assert_eq!(leader.chain()[1].prev_block_hash, leader.chain()[0].merkle_root);
    assert_eq!(leader.chain()[1].timestamp - leader.chain()[0].timestamp, BLOCK_PERIOD);
    // A clock that runs backwards seals nothing.
    leader.tick(11_000, 5, &vec![]);
    assert_eq!(leader.chain().len(), 2);
}

#[test]
fn start_sends_probe_to_the_leader() {
    let mut follower = node(1);
    let out = follower.start(LEADER_ADDR.to_string(), 42, 7);
    assert_eq!(out.len(), 1);
    assert_eq!(out[0].address, LEADER_ADDR);
    assert_eq!(out[0].packet.packet_id, 42);
    assert_eq!(out[0].packet.src, 1);
    assert_eq!(out[0].packet.dst, 0);
    assert_eq!(out[0].packet.packet_type, PacketType::Probe.tag());
    let probe = ProbePayload::from_bytes(&out[0].packet.payload).unwrap();
    assert_eq!(probe.node_id, 1);
    assert_eq!(probe.public_key, follower.public_key());
    assert_eq!(follower.address_of(0), Some(LEADER_ADDR.to_string()));
    assert_eq!(follower.pending_acks().len(), 1);
    assert_eq!(follower.pending_acks()[0].retries, 0);
    assert_eq!(follower.pending_acks()[0].sent_at, 7);
    assert_eq!(follower.pending_acks()[0].packet.packet_id, 42);
}

#[test]
fn leader_does_not_probe() {
    let mut leader = node(0);
    assert!(leader.start(LEADER_ADDR.to_string(), 42, 0).is_empty());
    assert!(leader.pending_acks().is_empty());
    assert_eq!(leader.address_of(0), None);
}

#[test]
fn probe_is_acked_and_answered_with_sync() {
    let mut leader = node(0);
    leader.tick(0, 1000, &vec![]);
    let mut follower = node(1);
    let probe = follower.start(LEADER_ADDR.to_string(), 1, 0);
    let out = leader.receive(
        &probe[0].packet.as_bytes(),
        FOLLOWER_ADDR.to_string(),
        5,
        1000,
        70,
        &vec![71],
    );
    assert_eq!(kinds(&out), vec![PacketType::Ack.tag(), PacketType::Sync.tag()]);
    assert_eq!(out[0].address, FOLLOWER_ADDR);
    assert_eq!(out[0].packet.packet_id, 70);
    assert_eq!(out[0].packet.dst, 1);
    assert_eq!(AckPayload::from_bytes(&out[0].packet.payload).unwrap().packet_id, 1);
    assert_eq!(out[1].packet.packet_id, 71);
    let sync = SyncPayload::from_bytes(&out[1].packet.payload).unwrap();
    assert_eq!(sync.node_id, 0);
    assert_eq!(sync.public_key, leader.public_key());
    assert_eq!(sync.chain_height, 1);
    assert_eq!(sync.last_block_hash, leader.chain()[0].merkle_root);
    assert_eq!(sync.last_block_timestamp, 1000);
    assert_eq!(leader.address_of(1), Some(FOLLOWER_ADDR.to_string()));
    assert_eq!(leader.peer_public_keys().len(), 1);
    assert_eq!(leader.peer_public_keys()[0].node_id, 1);
    assert_eq!(leader.peer_public_keys()[0].public_key, follower.public_key());
    // The Sync waits for its acknowledgement; the Ack does not.
    assert_eq!(leader.pending_acks().len(), 1);
    assert_eq!(leader.pending_acks()[0].packet.packet_id, 71);
}

#[test]
fn sync_of_empty_chain_is_all_zero() {
    let mut leader = node(0);
    let mut follower = node(1);
    let probe = follower.start(LEADER_ADDR.to_string(), 1, 0);
    let out = deliver(&probe, &mut leader, FOLLOWER_ADDR, 0, 10);
    let sync = SyncPayload::from_bytes(&out[1].packet.payload).unwrap();
    assert_eq!(sync.chain_height, 0);
    assert_eq!(sync.last_block_hash, [0u8; 32]);
    assert_eq!(sync.last_block_timestamp, 0);
    // The follower is not behind and asks for nothing.
    let answers = deliver(&out, &mut follower, LEADER_ADDR, 0, 20);
    assert_eq!(kinds(&answers), vec![PacketType::Ack.tag()]);
}

#[test]
fn ack_clears_the_pending_entry() {
    let mut follower = node(1);
    let probe = follower.start(LEADER_ADDR.to_string(), 77, 0);
    assert_eq!(follower.pending_acks().len(), 1);
    let other = Packet::with_id(5, 0, 1, PacketType::Ack, AckPayload::new(78).as_bytes());
    let out = follower.receive(&other.as_bytes(), LEADER_ADDR.to_string(), 1, 0, 9, &vec![10]);
    assert!(out.is_empty());
    assert_eq!(follower.pending_acks().len(), 1);
    let ack = Packet::with_id(
        6,
        0,
        1,
        PacketType::Ack,
        AckPayload::new(probe[0].packet.packet_id).as_bytes(),
    );
    let out = follower.receive(&ack.as_bytes(), LEADER_ADDR.to_string(), 1, 0, 9, &vec![10]);
    assert!(out.is_empty());
    assert!(follower.pending_acks().is_empty());
}

#[test]
fn follower_catches_up() {
    let mut leader = node(0);
    leader.tick(0, 1000, &vec![]);
    leader.tick(10_000, 1010, &vec![]);
    leader.tick(20_000, 1020, &vec![]);
    assert_eq!(leader.chain().len(), 3);

    let mut follower = node(1);
    let probe = follower.start(LEADER_ADDR.to_string(), 1, 20_000);
    let from_leader = deliver(&probe, &mut leader, FOLLOWER_ADDR, 20_001, 100);
    assert_eq!(kinds(&from_leader), vec![PacketType::Ack.tag(), PacketType::Sync.tag()]);
    let sync = SyncPayload::from_bytes(&from_leader[1].packet.payload).unwrap();
    assert_eq!(sync.chain_height, 3);

    let from_follower = deliver(&from_leader, &mut follower, LEADER_ADDR, 20_002, 200);
    assert_eq!(kinds(&from_follower), vec![PacketType::Ack.tag(), PacketType::GetChain.tag()]);
    assert!(from_follower[1].packet.payload.is_empty());

    let from_leader = deliver(&from_follower, &mut leader, FOLLOWER_ADDR, 20_003, 300);
    assert_eq!(kinds(&from_leader), vec![PacketType::Ack.tag(), PacketType::Chain.tag()]);

    let last = deliver(&from_leader, &mut follower, LEADER_ADDR, 20_004, 400);
    assert_eq!(kinds(&last), vec![PacketType::Ack.tag()]);
    assert_eq!(follower.chain().len(), 3);
    for i in 0..3 {
        assert_eq!(follower.chain()[i].as_bytes(), leader.chain()[i].as_bytes());
    }
    let _ = deliver(&last, &mut leader, FOLLOWER_ADDR, 20_005, 500);
    assert!(leader.pending_acks().is_empty());
    assert!(follower.pending_acks().is_empty());
}

#[test]
fn chain_that_is_not_longer_is_not_adopted() {
    let mut leader = node(0);
    leader.tick(0, 1000, &vec![]);
    leader.tick(10_000, 1010, &vec![]);
    let before: Vec<Vec<u8>> = leader.chain().iter().map(|b| b.as_bytes()).collect();
    let other = atlas::block::Block::new(vec![], [9u8; 32], 5);
    let same_length = ChainPayload::new(vec![other.clone(), other.clone()]).as_bytes();
    let packet = Packet::with_id(1, 3, 0, PacketType::Chain, same_length);
    leader.receive(&packet.as_bytes(), FOLLOWER_ADDR.to_string(), 0, 0, 2, &vec![3]);
    let after: Vec<Vec<u8>> = leader.chain().iter().map(|b| b.as_bytes()).collect();
    assert_eq!(before, after);
    let longer = ChainPayload::new(vec![other.clone(), other.clone(), other.clone()]).as_bytes();
    let packet = Packet::with_id(4, 3, 0, PacketType::Chain, longer);
    leader.receive(&packet.as_bytes(), FOLLOWER_ADDR.to_string(), 0, 0, 5, &vec![6]);
    assert_eq!(leader.chain().len(), 3);
    assert_eq!(leader.chain()[0].as_bytes(), other.as_bytes());
}

#[test]
fn block_frame_is_appended() {
    let mut follower = node(1);
    let block = atlas::block::Block::new(vec![], [0u8; 32], 5);
    let packet = Packet::with_id(1, 0, 1, PacketType::Block, BlockPayload::new(block.clone()).as_bytes());
    let out = follower.receive(&packet.as_bytes(), LEADER_ADDR.to_string(), 0, 0, 2, &vec![3]);
    assert_eq!(kinds(&out), vec![PacketType::Ack.tag()]);
    assert_eq!(follower.chain().len(), 1);
    assert_eq!(follower.chain()[0].as_bytes(), block.as_bytes());
    // A payload that is no block changes nothing, but the frame is acked.
    let bad = Packet::with_id(4, 0, 1, PacketType::Block, vec![1, 2, 3]);
    let out = follower.receive(&bad.as_bytes(), LEADER_ADDR.to_string(), 0, 0, 5, &vec![6]);
    assert_eq!(kinds(&out), vec![PacketType::Ack.tag()]);
    assert_eq!(follower.chain().len(), 1);
}

#[test]
fn set_data_is_stored_recorded_and_sealed() {
    let mut leader = node(0);
    leader.tick(0, 1000, &vec![]);
    let payload = DataPayload::new("/k/1".to_string(), b"hello".to_vec()).unwrap().as_bytes();
    let request = Packet::with_id(500, 2, 0, PacketType::SetData, payload);
    let out = leader.receive(&request.as_bytes(), CLIENT_ADDR.to_string(), 100, 1001, 600, &vec![601]);
    // The client is acked; no peer is known, so nothing is gossiped.
    assert_eq!(kinds(&out), vec![PacketType::Ack.tag()]);
    assert_eq!(out[0].address, CLIENT_ADDR);
    assert_eq!(out[0].packet.dst, 2);
    assert_eq!(AckPayload::from_bytes(&out[0].packet.payload).unwrap().packet_id, 500);
    assert_eq!(leader.cache().peek("/k/1"), Some(b"hello".to_vec()));
    assert_eq!(leader.pending_transactions().len(), 1);
    let t = &leader.pending_transactions()[0];
    assert_eq!(t.node_id, 0);
    assert_eq!(t.client_id, 2);
    assert_eq!(t.data_name, "/k/1");
    assert_eq!(t.operation, CacheOperation::Put);
    assert_eq!(t.timestamp, 1001);
    assert!(t.hash_matches());
    let hash = t.hash;
    leader.tick(10_000, 1010, &vec![]);
    assert!(leader.pending_transactions().is_empty());
    assert_eq!(leader.chain().len(), 2);
    let sealed = &leader.chain()[1];
    assert_eq!(sealed.transactions.len(), 1);
    assert_eq!(sealed.transactions[0].hash, hash);
    assert_eq!(sealed.merkle_root, hash);
}

#[test]
fn same_set_data_in_the_same_second_is_pending_once() {
    let mut leader = node(0);
    let payload = DataPayload::new("/k/1".to_string(), b"a".to_vec()).unwrap().as_bytes();
    for id in [500u32, 501, 502] {
        let request = Packet::with_id(id, 2, 0, PacketType::SetData, payload.clone());
        leader.receive(&request.as_bytes(), CLIENT_ADDR.to_string(), 100, 1001, 600, &vec![601]);
    }
    assert_eq!(leader.pending_transactions().len(), 1);
    let request = Packet::with_id(503, 2, 0, PacketType::SetData, payload.clone());
    leader.receive(&request.as_bytes(), CLIENT_ADDR.to_string(), 100, 1002, 600, &vec![601]);
    assert_eq!(leader.pending_transactions().len(), 2);
    assert_ne!(leader.pending_transactions()[0].hash, leader.pending_transactions()[1].hash);
}

#[test]
fn get_data_is_acked_and_changes_nothing() {
    let mut leader = node(0);
    let payload = DataPayload::new("/k/1".to_string(), vec![]).unwrap().as_bytes();
    let request = Packet::with_id(500, 2, 0, PacketType::GetData, payload);
    let out = leader.receive(&request.as_bytes(), CLIENT_ADDR.to_string(), 100, 1001, 600, &vec![601]);
    assert_eq!(kinds(&out), vec![PacketType::Ack.tag()]);
    assert!(leader.pending_transactions().is_empty());
    assert_eq!(leader.cache().len(), 0);
}

#[test]
fn short_payloads_are_acked_and_dropped() {
    let mut leader = node(0);
    for kind in [
        PacketType::Probe,
        PacketType::Sync,
        PacketType::SetData,
        PacketType::GetData,
        PacketType::Transaction,
        PacketType::Block,
        PacketType::Chain,
        PacketType::Data,
    ] {
        let packet = Packet::with_id(1, 3, 0, kind, vec![1, 2, 3]);
        let out = leader.receive(&packet.as_bytes(), CLIENT_ADDR.to_string(), 0, 0, 2, &vec![3]);
        assert_eq!(kinds(&out), vec![PacketType::Ack.tag()]);
    }
    let ack = Packet::with_id(1, 3, 0, PacketType::Ack, vec![1]);
    assert!(leader.receive(&ack.as_bytes(), CLIENT_ADDR.to_string(), 0, 0, 2, &vec![3]).is_empty());
    assert!(leader.chain().is_empty());
    assert!(leader.pending_transactions().is_empty());
    assert!(leader.peer_public_keys().is_empty());
    assert!(leader.pending_acks().is_empty());
    assert_eq!(leader.cache().len(), 0);
}

#[test]
fn frame_of_unknown_kind_is_acked_only() {
    let mut leader = node(0);
    let mut bytes = Packet::with_id(1, 3, 0, PacketType::Data, vec![]).as_bytes();
    bytes[12] = 200;
    let out = leader.receive(&bytes, CLIENT_ADDR.to_string(), 0, 0, 2, &vec![3]);
    assert_eq!(kinds(&out), vec![PacketType::Ack.tag()]);
    assert_eq!(leader.address_of(3), Some(CLIENT_ADDR.to_string()));
}

#[test]
fn malformed_frame_is_dropped() {
    let mut follower = node(1);
    follower.start(LEADER_ADDR.to_string(), 1, 0);
    let mut bytes = Packet::with_id(1, 3, 1, PacketType::Probe, vec![0u8; 34]).as_bytes();
    bytes[3] ^= 0x01;
    let out = follower.receive(&bytes, CLIENT_ADDR.to_string(), 0, 0, 2, &vec![3]);
    assert!(out.is_empty());
    assert_eq!(follower.address_of(3), None);
    assert!(follower.peer_public_keys().is_empty());
    assert_eq!(follower.pending_acks().len(), 1);
    assert!(follower.receive(&[], CLIENT_ADDR.to_string(), 0, 0, 2, &vec![3]).is_empty());
    assert!(follower.receive(&bytes[..20], CLIENT_ADDR.to_string(), 0, 0, 2, &vec![3]).is_empty());
    assert_eq!(follower.address_of(3), None);
}

#[test]
fn transaction_gossip_is_verified_and_admitted() {
    let (mut leader, mut follower) = acquainted();
    assert_eq!(leader.peer_public_keys().len(), 1);
    assert_eq!(follower.peer_public_keys().len(), 1);
    let payload = DataPayload::new("/k/1".to_string(), b"hello".to_vec()).unwrap().as_bytes();
    let request = Packet::with_id(500, 2, 0, PacketType::SetData, payload);
    let out = leader.receive(&request.as_bytes(), CLIENT_ADDR.to_string(), 100, 1001, 600, &vec![601]);
    assert_eq!(kinds(&out), vec![PacketType::Ack.tag(), PacketType::Transaction.tag()]);
    let gossip = &out[1];
    assert_eq!(gossip.address, FOLLOWER_ADDR);
    assert_eq!(gossip.packet.dst, 1);
    assert_eq!(gossip.packet.packet_id, 601);
    let carried = TransactionPayload::from_bytes(&gossip.packet.payload).unwrap();
    assert!(verify(&carried.transaction.as_bytes(), &carried.signature, &leader.public_key()));
    assert!(!verify(&carried.transaction.as_bytes(), &carried.signature, &follower.public_key()));

    let answers = follower.receive(
        &gossip.packet.as_bytes(),
        LEADER_ADDR.to_string(),
        101,
        1001,
        700,
        &vec![701],
    );
    assert_eq!(kinds(&answers), vec![PacketType::Ack.tag()]);
    assert_eq!(follower.pending_transactions().len(), 1);
    assert_eq!(follower.pending_transactions()[0].hash, leader.pending_transactions()[0].hash);
    assert_eq!(follower.pending_transactions()[0].data_name, "/k/1");
}

#[test]
fn transaction_with_flipped_signature_is_rejected() {
    let (mut leader, mut follower) = acquainted();
    let payload = DataPayload::new("/k/1".to_string(), b"hello".to_vec()).unwrap().as_bytes();
    let request = Packet::with_id(500, 2, 0, PacketType::SetData, payload);
    let out = leader.receive(&request.as_bytes(), CLIENT_ADDR.to_string(), 100, 1001, 600, &vec![601]);
    let mut forged = out[1].packet.clone();
    for b in forged.payload[109..].iter_mut() {
        *b = !*b;
    }
    let answers = follower.receive(&forged.as_bytes(), LEADER_ADDR.to_string(), 101, 1001, 700, &vec![701]);
    assert_eq!(kinds(&answers), vec![PacketType::Ack.tag()]);
    assert!(follower.pending_transactions().is_empty());
}

#[test]
fn transaction_from_unknown_sender_is_rejected() {
    let (mut leader, _) = acquainted();
    let mut stranger = node(5);
    let payload = DataPayload::new("/k/1".to_string(), b"hello".to_vec()).unwrap().as_bytes();
    let request = Packet::with_id(500, 2, 0, PacketType::SetData, payload);
    let out = leader.receive(&request.as_bytes(), CLIENT_ADDR.to_string(), 100, 1001, 600, &vec![601]);
    stranger.receive(&out[1].packet.as_bytes(), LEADER_ADDR.to_string(), 101, 1001, 700, &vec![701]);
    assert!(stranger.pending_transactions().is_empty());
}

#[test]
fn transaction_with_wrong_hash_is_rejected() {
    let (leader, mut follower) = acquainted();
    let _ = leader;
    // Signed by a key that the follower knows for node 7, but the hash is
    // not that of the fields.
    let key = KeyPair::generate().unwrap();
    let probe = Packet::with_id(1, 7, 1, PacketType::Probe, ProbePayload::new(7, key.public_key()).as_bytes());
    follower.receive(&probe.as_bytes(), CLIENT_ADDR.to_string(), 0, 0, 2, &vec![3]);
    let mut t = Transaction::new(7, 2, "/k/1".to_string(), CacheOperation::Put, 50).unwrap();
    t.timestamp = 51;
    let signature = key.sign(&t.as_bytes());
    let gossip = Packet::with_id(4, 7, 1, PacketType::Transaction, TransactionPayload::new(t.clone(), signature).as_bytes());
    follower.receive(&gossip.as_bytes(), CLIENT_ADDR.to_string(), 0, 0, 5, &vec![6]);
    assert!(follower.pending_transactions().is_empty());
    // With the right hash it is admitted.
    let t = Transaction::new(7, 2, "/k/1".to_string(), CacheOperation::Put, 51).unwrap();
    let signature = key.sign(&t.as_bytes());
    let gossip = Packet::with_id(7, 7, 1, PacketType::Transaction, TransactionPayload::new(t, signature).as_bytes());
    follower.receive(&gossip.as_bytes(), CLIENT_ADDR.to_string(), 0, 0, 8, &vec![9]);
    assert_eq!(follower.pending_transactions().len(), 1);
}

#[test]
fn block_is_broadcast_to_known_peers() {
    let (mut leader, mut follower) = acquainted();
    let out = leader.tick(1, 1000, &vec![900]);
    assert_eq!(kinds(&out), vec![PacketType::Block.tag()]);
    assert_eq!(out[0].address, FOLLOWER_ADDR);
    assert_eq!(out[0].packet.packet_id, 900);
    let _ = deliver(&out, &mut follower, LEADER_ADDR, 2, 3000);
    assert_eq!(follower.chain().len(), 1);
    assert_eq!(follower.chain()[0].as_bytes(), leader.chain()[0].as_bytes());
}

#[test]
fn unanswered_frame_is_sent_four_times() {
    let mut follower = node(1);
    let first = follower.start(LEADER_ADDR.to_string(), 42, 0);
    let mut transmissions = first.len();
    assert_eq!(transmissions, 1);
    // Not yet expired.
    assert!(follower.tick(ACK_TIMEOUT - 1, 0, &vec![]).is_empty());
    for attempt in 1..=MAX_RETRIES as u64 {
        let now = attempt * ACK_TIMEOUT;
        let out = follower.tick(now, 0, &vec![]);
        assert_eq!(out.len(), 1);
        assert_eq!(out[0].address, LEADER_ADDR);
        assert_eq!(out[0].packet.as_bytes(), first[0].packet.as_bytes());
        assert_eq!(follower.pending_acks().len(), 1);
        assert_eq!(follower.pending_acks()[0].retries as u64, attempt);
        assert_eq!(follower.pending_acks()[0].sent_at, now);
        // A second sweep at the same time sends nothing.
        assert!(follower.tick(now, 0, &vec![]).is_empty());
        transmissions += out.len();
    }
    let out = follower.tick((MAX_RETRIES as u64 + 1) * ACK_TIMEOUT, 0, &vec![]);
    assert!(out.is_empty());
    assert!(follower.pending_acks().is_empty());
    assert_eq!(transmissions, 4);
    assert!(follower.tick(10 * ACK_TIMEOUT, 0, &vec![]).is_empty());
}

#[test]
fn frame_to_unknown_address_is_not_sent() {
    let mut leader = node(0);
    // A probe that names node 9 in its payload but comes from node 3: the
    // Sync is meant for node 9, whose address is not known.
    let key = KeyPair::generate().unwrap();
    let probe = Packet::with_id(1, 3, 0, PacketType::Probe, ProbePayload::new(9, key.public_key()).as_bytes());
    let out = leader.receive(&probe.as_bytes(), CLIENT_ADDR.to_string(), 0, 0, 2, &vec![3]);
    assert_eq!(kinds(&out), vec![PacketType::Ack.tag()]);
    assert!(leader.pending_acks().is_empty());
    assert_eq!(leader.peer_public_keys()[0].node_id, 9);
}

#[test]
fn peer_that_probes_again_replaces_its_key() {
    let mut leader = node(0);
    let k1 = KeyPair::generate().unwrap();
    let k2 = KeyPair::generate().unwrap();
    for (id, key) in [(1u32, &k1), (2u32, &k2)] {
        let probe = Packet::with_id(id, 3, 0, PacketType::Probe, ProbePayload::new(3, key.public_key()).as_bytes());
        leader.receive(&probe.as_bytes(), CLIENT_ADDR.to_string(), 0, 0, 10 + id, &vec![20 + id]);
    }
    assert_eq!(leader.peer_public_keys().len(), 1);
    assert_eq!(leader.peer_public_keys()[0].public_key, k2.public_key());
}

#[test]
fn drawn_ids_have_the_length_asked_for() {
    assert_eq!(draw_ids(0).unwrap().len(), 0);
    assert_eq!(draw_ids(5).unwrap().len(), 5);
}

#[test]
fn sign_and_verify() {
    let key = KeyPair::generate().unwrap();
    let other = KeyPair::generate().unwrap();
    let signature = key.sign(b"message");
    assert!(verify(b"message", &signature, &key.public_key()));
    assert!(!verify(b"massage", &signature, &key.public_key()));
    assert!(!verify(b"message", &signature, &other.public_key()));
    let mut flipped = signature;
    flipped[0] ^= 1;
    assert!(!verify(b"message", &flipped, &key.public_key()));
    assert!(!verify(b"message", &signature[..63], &key.public_key()));
    // Signing is a function of key and message.
    assert_eq!(key.sign(b"message"), signature);
    assert!(KeyPair::from_pkcs8(vec![1, 2, 3]).is_none());
}

#[test]
fn cache_upsert_get_delete() {
    let mut cache = atlas::cache::InMemoryCache::new();
    assert_eq!(cache.get("a", 1), None);
    cache.set("a", b"one", 10);
    cache.set("b", b"two", 11);
    cache.set("a", b"three", 12);
    assert_eq!(cache.len(), 2);
    assert_eq!(cache.get("a", 13), Some(b"three".to_vec()));
    assert_eq!(cache.peek("b"), Some(b"two".to_vec()));
    let meta = cache.metadata();
    assert_eq!(meta.len(), 2);
    assert_eq!(meta[0].name, "a");
    assert_eq!(meta[0].size, 5);
    assert_eq!(meta[0].last_updated, 12);
    assert_eq!(meta[0].last_accessed, 13);
    assert_eq!(meta[0].transactions, 3);
    assert_eq!(meta[1].name, "b");
    assert_eq!(meta[1].size, 3);
    assert_eq!(meta[1].last_updated, 11);
    assert_eq!(meta[1].last_accessed, 0);
    assert_eq!(meta[1].transactions, 1);
    cache.delete("a");
    assert_eq!(cache.get("a", 14), None);
    assert_eq!(cache.len(), 1);
    cache.delete("zzz");
    assert_eq!(cache.len(), 1);
}

#[test]
fn steps_with_drawn_ids() {
    let mut leader = node(0);
    let mut follower = node(1);
    assert!(leader.on_start(LEADER_ADDR.to_string(), 0).unwrap().is_empty());
    let probe = follower.on_start(LEADER_ADDR.to_string(), 0).unwrap();
    assert_eq!(kinds(&probe), vec![PacketType::Probe.tag()]);
    let out = leader.on_tick(0, 1000).unwrap();
    assert!(out.is_empty());
    assert_eq!(leader.chain().len(), 1);
    let answers = leader
        .on_datagram(&probe[0].packet.as_bytes(), FOLLOWER_ADDR.to_string(), 1, 1000)
        .unwrap();
    assert_eq!(kinds(&answers), vec![PacketType::Ack.tag(), PacketType::Sync.tag()]);
    assert_eq!(
        AckPayload::from_bytes(&answers[0].packet.payload).unwrap().packet_id,
        probe[0].packet.packet_id
    );
    let mut asked = Vec::new();
    for frame in &answers {
        let mut sent = follower
            .on_datagram(&frame.packet.as_bytes(), LEADER_ADDR.to_string(), 2, 1000)
            .unwrap();
        asked.append(&mut sent);
    }
    assert_eq!(kinds(&asked), vec![PacketType::Ack.tag(), PacketType::GetChain.tag()]);
    assert!(follower.on_datagram(&[1, 2, 3], LEADER_ADDR.to_string(), 3, 1000).unwrap().is_empty());
    // The block of the next period goes to the follower.
    let out = leader.on_tick(10_000, 1010).unwrap();
    assert_eq!(out.iter().filter(|o| o.packet.packet_type == PacketType::Block.tag()).count(), 1);
}

#[test]
fn steps_that_send_nothing_new_need_no_ids() {
    let (mut leader, mut follower) = acquainted();
    assert_eq!(leader.peer_public_keys().len(), 1);
    // The genesis block goes to the follower and takes one id.
    let out = leader.tick(1, 1000, &vec![900]);
    assert_eq!(out.len(), 1);
    // No block is due: the sweep alone takes no id, though a peer is known.
    let waiting: Vec<u32> = leader.pending_acks().iter().map(|a| a.packet.packet_id).collect();
    let resent = leader.tick(ACK_TIMEOUT + 1, 1001, &vec![]);
    assert_eq!(leader.chain().len(), 1);
    // What goes out are the frames that waited, under the ids they had.
    assert!(!resent.is_empty());
    assert!(resent.iter().all(|o| waiting.contains(&o.packet.packet_id)));
    // A follower never seals, and its tick takes no id.
    assert!(follower.tick(2, 5000, &vec![]).is_empty());
    assert!(follower.on_tick(3, 5000).unwrap().is_empty());
    // An Ack and a datagram that is no frame are answered by nothing.
    let ack = Packet::with_id(6, 0, 1, PacketType::Ack, AckPayload::new(12345).as_bytes());
    assert!(follower.receive(&ack.as_bytes(), LEADER_ADDR.to_string(), 4, 0, 0, &vec![]).is_empty());
    assert!(follower.receive(&[9, 9, 9], LEADER_ADDR.to_string(), 4, 0, 0, &vec![]).is_empty());
    assert!(follower.on_datagram(&ack.as_bytes(), LEADER_ADDR.to_string(), 4, 0).unwrap().is_empty());
    // Frames that are only acknowledged take the id of the Ack alone.
    let block = atlas::block::Block::new(vec![], [0u8; 32], 5);
    let frame = Packet::with_id(7, 0, 1, PacketType::Block, BlockPayload::new(block).as_bytes());
    let out = follower.receive(&frame.as_bytes(), LEADER_ADDR.to_string(), 5, 0, 77, &vec![]);
    assert_eq!(kinds(&out), vec![PacketType::Ack.tag()]);
    assert_eq!(out[0].packet.packet_id, 77);
}
