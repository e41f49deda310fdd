use atlas::block::{u64_to_be_bytes, Block};
use atlas::cache::CacheOperation;
use atlas::crypto::sha256_checked;
use atlas::protocol::{
    blocks_to_bytes, AckPayload, BlockPayload, ChainPayload, DataPayload, Packet, PacketType,
    PayloadError, ProbePayload, SyncPayload, TransactionPayload, MAGIC_NUMBER,
};
use atlas::transaction::{canonical_text, Transaction, TransactionError};

fn sample_transaction(name: &str, timestamp: u64) -> Transaction {
    Transaction::new(7, 9, name.to_string(), CacheOperation::Put, timestamp).unwrap()
}

#[test]
fn sha256_of_empty_input() {
    let h = sha256_checked(&[]).unwrap();
    assert_eq!(h[0], 0xe3);
    assert_eq!(h[1], 0xb0);
    assert_eq!(h[31], 0x55);
}

#[test]
fn sha256_of_abc() {
    let h = sha256_checked(b"abc").unwrap();
    assert_eq!(
        h.to_vec(),
        vec![
            0xba, 0x78, 0x16, 0xbf, 0x8f, 0x01, 0xcf, 0xea, 0x41, 0x41, 0x40, 0xde, 0x5d, 0xae,
            0x22, 0x23, 0xb0, 0x03, 0x61, 0xa3, 0x96, 0x17, 0x7a, 0x9c, 0xb4, 0x10, 0xff, 0x61,
            0xf2, 0x00, 0x15, 0xad
        ]
    );
}

#[test]
fn packet_encodes_little_endian_header() {
    let p = Packet::with_id(0x01020304, 0x0506, 0x0708, PacketType::Data, vec![0xAA, 0xBB]);
    let bytes = p.as_bytes();
    assert_eq!(
        bytes,
        vec![
            0x01, 0x50, 0x1A, 0xA7, 0x04, 0x03, 0x02, 0x01, 0x06, 0x05, 0x08, 0x07, 4, 0, 0, 0, 0,
            0, 0, 0, 0, 0xAA, 0xBB
        ]
    );
}

#[test]
fn packet_round_trips() {
    let p = Packet::with_id(77, 1, 2, PacketType::SetData, vec![1, 2, 3]);
    let q = Packet::from_bytes(&p.as_bytes()).unwrap();
    assert_eq!(q.magic_number, MAGIC_NUMBER);
    assert_eq!(q.packet_id, 77);
    assert_eq!(q.src, 1);
    assert_eq!(q.dst, 2);
    assert_eq!(q.packet_type, 2);
    assert_eq!(q.timestamp, 0);
    assert_eq!(q.payload, vec![1, 2, 3]);
}

#[test]
fn packet_new_fills_the_fields() {
    let p = Packet::new(3, 4, PacketType::Ack, vec![9]).unwrap();
    assert_eq!(p.magic_number, MAGIC_NUMBER);
    assert_eq!(p.src, 3);
    assert_eq!(p.dst, 4);
    assert_eq!(p.packet_type, 9);
    assert_eq!(p.timestamp, 0);
    assert_eq!(p.payload, vec![9]);
}

#[test]
fn packet_clone_keeps_every_field() {
    let p = Packet::with_id(5, 6, 7, PacketType::Chain, vec![8, 9]);
    let q = p.clone();
    assert_eq!(q.as_bytes(), p.as_bytes());
}

#[test]
fn decode_of_empty_input_is_none() {
    assert!(Packet::from_bytes(&[]).is_none());
}

#[test]
fn decode_of_twenty_bytes_is_none() {
    let mut bytes = Packet::with_id(1, 2, 3, PacketType::Probe, vec![]).as_bytes();
    assert_eq!(bytes.len(), 21);
    bytes.pop();
    assert!(Packet::from_bytes(&bytes).is_none());
}

#[test]
fn decode_of_header_alone_has_empty_payload() {
    let bytes = Packet::with_id(1, 2, 3, PacketType::Probe, vec![]).as_bytes();
    let p = Packet::from_bytes(&bytes).unwrap();
    assert!(p.payload.is_empty());
}

#[test]
fn decode_with_wrong_magic_is_none() {
    let mut bytes = Packet::with_id(1, 2, 3, PacketType::Probe, vec![1, 2, 3]).as_bytes();
    bytes[0] ^= 0xFF;
    assert!(Packet::from_bytes(&bytes).is_none());
}

#[test]
fn packet_type_tags_are_stable() {
    let kinds = [
        PacketType::Probe,
        PacketType::Sync,
        PacketType::SetData,
        PacketType::GetData,
        PacketType::Data,
        PacketType::GetChain,
        PacketType::Chain,
        PacketType::Block,
        PacketType::Transaction,
        PacketType::Ack,
    ];
    for (i, kind) in kinds.iter().enumerate() {
        assert_eq!(kind.tag() as usize, i);
        assert_eq!(PacketType::from_tag(i as u8), Some(*kind));
        assert_eq!(PacketType::from(i as u8), *kind);
    }
    assert_eq!(PacketType::from_tag(10), None);
    assert_eq!(PacketType::from_tag(255), None);
}

#[test]
fn cache_operation_tags_are_stable() {
    assert_eq!(CacheOperation::Put.tag(), 0);
    assert_eq!(CacheOperation::Get.tag(), 1);
    assert_eq!(CacheOperation::Delete.tag(), 2);
    assert_eq!(CacheOperation::from_tag(0), Some(CacheOperation::Put));
    assert_eq!(CacheOperation::from_tag(1), Some(CacheOperation::Get));
    assert_eq!(CacheOperation::from_tag(2), Some(CacheOperation::Delete));
    assert_eq!(CacheOperation::from_tag(3), None);
    assert_eq!(CacheOperation::from(2), CacheOperation::Delete);
}

#[test]
fn ack_payload_round_trips() {
    let a = AckPayload::new(0xDEADBEEF);
    assert_eq!(a.as_bytes(), vec![0xEF, 0xBE, 0xAD, 0xDE]);
    assert_eq!(AckPayload::from_bytes(&a.as_bytes()), Some(a));
    assert_eq!(AckPayload::from_bytes(&[1, 2, 3]), None);
}

#[test]
fn probe_payload_round_trips() {
    let mut key = [0u8; 32];
    for i in 0..32 {
        key[i] = i as u8;
    }
    let p = ProbePayload::new(0x0102, key);
    let bytes = p.as_bytes();
    assert_eq!(bytes.len(), 34);
    assert_eq!(bytes[0], 0x02);
    assert_eq!(bytes[1], 0x01);
    let q = ProbePayload::from_bytes(&bytes).unwrap();
    assert_eq!(q.node_id, 0x0102);
    assert_eq!(q.public_key, key);
    assert!(ProbePayload::from_bytes(&bytes[..33]).is_none());
}

#[test]
fn sync_payload_round_trips() {
    let s = SyncPayload::new(5, [1u8; 32], 3, [2u8; 32], 0x0102030405060708);
    let bytes = s.as_bytes();
    assert_eq!(bytes.len(), 78);
    assert_eq!(&bytes[34..38], &[3, 0, 0, 0]);
    assert_eq!(&bytes[70..78], &[8, 7, 6, 5, 4, 3, 2, 1]);
    let q = SyncPayload::from_bytes(&bytes).unwrap();
    assert_eq!(q.node_id, 5);
    assert_eq!(q.public_key, [1u8; 32]);
    assert_eq!(q.chain_height, 3);
    assert_eq!(q.last_block_hash, [2u8; 32]);
    assert_eq!(q.last_block_timestamp, 0x0102030405060708);
    assert!(SyncPayload::from_bytes(&bytes[..77]).is_none());
}

#[test]
fn data_payload_round_trips() {
    let d = DataPayload::new("/k/1".to_string(), b"hello".to_vec()).unwrap();
    let bytes = d.as_bytes();
    assert_eq!(bytes.len(), 69);
    assert_eq!(&bytes[..4], b"/k/1");
    assert!(bytes[4..64].iter().all(|b| *b == 0));
    assert_eq!(&bytes[64..], b"hello");
    let q = DataPayload::from_bytes(&bytes).unwrap();
    assert_eq!(q.name, "/k/1");
    assert_eq!(q.data, b"hello".to_vec());
}

#[test]
fn data_name_of_64_bytes_round_trips() {
    let name = "n".repeat(64);
    let d = DataPayload::new(name.clone(), vec![1]).unwrap();
    let bytes = d.as_bytes();
    assert_eq!(bytes.len(), 65);
    let q = DataPayload::from_bytes(&bytes).unwrap();
    assert_eq!(q.name, name);
    assert_eq!(q.data, vec![1]);
}

#[test]
fn data_name_of_65_bytes_is_rejected() {
    let name = "n".repeat(65);
    assert_eq!(DataPayload::new(name.clone(), vec![]).err(), Some(PayloadError::NameTooLong));
    assert_eq!(
        Transaction::new(1, 2, name, CacheOperation::Put, 3).err(),
        Some(TransactionError::NameTooLong)
    );
}

#[test]
fn data_name_is_counted_in_bytes() {
    // 22 characters of three bytes each: 66 bytes.
    let name = "\u{20AC}".repeat(22);
    assert_eq!(DataPayload::new(name, vec![]).err(), Some(PayloadError::NameTooLong));
    let name = "\u{20AC}".repeat(21);
    let d = DataPayload::new(name.clone(), vec![]).unwrap();
    assert_eq!(DataPayload::from_bytes(&d.as_bytes()).unwrap().name, name);
}

#[test]
fn data_payload_short_or_not_utf8_is_none() {
    assert!(DataPayload::from_bytes(&[0u8; 63]).is_none());
    let mut bytes = vec![0u8; 64];
    bytes[0] = 0xFF;
    assert!(DataPayload::from_bytes(&bytes).is_none());
    // Bytes after the first NUL are not looked at.
    let mut bytes = vec![0u8; 64];
    bytes[0] = b'a';
    bytes[2] = 0xFF;
    assert_eq!(DataPayload::from_bytes(&bytes).unwrap().name, "a");
}

#[test]
fn canonical_text_is_the_debug_format() {
    let text = canonical_text(7, 9, "/k/1", CacheOperation::Put, 1700000000);
    assert_eq!(text, b"7.9.\"/k/1\".Set.1700000000".to_vec());
    let text = canonical_text(0, 65535, "a\"b\n", CacheOperation::Delete, 0);
    assert_eq!(text, b"0.65535.\"a\\\"b\\n\".Delete.0".to_vec());
    let text = canonical_text(10, 100, "", CacheOperation::Get, u64::MAX);
    assert_eq!(text, b"10.100.\"\".Get.18446744073709551615".to_vec());
}

#[test]
fn transaction_hash_is_sha256_of_canonical_text() {
    let t = sample_transaction("/k/1", 1700000000);
    let expected = sha256_checked(b"7.9.\"/k/1\".Set.1700000000").unwrap();
    assert_eq!(t.hash, expected);
    assert!(t.hash_matches());
    let mut forged = t.clone();
    forged.timestamp += 1;
    assert!(!forged.hash_matches());
}

#[test]
fn transaction_layout_is_109_bytes() {
    let t = sample_transaction("/k/1", 0x0102030405060708);
    let bytes = t.as_bytes();
    assert_eq!(bytes.len(), 109);
    assert_eq!(&bytes[0..2], &[7, 0]);
    assert_eq!(&bytes[2..4], &[9, 0]);
    assert_eq!(&bytes[4..8], b"/k/1");
    assert!(bytes[8..68].iter().all(|b| *b == 0));
    assert_eq!(bytes[68], 0);
    assert_eq!(&bytes[69..77], &[8, 7, 6, 5, 4, 3, 2, 1]);
    assert_eq!(&bytes[77..109], &t.hash);
}

#[test]
fn transaction_round_trips() {
    let t = Transaction::new(1, 2, "/data/x".to_string(), CacheOperation::Delete, 99).unwrap();
    let q = Transaction::from_bytes(&t.as_bytes()).unwrap();
    assert_eq!(q.node_id, 1);
    assert_eq!(q.client_id, 2);
    assert_eq!(q.data_name, "/data/x");
    assert_eq!(q.operation, CacheOperation::Delete);
    assert_eq!(q.timestamp, 99);
    assert_eq!(q.hash, t.hash);
}

#[test]
fn transaction_name_with_nul_is_cut_at_the_nul() {
    let t = Transaction::new(1, 2, "a\0b".to_string(), CacheOperation::Get, 5).unwrap();
    let q = Transaction::from_bytes(&t.as_bytes()).unwrap();
    assert_eq!(q.data_name, "a");
}

#[test]
fn transaction_decode_rejects_bad_input() {
    let t = sample_transaction("x", 1);
    let bytes = t.as_bytes();
    assert!(Transaction::from_bytes(&bytes[..108]).is_none());
    let mut longer = bytes.clone();
    longer.push(0);
    assert!(Transaction::from_bytes(&longer).is_none());
    let mut bad_op = bytes.clone();
    bad_op[68] = 3;
    assert!(Transaction::from_bytes(&bad_op).is_none());
    let mut bad_name = bytes.clone();
    bad_name[4] = 0xC0;
    assert!(Transaction::from_bytes(&bad_name).is_none());
}

#[test]
fn transaction_payload_round_trips() {
    let t = sample_transaction("/k/1", 123);
    let p = TransactionPayload::new(t.clone(), [0x5A; 64]);
    let bytes = p.as_bytes();
    assert_eq!(bytes.len(), 173);
    let q = TransactionPayload::from_bytes(&bytes).unwrap();
    assert_eq!(q.transaction.as_bytes(), t.as_bytes());
    assert_eq!(q.signature, [0x5A; 64]);
    assert!(TransactionPayload::from_bytes(&bytes[..172]).is_none());
}

#[test]
fn big_endian_bytes() {
    assert_eq!(u64_to_be_bytes(0x0102030405060708), vec![1, 2, 3, 4, 5, 6, 7, 8]);
    assert_eq!(u64_to_be_bytes(1), vec![0, 0, 0, 0, 0, 0, 0, 1]);
}

#[test]
fn merkle_root_of_no_hashes() {
    let prev = [0u8; 32];
    let root = Block::calculate_merkle_root(&[], 0x0102, &prev);
    let mut data = vec![0u8; 32];
    data.extend_from_slice(&[0, 0, 0, 0, 0, 0, 1, 2]);
    assert_eq!(root, sha256_checked(&data).unwrap());
}

#[test]
fn merkle_root_of_one_hash_is_the_hash() {
    let h = [7u8; 32];
    assert_eq!(Block::calculate_merkle_root(&[h], 5, &[1u8; 32]), h);
}

#[test]
fn merkle_root_of_two_and_three_hashes() {
    let a = [1u8; 32];
    let b = [2u8; 32];
    let c = [3u8; 32];
    let pair = |l: &[u8; 32], r: &[u8; 32]| {
        let mut d = l.to_vec();
        d.extend_from_slice(r);
        sha256_checked(&d).unwrap()
    };
    assert_eq!(Block::calculate_merkle_root(&[a, b], 0, &[0u8; 32]), pair(&a, &b));
    let ab = pair(&a, &b);
    let cc = pair(&c, &c);
    assert_eq!(Block::calculate_merkle_root(&[a, b, c], 0, &[0u8; 32]), pair(&ab, &cc));
    assert_ne!(
        Block::calculate_merkle_root(&[a, b], 0, &[0u8; 32]),
        Block::calculate_merkle_root(&[b, a], 0, &[0u8; 32])
    );
}

#[test]
fn merkle_root_is_deterministic() {
    let hashes = vec![[1u8; 32], [2u8; 32], [3u8; 32], [4u8; 32], [5u8; 32]];
    let again = hashes.clone();
    assert_eq!(
        Block::calculate_merkle_root(&hashes, 9, &[8u8; 32]),
        Block::calculate_merkle_root(&again, 9, &[8u8; 32])
    );
}

#[test]
fn block_new_sets_the_merkle_root() {
    let t1 = sample_transaction("a", 1);
    let t2 = sample_transaction("b", 2);
    let hashes = vec![t1.hash, t2.hash];
    let block = Block::new(vec![t1, t2], [4u8; 32], 77);
    assert_eq!(block.prev_block_hash, [4u8; 32]);
    assert_eq!(block.timestamp, 77);
    assert_eq!(block.transactions.len(), 2);
    assert_eq!(block.merkle_root, Block::calculate_merkle_root(&hashes, 77, &[4u8; 32]));
}

#[test]
fn genesis_block_root() {
    let block = Block::new(vec![], [0u8; 32], 1700000000);
    let mut data = vec![0u8; 32];
    data.extend_from_slice(&1700000000u64.to_be_bytes());
    assert_eq!(block.merkle_root, sha256_checked(&data).unwrap());
    assert_eq!(block.prev_block_hash, [0u8; 32]);
}

#[test]
fn block_round_trips() {
    let block = Block::new(
        vec![sample_transaction("a", 1), sample_transaction("b", 2)],
        [4u8; 32],
        0x0102030405060708,
    );
    let bytes = block.as_bytes();
    assert_eq!(bytes.len(), 72 + 2 * 109);
    assert_eq!(&bytes[0..32], &block.merkle_root);
    assert_eq!(&bytes[32..64], &[4u8; 32]);
    assert_eq!(&bytes[64..72], &[8, 7, 6, 5, 4, 3, 2, 1]);
    let q = Block::from_bytes(&bytes).unwrap();
    assert_eq!(q.merkle_root, block.merkle_root);
    assert_eq!(q.prev_block_hash, block.prev_block_hash);
    assert_eq!(q.timestamp, block.timestamp);
    assert_eq!(q.transactions.len(), 2);
    assert_eq!(q.as_bytes(), bytes);
    let copy = block.clone();
    assert_eq!(copy.as_bytes(), bytes);
}

#[test]
fn block_decode_rejects_bad_input() {
    let block = Block::new(vec![sample_transaction("a", 1)], [0u8; 32], 1);
    let bytes = block.as_bytes();
    assert!(Block::from_bytes(&bytes[..71]).is_none());
    assert!(Block::from_bytes(&bytes[..bytes.len() - 1]).is_none());
    assert!(Block::from_bytes(&bytes[..72]).is_some());
    let mut bad = bytes.clone();
    bad[72 + 68] = 9;
    assert!(Block::from_bytes(&bad).is_none());
}

#[test]
fn block_payload_round_trips() {
    let block = Block::new(vec![sample_transaction("a", 1)], [3u8; 32], 10);
    let payload = BlockPayload::new(block.clone());
    let bytes = payload.as_bytes();
    assert_eq!(bytes, block.as_bytes());
    let q = BlockPayload::from_bytes(&bytes).unwrap();
    assert_eq!(q.block.as_bytes(), bytes);
    assert!(BlockPayload::from_bytes(&[0u8; 10]).is_none());
}

#[test]
fn chain_payload_round_trips() {
    let b0 = Block::new(vec![], [0u8; 32], 1);
    let b1 = Block::new(vec![sample_transaction("a", 1)], b0.merkle_root, 11);
    let b2 = Block::new(vec![], b1.merkle_root, 21);
    let payload = ChainPayload::new(vec![b0.clone(), b1.clone(), b2.clone()]);
    let bytes = payload.as_bytes();
    assert_eq!(bytes.len(), 3 * 2 + 72 + 181 + 72);
    assert_eq!(&bytes[0..2], &[72, 0]);
    let q = ChainPayload::from_bytes(&bytes);
    assert_eq!(q.chain.len(), 3);
    assert_eq!(q.chain[0].as_bytes(), b0.as_bytes());
    assert_eq!(q.chain[1].as_bytes(), b1.as_bytes());
    assert_eq!(q.chain[2].as_bytes(), b2.as_bytes());
}

#[test]
fn chain_payload_stops_at_truncated_record() {
    let b0 = Block::new(vec![], [0u8; 32], 1);
    let b1 = Block::new(vec![sample_transaction("a", 1)], b0.merkle_root, 11);
    let bytes = ChainPayload::new(vec![b0.clone(), b1]).as_bytes();
    let cut = &bytes[..bytes.len() - 1];
    let q = ChainPayload::from_bytes(cut);
    assert_eq!(q.chain.len(), 1);
    assert_eq!(q.chain[0].as_bytes(), b0.as_bytes());
    assert_eq!(ChainPayload::from_bytes(&[]).chain.len(), 0);
    assert_eq!(ChainPayload::from_bytes(&[72]).chain.len(), 0);
    assert_eq!(ChainPayload::from_bytes(&bytes[..75]).chain.len(), 1);
}

#[test]
fn chain_payload_stops_at_record_that_is_no_block() {
    let b0 = Block::new(vec![], [0u8; 32], 1);
    let mut bytes = ChainPayload::new(vec![b0.clone()]).as_bytes();
    bytes.extend_from_slice(&[3, 0, 1, 2, 3]);
    bytes.extend_from_slice(&ChainPayload::new(vec![b0]).as_bytes());
    assert_eq!(ChainPayload::from_bytes(&bytes).chain.len(), 1);
}

#[test]
fn blocks_are_written_as_a_chain_payload() {
    let b0 = Block::new(vec![], [0u8; 32], 1);
    let b1 = Block::new(vec![sample_transaction("a", 1)], b0.merkle_root, 11);
    let blocks = vec![b0, b1];
    let bytes = blocks_to_bytes(&blocks);
    assert_eq!(bytes, ChainPayload::new(blocks.clone()).as_bytes());
    assert_eq!(&bytes[74..76], &[181, 0]);
    assert!(blocks_to_bytes(&[]).is_empty());
    let copy = ChainPayload::new(blocks).clone();
    assert_eq!(copy.as_bytes(), bytes);
}

#[test]
fn payload_clones_keep_the_bytes() {
    let d = DataPayload::new("n".to_string(), vec![1, 2]).unwrap();
    assert_eq!(d.clone().as_bytes(), d.as_bytes());
    let t = TransactionPayload::new(sample_transaction("a", 1), [3u8; 64]);
    assert_eq!(t.clone().as_bytes(), t.as_bytes());
    let b = BlockPayload::new(Block::new(vec![sample_transaction("a", 1)], [0u8; 32], 1));
    assert_eq!(b.clone().as_bytes(), b.as_bytes());
}
