//! Blocks: a Merkle root over an ordered run of transactions, chained to
//! the block before by that block's root.

use vstd::prelude::*;
use vstd::bytes::*;
use vstd::slice::*;
use crate::crypto::{sha256, sha256_digest};
use crate::transaction::{
    lemma_encode_len, lemma_transaction_round_trip, Transaction, TransactionView, TRANSACTION_LEN,
};
use crate::wire::{get_array32, get_u64, name_survives_window, put_bytes, put_u64};

verus! {

/// Seconds between two blocks of the leader.
pub const BLOCK_PERIOD: u64 = 10;

/// Length of what stands before a block's transactions: two roots and the
/// timestamp.
pub const BLOCK_HEADER_LEN: usize = 72;

/// A sealed run of transactions.
#[derive(Debug)]
pub struct Block {
    pub merkle_root: [u8; 32],
    pub prev_block_hash: [u8; 32],
    pub timestamp: u64,
    pub transactions: Vec<Transaction>,
}

/// What a block holds.
pub struct BlockView {
    pub merkle_root: Seq<u8>,
    pub prev_block_hash: Seq<u8>,
    pub timestamp: u64,
    pub transactions: Seq<TransactionView>,
}

/// The views of a run of transactions.
pub open spec fn transaction_views(transactions: Seq<Transaction>) -> Seq<TransactionView> {
    Seq::new(transactions.len(), |i: int| transactions[i]@)
}

impl View for Block {
    type V = BlockView;

    open spec fn view(&self) -> BlockView {
        BlockView {
            merkle_root: self.merkle_root@,
            prev_block_hash: self.prev_block_hash@,
            timestamp: self.timestamp,
            transactions: transaction_views(self.transactions@),
        }
    }
}

/// The eight bytes of `x`, most significant first.
pub open spec fn be_u64(x: u64) -> Seq<u8> {
    spec_u64_to_le_bytes(x).reverse()
}

/// The level above `hashes` in the tree: the hash of each pair of
/// neighbours, the last one paired with itself where the count is odd.
pub open spec fn merkle_level(hashes: Seq<Seq<u8>>) -> Seq<Seq<u8>> {
    Seq::new(
        ((hashes.len() + 1) / 2) as nat,
        |i: int|
            sha256(
                hashes[2 * i] + if 2 * i + 1 < hashes.len() {
                    hashes[2 * i + 1]
                } else {
                    hashes[2 * i]
                },
            ),
    )
}

/// The Merkle root over `hashes`. With no hashes it is the digest of the
/// previous root followed by the big-endian timestamp; a single hash is its
/// own root.
pub open spec fn merkle_root(hashes: Seq<Seq<u8>>, timestamp: u64, prev_root: Seq<u8>) -> Seq<u8>
    decreases hashes.len(),
{
    if hashes.len() == 0 {
        sha256(prev_root + be_u64(timestamp))
    } else if hashes.len() == 1 {
        hashes[0]
    } else {
        merkle_root(merkle_level(hashes), timestamp, prev_root)
    }
}

/// The byte strings that a run of 32-byte values holds.
pub open spec fn hash_views(hashes: Seq<[u8; 32]>) -> Seq<Seq<u8>> {
    Seq::new(hashes.len(), |i: int| hashes[i]@)
}

/// The identity hashes of a run of transactions.
pub open spec fn transaction_hashes(transactions: Seq<TransactionView>) -> Seq<Seq<u8>> {
    Seq::new(transactions.len(), |i: int| transactions[i].hash)
}

/// The eight bytes of `x`, most significant first.
pub fn u64_to_be_bytes(x: u64) -> (bytes: Vec<u8>)
    ensures
        bytes@ == be_u64(x),
        bytes@.len() == 8,
{
    let le = u64_to_le_bytes(x);
    let mut bytes: Vec<u8> = Vec::new();
    let mut i: usize = 8;
    while i > 0
        invariant
            i <= 8,
            le@.len() == 8,
            bytes@.len() == 8 - i,
            forall|k: int| 0 <= k < bytes@.len() ==> bytes@[k] == le@[7 - k],
        decreases i,
    {
        i -= 1;
        bytes.push(le[i]);
    }
    assert(bytes@ =~= le@.reverse());
    bytes
}

/// Hashes each pair of neighbours of `hashes`.
fn merkle_level_of(hashes: &[[u8; 32]]) -> (level: Vec<[u8; 32]>)
    ensures
        hash_views(level@) == merkle_level(hash_views(hashes@)),
        level@.len() == (hashes@.len() + 1) / 2,
{
    let n: usize = hashes.len();
    let pairs: usize = n / 2 + n % 2;
    let mut level: Vec<[u8; 32]> = Vec::new();
    let mut k: usize = 0;
    while k < pairs
        invariant
            n == hashes@.len(),
            pairs == (n + 1) / 2,
            k <= pairs,
            level@.len() == k,
            forall|j: int|
                0 <= j < k ==> (#[trigger] level@[j])@ == merkle_level(hash_views(hashes@))[j],
        decreases pairs - k,
    {
        let left = &hashes[2 * k];
        let right = if 2 * k + 1 < n {
            &hashes[2 * k + 1]
        } else {
            &hashes[2 * k]
        };
        let mut pair: Vec<u8> = Vec::new();
        put_bytes(&mut pair, left.as_slice());
        put_bytes(&mut pair, right.as_slice());
        assert(pair@.len() == 64);
        level.push(sha256_digest(pair.as_slice()));
        k += 1;
    }
    assert(hash_views(level@) =~= merkle_level(hash_views(hashes@)));
    level
}

/// Equal hashes in equal order, with equal previous root and timestamp,
/// give equal Merkle roots.
pub proof fn lemma_merkle_root_deterministic(
    hashes_a: Seq<Seq<u8>>,
    timestamp_a: u64,
    prev_a: Seq<u8>,
    hashes_b: Seq<Seq<u8>>,
    timestamp_b: u64,
    prev_b: Seq<u8>,
)
    requires
        hashes_a =~= hashes_b,
        timestamp_a == timestamp_b,
        prev_a =~= prev_b,
    ensures
        merkle_root(hashes_a, timestamp_a, prev_a) == merkle_root(hashes_b, timestamp_b, prev_b),
{
}

/// The bytes of a run of transactions, 109 for each, one after the other.
pub open spec fn encode_transactions(transactions: Seq<TransactionView>) -> Seq<u8> {
    Seq::new(
        transactions.len() * TRANSACTION_LEN as nat,
        |j: int| transactions[j / TRANSACTION_LEN as int].encode()[j % TRANSACTION_LEN as int],
    )
}

/// The `i`-th run of 109 bytes.
pub open spec fn transaction_chunk(bytes: Seq<u8>, i: int) -> Seq<u8> {
    bytes.subrange(i * TRANSACTION_LEN, i * TRANSACTION_LEN + TRANSACTION_LEN)
}

/// The transactions that `bytes` hold, if their length is a multiple of 109
/// and each run of 109 decodes.
pub open spec fn decode_transactions(bytes: Seq<u8>) -> Option<Seq<TransactionView>> {
    if bytes.len() % TRANSACTION_LEN as nat == 0 && forall|i: int|
        0 <= i < bytes.len() / TRANSACTION_LEN as nat ==> (#[trigger] TransactionView::decode(
            transaction_chunk(bytes, i),
        )) is Some {
        Some(
            Seq::new(
                bytes.len() / TRANSACTION_LEN as nat,
                |i: int| TransactionView::decode(transaction_chunk(bytes, i))->0,
            ),
        )
    } else {
        None
    }
}

impl BlockView {
    /// Every transaction is well formed.
    pub open spec fn wf(self) -> bool {
        forall|i: int| 0 <= i < self.transactions.len() ==> (#[trigger] self.transactions[i]).wf()
    }

    /// Both roots and every hash have 32 bytes.
    pub open spec fn sized(self) -> bool {
        &&& self.merkle_root.len() == 32
        &&& self.prev_block_hash.len() == 32
        &&& forall|i: int|
            0 <= i < self.transactions.len() ==> (#[trigger] self.transactions[i]).sized()
    }

    /// The root is the Merkle root over the transactions' hashes.
    pub open spec fn root_matches(self) -> bool {
        self.merkle_root == merkle_root(
            transaction_hashes(self.transactions),
            self.timestamp,
            self.prev_block_hash,
        )
    }

    /// The bytes of a block: root, previous root, little-endian timestamp,
    /// transactions.
    pub open spec fn encode(self) -> Seq<u8> {
        self.merkle_root + self.prev_block_hash + spec_u64_to_le_bytes(self.timestamp)
            + encode_transactions(self.transactions)
    }

    /// The block that `bytes` hold, if they hold a header and whole
    /// transactions.
    pub open spec fn decode(bytes: Seq<u8>) -> Option<BlockView> {
        if bytes.len() < BLOCK_HEADER_LEN {
            None
        } else {
            match decode_transactions(bytes.skip(BLOCK_HEADER_LEN as int)) {
                Some(transactions) => Some(
                    BlockView {
                        merkle_root: bytes.subrange(0, 32),
                        prev_block_hash: bytes.subrange(32, 64),
                        timestamp: spec_u64_from_le_bytes(bytes.subrange(64, 72)),
                        transactions,
                    },
                ),
                None => None,
            }
        }
    }
}

impl Clone for Block {
    fn clone(&self) -> (copy: Self)
        ensures
            copy@ == self@,
            copy.wf() == self.wf(),
    {
        let mut transactions: Vec<Transaction> = Vec::new();
        let mut i: usize = 0;
        while i < self.transactions.len()
            invariant
                i <= self.transactions@.len(),
                transactions@ == self.transactions@.take(i as int),
            decreases self.transactions@.len() - i,
        {
            transactions.push(self.transactions[i].clone());
            i += 1;
            assert(transactions@ =~= self.transactions@.take(i as int));
        }
        assert(transactions@ =~= self.transactions@);
        let copy = Block {
            merkle_root: self.merkle_root,
            prev_block_hash: self.prev_block_hash,
            timestamp: self.timestamp,
            transactions,
        };
        assert(copy.transactions@ == self.transactions@);
        copy
    }
}

impl Block {
    /// Every transaction is well formed.
    pub open spec fn wf(&self) -> bool {
        forall|i: int| 0 <= i < self.transactions@.len() ==> (#[trigger] self.transactions@[i]).wf()
    }

    /// Computes the Merkle root over `hashes`, in their order.
    pub fn calculate_merkle_root(
        hashes: &[[u8; 32]],
        timestamp: u64,
        prev_block_hash: &[u8; 32],
    ) -> (root: [u8; 32])
        ensures
            root@ == merkle_root(hash_views(hashes@), timestamp, prev_block_hash@),
    {
        if hashes.len() == 0 {
            let mut data: Vec<u8> = Vec::new();
            put_bytes(&mut data, prev_block_hash.as_slice());
            let stamp = u64_to_be_bytes(timestamp);
            put_bytes(&mut data, stamp.as_slice());
            assert(data@.len() == 40);
            return sha256_digest(data.as_slice());
        }
        if hashes.len() == 1 {
            return hashes[0];
        }
        let mut level = merkle_level_of(hashes);
        while level.len() > 1
            invariant
                level@.len() >= 1,
                merkle_root(hash_views(level@), timestamp, prev_block_hash@) == merkle_root(
                    hash_views(hashes@),
                    timestamp,
                    prev_block_hash@,
                ),
            decreases level@.len(),
        {
            level = merkle_level_of(level.as_slice());
        }
        level[0]
    }

    /// Seals `transactions` into a block on top of `prev_block_hash`, made
    /// at `timestamp`.
    pub fn new(transactions: Vec<Transaction>, prev_block_hash: [u8; 32], timestamp: u64) -> (block:
        Self)
        ensures
            block.prev_block_hash == prev_block_hash,
            block.timestamp == timestamp,
            block.transactions == transactions,
            block@.root_matches(),
    {
        let mut hashes: Vec<[u8; 32]> = Vec::new();
        let mut i: usize = 0;
        while i < transactions.len()
            invariant
                i <= transactions@.len(),
                hashes@.len() == i,
                forall|k: int| 0 <= k < i ==> hashes@[k] == transactions@[k].hash,
            decreases transactions@.len() - i,
        {
            hashes.push(transactions[i].hash);
            i += 1;
        }
        let merkle_root = Self::calculate_merkle_root(hashes.as_slice(), timestamp, &prev_block_hash);
        assert(hash_views(hashes@) =~= transaction_hashes(transaction_views(transactions@)));
        Block { merkle_root, prev_block_hash, timestamp, transactions }
    }

    /// Reads a block from its bytes.
    ///
    /// Returns `None` when there are fewer than 72 bytes, when what follows
    /// the header is not a whole number of transactions, or when one of
    /// them does not decode.
    pub fn from_bytes(bytes: &[u8]) -> (read: Option<Self>)
        ensures
            match read {
                Some(block) => BlockView::decode(bytes@) == Some(block@) && block.wf(),
                None => BlockView::decode(bytes@) is None,
            },
    {
        let len: usize = bytes.len();
        if len < BLOCK_HEADER_LEN {
            return None;
        }
        let body = slice_subrange(bytes, BLOCK_HEADER_LEN, len);
        assert(body@ =~= bytes@.skip(BLOCK_HEADER_LEN as int));
        let body_len: usize = body.len();
        if body_len % TRANSACTION_LEN != 0 {
            return None;
        }
        let count: usize = body_len / TRANSACTION_LEN;
        let mut transactions: Vec<Transaction> = Vec::new();
        let mut i: usize = 0;
        while i < count
            invariant
                i <= count,
                body_len == body@.len(),
                count * TRANSACTION_LEN == body_len,
                transactions@.len() == i,
                bytes@.len() >= BLOCK_HEADER_LEN,
                body@ == bytes@.skip(BLOCK_HEADER_LEN as int),
                forall|k: int|
                    0 <= k < i ==> TransactionView::decode(#[trigger] transaction_chunk(body@, k))
                        == Some(transactions@[k]@),
                forall|k: int| 0 <= k < i ==> (#[trigger] transactions@[k]).wf(),
            decreases count - i,
        {
            let chunk = slice_subrange(body, i * TRANSACTION_LEN, i * TRANSACTION_LEN + TRANSACTION_LEN);
            assert(chunk@ == transaction_chunk(body@, i as int));
            match Transaction::from_bytes(chunk) {
                Some(t) => {
                    transactions.push(t);
                },
                None => {
                    assert(TransactionView::decode(transaction_chunk(body@, i as int)) is None);
                    return None;
                },
            }
            i += 1;
        }
        let block = Block {
            merkle_root: get_array32(bytes, 0),
            prev_block_hash: get_array32(bytes, 32),
            timestamp: get_u64(bytes, 64),
            transactions,
        };
        proof {
            assert(count == body@.len() / TRANSACTION_LEN as nat);
            assert forall|k: int| 0 <= k < count implies (#[trigger] TransactionView::decode(
                transaction_chunk(body@, k),
            )) is Some by {
                assert(TransactionView::decode(transaction_chunk(body@, k)) == Some(
                    transactions@[k]@,
                ));
            }
            assert(decode_transactions(body@) is Some);
            assert(decode_transactions(body@)->0 =~= block@.transactions);
        }
        Some(block)
    }

    /// Writes the block as bytes: the 72-byte header, then each
    /// transaction. A block in which no data name holds a NUL is read back
    /// from them as it is.
    pub fn as_bytes(&self) -> (bytes: Vec<u8>)
        requires
            self.wf(),
        ensures
            bytes@ == self@.encode(),
            bytes@.len() == BLOCK_HEADER_LEN + self.transactions@.len() * TRANSACTION_LEN,
            (forall|i: int|
                0 <= i < self@.transactions.len() ==> name_survives_window(
                    (#[trigger] self@.transactions[i]).data_name,
                )) ==> BlockView::decode(bytes@) == Some(self@),
    {
        proof {
            lemma_block_wf(*self);
            if forall|i: int|
                0 <= i < self@.transactions.len() ==> name_survives_window(
                    (#[trigger] self@.transactions[i]).data_name,
                ) {
                lemma_block_round_trip(self@);
            }
        }
        let mut bytes: Vec<u8> = Vec::new();
        put_bytes(&mut bytes, self.merkle_root.as_slice());
        put_bytes(&mut bytes, self.prev_block_hash.as_slice());
        put_u64(&mut bytes, self.timestamp);
        proof {
            lemma_auto_spec_u64_to_from_le_bytes();
        }
        let ghost header = bytes@;
        let mut i: usize = 0;
        while i < self.transactions.len()
            invariant
                self.wf(),
                i <= self.transactions@.len(),
                header.len() == BLOCK_HEADER_LEN,
                bytes@ == header + encode_transactions(self@.transactions.take(i as int)),
            decreases self.transactions@.len() - i,
        {
            let chunk = self.transactions[i].as_bytes();
            let ghost before = bytes@;
            put_bytes(&mut bytes, chunk.as_slice());
            i += 1;
            proof {
                lemma_encode_push(self@.transactions.take(i - 1), self@.transactions[i - 1]);
                assert(self@.transactions.take(i - 1).push(self@.transactions[i - 1])
                    =~= self@.transactions.take(i as int));
                assert(bytes@ =~= header + encode_transactions(self@.transactions.take(i as int)));
            }
        }
        assert(self@.transactions.take(i as int) =~= self@.transactions);
        assert(bytes@ =~= self@.encode());
        bytes
    }
}

/// Encoding a run with one more transaction appends that transaction's
/// bytes.
pub proof fn lemma_encode_push(transactions: Seq<TransactionView>, last: TransactionView)
    requires
        last.wf(),
        last.sized(),
    ensures
        encode_transactions(transactions.push(last)) == encode_transactions(transactions)
            + last.encode(),
{
    lemma_encode_len(last);
    let n = transactions.len() as int;
    let a = encode_transactions(transactions.push(last));
    let b = encode_transactions(transactions) + last.encode();
    assert(a.len() == b.len());
    assert forall|j: int| 0 <= j < a.len() implies a[j] == b[j] by {
        if j < n * 109 {
            assert(j / 109 < n);
        } else {
            assert(j / 109 == n);
            assert(j % 109 == j - n * 109);
        }
    }
    assert(a =~= b);
}

/// The `i`-th run of 109 bytes of an encoded run of transactions is the
/// `i`-th transaction's encoding.
pub proof fn lemma_encoded_chunk(transactions: Seq<TransactionView>, i: int)
    requires
        0 <= i < transactions.len(),
        transactions[i].wf(),
        transactions[i].sized(),
    ensures
        transaction_chunk(encode_transactions(transactions), i) == transactions[i].encode(),
{
    lemma_encode_len(transactions[i]);
    let all = encode_transactions(transactions);
    let chunk = transaction_chunk(all, i);
    assert(i * 109 + 109 <= transactions.len() * 109);
    assert forall|j: int| 0 <= j < 109 implies chunk[j] == transactions[i].encode()[j] by {
        assert((i * 109 + j) / 109 == i);
        assert((i * 109 + j) % 109 == j);
    }
    assert(chunk =~= transactions[i].encode());
}

/// Decoding an encoded block gives the block back, provided no data name
/// in it holds a NUL.
pub proof fn lemma_block_round_trip(block: BlockView)
    requires
        block.wf(),
        block.sized(),
        forall|i: int|
            0 <= i < block.transactions.len() ==> name_survives_window(
                (#[trigger] block.transactions[i]).data_name,
            ),
    ensures
        BlockView::decode(block.encode()) == Some(block),
{
    lemma_auto_spec_u64_to_from_le_bytes();
    let bytes = block.encode();
    let body = encode_transactions(block.transactions);
    assert(bytes.skip(BLOCK_HEADER_LEN as int) =~= body);
    assert(bytes.subrange(0, 32) =~= block.merkle_root);
    assert(bytes.subrange(32, 64) =~= block.prev_block_hash);
    assert(bytes.subrange(64, 72) =~= spec_u64_to_le_bytes(block.timestamp));
    assert(body.len() == block.transactions.len() * 109);
    assert(body.len() / 109 == block.transactions.len());
    assert forall|i: int| 0 <= i < body.len() / 109 implies (#[trigger] TransactionView::decode(
        transaction_chunk(body, i),
    )) == Some(block.transactions[i]) by {
        assert(block.transactions[i].wf() && block.transactions[i].sized());
        lemma_encoded_chunk(block.transactions, i);
        lemma_transaction_round_trip(block.transactions[i]);
    }
    assert(decode_transactions(body)->0 =~= block.transactions);
}

/// A block is well formed exactly if what it holds is.
pub proof fn lemma_block_wf(block: Block)
    ensures
        block.wf() == block@.wf(),
{
    if block.wf() {
        assert forall|i: int| 0 <= i < block@.transactions.len() implies (
        #[trigger] block@.transactions[i]).wf() by {
            assert(block.transactions@[i].wf());
        }
    }
    if block@.wf() {
        assert forall|i: int| 0 <= i < block.transactions@.len() implies (
        #[trigger] block.transactions@[i]).wf() by {
            assert(block@.transactions[i].wf());
        }
    }
}

/// What is read as a block is well formed.
pub proof fn lemma_decoded_block_wf(bytes: Seq<u8>)
    requires
        BlockView::decode(bytes) is Some,
    ensures
        BlockView::decode(bytes)->0.wf(),
        BlockView::decode(bytes)->0.sized(),
{
    let block = BlockView::decode(bytes)->0;
    let body = bytes.skip(BLOCK_HEADER_LEN as int);
    assert forall|i: int| 0 <= i < block.transactions.len() implies (
    #[trigger] block.transactions[i]).wf() && block.transactions[i].sized() by {
        assert(TransactionView::decode(transaction_chunk(body, i)) is Some);
        crate::transaction::lemma_decoded_wf(transaction_chunk(body, i));
    }
}

} // verus!
