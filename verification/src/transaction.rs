//! Transactions: the fixed 109-byte record of one cache operation, and the
//! content hash that identifies it.

use vstd::prelude::*;
use vstd::bytes::*;
use vstd::slice::*;
use vstd::utf8::*;
use crate::cache::CacheOperation;
use crate::crypto::{sha256, sha256_checked, MAX_DIGEST_INPUT};
use crate::wire::{
    get_array32, get_name, get_u16, get_u64, lemma_window_name_round_trip, name_survives_window,
    pad_name, put_bytes, put_name, put_u16, put_u64, window_name, NAME_WINDOW,
};

verus! {

/// Length of an encoded transaction.
pub const TRANSACTION_LEN: usize = 109;

/// Why a transaction could not be made.
#[derive(Debug, Clone, Copy, PartialEq, Eq, Structural)]
pub enum TransactionError {
    /// The data name takes more than 64 bytes.
    NameTooLong,
    /// The text to hash is too long for the digest.
    TextTooLong,
}

/// One cache operation, as a node witnessed it.
#[derive(Debug)]
pub struct Transaction {
    pub node_id: u16,
    pub client_id: u16,
    pub data_name: String,
    pub operation: CacheOperation,
    pub timestamp: u64,
    pub hash: [u8; 32],
}

/// What a transaction holds.
pub struct TransactionView {
    pub node_id: u16,
    pub client_id: u16,
    pub data_name: Seq<char>,
    pub operation: CacheOperation,
    pub timestamp: u64,
    pub hash: Seq<u8>,
}

impl View for Transaction {
    type V = TransactionView;

    open spec fn view(&self) -> TransactionView {
        TransactionView {
            node_id: self.node_id,
            client_id: self.client_id,
            data_name: self.data_name@,
            operation: self.operation,
            timestamp: self.timestamp,
            hash: self.hash@,
        }
    }
}

/// What `{:?}` writes for a string: the text in double quotes, with the
/// characters that Rust escapes written as escapes.
pub uninterp spec fn debug_text(text: Seq<char>) -> Seq<u8>;

/// Formats `text` with `{:?}` through `format!`.
///
/// Trusted: the bytes returned are those that the `Debug` impl of `str`
/// writes for `text`, which, for one version of the standard library,
/// depend on `text` alone.
#[verifier::external_body]
fn format_debug(text: &str) -> (out: Vec<u8>)
    ensures
        out@ == debug_text(text@),
{
    format!("{:?}", text).into_bytes()
}

/// The decimal digits of `n`, in ASCII, without leading zeros.
pub open spec fn decimal(n: nat) -> Seq<u8>
    decreases n,
{
    if n < 10 {
        seq![(48 + n) as u8]
    } else {
        decimal(n / 10).push((48 + n % 10) as u8)
    }
}

/// The name under which the hashed text records an operation.
pub open spec fn operation_name(operation: CacheOperation) -> Seq<u8> {
    match operation {
        // "Set"
        CacheOperation::Put => seq![83u8, 101u8, 116u8],
        // "Get"
        CacheOperation::Get => seq![71u8, 101u8, 116u8],
        // "Delete"
        CacheOperation::Delete => seq![68u8, 101u8, 108u8, 101u8, 116u8, 101u8],
    }
}

/// The text that a transaction's hash is taken over: node id, client id,
/// quoted data name, operation name and timestamp, joined by full stops.
pub open spec fn canonical_fields(
    node_id: u16,
    client_id: u16,
    data_name: Seq<char>,
    operation: CacheOperation,
    timestamp: u64,
) -> Seq<u8> {
    decimal(node_id as nat) + seq![46u8] + decimal(client_id as nat) + seq![46u8] + debug_text(
        data_name,
    ) + seq![46u8] + operation_name(operation) + seq![46u8] + decimal(timestamp as nat)
}

impl TransactionView {
    /// The name fits its window.
    pub open spec fn wf(self) -> bool {
        encode_utf8(self.data_name).len() <= NAME_WINDOW
    }

    /// The hash has 32 bytes.
    pub open spec fn sized(self) -> bool {
        self.hash.len() == 32
    }

    /// The text that the hash is taken over.
    pub open spec fn canonical_fields(self) -> Seq<u8> {
        canonical_fields(
            self.node_id,
            self.client_id,
            self.data_name,
            self.operation,
            self.timestamp,
        )
    }

    /// The hash is that of the other five fields.
    pub open spec fn hash_matches(self) -> bool {
        self.hash == sha256(self.canonical_fields())
    }

    /// The 109 bytes of a transaction.
    pub open spec fn encode(self) -> Seq<u8> {
        spec_u16_to_le_bytes(self.node_id) + spec_u16_to_le_bytes(self.client_id) + pad_name(
            encode_utf8(self.data_name),
        ) + seq![self.operation.spec_tag()] + spec_u64_to_le_bytes(self.timestamp) + self.hash
    }

    /// The transaction that 109 bytes hold, if the name is UTF-8 and the
    /// operation tag is known.
    pub open spec fn decode(bytes: Seq<u8>) -> Option<TransactionView> {
        if bytes.len() != TRANSACTION_LEN {
            None
        } else {
            match (
                window_name(bytes.subrange(4, 68)),
                CacheOperation::spec_from_tag(bytes[68]),
            ) {
                (Some(name), Some(operation)) => Some(
                    TransactionView {
                        node_id: spec_u16_from_le_bytes(bytes.subrange(0, 2)),
                        client_id: spec_u16_from_le_bytes(bytes.subrange(2, 4)),
                        data_name: name,
                        operation,
                        timestamp: spec_u64_from_le_bytes(bytes.subrange(69, 77)),
                        hash: bytes.subrange(77, 109),
                    },
                ),
                _ => None,
            }
        }
    }
}

/// Appends the decimal digits of `n`.
pub fn put_decimal(out: &mut Vec<u8>, n: u64)
    ensures
        final(out)@ == old(out)@ + decimal(n as nat),
    decreases n,
{
    if n < 10 {
        out.push(48 + n as u8);
        assert(out@ =~= old(out)@ + decimal(n as nat));
    } else {
        put_decimal(out, n / 10);
        out.push(48 + (n % 10) as u8);
        assert(out@ =~= old(out)@ + decimal(n as nat));
    }
}

/// Appends the name of an operation.
fn put_operation_name(out: &mut Vec<u8>, operation: CacheOperation)
    ensures
        final(out)@ == old(out)@ + operation_name(operation),
{
    match operation {
        CacheOperation::Put => {
            out.push(83);
            out.push(101);
            out.push(116);
        },
        CacheOperation::Get => {
            out.push(71);
            out.push(101);
            out.push(116);
        },
        CacheOperation::Delete => {
            out.push(68);
            out.push(101);
            out.push(108);
            out.push(101);
            out.push(116);
            out.push(101);
        },
    }
    assert(out@ =~= old(out)@ + operation_name(operation));
}

/// Writes out the text that a transaction's hash is taken over.
pub fn canonical_text(
    node_id: u16,
    client_id: u16,
    data_name: &str,
    operation: CacheOperation,
    timestamp: u64,
) -> (out: Vec<u8>)
    ensures
        out@ == canonical_fields(node_id, client_id, data_name@, operation, timestamp),
{
    let mut out: Vec<u8> = Vec::new();
    put_decimal(&mut out, node_id as u64);
    out.push(46);
    put_decimal(&mut out, client_id as u64);
    out.push(46);
    let quoted = format_debug(data_name);
    put_bytes(&mut out, quoted.as_slice());
    out.push(46);
    put_operation_name(&mut out, operation);
    out.push(46);
    put_decimal(&mut out, timestamp);
    assert(out@ =~= canonical_fields(node_id, client_id, data_name@, operation, timestamp));
    out
}

impl Clone for Transaction {
    fn clone(&self) -> (copy: Self)
        ensures
            copy == *self,
    {
        Transaction {
            node_id: self.node_id,
            client_id: self.client_id,
            data_name: self.data_name.clone(),
            operation: self.operation,
            timestamp: self.timestamp,
            hash: self.hash,
        }
    }
}

impl Transaction {
    /// The name fits its window.
    pub open spec fn wf(&self) -> bool {
        encode_utf8(self.data_name@).len() <= NAME_WINDOW
    }

    /// Makes the transaction for an operation that `node_id` witnessed at
    /// `timestamp`, and sets its hash to that of the other five fields.
    ///
    /// A name of more than 64 bytes is refused.
    pub fn new(
        node_id: u16,
        client_id: u16,
        data_name: String,
        operation: CacheOperation,
        timestamp: u64,
    ) -> (made: Result<Self, TransactionError>)
        ensures
            match made {
                Ok(t) => {
                    &&& encode_utf8(data_name@).len() <= NAME_WINDOW
                    &&& t@.canonical_fields().len() < MAX_DIGEST_INPUT
                    &&& t@ == (TransactionView {
                        node_id,
                        client_id,
                        data_name: data_name@,
                        operation,
                        timestamp,
                        hash: sha256(
                            canonical_fields(node_id, client_id, data_name@, operation, timestamp),
                        ),
                    })
                    &&& t@.hash_matches()
                    &&& t.wf()
                },
                Err(TransactionError::NameTooLong) => encode_utf8(data_name@).len() > NAME_WINDOW,
                Err(TransactionError::TextTooLong) => {
                    &&& encode_utf8(data_name@).len() <= NAME_WINDOW
                    &&& canonical_fields(
                        node_id,
                        client_id,
                        data_name@,
                        operation,
                        timestamp,
                    ).len() >= MAX_DIGEST_INPUT
                },
            },
    {
        if data_name.as_str().as_bytes().len() > NAME_WINDOW {
            return Err(TransactionError::NameTooLong);
        }
        let text = canonical_text(node_id, client_id, data_name.as_str(), operation, timestamp);
        match sha256_checked(text.as_slice()) {
            Some(hash) => Ok(
                Transaction { node_id, client_id, data_name, operation, timestamp, hash },
            ),
            None => Err(TransactionError::TextTooLong),
        }
    }

    /// Whether the hash is that of the other five fields.
    pub fn hash_matches(&self) -> (ok: bool)
        ensures
            ok == (self@.canonical_fields().len() < MAX_DIGEST_INPUT && self@.hash_matches()),
    {
        let text = canonical_text(
            self.node_id,
            self.client_id,
            self.data_name.as_str(),
            self.operation,
            self.timestamp,
        );
        match sha256_checked(text.as_slice()) {
            Some(hash) => crate::wire::same_bytes32(&hash, &self.hash),
            None => false,
        }
    }

    /// Reads a transaction from its 109 bytes.
    ///
    /// Returns `None` when the length is not 109, the name is not UTF-8 or
    /// the operation tag is unknown.
    pub fn from_bytes(bytes: &[u8]) -> (read: Option<Self>)
        ensures
            match read {
                Some(t) => TransactionView::decode(bytes@) == Some(t@) && t.wf(),
                None => TransactionView::decode(bytes@) is None,
            },
    {
        if bytes.len() != TRANSACTION_LEN {
            return None;
        }
        let name = get_name(bytes, 4);
        let operation = CacheOperation::from_tag(bytes[68]);
        match (name, operation) {
            (Some(data_name), Some(operation)) => {
                proof {
                    lemma_decoded_name_fits(bytes@.subrange(4, 68));
                }
                Some(
                    Transaction {
                        node_id: get_u16(bytes, 0),
                        client_id: get_u16(bytes, 2),
                        data_name,
                        operation,
                        timestamp: get_u64(bytes, 69),
                        hash: get_array32(bytes, 77),
                    },
                )
            },
            _ => None,
        }
    }

    /// Writes the transaction as its 109 bytes. A transaction whose name
    /// holds no NUL is read back from them as it is.
    pub fn as_bytes(&self) -> (bytes: Vec<u8>)
        requires
            self.wf(),
        ensures
            bytes@ == self@.encode(),
            bytes@.len() == TRANSACTION_LEN,
            name_survives_window(self@.data_name) ==> TransactionView::decode(bytes@) == Some(
                self@,
            ),
    {
        proof {
            if name_survives_window(self@.data_name) {
                lemma_transaction_round_trip(self@);
            }
        }
        let mut bytes: Vec<u8> = Vec::new();
        put_u16(&mut bytes, self.node_id);
        put_u16(&mut bytes, self.client_id);
        put_name(&mut bytes, self.data_name.as_str());
        bytes.push(self.operation.tag());
        put_u64(&mut bytes, self.timestamp);
        put_bytes(&mut bytes, self.hash.as_slice());
        proof {
            lemma_encode_len(self@);
            assert(bytes@ =~= self@.encode());
        }
        bytes
    }
}

/// A name read from a window takes no more bytes than the window has.
pub proof fn lemma_decoded_name_fits(window: Seq<u8>)
    requires
        window.len() == NAME_WINDOW,
        window_name(window) is Some,
    ensures
        encode_utf8(window_name(window)->0).len() <= NAME_WINDOW,
{
    crate::wire::lemma_first_nul_bounds(window, 0);
    decode_utf8_encode_utf8(crate::wire::trim_at_nul(window));
}

/// What is read from 109 bytes is well formed.
pub proof fn lemma_decoded_wf(bytes: Seq<u8>)
    requires
        TransactionView::decode(bytes) is Some,
    ensures
        TransactionView::decode(bytes)->0.wf(),
        TransactionView::decode(bytes)->0.sized(),
{
    lemma_decoded_name_fits(bytes.subrange(4, 68));
}

/// An encoded transaction has 109 bytes.
pub proof fn lemma_encode_len(t: TransactionView)
    requires
        t.wf(),
        t.sized(),
    ensures
        t.encode().len() == TRANSACTION_LEN,
{
    lemma_auto_spec_u16_to_from_le_bytes();
    lemma_auto_spec_u64_to_from_le_bytes();
}

/// Decoding an encoded transaction gives the transaction back, provided its
/// name holds no NUL, which the window would take for padding.
pub proof fn lemma_transaction_round_trip(t: TransactionView)
    requires
        t.wf(),
        t.sized(),
        name_survives_window(t.data_name),
    ensures
        TransactionView::decode(t.encode()) == Some(t),
{
    lemma_auto_spec_u16_to_from_le_bytes();
    lemma_auto_spec_u64_to_from_le_bytes();
    lemma_window_name_round_trip(t.data_name);
    let b = t.encode();
    let name = pad_name(encode_utf8(t.data_name));
    assert(b.subrange(0, 2) =~= spec_u16_to_le_bytes(t.node_id));
    assert(b.subrange(2, 4) =~= spec_u16_to_le_bytes(t.client_id));
    assert(b.subrange(4, 68) =~= name);
    assert(b[68] == t.operation.spec_tag());
    assert(b.subrange(69, 77) =~= spec_u64_to_le_bytes(t.timestamp));
    assert(b.subrange(77, 109) =~= t.hash);
}

} // verus!
