//! Building blocks of the binary layouts: little-endian integers, fixed
//! byte fields and the 64-byte, zero-padded name window.

use vstd::prelude::*;
use vstd::bytes::*;
use vstd::slice::*;
use vstd::utf8::*;

verus! {

/// Width of the window that holds a data name on the wire.
pub const NAME_WINDOW: usize = 64;

/// `n` zero bytes.
pub open spec fn zeros(n: nat) -> Seq<u8> {
    Seq::new(n, |i: int| 0u8)
}

/// A name's bytes, left-justified in the window and padded with zeros.
pub open spec fn pad_name(name: Seq<u8>) -> Seq<u8>
    recommends
        name.len() <= NAME_WINDOW,
{
    name + zeros((NAME_WINDOW - name.len()) as nat)
}

/// Index of the first zero byte of `w` at or after `from`, or `w.len()` if
/// there is none.
pub open spec fn first_nul(w: Seq<u8>, from: int) -> int
    decreases w.len() - from,
{
    if from < 0 || from >= w.len() {
        w.len() as int
    } else if w[from] == 0 {
        from
    } else {
        first_nul(w, from + 1)
    }
}

/// The bytes of a window up to its first zero byte.
pub open spec fn trim_at_nul(w: Seq<u8>) -> Seq<u8> {
    w.take(first_nul(w, 0))
}

/// The name that a window holds, if the bytes before its first zero byte are
/// UTF-8.
pub open spec fn window_name(w: Seq<u8>) -> Option<Seq<char>> {
    if valid_utf8(trim_at_nul(w)) {
        Some(decode_utf8(trim_at_nul(w)))
    } else {
        None
    }
}

/// A name fits the window, and no byte of it would be read as the padding.
pub open spec fn name_survives_window(name: Seq<char>) -> bool {
    &&& encode_utf8(name).len() <= NAME_WINDOW
    &&& !encode_utf8(name).contains(0u8)
}

/// The first zero byte lies at or after `from`; no byte before it is
/// zero, and the byte at it is, unless it is the end.
pub proof fn lemma_first_nul_bounds(w: Seq<u8>, from: int)
    requires
        0 <= from <= w.len(),
    ensures
        from <= first_nul(w, from) <= w.len(),
        forall|i: int| from <= i < first_nul(w, from) ==> w[i] != 0,
        first_nul(w, from) < w.len() ==> w[first_nul(w, from)] == 0,
    decreases w.len() - from,
{
    if from < w.len() && w[from] != 0 {
        lemma_first_nul_bounds(w, from + 1);
    }
}

/// The first zero byte is the only index with nothing but non-zero bytes
/// before it and a zero byte, or the end, at it.
pub proof fn lemma_first_nul_is(w: Seq<u8>, n: int)
    requires
        0 <= n <= w.len(),
        forall|i: int| 0 <= i < n ==> w[i] != 0,
        n < w.len() ==> w[n] == 0,
    ensures
        first_nul(w, 0) == n,
{
    lemma_first_nul_bounds(w, 0);
    let m = first_nul(w, 0);
    if m < n {
        assert(w[m] == 0);
    } else if n < m {
        assert(w[n] == 0);
    }
}

/// Padding a name and trimming the window gives the name back.
pub proof fn lemma_trim_pad(name: Seq<u8>)
    requires
        name.len() <= NAME_WINDOW,
        !name.contains(0u8),
    ensures
        pad_name(name).len() == NAME_WINDOW,
        trim_at_nul(pad_name(name)) == name,
{
    let w = pad_name(name);
    assert forall|i: int| 0 <= i < name.len() implies w[i] != 0 by {
        assert(name.contains(name[i]));
    }
    lemma_first_nul_is(w, name.len() as int);
    assert(w.take(name.len() as int) =~= name);
}

/// A name that survives the window is read back from its padded bytes.
pub proof fn lemma_window_name_round_trip(name: Seq<char>)
    requires
        name_survives_window(name),
    ensures
        window_name(pad_name(encode_utf8(name))) == Some(name),
{
    lemma_trim_pad(encode_utf8(name));
    encode_utf8_valid_utf8(name);
    encode_utf8_decode_utf8(name);
}

/// Appends `src` to `out`.
pub fn put_bytes(out: &mut Vec<u8>, src: &[u8])
    ensures
        final(out)@ == old(out)@ + src@,
{
    let mut tail = slice_to_vec(src);
    out.append(&mut tail);
}

/// Appends `x` as two little-endian bytes.
pub fn put_u16(out: &mut Vec<u8>, x: u16)
    ensures
        final(out)@ == old(out)@ + spec_u16_to_le_bytes(x),
{
    let mut b = u16_to_le_bytes(x);
    out.append(&mut b);
}

/// Appends `x` as four little-endian bytes.
pub fn put_u32(out: &mut Vec<u8>, x: u32)
    ensures
        final(out)@ == old(out)@ + spec_u32_to_le_bytes(x),
{
    let mut b = u32_to_le_bytes(x);
    out.append(&mut b);
}

/// Appends `x` as eight little-endian bytes.
pub fn put_u64(out: &mut Vec<u8>, x: u64)
    ensures
        final(out)@ == old(out)@ + spec_u64_to_le_bytes(x),
{
    let mut b = u64_to_le_bytes(x);
    out.append(&mut b);
}

/// Reads two little-endian bytes at `at`.
pub fn get_u16(bytes: &[u8], at: usize) -> (x: u16)
    requires
        at + 2 <= bytes@.len(),
    ensures
        x == spec_u16_from_le_bytes(bytes@.subrange(at as int, at + 2)),
{
    let _len: usize = bytes.len();
    u16_from_le_bytes(slice_subrange(bytes, at, at + 2))
}

/// Reads four little-endian bytes at `at`.
pub fn get_u32(bytes: &[u8], at: usize) -> (x: u32)
    requires
        at + 4 <= bytes@.len(),
    ensures
        x == spec_u32_from_le_bytes(bytes@.subrange(at as int, at + 4)),
{
    let _len: usize = bytes.len();
    u32_from_le_bytes(slice_subrange(bytes, at, at + 4))
}

/// Reads eight little-endian bytes at `at`.
pub fn get_u64(bytes: &[u8], at: usize) -> (x: u64)
    requires
        at + 8 <= bytes@.len(),
    ensures
        x == spec_u64_from_le_bytes(bytes@.subrange(at as int, at + 8)),
{
    let _len: usize = bytes.len();
    u64_from_le_bytes(slice_subrange(bytes, at, at + 8))
}

/// Copies the 32 bytes at `at` into an array.
pub fn get_array32(bytes: &[u8], at: usize) -> (out: [u8; 32])
    requires
        at + 32 <= bytes@.len(),
    ensures
        out@ == bytes@.subrange(at as int, at + 32),
{
    let _len: usize = bytes.len();
    let mut out = [0u8; 32];
    let mut i: usize = 0;
    while i < 32
        invariant
            i <= 32,
            at + 32 <= bytes@.len() <= usize::MAX,
            forall|k: int| 0 <= k < i ==> out@[k] == bytes@[at + k],
        decreases 32 - i,
    {
        out[i] = bytes[at + i];
        i += 1;
    }
    assert(out@ =~= bytes@.subrange(at as int, at + 32));
    out
}

/// Copies the 64 bytes at `at` into an array.
pub fn get_array64(bytes: &[u8], at: usize) -> (out: [u8; 64])
    requires
        at + 64 <= bytes@.len(),
    ensures
        out@ == bytes@.subrange(at as int, at + 64),
{
    let _len: usize = bytes.len();
    let mut out = [0u8; 64];
    let mut i: usize = 0;
    while i < 64
        invariant
            i <= 64,
            at + 64 <= bytes@.len() <= usize::MAX,
            forall|k: int| 0 <= k < i ==> out@[k] == bytes@[at + k],
        decreases 64 - i,
    {
        out[i] = bytes[at + i];
        i += 1;
    }
    assert(out@ =~= bytes@.subrange(at as int, at + 64));
    out
}

/// Whether two 32-byte values are the same.
pub fn same_bytes32(a: &[u8; 32], b: &[u8; 32]) -> (same: bool)
    ensures
        same == (a@ == b@),
{
    let mut i: usize = 0;
    while i < 32
        invariant
            i <= 32,
            forall|k: int| 0 <= k < i ==> a@[k] == b@[k],
        decreases 32 - i,
    {
        if a[i] != b[i] {
            return false;
        }
        i += 1;
    }
    assert(a@ =~= b@);
    true
}

/// Calls `String::from_utf8` on a copy of `bytes`.
///
/// Trusted: the call succeeds exactly on well-formed UTF-8, and the string
/// it gives holds the characters that those bytes encode.
#[verifier::external_body]
pub(crate) fn string_from_utf8(bytes: &[u8]) -> (out: Option<String>)
    ensures
        out is Some <==> valid_utf8(bytes@),
        out matches Some(s) ==> s@ == decode_utf8(bytes@),
{
    String::from_utf8(bytes.to_vec()).ok()
}

/// Appends a name's UTF-8 bytes and the zero padding that fills the window.
pub fn put_name(out: &mut Vec<u8>, name: &str)
    requires
        encode_utf8(name@).len() <= NAME_WINDOW,
    ensures
        final(out)@ == old(out)@ + pad_name(encode_utf8(name@)),
{
    let raw = name.as_bytes();
    put_bytes(out, raw);
    let mut i: usize = raw.len();
    while i < NAME_WINDOW
        invariant
            raw@.len() <= i <= NAME_WINDOW,
            out@ == old(out)@ + raw@ + zeros((i - raw@.len()) as nat),
        decreases NAME_WINDOW - i,
    {
        out.push(0u8);
        i += 1;
        assert(out@ =~= old(out)@ + raw@ + zeros((i - raw@.len()) as nat));
    }
    assert(out@ =~= old(out)@ + pad_name(encode_utf8(name@)));
}

/// Reads the name held in the 64-byte window at `at`.
pub fn get_name(bytes: &[u8], at: usize) -> (out: Option<String>)
    requires
        at + NAME_WINDOW <= bytes@.len(),
    ensures
        match out {
            Some(s) => window_name(bytes@.subrange(at as int, at + NAME_WINDOW)) == Some(s@),
            None => window_name(bytes@.subrange(at as int, at + NAME_WINDOW)) is None,
        },
{
    let _len: usize = bytes.len();
    let window = slice_subrange(bytes, at, at + NAME_WINDOW);
    let mut n: usize = 0;
    while n < NAME_WINDOW && window[n] != 0
        invariant
            n <= NAME_WINDOW,
            window@.len() == NAME_WINDOW,
            forall|i: int| 0 <= i < n ==> window@[i] != 0,
        decreases NAME_WINDOW - n,
    {
        n += 1;
    }
    proof {
        lemma_first_nul_is(window@, n as int);
    }
    let text = slice_subrange(window, 0, n);
    string_from_utf8(text)
}

} // verus!
