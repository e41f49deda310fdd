//! What the dashboard's server computes: the WebSocket handshake key, the
//! framing of messages, and the content type of a file.

use vstd::prelude::*;
use vstd::slice::*;
use vstd::string::*;
use vstd::utf8::*;
use crate::crypto::MAX_DIGEST_INPUT;
use crate::transaction::{decimal, put_decimal};
use crate::wire::put_bytes;

verus! {

/// What a dashboard asks of the node, and for which connection.
#[derive(Debug, Clone, Copy, PartialEq, Eq)]
pub enum WebSignal {
    GetChain { client_id: usize },
    GetPeers { client_id: usize },
}

/// The SHA-1 digest of a byte string.
pub uninterp spec fn sha1(data: Seq<u8>) -> Seq<u8>;

/// The base64 text of a byte string, in the standard alphabet with padding.
pub uninterp spec fn base64_standard(data: Seq<u8>) -> Seq<char>;

/// Longest input that is handed to the base64 encoder.
pub const MAX_BASE64_INPUT: usize = 0x1000_0000;

/// Hashes `data` with `sha1::Sha1`: `new`, `update`, `finalize`.
///
/// Trusted: the 20 bytes returned are the SHA-1 digest of `data`, the same
/// for the same input. The hasher counts the input in bits in a `u64`, so
/// inputs that overflow the count are left out.
#[verifier::external_body]
fn sha1_digest(data: &[u8]) -> (out: [u8; 20])
    requires
        data@.len() < MAX_DIGEST_INPUT,
    ensures
        out@ == sha1(data@),
{
    let mut hasher = <sha1::Sha1 as sha1::Digest>::new();
    sha1::Digest::update(&mut hasher, data);
    let digest = sha1::Digest::finalize(hasher);
    let mut out = [0u8; 20];
    out.copy_from_slice(digest.as_slice());
    out
}

/// Calls `base64::Engine::encode` on
/// `base64::engine::general_purpose::STANDARD`.
///
/// Trusted: the text returned is the base64 encoding of `data`, the same
/// for the same input. The encoder panics when the length of its output
/// overflows `usize`, so long inputs are left out.
#[verifier::external_body]
fn base64_encode(data: &[u8]) -> (out: String)
    requires
        data@.len() <= MAX_BASE64_INPUT,
    ensures
        out@ == base64_standard(data@),
{
    base64::Engine::encode(&base64::engine::general_purpose::STANDARD, data)
}

/// The text that a WebSocket server hashes behind the client's key.
pub open spec fn websocket_guid() -> Seq<char> {
    "258EAFA5-E914-47DA-95CA-C5AB0DC85B11"@
}

/// The value of `Sec-WebSocket-Accept` for a client's key: the base64 text
/// of the SHA-1 digest of the key followed by the WebSocket GUID.
pub open spec fn accept_key(key: Seq<char>) -> Seq<char> {
    base64_standard(sha1(encode_utf8(key) + encode_utf8(websocket_guid())))
}

/// Computes the value of `Sec-WebSocket-Accept` for a client's key.
/// `None` means that the key is too long for the digest.
pub fn generate_accept_key(key: &str) -> (accept: Option<String>)
    ensures
        accept is Some <==> encode_utf8(key@).len() + encode_utf8(websocket_guid()).len()
            < MAX_DIGEST_INPUT,
        accept matches Some(text) ==> text@ == accept_key(key@),
{
    let guid = "258EAFA5-E914-47DA-95CA-C5AB0DC85B11";
    let mut data: Vec<u8> = Vec::new();
    put_bytes(&mut data, key.as_bytes());
    put_bytes(&mut data, guid.as_bytes());
    if (data.len() as u64) < MAX_DIGEST_INPUT {
        let digest = sha1_digest(data.as_slice());
        Some(base64_encode(digest.as_slice()))
    } else {
        None
    }
}

/// The length that the second byte of a frame gives, or announces.
pub open spec fn short_length(second: u8) -> int {
    (second & 0x7F) as int
}

/// Whether the second byte of a frame says that the payload is masked.
pub open spec fn is_masked(second: u8) -> bool {
    second & 0x80 != 0
}

/// Where the mask of a frame begins: behind the two-byte length where the
/// short length is 126, and behind the second byte otherwise.
pub open spec fn mask_offset(frame: Seq<u8>) -> int {
    if short_length(frame[1]) == 126 {
        4
    } else {
        2
    }
}

/// The length of a frame's payload: the short length, or, where that is
/// 126, the big-endian number in the two bytes behind it.
pub open spec fn payload_length(frame: Seq<u8>) -> int {
    if short_length(frame[1]) == 126 {
        frame[2] as int * 256 + frame[3] as int
    } else {
        short_length(frame[1])
    }
}

/// The frame holds all that its first bytes announce, and is masked.
pub open spec fn frame_is_whole(frame: Seq<u8>) -> bool {
    &&& frame.len() >= 2
    &&& is_masked(frame[1])
    &&& (short_length(frame[1]) == 126 ==> frame.len() >= 4)
    &&& frame.len() >= mask_offset(frame) + 4 + payload_length(frame)
}

/// The payload of a masked frame: each byte behind the mask, with the byte
/// of the four-byte mask that falls to it taken off.
pub open spec fn unmasked(frame: Seq<u8>) -> Seq<u8> {
    Seq::new(
        payload_length(frame) as nat,
        |i: int| frame[mask_offset(frame) + 4 + i] ^ frame[mask_offset(frame) + i % 4],
    )
}

/// Reads the payload of a WebSocket frame that a client sent.
///
/// Returns `None` for a frame that is not masked, and for one that is
/// shorter than its first bytes announce.
pub fn decode_frame(buffer: &[u8]) -> (payload: Option<Vec<u8>>)
    ensures
        match payload {
            Some(bytes) => frame_is_whole(buffer@) && bytes@ == unmasked(buffer@),
            None => !frame_is_whole(buffer@),
        },
{
    let len: usize = buffer.len();
    if len < 2 {
        return None;
    }
    let second: u8 = buffer[1];
    let masked = (second & 0x80) != 0;
    let short: u8 = second & 0x7F;
    assert(short <= 127) by (bit_vector)
        requires
            short == second & 0x7F,
    ;
    if !masked {
        return None;
    }
    let mut payload_len: usize = short as usize;
    let mut offset: usize = 2;
    if short == 126 {
        if len < 4 {
            return None;
        }
        payload_len = (buffer[2] as usize) * 256 + (buffer[3] as usize);
        offset = 4;
    }
    if len - offset < 4 || len - offset - 4 < payload_len {
        return None;
    }
    let mut bytes: Vec<u8> = Vec::new();
    let mut i: usize = 0;
    while i < payload_len
        invariant
            i <= payload_len,
            len == buffer@.len(),
            offset == mask_offset(buffer@),
            payload_len == payload_length(buffer@),
            offset + 4 + payload_len <= len,
            bytes@.len() == i,
            forall|k: int| 0 <= k < i ==> bytes@[k] == unmasked(buffer@)[k],
        decreases payload_len - i,
    {
        bytes.push(buffer[offset + 4 + i] ^ buffer[offset + i % 4]);
        i += 1;
    }
    assert(bytes@ =~= unmasked(buffer@));
    Some(bytes)
}

/// The low 16 bits of a payload's length.
pub open spec fn long_length(len: nat) -> int {
    len as int % 0x1_0000
}

/// A text frame that carries `payload`: the byte `0x81`, the length, the
/// payload. A length below 126 takes one byte. A longer one is announced
/// by 126 and takes two more, big-endian; of a length above 65535 only the
/// low 16 bits are written.
pub open spec fn framed(payload: Seq<u8>) -> Seq<u8> {
    if payload.len() < 126 {
        seq![0x81u8, payload.len() as u8] + payload
    } else {
        seq![
            0x81u8,
            126u8,
            (long_length(payload.len()) / 256) as u8,
            (long_length(payload.len()) % 256) as u8,
        ] + payload
    }
}

/// Frames `payload` as a WebSocket text message.
pub fn encode_frame(payload: &[u8]) -> (frame: Vec<u8>)
    ensures
        frame@ == framed(payload@),
{
    let len: usize = payload.len();
    let mut frame: Vec<u8> = Vec::new();
    frame.push(0x81);
    if len < 126 {
        frame.push(len as u8);
    } else {
        let low: usize = len % 0x1_0000;
        frame.push(126);
        frame.push((low / 256) as u8);
        frame.push((low % 256) as u8);
    }
    put_bytes(&mut frame, payload);
    assert(frame@ =~= framed(payload@));
    frame
}

/// Index behind the last full stop of `path`, or 0 if it has none.
pub open spec fn extension_start(path: Seq<u8>) -> int
    decreases path.len(),
{
    if path.len() == 0 {
        0
    } else if path.last() == 46 {
        path.len() as int
    } else {
        extension_start(path.drop_last())
    }
}

/// What follows the last full stop of `path`; all of it if it has none.
pub open spec fn extension(path: Seq<u8>) -> Seq<u8> {
    path.skip(extension_start(path))
}

/// The content type that goes with a file extension.
pub open spec fn content_type_of(ext: Seq<u8>) -> Seq<char> {
    if ext == encode_utf8("txt"@) {
        "text/plain"@
    } else if ext == encode_utf8("html"@) {
        "text/html"@
    } else if ext == encode_utf8("js"@) {
        "application/javascript"@
    } else if ext == encode_utf8("css"@) {
        "text/css"@
    } else if ext == encode_utf8("svg"@) {
        "image/svg+xml"@
    } else if ext == encode_utf8("json"@) {
        "application/json"@
    } else if ext == encode_utf8("png"@) {
        "image/png"@
    } else if ext == encode_utf8("jpg"@) || ext == encode_utf8("jpeg"@) {
        "image/jpeg"@
    } else if ext == encode_utf8("gif"@) {
        "image/gif"@
    } else if ext == encode_utf8("ico"@) {
        "image/x-icon"@
    } else if ext == encode_utf8("woff"@) {
        "font/woff"@
    } else if ext == encode_utf8("woff2"@) {
        "font/woff2"@
    } else if ext == encode_utf8("ttf"@) {
        "font/ttf"@
    } else if ext == encode_utf8("webp"@) {
        "image/webp"@
    } else {
        "application/octet-stream"@
    }
}

/// Whether `bytes` spell `text`.
fn spells(bytes: &[u8], text: &str) -> (same: bool)
    ensures
        same == (bytes@ == encode_utf8(text@)),
{
    let other = text.as_bytes();
    if bytes.len() != other.len() {
        return false;
    }
    let mut i: usize = 0;
    while i < bytes.len()
        invariant
            i <= bytes@.len(),
            bytes@.len() == other@.len(),
            other@ == encode_utf8(text@),
            forall|k: int| 0 <= k < i ==> bytes@[k] == other@[k],
        decreases bytes@.len() - i,
    {
        if bytes[i] != other[i] {
            return false;
        }
        i += 1;
    }
    assert(bytes@ =~= other@);
    true
}

/// The content type to announce for the file at `path`, by what follows
/// the last full stop of the path.
pub fn get_content_type(path: &str) -> (content_type: &'static str)
    ensures
        content_type@ == content_type_of(extension(encode_utf8(path@))),
{
    let bytes = path.as_bytes();
    let mut start: usize = bytes.len();
    assert(bytes@.take(start as int) =~= bytes@);
    while start > 0 && bytes[start - 1] != 46
        invariant
            start <= bytes@.len(),
            extension_start(bytes@) == extension_start(bytes@.take(start as int)),
        decreases start,
    {
        proof {
            assert(bytes@.take(start as int).drop_last() =~= bytes@.take(start - 1));
        }
        start -= 1;
    }
    proof {
        if start > 0 {
            assert(bytes@.take(start as int).last() == 46);
        }
    }
    let ext = slice_subrange(bytes, start, bytes.len());
    assert(ext@ =~= extension(bytes@));
    if spells(ext, "txt") {
        "text/plain"
    } else if spells(ext, "html") {
        "text/html"
    } else if spells(ext, "js") {
        "application/javascript"
    } else if spells(ext, "css") {
        "text/css"
    } else if spells(ext, "svg") {
        "image/svg+xml"
    } else if spells(ext, "json") {
        "application/json"
    } else if spells(ext, "png") {
        "image/png"
    } else if spells(ext, "jpg") || spells(ext, "jpeg") {
        "image/jpeg"
    } else if spells(ext, "gif") {
        "image/gif"
    } else if spells(ext, "ico") {
        "image/x-icon"
    } else if spells(ext, "woff") {
        "font/woff"
    } else if spells(ext, "woff2") {
        "font/woff2"
    } else if spells(ext, "ttf") {
        "font/ttf"
    } else if spells(ext, "webp") {
        "image/webp"
    } else {
        "application/octet-stream"
    }
}

/// White space in a request: space, tab, line feed, vertical tab, form
/// feed, carriage return.
pub open spec fn is_space(b: u8) -> bool {
    b == 32 || (9 <= b && b <= 13)
}

/// The test for a byte that is white space.
pub open spec fn space() -> spec_fn(u8) -> bool {
    |b: u8| is_space(b)
}

/// The test for a byte that is no white space.
pub open spec fn no_space() -> spec_fn(u8) -> bool {
    |b: u8| !is_space(b)
}

/// The test for a line feed.
pub open spec fn line_feed() -> spec_fn(u8) -> bool {
    |b: u8| b == 10
}

/// Index of the first byte of `s` at or after `from` that meets `stop`, or
/// `s.len()` if there is none.
pub open spec fn find_from(s: Seq<u8>, from: int, stop: spec_fn(u8) -> bool) -> int
    decreases s.len() - from,
{
    if from < 0 || from >= s.len() {
        s.len() as int
    } else if stop(s[from]) {
        from
    } else {
        find_from(s, from + 1, stop)
    }
}

/// `n` is the index that `find_from` gives: no byte from `from` up to it
/// meets `stop`, and the byte at it does, or it is the end.
pub proof fn lemma_find_from(s: Seq<u8>, from: int, stop: spec_fn(u8) -> bool, n: int)
    requires
        0 <= from <= n <= s.len(),
        forall|i: int| from <= i < n ==> !stop(#[trigger] s[i]),
        n < s.len() ==> stop(s[n]),
    ensures
        find_from(s, from, stop) == n,
    decreases n - from,
{
    if from < n {
        assert(!stop(s[from]));
        lemma_find_from(s, from + 1, stop, n);
    }
}

/// Scans `s` from `from` to the first byte that is white space, if
/// `to_space`, or that is none, if not.
fn scan(s: &[u8], from: usize, to_space: bool) -> (at: usize)
    requires
        from <= s@.len(),
    ensures
        from <= at <= s@.len(),
        at == find_from(s@, from as int, if to_space { space() } else { no_space() }),
{
    let len: usize = s.len();
    let mut at: usize = from;
    while at < len && (s[at] == 32 || (9 <= s[at] && s[at] <= 13)) != to_space
        invariant
            from <= at <= len,
            len == s@.len(),
            forall|i: int| from <= i < at ==> is_space(#[trigger] s@[i]) != to_space,
        decreases len - at,
    {
        at += 1;
    }
    proof {
        lemma_find_from(s@, from as int, if to_space { space() } else { no_space() }, at as int);
    }
    at
}

/// The first line of a request: what stands before its first line feed.
pub open spec fn first_line(request: Seq<u8>) -> Seq<u8> {
    request.take(find_from(request, 0, line_feed()))
}

/// Where the second word of `line` begins.
pub open spec fn target_start(line: Seq<u8>) -> int {
    find_from(
        line,
        find_from(line, find_from(line, 0, no_space()), space()),
        no_space(),
    )
}

/// The second word of the first line of a request, which in an HTTP
/// request is the path that is asked for.
pub open spec fn request_path_of(request: Seq<u8>) -> Option<Seq<u8>> {
    let line = first_line(request);
    let start = target_start(line);
    if start < line.len() {
        Some(line.subrange(start, find_from(line, start, space())))
    } else {
        None
    }
}

/// Reads the path that an HTTP request asks for: the second word of its
/// first line. `None` if the line has fewer than two words.
pub fn request_path(request: &[u8]) -> (path: Option<Vec<u8>>)
    ensures
        match path {
            Some(p) => request_path_of(request@) == Some(p@),
            None => request_path_of(request@) is None,
        },
{
    let len: usize = request.len();
    let mut end: usize = 0;
    while end < len && request[end] != 10
        invariant
            end <= len,
            len == request@.len(),
            forall|i: int| 0 <= i < end ==> (#[trigger] request@[i]) != 10,
        decreases len - end,
    {
        end += 1;
    }
    proof {
        lemma_find_from(request@, 0, line_feed(), end as int);
    }
    let line = slice_subrange(request, 0, end);
    let word = scan(line, 0, false);
    let gap = scan(line, word, true);
    let start = scan(line, gap, false);
    if start < line.len() {
        let stop = scan(line, start, true);
        Some(slice_to_vec(slice_subrange(line, start, stop)))
    } else {
        None
    }
}

/// The file that a path asks for, below the directory that is served:
/// `index.html` for the path `/`, and the path without its first byte for
/// any other.
pub open spec fn served_file_of(path: Seq<u8>) -> Seq<u8> {
    if path == encode_utf8("/"@) {
        encode_utf8("index.html"@)
    } else {
        path.skip(1)
    }
}

/// Names the file that a path asks for, below the directory that is
/// served.
pub fn served_file(path: &[u8]) -> (file: Vec<u8>)
    requires
        path@.len() >= 1,
    ensures
        file@ == served_file_of(path@),
{
    if spells(path, "/") {
        slice_to_vec("index.html".as_bytes())
    } else {
        let rest = slice_subrange(path, 1, path.len());
        assert(rest@ =~= path@.skip(1));
        slice_to_vec(rest)
    }
}

/// The head of the answer that carries a file.
pub open spec fn ok_header_of(content_type: Seq<char>, content_length: nat) -> Seq<u8> {
    encode_utf8("HTTP/1.1 200 OK\r\nContent-Type: "@) + encode_utf8(content_type) + encode_utf8(
        "\r\nContent-Length: "@,
    ) + decimal(content_length) + encode_utf8("\r\n\r\n"@)
}

/// The answer that carries a file of the given content type: status line,
/// content type, content length, an empty line, the content.
pub fn ok_response(content_type: &str, content: &[u8]) -> (response: Vec<u8>)
    ensures
        response@ == ok_header_of(content_type@, content@.len()) + content@,
{
    let mut response: Vec<u8> = Vec::new();
    put_bytes(&mut response, "HTTP/1.1 200 OK\r\nContent-Type: ".as_bytes());
    put_bytes(&mut response, content_type.as_bytes());
    put_bytes(&mut response, "\r\nContent-Length: ".as_bytes());
    put_decimal(&mut response, content.len() as u64);
    put_bytes(&mut response, "\r\n\r\n".as_bytes());
    put_bytes(&mut response, content);
    response
}

/// The answer for a file that is not there.
pub open spec fn not_found_of() -> Seq<u8> {
    encode_utf8("HTTP/1.1 404 Not Found\r\nContent-Length: 9\r\n\r\nNot Found"@)
}

/// The answer for a file that is not there.
pub fn not_found_response() -> (response: Vec<u8>)
    ensures
        response@ == not_found_of(),
{
    slice_to_vec("HTTP/1.1 404 Not Found\r\nContent-Length: 9\r\n\r\nNot Found".as_bytes())
}

/// The answer that accepts a WebSocket handshake.
pub open spec fn upgrade_response_of(accept: Seq<char>) -> Seq<u8> {
    encode_utf8(
        "HTTP/1.1 101 Switching Protocols\r\nUpgrade: websocket\r\nConnection: Upgrade\r\nSec-WebSocket-Accept: "@,
    ) + encode_utf8(accept) + encode_utf8("\r\n\r\n"@)
}

/// The answer that accepts a WebSocket handshake with the given
/// `Sec-WebSocket-Accept` value.
pub fn upgrade_response(accept: &str) -> (response: Vec<u8>)
    ensures
        response@ == upgrade_response_of(accept@),
{
    let mut response: Vec<u8> = Vec::new();
    put_bytes(
        &mut response,
        "HTTP/1.1 101 Switching Protocols\r\nUpgrade: websocket\r\nConnection: Upgrade\r\nSec-WebSocket-Accept: ".as_bytes(),
    );
    put_bytes(&mut response, accept.as_bytes());
    put_bytes(&mut response, "\r\n\r\n".as_bytes());
    response
}

/// `pattern` stands in `s` at `at`.
pub open spec fn stands_at(s: Seq<u8>, at: int, pattern: Seq<u8>) -> bool {
    0 <= at && at + pattern.len() <= s.len() && s.subrange(at, at + pattern.len()) == pattern
}

/// `pattern` stands somewhere in `s`.
pub open spec fn holds(s: Seq<u8>, pattern: Seq<u8>) -> bool {
    exists|at: int| #[trigger] stands_at(s, at, pattern)
}

/// Whether `pattern` stands in `s` at `at`.
fn matches_at(s: &[u8], at: usize, pattern: &[u8]) -> (yes: bool)
    ensures
        yes == stands_at(s@, at as int, pattern@),
{
    let n: usize = pattern.len();
    let len: usize = s.len();
    if at > len || len - at < n {
        return false;
    }
    let mut i: usize = 0;
    while i < n
        invariant
            i <= n,
            n == pattern@.len(),
            len == s@.len(),
            at + n <= len,
            forall|k: int| 0 <= k < i ==> s@[at + k] == pattern@[k],
        decreases n - i,
    {
        if s[at + i] != pattern[i] {
            assert(s@.subrange(at as int, at + n)[i as int] != pattern@[i as int]);
            return false;
        }
        i += 1;
    }
    assert(s@.subrange(at as int, at + n) =~= pattern@);
    true
}

/// Whether a request asks for the upgrade to a WebSocket: it holds the
/// text `Upgrade: websocket`.
pub fn is_websocket_upgrade(request: &[u8]) -> (yes: bool)
    ensures
        yes == holds(request@, encode_utf8("Upgrade: websocket"@)),
{
    let pattern = "Upgrade: websocket".as_bytes();
    let len: usize = request.len();
    let mut at: usize = 0;
    while at < len
        invariant
            at <= len,
            len == request@.len(),
            pattern@ == encode_utf8("Upgrade: websocket"@),
            forall|k: int| 0 <= k < at ==> !stands_at(request@, k, pattern@),
        decreases len - at,
    {
        if matches_at(request, at, pattern) {
            return true;
        }
        at += 1;
    }
    matches_at(request, len, pattern)
}

/// A colon and a space stand in `s` at `at`, before `end`.
pub open spec fn separator_at(s: Seq<u8>, at: int, end: int) -> bool {
    at + 1 < end && s[at] == 58 && s[at + 1] == 32
}

/// Index of the first colon followed by a space in `s` from `from` up to
/// `end`, or `end` if there is none.
pub open spec fn find_separator(s: Seq<u8>, from: int, end: int) -> int
    decreases end - from,
{
    if from >= end {
        end
    } else if separator_at(s, from, end) {
        from
    } else {
        find_separator(s, from + 1, end)
    }
}

/// `n` is the index that `find_separator` gives.
pub proof fn lemma_find_separator(s: Seq<u8>, from: int, end: int, n: int)
    requires
        from <= n <= end,
        forall|i: int| from <= i < n ==> !#[trigger] separator_at(s, i, end),
        n < end ==> separator_at(s, n, end),
    ensures
        find_separator(s, from, end) == n,
    decreases n - from,
{
    if from < n {
        assert(!separator_at(s, from, end));
        lemma_find_separator(s, from + 1, end, n);
    }
}

/// The end of what is left of `s` between `from` and `end` when the white
/// space at its end is taken off.
pub open spec fn trim_end(s: Seq<u8>, from: int, end: int) -> int
    decreases end - from,
{
    if end <= from {
        from
    } else if is_space(s[end - 1]) {
        trim_end(s, from, end - 1)
    } else {
        end
    }
}

/// Where the first line at or after the line start `from` begins that
/// opens with `Sec-WebSocket-Key:`.
pub open spec fn key_line(request: Seq<u8>, from: int) -> Option<int>
    decreases request.len() - from,
{
    if from < 0 || from >= request.len() {
        None
    } else if stands_at(request, from, encode_utf8("Sec-WebSocket-Key:"@)) {
        Some(from)
    } else {
        let end = find_from(request, from, line_feed());
        if end < from || end >= request.len() {
            None
        } else {
            key_line(request, end + 1)
        }
    }
}

/// The key that a WebSocket handshake carries: in the first line that
/// opens with `Sec-WebSocket-Key:`, what stands between the first colon
/// and space and the next, or the end of the line, without the white space
/// around it.
pub open spec fn websocket_key_of(request: Seq<u8>) -> Option<Seq<u8>> {
    match key_line(request, 0) {
        Some(start) => {
            let end = find_from(request, start, line_feed());
            let first = find_separator(request, start, end);
            if first >= end {
                None
            } else {
                let next = find_separator(request, first + 2, end);
                let from = find_from(request.take(next), first + 2, no_space());
                Some(request.subrange(from, trim_end(request, from, next)))
            }
        },
        None => None,
    }
}

/// The end of the line that begins at `from`.
fn line_end(request: &[u8], from: usize) -> (end: usize)
    requires
        from <= request@.len(),
    ensures
        from <= end <= request@.len(),
        end == find_from(request@, from as int, line_feed()),
{
    let len: usize = request.len();
    let mut end: usize = from;
    while end < len && request[end] != 10
        invariant
            from <= end <= len,
            len == request@.len(),
            forall|i: int| from <= i < end ==> (#[trigger] request@[i]) != 10,
        decreases len - end,
    {
        end += 1;
    }
    proof {
        lemma_find_from(request@, from as int, line_feed(), end as int);
    }
    end
}

/// The first colon followed by a space from `from` up to `end`.
fn separator(request: &[u8], from: usize, end: usize) -> (at: usize)
    requires
        from <= end <= request@.len(),
    ensures
        from <= at <= end,
        at == find_separator(request@, from as int, end as int),
        at < end ==> separator_at(request@, at as int, end as int),
{
    let mut at: usize = from;
    while at < end && !(end - at > 1 && request[at] == 58 && request[at + 1] == 32)
        invariant
            from <= at <= end,
            end <= request@.len(),
            forall|i: int| from <= i < at ==> !#[trigger] separator_at(request@, i, end as int),
        decreases end - at,
    {
        at += 1;
    }
    proof {
        lemma_find_separator(request@, from as int, end as int, at as int);
    }
    at
}

/// Reads the key of a WebSocket handshake. `None` if no line opens with
/// `Sec-WebSocket-Key:`, or if the first such line holds no colon followed
/// by a space.
pub fn websocket_key(request: &[u8]) -> (key: Option<Vec<u8>>)
    ensures
        match key {
            Some(k) => websocket_key_of(request@) == Some(k@),
            None => websocket_key_of(request@) is None,
        },
{
    let len: usize = request.len();
    let prefix = "Sec-WebSocket-Key:".as_bytes();
    let mut start: usize = 0;
    loop
        invariant
            start <= len,
            len == request@.len(),
            prefix@ == encode_utf8("Sec-WebSocket-Key:"@),
            key_line(request@, 0) == key_line(request@, start as int),
        ensures
            start < len,
            key_line(request@, 0) == Some(start as int),
        decreases len - start,
    {
        if start >= len {
            return None;
        }
        if matches_at(request, start, prefix) {
            break ;
        }
        let end = line_end(request, start);
        if end >= len {
            return None;
        }
        start = end + 1;
    }
    let end = line_end(request, start);
    let first = separator(request, start, end);
    if first >= end {
        return None;
    }
    let next = separator(request, first + 2, end);
    let line = slice_subrange(request, 0, next);
    assert(line@ =~= request@.take(next as int));
    let from = scan(line, first + 2, false);
    let mut stop: usize = next;
    while stop > from && (request[stop - 1] == 32 || (9 <= request[stop - 1] && request[stop - 1]
        <= 13))
        invariant
            from <= stop <= next,
            next <= request@.len(),
            trim_end(request@, from as int, next as int) == trim_end(
                request@,
                from as int,
                stop as int,
            ),
        decreases stop,
    {
        stop -= 1;
    }
    Some(slice_to_vec(slice_subrange(request, from, stop)))
}

} // verus!
