use atlas::utils::hex_string;
use atlas::web::{
    decode_frame, encode_frame, generate_accept_key, get_content_type, is_websocket_upgrade,
    not_found_response, ok_response, request_path, served_file, upgrade_response, websocket_key,
    WebSignal,
};

#[test]
fn hex_string_is_lower_case_pairs() {
    assert_eq!(hex_string(&[]), "");
    assert_eq!(hex_string(&[0x00, 0x0f, 0xa5, 0xff]), "000fa5ff");
    assert_eq!(hex_string(&[0x12, 0x34, 0x56, 0x78, 0x9a, 0xbc, 0xde, 0xf0]), "123456789abcdef0");
}

#[test]
fn accept_key_of_the_rfc_example() {
    assert_eq!(
        generate_accept_key("dGhlIHNhbXBsZSBub25jZQ=="),
        Some("s3pPLMBiTxaQ9kYGzzhZRbK+xOo=".to_string())
    );
    assert_ne!(generate_accept_key(""), generate_accept_key("x"));
}

#[test]
fn masked_frame_is_unmasked() {
    let mask = [0x37u8, 0xfa, 0x21, 0x3d];
    let text = b"Hello";
    let mut frame = vec![0x81, 0x80 | 5];
    frame.extend_from_slice(&mask);
    for (i, b) in text.iter().enumerate() {
        frame.push(b ^ mask[i % 4]);
    }
    assert_eq!(decode_frame(&frame), Some(b"Hello".to_vec()));
    // Bytes behind the payload are not looked at.
    frame.push(0xEE);
    assert_eq!(decode_frame(&frame), Some(b"Hello".to_vec()));
}

#[test]
fn masked_frame_with_two_byte_length() {
    let mask = [1u8, 2, 3, 4];
    let payload: Vec<u8> = (0..300u32).map(|i| (i % 251) as u8).collect();
    let mut frame = vec![0x81, 0x80 | 126, 0x01, 0x2C];
    frame.extend_from_slice(&mask);
    for (i, b) in payload.iter().enumerate() {
        frame.push(b ^ mask[i % 4]);
    }
    assert_eq!(decode_frame(&frame), Some(payload));
}

#[test]
fn frames_that_are_not_read() {
    assert_eq!(decode_frame(&[]), None);
    assert_eq!(decode_frame(&[0x81]), None);
    // Not masked.
    assert_eq!(decode_frame(&[0x81, 0x02, b'h', b'i']), None);
    // Masked, but shorter than announced.
    assert_eq!(decode_frame(&[0x81, 0x82, 1, 2, 3, 4, 9]), None);
    assert_eq!(decode_frame(&[0x81, 0x80 | 126, 0]), None);
    assert_eq!(decode_frame(&[0x81, 0x80, 1, 2, 3]), None);
    // Masked and empty.
    assert_eq!(decode_frame(&[0x81, 0x80, 1, 2, 3, 4]), Some(vec![]));
}

#[test]
fn text_frames() {
    assert_eq!(encode_frame(b""), vec![0x81, 0]);
    assert_eq!(encode_frame(b"hi"), vec![0x81, 2, b'h', b'i']);
    let payload = vec![7u8; 125];
    let frame = encode_frame(&payload);
    assert_eq!(&frame[..2], &[0x81, 125]);
    assert_eq!(frame.len(), 127);
    let payload = vec![7u8; 126];
    let frame = encode_frame(&payload);
    assert_eq!(&frame[..4], &[0x81, 126, 0, 126]);
    assert_eq!(frame.len(), 130);
    let payload = vec![7u8; 0x1234];
    let frame = encode_frame(&payload);
    assert_eq!(&frame[..4], &[0x81, 126, 0x12, 0x34]);
    let payload = vec![7u8; 0x1_0005];
    let frame = encode_frame(&payload);
    assert_eq!(&frame[..4], &[0x81, 126, 0x00, 0x05]);
    assert_eq!(frame.len(), 4 + 0x1_0005);
}

#[test]
fn content_types() {
    assert_eq!(get_content_type("a.txt"), "text/plain");
    assert_eq!(get_content_type("/web/dist/index.html"), "text/html");
    assert_eq!(get_content_type("app.min.js"), "application/javascript");
    assert_eq!(get_content_type("s.css"), "text/css");
    assert_eq!(get_content_type("i.svg"), "image/svg+xml");
    assert_eq!(get_content_type("d.json"), "application/json");
    assert_eq!(get_content_type("p.png"), "image/png");
    assert_eq!(get_content_type("p.jpg"), "image/jpeg");
    assert_eq!(get_content_type("p.jpeg"), "image/jpeg");
    assert_eq!(get_content_type("p.gif"), "image/gif");
    assert_eq!(get_content_type("favicon.ico"), "image/x-icon");
    assert_eq!(get_content_type("f.woff"), "font/woff");
    assert_eq!(get_content_type("f.woff2"), "font/woff2");
    assert_eq!(get_content_type("f.ttf"), "font/ttf");
    assert_eq!(get_content_type("p.webp"), "image/webp");
    assert_eq!(get_content_type("archive.tar.gz"), "application/octet-stream");
    assert_eq!(get_content_type("README"), "application/octet-stream");
    assert_eq!(get_content_type(""), "application/octet-stream");
    assert_eq!(get_content_type("trailing."), "application/octet-stream");
    // Without a full stop the whole path is the extension.
    assert_eq!(get_content_type("html"), "text/html");
    assert_eq!(get_content_type("a.HTML"), "application/octet-stream");
}

#[test]
fn web_signals_carry_the_connection() {
    assert_eq!(WebSignal::GetChain { client_id: 3 }, WebSignal::GetChain { client_id: 3 });
    assert_ne!(WebSignal::GetChain { client_id: 3 }, WebSignal::GetPeers { client_id: 3 });
}

#[test]
fn request_path_is_the_second_word() {
    assert_eq!(request_path(b"GET / HTTP/1.1\r\nHost: x\r\n\r\n"), Some(b"/".to_vec()));
    assert_eq!(
        request_path(b"GET /assets/app.js HTTP/1.1\r\n\r\n"),
        Some(b"/assets/app.js".to_vec())
    );
    assert_eq!(request_path(b"  GET \t  /a   HTTP/1.1"), Some(b"/a".to_vec()));
    assert_eq!(request_path(b"GET /a"), Some(b"/a".to_vec()));
    assert_eq!(request_path(b"GET /a\r\nsecond line"), Some(b"/a".to_vec()));
    assert_eq!(request_path(b"GET\n/a HTTP/1.1"), None);
    assert_eq!(request_path(b"GET"), None);
    assert_eq!(request_path(b"GET   \r\n"), None);
    assert_eq!(request_path(b""), None);
    assert_eq!(request_path(b"\n\nGET / HTTP/1.1"), None);
}

#[test]
fn served_file_for_a_path() {
    assert_eq!(served_file(b"/"), b"index.html".to_vec());
    assert_eq!(served_file(b"/assets/app.js"), b"assets/app.js".to_vec());
    assert_eq!(served_file(b"x"), b"".to_vec());
    assert_eq!(served_file(b"//"), b"/".to_vec());
}

#[test]
fn responses() {
    assert_eq!(
        ok_response("text/html", b"<p>hi</p>"),
        b"HTTP/1.1 200 OK\r\nContent-Type: text/html\r\nContent-Length: 9\r\n\r\n<p>hi</p>".to_vec()
    );
    assert_eq!(
        ok_response("image/png", &[]),
        b"HTTP/1.1 200 OK\r\nContent-Type: image/png\r\nContent-Length: 0\r\n\r\n".to_vec()
    );
    let long = vec![b'x'; 1234];
    let response = ok_response("text/plain", &long);
    assert!(response.starts_with(
        b"HTTP/1.1 200 OK\r\nContent-Type: text/plain\r\nContent-Length: 1234\r\n\r\nxxx"
    ));
    assert_eq!(
        not_found_response(),
        b"HTTP/1.1 404 Not Found\r\nContent-Length: 9\r\n\r\nNot Found".to_vec()
    );
    assert_eq!(
        upgrade_response("s3pPLMBiTxaQ9kYGzzhZRbK+xOo="),
        b"HTTP/1.1 101 Switching Protocols\r\nUpgrade: websocket\r\nConnection: Upgrade\r\nSec-WebSocket-Accept: s3pPLMBiTxaQ9kYGzzhZRbK+xOo=\r\n\r\n".to_vec()
    );
}

#[test]
fn upgrade_requests_are_told_apart() {
    assert!(is_websocket_upgrade(b"GET / HTTP/1.1\r\nUpgrade: websocket\r\n\r\n"));
    assert!(is_websocket_upgrade(b"Upgrade: websocket"));
    assert!(is_websocket_upgrade(b"xUpgrade: websocket"));
    assert!(!is_websocket_upgrade(b"GET / HTTP/1.1\r\nUpgrade: h2c\r\n\r\n"));
    assert!(!is_websocket_upgrade(b"upgrade: websocket"));
    assert!(!is_websocket_upgrade(b"Upgrade: websocke"));
    assert!(!is_websocket_upgrade(b""));
}

#[test]
fn websocket_key_is_read_from_its_header() {
    let request = b"GET /chat HTTP/1.1\r\nHost: example.com\r\nUpgrade: websocket\r\nSec-WebSocket-Key: dGhlIHNhbXBsZSBub25jZQ==\r\nSec-WebSocket-Version: 13\r\n\r\n";
    assert_eq!(websocket_key(request), Some(b"dGhlIHNhbXBsZSBub25jZQ==".to_vec()));
    let key = websocket_key(request).unwrap();
    assert_eq!(
        generate_accept_key(std::str::from_utf8(&key).unwrap()),
        Some("s3pPLMBiTxaQ9kYGzzhZRbK+xOo=".to_string())
    );
    assert_eq!(websocket_key(b"Sec-WebSocket-Key:   abc  \t\r\n"), Some(b"abc".to_vec()));
    assert_eq!(websocket_key(b"Sec-WebSocket-Key: abc"), Some(b"abc".to_vec()));
    assert_eq!(websocket_key(b"Sec-WebSocket-Key: a: b"), Some(b"a".to_vec()));
    assert_eq!(websocket_key(b"Sec-WebSocket-Key: \r\n"), Some(b"".to_vec()));
    assert_eq!(websocket_key(b"Sec-WebSocket-Key:x: y\n"), Some(b"y".to_vec()));
    // The first line that opens with the header's name counts.
    assert_eq!(
        websocket_key(b"A: b\nSec-WebSocket-Key: one\nSec-WebSocket-Key: two\n"),
        Some(b"one".to_vec())
    );
    assert_eq!(websocket_key(b"Sec-WebSocket-Key:abc\r\n"), None);
    assert_eq!(websocket_key(b"X-Sec-WebSocket-Key: abc\r\n"), None);
    assert_eq!(websocket_key(b"GET / HTTP/1.1\r\n\r\n"), None);
    assert_eq!(websocket_key(b""), None);
}
