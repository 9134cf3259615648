use mayuri::errors::{HandshakeFailureError, URIError, WebSocketError};
use mayuri::handshake::{
    check_handshake_response, check_handshake_text, generate_security_key, generate_valid_accept,
    get_handshake_payload, split_crlf, validate_accept, HandshakeHeaders,
};
use mayuri::utils::get_uri;

const SAMPLE_KEY: &str = "dGhlIHNhbXBsZSBub25jZQ==";
const SAMPLE_ACCEPT: &str = "s3pPLMBiTxaQ9kYGzzhZRbK+xOo=";

fn response_with_accept(accept: &str) -> String {
    format!(
        "HTTP/1.1 101 Switching Protocols\r\nUpgrade: websocket\r\nConnection: Upgrade\r\nSec-WebSocket-Accept: {accept}\r\n\r\n"
    )
}

#[test]
fn accept_key_of_the_rfc_sample() {
    assert_eq!(generate_valid_accept(SAMPLE_KEY.to_string()), SAMPLE_ACCEPT);
    assert!(validate_accept(SAMPLE_ACCEPT, SAMPLE_KEY.to_string()).is_ok());
}

#[test]
fn accept_key_single_bit_change_fails_validation() {
    let good = SAMPLE_ACCEPT.as_bytes();
    for i in 0..good.len() {
        for bit in 0..7 {
            let mut bad = good.to_vec();
            bad[i] ^= 1 << bit;
            let bad = String::from_utf8(bad).unwrap();
            assert_eq!(
                validate_accept(&bad, SAMPLE_KEY.to_string()),
                Err(HandshakeFailureError::ValidationError)
            );
        }
    }
}

#[test]
fn security_key_is_base64_of_sixteen_bytes() {
    let key = generate_security_key();
    assert_eq!(key.len(), 24);
    assert_eq!(generate_valid_accept(key.clone()).len(), 28);
    assert!(key.ends_with("=="));
    assert!(key[..22]
        .chars()
        .all(|c| c.is_ascii_alphanumeric() || c == '+' || c == '/'));
}

#[test]
fn request_for_secure_uri_has_target_and_host_without_port() {
    let uri = get_uri("wss://example/foo?x=1".to_string()).unwrap();
    let req = get_handshake_payload(&uri, "abc").unwrap();
    assert_eq!(
        req,
        "GET /foo?x=1 HTTP/1.1\r\nHost: example\r\nConnection: Upgrade\r\nUpgrade: websocket\r\nSec-WebSocket-Key: abc\r\nSec-WebSocket-Version: 13\r\n\r\n"
    );
    assert!(!req.contains("443"));
    assert!(!req.contains("80"));
}

#[test]
fn request_for_empty_path_targets_root() {
    let uri = get_uri("ws://example.com".to_string()).unwrap();
    let req = get_handshake_payload(&uri, "k").unwrap();
    assert!(req.starts_with("GET / HTTP/1.1\r\nHost: example.com\r\n"));
}

#[test]
fn request_without_authority_is_incomplete() {
    let mut uri = get_uri("ws://example.com/".to_string()).unwrap();
    uri.authority = None;
    assert!(matches!(
        get_handshake_payload(&uri, "k"),
        Err(URIError::IncompleteURIError(_))
    ));
}

#[test]
fn split_crlf_cuts_at_each_separator() {
    assert_eq!(split_crlf(""), vec![""]);
    assert_eq!(split_crlf("a\r\nb"), vec!["a", "b"]);
    assert_eq!(split_crlf("a\r\n\r\n"), vec!["a", "", ""]);
    assert_eq!(split_crlf("\r\r\nx\ny"), vec!["\r", "x\ny"]);
}

#[test]
fn headers_are_lowercased_trimmed_and_later_ones_win() {
    let text = "HTTP/1.1 101 Switching Protocols\r\n  X-Thing : first \r\nx-thing:  second\r\nno colon here\r\nA:b:c\r\n";
    let h = HandshakeHeaders::new(text).unwrap();
    assert_eq!(h.http_version, "HTTP/1.1");
    assert_eq!(h.http_status_code, "101");
    assert_eq!(h.http_status_text, "Switching Protocols");
    assert_eq!(
        h.headers,
        vec![
            ("x-thing".to_string(), "first".to_string()),
            ("x-thing".to_string(), "second".to_string()),
            ("a".to_string(), "b:c".to_string()),
        ]
    );
    assert_eq!(h.get("x-thing"), Some("second".to_string()));
    assert_eq!(h.get("a"), Some("b:c".to_string()));
    assert_eq!(h.get("X-Thing"), None);
}

#[test]
fn bad_status_line_is_a_header_error() {
    let text = "HTTP/1.1 200 OK\r\nSec-WebSocket-Accept: x\r\n\r\n";
    assert!(matches!(
        HandshakeHeaders::new(text),
        Err(WebSocketError::Handshake(HandshakeFailureError::HeaderError(_)))
    ));
    assert!(matches!(
        check_handshake_text(text, SAMPLE_KEY),
        Err(WebSocketError::Handshake(HandshakeFailureError::HeaderError(_)))
    ));
}

#[test]
fn missing_accept_header_is_a_header_error() {
    let text = "HTTP/1.1 101 Switching Protocols\r\nUpgrade: websocket\r\n\r\n";
    assert!(matches!(
        check_handshake_text(text, SAMPLE_KEY),
        Err(WebSocketError::Handshake(HandshakeFailureError::HeaderError(_)))
    ));
}

#[test]
fn valid_response_is_accepted() {
    let text = response_with_accept(SAMPLE_ACCEPT);
    let h = check_handshake_text(&text, SAMPLE_KEY).unwrap();
    assert_eq!(h.get("sec-websocket-accept"), Some(SAMPLE_ACCEPT.to_string()));
    assert_eq!(h.get("upgrade"), Some("websocket".to_string()));
}

#[test]
fn wrong_accept_is_a_validation_error() {
    let text = response_with_accept("s3pPLMBiTxaQ9kYGzzhZRbK+xOp=");
    assert!(matches!(
        check_handshake_text(&text, SAMPLE_KEY),
        Err(WebSocketError::Handshake(HandshakeFailureError::ValidationError))
    ));
}

#[test]
fn short_response_in_zero_padded_buffer_is_accepted() {
    let text = response_with_accept(SAMPLE_ACCEPT);
    let mut buf = [0u8; 4096];
    buf[..text.len()].copy_from_slice(text.as_bytes());
    assert!(check_handshake_response(&buf, SAMPLE_KEY).is_ok());
}

#[test]
fn zero_padding_of_any_length_keeps_the_verdict() {
    let good = response_with_accept(SAMPLE_ACCEPT);
    let bad = response_with_accept("s3pPLMBiTxaQ9kYGzzhZRbK+xOp=");
    for pad in [0usize, 1, 100, 4096 - good.len()] {
        let mut g = good.clone().into_bytes();
        g.resize(good.len() + pad, 0);
        assert!(check_handshake_response(&g, SAMPLE_KEY).is_ok(), "pad {pad}");
        let mut b = bad.clone().into_bytes();
        b.resize(bad.len() + pad, 0);
        assert!(matches!(
            check_handshake_response(&b, SAMPLE_KEY),
            Err(WebSocketError::Handshake(HandshakeFailureError::ValidationError))
        ));
    }
}

#[test]
fn invalid_utf8_in_response_is_replaced() {
    let mut bytes = response_with_accept(SAMPLE_ACCEPT).into_bytes();
    bytes.extend_from_slice(b"X-Odd: \xFF\xFE\r\n");
    let h = check_handshake_response(&bytes, SAMPLE_KEY).unwrap();
    assert_eq!(h.get("x-odd"), Some("\u{FFFD}\u{FFFD}".to_string()));
}
