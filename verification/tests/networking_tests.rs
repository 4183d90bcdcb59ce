use esphub::handshake::{upgrade_answer, websocket_accept_response};
use esphub::networking::{
    decode_payload, read_step, request_action, request_from_buffer, HttpMethod,
    connection_step, ConnectionEvent, ConnectionStep, NetworkingError, ReadStep, RequestAction,
    RequestType, TcpError,
};

const UPGRADE_REQUEST: &str = "GET /ws HTTP/1.1\r\nHost: 10.0.2.1\r\nUpgrade: websocket\r\nConnection: Upgrade\r\nSec-WebSocket-Key: dGhlIHNhbXBsZSBub25jZQ==\r\nSec-WebSocket-Version: 13\r\n\r\n";

#[test]
fn get_request_is_standard_get() {
    let r = RequestType::parse("GET / HTTP/1.1\r\nHost: x\r\n\r\n");
    assert_eq!(r, Ok(RequestType::Standard(HttpMethod::Get)));
}

#[test]
fn post_request_is_standard_post() {
    let r = RequestType::parse("POST /cmd HTTP/1.1\r\n\r\n");
    assert_eq!(r, Ok(RequestType::Standard(HttpMethod::Post)));
}

#[test]
fn other_methods_are_unsupported() {
    assert_eq!(
        RequestType::parse("PUT / HTTP/1.1\r\n\r\n"),
        Err(NetworkingError::UnsupportedHTTPMethod)
    );
    assert_eq!(RequestType::parse(""), Err(NetworkingError::UnsupportedHTTPMethod));
    assert_eq!(RequestType::parse("GET"), Err(NetworkingError::UnsupportedHTTPMethod));
}

#[test]
fn upgrade_request_carries_the_key() {
    match RequestType::parse(UPGRADE_REQUEST) {
        Ok(RequestType::Upgrade(key)) => assert_eq!(key.as_str(), "dGhlIHNhbXBsZSBub25jZQ=="),
        other => panic!("unexpected {:?}", other),
    }
}

#[test]
fn try_from_agrees_with_parse() {
    let r = RequestType::try_from(UPGRADE_REQUEST);
    assert_eq!(r, RequestType::parse(UPGRADE_REQUEST));
    assert_eq!(
        RequestType::try_from("POST / HTTP/1.1\r\n\r\n"),
        Ok(RequestType::Standard(HttpMethod::Post))
    );
}

#[test]
fn upgrade_without_key_is_invalid() {
    let r = RequestType::parse("GET / HTTP/1.1\r\nUpgrade: websocket\r\n\r\n");
    assert_eq!(r, Err(NetworkingError::InvalidPacketFormat));
}

#[test]
fn upgrade_with_short_key_is_invalid() {
    let r = RequestType::parse("GET / HTTP/1.1\r\nUpgrade: websocket\r\nSec-WebSocket-Key: abc\r\n\r\n");
    assert_eq!(r, Err(NetworkingError::InvalidPacketFormat));
}

#[test]
fn upgrade_with_unterminated_key_is_invalid() {
    let r = RequestType::parse("GET / HTTP/1.1\r\nUpgrade: websocket\r\nSec-WebSocket-Key: dGhlIHNhbXBsZSBub25jZQ==");
    assert_eq!(r, Err(NetworkingError::InvalidPacketFormat));
}

#[test]
fn non_ascii_text_before_the_key_is_handled() {
    let req = "GET /é HTTP/1.1\r\nUpgrade: websocket\r\nSec-WebSocket-Key: dGhlIHNhbXBsZSBub25jZQ==\r\n\r\n";
    match RequestType::parse(req) {
        Ok(RequestType::Upgrade(key)) => assert_eq!(key.as_str(), "dGhlIHNhbXBsZSBub25jZQ=="),
        other => panic!("unexpected {:?}", other),
    }
}

#[test]
fn accept_response_follows_rfc_6455() {
    let response = websocket_accept_response("dGhlIHNhbXBsZSBub25jZQ==").unwrap();
    assert_eq!(
        response.as_str(),
        "HTTP/1.1 101 Switching Protocols\r\nUpgrade: websocket\r\nConnection: Upgrade\r\nSec-WebSocket-Accept: s3pPLMBiTxaQ9kYGzzhZRbK+xOo=\r\n\r\n"
    );
}

#[test]
fn accept_response_depends_on_the_key() {
    let a = websocket_accept_response("AAAAAAAAAAAAAAAAAAAAAA==").unwrap();
    let b = websocket_accept_response("dGhlIHNhbXBsZSBub25jZQ==").unwrap();
    assert_ne!(a.as_str(), b.as_str());
    assert_eq!(a.as_str().len(), 129);
}

fn frame(bytes: &[u8]) -> [u8; 1024] {
    let mut buf = [0u8; 1024];
    buf[..bytes.len()].copy_from_slice(bytes);
    buf
}

#[test]
fn masked_text_frame_is_unmasked() {
    // RFC 6455 section 5.7: a masked "Hello"
    let mut buf = frame(&[0x81, 0x85, 0x37, 0xfa, 0x21, 0x3d, 0x7f, 0x9f, 0x4d, 0x51, 0x58]);
    assert_eq!(decode_payload(&mut buf, 11), Ok("Hello"));
}

#[test]
fn unmasked_frame_is_read_as_is() {
    // without the mask bit the payload still starts after six bytes
    let mut buf = frame(&[0x81, 0x05, 0, 0, 0, 0, b'H', b'e', b'l', b'l', b'o']);
    assert_eq!(decode_payload(&mut buf, 11), Ok("Hello"));
}

#[test]
fn extended_length_frame_starts_after_eight_bytes() {
    let mut buf = frame(&[0x81, 0x7e, 0x00, 0x02, 0, 0, 0, 0, b'o', b'k']);
    assert_eq!(decode_payload(&mut buf, 10), Ok("ok"));
}

#[test]
fn short_close_frame_is_a_reset_connection() {
    let mut buf = frame(&[0x88, 0x80, 1, 2, 3, 4]);
    assert_eq!(
        decode_payload(&mut buf, 6),
        Err(NetworkingError::ReadError(TcpError::ConnectionReset))
    );
}

#[test]
fn short_other_frame_is_invalid() {
    let mut buf = frame(&[0x81, 0x80, 1, 2, 3, 4]);
    assert_eq!(decode_payload(&mut buf, 6), Err(NetworkingError::InvalidPacketFormat));
}

#[test]
fn non_utf8_payload_is_refused() {
    let mut buf = frame(&[0x82, 0x02, 0, 0, 0, 0, 0xff, 0xfe]);
    assert_eq!(decode_payload(&mut buf, 8), Err(NetworkingError::InvalidUTF8));
}

#[test]
fn read_step_completes_at_blank_line() {
    let mut buffer = [0u8; 1024];
    let text = b"GET / HTTP/1.1\r\n\r\n";
    buffer[..text.len()].copy_from_slice(text);
    assert_eq!(read_step(&buffer, 0, 10), ReadStep::Continue(10));
    assert_eq!(read_step(&buffer, 10, text.len() - 10), ReadStep::Complete(text.len()));
    assert_eq!(read_step(&buffer, 7, 0), ReadStep::Complete(7));
}

#[test]
fn read_step_refuses_invalid_utf8() {
    let mut buffer = [0u8; 1024];
    buffer[0] = 0xc3;
    assert_eq!(read_step(&buffer, 0, 1), ReadStep::Failed(NetworkingError::InvalidUTF8));
}

#[test]
fn request_from_buffer_parses_the_prefix() {
    let mut buffer = [0u8; 1024];
    let text = b"POST / HTTP/1.1\r\n\r\n";
    buffer[..text.len()].copy_from_slice(text);
    assert_eq!(
        request_from_buffer(&buffer, text.len()),
        Ok(RequestType::Standard(HttpMethod::Post))
    );
    buffer[0] = 0xff;
    assert_eq!(request_from_buffer(&buffer, text.len()), Err(NetworkingError::InvalidUTF8));
}

#[test]
fn request_actions() {
    assert_eq!(
        request_action(&RequestType::Standard(HttpMethod::Get)),
        RequestAction::ServeIndex
    );
    assert_eq!(
        request_action(&RequestType::Standard(HttpMethod::Post)),
        RequestAction::KeepReading
    );
    let key = heapless::String::<24>::try_from("dGhlIHNhbXBsZSBub25jZQ==").unwrap();
    assert_eq!(request_action(&RequestType::Upgrade(key)), RequestAction::ApproveUpgrade);
}

#[test]
fn upgrade_answer_uses_the_parsed_key() {
    let key = match RequestType::parse(UPGRADE_REQUEST) {
        Ok(RequestType::Upgrade(key)) => key,
        other => panic!("unexpected {:?}", other),
    };
    let answer = upgrade_answer(&key).unwrap();
    assert!(answer.as_str().contains("Sec-WebSocket-Accept: s3pPLMBiTxaQ9kYGzzhZRbK+xOo=\r\n"));
}

#[test]
fn connection_steps() {
    assert_eq!(connection_step(ConnectionEvent::ReadFailed), ConnectionStep::Close);
    assert_eq!(connection_step(ConnectionEvent::IndexServed), ConnectionStep::Close);
    assert_eq!(connection_step(ConnectionEvent::UpgradeRefused), ConnectionStep::KeepReading);
    assert_eq!(connection_step(ConnectionEvent::Unmapped), ConnectionStep::KeepReading);
    assert_eq!(connection_step(ConnectionEvent::UpgradeApproved), ConnectionStep::ServeWebSocket);
}
