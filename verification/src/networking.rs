use crate::bytes::{
    find_bytes, first_index, lemma_find_from_complete, lemma_find_from_found, starts_with,
    starts_with_bytes,
};
use vstd::prelude::*;
use vstd::string::StringSliceAdditionalSpecFns;
use vstd::utf8::*;

verus! {

/// The bytes a WebSocket key string holds.
pub uninterp spec fn key_string_bytes(s: heapless::String<24>) -> Seq<u8>;

/// `heapless::String::try_from(&str)`: a copy of `s` when its bytes fit in
/// the string's capacity.
#[verifier::external_body]
fn key_string_from(s: &str) -> (r: Option<heapless::String<24>>)
    ensures
        r is Some <==> s.spec_bytes().len() <= 24,
        r matches Some(k) ==> key_string_bytes(k) == s.spec_bytes(),
{
    heapless::String::try_from(s).ok()
}

/// `heapless::String::as_str`: the string's bytes as a string slice.
#[verifier::external_body]
pub(crate) fn key_str(k: &heapless::String<24>) -> (r: &str)
    ensures
        r.spec_bytes() == key_string_bytes(*k),
{
    k.as_str()
}

/// `core::str::from_utf8`: the bytes as a string slice when they are valid
/// UTF-8.
#[verifier::external_body]
pub(crate) fn str_from_utf8(bytes: &[u8]) -> (r: Option<&str>)
    ensures
        r is Some <==> valid_utf8(bytes@),
        r matches Some(s) ==> s.spec_bytes() == bytes@,
{
    core::str::from_utf8(bytes).ok()
}

/// A failure of the TCP connection a request arrives on.
#[derive(Debug, Clone, Copy, PartialEq, Eq, Structural)]
pub enum TcpError {
    /// The peer reset or closed the connection.
    ConnectionReset,
}

/// Why a request or a WebSocket frame could not be served.
#[derive(Debug, Clone, Copy, PartialEq, Eq, Structural)]
pub enum NetworkingError {
    InvalidPacketFormat,
    UnsupportedHTTPMethod,
    ReadError(TcpError),
    InvalidUTF8,
    UpgradeRequestFailed(TcpError),
    BufferOverflow,
}

/// The HTTP methods the hub answers.
#[derive(Debug, Clone, Copy, PartialEq, Eq, Structural)]
pub enum HttpMethod {
    Get,
    Post,
}

/// What an incoming HTTP request asks for.
#[derive(Debug, PartialEq, Eq)]
pub enum RequestType {
    /// A plain request with its method.
    Standard(HttpMethod),
    /// A WebSocket upgrade, with the client's 24-character key.
    Upgrade(heapless::String<24>),
}

/// "GET "
pub const GET_PREFIX: [u8; 4] = [0x47u8, 0x45u8, 0x54u8, 0x20u8];

/// "POST "
pub const POST_PREFIX: [u8; 5] = [0x50u8, 0x4fu8, 0x53u8, 0x54u8, 0x20u8];

/// "Upgrade: websocket"
pub const UPGRADE_HEADER: [u8; 18] = [
    0x55u8, 0x70u8, 0x67u8, 0x72u8, 0x61u8, 0x64u8, 0x65u8, 0x3au8, 0x20u8, 0x77u8, 0x65u8, 0x62u8, 0x73u8, 0x6fu8, 0x63u8, 0x6bu8,
    0x65u8, 0x74u8,
];

/// "Sec-WebSocket-Key: "
pub const KEY_HEADER: [u8; 19] = [
    0x53u8, 0x65u8, 0x63u8, 0x2du8, 0x57u8, 0x65u8, 0x62u8, 0x53u8, 0x6fu8, 0x63u8, 0x6bu8, 0x65u8, 0x74u8, 0x2du8, 0x4bu8, 0x65u8,
    0x79u8, 0x3au8, 0x20u8,
];

/// "\r\n"
pub const CRLF: [u8; 2] = [0x0du8, 0x0au8];

/// The length of a WebSocket key.
pub const KEY_LEN: usize = 24;

/// The value of the first `Sec-WebSocket-Key` header of a request: the
/// bytes after the header name up to the line's end, when they are exactly
/// a key's length.
pub open spec fn websocket_key(b: Seq<u8>) -> Option<Seq<u8>> {
    match first_index(b, KEY_HEADER@) {
        None => None,
        Some(p) => {
            let rem = b.subrange(p + 19, b.len() as int);
            match first_index(rem, CRLF@) {
                None => None,
                Some(e) => if e == 24 {
                    Some(rem.take(24))
                } else {
                    None
                },
            }
        },
    }
}

/// The classification of a request whose bytes are `b`: `GET` (a WebSocket
/// upgrade when the headers ask for one, carrying the client's key), `POST`,
/// or a method the hub does not serve.
pub open spec fn request_outcome(b: Seq<u8>, r: Result<RequestType, NetworkingError>) -> bool {
    if !starts_with(b, GET_PREFIX@) {
        if starts_with(b, POST_PREFIX@) {
            r == Ok::<RequestType, NetworkingError>(RequestType::Standard(HttpMethod::Post))
        } else {
            r == Err::<RequestType, NetworkingError>(NetworkingError::UnsupportedHTTPMethod)
        }
    } else if first_index(b, UPGRADE_HEADER@) is None {
        r == Ok::<RequestType, NetworkingError>(RequestType::Standard(HttpMethod::Get))
    } else {
        match websocket_key(b) {
            None => r == Err::<RequestType, NetworkingError>(NetworkingError::InvalidPacketFormat),
            Some(k) => r matches Ok(RequestType::Upgrade(s)) && key_string_bytes(s) == k,
        }
    }
}

/// A `GET` request that asks for a WebSocket upgrade anywhere in it is an
/// upgrade carrying the 24 bytes after its first `Sec-WebSocket-Key: `
/// header, when those end the line: the order of the headers does not
/// matter.
pub proof fn lemma_upgrade_key_found(b: Seq<u8>, u: int, p: int, r: Result<RequestType, NetworkingError>)
    requires
        b.len() >= 4,
        b.take(4) == GET_PREFIX@,
        0 <= u,
        u + 18 <= b.len(),
        b.subrange(u, u + 18) == UPGRADE_HEADER@,
        0 <= p,
        p + 45 <= b.len(),
        b.subrange(p, p + 19) == KEY_HEADER@,
        forall|m: int| 0 <= m < p ==> #[trigger] b.subrange(m, m + 19) != KEY_HEADER@,
        b.subrange(p + 43, p + 45) == CRLF@,
        forall|m: int| p + 19 <= m < p + 43 ==> #[trigger] b.subrange(m, m + 2) != CRLF@,
        request_outcome(b, r),
    ensures
        r matches Ok(RequestType::Upgrade(k)) && key_string_bytes(k) == b.subrange(p + 19, p + 43),
{
    assert(starts_with(b, GET_PREFIX@));
    lemma_find_from_complete(b, UPGRADE_HEADER@, 0, u);
    lemma_find_from_complete(b, KEY_HEADER@, 0, p);
    let k = first_index(b, KEY_HEADER@)->Some_0;
    if k < p {
        assert(b.subrange(k, k + 19) != KEY_HEADER@);
    }
    assert(k == p);
    let rem = b.subrange(p + 19, b.len() as int);
    assert(rem.subrange(24, 26) =~= b.subrange(p + 43, p + 45));
    lemma_find_from_complete(rem, CRLF@, 0, 24);
    let e = first_index(rem, CRLF@)->Some_0;
    if e < 24 {
        assert(rem.subrange(e, e + 2) =~= b.subrange(p + 19 + e, p + 21 + e));
        assert(b.subrange(p + 19 + e, p + 19 + e + 2) != CRLF@);
    }
    assert(e == 24);
    assert(rem.take(24) =~= b.subrange(p + 19, p + 43));
}

/// In valid UTF-8, the end of a run of ASCII bytes at the start is a
/// character boundary.
proof fn lemma_ascii_prefix_boundary(s: Seq<u8>, n: int)
    requires
        valid_utf8(s),
        0 <= n <= s.len(),
        forall|i: int| 0 <= i < n ==> s[i] < 0x80,
    ensures
        is_char_boundary(s, n),
    decreases n,
{
    if n > 0 {
        let t = pop_first_scalar(s);
        assert(length_of_first_scalar(s) == 1);
        assert(t =~= s.subrange(1, s.len() as int));
        assert forall|i: int| 0 <= i < n - 1 implies t[i] < 0x80 by {
            assert(t[i] == s[i + 1]);
        }
        lemma_ascii_prefix_boundary(t, n - 1);
    }
}

impl RequestType {
    /// Classifies an HTTP request by its first line and headers: `GET`
    /// (a WebSocket upgrade when it asks for one, with the client's key),
    /// `POST`, or a method the hub does not serve.
    pub fn parse(content: &str) -> (r: Result<RequestType, NetworkingError>)
        ensures
            request_outcome(content.spec_bytes(), r),
    {
        let b = content.as_bytes();
        let blen = b.len();
        if starts_with_bytes(b, GET_PREFIX.as_slice()) {
            if find_bytes(b, UPGRADE_HEADER.as_slice()).is_some() {
                let p = match find_bytes(b, KEY_HEADER.as_slice()) {
                    Some(p) => p,
                    None => {
                        return Err(NetworkingError::InvalidPacketFormat);
                    },
                };
                proof {
                    lemma_find_from_found(b@, KEY_HEADER@, 0);
                }
                let key_start = p + KEY_HEADER.len();
                let (_, rem) = b.split_at(key_start);
                let key_end = match find_bytes(rem, CRLF.as_slice()) {
                    Some(e) => e,
                    None => {
                        return Err(NetworkingError::InvalidPacketFormat);
                    },
                };
                if key_end != KEY_LEN {
                    return Err(NetworkingError::InvalidPacketFormat);
                }
                proof {
                    lemma_find_from_found(rem@, CRLF@, 0);
                    assert(rem@.len() == blen - key_start);
                }
                let ghost bs = b@;
                let ghost i1 = key_start + KEY_LEN;
                proof {
                    broadcast use vstd::utf8::encode_utf8_valid_utf8;
                    assert(valid_utf8(bs));
                    assert(rem@.subrange(24, 26) == CRLF@);
                    assert(bs[i1] == rem@[24]);
                    is_char_boundary_iff_not_is_continuation_byte(bs, i1);
                }
                let (left, _) = content.split_at(key_start + KEY_LEN);
                proof {
                    valid_utf8_split(bs, i1);
                    assert(left.spec_bytes() =~= bs.subrange(0, i1));
                    assert(left.spec_bytes()[p as int] == bs.subrange(p as int, p + 19)[0]);
                    is_char_boundary_iff_not_is_continuation_byte(left.spec_bytes(), p as int);
                }
                let (_, tail) = left.split_at(p);
                proof {
                    let ls = left.spec_bytes();
                    valid_utf8_split(ls, p as int);
                    let ts = tail.spec_bytes();
                    assert(ts =~= bs.subrange(p as int, i1));
                    assert forall|i: int| 0 <= i < 19 implies ts[i] < 0x80 by {
                        assert(ts[i] == bs.subrange(p as int, p + 19)[i]);
                        assert(KEY_HEADER@[i] < 0x80);
                    }
                    lemma_ascii_prefix_boundary(ts, 19);
                }
                let (_, key) = tail.split_at(KEY_HEADER.len());
                assert(key.spec_bytes() =~= rem@.take(24));
                match key_string_from(key) {
                    Some(k) => Ok(RequestType::Upgrade(k)),
                    None => Err(NetworkingError::InvalidPacketFormat),
                }
            } else {
                Ok(RequestType::Standard(HttpMethod::Get))
            }
        } else if starts_with_bytes(b, POST_PREFIX.as_slice()) {
            Ok(RequestType::Standard(HttpMethod::Post))
        } else {
            Err(NetworkingError::UnsupportedHTTPMethod)
        }
    }
}

impl<'a> TryFrom<&'a str> for RequestType {
    type Error = NetworkingError;

    /// Classifies a request as `RequestType::parse` does.
    fn try_from(content: &'a str) -> (r: Result<Self, Self::Error>)
        ensures
            request_outcome(content.spec_bytes(), r),
    {
        RequestType::parse(content)
    }
}

/// The outcome of `try_from` is stated on the method itself, as
/// `request_outcome`. An upgrade carries a fixed-capacity string that the
/// outcome fixes only by its bytes, so the spec value is one outcome that
/// `request_outcome` admits, and the conversion is not held to it.
impl<'a> vstd::std_specs::convert::TryFromSpecImpl<&'a str> for RequestType {
    open spec fn obeys_try_from_spec() -> bool {
        false
    }

    open spec fn try_from_spec(v: &'a str) -> Result<Self, Self::Error> {
        choose|r: Result<Self, Self::Error>| request_outcome(v.spec_bytes(), r)
    }
}

/// Where the payload of a short frame starts: after two header bytes and
/// the 4-byte mask.
pub const S_PAYLOAD_START: usize = 6;

/// Where the payload starts when a 16-bit extended length follows.
pub const M_PAYLOAD_START: usize = 8;

/// Where the payload starts when a 64-bit extended length follows.
pub const L_PAYLOAD_START: usize = 14;

/// The frame opcode that closes a connection.
pub const CLOSE_OPCODE: u8 = 0b1000;

/// Where a frame's payload starts, by the length field of its second byte.
pub open spec fn payload_start(b1: u8) -> int {
    let l = b1 & 0x7fu8;
    if l <= 125 {
        S_PAYLOAD_START as int
    } else if l == 126 {
        M_PAYLOAD_START as int
    } else {
        L_PAYLOAD_START as int
    }
}

/// Where a frame's payload starts depends on its 7-bit length code alone,
/// not on the mask bit: after the two header bytes, the extended length
/// the code calls for (none, two bytes for 126, eight for 127) and the
/// 4-byte mask.
pub proof fn lemma_payload_start_by_length_code(b1: u8)
    ensures
        payload_start(b1) == payload_start(b1 & 0x7fu8),
        payload_start(b1) == payload_start(b1 | 0x80u8),
        (b1 & 0x7fu8) <= 125 ==> payload_start(b1) == 2 + 4,
        (b1 & 0x7fu8) == 126 ==> payload_start(b1) == 2 + 2 + 4,
        (b1 & 0x7fu8) == 127 ==> payload_start(b1) == 2 + 8 + 4,
{
    assert((b1 & 0x7fu8) & 0x7fu8 == b1 & 0x7fu8) by (bit_vector);
    assert((b1 | 0x80u8) & 0x7fu8 == b1 & 0x7fu8) by (bit_vector);
    assert(b1 & 0x7fu8 <= 127) by (bit_vector);
}

/// Whether a frame's payload is masked, by the top bit of its second byte.
pub open spec fn is_masked(b1: u8) -> bool {
    b1 & 0x80u8 != 0
}

/// The payload bytes `ps .. len` of a frame, unmasked with the four bytes
/// before them when the frame is masked.
pub open spec fn unmasked_payload(buf: Seq<u8>, len: int) -> Seq<u8> {
    let ps = payload_start(buf[1]);
    if is_masked(buf[1]) {
        Seq::new((len - ps) as nat, |i: int| buf[ps + i] ^ buf[ps - 4 + i % 4])
    } else {
        buf.subrange(ps, len)
    }
}

/// Decodes a WebSocket frame of `len` bytes received into `buf`: unmasks
/// its payload in place and returns it as text. A frame of no more than six
/// bytes is refused, as a closed connection when its opcode closes one.
pub fn decode_payload(buf: &mut [u8; 1024], len: usize) -> (r: Result<&str, NetworkingError>)
    requires
        len <= 1024,
        len > S_PAYLOAD_START ==> payload_start(old(buf)@[1]) <= len,
    ensures
        len <= S_PAYLOAD_START && old(buf)@[0] & 0x0fu8 == CLOSE_OPCODE ==> r == Err::<&str, NetworkingError>(NetworkingError::ReadError(TcpError::ConnectionReset)),
        len <= S_PAYLOAD_START && old(buf)@[0] & 0x0fu8 != CLOSE_OPCODE ==> r == Err::<&str, NetworkingError>(NetworkingError::InvalidPacketFormat),
        len <= S_PAYLOAD_START ==> final(buf)@ == old(buf)@,
        len > S_PAYLOAD_START ==> final(buf)@ == old(buf)@.subrange(0, payload_start(old(buf)@[1])) + unmasked_payload(old(buf)@, len as int) + old(buf)@.subrange(len as int, 1024),
        len > S_PAYLOAD_START ==> (r is Ok <==> valid_utf8(unmasked_payload(old(buf)@, len as int))),
        len > S_PAYLOAD_START ==> (r matches Ok(s) ==> s.spec_bytes() == unmasked_payload(old(buf)@, len as int)),
{
    if len <= S_PAYLOAD_START {
        let op_code = buf[0] & 0x0fu8;
        if op_code == CLOSE_OPCODE {
            return Err(NetworkingError::ReadError(TcpError::ConnectionReset));
        }
        return Err(NetworkingError::InvalidPacketFormat);
    }
    let b1 = buf[1];
    let length_field = b1 & 0x7fu8;
    let start: usize = if length_field <= 125 {
        S_PAYLOAD_START
    } else if length_field == 126 {
        M_PAYLOAD_START
    } else {
        L_PAYLOAD_START
    };
    let ghost received = buf@;
    let is_xored = (b1 & 0x80u8) != 0;
    if is_xored {
        let mask_start = start - 4;
        let keys_mask: [u8; 4] = [
            buf[mask_start],
            buf[mask_start + 1],
            buf[mask_start + 2],
            buf[mask_start + 3],
        ];
        let mut i: usize = 0;
        while i < len - start
            invariant
                start <= len <= 1024,
                start >= 4,
                received.len() == 1024,
                start == payload_start(received[1]),
                is_masked(received[1]),
                keys_mask@ == received.subrange(start - 4, start as int),
                i <= len - start,
                buf@.len() == 1024,
                forall|m: int| 0 <= m < start + i ==> buf@[m] == (if m < start { received[m] } else { unmasked_payload(received, len as int)[m - start] }),
                forall|m: int| start + i <= m < 1024 ==> buf@[m] == received[m],
            decreases len - start - i,
        {
            let key = keys_mask[i % 4];
            assert(key == received[start - 4 + (i % 4) as int]);
            proof {
                let u = unmasked_payload(received, len as int);
                let ps = payload_start(received[1]);
                assert(ps == start);
                assert(u == Seq::new((len - ps) as nat, |k: int| received[ps + k] ^ received[ps - 4 + k % 4]));
                assert(u[i as int] == received[start + i] ^ received[start - 4 + (i % 4) as int]);
            }
            buf[start + i] = buf[start + i] ^ key;
            i = i + 1;
        }
    }
    assert(buf@ =~= received.subrange(0, start as int) + unmasked_payload(received, len as int) + received.subrange(len as int, 1024));
    let frame: &[u8; 1024] = buf;
    let payload = &frame.as_slice()[start..len];
    assert(payload@ =~= unmasked_payload(received, len as int));
    match str_from_utf8(payload) {
        Some(content) => Ok(content),
        None => Err(NetworkingError::InvalidUTF8),
    }
}

/// Masking a payload with a 4-byte key and decoding the frame gives the
/// payload back.
pub proof fn lemma_unmask_masked(buf: Seq<u8>, len: int, payload: Seq<u8>)
    requires
        buf.len() == 1024,
        S_PAYLOAD_START < len <= 1024,
        is_masked(buf[1]),
        payload_start(buf[1]) <= len,
        payload.len() == len - payload_start(buf[1]),
        forall|i: int|
            0 <= i < payload.len() ==> buf[payload_start(buf[1]) + i] == payload[i] ^ buf[payload_start(buf[1]) - 4 + i % 4],
    ensures
        unmasked_payload(buf, len) == payload,
{
    let ps = payload_start(buf[1]);
    let u = unmasked_payload(buf, len);
    assert forall|i: int| 0 <= i < payload.len() implies u[i] == payload[i] by {
        let p = payload[i];
        let k = buf[ps - 4 + i % 4];
        assert((p ^ k) ^ k == p) by (bit_vector);
    }
    assert(u =~= payload);
}

/// "\r\n\r\n", the end of a request's headers.
pub const HEADER_END: [u8; 4] = [0x0du8, 0x0au8, 0x0du8, 0x0au8];

/// What to do after a read from a connection that is receiving a request.
#[derive(Debug, Clone, Copy, PartialEq, Eq, Structural)]
pub enum ReadStep {
    /// Read again; the request so far has this many bytes.
    Continue(usize),
    /// The request is complete with this many bytes.
    Complete(usize),
    /// The request cannot be read.
    Failed(NetworkingError),
}

/// The step after a read of `read` bytes into `buffer`, when `pos` bytes
/// had been counted before: an empty read ends the request, the bytes so
/// far must be valid UTF-8, and the request is complete once they hold the
/// blank line that ends the headers.
pub fn read_step(buffer: &[u8; 1024], pos: usize, read: usize) -> (r: ReadStep)
    requires
        pos + read <= 1024,
    ensures
        read == 0 ==> r == ReadStep::Complete(pos),
        read > 0 && !valid_utf8(buffer@.take(pos + read)) ==> r == ReadStep::Failed(NetworkingError::InvalidUTF8),
        read > 0 && valid_utf8(buffer@.take(pos + read)) && first_index(buffer@.take(pos + read), HEADER_END@) is Some ==> r == ReadStep::Complete((pos + read) as usize),
        read > 0 && valid_utf8(buffer@.take(pos + read)) && first_index(buffer@.take(pos + read), HEADER_END@) is None ==> r == ReadStep::Continue((pos + read) as usize),
{
    if read == 0 {
        return ReadStep::Complete(pos);
    }
    let end = pos + read;
    let content = &buffer.as_slice()[0..end];
    assert(content@ =~= buffer@.take(end as int));
    match str_from_utf8(content) {
        None => ReadStep::Failed(NetworkingError::InvalidUTF8),
        Some(_) => {
            if find_bytes(content, HEADER_END.as_slice()).is_some() {
                ReadStep::Complete(end)
            } else {
                ReadStep::Continue(end)
            }
        },
    }
}

/// The request held in the first `pos` bytes of `buffer`.
pub fn request_from_buffer(buffer: &[u8; 1024], pos: usize) -> (r: Result<RequestType, NetworkingError>)
    requires
        pos <= 1024,
    ensures
        !valid_utf8(buffer@.take(pos as int)) ==> r == Err::<RequestType, NetworkingError>(NetworkingError::InvalidUTF8),
        valid_utf8(buffer@.take(pos as int)) ==> request_outcome(buffer@.take(pos as int), r),
{
    let content = &buffer.as_slice()[0..pos];
    assert(content@ =~= buffer@.take(pos as int));
    match str_from_utf8(content) {
        None => Err(NetworkingError::InvalidUTF8),
        Some(text) => RequestType::parse(text),
    }
}

/// What the web server does with a request it has read.
#[derive(Debug, Clone, Copy, PartialEq, Eq, Structural)]
pub enum RequestAction {
    /// Answer the WebSocket upgrade and serve commands over it.
    ApproveUpgrade,
    /// Send the index page and close the connection.
    ServeIndex,
    /// Leave the request unanswered and read the next one.
    KeepReading,
}

/// The web server's answer to each kind of request.
pub fn request_action(request: &RequestType) -> (r: RequestAction)
    ensures
        request is Upgrade ==> r == RequestAction::ApproveUpgrade,
        request == &RequestType::Standard(HttpMethod::Get) ==> r == RequestAction::ServeIndex,
        request == &RequestType::Standard(HttpMethod::Post) ==> r == RequestAction::KeepReading,
{
    match request {
        RequestType::Upgrade(_) => RequestAction::ApproveUpgrade,
        RequestType::Standard(HttpMethod::Get) => RequestAction::ServeIndex,
        RequestType::Standard(HttpMethod::Post) => RequestAction::KeepReading,
    }
}

/// What happened on a connection while the web server handled a request.
#[derive(Debug, Clone, Copy, PartialEq, Eq, Structural)]
pub enum ConnectionEvent {
    /// No request could be read.
    ReadFailed,
    /// A WebSocket upgrade was answered and the answer sent.
    UpgradeApproved,
    /// A WebSocket upgrade could not be answered.
    UpgradeRefused,
    /// The index page was sent, or sending it failed.
    IndexServed,
    /// A request the server does not answer.
    Unmapped,
}

/// What the web server does next on a connection.
#[derive(Debug, Clone, Copy, PartialEq, Eq, Structural)]
pub enum ConnectionStep {
    /// Close the connection and wait for the next one.
    Close,
    /// Read the next request on the same connection.
    KeepReading,
    /// Serve commands over the WebSocket, then close the connection.
    ServeWebSocket,
}

/// The web server's next step after each event on a connection: a failed
/// read or a served page closes it, a refused upgrade or an unanswered
/// request reads on, an answered upgrade serves the WebSocket.
pub fn connection_step(event: ConnectionEvent) -> (r: ConnectionStep)
    ensures
        event == ConnectionEvent::ReadFailed ==> r == ConnectionStep::Close,
        event == ConnectionEvent::IndexServed ==> r == ConnectionStep::Close,
        event == ConnectionEvent::UpgradeRefused ==> r == ConnectionStep::KeepReading,
        event == ConnectionEvent::Unmapped ==> r == ConnectionStep::KeepReading,
        event == ConnectionEvent::UpgradeApproved ==> r == ConnectionStep::ServeWebSocket,
{
    match event {
        ConnectionEvent::ReadFailed => ConnectionStep::Close,
        ConnectionEvent::IndexServed => ConnectionStep::Close,
        ConnectionEvent::UpgradeRefused => ConnectionStep::KeepReading,
        ConnectionEvent::Unmapped => ConnectionStep::KeepReading,
        ConnectionEvent::UpgradeApproved => ConnectionStep::ServeWebSocket,
    }
}

} // verus!
