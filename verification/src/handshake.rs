use crate::networking::{key_str, key_string_bytes, str_from_utf8, NetworkingError};
use base64::Engine;
use sha1::Digest;
use vstd::prelude::*;
use vstd::string::StringSliceAdditionalSpecFns;
use vstd::utf8::*;

verus! {

/// The SHA-1 digest of `data`.
pub uninterp spec fn sha1_digest(data: Seq<u8>) -> Seq<u8>;

/// `sha1::Sha1::digest`: the SHA-1 digest of `data`.
#[verifier::external_body]
fn sha1_of(data: &[u8]) -> (r: [u8; 20])
    ensures
        r@ == sha1_digest(data@),
{
    sha1::Sha1::digest(data).into()
}

/// The character of the 6-bit value `v` in the standard base64 alphabet
/// (`A`-`Z`, `a`-`z`, `0`-`9`, `+`, `/`).
pub open spec fn b64_char(v: int) -> u8 {
    if v < 26 {
        (0x41 + v) as u8
    } else if v < 52 {
        (0x61 + v - 26) as u8
    } else if v < 62 {
        (0x30 + v - 52) as u8
    } else if v == 62 {
        0x2bu8
    } else {
        0x2fu8
    }
}

/// The standard base64 encoding of `data`: each group of three bytes as
/// four characters, a final group of one or two bytes padded with `=`.
pub open spec fn base64_standard(data: Seq<u8>) -> Seq<u8>
    decreases data.len(),
{
    if data.len() == 0 {
        seq![]
    } else if data.len() == 1 {
        let a = data[0] as int;
        seq![b64_char(a / 4), b64_char((a % 4) * 16), 0x3du8, 0x3du8]
    } else if data.len() == 2 {
        let a = data[0] as int;
        let b = data[1] as int;
        seq![b64_char(a / 4), b64_char((a % 4) * 16 + b / 16), b64_char((b % 16) * 4), 0x3du8]
    } else {
        let a = data[0] as int;
        let b = data[1] as int;
        let c = data[2] as int;
        seq![
            b64_char(a / 4),
            b64_char((a % 4) * 16 + b / 16),
            b64_char((b % 16) * 4 + c / 64),
            b64_char(c % 64),
        ] + base64_standard(data.subrange(3, data.len() as int))
    }
}

/// A base64 encoding is ASCII text, four characters for every started
/// group of three bytes.
proof fn lemma_base64_shape(data: Seq<u8>)
    ensures
        base64_standard(data).len() == 4 * ((data.len() + 2) / 3),
        forall|i: int| 0 <= i < base64_standard(data).len() ==> base64_standard(data)[i] < 0x80,
    decreases data.len(),
{
    if data.len() >= 3 {
        lemma_base64_shape(data.subrange(3, data.len() as int));
        let rest = base64_standard(data.subrange(3, data.len() as int));
        let e = base64_standard(data);
        assert forall|i: int| 0 <= i < e.len() implies e[i] < 0x80 by {
            if i >= 4 {
                assert(e[i] == rest[i - 4]);
            }
        }
    }
}

/// `base64::engine::general_purpose::STANDARD.encode_slice`: writes the
/// encoding of `input` at the start of `output` when it fits, and says how
/// long it is.
#[verifier::external_body]
fn base64_encode_slice(input: &[u8], output: &mut [u8; 64]) -> (r: Option<usize>)
    requires
        input@.len() <= 48,
    ensures
        r is Some <==> 4 * ((input@.len() + 2) / 3) <= 64,
        r matches Some(n) ==> n == 4 * ((input@.len() + 2) / 3),
        r matches Some(n) ==> final(output)@.take(n as int) == base64_standard(input@),
{
    base64::engine::general_purpose::STANDARD.encode_slice(input, output).ok()
}

#[verifier::external_type_specification]
#[verifier::external_body]
pub struct ExHeaplessString<const N: usize>(heapless::String<N>);

/// The bytes a response string holds.
pub uninterp spec fn response_bytes(s: heapless::String<256>) -> Seq<u8>;

/// `heapless::String::new`: an empty string.
#[verifier::external_body]
fn response_new() -> (r: heapless::String<256>)
    ensures
        response_bytes(r) == Seq::<u8>::empty(),
{
    heapless::String::new()
}

/// `heapless::String::push_str`: appends `s` when it fits in what is left;
/// otherwise the string is left as it was.
#[verifier::external_body]
fn response_push_str(r: &mut heapless::String<256>, s: &str) -> (ok: bool)
    ensures
        ok <==> response_bytes(*old(r)).len() + s.spec_bytes().len() <= 256,
        ok ==> response_bytes(*final(r)) == response_bytes(*old(r)) + s.spec_bytes(),
        !ok ==> response_bytes(*final(r)) == response_bytes(*old(r)),
{
    r.push_str(s).is_ok()
}

/// The bytes of an ASCII text.
pub open spec fn ascii_bytes(s: Seq<char>) -> Seq<u8> {
    Seq::new(s.len(), |i: int| s[i] as u8)
}

/// The GUID that RFC 6455 appends to a client's key.
pub open spec fn ws_guid() -> Seq<u8> {
    ascii_bytes("258EAFA5-E914-47DA-95CA-C5AB0DC85B11"@)
}

/// The value of `Sec-WebSocket-Accept` that answers `key`: the base64 of
/// the SHA-1 digest of the key followed by the GUID.
pub open spec fn accept_value(key: Seq<u8>) -> Seq<u8> {
    base64_standard(sha1_digest(key + ws_guid()))
}

/// The response that switches a connection to the WebSocket protocol.
pub open spec fn upgrade_response(accept: Seq<u8>) -> Seq<u8> {
    ascii_bytes("HTTP/1.1 101 Switching Protocols\r\n"@) + ascii_bytes("Upgrade: websocket\r\n"@)
        + ascii_bytes("Connection: Upgrade\r\n"@) + ascii_bytes("Sec-WebSocket-Accept: "@) + accept
        + ascii_bytes("\r\n\r\n"@)
}

/// ASCII bytes are valid UTF-8.
proof fn lemma_ascii_valid_utf8(s: Seq<u8>)
    requires
        forall|i: int| 0 <= i < s.len() ==> s[i] < 0x80,
    ensures
        valid_utf8(s),
    decreases s.len(),
{
    if s.len() > 0 {
        let t = pop_first_scalar(s);
        assert(length_of_first_scalar(s) == 1);
        assert(t =~= s.subrange(1, s.len() as int));
        assert forall|i: int| 0 <= i < t.len() implies t[i] < 0x80 by {
            assert(t[i] == s[i + 1]);
        }
        lemma_ascii_valid_utf8(t);
    }
}

/// The bytes of an ASCII string slice.
proof fn lemma_ascii_str_bytes(s: &str)
    requires
        vstd::string::is_ascii(s),
    ensures
        s.spec_bytes() == ascii_bytes(s@),
{
    broadcast use vstd::string::is_ascii_spec_bytes;
    assert(s.spec_bytes() =~= ascii_bytes(s@));
}

/// Appends an ASCII literal to the response.
fn push_literal(r: &mut heapless::String<256>, s: &str) -> (ok: bool)
    requires
        vstd::string::is_ascii(s),
    ensures
        ok <==> response_bytes(*old(r)).len() + s@.len() <= 256,
        ok ==> response_bytes(*final(r)) == response_bytes(*old(r)) + ascii_bytes(s@),
        !ok ==> response_bytes(*final(r)) == response_bytes(*old(r)),
{
    proof {
        lemma_ascii_str_bytes(s);
    }
    response_push_str(r, s)
}

/// The answer to a WebSocket upgrade request that carried `key`: the
/// switching-protocols response with the key's accept value.
pub fn websocket_accept_response(key: &str) -> (r: Result<heapless::String<256>, NetworkingError>)
    ensures
        r matches Ok(s) && response_bytes(s) == upgrade_response(accept_value(key.spec_bytes())),
        r matches Ok(s) && response_bytes(s).len() == 129,
{
    let guid = "258EAFA5-E914-47DA-95CA-C5AB0DC85B11";
    proof {
        reveal_strlit("258EAFA5-E914-47DA-95CA-C5AB0DC85B11");
        lemma_ascii_str_bytes(guid);
    }
    let mut data: Vec<u8> = Vec::new();
    data.extend_from_slice(key.as_bytes());
    data.extend_from_slice(guid.as_bytes());
    assert(data@ =~= key.spec_bytes() + ws_guid());
    let hashed = sha1_of(data.as_slice());
    assert(4 * ((hashed@.len() + 2) / 3) == 28);
    let mut b64_buf = [0u8; 64];
    let encoded_len = match base64_encode_slice(hashed.as_slice(), &mut b64_buf) {
        Some(n) => n,
        None => {
            return Err(NetworkingError::InvalidUTF8);
        },
    };
    let encoded = &b64_buf.as_slice()[0..encoded_len];
    proof {
        assert(encoded@ == b64_buf@.take(encoded_len as int));
        lemma_base64_shape(hashed@);
        lemma_ascii_valid_utf8(encoded@);
    }
    let converted_key = match str_from_utf8(encoded) {
        Some(s) => s,
        None => {
            return Err(NetworkingError::InvalidUTF8);
        },
    };
    assert(converted_key.spec_bytes() == accept_value(key.spec_bytes()));
    let mut response = response_new();
    let l1 = "HTTP/1.1 101 Switching Protocols\r\n";
    let l2 = "Upgrade: websocket\r\n";
    let l3 = "Connection: Upgrade\r\n";
    let l4 = "Sec-WebSocket-Accept: ";
    let l5 = "\r\n\r\n";
    proof {
        reveal_strlit("HTTP/1.1 101 Switching Protocols\r\n");
        reveal_strlit("Upgrade: websocket\r\n");
        reveal_strlit("Connection: Upgrade\r\n");
        reveal_strlit("Sec-WebSocket-Accept: ");
        reveal_strlit("\r\n\r\n");
        assert(vstd::string::is_ascii(l1));
        assert(vstd::string::is_ascii(l2));
        assert(vstd::string::is_ascii(l3));
        assert(vstd::string::is_ascii(l4));
        assert(vstd::string::is_ascii(l5));
    }
    if !push_literal(&mut response, l1) || !push_literal(&mut response, l2) || !push_literal(
        &mut response,
        l3,
    ) || !push_literal(&mut response, l4) || !response_push_str(&mut response, converted_key)
        || !push_literal(&mut response, l5) {
        return Err(NetworkingError::BufferOverflow);
    }
    Ok(response)
}

/// The answer to a WebSocket upgrade request whose parsed key is `key`.
pub fn upgrade_answer(key: &heapless::String<24>) -> (r: Result<heapless::String<256>, NetworkingError>)
    ensures
        r matches Ok(s) && response_bytes(s) == upgrade_response(accept_value(key_string_bytes(*key))),
{
    websocket_accept_response(key_str(key))
}

} // verus!
