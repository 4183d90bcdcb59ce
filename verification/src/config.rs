use vstd::prelude::*;
use vstd::string::StringSliceAdditionalSpecFns;

verus! {

/// The port the web server listens on when none is configured.
pub const DEFAULT_PORT: u16 = 8080;

/// The link key used when none is configured.
pub const DEFAULT_AES_KEY: [u8; 16] = [
    0x72u8, 0x08u8, 0xe0u8, 0xebu8, 0x70u8, 0xb1u8, 0xa8u8, 0x87u8, 0x29u8, 0x9fu8, 0x66u8, 0x94u8,
    0xe9u8, 0x12u8, 0x4du8, 0xc1u8,
];

/// Whether every byte of `d` is an ASCII decimal digit.
pub open spec fn all_digits(d: Seq<u8>) -> bool {
    forall|i: int| 0 <= i < d.len() ==> 0x30 <= #[trigger] d[i] <= 0x39
}

/// The number that the decimal digits `d` spell.
pub open spec fn decimal_value(d: Seq<u8>) -> int
    decreases d.len(),
{
    if d.len() == 0 {
        0
    } else {
        decimal_value(d.drop_last()) * 10 + (d.last() - 0x30)
    }
}

/// The digits of a number text: the text without one leading `+`.
pub open spec fn number_digits(s: Seq<u8>) -> Seq<u8> {
    if s.len() > 0 && s[0] == 0x2b {
        s.drop_first()
    } else {
        s
    }
}

/// What `str::parse::<u16>` reads from `s`: an optional `+` followed by at
/// least one decimal digit and nothing else, whose value fits in 16 bits.
pub open spec fn u16_from_text(s: Seq<u8>) -> Option<u16> {
    let d = number_digits(s);
    if d.len() > 0 && all_digits(d) && decimal_value(d) <= 0xffff {
        Some(decimal_value(d) as u16)
    } else {
        None
    }
}

/// `str::parse::<u16>`: the number `s` spells, if it is one.
#[verifier::external_body]
fn parse_u16(s: &str) -> (r: Option<u16>)
    ensures
        r == u16_from_text(s.spec_bytes()),
{
    s.parse::<u16>().ok()
}

/// The configured port when the text is a port number, else the default.
pub open spec fn configured_port(configured: Option<&str>) -> u16 {
    match configured {
        Some(s) => match u16_from_text(s.spec_bytes()) {
            Some(p) => p,
            None => DEFAULT_PORT,
        },
        None => DEFAULT_PORT,
    }
}

/// The web server's port: the configured text when it is a port number,
/// else the default.
pub fn port_or_default(configured: Option<&str>) -> (r: u16)
    ensures
        r == configured_port(configured),
{
    match configured {
        Some(s) => match parse_u16(s) {
            Some(p) => p,
            None => DEFAULT_PORT,
        },
        None => DEFAULT_PORT,
    }
}

/// The value of a hexadecimal digit, in either case.
pub open spec fn hex_value(c: u8) -> Option<u8> {
    if 0x30 <= c <= 0x39 {
        Some((c - 0x30) as u8)
    } else if 0x41 <= c <= 0x46 {
        Some((c - 0x41 + 10) as u8)
    } else if 0x61 <= c <= 0x66 {
        Some((c - 0x61 + 10) as u8)
    } else {
        None
    }
}

/// Whether `text` is exactly `n` bytes written as hexadecimal digit pairs.
pub open spec fn is_hex_of_len(text: Seq<u8>, n: int) -> bool {
    text.len() == 2 * n && forall|i: int| 0 <= i < text.len() ==> (#[trigger] hex_value(text[i])) is Some
}

/// Byte `i` of the hexadecimal text `text`.
pub open spec fn hex_byte(text: Seq<u8>, i: int) -> u8 {
    (hex_value(text[2 * i])->Some_0 * 16 + hex_value(text[2 * i + 1])->Some_0) as u8
}

/// `hex::decode_to_slice`: fills `out` with the bytes `text` spells when it
/// is exactly two hexadecimal digits per byte of `out`.
#[verifier::external_body]
fn hex_decode_key(text: &[u8], out: &mut [u8; 16]) -> (ok: bool)
    ensures
        ok == is_hex_of_len(text@, 16),
        ok ==> forall|i: int| 0 <= i < 16 ==> final(out)@[i] == hex_byte(text@, i),
{
    hex::decode_to_slice(text, out).is_ok()
}

/// The key the configured text spells when it is sixteen bytes in
/// hexadecimal, else the default key.
pub open spec fn configured_key(configured: Option<&str>) -> Seq<u8> {
    match configured {
        Some(s) => if is_hex_of_len(s.spec_bytes(), 16) {
            Seq::new(16, |i: int| hex_byte(s.spec_bytes(), i))
        } else {
            DEFAULT_AES_KEY@
        },
        None => DEFAULT_AES_KEY@,
    }
}

/// The link key: the configured hexadecimal text when it spells sixteen
/// bytes, else the default key.
pub fn aes_key_or_default(configured: Option<&str>) -> (r: [u8; 16])
    ensures
        r@ == configured_key(configured),
{
    let mut buf = [0u8; 16];
    match configured {
        Some(s) => {
            if hex_decode_key(s.as_bytes(), &mut buf) {
                assert(buf@ =~= configured_key(configured));
                buf
            } else {
                DEFAULT_AES_KEY
            }
        },
        None => DEFAULT_AES_KEY,
    }
}

/// The network stack's random seed: two random words, the first one high.
pub fn network_seed(high: u32, low: u32) -> (r: u64)
    ensures
        r == high * 0x1_0000_0000 + low,
{
    let r = (high as u64) << 32u64 | low as u64;
    assert((high as u64) << 32u64 | low as u64 == high * 0x1_0000_0000 + low) by (bit_vector);
    r
}

} // verus!
