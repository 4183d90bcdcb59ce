use esphub::aesccm::{Encrypt, SoftAes, AESCCM, HEADER_DATA};
use esphub::enums::{Command, Component, EspPayload, PacketError};
use esphub::nonce::{Nonce, MAX_5_BYTES};
use esphub::packet::AESCCMPacket;

const KEY: [u8; 16] = [
    0x72, 0x08, 0xe0, 0xeb, 0x70, 0xb1, 0xa8, 0x87, 0x29, 0x9f, 0x66, 0x94, 0xe9, 0x12, 0x4d, 0xc1,
];

fn any_payload() -> EspPayload {
    EspPayload::new(Command::Toggle(Component::Led(0)))
}

fn pair() -> (AESCCM<SoftAes>, AESCCM<SoftAes>) {
    (AESCCM::new(SoftAes, KEY), AESCCM::new(SoftAes, KEY))
}

fn packet_from(bytes: &[u8]) -> AESCCMPacket {
    let mut p = AESCCMPacket::new();
    p.extend(bytes);
    p
}

#[test]
fn soft_aes_matches_fips_197() {
    let key: [u8; 16] = [0, 1, 2, 3, 4, 5, 6, 7, 8, 9, 10, 11, 12, 13, 14, 15];
    let mut block: [u8; 16] = [
        0x00, 0x11, 0x22, 0x33, 0x44, 0x55, 0x66, 0x77, 0x88, 0x99, 0xaa, 0xbb, 0xcc, 0xdd, 0xee, 0xff,
    ];
    SoftAes.encrypt(&mut block, key);
    assert_eq!(
        block,
        [0x69, 0xc4, 0xe0, 0xd8, 0x6a, 0x7b, 0x04, 0x30, 0xd8, 0xcd, 0xb7, 0x80, 0x70, 0xb4, 0xc5, 0x5a]
    );
}

#[test]
fn short_payload_is_sealed_into_a_53_byte_packet() {
    let (mut tx, _) = pair();
    let packet = tx.encrypt(&[1, 0, 7]).unwrap();
    let bytes = packet.bytes();
    assert_eq!(bytes.len(), 53);
    assert_eq!(&bytes[0..2], &[0, 14]);
    assert_eq!(&bytes[2..16], &HEADER_DATA);
    assert_eq!(&bytes[2..16], b"Src:Ap Dst:Sta");
    assert_eq!(&bytes[16..24], &[0xff; 8]);
    assert_eq!(&bytes[24..29], &[0, 0, 0, 0, 1]);
}

#[test]
fn long_payload_is_sealed_into_a_69_byte_packet() {
    let (mut tx, _) = pair();
    let payload = [9u8; 20];
    let packet = tx.encrypt(&payload).unwrap();
    assert_eq!(packet.bytes().len(), 69);
}

#[test]
fn payload_over_32_bytes_is_refused() {
    let (mut tx, _) = pair();
    assert_eq!(tx.encrypt(&[0u8; 33]).err(), Some(PacketError::BufferOverflow));
    // the counter was not used: the next packet still carries counter 1
    let packet = tx.encrypt(&[0u8; 32]).unwrap();
    assert_eq!(&packet.bytes()[24..29], &[0, 0, 0, 0, 1]);
}

#[test]
fn successive_packets_carry_increasing_counters() {
    let (mut tx, _) = pair();
    let a = tx.encrypt(&[1]).unwrap();
    let b = tx.encrypt(&[1]).unwrap();
    assert_eq!(&a.bytes()[24..29], &[0, 0, 0, 0, 1]);
    assert_eq!(&b.bytes()[24..29], &[0, 0, 0, 0, 2]);
    assert_ne!(a.bytes(), b.bytes());
}

#[test]
fn ciphertext_differs_from_plaintext() {
    let (mut tx, _) = pair();
    let payload = [0u8; 16];
    let packet = tx.encrypt(&payload).unwrap();
    assert_ne!(&packet.bytes()[29..45], &payload);
}

#[test]
fn opening_a_sealed_packet_gives_back_the_padded_payload() {
    let (mut tx, mut rx) = pair();
    let packet = tx.encrypt(&[2, 0, 5]).unwrap();
    let opened = rx.decrypt(&packet).unwrap();
    let mut expected = [0u8; 16];
    expected[..3].copy_from_slice(&[2, 0, 5]);
    assert_eq!(opened.payload(), &expected);
    assert_eq!(opened.counter(), 1u64 << 24);
}

#[test]
fn opening_a_long_sealed_packet_gives_back_32_bytes() {
    let (mut tx, mut rx) = pair();
    let payload: Vec<u8> = (0u8..25).collect();
    let packet = tx.encrypt(&payload).unwrap();
    let opened = rx.decrypt(&packet).unwrap();
    assert_eq!(&opened.payload()[..25], payload.as_slice());
    assert_eq!(&opened.payload()[25..], &[0u8; 7]);
}

#[test]
fn an_accepted_packet_is_refused_when_replayed() {
    let (mut tx, mut rx) = pair();
    let packet = tx.encrypt(&[0, 0, 1]).unwrap();
    let opened = rx.decrypt(&packet).unwrap();
    rx.accept(&opened, Some(any_payload())).unwrap();
    assert_eq!(rx.decrypt(&packet).err(), Some(PacketError::Duplicate));
}

#[test]
fn a_packet_not_accepted_can_be_opened_again() {
    let (mut tx, mut rx) = pair();
    let packet = tx.encrypt(&[0, 0, 1]).unwrap();
    assert!(rx.decrypt(&packet).is_ok());
    assert!(rx.decrypt(&packet).is_ok());
}

#[test]
fn an_older_packet_is_refused_after_a_newer_one() {
    let (mut tx, mut rx) = pair();
    let first = tx.encrypt(&[1]).unwrap();
    let second = tx.encrypt(&[2]).unwrap();
    let opened = rx.decrypt(&second).unwrap();
    rx.accept(&opened, Some(any_payload())).unwrap();
    assert_eq!(rx.decrypt(&first).err(), Some(PacketError::Duplicate));
}

#[test]
fn a_tampered_ciphertext_is_refused_as_corrupted() {
    let (mut tx, mut rx) = pair();
    let packet = tx.encrypt(&[1, 0, 3]).unwrap();
    let mut bytes = packet.bytes().to_vec();
    bytes[30] ^= 0x01;
    assert_eq!(rx.decrypt(&packet_from(&bytes)).err(), Some(PacketError::Corrupted));
}

#[test]
fn a_tampered_tag_is_refused_as_corrupted() {
    let (mut tx, mut rx) = pair();
    let packet = tx.encrypt(&[1, 0, 3]).unwrap();
    let mut bytes = packet.bytes().to_vec();
    let last = bytes.len() - 1;
    bytes[last] ^= 0x80;
    assert_eq!(rx.decrypt(&packet_from(&bytes)).err(), Some(PacketError::Corrupted));
}

#[test]
fn a_packet_under_another_key_is_refused_as_corrupted() {
    let mut tx = AESCCM::new(SoftAes, [1u8; 16]);
    let mut rx = AESCCM::new(SoftAes, KEY);
    let packet = tx.encrypt(&[1, 0, 3]).unwrap();
    assert_eq!(rx.decrypt(&packet).err(), Some(PacketError::Corrupted));
}

#[test]
fn a_wrong_header_is_refused_as_unauthenticated() {
    let (mut tx, mut rx) = pair();
    let packet = tx.encrypt(&[1, 0, 3]).unwrap();
    let mut bytes = packet.bytes().to_vec();
    bytes[2] = b'X';
    assert_eq!(rx.decrypt(&packet_from(&bytes)).err(), Some(PacketError::Authentication));
}

#[test]
fn a_short_packet_is_refused_as_invalid() {
    let (_, mut rx) = pair();
    let bytes = [0u8; 37];
    assert_eq!(rx.decrypt(&packet_from(&bytes)).err(), Some(PacketError::InvalidFormat));
    assert_eq!(rx.decrypt(&AESCCMPacket::new()).err(), Some(PacketError::InvalidFormat));
}

#[test]
fn a_zero_counter_is_refused_as_duplicate() {
    let (_, mut rx) = pair();
    let mut bytes = vec![0u8, 14];
    bytes.extend_from_slice(&HEADER_DATA);
    bytes.extend_from_slice(&[0xff; 8]);
    bytes.extend_from_slice(&[0; 5]);
    bytes.extend_from_slice(&[0; 16]);
    bytes.extend_from_slice(&[0; 8]);
    assert_eq!(rx.decrypt(&packet_from(&bytes)).err(), Some(PacketError::Duplicate));
}

#[test]
fn nonce_inc_returns_the_new_counter_big_endian() {
    let mut n = Nonce::with_counter(0x01_02_03_04_04);
    assert_eq!(n.inc(), Ok([1, 2, 3, 4, 5]));
    assert_eq!(n.counter(), 0x01_02_03_04_05);
}

#[test]
fn nonce_inc_from_zero_gives_one() {
    let mut n = Nonce::with_counter(0);
    assert_eq!(n.inc(), Ok([0, 0, 0, 0, 1]));
}

#[test]
fn nonce_inc_stops_at_the_five_byte_maximum() {
    let mut n = Nonce::with_counter(MAX_5_BYTES - 1);
    assert_eq!(n.inc(), Ok([0xff; 5]));
    assert_eq!(n.inc(), Err(PacketError::AESCounterOverflow));
    assert_eq!(n.counter(), MAX_5_BYTES);
}

#[test]
fn nonce_set_replaces_the_counter() {
    let mut n = Nonce::with_counter(5);
    n.set(41);
    assert_eq!(n.counter(), 41);
    assert_eq!(n.inc(), Ok([0, 0, 0, 0, 42]));
}

#[test]
fn payload_keeps_its_command() {
    let p = EspPayload::new(Command::Toggle(Component::Led(3)));
    assert_eq!(p.cmd(), Command::Toggle(Component::Led(3)));
    let q = EspPayload::new(Command::Off(Component::Led(0)));
    assert_eq!(q.cmd(), Command::Off(Component::Led(0)));
}

#[test]
fn packet_extend_appends_bytes() {
    let mut p = AESCCMPacket::new();
    assert!(p.bytes().is_empty());
    p.extend(&[1, 2]);
    p.extend(&[3]);
    assert_eq!(p.bytes(), &[1, 2, 3]);
}

#[test]
fn accepting_an_older_packet_keeps_the_newer_bound() {
    let (mut tx, mut rx) = pair();
    let first = tx.encrypt(&[1]).unwrap();
    let second = tx.encrypt(&[2]).unwrap();
    let opened_first = rx.decrypt(&first).unwrap();
    let opened_second = rx.decrypt(&second).unwrap();
    rx.accept(&opened_second, Some(any_payload())).unwrap();
    rx.accept(&opened_first, Some(any_payload())).unwrap();
    assert_eq!(rx.decrypt(&second).err(), Some(PacketError::Duplicate));
    assert_eq!(rx.decrypt(&first).err(), Some(PacketError::Duplicate));
}

#[test]
fn packet_from_bytes_fits_or_refuses() {
    let p = AESCCMPacket::from_bytes(&[7u8; 69]).unwrap();
    assert_eq!(p.bytes(), &[7u8; 69]);
    assert!(AESCCMPacket::from_bytes(&[7u8; 70]).is_none());
}

/// AES-CCM as RFC 3610 defines it, with an 8-byte tag and a 2-byte length
/// field, written independently of the library with the `aes` crate.
fn block(key: &[u8; 16], b: [u8; 16]) -> [u8; 16] {
    let mut b = b;
    SoftAes.encrypt(&mut b, *key);
    b
}

fn ccm_seal(key: &[u8; 16], nonce: &[u8; 13], aad: &[u8], m: &[u8]) -> (Vec<u8>, [u8; 8]) {
    let mut b0 = [0u8; 16];
    b0[0] = 0x40 | (((8 - 2) / 2) << 3) | (2 - 1);
    b0[1..14].copy_from_slice(nonce);
    b0[14..16].copy_from_slice(&(m.len() as u16).to_be_bytes());
    let mut x = block(key, b0);
    let mut auth = Vec::new();
    auth.extend_from_slice(&(aad.len() as u16).to_be_bytes());
    auth.extend_from_slice(aad);
    while auth.len() % 16 != 0 {
        auth.push(0);
    }
    let mut msg = m.to_vec();
    while msg.len() % 16 != 0 {
        msg.push(0);
    }
    auth.extend_from_slice(&msg);
    for chunk in auth.chunks(16) {
        let mut y = x;
        for j in 0..16 {
            y[j] ^= chunk[j];
        }
        x = block(key, y);
    }
    let ctr = |i: u16| {
        let mut a = [0u8; 16];
        a[0] = 2 - 1;
        a[1..14].copy_from_slice(nonce);
        a[14..16].copy_from_slice(&i.to_be_bytes());
        block(key, a)
    };
    let s0 = ctr(0);
    let mut tag = [0u8; 8];
    for i in 0..8 {
        tag[i] = x[i] ^ s0[i];
    }
    let mut c = m.to_vec();
    for (i, byte) in c.iter_mut().enumerate() {
        *byte ^= ctr((i / 16 + 1) as u16)[i % 16];
    }
    (c, tag)
}

#[test]
fn sealed_packets_are_standard_aes_ccm() {
    for payload in [vec![1u8, 0, 7], vec![5u8; 16], (0u8..30).collect::<Vec<u8>>()] {
        let (mut tx, _) = pair();
        let packet = tx.encrypt(&payload).unwrap();
        let bytes = packet.bytes();
        let mut nonce = [0u8; 13];
        nonce.copy_from_slice(&bytes[16..29]);
        let mut padded = payload.clone();
        let target = if payload.len() <= 16 { 16 } else { 32 };
        padded.resize(target, 0);
        let (c, tag) = ccm_seal(&KEY, &nonce, b"Src:Ap Dst:Sta", &padded);
        assert_eq!(&bytes[29..29 + target], c.as_slice());
        assert_eq!(&bytes[29 + target..], &tag);
    }
}

#[test]
fn standard_aes_ccm_packets_of_any_length_open() {
    let (_, mut rx) = pair();
    let nonce: [u8; 13] = [0xff, 0xff, 0xff, 0xff, 0xff, 0xff, 0xff, 0xff, 0, 0, 0, 0, 9];
    let m: Vec<u8> = (100u8..120).collect();
    let (c, tag) = ccm_seal(&KEY, &nonce, b"Src:Ap Dst:Sta", &m);
    let mut bytes = vec![0u8, 14];
    bytes.extend_from_slice(b"Src:Ap Dst:Sta");
    bytes.extend_from_slice(&nonce);
    bytes.extend_from_slice(&c);
    bytes.extend_from_slice(&tag);
    let opened = rx.decrypt(&packet_from(&bytes)).unwrap();
    assert_eq!(opened.payload(), m.as_slice());
    assert_eq!(opened.counter(), 9u64 << 24);
}

#[test]
fn an_unreadable_payload_is_refused_and_not_accepted() {
    let (mut tx, mut rx) = pair();
    let packet = tx.encrypt(&[0xff, 0xff, 0xff]).unwrap();
    let opened = rx.decrypt(&packet).unwrap();
    assert_eq!(rx.accept(&opened, None), Err(PacketError::InvalidFormat));
    // nothing was accepted: the packet still opens
    assert!(rx.decrypt(&packet).is_ok());
}

#[test]
fn accept_hands_back_the_payload() {
    let (mut tx, mut rx) = pair();
    let packet = tx.encrypt(&[1, 0, 0]).unwrap();
    let opened = rx.decrypt(&packet).unwrap();
    let p = EspPayload::new(Command::On(Component::Led(0)));
    assert_eq!(rx.accept(&opened, Some(p)), Ok(p));
}
