use crate::enums::{EspPayload, PacketError};
use crate::nonce::{nonce_bytes, Nonce, MAX_5_BYTES};
use aes::cipher::{BlockEncrypt, KeyInit};
use crate::packet::{
    payload_buf_as_slice, payload_buf_new, payload_buf_push, payload_contents, AESCCMPacket,
};
use vstd::prelude::*;

verus! {

/// Control byte of the authentication block: associated data present,
/// an 8-byte tag, a 2-byte length field.
pub const CTL_BYTE: u8 = 0b01011001;

/// Largest serialized payload a packet carries.
pub const MAX_PAYLOAD_LEN: usize = 32;

/// Length of the associated header text.
pub const HEADER_LEN: u16 = 14;

/// Length of the associated header with its length prefix.
pub const HEADER_SIZE: usize = 16;

/// Length of the authentication tag.
pub const TAG_SIZE: usize = 8;

/// Length of the station address and message counter that follow the header.
pub const NONCE_SIZE: usize = 13;

/// The associated header text, "Src:Ap Dst:Sta".
pub const HEADER_DATA: [u8; 14] = [
    0x53u8, 0x72u8, 0x63u8, 0x3au8, 0x41u8, 0x70u8, 0x20u8,
    0x44u8, 0x73u8, 0x74u8, 0x3au8, 0x53u8, 0x74u8, 0x61u8,
];

/// The AES-128 encryption of the 16-byte `block` under the 16-byte `key`.
pub uninterp spec fn aes128(key: Seq<u8>, block: Seq<u8>) -> Seq<u8>;

/// `aes::Aes128` (its key schedule, then `encrypt_block`): the AES-128
/// encryption of `block` under `key`.
#[verifier::external_body]
fn aes128_encrypt_block(block: [u8; 16], key: [u8; 16]) -> (r: [u8; 16])
    ensures
        r@ == aes128(key@, block@),
{
    let cipher = aes::Aes128::new(&key.into());
    let mut b = aes::Block::from(block);
    cipher.encrypt_block(&mut b);
    b.into()
}

/// An AES-128 engine that packets are sealed with, such as the chip's AES
/// peripheral. An implementation is taken at its word that it computes
/// AES-128; `SoftAes` below computes it with the `aes` crate.
pub trait Encrypt {
    /// Replaces `block` by its AES-128 encryption under `key`.
    fn encrypt(&mut self, block: &mut [u8; 16], key: [u8; 16])
        ensures
            final(block)@ == aes128(key@, old(block)@),
    ;
}

/// AES-128 computed in software.
pub struct SoftAes;

impl Encrypt for SoftAes {
    fn encrypt(&mut self, block: &mut [u8; 16], key: [u8; 16]) {
        *block = aes128_encrypt_block(*block, key);
    }
}

/// `n` zero bytes.
pub open spec fn zeros(n: int) -> Seq<u8> {
    Seq::new(n as nat, |i: int| 0u8)
}

/// The associated header as it enters the tag: its length, then its text.
pub open spec fn header_bytes() -> Seq<u8> {
    seq![0u8, 14u8] + HEADER_DATA@
}

/// The station address that sealed packets carry: the broadcast address.
pub open spec fn broadcast_mac() -> Seq<u8> {
    Seq::new(8, |i: int| 0xffu8)
}

/// `v` as two big-endian bytes.
pub open spec fn be16(v: u16) -> Seq<u8> {
    seq![((v >> 8u16) & 0xffu16) as u8, (v & 0xffu16) as u8]
}

/// A cipher input block: a flag byte, the address, the message counter and
/// a 16-bit field.
pub open spec fn cipher_input(flag: u8, mac: Seq<u8>, nonce: Seq<u8>, field: u16) -> Seq<u8> {
    seq![flag] + mac + nonce + be16(field)
}

/// The 16-byte exclusive or of two blocks.
pub open spec fn xor_block(a: Seq<u8>, b: Seq<u8>) -> Seq<u8> {
    Seq::new(16, |i: int| a[i] ^ b[i])
}

/// The CBC-MAC chain over the first `n` 16-byte chunks of `data`, started
/// from `x0`.
pub open spec fn mac_chain(key: Seq<u8>, x0: Seq<u8>, data: Seq<u8>, n: nat) -> Seq<u8>
    decreases n,
{
    if n == 0 {
        x0
    } else {
        aes128(
            key,
            xor_block(
                mac_chain(key, x0, data, (n - 1) as nat),
                data.subrange(16 * (n - 1), (16 * n) as int),
            ),
        )
    }
}

/// Flag byte of the counter blocks: a 2-byte counter field (L - 1 = 1).
pub const CTR_FLAG: u8 = 1;

/// The data the tag authenticates: the associated header block, then the
/// plaintext, then zeros up to the largest payload.
pub open spec fn auth_data(plain: Seq<u8>) -> Seq<u8> {
    header_bytes() + plain + zeros(32 - plain.len())
}

/// How many blocks the tag chains over: the header block and the
/// plaintext's blocks, the last one padded with zeros.
pub open spec fn auth_blocks(len: nat) -> nat {
    (1 + (len + 15) / 16) as nat
}

/// The AES-CCM authentication tag (8 bytes, 2-byte length field) of `plain`
/// sent from `mac` under counter bytes `nonce`, with the associated header.
pub open spec fn ccm_tag(key: Seq<u8>, mac: Seq<u8>, nonce: Seq<u8>, plain: Seq<u8>) -> Seq<u8> {
    let x = mac_chain(
        key,
        aes128(key, cipher_input(CTL_BYTE, mac, nonce, plain.len() as u16)),
        auth_data(plain),
        auth_blocks(plain.len()),
    );
    let s0 = aes128(key, cipher_input(CTR_FLAG, mac, nonce, 0u16));
    Seq::new(8, |i: int| x[i] ^ s0[i])
}

/// Byte `i` of the counter-mode key stream.
pub open spec fn key_stream(key: Seq<u8>, mac: Seq<u8>, nonce: Seq<u8>, i: int) -> u8 {
    aes128(key, cipher_input(CTR_FLAG, mac, nonce, (i / 16 + 1) as u16))[i % 16]
}

/// `data` with its first `m` bytes combined with the key stream.
pub open spec fn ctr_prefix(key: Seq<u8>, mac: Seq<u8>, nonce: Seq<u8>, data: Seq<u8>, m: int) -> Seq<u8> {
    Seq::new(
        data.len(),
        |i: int|
            if i < m {
                data[i] ^ key_stream(key, mac, nonce, i)
            } else {
                data[i]
            },
    )
}

/// Counter-mode encryption (and decryption) of `data`.
pub open spec fn ctr_crypt(key: Seq<u8>, mac: Seq<u8>, nonce: Seq<u8>, data: Seq<u8>) -> Seq<u8> {
    ctr_prefix(key, mac, nonce, data, data.len() as int)
}

/// How many plaintext bytes a packet carries for a payload of `n` bytes.
pub open spec fn padded_len(n: nat) -> nat {
    if n <= 16 {
        16
    } else {
        32
    }
}

/// The payload padded with zeros to the length a packet carries.
pub open spec fn padded_plaintext(payload: Seq<u8>) -> Seq<u8> {
    (payload + zeros(32 - payload.len())).take(padded_len(payload.len()) as int)
}

/// The packet that seals `payload` under `key` with message counter `counter`.
pub open spec fn seal(key: Seq<u8>, counter: u64, payload: Seq<u8>) -> Seq<u8> {
    let nonce = nonce_bytes(counter);
    let plain = padded_plaintext(payload);
    header_bytes() + broadcast_mac() + nonce + ctr_crypt(key, broadcast_mac(), nonce, plain) + ccm_tag(
        key,
        broadcast_mac(),
        nonce,
        plain,
    )
}

/// The counter a received packet's five counter bytes stand for, as the
/// receiver keeps it: the bytes are read as the top of a big-endian u64.
pub open spec fn nonce_value(raw: Seq<u8>) -> u64 {
    ((raw[0] as u64) << 56u64) | ((raw[1] as u64) << 48u64) | ((raw[2] as u64) << 40u64) | ((
    raw[3] as u64) << 32u64) | ((raw[4] as u64) << 24u64)
}

/// What opening `bytes` under `key` yields for a receiver that has accepted
/// counters up to `rx`: the plaintext and the packet's counter, or the
/// reason it is refused.
pub open spec fn open_packet(key: Seq<u8>, rx: u64, bytes: Seq<u8>) -> Result<(Seq<u8>, u64), PacketError> {
    let len = bytes.len() as int;
    if len <= (HEADER_SIZE + NONCE_SIZE + TAG_SIZE) as int {
        Err(PacketError::InvalidFormat)
    } else if bytes.subrange(2, 16) != HEADER_DATA@ {
        Err(PacketError::Authentication)
    } else {
        let mac = bytes.subrange(16, 24);
        let raw = bytes.subrange(24, 29);
        let n = nonce_value(raw);
        if n <= rx {
            Err(PacketError::Duplicate)
        } else {
            let plain = ctr_crypt(key, mac, raw, bytes.subrange(29, len - 8));
            if bytes.subrange(len - 8, len) != ccm_tag(key, mac, raw, plain) {
                Err(PacketError::Corrupted)
            } else {
                Ok((plain, n))
            }
        }
    }
}

/// One cipher call on a copy of `block`.
fn cipher_block<T: Encrypt>(aes: &mut T, block: [u8; 16], key: [u8; 16]) -> (r: [u8; 16])
    ensures
        r@ == aes128(key@, block@),
{
    let mut b = block;
    aes.encrypt(&mut b, key);
    b
}

/// The cipher input block made of `flag`, the address, the counter bytes
/// and `field`.
fn make_block(flag: u8, mac: &[u8; 8], nonce: &[u8; 5], field: u16) -> (r: [u8; 16])
    ensures
        r@ == cipher_input(flag, mac@, nonce@, field),
{
    let r = [
        flag,
        mac[0],
        mac[1],
        mac[2],
        mac[3],
        mac[4],
        mac[5],
        mac[6],
        mac[7],
        nonce[0],
        nonce[1],
        nonce[2],
        nonce[3],
        nonce[4],
        ((field >> 8u16) & 0xffu16) as u8,
        (field & 0xffu16) as u8,
    ];
    assert(r@ =~= cipher_input(flag, mac@, nonce@, field));
    r
}

/// The CBC-MAC chain over the first `n` chunks of `data`, started from the
/// image of `b0`.
fn cbc_mac<T: Encrypt>(aes: &mut T, key: [u8; 16], b0: [u8; 16], data: &[u8; 48], n: usize) -> (r: [u8; 16])
    requires
        n <= 3,
    ensures
        r@ == mac_chain(key@, aes128(key@, b0@), data@, n as nat),
{
    let ghost x0 = aes128(key@, b0@);
    let mut x = cipher_block(aes, b0, key);
    let mut c: usize = 0;
    while c < n
        invariant
            n <= 3,
            c <= n,
            x0 == aes128(key@, b0@),
            x@ == mac_chain(key@, x0, data@, c as nat),
        decreases n - c,
    {
        let mut y = x;
        let mut j: usize = 0;
        while j < 16
            invariant
                c < n <= 3,
                j <= 16,
                forall|i: int| 0 <= i < j ==> y@[i] == x@[i] ^ data@[16 * c + i],
            decreases 16 - j,
        {
            y[j] = x[j] ^ data[16 * c + j];
            j = j + 1;
        }
        assert(y@ =~= xor_block(x@, data@.subrange(16 * c as int, 16 * (c + 1) as int)));
        x = cipher_block(aes, y, key);
        c = c + 1;
    }
    x
}

/// Index arithmetic of 16-byte chunks.
proof fn lemma_chunk_index(c: int, j: int)
    requires
        0 <= c,
        0 <= j < 16,
    ensures
        (16 * c + j) / 16 == c,
        (16 * c + j) % 16 == j,
{
    assert((16 * c + j) / 16 == c && (16 * c + j) % 16 == j) by (nonlinear_arith)
        requires
            0 <= c,
            0 <= j < 16,
    ;
}

/// Combines the bytes of chunk `c` of `data` that lie before `end` with
/// the key stream block `ks`, which is the image of counter block `c + 1`.
fn xor_chunk(
    data: &mut [u8; 32],
    ks: &[u8; 16],
    c: usize,
    end: usize,
    Ghost(key): Ghost<Seq<u8>>,
    Ghost(mac): Ghost<Seq<u8>>,
    Ghost(nonce): Ghost<Seq<u8>>,
    Ghost(orig): Ghost<Seq<u8>>,
)
    requires
        c < 2,
        16 * c < end <= 32,
        orig.len() == 32,
        ks@ == aes128(key, cipher_input(CTR_FLAG, mac, nonce, (c + 1) as u16)),
        old(data)@ == ctr_prefix(key, mac, nonce, orig, 16 * c),
    ensures
        end <= 16 * (c + 1) ==> final(data)@ == ctr_prefix(key, mac, nonce, orig, end as int),
        end > 16 * (c + 1) ==> final(data)@ == ctr_prefix(key, mac, nonce, orig, 16 * (c + 1)),
{
    let lim: usize = if end - 16 * c < 16 {
        end - 16 * c
    } else {
        16
    };
    let mut j: usize = 0;
    while j < lim
        invariant
            c < 2,
            16 * c < end <= 32,
            lim <= 16,
            16 * c + lim <= end,
            j <= lim,
            orig.len() == 32,
            ks@ == aes128(key, cipher_input(CTR_FLAG, mac, nonce, (c + 1) as u16)),
            data@ == ctr_prefix(key, mac, nonce, orig, 16 * c + j),
        decreases lim - j,
    {
        proof {
            lemma_chunk_index(c as int, j as int);
        }
        data[16 * c + j] = data[16 * c + j] ^ ks[j];
        assert(data@ =~= ctr_prefix(key, mac, nonce, orig, 16 * c + j + 1));
        j = j + 1;
    }
}

/// Sealing and opening of command packets with AES in CCM mode, and the
/// message counters that keep each packet unique and refuse replays.
pub struct AESCCM<T: Encrypt> {
    rx_nonce: Nonce,
    tx_nonce: Nonce,
    key: [u8; 16],
    aes: T,
}

impl<T: Encrypt> AESCCM<T> {
    /// The counter of the last packet accepted.
    pub closed spec fn rx_counter(&self) -> u64 {
        self.rx_nonce.value()
    }

    /// The counter of the last packet sealed.
    pub closed spec fn tx_counter(&self) -> u64 {
        self.tx_nonce.value()
    }

    /// The key packets are sealed and opened with.
    pub closed spec fn key_bytes(&self) -> Seq<u8> {
        self.key@
    }

    /// The AES engine packets are sealed with.
    pub closed spec fn engine(&self) -> T {
        self.aes
    }

    /// A sealer for `key`, using `aes`, that has sent and accepted nothing yet.
    pub fn new(aes: T, key: [u8; 16]) -> (r: Self)
        ensures
            r.engine() == aes,
            r.rx_counter() == 0,
            r.tx_counter() == 0,
            r.key_bytes() == key@,
    {
        AESCCM { rx_nonce: Nonce::with_counter(0), tx_nonce: Nonce::with_counter(0), key, aes }
    }

    /// Seals a serialized payload into a packet under the next message
    /// counter. A payload longer than a packet carries, or a counter that
    /// has run out, is refused and changes nothing.
    pub fn encrypt(&mut self, payload: &[u8]) -> (r: Result<AESCCMPacket, PacketError>)
        ensures
            final(self).rx_counter() == old(self).rx_counter(),
            final(self).key_bytes() == old(self).key_bytes(),
            payload@.len() > MAX_PAYLOAD_LEN ==> r == Err::<AESCCMPacket, PacketError>(PacketError::BufferOverflow),
            payload@.len() > MAX_PAYLOAD_LEN ==> final(self).tx_counter() == old(self).tx_counter(),
            payload@.len() <= MAX_PAYLOAD_LEN && old(self).tx_counter() >= MAX_5_BYTES ==> r == Err::<AESCCMPacket, PacketError>(PacketError::AESCounterOverflow),
            payload@.len() <= MAX_PAYLOAD_LEN && old(self).tx_counter() >= MAX_5_BYTES ==> final(self).tx_counter() == old(self).tx_counter(),
            payload@.len() <= MAX_PAYLOAD_LEN && old(self).tx_counter() < MAX_5_BYTES ==> final(self).tx_counter() == old(self).tx_counter() + 1,
            payload@.len() <= MAX_PAYLOAD_LEN && old(self).tx_counter() < MAX_5_BYTES ==> (r matches Ok(p) && p@ == seal(old(self).key_bytes(), (old(self).tx_counter() + 1) as u64, payload@)),
    {
        if payload.len() > MAX_PAYLOAD_LEN {
            return Err(PacketError::BufferOverflow);
        }
        let len = payload.len();
        let ghost pad32 = payload@ + zeros(32 - len);
        let mut payload_buf = [0u8; 32];
        let mut i: usize = 0;
        while i < len
            invariant
                len == payload@.len() <= 32,
                i <= len,
                payload_buf@ =~= payload@.take(i as int) + zeros(32 - i),
            decreases len - i,
        {
            payload_buf[i] = payload[i];
            i = i + 1;
            assert(payload_buf@ =~= payload@.take(i as int) + zeros(32 - i));
        }
        assert(payload_buf@ =~= pad32);
        let padded_tx_len: usize = if len <= 16 {
            16
        } else {
            MAX_PAYLOAD_LEN
        };
        let nonce = match self.tx_nonce.inc() {
            Ok(n) => n,
            Err(e) => {
                return Err(e);
            },
        };
        let mac_addr: [u8; 8] = [0xffu8, 0xffu8, 0xffu8, 0xffu8, 0xffu8, 0xffu8, 0xffu8, 0xffu8];
        assert(mac_addr@ =~= broadcast_mac());
        let ghost plain = padded_plaintext(payload@);
        assert(plain =~= pad32.take(padded_tx_len as int));
        // the authentication block and the authenticated data
        let b_block = make_block(CTL_BYTE, &mac_addr, &nonce, padded_tx_len as u16);
        let mut head_and_data = [0u8; 48];
        head_and_data[1] = 14u8;
        let mut k: usize = 0;
        while k < 14
            invariant
                k <= 14,
                forall|m: int| 2 <= m < 2 + k ==> head_and_data@[m] == HEADER_DATA@[m - 2],
                forall|m: int| 16 <= m < 48 ==> head_and_data@[m] == 0u8,
                head_and_data@[0] == 0u8,
                head_and_data@[1] == 14u8,
            decreases 14 - k,
        {
            head_and_data[2 + k] = HEADER_DATA[k];
            k = k + 1;
        }
        let mut k: usize = 0;
        while k < padded_tx_len
            invariant
                padded_tx_len <= 32,
                k <= padded_tx_len,
                payload_buf@ == pad32,
                forall|m: int| 2 <= m < 16 ==> head_and_data@[m] == HEADER_DATA@[m - 2],
                forall|m: int| 16 <= m < 16 + k ==> head_and_data@[m] == pad32[m - 16],
                forall|m: int| 16 + k <= m < 48 ==> head_and_data@[m] == 0u8,
                head_and_data@[0] == 0u8,
                head_and_data@[1] == 14u8,
            decreases padded_tx_len - k,
        {
            head_and_data[16 + k] = payload_buf[k];
            k = k + 1;
        }
        assert(head_and_data@ =~= auth_data(plain));
        // the tag, over the header block and the plaintext's blocks
        let n_blocks = 1 + padded_tx_len / 16;
        assert(n_blocks == auth_blocks(plain.len()));
        let x = cbc_mac(&mut self.aes, self.key, b_block, &head_and_data, n_blocks);
        let a_block = make_block(CTR_FLAG, &mac_addr, &nonce, 0u16);
        let s0 = cipher_block(&mut self.aes, a_block, self.key);
        let mut tag = [0u8; 8];
        let mut k: usize = 0;
        while k < 8
            invariant
                k <= 8,
                x@.len() == 16,
                s0@.len() == 16,
                forall|m: int| 0 <= m < k ==> tag@[m] == x@[m] ^ s0@[m],
            decreases 8 - k,
        {
            tag[k] = x[k] ^ s0[k];
            k = k + 1;
        }
        assert(tag@ =~= ccm_tag(self.key@, broadcast_mac(), nonce@, plain));
        // counter-mode encryption of the payload
        let ghost key = self.key@;
        let ghost tx_after = self.tx_nonce;
        let mut counter: u16 = 0;
        let mut c: usize = 0;
        let chunks = padded_tx_len / 16;
        assert(payload_buf@ =~= ctr_prefix(key, broadcast_mac(), nonce@, pad32, 0));
        while c < chunks
            invariant
                padded_tx_len == 16 || padded_tx_len == 32,
                chunks == padded_tx_len / 16,
                c <= chunks,
                counter == c,
                key == self.key@,
                self.rx_nonce == old(self).rx_nonce,
                self.tx_nonce == tx_after,
                self.key == old(self).key,
                mac_addr@ == broadcast_mac(),
                pad32.len() == 32,
                payload_buf@ == ctr_prefix(key, broadcast_mac(), nonce@, pad32, 16 * c),
            decreases chunks - c,
        {
            counter = match counter.checked_add(1) {
                Some(v) => v,
                None => {
                    return Err(PacketError::AESCounterOverflow);
                },
            };
            let block = make_block(CTR_FLAG, &mac_addr, &nonce, counter);
            let ks = cipher_block(&mut self.aes, block, self.key);
            xor_chunk(&mut payload_buf, &ks, c, padded_tx_len, Ghost(key), Ghost(broadcast_mac()), Ghost(nonce@), Ghost(pad32));
            c = c + 1;
        }
        let ghost cipher = ctr_crypt(key, broadcast_mac(), nonce@, plain);
        assert(payload_buf@.take(padded_tx_len as int) =~= cipher);
        // the packet
        let mut packet = AESCCMPacket::new();
        let header_len: [u8; 2] = [0u8, 14u8];
        packet.extend(header_len.as_slice());
        packet.extend(HEADER_DATA.as_slice());
        packet.extend(mac_addr.as_slice());
        packet.extend(nonce.as_slice());
        packet.extend(&payload_buf.as_slice()[0..padded_tx_len]);
        packet.extend(tag.as_slice());
        assert(nonce@ == nonce_bytes(self.tx_nonce.value()));
        assert(header_len@ + HEADER_DATA@ =~= header_bytes());
        assert(packet@ =~= header_len@ + HEADER_DATA@ + mac_addr@ + nonce@ + cipher + tag@);
        assert(packet@ =~= seal(key, self.tx_nonce.value(), payload@));
        Ok(packet)
    }

    /// Checks and opens a packet: its length, its associated header, that
    /// its counter is newer than the last one accepted, and its tag. Nothing
    /// is accepted yet: `accept` does that once the plaintext has been read
    /// as a payload.
    #[verifier::loop_isolation(false)]
    pub fn decrypt(&mut self, aes_packet: &AESCCMPacket) -> (r: Result<OpenedPacket, PacketError>)
        ensures
            final(self).rx_counter() == old(self).rx_counter(),
            final(self).tx_counter() == old(self).tx_counter(),
            final(self).key_bytes() == old(self).key_bytes(),
            open_packet(old(self).key_bytes(), old(self).rx_counter(), aes_packet@) matches Ok(ok) ==> (r matches Ok(o) && o.plaintext() == ok.0 && o.packet_counter() == ok.1),
            open_packet(old(self).key_bytes(), old(self).rx_counter(), aes_packet@) matches Err(e) ==> r == Err::<OpenedPacket, PacketError>(e),
    {
        let bytes = aes_packet.bytes();
        let len = bytes.len();
        if len <= HEADER_SIZE + NONCE_SIZE + TAG_SIZE {
            return Err(PacketError::InvalidFormat);
        }
        let mut k: usize = 0;
        while k < 14
            invariant
                k <= 14,
                len == bytes@.len(),
                len > 37,
                forall|m: int| 0 <= m < k ==> bytes@[2 + m] == HEADER_DATA@[m],
            decreases 14 - k,
        {
            if bytes[2 + k] != HEADER_DATA[k] {
                assert(bytes@.subrange(2, 16)[k as int] != HEADER_DATA@[k as int]);
                return Err(PacketError::Authentication);
            }
            k = k + 1;
        }
        assert(bytes@.subrange(2, 16) =~= HEADER_DATA@);
        let mut mac_addr = [0u8; 8];
        let mut k: usize = 0;
        while k < 8
            invariant
                k <= 8,
                len == bytes@.len(),
                len > 37,
                forall|m: int| 0 <= m < k ==> mac_addr@[m] == bytes@[16 + m],
            decreases 8 - k,
        {
            mac_addr[k] = bytes[16 + k];
            k = k + 1;
        }
        assert(mac_addr@ =~= bytes@.subrange(16, 24));
        let raw_nonce: [u8; 5] = [bytes[24], bytes[25], bytes[26], bytes[27], bytes[28]];
        assert(raw_nonce@ =~= bytes@.subrange(24, 29));
        let nonce: u64 = ((raw_nonce[0] as u64) << 56u64) | ((raw_nonce[1] as u64) << 48u64) | ((
        raw_nonce[2] as u64) << 40u64) | ((raw_nonce[3] as u64) << 32u64) | ((raw_nonce[4] as u64)
            << 24u64);
        if nonce <= self.rx_nonce.counter() {
            return Err(PacketError::Duplicate);
        }
        // the received tag
        let mut tag = [0u8; 8];
        let mut k: usize = 0;
        while k < 8
            invariant
                k <= 8,
                len == bytes@.len(),
                len > 37,
                forall|m: int| 0 <= m < k ==> tag@[m] == bytes@[len - 8 + m],
            decreases 8 - k,
        {
            tag[k] = bytes[len - TAG_SIZE + k];
            k = k + 1;
        }
        assert(tag@ =~= bytes@.subrange(len - 8, len as int));
        // the ciphertext
        let payload_len = len - HEADER_SIZE - TAG_SIZE - NONCE_SIZE;
        let ghost ctext = bytes@.subrange(29, len - 8);
        let ghost orig = ctext + zeros(32 - payload_len);
        let mut plain = [0u8; 32];
        let mut k: usize = 0;
        while k < payload_len
            invariant
                len == bytes@.len(),
                37 < len <= 69,
                payload_len == len - 37,
                k <= payload_len,
                ctext == bytes@.subrange(29, len - 8),
                plain@ =~= ctext.take(k as int) + zeros(32 - k),
            decreases payload_len - k,
        {
            plain[k] = bytes[HEADER_SIZE + NONCE_SIZE + k];
            k = k + 1;
            assert(plain@ =~= ctext.take(k as int) + zeros(32 - k));
        }
        assert(plain@ =~= orig);
        // counter-mode decryption, the last chunk possibly partial
        let ghost key = self.key@;
        let ghost before = *self;
        let chunks = (payload_len + 15) / 16;
        let mut counter: u16 = 0;
        let mut c: usize = 0;
        assert(plain@ =~= ctr_prefix(key, mac_addr@, raw_nonce@, orig, 0));
        while c < chunks
            invariant
                chunks == (payload_len + 15) / 16,
                0 < payload_len <= 32,
                c <= chunks,
                counter == c,
                key == self.key@,
                self.rx_nonce == before.rx_nonce,
                self.tx_nonce == before.tx_nonce,
                self.key == before.key,
                orig.len() == 32,
                plain@ == ctr_prefix(key, mac_addr@, raw_nonce@, orig, if 16 * c < payload_len { 16 * c } else { payload_len as int }),
            decreases chunks - c,
        {
            counter = match counter.checked_add(1) {
                Some(v) => v,
                None => {
                    return Err(PacketError::AESCounterOverflow);
                },
            };
            let block = make_block(CTR_FLAG, &mac_addr, &raw_nonce, counter);
            let ks = cipher_block(&mut self.aes, block, self.key);
            xor_chunk(&mut plain, &ks, c, payload_len, Ghost(key), Ghost(mac_addr@), Ghost(raw_nonce@), Ghost(orig));
            c = c + 1;
        }
        let ghost ptext = ctr_crypt(key, mac_addr@, raw_nonce@, ctext);
        assert(plain@ =~= ptext + zeros(32 - payload_len));
        // the tag the packet should carry
        let b_block = make_block(CTL_BYTE, &mac_addr, &raw_nonce, payload_len as u16);
        let mut head_and_data = [0u8; 48];
        head_and_data[1] = 14u8;
        let mut k: usize = 0;
        while k < 14
            invariant
                k <= 14,
                forall|m: int| 2 <= m < 2 + k ==> head_and_data@[m] == HEADER_DATA@[m - 2],
                forall|m: int| 16 <= m < 48 ==> head_and_data@[m] == 0u8,
                head_and_data@[0] == 0u8,
                head_and_data@[1] == 14u8,
            decreases 14 - k,
        {
            head_and_data[2 + k] = HEADER_DATA[k];
            k = k + 1;
        }
        let mut k: usize = 0;
        while k < 32
            invariant
                k <= 32,
                forall|m: int| 2 <= m < 16 ==> head_and_data@[m] == HEADER_DATA@[m - 2],
                forall|m: int| 16 <= m < 16 + k ==> head_and_data@[m] == plain@[m - 16],
                head_and_data@[0] == 0u8,
                head_and_data@[1] == 14u8,
            decreases 32 - k,
        {
            head_and_data[16 + k] = plain[k];
            k = k + 1;
        }
        assert(head_and_data@ =~= auth_data(ptext));
        let n_blocks = 1 + chunks;
        let x = cbc_mac(&mut self.aes, self.key, b_block, &head_and_data, n_blocks);
        let a_block = make_block(CTR_FLAG, &mac_addr, &raw_nonce, 0u16);
        let s0 = cipher_block(&mut self.aes, a_block, self.key);
        let ghost expected = ccm_tag(key, mac_addr@, raw_nonce@, ptext);
        let mut k: usize = 0;
        while k < 8
            invariant
                k <= 8,
                x@.len() == 16,
                s0@.len() == 16,
                expected == Seq::new(8, |i: int| x@[i] ^ s0@[i]),
                forall|m: int| 0 <= m < k ==> tag@[m] == expected[m],
            decreases 8 - k,
        {
            if tag[k] != x[k] ^ s0[k] {
                assert(tag@[k as int] != expected[k as int]);
                return Err(PacketError::Corrupted);
            }
            k = k + 1;
        }
        assert(tag@ =~= expected);
        // the plaintext
        let mut payload = payload_buf_new();
        let mut k: usize = 0;
        while k < payload_len
            invariant
                payload_len <= 32,
                k <= payload_len,
                ptext.len() == payload_len,
                plain@ == ptext + zeros(32 - payload_len),
                payload_contents(payload) == ptext.take(k as int),
            decreases payload_len - k,
        {
            let _ = payload_buf_push(&mut payload, plain[k]);
            assert(ptext.take(k + 1) =~= ptext.take(k as int).push(plain@[k as int]));
            k = k + 1;
        }
        assert(ptext.take(payload_len as int) =~= ptext);
        Ok(OpenedPacket { payload, counter: nonce })
    }

    /// Finishes opening a packet once its plaintext has been read as a
    /// payload: a plaintext that is not a payload (`None`) is refused as
    /// `InvalidFormat` and nothing is accepted; otherwise the packet is
    /// accepted, so that later packets must carry a newer counter, and the
    /// payload is handed back.
    pub fn accept(&mut self, opened: &OpenedPacket, payload: Option<EspPayload>) -> (r: Result<EspPayload, PacketError>)
        ensures
            payload is None ==> r == Err::<EspPayload, PacketError>(PacketError::InvalidFormat),
            payload is None ==> final(self).rx_counter() == old(self).rx_counter(),
            payload matches Some(p) ==> r == Ok::<EspPayload, PacketError>(p),
            payload is Some && opened.packet_counter() > old(self).rx_counter() ==> final(self).rx_counter() == opened.packet_counter(),
            payload is Some && opened.packet_counter() <= old(self).rx_counter() ==> final(self).rx_counter() == old(self).rx_counter(),
            final(self).tx_counter() == old(self).tx_counter(),
            final(self).key_bytes() == old(self).key_bytes(),
    {
        match payload {
            None => Err(PacketError::InvalidFormat),
            Some(p) => {
                self.commit(opened);
                Ok(p)
            },
        }
    }

    /// Raises the replay bound to an opened packet's counter; the bound
    /// never falls.
    fn commit(&mut self, opened: &OpenedPacket)
        ensures
            opened.packet_counter() > old(self).rx_counter() ==> final(self).rx_counter() == opened.packet_counter(),
            opened.packet_counter() <= old(self).rx_counter() ==> final(self).rx_counter() == old(self).rx_counter(),
            final(self).tx_counter() == old(self).tx_counter(),
            final(self).key_bytes() == old(self).key_bytes(),
    {
        if opened.counter > self.rx_nonce.counter() {
            self.rx_nonce.set(opened.counter);
        }
    }
}

/// A packet whose tag has been checked, with its plaintext and its counter.
pub struct OpenedPacket {
    payload: heapless::Vec<u8, 32>,
    counter: u64,
}

impl OpenedPacket {
    /// The decrypted bytes the packet carried.
    pub closed spec fn plaintext(&self) -> Seq<u8> {
        payload_contents(self.payload)
    }

    /// The packet's counter as the receiver keeps it.
    pub closed spec fn packet_counter(&self) -> u64 {
        self.counter
    }

    /// The decrypted bytes the packet carried.
    pub fn payload(&self) -> (r: &[u8])
        ensures
            r@ == self.plaintext(),
    {
        payload_buf_as_slice(&self.payload)
    }

    /// The packet's counter as the receiver keeps it.
    pub fn counter(&self) -> (r: u64)
        ensures
            r == self.packet_counter(),
    {
        self.counter
    }
}

/// The receiver's reading of the counter bytes that a sealed packet
/// carries: the counter moved up by three bytes.
pub proof fn lemma_nonce_value_of_bytes(c: u64)
    requires
        c <= MAX_5_BYTES,
    ensures
        nonce_value(nonce_bytes(c)) == c * 0x1000000,
{
    let raw = nonce_bytes(c);
    let b0 = raw[0];
    let b1 = raw[1];
    let b2 = raw[2];
    let b3 = raw[3];
    let b4 = raw[4];
    assert(((b0 as u64) << 56u64) | ((b1 as u64) << 48u64) | ((b2 as u64) << 40u64) | ((b3 as u64)
        << 32u64) | ((b4 as u64) << 24u64) == c * 0x1000000) by (bit_vector)
        requires
            c <= 0xFF_FF_FF_FF_FFu64,
            b0 == ((c >> 32u64) & 0xffu64) as u8,
            b1 == ((c >> 24u64) & 0xffu64) as u8,
            b2 == ((c >> 16u64) & 0xffu64) as u8,
            b3 == ((c >> 8u64) & 0xffu64) as u8,
            b4 == (c & 0xffu64) as u8,
    ;
}

/// Distinct message counters give distinct counter bytes, so no two
/// packets a sealer produces share a nonce.
pub proof fn lemma_nonce_bytes_injective(a: u64, b: u64)
    requires
        a <= MAX_5_BYTES,
        b <= MAX_5_BYTES,
        a != b,
    ensures
        nonce_bytes(a) != nonce_bytes(b),
{
    lemma_nonce_value_of_bytes(a);
    lemma_nonce_value_of_bytes(b);
    if nonce_bytes(a) == nonce_bytes(b) {
        assert(a * 0x1000000 == b * 0x1000000);
    }
}

/// Counter-mode encryption undoes itself.
proof fn lemma_ctr_involution(key: Seq<u8>, mac: Seq<u8>, nonce: Seq<u8>, data: Seq<u8>)
    ensures
        ctr_crypt(key, mac, nonce, ctr_crypt(key, mac, nonce, data)) == data,
{
    let once = ctr_crypt(key, mac, nonce, data);
    let twice = ctr_crypt(key, mac, nonce, once);
    assert forall|i: int| 0 <= i < data.len() implies twice[i] == data[i] by {
        let a = data[i];
        let k = key_stream(key, mac, nonce, i);
        assert((a ^ k) ^ k == a) by (bit_vector);
    }
    assert(twice =~= data);
}

/// Shape of a sealed packet: where its parts lie.
proof fn lemma_seal_layout(key: Seq<u8>, counter: u64, payload: Seq<u8>)
    requires
        payload.len() <= MAX_PAYLOAD_LEN,
    ensures
        ({
            let bytes = seal(key, counter, payload);
            let plain = padded_plaintext(payload);
            let nonce = nonce_bytes(counter);
            &&& plain.len() == padded_len(payload.len())
            &&& bytes.len() == 37 + plain.len()
            &&& bytes.subrange(2, 16) == HEADER_DATA@
            &&& bytes.subrange(16, 24) == broadcast_mac()
            &&& bytes.subrange(24, 29) == nonce
            &&& bytes.subrange(29, bytes.len() - 8) == ctr_crypt(key, broadcast_mac(), nonce, plain)
            &&& bytes.subrange(bytes.len() - 8, bytes.len() as int) == ccm_tag(key, broadcast_mac(), nonce, plain)
        }),
{
    let bytes = seal(key, counter, payload);
    let plain = padded_plaintext(payload);
    let nonce = nonce_bytes(counter);
    let c = ctr_crypt(key, broadcast_mac(), nonce, plain);
    let t = ccm_tag(key, broadcast_mac(), nonce, plain);
    assert(plain.len() == padded_len(payload.len()));
    assert(c.len() == plain.len());
    assert(bytes.subrange(2, 16) =~= HEADER_DATA@);
    assert(bytes.subrange(16, 24) =~= broadcast_mac());
    assert(bytes.subrange(24, 29) =~= nonce);
    assert(bytes.subrange(29, bytes.len() - 8) =~= c);
    assert(bytes.subrange(bytes.len() - 8, bytes.len() as int) =~= t);
}

/// Opening a sealed packet gives back the padded payload and the packet's
/// counter, for every receiver that has not yet accepted that counter or a
/// later one.
pub proof fn lemma_open_seal_roundtrip(key: Seq<u8>, counter: u64, payload: Seq<u8>, rx: u64)
    requires
        payload.len() <= MAX_PAYLOAD_LEN,
        counter <= MAX_5_BYTES,
        rx < counter * 0x1000000,
    ensures
        seal(key, counter, payload).len() == 37 + padded_len(payload.len()),
        open_packet(key, rx, seal(key, counter, payload)) == Ok::<(Seq<u8>, u64), PacketError>((padded_plaintext(payload), (counter * 0x1000000) as u64)),
{
    lemma_seal_layout(key, counter, payload);
    lemma_nonce_value_of_bytes(counter);
    let nonce = nonce_bytes(counter);
    let plain = padded_plaintext(payload);
    lemma_ctr_involution(key, broadcast_mac(), nonce, plain);
}

/// A sealed packet whose tag has any one byte changed is refused as
/// corrupted: all eight bytes of the tag are checked.
#[verifier::rlimit(40)]
pub proof fn lemma_tampered_tag_refused(key: Seq<u8>, counter: u64, payload: Seq<u8>, rx: u64, i: int, v: u8)
    requires
        payload.len() <= MAX_PAYLOAD_LEN,
        counter <= MAX_5_BYTES,
        rx < counter * 0x1000000,
        0 <= i < 8,
        v != seal(key, counter, payload)[seal(key, counter, payload).len() - 8 + i],
    ensures
        open_packet(key, rx, seal(key, counter, payload).update(seal(key, counter, payload).len() - 8 + i, v)) == Err::<(Seq<u8>, u64), PacketError>(PacketError::Corrupted),
{
    let s = seal(key, counter, payload);
    let len = s.len() as int;
    let t = s.update(len - 8 + i, v);
    lemma_seal_layout(key, counter, payload);
    lemma_nonce_value_of_bytes(counter);
    let nonce = nonce_bytes(counter);
    let plain = padded_plaintext(payload);
    lemma_ctr_involution(key, broadcast_mac(), nonce, plain);
    assert(t.subrange(2, 16) =~= s.subrange(2, 16));
    assert(t.subrange(16, 24) =~= s.subrange(16, 24));
    assert(t.subrange(24, 29) =~= s.subrange(24, 29));
    assert(t.subrange(29, len - 8) =~= s.subrange(29, len - 8));
    assert(t.subrange(len - 8, len)[i] != s.subrange(len - 8, len)[i]);
}

/// After a receiver has accepted a sender's packet, the sender's next
/// packet is accepted too: packets delivered in order all get through.
pub proof fn lemma_next_packet_accepted(key: Seq<u8>, counter: u64, payload: Seq<u8>)
    requires
        payload.len() <= MAX_PAYLOAD_LEN,
        counter < MAX_5_BYTES,
    ensures
        open_packet(key, (counter * 0x1000000) as u64, seal(key, (counter + 1) as u64, payload)) == Ok::<(Seq<u8>, u64), PacketError>((padded_plaintext(payload), ((counter + 1) * 0x1000000) as u64)),
{
    assert(counter * 0x1000000 < (counter + 1) * 0x1000000) by (nonlinear_arith);
    assert(counter * 0x1000000 <= MAX_5_BYTES * 0x1000000) by (nonlinear_arith)
        requires
            counter < MAX_5_BYTES,
    ;
    lemma_open_seal_roundtrip(key, (counter + 1) as u64, payload, (counter * 0x1000000) as u64);
}

/// A packet that has been opened and accepted is refused whenever it comes
/// again: `accept` never lowers the bound below an accepted counter, and a
/// bound at or above a packet's counter refuses it.
pub proof fn lemma_replay_refused(key: Seq<u8>, rx: u64, bytes: Seq<u8>, later_rx: u64)
    requires
        open_packet(key, rx, bytes) is Ok,
        later_rx >= open_packet(key, rx, bytes)->Ok_0.1,
    ensures
        open_packet(key, later_rx, bytes) == Err::<(Seq<u8>, u64), PacketError>(PacketError::Duplicate),
{
}

/// Once a packet with a later counter has been accepted, a packet sealed
/// earlier is refused as a duplicate.
pub proof fn lemma_older_packet_refused(key: Seq<u8>, earlier: u64, later: u64, payload: Seq<u8>)
    requires
        payload.len() <= MAX_PAYLOAD_LEN,
        earlier < later,
        later <= MAX_5_BYTES,
    ensures
        open_packet(key, (later * 0x1000000) as u64, seal(key, earlier, payload)) == Err::<(Seq<u8>, u64), PacketError>(PacketError::Duplicate),
{
    lemma_seal_layout(key, earlier, payload);
    lemma_nonce_value_of_bytes(earlier);
    assert(earlier * 0x1000000 <= later * 0x1000000) by (nonlinear_arith)
        requires
            earlier < later,
    ;
}

} // verus!
