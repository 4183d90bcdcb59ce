use crate::enums::PacketError;
use vstd::prelude::*;

verus! {

/// The largest value a 5-byte big-endian counter can hold.
pub const MAX_5_BYTES: u64 = 0xFF_FF_FF_FF_FF;

/// The low five bytes of `c`, most significant first.
pub open spec fn nonce_bytes(c: u64) -> Seq<u8> {
    seq![
        ((c >> 32u64) & 0xffu64) as u8,
        ((c >> 24u64) & 0xffu64) as u8,
        ((c >> 16u64) & 0xffu64) as u8,
        ((c >> 8u64) & 0xffu64) as u8,
        (c & 0xffu64) as u8,
    ]
}

/// The counter bytes spell the counter: read as a 5-byte big-endian number
/// they give back every counter up to the 5-byte maximum.
pub proof fn lemma_nonce_bytes_spell_counter(c: u64)
    requires
        c <= MAX_5_BYTES,
    ensures
        nonce_bytes(c).len() == 5,
        nonce_bytes(c)[0] * 0x1_0000_0000 + nonce_bytes(c)[1] * 0x100_0000 + nonce_bytes(c)[2] * 0x1_0000
            + nonce_bytes(c)[3] * 0x100 + nonce_bytes(c)[4] == c,
{
    let b = nonce_bytes(c);
    let b0 = b[0];
    let b1 = b[1];
    let b2 = b[2];
    let b3 = b[3];
    let b4 = b[4];
    assert(b0 as u64 * 0x1_0000_0000u64 + b1 as u64 * 0x100_0000u64 + b2 as u64 * 0x1_0000u64 + b3 as u64
        * 0x100u64 + b4 as u64 == c) by (bit_vector)
        requires
            c <= 0xFF_FF_FF_FF_FFu64,
            b0 == ((c >> 32u64) & 0xffu64) as u8,
            b1 == ((c >> 24u64) & 0xffu64) as u8,
            b2 == ((c >> 16u64) & 0xffu64) as u8,
            b3 == ((c >> 8u64) & 0xffu64) as u8,
            b4 == (c & 0xffu64) as u8,
    ;
}

/// A message counter that names each sealed packet once.
pub struct Nonce {
    counter: u64,
}

impl Nonce {
    pub closed spec fn value(self) -> u64 {
        self.counter
    }

    /// A counter that starts at `counter`.
    pub fn with_counter(counter: u64) -> (r: Self)
        ensures
            r.value() == counter,
    {
        Nonce { counter }
    }

    /// The counter's current value.
    pub fn counter(&self) -> (r: u64)
        ensures
            r == self.value(),
    {
        self.counter
    }

    /// Advances the counter and returns its new value as five big-endian
    /// bytes; refuses once the counter has reached the 5-byte maximum.
    pub fn inc(&mut self) -> (r: Result<[u8; 5], PacketError>)
        ensures
            old(self).value() >= MAX_5_BYTES ==> r == Err::<[u8; 5], PacketError>(
                PacketError::AESCounterOverflow,
            ) && final(self).value() == old(self).value(),
            old(self).value() < MAX_5_BYTES ==> (final(self).value() == old(self).value() + 1
                && (r matches Ok(b) && b@ == nonce_bytes(final(self).value()))),
    {
        if self.counter >= MAX_5_BYTES {
            return Err(PacketError::AESCounterOverflow);
        }
        self.counter = self.counter + 1;
        let c = self.counter;
        let result: [u8; 5] = [
            ((c >> 32u64) & 0xffu64) as u8,
            ((c >> 24u64) & 0xffu64) as u8,
            ((c >> 16u64) & 0xffu64) as u8,
            ((c >> 8u64) & 0xffu64) as u8,
            (c & 0xffu64) as u8,
        ];
        assert(result@ =~= nonce_bytes(c));
        Ok(result)
    }

    /// Replaces the counter's value.
    pub fn set(&mut self, new_counter: u64)
        ensures
            final(self).value() == new_counter,
    {
        self.counter = new_counter;
    }
}

} // verus!
