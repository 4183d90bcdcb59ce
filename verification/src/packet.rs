use vstd::prelude::*;

verus! {

#[verifier::external_type_specification]
#[verifier::external_body]
#[verifier::reject_recursive_types(T)]
pub struct ExHeaplessVec<T, const N: usize>(heapless::Vec<T, N>);

/// The bytes a packet buffer holds.
pub uninterp spec fn packet_contents(v: heapless::Vec<u8, 69>) -> Seq<u8>;

/// `heapless::Vec::new`: an empty buffer.
#[verifier::external_body]
fn packet_buf_new() -> (r: heapless::Vec<u8, 69>)
    ensures
        packet_contents(r) == Seq::<u8>::empty(),
{
    heapless::Vec::new()
}

/// `heapless::Vec::push`: appends a byte when there is room; a full buffer
/// is left as it was and the byte is handed back.
#[verifier::external_body]
fn packet_buf_push(v: &mut heapless::Vec<u8, 69>, b: u8) -> (r: Result<(), u8>)
    ensures
        packet_contents(*old(v)).len() < 69 ==> r is Ok,
        packet_contents(*old(v)).len() < 69 ==> packet_contents(*final(v)) == packet_contents(*old(v)).push(b),
        packet_contents(*old(v)).len() >= 69 ==> (r matches Err(x) && x == b),
        packet_contents(*old(v)).len() >= 69 ==> packet_contents(*final(v)) == packet_contents(*old(v)),
{
    v.push(b)
}

/// `heapless::Vec::as_slice`: the bytes held, never more than the capacity.
#[verifier::external_body]
fn packet_buf_as_slice(v: &heapless::Vec<u8, 69>) -> (r: &[u8])
    ensures
        r@ == packet_contents(*v),
        r@.len() <= 69,
{
    v.as_slice()
}

/// The bytes a plaintext buffer holds.
pub uninterp spec fn payload_contents(v: heapless::Vec<u8, 32>) -> Seq<u8>;

/// `heapless::Vec::new`: an empty buffer.
#[verifier::external_body]
pub(crate) fn payload_buf_new() -> (r: heapless::Vec<u8, 32>)
    ensures
        payload_contents(r) == Seq::<u8>::empty(),
{
    heapless::Vec::new()
}

/// `heapless::Vec::push`: appends a byte when there is room; a full buffer
/// is left as it was and the byte is handed back.
#[verifier::external_body]
pub(crate) fn payload_buf_push(v: &mut heapless::Vec<u8, 32>, b: u8) -> (r: Result<(), u8>)
    ensures
        payload_contents(*old(v)).len() < 32 ==> r is Ok,
        payload_contents(*old(v)).len() < 32 ==> payload_contents(*final(v)) == payload_contents(*old(v)).push(b),
        payload_contents(*old(v)).len() >= 32 ==> (r matches Err(x) && x == b),
        payload_contents(*old(v)).len() >= 32 ==> payload_contents(*final(v)) == payload_contents(*old(v)),
{
    v.push(b)
}

/// `heapless::Vec::as_slice`: the bytes held, never more than the capacity.
#[verifier::external_body]
pub(crate) fn payload_buf_as_slice(v: &heapless::Vec<u8, 32>) -> (r: &[u8])
    ensures
        r@ == payload_contents(*v),
        r@.len() <= 32,
{
    v.as_slice()
}

/// Largest number of bytes a packet holds: header, address and counter,
/// payload and tag.
pub const PACKET_CAPACITY: usize = 69;

/// The bytes of one sealed packet as they travel over the air.
#[derive(Debug)]
pub struct AESCCMPacket {
    pub inner: heapless::Vec<u8, 69>,
}

impl View for AESCCMPacket {
    type V = Seq<u8>;

    open spec fn view(&self) -> Seq<u8> {
        packet_contents(self.inner)
    }
}

impl AESCCMPacket {
    /// An empty packet.
    pub fn new() -> (r: Self)
        ensures
            r@ == Seq::<u8>::empty(),
    {
        Self { inner: packet_buf_new() }
    }

    /// Appends `bytes`, which must fit in what is left of the packet.
    pub fn extend(&mut self, bytes: &[u8])
        requires
            old(self)@.len() + bytes@.len() <= PACKET_CAPACITY,
        ensures
            final(self)@ == old(self)@ + bytes@,
    {
        let mut i: usize = 0;
        while i < bytes.len()
            invariant
                i <= bytes@.len(),
                old(self)@.len() + bytes@.len() <= PACKET_CAPACITY,
                self@ == old(self)@ + bytes@.take(i as int),
            decreases bytes@.len() - i,
        {
            let _ = packet_buf_push(&mut self.inner, bytes[i]);
            assert(bytes@.take(i + 1) =~= bytes@.take(i as int).push(bytes@[i as int]));
            i = i + 1;
        }
        assert(bytes@.take(i as int) =~= bytes@);
    }

    /// A packet holding `data`, when it fits in one.
    pub fn from_bytes(data: &[u8]) -> (r: Option<Self>)
        ensures
            r is Some <==> data@.len() <= PACKET_CAPACITY,
            r matches Some(p) ==> p@ == data@,
    {
        if data.len() > PACKET_CAPACITY {
            return None;
        }
        let mut p = Self::new();
        p.extend(data);
        assert(Seq::<u8>::empty() + data@ =~= data@);
        Some(p)
    }

    /// The packet's bytes.
    pub fn bytes(&self) -> (r: &[u8])
        ensures
            r@ == self@,
            r@.len() <= PACKET_CAPACITY,
    {
        packet_buf_as_slice(&self.inner)
    }
}

} // verus!
