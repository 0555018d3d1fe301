//! Fixed-layout wire codec for the echo protocol header.
//!
//! A header is twelve bytes on the wire: the request id (eight bytes), the
//! total request length (two bytes) and the desired response length (two
//! bytes), each in big-endian byte order. Both ends of a measurement run use
//! this codec, so the layout is consistent by construction.

use vstd::prelude::*;

verus! {

/// Number of bytes a header occupies on the wire.
pub const PING_HDR_LEN: usize = 12;

/// The echo protocol header: request id, total request length (including
/// this header) and the total length of the desired response.
#[derive(Clone, Copy, Debug, PartialEq, Eq, Structural)]
pub struct EchoHeader {
    /// Request index, echoed back verbatim by the peer.
    pub id: u64,
    /// Total wire size of the request, header included.
    pub len: u16,
    /// Total wire size the sender asks the responder to reply with.
    pub resp_size: u16,
}

/// Error for a buffer too short to hold a header.
#[derive(Clone, Copy, Debug, PartialEq, Eq, Structural)]
pub enum CodecError {
    /// Fewer than `PING_HDR_LEN` bytes were available.
    MalformedHeader,
}

/// The twelve wire bytes of a header, big-endian fields.
pub open spec fn echo_bytes(h: EchoHeader) -> Seq<u8> {
    seq![
        (h.id >> 56) as u8,
        (h.id >> 48) as u8,
        (h.id >> 40) as u8,
        (h.id >> 32) as u8,
        (h.id >> 24) as u8,
        (h.id >> 16) as u8,
        (h.id >> 8) as u8,
        h.id as u8,
        (h.len >> 8) as u8,
        h.len as u8,
        (h.resp_size >> 8) as u8,
        h.resp_size as u8,
    ]
}

/// The header denoted by the first twelve bytes of `s`.
pub open spec fn header_of(s: Seq<u8>) -> EchoHeader
    recommends
        s.len() >= PING_HDR_LEN,
{
    EchoHeader {
        id: ((s[0] as u64) << 56) | ((s[1] as u64) << 48) | ((s[2] as u64) << 40)
            | ((s[3] as u64) << 32) | ((s[4] as u64) << 24) | ((s[5] as u64) << 16)
            | ((s[6] as u64) << 8) | (s[7] as u64),
        len: ((s[8] as u16) << 8) | (s[9] as u16),
        resp_size: ((s[10] as u16) << 8) | (s[11] as u16),
    }
}

/// Encode a header into its twelve wire bytes.
pub fn encode_echo(h: &EchoHeader) -> (r: Vec<u8>)
    ensures
        r@ == echo_bytes(*h),
{
    let mut r: Vec<u8> = Vec::new();
    r.push((h.id >> 56) as u8);
    r.push((h.id >> 48) as u8);
    r.push((h.id >> 40) as u8);
    r.push((h.id >> 32) as u8);
    r.push((h.id >> 24) as u8);
    r.push((h.id >> 16) as u8);
    r.push((h.id >> 8) as u8);
    r.push(h.id as u8);
    r.push((h.len >> 8) as u8);
    r.push(h.len as u8);
    r.push((h.resp_size >> 8) as u8);
    r.push(h.resp_size as u8);
    proof {
        assert(r@ =~= echo_bytes(*h));
    }
    r
}

/// Decode a header from the first twelve bytes of `bytes`; fails exactly
/// when fewer than twelve bytes are available.
pub fn decode_echo(bytes: &[u8]) -> (r: Result<EchoHeader, CodecError>)
    ensures
        bytes@.len() >= PING_HDR_LEN ==> r == Ok::<EchoHeader, CodecError>(header_of(bytes@)),
        bytes@.len() < PING_HDR_LEN ==> r == Err::<EchoHeader, CodecError>(
            CodecError::MalformedHeader,
        ),
{
    if bytes.len() < PING_HDR_LEN {
        return Err(CodecError::MalformedHeader);
    }
    let id: u64 = ((bytes[0] as u64) << 56) | ((bytes[1] as u64) << 48)
        | ((bytes[2] as u64) << 40) | ((bytes[3] as u64) << 32) | ((bytes[4] as u64) << 24)
        | ((bytes[5] as u64) << 16) | ((bytes[6] as u64) << 8) | (bytes[7] as u64);
    let len: u16 = ((bytes[8] as u16) << 8) | (bytes[9] as u16);
    let resp_size: u16 = ((bytes[10] as u16) << 8) | (bytes[11] as u16);
    Ok(EchoHeader { id, len, resp_size })
}

/// Decoding the bytes produced by encoding any header returns that header
/// unchanged: the encoding loses nothing.
pub proof fn lemma_encode_decode_roundtrip(h: EchoHeader)
    ensures
        header_of(echo_bytes(h)) == h,
{
    let id = h.id;
    let len = h.len;
    let resp = h.resp_size;
    assert(((((id >> 56) as u8) as u64) << 56) | ((((id >> 48) as u8) as u64) << 48)
        | ((((id >> 40) as u8) as u64) << 40) | ((((id >> 32) as u8) as u64) << 32)
        | ((((id >> 24) as u8) as u64) << 24) | ((((id >> 16) as u8) as u64) << 16)
        | ((((id >> 8) as u8) as u64) << 8) | ((id as u8) as u64) == id) by (bit_vector);
    assert(((((len >> 8) as u8) as u16) << 8) | ((len as u8) as u16) == len) by (bit_vector);
    assert(((((resp >> 8) as u8) as u16) << 8) | ((resp as u8) as u16) == resp) by (bit_vector);
}

/// `header_of` reads only the first twelve bytes: two buffers that agree
/// there decode to the same header.
pub proof fn lemma_header_of_prefix(a: Seq<u8>, b: Seq<u8>)
    requires
        a.len() >= PING_HDR_LEN,
        b.len() >= PING_HDR_LEN,
        forall|i: int| 0 <= i < PING_HDR_LEN ==> a[i] == b[i],
    ensures
        header_of(a) == header_of(b),
{
}

} // verus!
