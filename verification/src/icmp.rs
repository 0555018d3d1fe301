//! Construction and parsing of raw ICMP Echo messages.
//!
//! An outbound probe is an eight-byte ICMP Echo-Request header (type 8,
//! code 0, a computed checksum, a fixed identifier, and the low sixteen bits
//! of the request index as sequence number) followed by the twelve-byte echo
//! header and zero padding up to the declared request length. The checksum
//! covers the whole ICMP message and is patched in after construction, so
//! every packet this module builds sums to `0xffff` in ones'-complement
//! arithmetic.
//!
//! Inbound raw ICMP reads return the full IP packet; parsing skips a fixed
//! twenty-byte IPv4 header and the eight-byte ICMP header to reach the echo
//! header. This assumes IPv4 without options: a peer that sends IP options
//! shifts the payload and the parsed id is garbage.

use vstd::prelude::*;

use crate::checksum::{csum16_slice, ones_sum, words_of};
use crate::codec::{echo_bytes, encode_echo, header_of, EchoHeader, PING_HDR_LEN};

verus! {

/// Bytes in the ICMP Echo header that precedes the echo payload.
pub const ICMP_HEADER_LEN: usize = 8;

/// Bytes in an IPv4 header without options.
pub const IP_HEADER_LEN: usize = 20;

/// A sequence of `n` zero bytes.
pub open spec fn zero_bytes(n: int) -> Seq<u8> {
    Seq::new(n as nat, |i: int| 0u8)
}

/// The full ICMP Echo-Request message for request `index` with the given
/// total request length, declared response length, and checksum field value.
pub open spec fn icmp_echo_packet(index: u64, req_len: u16, resp_len: u16, csum: u16) -> Seq<u8>
    recommends
        req_len >= PING_HDR_LEN,
{
    seq![
        8u8,
        0u8,
        (csum >> 8) as u8,
        csum as u8,
        0x12u8,
        0x34u8,
        (index >> 8) as u8,
        index as u8,
    ] + echo_bytes(EchoHeader { id: index, len: req_len, resp_size: resp_len }) + zero_bytes(
        req_len - PING_HDR_LEN,
    )
}

/// The checksum value that belongs in an Echo-Request for `index` with the
/// given lengths: the complement of the ones'-complement sum of the message
/// with a zero checksum field.
pub open spec fn icmp_echo_checksum(index: u64, req_len: u16, resp_len: u16) -> u16 {
    !ones_sum(words_of(icmp_echo_packet(index, req_len, resp_len, 0)))
}

/// Build the Echo-Request message for request `index`. The request and
/// response lengths default to the bare header size. The result carries a
/// valid checksum: its ones'-complement word sum is `0xffff`.
pub fn build_icmp_echo_request(
    index: u64,
    request_size: Option<u16>,
    response_size: Option<u16>,
) -> (r: Vec<u8>)
    requires
        (match request_size {
            Some(s) => s,
            None => PING_HDR_LEN as u16,
        }) >= PING_HDR_LEN,
        (match request_size {
            Some(s) => s,
            None => PING_HDR_LEN as u16,
        }) % 2 == 0,
    ensures
        ({
            let rl = match request_size {
                Some(s) => s,
                None => PING_HDR_LEN as u16,
            };
            let rs = match response_size {
                Some(s) => s,
                None => PING_HDR_LEN as u16,
            };
            &&& r@ == icmp_echo_packet(index, rl, rs, icmp_echo_checksum(index, rl, rs))
            &&& r@.len() == rl + ICMP_HEADER_LEN
            &&& ones_sum(words_of(r@)) == 0xffff
        }),
{
    let rl: u16 = match request_size {
        Some(s) => s,
        None => PING_HDR_LEN as u16,
    };
    let rs: u16 = match response_size {
        Some(s) => s,
        None => PING_HDR_LEN as u16,
    };
    let hdr = EchoHeader { id: index, len: rl, resp_size: rs };

    let mut buf: Vec<u8> = Vec::new();
    buf.push(8u8);
    buf.push(0u8);
    buf.push(0u8);
    buf.push(0u8);
    buf.push(0x12u8);
    buf.push(0x34u8);
    buf.push((index >> 8) as u8);
    buf.push(index as u8);
    let mut echo = encode_echo(&hdr);
    buf.append(&mut echo);

    let ghost base = icmp_echo_packet(index, rl, rs, 0).take(PING_HDR_LEN + ICMP_HEADER_LEN);
    proof {
        assert((0u16 >> 8) as u8 == 0u8) by (bit_vector);
        assert(0u16 as u8 == 0u8) by (bit_vector);
        assert(buf@ =~= base);
    }

    let total: usize = rl as usize + ICMP_HEADER_LEN;
    while buf.len() < total
        invariant
            total == rl + ICMP_HEADER_LEN,
            rl >= PING_HDR_LEN,
            base == icmp_echo_packet(index, rl, rs, 0).take(PING_HDR_LEN + ICMP_HEADER_LEN),
            PING_HDR_LEN + ICMP_HEADER_LEN <= buf@.len() <= total,
            buf@ =~= base + zero_bytes(buf@.len() - (PING_HDR_LEN + ICMP_HEADER_LEN)),
        decreases total - buf@.len(),
    {
        buf.push(0u8);
        proof {
            assert(buf@ =~= base + zero_bytes(buf@.len() - (PING_HDR_LEN + ICMP_HEADER_LEN)));
        }
    }
    proof {
        assert(buf@ =~= icmp_echo_packet(index, rl, rs, 0));
    }

    let c = csum16_slice(buf.as_slice());
    let ghost zeroed = buf@;
    buf[2] = (c >> 8) as u8;
    buf[3] = c as u8;

    proof {
        assert(c == icmp_echo_checksum(index, rl, rs));
        assert((((0u8 as u16) << 8) | (0u8 as u16)) == 0u16) by (bit_vector);
        assert(words_of(zeroed)[1] == 0);
        assert(((((c >> 8) as u8) as u16) << 8) | ((c as u8) as u16) == c) by (bit_vector);
        assert(words_of(buf@) =~= words_of(zeroed).update(1, c));
        crate::checksum::lemma_checksum_self_verifying(words_of(zeroed), 1);
        assert(buf@ =~= icmp_echo_packet(index, rl, rs, c));
    }
    buf
}

/// The request index carried in a raw ICMP reply buffer: the id field of the
/// echo header that sits after the IPv4 and ICMP headers.
pub open spec fn response_echo_header(buf: Seq<u8>) -> EchoHeader
    recommends
        buf.len() >= IP_HEADER_LEN + ICMP_HEADER_LEN + PING_HDR_LEN,
{
    header_of(buf.skip(IP_HEADER_LEN + ICMP_HEADER_LEN))
}

/// Extract the echoed request index from a raw ICMP read. The buffer holds
/// the full IP packet; the echo header is read at a fixed offset past the
/// twenty-byte IPv4 header (no options assumed) and the eight-byte ICMP
/// header.
pub fn icmp_response_index(buf: &[u8]) -> (r: u64)
    requires
        buf@.len() >= IP_HEADER_LEN + ICMP_HEADER_LEN + PING_HDR_LEN,
    ensures
        r == response_echo_header(buf@).id,
{
    let region = vstd::slice::slice_subrange(
        buf,
        IP_HEADER_LEN + ICMP_HEADER_LEN,
        IP_HEADER_LEN + ICMP_HEADER_LEN + PING_HDR_LEN,
    );
    let hdr = match crate::codec::decode_echo(region) {
        Ok(h) => h,
        Err(_) => {
            proof {
                assert(false);
            }
            EchoHeader { id: 0, len: 0, resp_size: 0 }
        },
    };
    proof {
        crate::codec::lemma_header_of_prefix(region@, buf@.skip(IP_HEADER_LEN + ICMP_HEADER_LEN));
    }
    hdr.id
}

} // verus!
