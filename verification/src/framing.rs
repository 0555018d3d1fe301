//! Framing of echo requests and replies for the datagram and stream
//! transports.
//!
//! A frame is the encoded twelve-byte header brought to a declared total
//! length: padded with zero bytes when the declared length exceeds the
//! header, truncated when it is shorter (the command line refuses lengths
//! below the header size, but a peer may still declare one).

use vstd::prelude::*;

use crate::codec::{echo_bytes, encode_echo, EchoHeader, PING_HDR_LEN};
use crate::icmp::zero_bytes;

verus! {

/// The encoded header brought to `n` bytes: zero-padded beyond the header,
/// truncated below it.
pub open spec fn frame_bytes(h: EchoHeader, n: int) -> Seq<u8> {
    if n <= PING_HDR_LEN {
        echo_bytes(h).take(n)
    } else {
        echo_bytes(h) + zero_bytes(n - PING_HDR_LEN)
    }
}

/// Bring `v` to exactly `n` bytes: drop the excess or append zero bytes.
fn pad_to(v: &mut Vec<u8>, n: usize)
    ensures
        n <= old(v)@.len() ==> final(v)@ == old(v)@.take(n as int),
        n > old(v)@.len() ==> final(v)@ == old(v)@ + zero_bytes(n - old(v)@.len()),
{
    if n <= v.len() {
        v.truncate(n);
        proof {
            assert(v@ =~= old(v)@.take(n as int));
        }
    } else {
        let ghost base = v@;
        while v.len() < n
            invariant
                base.len() <= v@.len() <= n,
                v@ =~= base + zero_bytes(v@.len() - base.len()),
            decreases n - v@.len(),
        {
            v.push(0u8);
            proof {
                assert(v@ =~= base + zero_bytes(v@.len() - base.len()));
            }
        }
    }
}

/// Serialize `h` and bring the buffer to `n` total bytes.
pub fn frame_echo(h: &EchoHeader, n: u16) -> (r: Vec<u8>)
    ensures
        r@ == frame_bytes(*h, n as int),
{
    let mut buf = encode_echo(h);
    pad_to(&mut buf, n as usize);
    buf
}

/// The bytes a client puts on the wire for request `index`. The request and
/// response lengths default to the bare header size when not set; a set
/// request length fixes the total frame size.
pub fn client_request_bytes(
    index: u64,
    request_size: Option<u16>,
    response_size: Option<u16>,
) -> (r: Vec<u8>)
    ensures
        ({
            let rl = match request_size {
                Some(s) => s,
                None => PING_HDR_LEN as u16,
            };
            let rs = match response_size {
                Some(s) => s,
                None => PING_HDR_LEN as u16,
            };
            r@ == frame_bytes(EchoHeader { id: index, len: rl, resp_size: rs }, rl as int)
        }),
{
    let rl: u16 = match request_size {
        Some(s) => s,
        None => PING_HDR_LEN as u16,
    };
    let rs: u16 = match response_size {
        Some(s) => s,
        None => PING_HDR_LEN as u16,
    };
    frame_echo(&EchoHeader { id: index, len: rl, resp_size: rs }, rl)
}

/// The header a server echoes back: same id, the requested response length
/// becomes the new total length, and the response-length field is cleared.
pub open spec fn reply_header(req: EchoHeader) -> EchoHeader {
    EchoHeader { id: req.id, len: req.resp_size, resp_size: 0 }
}

/// The bytes a server sends back for a decoded request: the reply header
/// framed to the length the requester asked to receive.
pub fn server_reply_bytes(req: &EchoHeader) -> (r: Vec<u8>)
    ensures
        r@ == frame_bytes(reply_header(*req), req.resp_size as int),
{
    let h = EchoHeader { id: req.id, len: req.resp_size, resp_size: 0 };
    frame_echo(&h, req.resp_size)
}

/// How many bytes of response body follow the header on a stream transport:
/// the declared total length less the header, and nothing when the declared
/// length does not exceed the header.
pub fn response_remainder(h: &EchoHeader) -> (r: u16)
    ensures
        h.len > PING_HDR_LEN ==> r == h.len - PING_HDR_LEN,
        h.len <= PING_HDR_LEN ==> r == 0,
{
    if h.len > PING_HDR_LEN as u16 {
        h.len - PING_HDR_LEN as u16
    } else {
        0
    }
}

} // verus!
