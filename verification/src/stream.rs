//! Deframing of the echo protocol over a byte stream.
//!
//! A stream transport has no datagram boundaries: a read may deliver any
//! split of the bytes on the wire. Each message is a twelve-byte header
//! followed, when its declared total length exceeds the header, by padding
//! that must be consumed and discarded before the next header begins. The
//! deframer accepts arbitrary chunks and emits each completed header once;
//! what it emits depends only on the concatenation of everything fed in,
//! never on where the reads were split.

use vstd::prelude::*;

use crate::codec::{decode_echo, header_of, EchoHeader, PING_HDR_LEN};

verus! {

/// The number of stream bytes a message with header `h` occupies: its
/// declared total length, but never less than the header itself.
pub open spec fn frame_len(h: EchoHeader) -> int {
    if h.len > PING_HDR_LEN {
        h.len as int
    } else {
        PING_HDR_LEN as int
    }
}

/// The headers of the complete messages at the front of `s`, in order.
pub open spec fn frames_of(s: Seq<u8>) -> Seq<EchoHeader>
    decreases s.len(),
{
    if s.len() < PING_HDR_LEN {
        Seq::empty()
    } else {
        let h = header_of(s);
        if s.len() >= frame_len(h) {
            seq![h] + frames_of(s.skip(frame_len(h)))
        } else {
            Seq::empty()
        }
    }
}

/// Whether `s` is a concatenation of complete messages with nothing left
/// over.
pub open spec fn fully_framed(s: Seq<u8>) -> bool
    decreases s.len(),
{
    if s.len() == 0 {
        true
    } else if s.len() < PING_HDR_LEN {
        false
    } else {
        let h = header_of(s);
        s.len() >= frame_len(h) && fully_framed(s.skip(frame_len(h)))
    }
}

/// Bytes after a concatenation of complete messages frame independently:
/// the messages of `c + p` are those of `c` followed by those of `p`.
proof fn lemma_frames_concat(c: Seq<u8>, p: Seq<u8>)
    requires
        fully_framed(c),
    ensures
        frames_of(c + p) == frames_of(c) + frames_of(p),
    decreases c.len(),
{
    if c.len() == 0 {
        assert(c + p =~= p);
        assert(frames_of(c) + frames_of(p) =~= frames_of(p));
    } else {
        let h = header_of(c);
        let fl = frame_len(h);
        crate::codec::lemma_header_of_prefix(c + p, c);
        assert((c + p).skip(fl) =~= c.skip(fl) + p);
        lemma_frames_concat(c.skip(fl), p);
        assert(frames_of(c + p) =~= frames_of(c) + frames_of(p));
    }
}

/// Appending one complete message to a fully framed prefix keeps it fully
/// framed.
proof fn lemma_fully_framed_append(c: Seq<u8>, f: Seq<u8>)
    requires
        fully_framed(c),
        f.len() >= PING_HDR_LEN,
        frame_len(header_of(f)) == f.len(),
    ensures
        fully_framed(c + f),
    decreases c.len(),
{
    if c.len() == 0 {
        assert(c + f =~= f);
        assert(f.skip(frame_len(header_of(f))) =~= Seq::<u8>::empty());
        assert(fully_framed(Seq::<u8>::empty()));
        assert(fully_framed(f));
    } else {
        let h = header_of(c);
        let fl = frame_len(h);
        crate::codec::lemma_header_of_prefix(c + f, c);
        assert((c + f).skip(fl) =~= c.skip(fl) + f);
        lemma_fully_framed_append(c.skip(fl), f);
        assert(fully_framed((c + f).skip(fl)));
        assert(fully_framed(c + f));
    }
}

/// Reassembles messages from a stream of reads. The view is the sequence
/// of all bytes consumed so far; what has been emitted is exactly
/// `frames_of` that sequence, so the split of the stream into reads can
/// never change the result.
pub struct StreamDeframer {
    buf: Vec<u8>,
    body: Option<(EchoHeader, u16)>,
    consumed: Ghost<Seq<u8>>,
    partial: Ghost<Seq<u8>>,
}

impl View for StreamDeframer {
    type V = Seq<u8>;

    closed spec fn view(&self) -> Seq<u8> {
        self.consumed@
    }
}

impl StreamDeframer {
    /// The consumed bytes that form complete messages: everything before
    /// the trailing partial message.
    closed spec fn done_part(&self) -> Seq<u8> {
        self.consumed@.take(self.consumed@.len() - self.partial@.len())
    }

    /// The deframer's internal state is consistent: the consumed bytes are
    /// complete messages followed by the current partial message, and the
    /// exec state mirrors the partial message.
    pub closed spec fn wf(&self) -> bool {
        &&& self.partial@.len() <= self.consumed@.len()
        &&& self.consumed@ == self.done_part() + self.partial@
        &&& fully_framed(self.done_part())
        &&& match self.body {
            None => self.partial@ == self.buf@ && self.buf@.len() < PING_HDR_LEN,
            Some((h, rem)) => {
                &&& rem > 0
                &&& self.buf@ == Seq::<u8>::empty()
                &&& self.partial@.len() >= PING_HDR_LEN
                &&& header_of(self.partial@) == h
                &&& frame_len(h) == self.partial@.len() + rem
            },
        }
    }

    /// A deframer that has consumed nothing.
    pub fn new() -> (r: StreamDeframer)
        ensures
            r@ == Seq::<u8>::empty(),
            r.wf(),
    {
        let r = StreamDeframer {
            buf: Vec::new(),
            body: None,
            consumed: Ghost(Seq::empty()),
            partial: Ghost(Seq::empty()),
        };
        proof {
            assert(r.done_part() =~= Seq::<u8>::empty());
        }
        r
    }

    /// Consume one byte; emits a header when it completes a message.
    fn feed_byte(&mut self, b: u8) -> (out: Option<EchoHeader>)
        requires
            old(self).wf(),
        ensures
            final(self).wf(),
            final(self)@ == old(self)@ + seq![b],
            frames_of(final(self)@) == frames_of(old(self)@) + match out {
                Some(h) => seq![h],
                None => Seq::<EchoHeader>::empty(),
            },
    {
        proof {
            lemma_frames_concat(old(self).done_part(), old(self).partial@);
        }
        let ghost done0 = self.done_part();
        self.consumed = Ghost(self.consumed@ + seq![b]);
        self.partial = Ghost(self.partial@ + seq![b]);
        proof {
            assert(self.done_part() =~= done0);
            assert(self.consumed@ =~= self.done_part() + self.partial@);
        }
        match self.body {
            None => {
                self.buf.push(b);
                proof {
                    assert(self.partial@ =~= self.buf@);
                }
                if self.buf.len() == PING_HDR_LEN {
                    let h = match decode_echo(self.buf.as_slice()) {
                        Ok(h) => h,
                        Err(_) => {
                            proof {
                                assert(false);
                            }
                            EchoHeader { id: 0, len: 0, resp_size: 0 }
                        },
                    };
                    if h.len > PING_HDR_LEN as u16 {
                        self.body = Some((h, h.len - PING_HDR_LEN as u16));
                        self.buf.clear();
                        proof {
                            lemma_frames_concat(self.done_part(), self.partial@);
                            assert(frames_of(self@) =~= frames_of(old(self)@)
                                + Seq::<EchoHeader>::empty());
                        }
                        None
                    } else {
                        self.buf.clear();
                        let ghost frame = self.partial@;
                        self.partial = Ghost(Seq::empty());
                        proof {
                            assert(frame_len(h) == PING_HDR_LEN);
                            lemma_fully_framed_append(done0, frame);
                            assert(self.done_part() =~= done0 + frame);
                            assert(frame.skip(frame_len(h)) =~= Seq::<u8>::empty());
                            assert(frames_of(Seq::<u8>::empty()) == Seq::<EchoHeader>::empty());
                            assert(header_of(frame) == h);
                            assert(frames_of(frame) == seq![h] + frames_of(
                                frame.skip(frame_len(h)),
                            ));
                            assert(frames_of(frame) =~= seq![h]);
                            lemma_frames_concat(done0, frame);
                            lemma_frames_concat(self.done_part(), self.partial@);
                            assert(self.consumed@ =~= self.done_part() + self.partial@);
                            assert(frames_of(self@) =~= frames_of(old(self)@) + seq![h]);
                        }
                        Some(h)
                    }
                } else {
                    proof {
                        lemma_frames_concat(self.done_part(), self.partial@);
                        assert(frames_of(self@) =~= frames_of(old(self)@)
                            + Seq::<EchoHeader>::empty());
                    }
                    None
                }
            },
            Some((h, rem)) => {
                proof {
                    crate::codec::lemma_header_of_prefix(self.partial@, old(self).partial@);
                }
                if rem == 1 {
                    self.body = None;
                    let ghost frame = self.partial@;
                    self.partial = Ghost(Seq::empty());
                    proof {
                        assert(frame_len(h) == frame.len());
                        lemma_fully_framed_append(done0, frame);
                        assert(self.done_part() =~= done0 + frame);
                        assert(frame.skip(frame_len(h)) =~= Seq::<u8>::empty());
                        assert(frames_of(Seq::<u8>::empty()) == Seq::<EchoHeader>::empty());
                        assert(header_of(frame) == h);
                        assert(frames_of(frame) == seq![h] + frames_of(
                            frame.skip(frame_len(h)),
                        ));
                        assert(frames_of(frame) =~= seq![h]);
                        lemma_frames_concat(done0, frame);
                        lemma_frames_concat(self.done_part(), self.partial@);
                        assert(self.consumed@ =~= self.done_part() + self.partial@);
                        assert(frames_of(self@) =~= frames_of(old(self)@) + seq![h]);
                    }
                    Some(h)
                } else {
                    self.body = Some((h, rem - 1));
                    proof {
                        lemma_frames_concat(self.done_part(), self.partial@);
                        assert(frames_of(self@) =~= frames_of(old(self)@)
                            + Seq::<EchoHeader>::empty());
                    }
                    None
                }
            },
        }
    }

    /// Consume one read's worth of bytes; returns the headers of every
    /// message completed by this chunk, in stream order. The result is a
    /// function of the concatenated stream alone: splitting the same bytes
    /// across reads differently cannot change what is emitted.
    pub fn feed(&mut self, chunk: &[u8]) -> (out: Vec<EchoHeader>)
        requires
            old(self).wf(),
        ensures
            final(self).wf(),
            final(self)@ == old(self)@ + chunk@,
            frames_of(final(self)@) == frames_of(old(self)@) + out@,
    {
        let mut out: Vec<EchoHeader> = Vec::new();
        let n = chunk.len();
        let mut i: usize = 0;
        while i < n
            invariant
                n == chunk@.len(),
                0 <= i <= n,
                self.wf(),
                self@ == old(self)@ + chunk@.take(i as int),
                frames_of(self@) == frames_of(old(self)@) + out@,
            decreases n - i,
        {
            let ghost frames_before = frames_of(self@);
            let ghost out_before = out@;
            let r = self.feed_byte(chunk[i]);
            proof {
                assert(old(self)@ + chunk@.take(i + 1) =~= (old(self)@ + chunk@.take(i as int))
                    + seq![chunk@[i as int]]);
            }
            match r {
                Some(h) => {
                    out.push(h);
                    proof {
                        assert(frames_of(self@) =~= frames_of(old(self)@) + out@);
                    }
                },
                None => {
                    proof {
                        assert(frames_of(self@) =~= frames_of(old(self)@) + out@);
                    }
                },
            }
            i = i + 1;
        }
        proof {
            assert(chunk@.take(n as int) =~= chunk@);
        }
        out
    }
}

} // verus!
