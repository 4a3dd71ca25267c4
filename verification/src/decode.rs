//! Body decoders: what the bytes behind a head hold of the body.
//!
//! A decoder takes the body one byte at a time, as the head parser takes
//! the head. A byte either belongs to the body, and is handed on, or to the
//! framing around it, and is dropped. What a run of bytes decodes to is the
//! fold of `decode_step` over them.

use vstd::prelude::*;
use crate::buffer::{ByteBuffer, CR, LF};
use crate::chars::{hex_value, is_hex, spec_hex_value, spec_is_hex, SEMICOLON};
use crate::error::Error;

verus! {

/// The largest chunk that the chunked decoder takes: 63 bits.
pub const MAX_CHUNK_SIZE: u64 = 0x7FFF_FFFF_FFFF_FFFF;

/// The most hexadecimal digits that the size of a chunk may have.
pub const MAX_SIZE_DIGITS: u8 = 16;

/// Where in a chunked body the decoder stands.
#[derive(Debug, Clone, Copy, PartialEq, Eq, Structural)]
pub enum ChunkState {
    /// In the hexadecimal size of a chunk.
    Size,
    /// In the extension behind the size, which is skipped.
    Extension,
    /// Behind the CR of the size line.
    SizeLf,
    /// In the data of a chunk.
    Body,
    /// Behind the data of a chunk.
    BodyCr,
    /// Behind the CR that follows the data.
    BodyLf,
    /// At the start of a line behind the last chunk.
    EndCr,
    /// Behind the CR of the empty line that ends the body.
    EndLf,
    /// In a trailer field, which is skipped.
    Trailer,
    /// The body is complete.
    Done,
    /// The framing is broken.
    Failed,
}

/// The chunked decoder: its place, the size read so far or the data still
/// owed by the chunk at hand, and the number of size digits read.
#[derive(Debug, Clone, Copy, PartialEq, Eq, Structural)]
pub struct Chunked {
    pub state: ChunkState,
    pub size: u64,
    pub digits: u8,
}

/// A body decoder.
#[derive(Debug, Clone, Copy, PartialEq, Eq, Structural)]
pub enum Decoder {
    /// A body of as many bytes as are still owed.
    Length(u64),
    /// A body in chunks.
    Chunked(Chunked),
    /// A body that the end of the transport ends; `true` once it has.
    Eof(bool),
    /// No body.
    Empty,
}

/// What a run of bytes has decoded to so far.
pub struct Decoded {
    /// The decoder behind the bytes taken.
    pub decoder: Decoder,
    /// The bytes of the body among them.
    pub out: Seq<u8>,
    /// The number of bytes taken.
    pub consumed: nat,
}

/// What a decoder hands back from the bytes at hand.
#[derive(Debug, Clone, PartialEq, Eq)]
pub enum Decode {
    /// Bytes of the body: at least one.
    Data(Vec<u8>),
    /// Nothing yet: the body goes on behind the bytes at hand.
    NeedMore,
    /// The body is complete.
    Done,
}

/// The chunked decoder before the first byte.
pub open spec fn chunked_start() -> Chunked {
    Chunked { state: ChunkState::Size, size: 0, digits: 0 }
}

/// What a byte does to the chunked decoder, and the byte of the body that
/// it hands on, if it is one.
pub open spec fn chunk_step(c: Chunked, b: u8) -> (Chunked, Option<u8>) {
    let failed = Chunked { state: ChunkState::Failed, ..c };
    match c.state {
        ChunkState::Size => if spec_is_hex(b) {
            if c.digits >= MAX_SIZE_DIGITS || c.size * 16 + spec_hex_value(b) > MAX_CHUNK_SIZE {
                (failed, None)
            } else {
                (
                    Chunked {
                        size: (c.size * 16 + spec_hex_value(b)) as u64,
                        digits: (c.digits + 1) as u8,
                        ..c
                    },
                    None,
                )
            }
        } else if b == SEMICOLON && c.digits > 0 {
            (Chunked { state: ChunkState::Extension, ..c }, None)
        } else if b == CR && c.digits > 0 {
            (Chunked { state: ChunkState::SizeLf, ..c }, None)
        } else {
            (failed, None)
        },
        ChunkState::Extension => if b == CR {
            (Chunked { state: ChunkState::SizeLf, ..c }, None)
        } else {
            (c, None)
        },
        ChunkState::SizeLf => if b == LF {
            if c.size == 0 {
                (Chunked { state: ChunkState::EndCr, ..c }, None)
            } else {
                (Chunked { state: ChunkState::Body, ..c }, None)
            }
        } else {
            (failed, None)
        },
        ChunkState::Body => if c.size <= 1 {
            (Chunked { state: ChunkState::BodyCr, size: 0, ..c }, Some(b))
        } else {
            (Chunked { size: (c.size - 1) as u64, ..c }, Some(b))
        },
        ChunkState::BodyCr => if b == CR {
            (Chunked { state: ChunkState::BodyLf, ..c }, None)
        } else {
            (failed, None)
        },
        ChunkState::BodyLf => if b == LF {
            (chunked_start(), None)
        } else {
            (failed, None)
        },
        ChunkState::EndCr => if b == CR {
            (Chunked { state: ChunkState::EndLf, ..c }, None)
        } else if b == LF {
            (failed, None)
        } else {
            (Chunked { state: ChunkState::Trailer, ..c }, None)
        },
        ChunkState::EndLf => if b == LF {
            (Chunked { state: ChunkState::Done, ..c }, None)
        } else {
            (failed, None)
        },
        ChunkState::Trailer => if b == LF {
            (Chunked { state: ChunkState::EndCr, ..c }, None)
        } else {
            (c, None)
        },
        ChunkState::Done => (c, None),
        ChunkState::Failed => (c, None),
    }
}

impl Chunked {
    /// The chunked decoder before the first byte.
    pub fn new() -> (c: Chunked)
        ensures
            c == chunked_start(),
    {
        Chunked { state: ChunkState::Size, size: 0, digits: 0 }
    }

    /// Takes one byte.
    pub fn step(self, b: u8) -> (r: (Chunked, Option<u8>))
        ensures
            r == chunk_step(self, b),
    {
        let mut c = self;
        match c.state {
            ChunkState::Size => {
                if is_hex(b) {
                    let v: u64 = hex_value(b) as u64;
                    if c.digits >= MAX_SIZE_DIGITS || c.size > (MAX_CHUNK_SIZE - v) / 16 {
                        c.state = ChunkState::Failed;
                    } else {
                        c.size = c.size * 16 + v;
                        c.digits = c.digits + 1;
                    }
                } else if b == SEMICOLON && c.digits > 0 {
                    c.state = ChunkState::Extension;
                } else if b == CR && c.digits > 0 {
                    c.state = ChunkState::SizeLf;
                } else {
                    c.state = ChunkState::Failed;
                }
                (c, None)
            },
            ChunkState::Extension => {
                if b == CR {
                    c.state = ChunkState::SizeLf;
                }
                (c, None)
            },
            ChunkState::SizeLf => {
                if b != LF {
                    c.state = ChunkState::Failed;
                } else if c.size == 0 {
                    c.state = ChunkState::EndCr;
                } else {
                    c.state = ChunkState::Body;
                }
                (c, None)
            },
            ChunkState::Body => {
                if c.size <= 1 {
                    c.state = ChunkState::BodyCr;
                    c.size = 0;
                } else {
                    c.size = c.size - 1;
                }
                (c, Some(b))
            },
            ChunkState::BodyCr => {
                if b == CR {
                    c.state = ChunkState::BodyLf;
                } else {
                    c.state = ChunkState::Failed;
                }
                (c, None)
            },
            ChunkState::BodyLf => {
                if b == LF {
                    (Chunked::new(), None)
                } else {
                    c.state = ChunkState::Failed;
                    (c, None)
                }
            },
            ChunkState::EndCr => {
                if b == CR {
                    c.state = ChunkState::EndLf;
                } else if b == LF {
                    c.state = ChunkState::Failed;
                } else {
                    c.state = ChunkState::Trailer;
                }
                (c, None)
            },
            ChunkState::EndLf => {
                if b == LF {
                    c.state = ChunkState::Done;
                } else {
                    c.state = ChunkState::Failed;
                }
                (c, None)
            },
            ChunkState::Trailer => {
                if b == LF {
                    c.state = ChunkState::EndCr;
                }
                (c, None)
            },
            ChunkState::Done => (c, None),
            ChunkState::Failed => (c, None),
        }
    }
}

impl Decoder {
    /// A decoder for a body in chunks, before the first byte.
    pub fn chunked() -> (d: Decoder)
        ensures
            d == Decoder::Chunked(chunked_start()),
    {
        Decoder::Chunked(Chunked::new())
    }

    /// Whether the body is complete.
    pub open spec fn spec_is_done(self) -> bool {
        match self {
            Decoder::Length(n) => n == 0,
            Decoder::Chunked(c) => c.state == ChunkState::Done,
            Decoder::Eof(done) => done,
            Decoder::Empty => true,
        }
    }

    /// Whether the body is complete.
    #[verifier::when_used_as_spec(spec_is_done)]
    pub fn is_done(self) -> (r: bool)
        ensures
            r == self.spec_is_done(),
    {
        match self {
            Decoder::Length(n) => n == 0,
            Decoder::Chunked(c) => c.state == ChunkState::Done,
            Decoder::Eof(done) => done,
            Decoder::Empty => true,
        }
    }

    /// Whether the framing is broken.
    pub open spec fn spec_is_failed(self) -> bool {
        self matches Decoder::Chunked(c) && c.state == ChunkState::Failed
    }

    /// Whether the framing is broken.
    #[verifier::when_used_as_spec(spec_is_failed)]
    pub fn is_failed(self) -> (r: bool)
        ensures
            r == self.spec_is_failed(),
    {
        match self {
            Decoder::Chunked(c) => c.state == ChunkState::Failed,
            _ => false,
        }
    }

    /// What a byte does to a decoder that is neither done nor failed, and
    /// the byte of the body that it hands on, if it is one.
    pub open spec fn spec_step(self, b: u8) -> (Decoder, Option<u8>) {
        match self {
            Decoder::Length(n) => (Decoder::Length((n - 1) as u64), Some(b)),
            Decoder::Chunked(c) => (Decoder::Chunked(chunk_step(c, b).0), chunk_step(c, b).1),
            Decoder::Eof(done) => (self, Some(b)),
            Decoder::Empty => (self, None),
        }
    }

    /// Takes one byte.
    pub fn step(self, b: u8) -> (r: (Decoder, Option<u8>))
        requires
            !self.spec_is_done(),
        ensures
            r == self.spec_step(b),
    {
        match self {
            Decoder::Length(n) => (Decoder::Length(n - 1), Some(b)),
            Decoder::Chunked(c) => {
                let (c2, e) = c.step(b);
                (Decoder::Chunked(c2), e)
            },
            Decoder::Eof(_) => (self, Some(b)),
            Decoder::Empty => (self, None),
        }
    }

    /// The decoder when the transport has come to its end: a body that the
    /// end of the transport ends is then complete, and so is one that was
    /// complete already. Any other is cut short, which is an error.
    pub fn at_eof(self) -> (r: Result<Decoder, Error>)
        ensures
            match self {
                Decoder::Eof(_) => r == Ok::<Decoder, Error>(Decoder::Eof(true)),
                _ => if self.spec_is_done() {
                    r == Ok::<Decoder, Error>(self)
                } else {
                    r == Err::<Decoder, Error>(Error::Framing)
                },
            },
    {
        match self {
            Decoder::Eof(_) => Ok(Decoder::Eof(true)),
            _ => if self.is_done() {
                Ok(self)
            } else {
                Err(Error::Framing)
            },
        }
    }
}

/// Whether a decoding takes no further byte: the body is complete, the
/// framing is broken, or `limit` bytes of the body are out.
pub open spec fn stopped(s: Decoded, limit: nat) -> bool {
    s.decoder.spec_is_done() || s.decoder.spec_is_failed() || s.out.len() >= limit
}

/// What the next byte does to a decoding.
pub open spec fn decode_step(s: Decoded, b: u8, limit: nat) -> Decoded {
    if stopped(s, limit) {
        s
    } else {
        let (d, e) = s.decoder.spec_step(b);
        Decoded {
            decoder: d,
            out: match e {
                Some(x) => s.out.push(x),
                None => s.out,
            },
            consumed: s.consumed + 1,
        }
    }
}

/// The decoding after `bytes`.
pub open spec fn decode_run(s: Decoded, bytes: Seq<u8>, limit: nat) -> Decoded
    decreases bytes.len(),
{
    if bytes.len() == 0 {
        s
    } else {
        decode_step(decode_run(s, bytes.drop_last(), limit), bytes.last(), limit)
    }
}

/// What `bytes` decode to from decoder `d`, with at most `limit` bytes of
/// the body handed out.
pub open spec fn decode_spec(d: Decoder, bytes: Seq<u8>, limit: nat) -> Decoded {
    decode_run(Decoded { decoder: d, out: Seq::empty(), consumed: 0 }, bytes, limit)
}

/// A decoding that has stopped takes no further byte.
pub proof fn lemma_decode_stopped(s: Decoded, bytes: Seq<u8>, limit: nat)
    requires
        stopped(s, limit),
    ensures
        decode_run(s, bytes, limit) == s,
    decreases bytes.len(),
{
    if bytes.len() > 0 {
        lemma_decode_stopped(s, bytes.drop_last(), limit);
    }
}

/// Decoding `a` and then `b` is decoding both.
pub proof fn lemma_decode_concat(s: Decoded, a: Seq<u8>, b: Seq<u8>, limit: nat)
    ensures
        decode_run(s, a + b, limit) == decode_run(decode_run(s, a, limit), b, limit),
    decreases b.len(),
{
    if b.len() > 0 {
        assert((a + b).drop_last() =~= a + b.drop_last());
        lemma_decode_concat(s, a, b.drop_last(), limit);
    }
}

/// A decoding takes bytes from the front, hands out no more than it takes
/// and no more than `limit`, and stops only where it must.
pub proof fn lemma_decode_bounds(s: Decoded, bytes: Seq<u8>, limit: nat)
    requires
        s.out.len() <= limit || stopped(s, limit),
    ensures
        s.consumed <= decode_run(s, bytes, limit).consumed <= s.consumed + bytes.len(),
        s.out.len() <= decode_run(s, bytes, limit).out.len(),
        decode_run(s, bytes, limit).out.len() - s.out.len() <= decode_run(
            s,
            bytes,
            limit,
        ).consumed - s.consumed,
        s.out.len() <= limit ==> decode_run(s, bytes, limit).out.len() <= limit,
        !stopped(decode_run(s, bytes, limit), limit) ==> decode_run(s, bytes, limit).consumed
            == s.consumed + bytes.len(),
    decreases bytes.len(),
{
    if bytes.len() > 0 {
        lemma_decode_bounds(s, bytes.drop_last(), limit);
    }
}

impl Decoder {
    /// Decodes from the front of `buf`, taking what it decodes out of the
    /// buffer, until the body is complete, the framing is broken, `limit`
    /// bytes of the body are out or the buffer is empty.
    ///
    /// Hands back the bytes of the body it found, if any. With none: an
    /// error if the framing is broken, `Done` if the body is complete,
    /// `NeedMore` otherwise.
    pub fn decode(&mut self, buf: &mut ByteBuffer, limit: usize) -> (r: Result<Decode, Error>)
        requires
            old(buf).wf(),
        ensures
            final(buf).wf(),
            final(buf).ceiling() == old(buf).ceiling(),
            ({
                let d = decode_spec(*old(self), old(buf)@, limit as nat);
                &&& *final(self) == d.decoder
                &&& d.consumed <= old(buf)@.len()
                &&& final(buf)@ == old(buf)@.skip(d.consumed as int)
                &&& match r {
                    Ok(Decode::Data(v)) => d.out.len() > 0 && v@ == d.out,
                    Ok(Decode::NeedMore) => d.out.len() == 0 && !d.decoder.spec_is_failed()
                        && !d.decoder.spec_is_done(),
                    Ok(Decode::Done) => d.out.len() == 0 && !d.decoder.spec_is_failed()
                        && d.decoder.spec_is_done(),
                    Err(e) => d.out.len() == 0 && d.decoder.spec_is_failed() && e == Error::Framing,
                }
            }),
    {
        let len: usize = buf.len();
        let mut out: Vec<u8> = Vec::new();
        let mut dec: Decoder = *self;
        let mut i: usize = 0;
        let ghost s0 = Decoded { decoder: *self, out: Seq::<u8>::empty(), consumed: 0 };
        while i < len && !dec.is_done() && !dec.is_failed() && out.len() < limit
            invariant
                buf.wf(),
                *buf == *old(buf),
                len == buf@.len(),
                i <= len,
                s0 == (Decoded { decoder: *old(self), out: Seq::<u8>::empty(), consumed: 0 }),
                decode_run(s0, buf@.take(i as int), limit as nat) == (Decoded {
                    decoder: dec,
                    out: out@,
                    consumed: i as nat,
                }),
            decreases len - i,
        {
            let b: u8 = buf.get(i);
            let (d2, e) = dec.step(b);
            dec = d2;
            match e {
                Some(x) => {
                    out.push(x);
                },
                None => {},
            }
            proof {
                assert(buf@.take(i + 1).drop_last() =~= buf@.take(i as int));
            }
            i = i + 1;
        }
        proof {
            let cur = Decoded { decoder: dec, out: out@, consumed: i as nat };
            assert(buf@ =~= buf@.take(i as int) + buf@.skip(i as int));
            lemma_decode_concat(s0, buf@.take(i as int), buf@.skip(i as int), limit as nat);
            if i < len {
                lemma_decode_stopped(cur, buf@.skip(i as int), limit as nat);
            }
        }
        buf.consume(i);
        *self = dec;
        if out.len() > 0 {
            Ok(Decode::Data(out))
        } else if dec.is_failed() {
            Err(Error::Framing)
        } else if dec.is_done() {
            Ok(Decode::Done)
        } else {
            Ok(Decode::NeedMore)
        }
    }
}

} // verus!
