//! Body encoders: how the chunks of a body go out.

use vstd::prelude::*;
use crate::chars::append_bytes;
use crate::decode::MAX_CHUNK_SIZE;
use crate::error::Error;
use crate::wire::{crlf, hex_digits, push_crlf, push_hex};

verus! {

/// A body encoder.
#[derive(Debug, Clone, Copy, PartialEq, Eq, Structural)]
pub enum Encoder {
    /// A body of as many bytes as are still owed, sent as they are.
    Length(u64),
    /// A body in chunks, each behind its size.
    Chunked,
    /// A body sent as it is, which the close of the connection ends.
    CloseDelimited,
}

/// A chunk as the chunked encoder sends it: its size in hexadecimal, CR LF,
/// its bytes, CR LF. An empty chunk sends nothing, since a chunk of size
/// zero would end the body.
pub open spec fn chunk_wire(chunk: Seq<u8>) -> Seq<u8> {
    if chunk.len() == 0 {
        Seq::empty()
    } else {
        hex_digits(chunk.len()) + crlf() + chunk + crlf()
    }
}

/// The end of a chunked body: a chunk of size zero and an empty line.
pub open spec fn last_chunk_wire() -> Seq<u8> {
    seq!['0' as u8] + crlf() + crlf()
}

impl Encoder {
    /// Whether the encoder takes `chunk`: a fixed length takes no more than
    /// it is owed, and a chunk of a chunked body has a size of 63 bits.
    pub open spec fn accepts(self, chunk: Seq<u8>) -> bool {
        match self {
            Encoder::Length(n) => chunk.len() <= n,
            Encoder::Chunked => chunk.len() <= MAX_CHUNK_SIZE,
            Encoder::CloseDelimited => true,
        }
    }

    /// What goes out for a chunk that the encoder takes.
    pub open spec fn chunk_bytes(self, chunk: Seq<u8>) -> Seq<u8> {
        match self {
            Encoder::Chunked => chunk_wire(chunk),
            _ => chunk,
        }
    }

    /// The encoder behind a chunk that it takes.
    pub open spec fn after(self, chunk: Seq<u8>) -> Encoder {
        match self {
            Encoder::Length(n) => Encoder::Length((n - chunk.len()) as u64),
            _ => self,
        }
    }

    /// What goes out at the end of the body.
    pub open spec fn end_bytes(self) -> Seq<u8> {
        match self {
            Encoder::Chunked => last_chunk_wire(),
            _ => Seq::empty(),
        }
    }

    /// Whether the peer can tell where a body ended here ends: a chunked
    /// body always, a fixed length when all of it was sent, a body that the
    /// close of the connection ends never.
    pub open spec fn ends_bounded(self) -> bool {
        match self {
            Encoder::Length(n) => n == 0,
            Encoder::Chunked => true,
            Encoder::CloseDelimited => false,
        }
    }

    /// Appends a chunk of the body to `out` as it goes out.
    ///
    /// A chunk that the encoder does not take is an `InvalidInput`, and
    /// nothing is appended.
    pub fn encode(&mut self, chunk: &[u8], out: &mut Vec<u8>) -> (r: Result<(), Error>)
        ensures
            old(self).accepts(chunk@) ==> r is Ok && *final(self) == old(self).after(chunk@)
                && final(out)@ == old(out)@ + old(self).chunk_bytes(chunk@),
            !old(self).accepts(chunk@) ==> r == Err::<(), Error>(Error::InvalidInput)
                && *final(self) == *old(self) && final(out)@ == old(out)@,
    {
        match *self {
            Encoder::Length(n) => {
                if chunk.len() as u64 > n {
                    return Err(Error::InvalidInput);
                }
                append_bytes(out, chunk);
                *self = Encoder::Length(n - chunk.len() as u64);
                Ok(())
            },
            Encoder::Chunked => {
                if chunk.len() as u64 > MAX_CHUNK_SIZE {
                    return Err(Error::InvalidInput);
                }
                if chunk.len() > 0 {
                    push_hex(out, chunk.len() as u64);
                    push_crlf(out);
                    append_bytes(out, chunk);
                    push_crlf(out);
                }
                Ok(())
            },
            Encoder::CloseDelimited => {
                append_bytes(out, chunk);
                Ok(())
            },
        }
    }

    /// Appends the end of the body to `out`, and says whether the peer can
    /// tell from the bytes alone that the body has ended.
    pub fn end(self, out: &mut Vec<u8>) -> (bounded: bool)
        ensures
            final(out)@ == old(out)@ + self.end_bytes(),
            bounded == self.ends_bounded(),
    {
        match self {
            Encoder::Length(n) => {
                n == 0
            },
            Encoder::Chunked => {
                out.push('0' as u8);
                push_crlf(out);
                push_crlf(out);
                true
            },
            Encoder::CloseDelimited => {
                false
            },
        }
    }
}

} // verus!
