//! What goes out as a body comes back as that body.
//!
//! The laws here join the body encoders to the body decoders: the bytes
//! that an encoder sends for the chunks of a body, decoded by the decoder
//! of the same framing, give those chunks back, end to end, and take no
//! byte of what follows.

use vstd::prelude::*;
use crate::buffer::{CR, LF};
use crate::chars::spec_hex_digit;
use crate::decode::{
    chunked_start, decode_run, decode_spec, decode_step, lemma_decode_concat, lemma_decode_stopped,
    stopped, ChunkState, Chunked, Decoded, Decoder, MAX_CHUNK_SIZE,
};
use crate::encode::{chunk_wire, last_chunk_wire, Encoder};
use crate::wire::{crlf, hex_digits};

verus! {

/// The chunks of a body, end to end.
pub open spec fn concat_all(chunks: Seq<Seq<u8>>) -> Seq<u8>
    decreases chunks.len(),
{
    if chunks.len() == 0 {
        Seq::empty()
    } else {
        concat_all(chunks.drop_last()) + chunks.last()
    }
}

/// What an encoder sends for the chunks of a body, one after the other.
pub open spec fn chunks_wire(enc: Encoder, chunks: Seq<Seq<u8>>) -> Seq<u8>
    decreases chunks.len(),
{
    if chunks.len() == 0 {
        Seq::empty()
    } else {
        chunks_wire(enc, chunks.drop_last()) + enc.chunk_bytes(chunks.last())
    }
}

/// What an encoder sends for a whole body: its chunks and its end.
pub open spec fn body_wire(enc: Encoder, chunks: Seq<Seq<u8>>) -> Seq<u8> {
    chunks_wire(enc, chunks) + enc.end_bytes()
}

/// Every chunk has a size of 63 bits.
pub open spec fn chunks_fit(chunks: Seq<Seq<u8>>) -> bool {
    forall|i: int| 0 <= i < chunks.len() ==> (#[trigger] chunks[i]).len() <= MAX_CHUNK_SIZE
}

/// The chunked decoder at the end of a body.
pub open spec fn chunked_done() -> Chunked {
    Chunked { state: ChunkState::Done, size: 0, digits: 1 }
}

/// 16 to the power `k`.
pub open spec fn sixteen_to(k: nat) -> nat
    decreases k,
{
    if k == 0 {
        1
    } else {
        16 * sixteen_to((k - 1) as nat)
    }
}

/// A number below 16 to the power `k` has at most `k` hexadecimal digits.
proof fn lemma_hex_len(n: nat, k: nat)
    requires
        k >= 1,
        n < sixteen_to(k),
    ensures
        1 <= hex_digits(n).len() <= k,
    decreases n,
{
    if n >= 16 {
        assert(sixteen_to(1) == 16) by {
            reveal_with_fuel(sixteen_to, 2);
        }
        lemma_hex_len(n / 16, (k - 1) as nat);
    }
}

/// A size of 63 bits has at most 16 hexadecimal digits.
proof fn lemma_hex_len_63(n: nat)
    requires
        n <= MAX_CHUNK_SIZE,
    ensures
        1 <= hex_digits(n).len() <= 16,
{
    assert(sixteen_to(16) == 0x1_0000_0000_0000_0000) by {
        reveal_with_fuel(sixteen_to, 17);
    }
    lemma_hex_len(n, 16);
}

/// One more byte is one more step.
proof fn lemma_decode_push(s: Decoded, a: Seq<u8>, b: u8, limit: nat)
    ensures
        decode_run(s, a.push(b), limit) == decode_step(decode_run(s, a, limit), b, limit),
{
    assert(a.push(b).drop_last() =~= a);
}

/// Two bytes are two steps.
proof fn lemma_decode_two(s: Decoded, a: u8, b: u8, limit: nat)
    ensures
        decode_run(s, seq![a, b], limit) == decode_step(decode_step(s, a, limit), b, limit),
{
    let e = Seq::<u8>::empty();
    assert(seq![a, b] =~= e.push(a).push(b));
    lemma_decode_push(s, e.push(a), b, limit);
    lemma_decode_push(s, e, a, limit);
}

/// The size of a chunk is read off its hexadecimal digits.
proof fn lemma_size(s: Decoded, n: nat, limit: nat)
    requires
        s.decoder == Decoder::Chunked(chunked_start()),
        n <= MAX_CHUNK_SIZE,
        s.out.len() < limit,
    ensures
        1 <= hex_digits(n).len() <= 16,
        decode_run(s, hex_digits(n), limit) == (Decoded {
            decoder: Decoder::Chunked(
                Chunked { state: ChunkState::Size, size: n as u64, digits: hex_digits(n).len() as u8 },
            ),
            consumed: s.consumed + hex_digits(n).len(),
            ..s
        }),
    decreases n,
{
    lemma_hex_len_63(n);
    let d = spec_hex_digit((n % 16) as u8);
    if n < 16 {
        let e = Seq::<u8>::empty();
        lemma_decode_push(s, e, d, limit);
    } else {
        lemma_size(s, n / 16, limit);
        lemma_decode_push(s, hex_digits(n / 16), d, limit);
    }
}

/// The data of a chunk is handed on byte by byte.
proof fn lemma_data(s: Decoded, c: Chunked, t: Seq<u8>, limit: nat)
    requires
        s.decoder == Decoder::Chunked(c),
        c.state == ChunkState::Body,
        1 <= t.len() <= c.size,
        s.out.len() + t.len() < limit,
    ensures
        decode_run(s, t, limit) == (Decoded {
            decoder: Decoder::Chunked(
                if t.len() == c.size {
                    Chunked { state: ChunkState::BodyCr, size: 0, ..c }
                } else {
                    Chunked { size: (c.size - t.len()) as u64, ..c }
                },
            ),
            out: s.out + t,
            consumed: s.consumed + t.len(),
        }),
    decreases t.len(),
{
    if t.len() == 1 {
        let e = Seq::<u8>::empty();
        assert(t =~= e.push(t[0]));
        lemma_decode_push(s, e, t[0], limit);
        assert(s.out.push(t[0]) =~= s.out + t);
    } else {
        lemma_data(s, c, t.drop_last(), limit);
        assert((s.out + t.drop_last()).push(t.last()) =~= s.out + t);
    }
}

/// A chunk as the encoder sends it hands on its bytes and leaves the
/// decoder at the start of the next chunk.
proof fn lemma_chunk(s: Decoded, c: Seq<u8>, limit: nat)
    requires
        s.decoder == Decoder::Chunked(chunked_start()),
        c.len() <= MAX_CHUNK_SIZE,
        s.out.len() + c.len() < limit,
    ensures
        decode_run(s, chunk_wire(c), limit) == (Decoded {
            out: s.out + c,
            consumed: s.consumed + chunk_wire(c).len(),
            ..s
        }),
{
    if c.len() > 0 {
        let n = c.len();
        let w1 = hex_digits(n);
        let w2 = w1 + crlf();
        let w3 = w2 + c;
        lemma_size(s, n, limit);
        let s1 = decode_run(s, w1, limit);
        lemma_decode_concat(s, w1, crlf(), limit);
        lemma_decode_two(s1, CR, LF, limit);
        let s2 = decode_run(s, w2, limit);
        let in_body = Chunked { state: ChunkState::Body, size: n as u64, digits: w1.len() as u8 };
        lemma_decode_concat(s, w2, c, limit);
        lemma_data(s2, in_body, c, limit);
        let s3 = decode_run(s, w3, limit);
        lemma_decode_concat(s, w3, crlf(), limit);
        lemma_decode_two(s3, CR, LF, limit);
    }
}

/// The chunks of a body as the chunked encoder sends them hand on their
/// bytes, end to end.
proof fn lemma_chunks(s: Decoded, chunks: Seq<Seq<u8>>, limit: nat)
    requires
        s.decoder == Decoder::Chunked(chunked_start()),
        chunks_fit(chunks),
        s.out.len() + concat_all(chunks).len() < limit,
    ensures
        decode_run(s, chunks_wire(Encoder::Chunked, chunks), limit) == (Decoded {
            out: s.out + concat_all(chunks),
            consumed: s.consumed + chunks_wire(Encoder::Chunked, chunks).len(),
            ..s
        }),
    decreases chunks.len(),
{
    if chunks.len() > 0 {
        let front = chunks.drop_last();
        let c = chunks.last();
        lemma_chunks(s, front, limit);
        let q = decode_run(s, chunks_wire(Encoder::Chunked, front), limit);
        lemma_decode_concat(s, chunks_wire(Encoder::Chunked, front), chunk_wire(c), limit);
        lemma_chunk(q, c, limit);
        assert(s.out + concat_all(front) + c =~= s.out + concat_all(chunks));
    }
}

/// The end of a chunked body completes the decoder.
proof fn lemma_last_chunk(s: Decoded, limit: nat)
    requires
        s.decoder == Decoder::Chunked(chunked_start()),
        s.out.len() < limit,
    ensures
        decode_run(s, last_chunk_wire(), limit) == (Decoded {
            decoder: Decoder::Chunked(chunked_done()),
            consumed: s.consumed + 5,
            ..s
        }),
{
    let e = Seq::<u8>::empty();
    let w = last_chunk_wire();
    let a1 = e.push(w[0]);
    let a2 = a1.push(w[1]);
    let a3 = a2.push(w[2]);
    let a4 = a3.push(w[3]);
    let a5 = a4.push(w[4]);
    assert(a5 =~= w);
    lemma_decode_push(s, e, w[0], limit);
    lemma_decode_push(s, a1, w[1], limit);
    lemma_decode_push(s, a2, w[2], limit);
    lemma_decode_push(s, a3, w[3], limit);
    lemma_decode_push(s, a4, w[4], limit);
}

/// A body that the chunked encoder sent, followed by any bytes at all,
/// decodes to its chunks end to end, as long as more bytes may be handed
/// out than the body has. The decoder is then done and has taken just the
/// bytes that the encoder sent; so the lengths of the chunks handed out add
/// up to the length of the body.
pub proof fn lemma_chunked_roundtrip(chunks: Seq<Seq<u8>>, rest: Seq<u8>, limit: nat)
    requires
        chunks_fit(chunks),
        concat_all(chunks).len() < limit,
    ensures
        decode_spec(
            Decoder::Chunked(chunked_start()),
            body_wire(Encoder::Chunked, chunks) + rest,
            limit,
        ) == (Decoded {
            decoder: Decoder::Chunked(chunked_done()),
            out: concat_all(chunks),
            consumed: body_wire(Encoder::Chunked, chunks).len(),
        }),
{
    let s0 = Decoded {
        decoder: Decoder::Chunked(chunked_start()),
        out: Seq::<u8>::empty(),
        consumed: 0,
    };
    let w1 = chunks_wire(Encoder::Chunked, chunks);
    let w2 = w1 + last_chunk_wire();
    lemma_chunks(s0, chunks, limit);
    let s1 = decode_run(s0, w1, limit);
    lemma_decode_concat(s0, w1, last_chunk_wire(), limit);
    lemma_last_chunk(s1, limit);
    let s2 = decode_run(s0, w2, limit);
    lemma_decode_concat(s0, w2, rest, limit);
    lemma_decode_stopped(s2, rest, limit);
}

/// Bytes that are all body are handed on as they are.
proof fn lemma_plain(s: Decoded, t: Seq<u8>, limit: nat)
    requires
        s.decoder matches Decoder::Length(n) ==> t.len() <= n,
        s.decoder is Length || s.decoder == Decoder::Eof(false),
        s.out.len() + t.len() <= limit,
    ensures
        decode_run(s, t, limit) == (Decoded {
            decoder: match s.decoder {
                Decoder::Length(n) => Decoder::Length((n - t.len()) as u64),
                _ => s.decoder,
            },
            out: s.out + t,
            consumed: s.consumed + t.len(),
        }),
    decreases t.len(),
{
    if t.len() > 0 {
        lemma_plain(s, t.drop_last(), limit);
        assert((s.out + t.drop_last()).push(t.last()) =~= s.out + t);
    }
}

/// What an encoder that sends the body as it is sends for its chunks is
/// the chunks end to end.
pub proof fn lemma_plain_wire(enc: Encoder, chunks: Seq<Seq<u8>>)
    requires
        !(enc is Chunked),
    ensures
        body_wire(enc, chunks) == concat_all(chunks),
    decreases chunks.len(),
{
    if chunks.len() > 0 {
        lemma_plain_wire(enc, chunks.drop_last());
    }
}

/// A body that an encoder of fixed length sent in full, followed by any
/// bytes at all, decodes by the decoder of that length to its chunks end to
/// end, as long as no fewer bytes may be handed out than the body has. The
/// decoder is then done and has taken just the bytes of the body.
pub proof fn lemma_length_roundtrip(chunks: Seq<Seq<u8>>, rest: Seq<u8>, limit: nat)
    requires
        concat_all(chunks).len() <= u64::MAX,
        concat_all(chunks).len() <= limit,
    ensures
        decode_spec(
            Decoder::Length(concat_all(chunks).len() as u64),
            body_wire(Encoder::Length(concat_all(chunks).len() as u64), chunks) + rest,
            limit,
        ) == (Decoded {
            decoder: Decoder::Length(0),
            out: concat_all(chunks),
            consumed: concat_all(chunks).len(),
        }),
{
    let body = concat_all(chunks);
    let n = body.len() as u64;
    let s0 = Decoded { decoder: Decoder::Length(n), out: Seq::<u8>::empty(), consumed: 0 };
    lemma_plain_wire(Encoder::Length(n), chunks);
    lemma_plain(s0, body, limit);
    let s1 = decode_run(s0, body, limit);
    lemma_decode_concat(s0, body, rest, limit);
    lemma_decode_stopped(s1, rest, limit);
}

/// A body that the close of the connection ends decodes, by the decoder
/// that runs to the end of the transport, to its chunks end to end, as long
/// as no fewer bytes may be handed out than the body has.
pub proof fn lemma_close_delimited_roundtrip(chunks: Seq<Seq<u8>>, limit: nat)
    requires
        concat_all(chunks).len() <= limit,
    ensures
        decode_spec(Decoder::Eof(false), body_wire(Encoder::CloseDelimited, chunks), limit) == (
        Decoded {
            decoder: Decoder::Eof(false),
            out: concat_all(chunks),
            consumed: concat_all(chunks).len(),
        }),
{
    let body = concat_all(chunks);
    let s0 = Decoded { decoder: Decoder::Eof(false), out: Seq::<u8>::empty(), consumed: 0 };
    lemma_plain_wire(Encoder::CloseDelimited, chunks);
    lemma_plain(s0, body, limit);
}

/// A decoder for no body takes no byte and hands none out, whatever
/// follows the head.
pub proof fn lemma_empty_takes_nothing(bytes: Seq<u8>, limit: nat)
    ensures
        decode_spec(Decoder::Empty, bytes, limit) == (Decoded {
            decoder: Decoder::Empty,
            out: Seq::<u8>::empty(),
            consumed: 0,
        }),
        decode_spec(Decoder::Length(0), bytes, limit) == (Decoded {
            decoder: Decoder::Length(0),
            out: Seq::<u8>::empty(),
            consumed: 0,
        }),
{
    lemma_decode_stopped(
        Decoded { decoder: Decoder::Empty, out: Seq::<u8>::empty(), consumed: 0 },
        bytes,
        limit,
    );
    lemma_decode_stopped(
        Decoded { decoder: Decoder::Length(0), out: Seq::<u8>::empty(), consumed: 0 },
        bytes,
        limit,
    );
}

/// A decoding that starts with bytes already counted and handed out goes as
/// one that starts with none, the bytes added in front and the limit moved
/// by as many.
proof fn lemma_decode_shift(s: Decoded, front: Seq<u8>, count: nat, bytes: Seq<u8>, limit: nat)
    ensures
        decode_run(
            Decoded { out: front + s.out, consumed: s.consumed + count, ..s },
            bytes,
            limit + front.len(),
        ) == (Decoded {
            out: front + decode_run(s, bytes, limit).out,
            consumed: decode_run(s, bytes, limit).consumed + count,
            ..decode_run(s, bytes, limit)
        }),
    decreases bytes.len(),
{
    if bytes.len() > 0 {
        lemma_decode_shift(s, front, count, bytes.drop_last(), limit);
    }
}

/// Decoding bytes that come in two pieces, the second from where the first
/// left the decoder, hands out the same bytes of the body as decoding them
/// in one piece, takes as many bytes and leaves the same decoder.
pub proof fn lemma_decode_split(d: Decoder, a: Seq<u8>, b: Seq<u8>, limit: nat)
    ensures
        decode_spec(d, a, limit).out.len() <= limit || limit == 0,
        ({
            let first = decode_spec(d, a, limit);
            let second = decode_spec(first.decoder, b, (limit - first.out.len()) as nat);
            decode_spec(d, a + b, limit) == (Decoded {
                decoder: second.decoder,
                out: first.out + second.out,
                consumed: first.consumed + second.consumed,
            })
        }),
{
    let s0 = Decoded { decoder: d, out: Seq::<u8>::empty(), consumed: 0 };
    let first = decode_run(s0, a, limit);
    crate::decode::lemma_decode_bounds(s0, a, limit);
    lemma_decode_concat(s0, a, b, limit);
    let rest = (limit - first.out.len()) as nat;
    let s1 = Decoded { decoder: first.decoder, out: Seq::<u8>::empty(), consumed: 0 };
    lemma_decode_shift(s1, first.out, first.consumed, b, rest);
}

/// The lengths of the chunks of a body, added up.
pub open spec fn total_length(chunks: Seq<Seq<u8>>) -> nat
    decreases chunks.len(),
{
    if chunks.len() == 0 {
        0
    } else {
        total_length(chunks.drop_last()) + chunks.last().len()
    }
}

/// The chunks of a body, end to end, are as long as their lengths added up.
pub proof fn lemma_concat_length(chunks: Seq<Seq<u8>>)
    ensures
        concat_all(chunks).len() == total_length(chunks),
    decreases chunks.len(),
{
    if chunks.len() > 0 {
        lemma_concat_length(chunks.drop_last());
    }
}

/// Whether decoder `d` reads the framing that encoder `enc` writes for a
/// body of `total` bytes.
pub open spec fn pairs(d: Decoder, enc: Encoder, total: nat) -> bool {
    match enc {
        Encoder::Chunked => d == Decoder::Chunked(chunked_start()),
        Encoder::Length(n) => n == total && d == Decoder::Length(n),
        Encoder::CloseDelimited => d == Decoder::Eof(false),
    }
}

/// A body that an encoder sent whole, decoded by the decoder that reads
/// its framing, comes back as its chunks end to end, and the lengths of what
/// is handed out add up to the length of the body. The decoder takes just
/// the bytes that the encoder sent, whatever follows them, and is then
/// done; but a body that the close of the connection ends has nothing behind
/// it, and its decoder is done when the transport ends.
pub proof fn lemma_body_roundtrip(
    d: Decoder,
    enc: Encoder,
    chunks: Seq<Seq<u8>>,
    rest: Seq<u8>,
    limit: nat,
)
    requires
        pairs(d, enc, concat_all(chunks).len()),
        chunks_fit(chunks),
        concat_all(chunks).len() < limit,
        enc is CloseDelimited ==> rest.len() == 0,
    ensures
        decode_spec(d, body_wire(enc, chunks) + rest, limit).out == concat_all(chunks),
        decode_spec(d, body_wire(enc, chunks) + rest, limit).out.len() == total_length(chunks),
        decode_spec(d, body_wire(enc, chunks) + rest, limit).consumed == body_wire(
            enc,
            chunks,
        ).len(),
        !(enc is CloseDelimited) ==> decode_spec(
            d,
            body_wire(enc, chunks) + rest,
            limit,
        ).decoder.spec_is_done(),
        enc is CloseDelimited ==> decode_spec(d, body_wire(enc, chunks) + rest, limit).decoder
            == Decoder::Eof(false),
{
    lemma_concat_length(chunks);
    match enc {
        Encoder::Chunked => {
            lemma_chunked_roundtrip(chunks, rest, limit);
        },
        Encoder::Length(n) => {
            lemma_plain_wire(enc, chunks);
            lemma_length_roundtrip(chunks, rest, limit);
        },
        Encoder::CloseDelimited => {
            lemma_plain_wire(enc, chunks);
            lemma_close_delimited_roundtrip(chunks, limit);
        },
    }
}

/// What `bytes` decode to from decoder `d` when nothing limits the bytes of
/// the body that are handed out.
pub open spec fn decode_whole(d: Decoder, bytes: Seq<u8>) -> Decoded {
    decode_spec(d, bytes, bytes.len() + 1)
}

/// A decoding takes a prefix of the bytes: it goes the same way over the
/// bytes that it takes alone.
proof fn lemma_decode_prefix(s: Decoded, bytes: Seq<u8>, limit: nat)
    requires
        s.out.len() <= limit || stopped(s, limit),
    ensures
        decode_run(s, bytes, limit).consumed - s.consumed <= bytes.len(),
        decode_run(
            s,
            bytes.take(decode_run(s, bytes, limit).consumed - s.consumed),
            limit,
        ) == decode_run(s, bytes, limit),
    decreases bytes.len(),
{
    crate::decode::lemma_decode_bounds(s, bytes, limit);
    if bytes.len() > 0 {
        let front = bytes.drop_last();
        let q = decode_run(s, front, limit);
        crate::decode::lemma_decode_bounds(s, front, limit);
        lemma_decode_prefix(s, front, limit);
        if stopped(q, limit) {
            let c = q.consumed - s.consumed;
            assert(bytes.take(c) =~= front.take(c));
        } else {
            assert(bytes.take(bytes.len() as int) =~= bytes);
        }
    } else {
        assert(bytes.take(0) =~= bytes);
    }
}

/// A decoding that takes all of the bytes goes the same way under any
/// larger limit.
proof fn lemma_decode_room(s: Decoded, bytes: Seq<u8>, limit: nat, larger: nat)
    requires
        limit <= larger,
        s.out.len() <= limit || stopped(s, limit),
        decode_run(s, bytes, limit).consumed == s.consumed + bytes.len(),
    ensures
        decode_run(s, bytes, larger) == decode_run(s, bytes, limit),
    decreases bytes.len(),
{
    if bytes.len() > 0 {
        let front = bytes.drop_last();
        crate::decode::lemma_decode_bounds(s, front, limit);
        lemma_decode_room(s, front, limit, larger);
    }
}

/// Decoding under a limit, and then what is left under a larger one, is
/// decoding under the larger limit.
pub proof fn lemma_decode_limit(d: Decoder, bytes: Seq<u8>, limit: nat, larger: nat)
    requires
        limit <= larger,
    ensures
        decode_spec(d, bytes, limit).consumed <= bytes.len(),
        decode_spec(d, bytes, limit).out.len() <= decode_spec(d, bytes, limit).consumed,
        ({
            let first = decode_spec(d, bytes, limit);
            let later = decode_spec(
                first.decoder,
                bytes.skip(first.consumed as int),
                (larger - first.out.len()) as nat,
            );
            decode_spec(d, bytes, larger) == (Decoded {
                decoder: later.decoder,
                out: first.out + later.out,
                consumed: first.consumed + later.consumed,
            })
        }),
{
    let s0 = Decoded { decoder: d, out: Seq::<u8>::empty(), consumed: 0 };
    let first = decode_run(s0, bytes, limit);
    crate::decode::lemma_decode_bounds(s0, bytes, limit);
    lemma_decode_prefix(s0, bytes, limit);
    let c = first.consumed as int;
    lemma_decode_room(s0, bytes.take(c), limit, larger);
    assert(bytes =~= bytes.take(c) + bytes.skip(c));
    lemma_decode_split(d, bytes.take(c), bytes.skip(c), larger);
}

/// With room for more bytes of the body than there are bytes, the limit
/// makes no difference.
pub proof fn lemma_decode_roomy(d: Decoder, bytes: Seq<u8>, limit: nat)
    requires
        limit > bytes.len(),
    ensures
        decode_spec(d, bytes, limit) == decode_whole(d, bytes),
{
    let s0 = Decoded { decoder: d, out: Seq::<u8>::empty(), consumed: 0 };
    let first = decode_whole(d, bytes);
    crate::decode::lemma_decode_bounds(s0, bytes, bytes.len() + 1);
    lemma_decode_limit(d, bytes, bytes.len() + 1, limit);
    let rest = bytes.skip(first.consumed as int);
    let s1 = Decoded { decoder: first.decoder, out: Seq::<u8>::empty(), consumed: 0 };
    if first.consumed == bytes.len() {
        assert(rest =~= Seq::<u8>::empty());
    } else {
        lemma_decode_stopped(s1, rest, (limit - first.out.len()) as nat);
    }
    assert(first.out + s1.out =~= first.out);
}

/// What one decoding under a limit hands out, and then what the rest
/// decodes to, is what the bytes decode to as a whole.
pub proof fn lemma_decode_first_then_rest(d: Decoder, bytes: Seq<u8>, limit: nat)
    requires
        limit >= 1,
    ensures
        decode_spec(d, bytes, limit).consumed <= bytes.len(),
        decode_spec(d, bytes, limit).out.len() <= decode_spec(d, bytes, limit).consumed,
        ({
            let first = decode_spec(d, bytes, limit);
            let later = decode_whole(first.decoder, bytes.skip(first.consumed as int));
            decode_whole(d, bytes) == (Decoded {
                decoder: later.decoder,
                out: first.out + later.out,
                consumed: first.consumed + later.consumed,
            })
        }),
{
    let s0 = Decoded { decoder: d, out: Seq::<u8>::empty(), consumed: 0 };
    let first = decode_spec(d, bytes, limit);
    crate::decode::lemma_decode_bounds(s0, bytes, limit);
    let rest = bytes.skip(first.consumed as int);
    let s1 = Decoded { decoder: first.decoder, out: Seq::<u8>::empty(), consumed: 0 };
    if limit <= bytes.len() + 1 {
        lemma_decode_limit(d, bytes, limit, bytes.len() + 1);
        lemma_decode_roomy(first.decoder, rest, (bytes.len() + 1 - first.out.len()) as nat);
    } else {
        lemma_decode_roomy(d, bytes, limit);
        if first.consumed == bytes.len() {
            assert(rest =~= Seq::<u8>::empty());
        } else {
            lemma_decode_stopped(s1, rest, rest.len() + 1);
        }
        assert(first.out + s1.out =~= first.out);
    }
}

/// What an encoder sends for a body is no shorter than the body.
pub proof fn lemma_wire_holds_the_body(enc: Encoder, chunks: Seq<Seq<u8>>)
    ensures
        concat_all(chunks).len() <= chunks_wire(enc, chunks).len(),
        concat_all(chunks).len() <= body_wire(enc, chunks).len(),
    decreases chunks.len(),
{
    if chunks.len() > 0 {
        lemma_wire_holds_the_body(enc, chunks.drop_last());
    }
}

} // verus!
