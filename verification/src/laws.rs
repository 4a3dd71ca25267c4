//! Laws of the connection and of its parts.

use vstd::prelude::*;
use crate::bodies::{
    body_wire, chunks_fit, concat_all, decode_whole, lemma_body_roundtrip,
    lemma_chunked_roundtrip, lemma_decode_first_then_rest, lemma_decode_roomy,
    lemma_decode_split,
    lemma_empty_takes_nothing, lemma_wire_holds_the_body, pairs, total_length,
};
use crate::buffer::{lemma_leading_line_breaks, leading_line_breaks};
use crate::client::{client_closed, client_read_model, client_write_model, ClientView};
use crate::conn::{
    close, closed, head_output, lemma_read_keeps_valid, read_body_model, read_head_model,
    read_model, sent_headers, settle, valid, write_model, ConnView, Reading, Writing, READ_CHUNK,
};
use crate::decode::{
    chunked_start, decode_spec, lemma_decode_bounds, lemma_decode_stopped, Decoded, Decoder,
};
use crate::encode::{last_chunk_wire, Encoder};
use crate::error::Error;
use crate::frame::{Async, FrameView};
use crate::framing::{
    permits_reuse,
    chunked, content_length, has_transfer_encoding, request_decoder_spec, response_decoder_spec,
    response_encoder_spec,
};
use crate::head::{HeaderView, MessageHeadView, RequestHeadView, ResponseHeadView};
use crate::parse::{
    lemma_head_takes_bytes, lemma_parse_request_stable, lemma_run_concat, lemma_run_count,
    lemma_run_halted, lemma_run_too_large, parse_request_spec, parse_response_spec, run, start,
    Kind,
};
use crate::roundtrip::{
    canonical, lemma_request_roundtrip, lemma_response_roundtrip, lower_names, valid_request,
    valid_response,
};
use crate::wire::{request_wire, response_wire, version_bytes};

verus! {

/// The connection with `more` bytes from the peer behind its input.
pub open spec fn feed(v: ConnView, more: Seq<u8>) -> ConnView {
    ConnView { input: v.input + more, ..v }
}

/// A valid request head of more than `max` bytes is a parse error, whatever
/// follows it.
pub proof fn law_request_too_large(h: RequestHeadView, rest: Seq<u8>, max: nat)
    requires
        valid_request(h),
        request_wire(h).len() > max,
    ensures
        parse_request_spec(request_wire(h) + rest, max) == Err::<
            Option<(RequestHeadView, nat)>,
            Error,
        >(Error::Parse),
{
    let w = request_wire(h);
    let s0 = start(Kind::Request);
    let e = Seq::<u8>::empty();
    lemma_request_roundtrip(h, e, w.len());
    if max == 0 {
        let first = seq![w[0]];
        assert(first.drop_last() =~= e);
        assert(run(s0, e, max) == s0);
        assert(w =~= first + w.skip(1));
        lemma_run_concat(s0, first, w.skip(1), max);
        lemma_run_halted(run(s0, first, max), w.skip(1), max);
    } else {
        lemma_run_too_large(s0, w, max, w.len());
    }
    lemma_run_concat(s0, w, rest, max);
    lemma_run_halted(run(s0, w, max), rest, max);
}

/// A valid response head of more than `max` bytes is a parse error,
/// whatever follows it.
pub proof fn law_response_too_large(h: ResponseHeadView, rest: Seq<u8>, max: nat)
    requires
        valid_response(h),
        response_wire(h).len() > max,
    ensures
        parse_response_spec(response_wire(h) + rest, max) == Err::<
            Option<(ResponseHeadView, nat)>,
            Error,
        >(Error::Parse),
{
    let w = response_wire(h);
    let s0 = start(Kind::Response);
    let e = Seq::<u8>::empty();
    lemma_response_roundtrip(h, e, w.len());
    if max == 0 {
        let first = seq![w[0]];
        assert(first.drop_last() =~= e);
        assert(run(s0, e, max) == s0);
        assert(w =~= first + w.skip(1));
        lemma_run_concat(s0, first, w.skip(1), max);
        lemma_run_halted(run(s0, first, max), w.skip(1), max);
    } else {
        lemma_run_too_large(s0, w, max, w.len());
    }
    lemma_run_concat(s0, w, rest, max);
    lemma_run_halted(run(s0, w, max), rest, max);
}

/// A closed connection stays as it is: a read hands out `Done`, a write of
/// `Done` is taken, and a write of any other frame is refused with
/// `Closed`.
pub proof fn law_closed_is_terminal(v: ConnView, frame: FrameView<ResponseHeadView>)
    requires
        closed(v),
    ensures
        read_model(v) == (v, Async::Ready(FrameView::<RequestHeadView>::Done)),
        write_model(v, frame).0 == v,
        frame is Done ==> write_model(v, frame).1 == Ok::<(), Error>(()),
        !(frame is Done) ==> write_model(v, frame).1 == Err::<(), Error>(Error::Closed),
{
}

/// Every failure closes both halves at once: a read that hands out an
/// error or `Done`, and a write that is refused, leave the connection
/// closed.
pub proof fn law_failure_closes(v: ConnView, frame: FrameView<ResponseHeadView>)
    requires
        valid(v),
    ensures
        read_model(v).1 matches Async::Ready(f) && (f is Error || f is Done) ==> closed(
            read_model(v).0,
        ),
        write_model(v, frame).1 is Err ==> closed(write_model(v, frame).0),
{
}

/// Requests are answered in the order in which they came. A read that
/// hands out a head puts the request behind those that wait, and no other
/// read touches them. A write that takes a head answers the request that
/// has waited longest and takes it off the front, and no other write
/// touches them. What a write sends goes behind what is still to be sent.
pub proof fn law_answers_in_request_order(v: ConnView, frame: FrameView<ResponseHeadView>)
    requires
        valid(v),
    ensures
        read_model(v).1 matches Async::Ready(FrameView::Message { .. }) ==> read_model(
            v,
        ).0.pending.len() == v.pending.len() + 1 && read_model(v).0.pending.drop_last()
            == v.pending,
        !(read_model(v).1 matches Async::Ready(FrameView::Message { .. })) ==> read_model(
            v,
        ).0.pending == v.pending,
        read_model(v).0.output == v.output,
        frame is Message && write_model(v, frame).1 is Ok ==> v.pending.len() > 0 && write_model(
            v,
            frame,
        ).0.pending == v.pending.remove(0),
        !(frame is Message && write_model(v, frame).1 is Ok) ==> write_model(v, frame).0.pending
            == v.pending,
        write_model(v, frame).0.output.len() >= v.output.len(),
        write_model(v, frame).0.output.subrange(0, v.output.len() as int) == v.output,
{
    assert(write_model(v, frame).0.output.subrange(0, v.output.len() as int) =~= v.output);
}

/// Two responses written one after the other to a connection on which two
/// requests wait go out in that order, the first framed for the request
/// that came first and the second for the one that came second.
pub proof fn law_pipelined_responses(
    v: ConnView,
    first: ResponseHeadView,
    second: ResponseHeadView,
)
    requires
        valid(v),
        v.pending.len() >= 2,
        write_model(v, FrameView::Message { message: first, body: false }).1 is Ok,
        write_model(
            write_model(v, FrameView::Message { message: first, body: false }).0,
            FrameView::Message { message: second, body: false },
        ).1 is Ok,
    ensures
        ({
            let one = write_model(v, FrameView::Message { message: first, body: false }).0;
            let two = write_model(one, FrameView::Message { message: second, body: false }).0;
            let first_encoder = response_encoder_spec(
                first.headers,
                v.pending[0].version,
                false,
            );
            let second_encoder = response_encoder_spec(
                second.headers,
                v.pending[1].version,
                false,
            );
            &&& first_encoder is Ok
            &&& second_encoder is Ok
            &&& two.output == v.output + head_output(
                first,
                first_encoder->Ok_0,
                v.pending[0],
                false,
            ) + head_output(second, second_encoder->Ok_0, v.pending[1], false)
            &&& two.pending == v.pending.skip(2)
        }),
{
    let one = write_model(v, FrameView::Message { message: first, body: false }).0;
    let two = write_model(one, FrameView::Message { message: second, body: false }).0;
}

/// The line breaks at the front of two pieces of input are those of the
/// first piece and, if the first piece is line breaks only, those of the
/// second.
pub proof fn lemma_leading_line_breaks_concat(a: Seq<u8>, b: Seq<u8>)
    ensures
        leading_line_breaks(a + b) == if leading_line_breaks(a) == a.len() {
            a.len() + leading_line_breaks(b)
        } else {
            leading_line_breaks(a)
        },
    decreases a.len(),
{
    if a.len() > 0 {
        assert((a + b).skip(1) =~= a.skip(1) + b);
        lemma_leading_line_breaks_concat(a.skip(1), b);
    }
}

/// Input that has had its leading line breaks dropped, with more input
/// behind it, is after that drop what the whole input is after it.
proof fn lemma_trim_then_feed(a: Seq<u8>, b: Seq<u8>)
    ensures
        ({
            let t = a.skip(leading_line_breaks(a) as int);
            (t + b).skip(leading_line_breaks(t + b) as int) == (a + b).skip(
                leading_line_breaks(a + b) as int,
            )
        }),
{
    lemma_leading_line_breaks(a);
    lemma_leading_line_breaks(b);
    lemma_leading_line_breaks_concat(a, b);
}

/// A read of a head that waits loses nothing: with more input, the next
/// read of a head does what it would have done with all of the input at
/// once.
proof fn lemma_head_waits(v: ConnView, more: Seq<u8>)
    requires
        read_head_model(v).1 is NotReady,
    ensures
        read_head_model(feed(read_head_model(v).0, more)) == read_head_model(feed(v, more)),
{
    lemma_trim_then_feed(v.input, more);
}

/// A read from a body that waits loses nothing: with more input, the next
/// read from the body does what it would have done with all of the input
/// at once.
proof fn lemma_body_waits(v: ConnView, d: Decoder, more: Seq<u8>)
    requires
        read_body_model(v, d).1 is NotReady,
    ensures
        read_body_model(v, d).0.reading is Body,
        ({
            let v1 = read_body_model(v, d).0;
            read_body_model(feed(v1, more), v1.reading->Body_0) == read_body_model(
                feed(v, more),
                d,
            )
        }),
{
    let limit = READ_CHUNK as nat;
    let first = decode_spec(d, v.input, limit);
    lemma_decode_bounds(
        Decoded { decoder: d, out: Seq::<u8>::empty(), consumed: 0 },
        v.input,
        limit,
    );
    lemma_decode_split(d, v.input, more, limit);
    let second = decode_spec(first.decoder, more, limit);
    lemma_decode_bounds(
        Decoded { decoder: first.decoder, out: Seq::<u8>::empty(), consumed: 0 },
        more,
        limit,
    );
    let whole = decode_spec(d, v.input + more, limit);
    assert((v.input + more).skip(whole.consumed as int) =~= more.skip(second.consumed as int));
}

/// Bytes may come in any pieces. A read that waits loses nothing: with more
/// input, the next read does what a read would have done with all of the
/// input at once.
pub proof fn law_waiting_loses_nothing(v: ConnView, more: Seq<u8>)
    requires
        valid(v),
        read_model(v).1 is NotReady,
    ensures
        read_model(feed(read_model(v).0, more)) == read_model(feed(v, more)),
{
    match v.reading {
        Reading::Closed => {},
        Reading::KeepAlive => {
            if v.read_reuse {
                lemma_head_waits(ConnView { reading: Reading::Init, ..v }, more);
            }
        },
        Reading::Init => {
            lemma_head_waits(v, more);
        },
        Reading::Body(d) => {
            lemma_body_waits(v, d, more);
        },
    }
}

/// A head that a read hands out, or an error of the head, is the same, and
/// leaves the same connection, whatever bytes have come behind it.
proof fn lemma_head_in_pieces(v: ConnView, more: Seq<u8>)
    requires
        v.input.len() <= v.max_head_bytes,
        !v.eof,
        read_head_model(v).1 is Ready,
    ensures
        read_head_model(feed(v, more)) == (feed(read_head_model(v).0, more), read_head_model(v).1),
{
    let k = leading_line_breaks(v.input);
    let t = v.input.skip(k as int);
    lemma_leading_line_breaks(v.input);
    lemma_leading_line_breaks_concat(v.input, more);
    assert((v.input + more).skip(k as int) =~= t + more);
    lemma_parse_request_stable(t, more, v.max_head_bytes);
    lemma_run_count(start(Kind::Request), t, v.max_head_bytes);
    let n = run(start(Kind::Request), t, v.max_head_bytes).count;
    assert((t + more).skip(n as int) =~= t.skip(n as int) + more);
}

/// The end of a body, or an error in it, is the same, and leaves the same
/// connection, whatever bytes have come behind it; and the bytes of a body
/// that a read hands out are the first of those that it hands out when more
/// bytes have come.
proof fn lemma_body_in_pieces(v: ConnView, d: Decoder, more: Seq<u8>)
    requires
        !v.eof,
        read_body_model(v, d).1 is Ready,
    ensures
        !(read_body_model(v, d).1 matches Async::Ready(FrameView::Body { chunk: Some(_) }))
            ==> read_body_model(feed(v, more), d) == (
            feed(read_body_model(v, d).0, more),
            read_body_model(v, d).1,
        ),
        read_body_model(v, d).1 matches Async::Ready(FrameView::Body { chunk: Some(out) })
            ==> read_body_model(feed(v, more), d).1 matches Async::Ready(
            FrameView::Body { chunk: Some(all) },
        ) && out.len() <= all.len() && all.subrange(0, out.len() as int) == out,
{
    let limit = READ_CHUNK as nat;
    let s0 = Decoded { decoder: d, out: Seq::<u8>::empty(), consumed: 0 };
    let first = decode_spec(d, v.input, limit);
    lemma_decode_bounds(s0, v.input, limit);
    lemma_decode_split(d, v.input, more, limit);
    if first.out.len() == 0 {
        lemma_decode_stopped(
            Decoded { decoder: first.decoder, out: Seq::<u8>::empty(), consumed: 0 },
            more,
            limit,
        );
        assert((v.input + more).skip(first.consumed as int) =~= v.input.skip(
            first.consumed as int,
        ) + more);
    }
}

/// Bytes may come in any pieces. What a read hands out is the same, and
/// leaves the same connection, whatever bytes have come behind those that
/// it took; but for bytes of a body, of which a read hands out as many as
/// have come.
pub proof fn law_frame_is_the_same_in_pieces(v: ConnView, more: Seq<u8>)
    requires
        valid(v),
        !v.eof,
        read_model(v).1 is Ready,
        !(read_model(v).1 matches Async::Ready(FrameView::Body { chunk: Some(_) })),
    ensures
        read_model(feed(v, more)) == (feed(read_model(v).0, more), read_model(v).1),
{
    if !closed(v) {
        match v.reading {
            Reading::Closed => {},
            Reading::KeepAlive => {
                lemma_head_in_pieces(ConnView { reading: Reading::Init, ..v }, more);
            },
            Reading::Init => {
                lemma_head_in_pieces(v, more);
            },
            Reading::Body(d) => {
                lemma_body_in_pieces(v, d, more);
            },
        }
    }
}

/// Bytes may come in any pieces. The bytes of a body that a read hands out
/// are the first of those that it hands out when more bytes have come
/// behind them.
pub proof fn law_body_is_the_same_in_pieces(v: ConnView, more: Seq<u8>)
    requires
        valid(v),
        !v.eof,
        read_model(v).1 matches Async::Ready(FrameView::Body { chunk: Some(_) }),
    ensures
        read_model(v).1 matches Async::Ready(FrameView::Body { chunk: Some(out) }) && read_model(
            feed(v, more),
        ).1 matches Async::Ready(FrameView::Body { chunk: Some(all) }) && out.len() <= all.len()
            && all.subrange(0, out.len() as int) == out,
{
    match v.reading {
        Reading::Body(d) => {
            lemma_body_in_pieces(v, d, more);
        },
        _ => {},
    }
}

/// A read never hands out an empty piece of a body, nor one of more than
/// `READ_CHUNK` bytes: the end of a body is the only frame of a body
/// without bytes.
pub proof fn law_body_frames_hold_bytes(v: ConnView)
    requires
        valid(v),
    ensures
        read_model(v).1 matches Async::Ready(FrameView::Body { chunk: Some(out) }) ==> 0
            < out.len() <= READ_CHUNK,
{
    match v.reading {
        Reading::Body(d) => {
            lemma_decode_bounds(
                Decoded { decoder: d, out: Seq::<u8>::empty(), consumed: 0 },
                v.input,
                READ_CHUNK as nat,
            );
        },
        _ => {},
    }
}

/// The answer to a `HEAD` has no body, whatever its fields say: its decoder
/// takes no byte of what follows the head.
pub proof fn law_head_response_has_no_body(
    status: u16,
    hs: Seq<HeaderView>,
    bytes: Seq<u8>,
    limit: nat,
)
    ensures
        response_decoder_spec(true, status, hs) == Ok::<Decoder, Error>(Decoder::Empty),
        decode_spec(Decoder::Empty, bytes, limit).consumed == 0,
        decode_spec(Decoder::Empty, bytes, limit).out.len() == 0,
{
    lemma_empty_takes_nothing(bytes, limit);
}

/// A request with `Content-Length: 0` and no `Transfer-Encoding` has an
/// empty body: its decoder is done before the first byte, so that the head
/// is handed out without a body and the reading half stands behind the
/// message.
pub proof fn law_zero_length_is_no_body(v: ConnView)
    requires
        v.reading == Reading::Init,
        read_head_model(v).1 matches Async::Ready(FrameView::Message { message, body })
            && !has_transfer_encoding(message.headers) && content_length(message.headers) == Ok::<
            Option<u64>,
            Error,
        >(Some(0)),
    ensures
        read_head_model(v).1 matches Async::Ready(FrameView::Message { message, body }) && !body,
        read_head_model(v).0.reading == Reading::KeepAlive,
{
}

/// A valid request and its body, written out, come back as they were: the
/// head is parsed as that head, with the names of its fields in lower case,
/// and what follows the head decodes, by the decoder that the head calls
/// for, to the chunks of the body end to end, taking just the bytes of the
/// body.
pub proof fn law_request_roundtrip(
    h: RequestHeadView,
    enc: Encoder,
    chunks: Seq<Seq<u8>>,
    rest: Seq<u8>,
    max: nat,
    limit: nat,
)
    requires
        valid_request(h),
        request_wire(h).len() <= max,
        request_decoder_spec(lower_names(h.headers)) matches Ok(d) && pairs(
            d,
            enc,
            concat_all(chunks).len(),
        ),
        chunks_fit(chunks),
        concat_all(chunks).len() < limit,
    ensures
        ({
            let stream = request_wire(h) + body_wire(enc, chunks) + rest;
            let d = request_decoder_spec(lower_names(h.headers))->Ok_0;
            let body = decode_spec(d, stream.skip(request_wire(h).len() as int), limit);
            &&& parse_request_spec(stream, max) == Ok::<Option<(RequestHeadView, nat)>, Error>(
                Some((canonical(h), request_wire(h).len())),
            )
            &&& body.out == concat_all(chunks)
            &&& body.consumed == body_wire(enc, chunks).len()
            &&& body.decoder.spec_is_done()
        }),
{
    let w = request_wire(h);
    let b = body_wire(enc, chunks);
    let stream = w + b + rest;
    assert(stream =~= w + (b + rest));
    lemma_request_roundtrip(h, b + rest, max);
    assert(stream.skip(w.len() as int) =~= b + rest);
    let d = request_decoder_spec(lower_names(h.headers))->Ok_0;
    lemma_body_roundtrip(d, enc, chunks, rest, limit);
}

/// A valid response and its body, written out, come back as they were: the
/// head is parsed as that head, with the names of its fields in lower case,
/// and what follows the head decodes, by the decoder that the head calls
/// for, to the chunks of the body end to end, taking just the bytes of the
/// body. A body that the close of the connection ends has nothing behind
/// it.
pub proof fn law_response_roundtrip(
    h: ResponseHeadView,
    head_request: bool,
    enc: Encoder,
    chunks: Seq<Seq<u8>>,
    rest: Seq<u8>,
    max: nat,
    limit: nat,
)
    requires
        valid_response(h),
        response_wire(h).len() <= max,
        response_decoder_spec(head_request, h.subject, lower_names(h.headers)) matches Ok(d)
            && pairs(d, enc, concat_all(chunks).len()),
        chunks_fit(chunks),
        concat_all(chunks).len() < limit,
        enc is CloseDelimited ==> rest.len() == 0,
    ensures
        ({
            let stream = response_wire(h) + body_wire(enc, chunks) + rest;
            let d = response_decoder_spec(head_request, h.subject, lower_names(h.headers))->Ok_0;
            let body = decode_spec(d, stream.skip(response_wire(h).len() as int), limit);
            &&& parse_response_spec(stream, max) == Ok::<Option<(ResponseHeadView, nat)>, Error>(
                Some((canonical(h), response_wire(h).len())),
            )
            &&& body.out == concat_all(chunks)
            &&& body.consumed == body_wire(enc, chunks).len()
            &&& enc is CloseDelimited || body.decoder.spec_is_done()
        }),
{
    let w = response_wire(h);
    let b = body_wire(enc, chunks);
    let stream = w + b + rest;
    assert(stream =~= w + (b + rest));
    lemma_response_roundtrip(h, b + rest, max);
    assert(stream.skip(w.len() as int) =~= b + rest);
    let d = response_decoder_spec(head_request, h.subject, lower_names(h.headers))->Ok_0;
    lemma_body_roundtrip(d, enc, chunks, rest, limit);
}

/// A chunked body whose first chunk has size zero is empty, and leaves the
/// connection open: the read hands out the end of the body, takes the five
/// bytes of the last chunk and puts the reading half behind the message.
pub proof fn law_empty_chunked_body(v: ConnView, rest: Seq<u8>)
    requires
        valid(v),
        v.reading == Reading::Body(Decoder::Chunked(chunked_start())),
        v.input == last_chunk_wire() + rest,
    ensures
        read_model(v) == (
            settle(ConnView { reading: Reading::KeepAlive, input: rest, ..v }),
            Async::Ready(FrameView::<RequestHeadView>::Body { chunk: None }),
        ),
        !closed(read_model(v).0),
{
    let none = Seq::<Seq<u8>>::empty();
    lemma_chunked_roundtrip(none, rest, READ_CHUNK as nat);
    assert(v.input.skip(5) =~= rest);
}

/// A connection at the start of a message, with a valid request head at the
/// front of its input, hands out that head, with the names of its fields in
/// lower case, and keeps what follows the head as its input.
pub proof fn law_connection_reads_what_was_written(
    v: ConnView,
    h: RequestHeadView,
    rest: Seq<u8>,
)
    requires
        valid(v),
        v.reading == Reading::Init,
        valid_request(h),
        request_wire(h).len() <= v.max_head_bytes,
        v.input == request_wire(h) + rest,
        request_decoder_spec(lower_names(h.headers)) is Ok,
    ensures
        read_model(v).1 == Async::Ready(
            FrameView::Message {
                message: canonical(h),
                body: !request_decoder_spec(lower_names(h.headers))->Ok_0.spec_is_done(),
            },
        ),
        read_model(v).0.input == rest,
{
    assert(v.input.skip(0) =~= v.input);
    lemma_request_roundtrip(h, rest, v.max_head_bytes);
}

/// What a connection sends for the head of a valid response is a head that
/// the parser of responses takes: it parses to the head as it was sent,
/// with the names of its fields in lower case, whatever follows it.
pub proof fn law_connection_writes_what_can_be_read(
    v: ConnView,
    head: ResponseHeadView,
    body: bool,
    rest: Seq<u8>,
    max: nat,
)
    requires
        valid(v),
        valid_response(head),
        write_model(v, FrameView::Message { message: head, body }).1 is Ok,
        !closed(v),
        head_sent(v, head, body).len() <= max,
    ensures
        parse_response_spec(head_sent(v, head, body) + rest, max) == Ok::<
            Option<(ResponseHeadView, nat)>,
            Error,
        >(
            Some(
                (
                    canonical(
                        MessageHeadView {
                            headers: sent_headers(head.headers, v.pending[0].version, body),
                            ..head
                        },
                    ),
                    head_sent(v, head, body).len(),
                ),
            ),
        ),
        write_model(v, FrameView::Message { message: head, body }).0.output.subrange(
            v.output.len() as int,
            (v.output.len() + head_sent(v, head, body).len()) as int,
        ) == head_sent(v, head, body),
{
    let version = v.pending[0].version;
    let sent = MessageHeadView { headers: sent_headers(head.headers, version, body), ..head };
    lemma_response_roundtrip(sent, rest, max);
}

/// The head of a response as the connection sends it: with the fields as
/// they go out, framed for the request that has waited longest.
pub open spec fn head_sent(v: ConnView, head: ResponseHeadView, body: bool) -> Seq<u8> {
    response_wire(
        MessageHeadView {
            headers: sent_headers(head.headers, v.pending[0].version, body),
            ..head
        },
    )
}

/// A head is an answer: on a connection on which no request waits for one,
/// the head of a response is an `InvalidInput` and closes the connection.
pub proof fn law_response_needs_a_request(v: ConnView, head: ResponseHeadView, body: bool)
    requires
        !closed(v),
        v.pending.len() == 0,
    ensures
        write_model(v, FrameView::Message { message: head, body }) == (
            close(v),
            Err::<(), Error>(Error::InvalidInput),
        ),
{
}

/// The end of the body of a response sets both halves to their start at
/// once, ready for the next exchange, where the exchange lets the connection
/// be used again, the peer can tell from the framing where the body ends,
/// the request has been read to its end and no other request waits.
pub proof fn law_exchange_ends_at_the_start(v: ConnView, enc: Encoder)
    requires
        valid(v),
        v.writing == Writing::Body(enc),
        v.reading == Reading::KeepAlive,
        v.pending.len() == 0,
        v.write_reuse,
        enc.ends_bounded(),
        v.output.len() + enc.end_bytes().len() <= usize::MAX,
    ensures
        write_model(v, FrameView::Body { chunk: None }) == (
            ConnView {
                reading: Reading::Init,
                writing: Writing::Init,
                output: v.output + enc.end_bytes(),
                ..v
            },
            Ok::<(), Error>(()),
        ),
{
}

/// Whether an exchange lets the connection be used again is settled by both
/// sides and by the connection's own setting: the head of a response with a
/// body to follow notes that the connection is set to keep alive, that the
/// request let it, and that the response lets it, by the rule of the
/// request's version.
pub proof fn law_reuse_needs_both_sides(v: ConnView, head: ResponseHeadView)
    requires
        valid(v),
        write_model(v, FrameView::Message { message: head, body: true }).1 is Ok,
        !closed(v),
    ensures
        write_model(v, FrameView::Message { message: head, body: true }).0.write_reuse == (
        v.keep_alive_enabled && v.pending[0].reuse && permits_reuse(
            v.pending[0].version,
            head.headers,
        )),
        write_model(v, FrameView::Message { message: head, body: true }).0.writing is Body,
{
}

/// The bytes of a body that read after read hands out, end to end, until a
/// read hands out something else; and the connection and the result of
/// that read.
pub open spec fn read_body_bytes(v: ConnView) -> (
    Seq<u8>,
    ConnView,
    Async<FrameView<RequestHeadView>>,
)
    decreases v.input.len(),
{
    let next = read_model(v);
    match next.1 {
        Async::Ready(FrameView::Body { chunk: Some(out) }) => if next.0.input.len()
            < v.input.len() {
            let later = read_body_bytes(next.0);
            (out + later.0, later.1, later.2)
        } else {
            (Seq::empty(), next.0, next.1)
        },
        _ => (Seq::empty(), next.0, next.1),
    }
}

/// What a read from a body does once no byte of the body is left to hand
/// out, where the input as a whole has decoded to `w`: it ends the body,
/// reports broken framing, or waits.
pub open spec fn body_conclusion(v: ConnView, w: Decoded) -> (
    ConnView,
    Async<FrameView<RequestHeadView>>,
) {
    let v1 = ConnView { input: v.input.skip(w.consumed as int), ..v };
    let ended = (
        settle(ConnView { reading: Reading::KeepAlive, ..v1 }),
        Async::Ready(FrameView::Body { chunk: None }),
    );
    let broken = (close(v1), Async::Ready(FrameView::Error { error: Error::Framing }));
    if w.decoder.spec_is_failed() {
        broken
    } else if w.decoder.spec_is_done() {
        ended
    } else if v.eof {
        if w.decoder is Eof {
            ended
        } else {
            broken
        }
    } else {
        (ConnView { reading: Reading::Body(w.decoder), ..v1 }, Async::NotReady)
    }
}

/// The reads from a body hand out, end to end, the bytes of the body that
/// the input holds, however many they are, and the read behind them does
/// what the input as a whole decodes to asks for.
pub proof fn lemma_reads_hand_out_the_body(v: ConnView, d: Decoder)
    requires
        v.reading == Reading::Body(d),
    ensures
        read_body_bytes(v) == (
            decode_whole(d, v.input).out,
            body_conclusion(v, decode_whole(d, v.input)).0,
            body_conclusion(v, decode_whole(d, v.input)).1,
        ),
        decode_whole(d, v.input).consumed <= v.input.len(),
    decreases v.input.len(),
{
    let limit = READ_CHUNK as nat;
    let first = decode_spec(d, v.input, limit);
    let whole = decode_whole(d, v.input);
    lemma_decode_first_then_rest(d, v.input, limit);
    let rest = v.input.skip(first.consumed as int);
    let later = decode_whole(first.decoder, rest);
    let s1 = Decoded { decoder: first.decoder, out: Seq::<u8>::empty(), consumed: 0 };
    lemma_decode_bounds(s1, rest, rest.len() + 1);
    if first.out.len() > 0 {
        let v1 = read_model(v).0;
        assert(v1 == ConnView { reading: Reading::Body(first.decoder), input: rest, ..v });
        lemma_reads_hand_out_the_body(v1, first.decoder);
        assert(rest.skip(later.consumed as int) =~= v.input.skip(whole.consumed as int));
    } else {
        lemma_decode_bounds(
            Decoded { decoder: d, out: Seq::<u8>::empty(), consumed: 0 },
            v.input,
            limit,
        );
        if first.decoder.spec_is_done() || first.decoder.spec_is_failed() {
            lemma_decode_stopped(s1, rest, rest.len() + 1);
        } else {
            assert(rest =~= Seq::<u8>::empty());
        }
        assert(whole.out =~= Seq::<u8>::empty());
        assert(whole.out =~= first.out);
    }
}

/// Bytes may come in any pieces. The bytes of a body that the reads hand
/// out are the same end to end: where the reads have handed out what the
/// input held of a body and wait for more, the reads of what comes then
/// hand out the rest, and together they hand out what the reads of all of
/// it at once hand out; and they leave the same connection, with the same
/// result of the read behind the bytes. Where the reads have come to the end
/// of the body, or to an error, bytes that come behind change nothing.
pub proof fn law_body_is_whole_in_pieces(v: ConnView, d: Decoder, more: Seq<u8>)
    requires
        v.reading == Reading::Body(d),
        !v.eof,
    ensures
        read_body_bytes(v).2 is NotReady ==> read_body_bytes(feed(v, more)) == (
            read_body_bytes(v).0 + read_body_bytes(feed(read_body_bytes(v).1, more)).0,
            read_body_bytes(feed(read_body_bytes(v).1, more)).1,
            read_body_bytes(feed(read_body_bytes(v).1, more)).2,
        ),
        read_body_bytes(v).2 is Ready ==> read_body_bytes(feed(v, more)) == (
            read_body_bytes(v).0,
            feed(read_body_bytes(v).1, more),
            read_body_bytes(v).2,
        ),
{
    let first = decode_whole(d, v.input);
    let all = v.input + more;
    lemma_reads_hand_out_the_body(v, d);
    lemma_reads_hand_out_the_body(feed(v, more), d);
    lemma_decode_split(d, v.input, more, all.len() + 1);
    lemma_decode_roomy(d, v.input, all.len() + 1);
    let s0 = Decoded { decoder: d, out: Seq::<u8>::empty(), consumed: 0 };
    lemma_decode_bounds(s0, v.input, v.input.len() + 1);
    let s1 = Decoded { decoder: first.decoder, out: Seq::<u8>::empty(), consumed: 0 };
    let room = (all.len() + 1 - first.out.len()) as nat;
    if first.decoder.spec_is_done() || first.decoder.spec_is_failed() {
        lemma_decode_stopped(s1, more, room);
        assert(first.out + s1.out =~= first.out);
        assert(all.skip(first.consumed as int) =~= v.input.skip(first.consumed as int) + more);
    } else {
        let v1 = read_body_bytes(v).1;
        assert(v.input.skip(first.consumed as int) =~= Seq::<u8>::empty());
        assert(feed(v1, more).input =~= more);
        lemma_reads_hand_out_the_body(feed(v1, more), first.decoder);
        lemma_decode_roomy(first.decoder, more, room);
        let second = decode_whole(first.decoder, more);
        assert(all.skip((first.consumed + second.consumed) as int) =~= more.skip(
            second.consumed as int,
        ));
    }
}

/// A body that an encoder sent whole comes out of the reads as it went in,
/// however long it is: read after read hands out bytes of the body, these
/// end to end are the chunks of the body end to end, their lengths add up to
/// the lengths of the chunks, and the read that follows hands out the end of
/// the body and leaves what stood behind the body as the input.
pub proof fn law_reads_hand_out_what_was_written(
    v: ConnView,
    d: Decoder,
    enc: Encoder,
    chunks: Seq<Seq<u8>>,
    rest: Seq<u8>,
)
    requires
        v.reading == Reading::Body(d),
        pairs(d, enc, concat_all(chunks).len()),
        !(enc is CloseDelimited),
        chunks_fit(chunks),
        v.input == body_wire(enc, chunks) + rest,
    ensures
        read_body_bytes(v) == (
            concat_all(chunks),
            settle(ConnView { reading: Reading::KeepAlive, input: rest, ..v }),
            Async::Ready(FrameView::<RequestHeadView>::Body { chunk: None }),
        ),
        read_body_bytes(v).0.len() == total_length(chunks),
{
    lemma_wire_holds_the_body(enc, chunks);
    lemma_body_roundtrip(d, enc, chunks, rest, v.input.len() + 1);
    lemma_reads_hand_out_the_body(v, d);
    assert(v.input.skip(body_wire(enc, chunks).len() as int) =~= rest);
}

/// The answer to a `HEAD` has no body on the connection that reads it,
/// whatever its fields say: the read hands out the head without a body, and
/// takes no byte of what follows the head.
pub proof fn law_answer_to_head_takes_no_body(v: ClientView, h: ResponseHeadView, rest: Seq<u8>)
    requires
        v.reading == Reading::Init,
        v.awaited.len() > 0,
        v.awaited[0].head_request,
        valid_response(h),
        response_wire(h).len() <= v.max_head_bytes,
        v.input == response_wire(h) + rest,
    ensures
        client_read_model(v).1 == Async::Ready(
            FrameView::Message { message: canonical(h), body: false },
        ),
        client_read_model(v).0.input == rest,
{
    let w = response_wire(h);
    assert(v.input[0] == version_bytes(h.version)[0]);
    assert(leading_line_breaks(v.input) == 0);
    assert(v.input.skip(0) =~= v.input);
    lemma_response_roundtrip(h, rest, v.max_head_bytes);
    assert(v.input.skip(w.len() as int) =~= rest);
}

/// A closed client connection stays as it is: a read hands out `Done`, a
/// write of `Done` is taken, and a write of any other frame is refused with
/// `Closed`.
pub proof fn law_closed_client_is_terminal(v: ClientView, frame: FrameView<RequestHeadView>)
    requires
        client_closed(v),
    ensures
        client_read_model(v) == (v, Async::Ready(FrameView::<ResponseHeadView>::Done)),
        client_write_model(v, frame).0 == v,
        frame is Done ==> client_write_model(v, frame).1 == Ok::<(), Error>(()),
        !(frame is Done) ==> client_write_model(v, frame).1 == Err::<(), Error>(Error::Closed),
{
}

/// Responses are read in the order of the requests: a write that takes a
/// head puts the request behind those that await a response, and a read that
/// hands out a head is framed for the request that has waited longest and
/// takes it off the front.
pub proof fn law_responses_follow_the_requests(v: ClientView, frame: FrameView<RequestHeadView>)
    ensures
        frame is Message && client_write_model(v, frame).1 is Ok ==> client_write_model(
            v,
            frame,
        ).0.awaited.drop_last() == v.awaited && client_write_model(v, frame).0.awaited.len()
            == v.awaited.len() + 1,
        !(frame is Message && client_write_model(v, frame).1 is Ok) ==> client_write_model(
            v,
            frame,
        ).0.awaited == v.awaited,
        client_read_model(v).1 matches Async::Ready(FrameView::Message { .. }) ==> v.awaited.len()
            > 0 && client_read_model(v).0.awaited == v.awaited.remove(0),
        !(client_read_model(v).1 matches Async::Ready(FrameView::Message { .. }))
            ==> client_read_model(v).0.awaited == v.awaited,
{
    let after = client_write_model(v, frame).0;
    if frame is Message && client_write_model(v, frame).1 is Ok {
        assert(after.awaited.drop_last() =~= v.awaited);
    }
}

/// The bytes of a body as one frame, or no frame where there are none.
pub open spec fn data_frames(bytes: Seq<u8>) -> Seq<FrameView<RequestHeadView>> {
    if bytes.len() > 0 {
        seq![FrameView::Body { chunk: Some(bytes) }]
    } else {
        Seq::empty()
    }
}

/// The next stretch of reading: in a body, the bytes that read after read
/// hands out and the read behind them; elsewhere the next read alone.
pub open spec fn next_run(v: ConnView) -> (Seq<u8>, ConnView, Async<FrameView<RequestHeadView>>) {
    match v.reading {
        Reading::Body(_) => read_body_bytes(v),
        _ => (Seq::empty(), read_model(v).0, read_model(v).1),
    }
}

/// What bounds the reads that a connection can still make without new
/// input: the bytes at hand, and a body to end.
pub open spec fn weight(v: ConnView) -> nat {
    2 * v.input.len() + if v.reading is Body {
        1nat
    } else {
        0nat
    }
}

/// The connection behind a stretch of reading, and the frames read from that
/// stretch on.
pub open spec fn frames_after(run: (Seq<u8>, ConnView, Async<FrameView<RequestHeadView>>)) -> (
    ConnView,
    Seq<FrameView<RequestHeadView>>,
) {
    match run.2 {
        Async::NotReady => (run.1, data_frames(run.0)),
        Async::Ready(f) => if closed(run.1) {
            (run.1, data_frames(run.0) + seq![f])
        } else {
            (frames_read(run.1).0, data_frames(run.0) + seq![f] + frames_read(run.1).1)
        },
    }
}

/// The frames that the reads hand out, read after read, until a read waits
/// or the connection is closed, with the bytes of each stretch of a body in
/// one frame; and the connection that they leave.
pub open spec fn frames_read(v: ConnView) -> (ConnView, Seq<FrameView<RequestHeadView>>)
    decreases weight(v),
{
    let run = next_run(v);
    if closed(v) {
        (v, Seq::empty())
    } else {
        match run.2 {
            Async::NotReady => (run.1, data_frames(run.0)),
            Async::Ready(f) => if !closed(run.1) && weight(run.1) < weight(v) {
                (frames_read(run.1).0, data_frames(run.0) + seq![f] + frames_read(run.1).1)
            } else {
                (run.1, data_frames(run.0) + seq![f])
            },
        }
    }
}

/// Whether a frame holds bytes of a body.
pub open spec fn is_data(f: FrameView<RequestHeadView>) -> bool {
    f matches FrameView::Body { chunk: Some(_) }
}

/// The frames of two stretches of reading put together: where the first
/// ends and the second starts with bytes of a body, they are bytes of the
/// same body and make one frame.
pub open spec fn seam(
    x: Seq<FrameView<RequestHeadView>>,
    y: Seq<FrameView<RequestHeadView>>,
) -> Seq<FrameView<RequestHeadView>> {
    if x.len() > 0 && y.len() > 0 {
        match (x.last(), y[0]) {
            (FrameView::Body { chunk: Some(p) }, FrameView::Body { chunk: Some(q) }) => x.drop_last().push(
                FrameView::Body { chunk: Some(p + q) },
            ) + y.skip(1),
            _ => x + y,
        }
    } else {
        x + y
    }
}

/// A stretch of reading that hands out a frame leaves less to read, and
/// the frame behind the bytes of a body is never bytes of a body.
proof fn lemma_run_makes_progress(v: ConnView)
    requires
        valid(v),
        !closed(v),
    ensures
        valid(next_run(v).1),
        next_run(v).1.eof == v.eof,
        next_run(v).2 matches Async::Ready(f) ==> !is_data(f),
        next_run(v).2 is Ready && !closed(next_run(v).1) ==> weight(next_run(v).1) < weight(v),
        next_run(v).2 is NotReady ==> !closed(next_run(v).1) && (v.reading is Body) == (next_run(
            v,
        ).1.reading is Body),
        next_run(v).1.input.len() <= v.input.len(),
        next_run(v).1.max_head_bytes == v.max_head_bytes,
        frames_read(v) == frames_after(next_run(v)),
{
    match v.reading {
        Reading::Body(d) => {
            lemma_reads_hand_out_the_body(v, d);
        },
        _ => {
            lemma_read_keeps_valid(v);
            let input = v.input.skip(leading_line_breaks(v.input) as int);
            lemma_leading_line_breaks(v.input);
            lemma_head_takes_bytes(Kind::Request, input, v.max_head_bytes);
            lemma_run_count(start(Kind::Request), input, v.max_head_bytes);
        },
    }
}

/// Frames in front of the first stretch stay in front of the seam.
proof fn lemma_seam_behind(
    p: Seq<FrameView<RequestHeadView>>,
    x: Seq<FrameView<RequestHeadView>>,
    y: Seq<FrameView<RequestHeadView>>,
)
    requires
        p.len() > 0,
        !is_data(p.last()),
    ensures
        seam(p + x, y) == p + seam(x, y),
{
    if x.len() > 0 && y.len() > 0 {
        assert((p + x).last() == x.last());
        assert((p + x).drop_last() =~= p + x.drop_last());
        match (x.last(), y[0]) {
            (FrameView::Body { chunk: Some(a) }, FrameView::Body { chunk: Some(b) }) => {
                assert((p + x).drop_last().push(FrameView::Body { chunk: Some(a + b) }) + y.skip(1)
                    =~= p + (x.drop_last().push(FrameView::Body { chunk: Some(a + b) }) + y.skip(
                    1,
                )));
            },
            _ => {
                assert((p + x) + y =~= p + (x + y));
            },
        }
    } else if x.len() == 0 {
        assert(p + x =~= p);
        assert(seam(x, y) =~= y);
        if y.len() > 0 {
            assert(seam(p, y) == p + y);
        } else {
            assert(p + y =~= p);
        }
    } else {
        assert((p + x) + y =~= p + (x + y));
    }
}

/// Bytes of a body on both sides of the seam make one frame.
proof fn lemma_seam_of_data(p: Seq<u8>, q: Seq<u8>, t: Seq<FrameView<RequestHeadView>>)
    requires
        t.len() > 0 ==> !is_data(t[0]),
    ensures
        seam(data_frames(p), data_frames(q) + t) == data_frames(p + q) + t,
{
    let x = data_frames(p);
    let y = data_frames(q) + t;
    if p.len() == 0 {
        assert(p + q =~= q);
        assert(x + y =~= y);
    } else if q.len() == 0 {
        assert(p + q =~= p);
        assert(y =~= t);
    } else {
        assert(y[0] == FrameView::<RequestHeadView>::Body { chunk: Some(q) });
        assert(y.skip(1) =~= t);
        assert(x.drop_last().push(FrameView::Body { chunk: Some(p + q) }) + t =~= data_frames(
            p + q,
        ) + t);
    }
}

/// Bytes may come in any pieces: the frames are the same. The reads of what
/// a connection holds, and then, with more bytes handed in, the reads of
/// those, hand out the frames that the reads hand out with all of the bytes
/// at hand from the start: the same heads, the same ends of bodies, the
/// same error, in the same order, and between them the same bytes of each
/// body; and they leave the same connection.
pub proof fn law_frames_are_the_same_in_pieces(v: ConnView, more: Seq<u8>)
    requires
        valid(v),
        !v.eof,
        v.input.len() + more.len() <= v.max_head_bytes,
    ensures
        frames_read(feed(v, more)) == (
            frames_read(feed(frames_read(v).0, more)).0,
            seam(frames_read(v).1, frames_read(feed(frames_read(v).0, more)).1),
        ),
    decreases weight(v),
{
    let u = feed(v, more);
    if closed(v) {
        assert(seam(Seq::<FrameView<RequestHeadView>>::empty(), Seq::empty()) =~= Seq::empty());
    } else {
        let run = next_run(v);
        lemma_run_makes_progress(v);
        lemma_run_makes_progress(u);
        match v.reading {
            Reading::Body(d) => {
                law_body_is_whole_in_pieces(v, d, more);
            },
            _ => {
                if run.2 is NotReady {
                    law_waiting_loses_nothing(v, more);
                } else {
                    law_frame_is_the_same_in_pieces(v, more);
                }
            },
        }
        match run.2 {
            Async::NotReady => {
                let u1 = feed(run.1, more);
                lemma_run_makes_progress(u1);
                let r1 = next_run(u1);
                let t = match r1.2 {
                    Async::NotReady => Seq::<FrameView<RequestHeadView>>::empty(),
                    Async::Ready(f) => if closed(r1.1) {
                        seq![f]
                    } else {
                        seq![f] + frames_read(r1.1).1
                    },
                };
                assert(frames_read(u1).1 =~= data_frames(r1.0) + t);
                lemma_seam_of_data(run.0, r1.0, t);
                if v.reading is Body {
                    assert(frames_read(u).1 =~= data_frames(run.0 + r1.0) + t);
                } else {
                    assert(run.0 + r1.0 =~= r1.0);
                    assert(frames_read(u).1 =~= data_frames(r1.0) + t);
                }
            },
            Async::Ready(f) => {
                let p = data_frames(run.0) + seq![f];
                assert(next_run(u) == (run.0, feed(run.1, more), run.2));
                if closed(run.1) {
                    assert(seam(p, Seq::<FrameView<RequestHeadView>>::empty()) =~= p);
                } else {
                    law_frames_are_the_same_in_pieces(run.1, more);
                    let a = frames_read(run.1);
                    let b = frames_read(feed(a.0, more));
                    lemma_seam_behind(p, a.1, b.1);
                    assert(frames_read(v).1 =~= p + a.1);
                    assert(frames_read(u).1 =~= p + seam(a.1, b.1));
                }
            },
        }
    }
}

/// The frames that the reads hand out when the bytes come in `pieces`, one
/// piece at a time, the reads made after each piece until a read waits; and
/// the connection that they leave.
pub open spec fn frames_in_pieces(v: ConnView, pieces: Seq<Seq<u8>>) -> (
    ConnView,
    Seq<FrameView<RequestHeadView>>,
)
    decreases pieces.len(),
{
    if pieces.len() == 0 {
        frames_read(v)
    } else {
        let before = frames_in_pieces(v, pieces.drop_last());
        let next = frames_read(feed(before.0, pieces.last()));
        (next.0, seam(before.1, next.1))
    }
}

/// Incremental parsing: however a stream of bytes is split into pieces
/// that come one at a time, the connection hands out the frames that it
/// hands out when the stream comes in one piece, the bytes of each body end
/// to end being the same, and is left in the same state; so that whatever is
/// read after that, such as the end at the close of the transport, is the
/// same too.
pub proof fn law_any_split_gives_the_same_frames(v: ConnView, pieces: Seq<Seq<u8>>)
    requires
        valid(v),
        !v.eof,
        v.input.len() + concat_all(pieces).len() <= v.max_head_bytes,
    ensures
        frames_in_pieces(v, pieces) == frames_read(feed(v, concat_all(pieces))),
    decreases pieces.len(),
{
    if pieces.len() == 0 {
        assert(v.input + concat_all(pieces) =~= v.input);
        assert(feed(v, concat_all(pieces)) == v);
    } else {
        let front = pieces.drop_last();
        let last = pieces.last();
        law_any_split_gives_the_same_frames(v, front);
        law_frames_are_the_same_in_pieces(feed(v, concat_all(front)), last);
        assert(v.input + concat_all(front) + last =~= v.input + concat_all(pieces));
        assert(feed(feed(v, concat_all(front)), last) == feed(v, concat_all(pieces)));
    }
}

} // verus!
