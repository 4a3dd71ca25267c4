//! The connection: two buffers and a pair of states, driven by whoever owns
//! the transport.
//!
//! A connection does no I/O. Bytes that came from the peer are handed in
//! with `fill`, frames are taken out with `read`; frames for the peer are
//! handed in with `write`, and the bytes to send are found in `output` and
//! given up with `flush`. What each of these does is a function of the
//! connection's view, written down in the `*_model` functions.

use vstd::prelude::*;
use crate::buffer::{
    lemma_leading_line_breaks, leading_line_breaks, ByteBuffer, TooLarge, DEFAULT_CEILING,
    DEFAULT_INITIAL_CAPACITY,
};
use crate::decode::{decode_spec, lemma_decode_bounds, Decode, Decoded, Decoder};
use crate::encode::Encoder;
use crate::error::Error;
use crate::frame::{async_view, Async, Frame, FrameView};
use crate::framing::{
    adds_chunked, bodiless, chunked, headers_permit_reuse, is_bodiless, permits_reuse,
    request_decoder, request_decoder_spec, response_encoder, response_encoder_spec,
    transfer_encoding_sent,
};
use crate::head::{
    name_head, HeaderView, HttpVersion, MessageHeadView, RequestHead, RequestHeadView,
    ResponseHead, ResponseHeadView,
};
use crate::parse::{lemma_run_count, parse_request, parse_request_spec, start, Kind};
use crate::wire::{encode_response, response_wire};

verus! {

/// The most bytes of a body that one frame holds.
pub const READ_CHUNK: usize = 4096;

/// The reading half of a connection.
#[derive(Debug, Clone, Copy, PartialEq, Eq, Structural)]
pub enum Reading {
    /// Between messages: the next bytes are a head.
    Init,
    /// In the body of a message.
    Body(Decoder),
    /// Behind a message.
    KeepAlive,
    /// Nothing more is read.
    Closed,
}

/// The writing half of a connection.
#[derive(Debug, Clone, Copy, PartialEq, Eq, Structural)]
pub enum Writing {
    /// Between messages: the next frame is a head.
    Init,
    /// In the body of a message.
    Body(Encoder),
    /// Behind a message, with no request left to answer.
    KeepAlive,
    /// Nothing more is written.
    Closed,
}

/// What the connection keeps of a request until its response is written.
#[derive(Debug, Clone, Copy, PartialEq, Eq, Structural)]
pub struct Exchange {
    /// The version of the request.
    pub version: HttpVersion,
    /// Whether the request was a `HEAD`.
    pub head_request: bool,
    /// Whether the request lets the connection be used again.
    pub reuse: bool,
}

/// The settings of a connection.
#[derive(Debug, Clone, Copy, PartialEq, Eq, Structural)]
pub struct Config {
    /// Whether the connection may serve more than one exchange.
    pub keep_alive_enabled: bool,
    /// The most bytes that a head may have, and that the read buffer holds.
    pub max_head_bytes: usize,
    /// The storage that each buffer starts with.
    pub initial_buf_capacity: usize,
}

/// A connection, as plain values.
pub struct ConnView {
    pub reading: Reading,
    pub writing: Writing,
    /// The bytes from the peer that are not read yet.
    pub input: Seq<u8>,
    /// The bytes for the peer that are not sent yet.
    pub output: Seq<u8>,
    /// The requests read whose responses are not begun, oldest first.
    pub pending: Seq<Exchange>,
    /// Whether the request read last lets the connection be used again.
    pub read_reuse: bool,
    /// Whether the response at hand lets the connection be used again.
    pub write_reuse: bool,
    /// Whether the peer has sent all it will send.
    pub eof: bool,
    pub keep_alive_enabled: bool,
    pub max_head_bytes: nat,
}

/// What holds of every connection: the input holds no more than a head may
/// have; a writing half that is closed has closed the reading half with it;
/// and a writing half stands behind a message only while no request waits
/// for an answer and the reading half is not behind a message too.
pub open spec fn valid(v: ConnView) -> bool {
    &&& v.input.len() <= v.max_head_bytes
    &&& v.writing == Writing::Closed ==> v.reading == Reading::Closed
    &&& v.writing == Writing::KeepAlive ==> v.pending.len() == 0 && v.reading
        != Reading::KeepAlive
}

/// Whether a read is worth trying: always once the reading half is closed;
/// else when the transport is ready to be read and the input is not full.
pub open spec fn read_ready(v: ConnView, transport_ready: bool) -> bool {
    v.reading == Reading::Closed || (transport_ready && v.input.len() < v.max_head_bytes)
}

/// Whether both halves are closed.
pub open spec fn closed(v: ConnView) -> bool {
    v.reading == Reading::Closed && v.writing == Writing::Closed
}

/// The connection with both halves closed.
pub open spec fn close(v: ConnView) -> ConnView {
    ConnView { reading: Reading::Closed, writing: Writing::Closed, ..v }
}

/// The connection, set to its start again if both halves stand behind a
/// message.
pub open spec fn settle(v: ConnView) -> ConnView {
    if v.reading == Reading::KeepAlive && v.writing == Writing::KeepAlive {
        ConnView { reading: Reading::Init, writing: Writing::Init, ..v }
    } else {
        v
    }
}

/// The connection behind a response: closed unless the exchange lets it be
/// used again, else ready for the response to the next request, if one is
/// waiting.
pub open spec fn finish(v: ConnView, persistent: bool) -> ConnView {
    if persistent {
        settle(
            ConnView {
                writing: if v.pending.len() > 0 {
                    Writing::Init
                } else {
                    Writing::KeepAlive
                },
                ..v
            },
        )
    } else {
        close(v)
    }
}

/// A connection before the first byte.
pub open spec fn initial(config: Config) -> ConnView {
    ConnView {
        reading: Reading::Init,
        writing: Writing::Init,
        input: Seq::empty(),
        output: Seq::empty(),
        pending: Seq::empty(),
        read_reuse: false,
        write_reuse: false,
        eof: false,
        keep_alive_enabled: config.keep_alive_enabled,
        max_head_bytes: config.max_head_bytes as nat,
    }
}

/// What reading a head does: the empty lines at the front of the input are
/// dropped, and the head is parsed from what follows.
///
/// A complete head is taken out of the input. If its fields tell the framing
/// of the body, the request joins those that wait for a response, the
/// reading half goes on to the body or behind the message, a writing half
/// that stood behind a message is set to its start, and the head is handed
/// out. If they do not, the connection closes with that error.
///
/// With no complete head yet, the read waits; but once the peer has sent all
/// it will send, the connection closes, with an error unless the input is
/// empty. A malformed head closes the connection with its error.
pub open spec fn read_head_model(v: ConnView) -> (ConnView, Async<FrameView<RequestHeadView>>) {
    let input = v.input.skip(leading_line_breaks(v.input) as int);
    let v1 = ConnView { input, ..v };
    match parse_request_spec(input, v.max_head_bytes) {
        Ok(Some((head, n))) => {
            let v2 = ConnView { input: input.skip(n as int), ..v };
            match request_decoder_spec(head.headers) {
                Err(e) => (close(v2), Async::Ready(FrameView::Error { error: e })),
                Ok(d) => {
                    let reuse = v.keep_alive_enabled && permits_reuse(head.version, head.headers);
                    let exchange = Exchange {
                        version: head.version,
                        head_request: head.subject.method == name_head(),
                        reuse,
                    };
                    (
                        ConnView {
                            reading: if d.spec_is_done() {
                                Reading::KeepAlive
                            } else {
                                Reading::Body(d)
                            },
                            writing: if v.writing == Writing::KeepAlive {
                                Writing::Init
                            } else {
                                v.writing
                            },
                            pending: v.pending.push(exchange),
                            read_reuse: reuse,
                            ..v2
                        },
                        Async::Ready(
                            FrameView::Message { message: head, body: !d.spec_is_done() },
                        ),
                    )
                },
            }
        },
        Ok(None) => if v.eof {
            (
                close(v1),
                if input.len() == 0 {
                    Async::Ready(FrameView::Done)
                } else {
                    Async::Ready(FrameView::Error { error: Error::Parse })
                },
            )
        } else {
            (v1, Async::NotReady)
        },
        Err(e) => (
            close(v1),
            if input.len() == 0 {
                Async::Ready(FrameView::Done)
            } else {
                Async::Ready(FrameView::Error { error: e })
            },
        ),
    }
}

/// What reading from a body does, with decoder `d`: the input is decoded
/// from its front, up to `READ_CHUNK` bytes of the body.
///
/// Bytes of the body are handed out. With none, broken framing closes the
/// connection with an error, and a complete body puts the reading half
/// behind the message and hands out the end of the body. Otherwise the read
/// waits; but once the peer has sent all it will send, a body that runs to
/// the end of the transport is complete, and any other is cut short, which
/// closes the connection with an error.
pub open spec fn read_body_model(v: ConnView, d: Decoder) -> (
    ConnView,
    Async<FrameView<RequestHeadView>>,
) {
    let r = decode_spec(d, v.input, READ_CHUNK as nat);
    let v1 = ConnView { input: v.input.skip(r.consumed as int), ..v };
    let ended = (
        settle(ConnView { reading: Reading::KeepAlive, ..v1 }),
        Async::Ready(FrameView::Body { chunk: None }),
    );
    let broken = (close(v1), Async::Ready(FrameView::Error { error: Error::Framing }));
    if r.out.len() > 0 {
        (
            ConnView { reading: Reading::Body(r.decoder), ..v1 },
            Async::Ready(FrameView::Body { chunk: Some(r.out) }),
        )
    } else if r.decoder.spec_is_failed() {
        broken
    } else if r.decoder.spec_is_done() {
        ended
    } else if v.eof {
        if r.decoder is Eof {
            ended
        } else {
            broken
        }
    } else {
        (ConnView { reading: Reading::Body(r.decoder), ..v1 }, Async::NotReady)
    }
}

/// What a read does.
///
/// A closed connection hands out `Done`. A reading half that is closed
/// while the writing half is not waits. Behind a message, the reading half
/// goes back to its start and reads the next head if the request lets the
/// connection be used again, and closes otherwise.
pub open spec fn read_model(v: ConnView) -> (ConnView, Async<FrameView<RequestHeadView>>) {
    if closed(v) {
        (v, Async::Ready(FrameView::Done))
    } else {
        match v.reading {
            Reading::Closed => (v, Async::NotReady),
            Reading::KeepAlive => if v.read_reuse {
                read_head_model(ConnView { reading: Reading::Init, ..v })
            } else {
                (ConnView { reading: Reading::Closed, ..v }, Async::NotReady)
            },
            Reading::Init => read_head_model(v),
            Reading::Body(d) => read_body_model(v, d),
        }
    }
}

/// The fields of a response as they go out: those that the sender set, and
/// behind them a `Transfer-Encoding: chunked` where the connection adds one.
pub open spec fn sent_headers(hs: Seq<HeaderView>, version: HttpVersion, body: bool) -> Seq<
    HeaderView,
> {
    if adds_chunked(hs, version, body) {
        hs.push(HeaderView { name: transfer_encoding_sent(), value: chunked() })
    } else {
        hs
    }
}

/// The bytes that go out for the head of a response: the head with the
/// fields as they are sent and, where no body follows, what ends the body
/// that the fields announce; but nothing ends the body of a response that
/// has none whatever its fields say.
pub open spec fn head_output(
    head: ResponseHeadView,
    enc: Encoder,
    exchange: Exchange,
    body: bool,
) -> Seq<u8> {
    response_wire(
        MessageHeadView { headers: sent_headers(head.headers, exchange.version, body), ..head },
    ) + (if body || bodiless(exchange.head_request, head.subject) {
        Seq::empty()
    } else {
        enc.end_bytes()
    })
}

/// What writing the head of a response does, for a writing half at its
/// start with a request to answer and a status of three digits.
///
/// The encoder is chosen from the fields, the version of the oldest request
/// that waits and whether a body follows; fields that tell no framing are
/// an `InvalidInput` and close the connection. The head goes out, and the
/// request waits no longer. With a body to follow, the writing half goes on
/// to the body. Without one the body ends at once: what ends it goes out
/// too, and the connection stands behind the response.
///
/// The connection can be used again if it is set to, if the request and the
/// response both let it, and if the peer can tell where the body ends: from
/// the framing, or because the response is one that has no body whatever
/// its fields say.
pub open spec fn write_head_model(v: ConnView, head: ResponseHeadView, body: bool) -> (
    ConnView,
    Result<(), Error>,
) {
    let exchange = v.pending[0];
    match response_encoder_spec(head.headers, exchange.version, body) {
        Err(_) => (close(v), Err(Error::InvalidInput)),
        Ok(enc) => {
            let bytes = head_output(head, enc, exchange, body);
            let reuse = v.keep_alive_enabled && exchange.reuse && permits_reuse(
                exchange.version,
                head.headers,
            );
            let v1 = ConnView { output: v.output + bytes, pending: v.pending.remove(0), ..v };
            if v.output.len() + bytes.len() > usize::MAX {
                (close(v), Err(Error::InvalidInput))
            } else if body {
                (ConnView { writing: Writing::Body(enc), write_reuse: reuse, ..v1 }, Ok(()))
            } else {
                (
                    finish(
                        v1,
                        reuse && (bodiless(exchange.head_request, head.subject)
                            || enc.ends_bounded()),
                    ),
                    Ok(()),
                )
            }
        },
    }
}

/// What writing a piece of a body does, with encoder `enc`.
///
/// A chunk that the encoder takes goes out as the encoder frames it; one
/// that it does not take is an `InvalidInput` and closes the connection.
/// The end of the body sends what ends it, and the connection stands behind
/// the response.
pub open spec fn write_body_model(v: ConnView, enc: Encoder, chunk: Option<Seq<u8>>) -> (
    ConnView,
    Result<(), Error>,
) {
    match chunk {
        Some(c) => if !enc.accepts(c) || v.output.len() + enc.chunk_bytes(c).len() > usize::MAX {
            (close(v), Err(Error::InvalidInput))
        } else {
            (
                ConnView {
                    output: v.output + enc.chunk_bytes(c),
                    writing: Writing::Body(enc.after(c)),
                    ..v
                },
                Ok(()),
            )
        },
        None => if v.output.len() + enc.end_bytes().len() > usize::MAX {
            (close(v), Err(Error::InvalidInput))
        } else {
            (
                finish(
                    ConnView { output: v.output + enc.end_bytes(), ..v },
                    v.write_reuse && enc.ends_bounded(),
                ),
                Ok(()),
            )
        },
    }
}

/// What a write does.
///
/// A closed connection takes `Done` and nothing else. On any other, `Done`
/// and `Error` close the connection. A head is taken by a writing half at
/// its start, if a request waits for an answer and the status has three
/// digits; a piece of a body by a writing half in a body. Any other frame
/// is an `InvalidInput` and closes the connection.
pub open spec fn write_model(v: ConnView, frame: FrameView<ResponseHeadView>) -> (
    ConnView,
    Result<(), Error>,
) {
    if closed(v) {
        (
            v,
            if frame is Done {
                Ok(())
            } else {
                Err(Error::Closed)
            },
        )
    } else {
        match frame {
            FrameView::Done => (close(v), Ok(())),
            FrameView::Error { error } => (close(v), Ok(())),
            FrameView::Message { message, body } => if v.writing == Writing::Init
                && v.pending.len() > 0 && message.subject < 1000 {
                write_head_model(v, message, body)
            } else {
                (close(v), Err(Error::InvalidInput))
            },
            FrameView::Body { chunk } => match v.writing {
                Writing::Body(enc) => write_body_model(v, enc, chunk),
                _ => (close(v), Err(Error::InvalidInput)),
            },
        }
    }
}

/// A read keeps what holds of every connection.
pub proof fn lemma_read_keeps_valid(v: ConnView)
    requires
        valid(v),
    ensures
        valid(read_model(v).0),
{
    lemma_leading_line_breaks(v.input);
    let d = match v.reading {
        Reading::Body(d) => d,
        _ => Decoder::Empty,
    };
    lemma_decode_bounds(
        Decoded { decoder: d, out: Seq::<u8>::empty(), consumed: 0 },
        v.input,
        READ_CHUNK as nat,
    );
    let input = v.input.skip(leading_line_breaks(v.input) as int);
    lemma_run_count(start(Kind::Request), input, v.max_head_bytes);
}

/// A write keeps what holds of every connection.
pub proof fn lemma_write_keeps_valid(v: ConnView, frame: FrameView<ResponseHeadView>)
    requires
        valid(v),
    ensures
        valid(write_model(v, frame).0),
{
}

/// One side of an HTTP/1.x conversation over one transport: the side that
/// reads requests and writes responses.
#[derive(Debug)]
pub struct Conn {
    read_buf: ByteBuffer,
    write_buf: ByteBuffer,
    keep_alive_enabled: bool,
    max_head_bytes: usize,
    reading: Reading,
    writing: Writing,
    pending: Vec<Exchange>,
    read_reuse: bool,
    write_reuse: bool,
    eof: bool,
}

impl View for Conn {
    type V = ConnView;

    closed spec fn view(&self) -> ConnView {
        ConnView {
            reading: self.reading,
            writing: self.writing,
            input: self.read_buf@,
            output: self.write_buf@,
            pending: self.pending@,
            read_reuse: self.read_reuse,
            write_reuse: self.write_reuse,
            eof: self.eof,
            keep_alive_enabled: self.keep_alive_enabled,
            max_head_bytes: self.max_head_bytes as nat,
        }
    }
}

/// Keep-alive on, heads of up to 1 MiB, buffers that start at 8 KiB.
pub open spec fn default_config() -> Config {
    Config {
        keep_alive_enabled: true,
        max_head_bytes: DEFAULT_CEILING,
        initial_buf_capacity: DEFAULT_INITIAL_CAPACITY,
    }
}

impl Config {
    /// Keep-alive on, heads of up to 1 MiB, buffers that start at 8 KiB.
    pub fn new() -> (c: Config)
        ensures
            c == default_config(),
    {
        Config {
            keep_alive_enabled: true,
            max_head_bytes: DEFAULT_CEILING,
            initial_buf_capacity: DEFAULT_INITIAL_CAPACITY,
        }
    }
}

impl Conn {
    /// The buffers are sound, the read buffer holds no more than a head may
    /// have, and the write buffer is bounded by memory alone.
    pub closed spec fn wf(&self) -> bool {
        self.bufs() && valid(self@)
    }

    /// The part of `wf` that speaks of the buffers.
    spec fn bufs(&self) -> bool {
        &&& self.read_buf.wf()
        &&& self.write_buf.wf()
        &&& self.read_buf.ceiling() == self.max_head_bytes
        &&& self.write_buf.ceiling() == usize::MAX
    }

    /// What `wf` grants of the view: the input holds no more than a head
    /// may have.
    pub proof fn lemma_wf(&self)
        requires
            self.wf(),
        ensures
            valid(self@),
            self@.max_head_bytes <= usize::MAX,
            self@.output.len() <= usize::MAX,
    {
    }

    /// A connection with the settings that `Config::new` gives.
    pub fn new() -> (c: Conn)
        ensures
            c.wf(),
            c@ == initial(default_config()),
    {
        Conn::with_config(Config::new())
    }

    /// A connection before the first byte.
    pub fn with_config(config: Config) -> (c: Conn)
        ensures
            c.wf(),
            c@ == initial(config),
    {
        Conn {
            read_buf: ByteBuffer::new(config.initial_buf_capacity, config.max_head_bytes),
            write_buf: ByteBuffer::new(config.initial_buf_capacity, usize::MAX),
            keep_alive_enabled: config.keep_alive_enabled,
            max_head_bytes: config.max_head_bytes,
            reading: Reading::Init,
            writing: Writing::Init,
            pending: Vec::new(),
            read_reuse: false,
            write_reuse: false,
            eof: false,
        }
    }

    /// The reading half.
    pub fn reading(&self) -> (r: Reading)
        ensures
            r == self@.reading,
    {
        self.reading
    }

    /// The writing half.
    pub fn writing(&self) -> (w: Writing)
        ensures
            w == self@.writing,
    {
        self.writing
    }

    /// Whether both halves are closed.
    pub fn is_closed(&self) -> (r: bool)
        ensures
            r == closed(self@),
    {
        self.reading == Reading::Closed && self.writing == Writing::Closed
    }

    /// Whether the reading half stands at the start of a message.
    pub fn can_read_head(&self) -> (r: bool)
        ensures
            r == (self@.reading == Reading::Init),
    {
        self.reading == Reading::Init
    }

    /// Closes both halves, as on an error of the transport.
    pub fn close(&mut self)
        requires
            old(self).wf(),
        ensures
            final(self).wf(),
            final(self)@ == close(old(self)@),
    {
        self.reading = Reading::Closed;
        self.writing = Writing::Closed;
    }

    /// Closes both halves because the transport failed, and hands back the
    /// error to pass on.
    pub fn transport_failed(&mut self) -> (e: Error)
        requires
            old(self).wf(),
        ensures
            final(self).wf(),
            final(self)@ == close(old(self)@),
            e == Error::Io,
    {
        self.reading = Reading::Closed;
        self.writing = Writing::Closed;
        Error::Io
    }

    /// The number of bytes that `fill` still takes: what is left of
    /// `max_head_bytes`.
    pub fn read_capacity(&self) -> (n: usize)
        requires
            self.wf(),
        ensures
            n == self@.max_head_bytes - self@.input.len(),
    {
        self.max_head_bytes - self.read_buf.len()
    }

    /// Hands in bytes that came from the peer. Fails, taking none, exactly
    /// when the input would hold more than `max_head_bytes`.
    pub fn fill(&mut self, bytes: &[u8]) -> (r: Result<(), TooLarge>)
        requires
            old(self).wf(),
        ensures
            final(self).wf(),
            r is Ok <==> old(self)@.input.len() + bytes@.len() <= old(self)@.max_head_bytes,
            r is Ok ==> final(self)@ == (ConnView {
                input: old(self)@.input + bytes@,
                ..old(self)@
            }),
            r is Err ==> final(self)@ == old(self)@,
    {
        self.read_buf.extend(bytes)
    }

    /// The room in the read buffer that `input_space` hands out.
    pub closed spec fn space(&self) -> Seq<u8> {
        self.read_buf.tail()
    }

    /// Makes room for `n` more bytes of input. Fails, changing nothing,
    /// exactly when the input would then hold more than `max_head_bytes`.
    pub fn reserve_input(&mut self, n: usize) -> (r: Result<(), TooLarge>)
        requires
            old(self).wf(),
        ensures
            final(self).wf(),
            final(self)@ == old(self)@,
            r is Ok <==> old(self)@.input.len() + n <= old(self)@.max_head_bytes,
            r is Ok ==> final(self).space().len() >= n,
    {
        self.read_buf.reserve(n)
    }

    /// The room behind the input, for the transport to read into. What is
    /// written there is no input until `commit_input` makes it so.
    pub fn input_space(&mut self) -> (s: &mut [u8])
        requires
            old(self).wf(),
        ensures
            s@ == old(self).space(),
            final(self).space() == final(s)@,
            final(self).wf(),
            final(self)@ == old(self)@,
    {
        self.read_buf.writable()
    }

    /// Makes the first `n` bytes of the room behind the input part of the
    /// input: the bytes that the transport has read into it.
    pub fn commit_input(&mut self, n: usize)
        requires
            old(self).wf(),
            n <= old(self).space().len(),
        ensures
            final(self).wf(),
            final(self)@ == (ConnView {
                input: old(self)@.input + old(self).space().take(n as int),
                ..old(self)@
            }),
            final(self).space() == old(self).space().skip(n as int),
    {
        self.read_buf.commit(n);
    }

    /// Notes that the peer has sent all it will send.
    pub fn end_of_input(&mut self)
        requires
            old(self).wf(),
        ensures
            final(self).wf(),
            final(self)@ == (ConnView { eof: true, ..old(self)@ }),
    {
        self.eof = true;
    }

    /// The bytes to send, oldest first.
    pub fn output(&self) -> (s: &[u8])
        requires
            self.wf(),
        ensures
            s@ == self@.output,
    {
        self.write_buf.readable()
    }

    /// Whether a read can make progress: always once the reading half is
    /// closed; else when the transport is ready to be read, but not while
    /// the input is full, which holds the peer back until a read has taken
    /// bytes out of it.
    pub fn poll_read(&self, transport_ready: bool) -> (r: Async<()>)
        requires
            self.wf(),
        ensures
            r is Ready <==> read_ready(self@, transport_ready),
    {
        if self.reading == Reading::Closed {
            Async::Ready(())
        } else if transport_ready && self.read_buf.len() < self.max_head_bytes {
            Async::Ready(())
        } else {
            Async::NotReady
        }
    }

    /// Whether a write can make progress: when the transport is ready to be
    /// written.
    pub fn poll_write(&self, transport_ready: bool) -> (r: Async<()>)
        ensures
            r is Ready <==> transport_ready,
    {
        if transport_ready {
            Async::Ready(())
        } else {
            Async::NotReady
        }
    }

    /// Gives up the first `written` bytes of the output, which the
    /// transport has taken, and says whether all of the output is sent.
    pub fn flush(&mut self, written: usize) -> (r: Async<()>)
        requires
            old(self).wf(),
            written <= old(self)@.output.len(),
        ensures
            final(self).wf(),
            final(self)@ == (ConnView {
                output: old(self)@.output.skip(written as int),
                ..old(self)@
            }),
            r is Ready <==> written == old(self)@.output.len(),
    {
        self.write_buf.consume(written);
        if self.write_buf.is_empty() {
            Async::Ready(())
        } else {
            Async::NotReady
        }
    }
}

impl Conn {
    /// Closes both halves.
    fn shut(&mut self)
        requires
            old(self).bufs(),
        ensures
            final(self).bufs(),
            final(self)@ == close(old(self)@),
    {
        self.reading = Reading::Closed;
        self.writing = Writing::Closed;
    }

    /// Sets the connection to its start again if both halves stand behind
    /// a message.
    fn settle(&mut self)
        requires
            old(self).bufs(),
        ensures
            final(self).bufs(),
            final(self)@ == settle(old(self)@),
    {
        if self.reading == Reading::KeepAlive && self.writing == Writing::KeepAlive {
            self.reading = Reading::Init;
            self.writing = Writing::Init;
        }
    }

    /// Leaves the connection behind a response.
    fn finish(&mut self, persistent: bool)
        requires
            old(self).bufs(),
        ensures
            final(self).bufs(),
            final(self)@ == finish(old(self)@, persistent),
    {
        if persistent {
            self.writing = if self.pending.len() > 0 {
                Writing::Init
            } else {
                Writing::KeepAlive
            };
            self.settle();
        } else {
            self.shut();
        }
    }

    /// Reads a head; see `read_head_model`.
    fn read_head(&mut self) -> (r: Async<Frame<RequestHead>>)
        requires
            old(self).bufs(),
        ensures
            final(self).bufs(),
            final(self)@ == read_head_model(old(self)@).0,
            async_view(r) == read_head_model(old(self)@).1,
            r matches Async::Ready(Frame::Message { message, body }) ==> message.subject.wf(),
    {
        self.read_buf.consume_leading_empty_lines();
        let parsed = parse_request(self.read_buf.readable(), self.max_head_bytes);
        match parsed {
            Ok(Some((head, n))) => {
                self.read_buf.consume(n);
                match request_decoder(&head.headers) {
                    Err(e) => {
                        self.shut();
                        Async::Ready(Frame::Error { error: e })
                    },
                    Ok(d) => {
                        let reuse = self.keep_alive_enabled && headers_permit_reuse(
                            head.version,
                            &head.headers,
                        );
                        let exchange = Exchange {
                            version: head.version,
                            head_request: head.subject.0.is_head(),
                            reuse,
                        };
                        self.pending.push(exchange);
                        self.read_reuse = reuse;
                        let body = !d.is_done();
                        self.reading = if body {
                            Reading::Body(d)
                        } else {
                            Reading::KeepAlive
                        };
                        if self.writing == Writing::KeepAlive {
                            self.writing = Writing::Init;
                        }
                        Async::Ready(Frame::Message { message: head, body })
                    },
                }
            },
            Ok(None) => {
                if self.eof {
                    let empty = self.read_buf.is_empty();
                    self.shut();
                    if empty {
                        Async::Ready(Frame::Done)
                    } else {
                        Async::Ready(Frame::Error { error: Error::Parse })
                    }
                } else {
                    Async::NotReady
                }
            },
            Err(e) => {
                let empty = self.read_buf.is_empty();
                self.shut();
                if empty {
                    Async::Ready(Frame::Done)
                } else {
                    Async::Ready(Frame::Error { error: e })
                }
            },
        }
    }

    /// Reads from a body; see `read_body_model`.
    fn read_body(&mut self, d: Decoder) -> (r: Async<Frame<RequestHead>>)
        requires
            old(self).bufs(),
        ensures
            final(self).bufs(),
            final(self)@ == read_body_model(old(self)@, d).0,
            async_view(r) == read_body_model(old(self)@, d).1,
            !(r matches Async::Ready(Frame::Message { .. })),
    {
        let mut dec = d;
        let decoded = dec.decode(&mut self.read_buf, READ_CHUNK);
        match decoded {
            Ok(Decode::Data(chunk)) => {
                self.reading = Reading::Body(dec);
                Async::Ready(Frame::Body { chunk: Some(chunk) })
            },
            Err(_) => {
                self.shut();
                Async::Ready(Frame::Error { error: Error::Framing })
            },
            Ok(Decode::Done) => {
                self.reading = Reading::KeepAlive;
                self.settle();
                Async::Ready(Frame::Body { chunk: None })
            },
            Ok(Decode::NeedMore) => {
                if self.eof {
                    match dec {
                        Decoder::Eof(_) => {
                            self.reading = Reading::KeepAlive;
                            self.settle();
                            Async::Ready(Frame::Body { chunk: None })
                        },
                        _ => {
                            self.shut();
                            Async::Ready(Frame::Error { error: Error::Framing })
                        },
                    }
                } else {
                    self.reading = Reading::Body(dec);
                    Async::NotReady
                }
            },
        }
    }

    /// Takes the next frame out of the input; see `read_model`.
    pub fn read(&mut self) -> (r: Async<Frame<RequestHead>>)
        requires
            old(self).wf(),
        ensures
            final(self).wf(),
            final(self)@ == read_model(old(self)@).0,
            async_view(r) == read_model(old(self)@).1,
            r matches Async::Ready(Frame::Message { message, body }) ==> message.subject.wf(),
    {
        if self.is_closed() {
            return Async::Ready(Frame::Done);
        }
        match self.reading {
            Reading::Closed => Async::NotReady,
            Reading::KeepAlive => {
                if self.read_reuse {
                    self.reading = Reading::Init;
                    self.read_head()
                } else {
                    self.reading = Reading::Closed;
                    Async::NotReady
                }
            },
            Reading::Init => self.read_head(),
            Reading::Body(d) => self.read_body(d),
        }
    }

    /// Appends `bytes` to the output, or closes the connection if memory
    /// cannot hold them.
    fn send(&mut self, bytes: &Vec<u8>) -> (r: Result<(), Error>)
        requires
            old(self).bufs(),
        ensures
            final(self).bufs(),
            old(self)@.output.len() + bytes@.len() > usize::MAX ==> r == Err::<(), Error>(
                Error::InvalidInput,
            ) && final(self)@ == close(old(self)@),
            old(self)@.output.len() + bytes@.len() <= usize::MAX ==> r is Ok && final(self)@ == (
            ConnView { output: old(self)@.output + bytes@, ..old(self)@ }),
    {
        match self.write_buf.extend(bytes.as_slice()) {
            Ok(()) => Ok(()),
            Err(_) => {
                self.shut();
                Err(Error::InvalidInput)
            },
        }
    }

    /// Writes the head of a response; see `write_head_model`.
    fn write_head(&mut self, message: ResponseHead, body: bool) -> (r: Result<(), Error>)
        requires
            old(self).bufs(),
            old(self)@.pending.len() > 0,
            message@.subject < 1000,
        ensures
            final(self).bufs(),
            final(self)@ == write_head_model(old(self)@, message@, body).0,
            r == write_head_model(old(self)@, message@, body).1,
    {
        let mut head = message;
        let exchange = self.pending[0];
        let permit = headers_permit_reuse(exchange.version, &head.headers);
        let reuse = self.keep_alive_enabled && exchange.reuse && permit;
        match response_encoder(&mut head.headers, exchange.version, body) {
            Err(_) => {
                self.shut();
                Err(Error::InvalidInput)
            },
            Ok(enc) => {
                let mut bytes: Vec<u8> = Vec::new();
                encode_response(&head, &mut bytes);
                let mut bounded = true;
                if !body && !is_bodiless(exchange.head_request, head.subject.0) {
                    bounded = enc.end(&mut bytes);
                }
                proof {
                    let sent = MessageHeadView {
                        headers: sent_headers(message@.headers, exchange.version, body),
                        ..message@
                    };
                    assert(head@ == sent);
                    assert(bytes@ =~= head_output(message@, enc, exchange, body));
                }
                match self.send(&bytes) {
                    Err(e) => Err(e),
                    Ok(()) => {
                        self.pending.remove(0);
                        if body {
                            self.writing = Writing::Body(enc);
                            self.write_reuse = reuse;
                        } else {
                            self.finish(reuse && bounded);
                        }
                        Ok(())
                    },
                }
            },
        }
    }

    /// Writes a piece of a body; see `write_body_model`.
    fn write_body(&mut self, enc: Encoder, chunk: Option<Vec<u8>>) -> (r: Result<(), Error>)
        requires
            old(self).bufs(),
        ensures
            final(self).bufs(),
            final(self)@ == write_body_model(
                old(self)@,
                enc,
                match chunk {
                    Some(c) => Some(c@),
                    None => None,
                },
            ).0,
            r == write_body_model(
                old(self)@,
                enc,
                match chunk {
                    Some(c) => Some(c@),
                    None => None,
                },
            ).1,
    {
        let mut bytes: Vec<u8> = Vec::new();
        match chunk {
            Some(c) => {
                let mut e = enc;
                match e.encode(c.as_slice(), &mut bytes) {
                    Err(_) => {
                        self.shut();
                        Err(Error::InvalidInput)
                    },
                    Ok(()) => {
                        match self.send(&bytes) {
                            Err(err) => Err(err),
                            Ok(()) => {
                                self.writing = Writing::Body(e);
                                Ok(())
                            },
                        }
                    },
                }
            },
            None => {
                let bounded = enc.end(&mut bytes);
                match self.send(&bytes) {
                    Err(err) => Err(err),
                    Ok(()) => {
                        let persistent = self.write_reuse && bounded;
                        self.finish(persistent);
                        Ok(())
                    },
                }
            },
        }
    }

    /// Takes a frame for the peer; see `write_model`.
    ///
    /// A head is an answer: it is taken only while a request that was read
    /// waits for one. With none waiting, a head is an `InvalidInput` like
    /// any other frame out of turn, and closes the connection.
    pub fn write(&mut self, frame: Frame<ResponseHead>) -> (r: Result<(), Error>)
        requires
            old(self).wf(),
        ensures
            final(self).wf(),
            final(self)@ == write_model(old(self)@, frame@).0,
            r == write_model(old(self)@, frame@).1,
    {
        if self.is_closed() {
            return match frame {
                Frame::Done => Ok(()),
                _ => Err(Error::Closed),
            };
        }
        match frame {
            Frame::Done => {
                self.shut();
                Ok(())
            },
            Frame::Error { error } => {
                self.shut();
                Ok(())
            },
            Frame::Message { message, body } => {
                if self.writing == Writing::Init && self.pending.len() > 0 && message.subject.0
                    < 1000 {
                    self.write_head(message, body)
                } else {
                    self.shut();
                    Err(Error::InvalidInput)
                }
            },
            Frame::Body { chunk } => match self.writing {
                Writing::Body(enc) => self.write_body(enc, chunk),
                _ => {
                    self.shut();
                    Err(Error::InvalidInput)
                },
            },
        }
    }
}

} // verus!
