//! The client's side of a connection: requests out, responses in.
//!
//! A client connection is the mirror of `conn::Conn`. It takes the heads
//! and bodies of requests with `write`, remembers of each request what the
//! reading of its response needs, and hands out the responses with `read`,
//! in the order of the requests. Like `Conn` it does no I/O, and what each
//! operation does is written down in a `*_model` function of its view.

use vstd::prelude::*;
use crate::buffer::{
    leading_line_breaks, ByteBuffer, TooLarge, DEFAULT_CEILING, DEFAULT_INITIAL_CAPACITY,
};
use crate::chars::bytes_eq;
use crate::conn::{sent_headers, Config, Reading, Writing, READ_CHUNK};
use crate::decode::{decode_spec, Decode, Decoder};
use crate::encode::Encoder;
use crate::error::Error;
use crate::frame::{async_view, Async, Frame, FrameView};
use crate::framing::{
    headers_permit_reuse, permits_reuse, request_encoder, request_encoder_spec, response_decoder,
    response_decoder_spec,
};
use crate::head::{
    name_head, HttpVersion, MessageHeadView, Method, RequestHead, RequestHeadView, ResponseHead,
    ResponseHeadView,
};
use crate::parse::{parse_response, parse_response_spec};
use crate::wire::{encode_request, request_wire};

verus! {

/// What the connection keeps of a request until its response is read.
#[derive(Debug, Clone, Copy, PartialEq, Eq, Structural)]
pub struct Sent {
    /// The version of the request.
    pub version: HttpVersion,
    /// Whether the request was a `HEAD`.
    pub head_request: bool,
    /// Whether the request lets the connection be used again.
    pub reuse: bool,
}

/// A client connection, as plain values.
pub struct ClientView {
    pub reading: Reading,
    pub writing: Writing,
    /// The bytes from the peer that are not read yet.
    pub input: Seq<u8>,
    /// The bytes for the peer that are not sent yet.
    pub output: Seq<u8>,
    /// The requests written whose responses are not read, oldest first.
    pub awaited: Seq<Sent>,
    /// Whether the exchange of the response at hand lets the connection be
    /// used again.
    pub read_reuse: bool,
    /// Whether the request written last lets the connection be used again.
    pub write_reuse: bool,
    /// Whether the peer has sent all it will send.
    pub eof: bool,
    pub keep_alive_enabled: bool,
    pub max_head_bytes: nat,
}

/// A client connection before the first byte.
pub open spec fn client_initial(config: Config) -> ClientView {
    ClientView {
        reading: Reading::Init,
        writing: Writing::Init,
        input: Seq::empty(),
        output: Seq::empty(),
        awaited: Seq::empty(),
        read_reuse: false,
        write_reuse: false,
        eof: false,
        keep_alive_enabled: config.keep_alive_enabled,
        max_head_bytes: config.max_head_bytes as nat,
    }
}

/// Whether both halves are closed.
pub open spec fn client_closed(v: ClientView) -> bool {
    v.reading == Reading::Closed && v.writing == Writing::Closed
}

/// The connection with both halves closed.
pub open spec fn client_close(v: ClientView) -> ClientView {
    ClientView { reading: Reading::Closed, writing: Writing::Closed, ..v }
}

/// The connection, set to its start again if both halves stand behind a
/// message.
pub open spec fn client_settle(v: ClientView) -> ClientView {
    if v.reading == Reading::KeepAlive && v.writing == Writing::KeepAlive {
        ClientView { reading: Reading::Init, writing: Writing::Init, ..v }
    } else {
        v
    }
}

/// The connection behind a response: closed unless the exchange lets it be
/// used again, else ready for the next response, if one is awaited.
pub open spec fn client_finish(v: ClientView, persistent: bool) -> ClientView {
    if persistent {
        client_settle(
            ClientView {
                reading: if v.awaited.len() > 0 {
                    Reading::Init
                } else {
                    Reading::KeepAlive
                },
                ..v
            },
        )
    } else {
        client_close(v)
    }
}

/// What reading the head of a response does, with a request that awaits
/// one: the empty lines at the front of the input are dropped, and the head
/// is parsed from what follows.
///
/// A complete head is taken out of the input, and its decoder is chosen
/// from the request that has waited longest, the status and the fields; if
/// the fields give no framing, the connection closes with that error. The
/// request waits no longer. The connection can be used again if it is set
/// to, if request and response both let it, and if the body does not run to
/// the end of the transport. With a body, the reading half goes on to it;
/// without one it stands behind the response at once.
///
/// With no complete head yet, the read waits; but once the peer has sent all
/// it will send, the connection closes, with an error unless the input is
/// empty. A malformed head closes the connection with its error.
pub open spec fn client_read_head_model(v: ClientView) -> (
    ClientView,
    Async<FrameView<ResponseHeadView>>,
) {
    let input = v.input.skip(leading_line_breaks(v.input) as int);
    let v1 = ClientView { input, ..v };
    let sent = v.awaited[0];
    match parse_response_spec(input, v.max_head_bytes) {
        Ok(Some((head, n))) => {
            let v2 = ClientView { input: input.skip(n as int), ..v };
            match response_decoder_spec(sent.head_request, head.subject, head.headers) {
                Err(e) => (client_close(v2), Async::Ready(FrameView::Error { error: e })),
                Ok(d) => {
                    let reuse = v.keep_alive_enabled && sent.reuse && permits_reuse(
                        sent.version,
                        head.headers,
                    ) && !(d is Eof);
                    let v3 = ClientView { awaited: v.awaited.remove(0), read_reuse: reuse, ..v2 };
                    (
                        if d.spec_is_done() {
                            client_finish(v3, reuse)
                        } else {
                            ClientView { reading: Reading::Body(d), ..v3 }
                        },
                        Async::Ready(
                            FrameView::Message { message: head, body: !d.spec_is_done() },
                        ),
                    )
                },
            }
        },
        Ok(None) => if v.eof {
            (
                client_close(v1),
                if input.len() == 0 {
                    Async::Ready(FrameView::Done)
                } else {
                    Async::Ready(FrameView::Error { error: Error::Parse })
                },
            )
        } else {
            (v1, Async::NotReady)
        },
        Err(e) => (
            client_close(v1),
            if input.len() == 0 {
                Async::Ready(FrameView::Done)
            } else {
                Async::Ready(FrameView::Error { error: e })
            },
        ),
    }
}

/// What reading from the body of a response does, with decoder `d`: the
/// input is decoded from its front, up to `READ_CHUNK` bytes of the body.
///
/// Bytes of the body are handed out. With none, broken framing closes the
/// connection with an error, and a complete body hands out the end of the
/// body and leaves the connection behind the response. Otherwise the read
/// waits; but once the peer has sent all it will send, a body that runs to
/// the end of the transport is complete, and any other is cut short, which
/// closes the connection with an error.
pub open spec fn client_read_body_model(v: ClientView, d: Decoder) -> (
    ClientView,
    Async<FrameView<ResponseHeadView>>,
) {
    let r = decode_spec(d, v.input, READ_CHUNK as nat);
    let v1 = ClientView { input: v.input.skip(r.consumed as int), ..v };
    let end = Async::Ready(FrameView::Body { chunk: None });
    let broken = (client_close(v1), Async::Ready(FrameView::Error { error: Error::Framing }));
    if r.out.len() > 0 {
        (
            ClientView { reading: Reading::Body(r.decoder), ..v1 },
            Async::Ready(FrameView::Body { chunk: Some(r.out) }),
        )
    } else if r.decoder.spec_is_failed() {
        broken
    } else if r.decoder.spec_is_done() {
        (client_finish(v1, v.read_reuse), end)
    } else if v.eof {
        if r.decoder is Eof {
            (client_close(v1), end)
        } else {
            broken
        }
    } else {
        (ClientView { reading: Reading::Body(r.decoder), ..v1 }, Async::NotReady)
    }
}

/// What a read does.
///
/// A closed connection hands out `Done`. With no response awaited, the read
/// waits; but once the peer has sent all it will send, the connection
/// closes and hands out `Done`.
pub open spec fn client_read_model(v: ClientView) -> (
    ClientView,
    Async<FrameView<ResponseHeadView>>,
) {
    if client_closed(v) {
        (v, Async::Ready(FrameView::Done))
    } else {
        match v.reading {
            Reading::Body(d) => client_read_body_model(v, d),
            Reading::Init => if v.awaited.len() > 0 {
                client_read_head_model(v)
            } else if v.eof {
                (client_close(v), Async::Ready(FrameView::Done))
            } else {
                (v, Async::NotReady)
            },
            Reading::KeepAlive => if v.eof {
                (client_close(v), Async::Ready(FrameView::Done))
            } else {
                (v, Async::NotReady)
            },
            Reading::Closed => (v, Async::NotReady),
        }
    }
}

/// The bytes that go out for the head of a request: the head with the
/// fields as they are sent and, where no body follows, what ends the body
/// that the fields announce.
pub open spec fn request_output(head: RequestHeadView, enc: Encoder, body: bool) -> Seq<u8> {
    request_wire(
        MessageHeadView { headers: sent_headers(head.headers, head.version, body), ..head },
    ) + (if body {
        Seq::empty()
    } else {
        enc.end_bytes()
    })
}

/// What writing the head of a request does, for a writing half that takes
/// one.
///
/// The encoder is chosen from the fields, the version and whether a body
/// follows. Fields that give no framing, and a length announced with no body
/// to follow, are an `InvalidInput` and close the connection. The head goes
/// out; the request joins those that await a response, a reading half that
/// stood behind a response is set to its start, and the writing half goes
/// on to the body or stands behind the request.
pub open spec fn client_write_head_model(v: ClientView, head: RequestHeadView, body: bool) -> (
    ClientView,
    Result<(), Error>,
) {
    match request_encoder_spec(head.headers, head.version, body) {
        Err(_) => (client_close(v), Err(Error::InvalidInput)),
        Ok(enc) => {
            let bytes = request_output(head, enc, body);
            let reuse = v.keep_alive_enabled && permits_reuse(head.version, head.headers);
            let sent = Sent {
                version: head.version,
                head_request: head.subject.method == name_head(),
                reuse,
            };
            if (!body && !enc.ends_bounded()) || v.output.len() + bytes.len() > usize::MAX {
                (client_close(v), Err(Error::InvalidInput))
            } else {
                (
                    client_settle(
                        ClientView {
                            reading: if v.reading == Reading::KeepAlive {
                                Reading::Init
                            } else {
                                v.reading
                            },
                            writing: if body {
                                Writing::Body(enc)
                            } else {
                                Writing::KeepAlive
                            },
                            output: v.output + bytes,
                            awaited: v.awaited.push(sent),
                            write_reuse: reuse,
                            ..v
                        },
                    ),
                    Ok(()),
                )
            }
        },
    }
}

/// What writing a piece of the body of a request does, with encoder `enc`.
///
/// A chunk that the encoder takes goes out as the encoder frames it; one
/// that it does not take is an `InvalidInput` and closes the connection.
/// The end of the body sends what ends it, and the writing half stands
/// behind the request; but a body that ends with bytes of its length still
/// owed closes the connection.
pub open spec fn client_write_body_model(v: ClientView, enc: Encoder, chunk: Option<Seq<u8>>)
    -> (ClientView, Result<(), Error>) {
    match chunk {
        Some(c) => if !enc.accepts(c) || v.output.len() + enc.chunk_bytes(c).len() > usize::MAX {
            (client_close(v), Err(Error::InvalidInput))
        } else {
            (
                ClientView {
                    output: v.output + enc.chunk_bytes(c),
                    writing: Writing::Body(enc.after(c)),
                    ..v
                },
                Ok(()),
            )
        },
        None => if v.output.len() + enc.end_bytes().len() > usize::MAX {
            (client_close(v), Err(Error::InvalidInput))
        } else if enc.ends_bounded() {
            (
                client_settle(
                    ClientView {
                        output: v.output + enc.end_bytes(),
                        writing: Writing::KeepAlive,
                        ..v
                    },
                ),
                Ok(()),
            )
        } else {
            (client_close(ClientView { output: v.output + enc.end_bytes(), ..v }), Ok(()))
        },
    }
}

/// Whether the writing half takes the head of a request: at its start, or
/// behind a request that lets the connection be used again.
pub open spec fn takes_request(v: ClientView) -> bool {
    v.writing == Writing::Init || (v.writing == Writing::KeepAlive && v.write_reuse)
}

/// What a write does.
///
/// A closed connection takes `Done` and nothing else. On any other, `Done`
/// and `Error` close the connection. A head is taken by a writing half at
/// its start, or behind a request that lets the connection be used again;
/// a piece of a body by a writing half in a body. Any other frame is an
/// `InvalidInput` and closes the connection.
pub open spec fn client_write_model(v: ClientView, frame: FrameView<RequestHeadView>) -> (
    ClientView,
    Result<(), Error>,
) {
    if client_closed(v) {
        (
            v,
            if frame is Done {
                Ok(())
            } else {
                Err(Error::Closed)
            },
        )
    } else {
        match frame {
            FrameView::Done => (client_close(v), Ok(())),
            FrameView::Error { error } => (client_close(v), Ok(())),
            FrameView::Message { message, body } => if takes_request(v) {
                client_write_head_model(v, message, body)
            } else {
                (client_close(v), Err(Error::InvalidInput))
            },
            FrameView::Body { chunk } => match v.writing {
                Writing::Body(enc) => client_write_body_model(v, enc, chunk),
                _ => (client_close(v), Err(Error::InvalidInput)),
            },
        }
    }
}

/// One side of an HTTP/1.x conversation over one transport: the side that
/// writes requests and reads responses.
#[derive(Debug)]
pub struct ClientConn {
    read_buf: ByteBuffer,
    write_buf: ByteBuffer,
    keep_alive_enabled: bool,
    max_head_bytes: usize,
    reading: Reading,
    writing: Writing,
    awaited: Vec<Sent>,
    read_reuse: bool,
    write_reuse: bool,
    eof: bool,
}

impl View for ClientConn {
    type V = ClientView;

    closed spec fn view(&self) -> ClientView {
        ClientView {
            reading: self.reading,
            writing: self.writing,
            input: self.read_buf@,
            output: self.write_buf@,
            awaited: self.awaited@,
            read_reuse: self.read_reuse,
            write_reuse: self.write_reuse,
            eof: self.eof,
            keep_alive_enabled: self.keep_alive_enabled,
            max_head_bytes: self.max_head_bytes as nat,
        }
    }
}

impl ClientConn {
    /// The buffers are sound, the read buffer holds no more than a head may
    /// have, and the write buffer is bounded by memory alone.
    pub closed spec fn wf(&self) -> bool {
        &&& self.read_buf.wf()
        &&& self.write_buf.wf()
        &&& self.read_buf.ceiling() == self.max_head_bytes
        &&& self.write_buf.ceiling() == usize::MAX
    }

    /// What `wf` grants of the view: the input holds no more than a head
    /// may have.
    pub proof fn lemma_wf(&self)
        requires
            self.wf(),
        ensures
            self@.input.len() <= self@.max_head_bytes,
            self@.max_head_bytes <= usize::MAX,
            self@.output.len() <= usize::MAX,
    {
    }

    /// A connection with keep-alive on, heads of up to 1 MiB and buffers
    /// that start at 8 KiB.
    pub fn new() -> (c: ClientConn)
        ensures
            c.wf(),
            c@ == client_initial(crate::conn::default_config()),
    {
        ClientConn::with_config(
            Config {
                keep_alive_enabled: true,
                max_head_bytes: DEFAULT_CEILING,
                initial_buf_capacity: DEFAULT_INITIAL_CAPACITY,
            },
        )
    }

    /// A connection before the first byte.
    pub fn with_config(config: Config) -> (c: ClientConn)
        ensures
            c.wf(),
            c@ == client_initial(config),
    {
        ClientConn {
            read_buf: ByteBuffer::new(config.initial_buf_capacity, config.max_head_bytes),
            write_buf: ByteBuffer::new(config.initial_buf_capacity, usize::MAX),
            keep_alive_enabled: config.keep_alive_enabled,
            max_head_bytes: config.max_head_bytes,
            reading: Reading::Init,
            writing: Writing::Init,
            awaited: Vec::new(),
            read_reuse: false,
            write_reuse: false,
            eof: false,
        }
    }

    /// The reading half.
    pub fn reading(&self) -> (r: Reading)
        ensures
            r == self@.reading,
    {
        self.reading
    }

    /// The writing half.
    pub fn writing(&self) -> (w: Writing)
        ensures
            w == self@.writing,
    {
        self.writing
    }

    /// Whether both halves are closed.
    pub fn is_closed(&self) -> (r: bool)
        ensures
            r == client_closed(self@),
    {
        self.reading == Reading::Closed && self.writing == Writing::Closed
    }

    /// Closes both halves.
    pub fn close(&mut self)
        requires
            old(self).wf(),
        ensures
            final(self).wf(),
            final(self)@ == client_close(old(self)@),
    {
        self.reading = Reading::Closed;
        self.writing = Writing::Closed;
    }

    /// Closes both halves because the transport failed, and hands back the
    /// error to pass on.
    pub fn transport_failed(&mut self) -> (e: Error)
        requires
            old(self).wf(),
        ensures
            final(self).wf(),
            final(self)@ == client_close(old(self)@),
            e == Error::Io,
    {
        self.close();
        Error::Io
    }

    /// The number of bytes that `fill` still takes: what is left of
    /// `max_head_bytes`.
    pub fn read_capacity(&self) -> (n: usize)
        requires
            self.wf(),
        ensures
            n == self@.max_head_bytes - self@.input.len(),
    {
        self.max_head_bytes - self.read_buf.len()
    }

    /// Hands in bytes that came from the peer. Fails, taking none, exactly
    /// when the input would hold more than `max_head_bytes`.
    pub fn fill(&mut self, bytes: &[u8]) -> (r: Result<(), TooLarge>)
        requires
            old(self).wf(),
        ensures
            final(self).wf(),
            r is Ok <==> old(self)@.input.len() + bytes@.len() <= old(self)@.max_head_bytes,
            r is Ok ==> final(self)@ == (ClientView {
                input: old(self)@.input + bytes@,
                ..old(self)@
            }),
            r is Err ==> final(self)@ == old(self)@,
    {
        self.read_buf.extend(bytes)
    }

    /// Notes that the peer has sent all it will send.
    pub fn end_of_input(&mut self)
        requires
            old(self).wf(),
        ensures
            final(self).wf(),
            final(self)@ == (ClientView { eof: true, ..old(self)@ }),
    {
        self.eof = true;
    }

    /// The bytes to send, oldest first.
    pub fn output(&self) -> (s: &[u8])
        requires
            self.wf(),
        ensures
            s@ == self@.output,
    {
        self.write_buf.readable()
    }

    /// Whether a read is worth trying: always once the reading half is
    /// closed; else when the transport is ready to be read and the input is
    /// not full.
    pub fn poll_read(&self, transport_ready: bool) -> (r: Async<()>)
        requires
            self.wf(),
        ensures
            r is Ready <==> self@.reading == Reading::Closed || (transport_ready
                && self@.input.len() < self@.max_head_bytes),
    {
        if self.reading == Reading::Closed {
            Async::Ready(())
        } else if transport_ready && self.read_buf.len() < self.max_head_bytes {
            Async::Ready(())
        } else {
            Async::NotReady
        }
    }

    /// Whether a write can make progress: when the transport is ready to be
    /// written.
    pub fn poll_write(&self, transport_ready: bool) -> (r: Async<()>)
        ensures
            r is Ready <==> transport_ready,
    {
        if transport_ready {
            Async::Ready(())
        } else {
            Async::NotReady
        }
    }

    /// Gives up the first `written` bytes of the output, which the
    /// transport has taken, and says whether all of the output is sent.
    pub fn flush(&mut self, written: usize) -> (r: Async<()>)
        requires
            old(self).wf(),
            written <= old(self)@.output.len(),
        ensures
            final(self).wf(),
            final(self)@ == (ClientView {
                output: old(self)@.output.skip(written as int),
                ..old(self)@
            }),
            r is Ready <==> written == old(self)@.output.len(),
    {
        self.write_buf.consume(written);
        if self.write_buf.is_empty() {
            Async::Ready(())
        } else {
            Async::NotReady
        }
    }

    /// Sets the connection to its start again if both halves stand behind
    /// a message.
    fn settle(&mut self)
        requires
            old(self).wf(),
        ensures
            final(self).wf(),
            final(self)@ == client_settle(old(self)@),
    {
        if self.reading == Reading::KeepAlive && self.writing == Writing::KeepAlive {
            self.reading = Reading::Init;
            self.writing = Writing::Init;
        }
    }

    /// Leaves the connection behind a response.
    fn finish(&mut self, persistent: bool)
        requires
            old(self).wf(),
        ensures
            final(self).wf(),
            final(self)@ == client_finish(old(self)@, persistent),
    {
        if persistent {
            self.reading = if self.awaited.len() > 0 {
                Reading::Init
            } else {
                Reading::KeepAlive
            };
            self.settle();
        } else {
            self.close();
        }
    }

    /// Reads the head of a response; see `client_read_head_model`.
    fn read_head(&mut self) -> (r: Async<Frame<ResponseHead>>)
        requires
            old(self).wf(),
            old(self)@.awaited.len() > 0,
        ensures
            final(self).wf(),
            final(self)@ == client_read_head_model(old(self)@).0,
            async_view(r) == client_read_head_model(old(self)@).1,
    {
        self.read_buf.consume_leading_empty_lines();
        let parsed = parse_response(self.read_buf.readable(), self.max_head_bytes);
        match parsed {
            Ok(Some((head, n))) => {
                self.read_buf.consume(n);
                let sent = self.awaited[0];
                match response_decoder(sent.head_request, head.subject.0, &head.headers) {
                    Err(e) => {
                        self.close();
                        Async::Ready(Frame::Error { error: e })
                    },
                    Ok(d) => {
                        let bounded = match d {
                            Decoder::Eof(_) => false,
                            _ => true,
                        };
                        let reuse = self.keep_alive_enabled && sent.reuse && headers_permit_reuse(
                            sent.version,
                            &head.headers,
                        ) && bounded;
                        self.awaited.remove(0);
                        self.read_reuse = reuse;
                        let body = !d.is_done();
                        if body {
                            self.reading = Reading::Body(d);
                        } else {
                            self.finish(reuse);
                        }
                        Async::Ready(Frame::Message { message: head, body })
                    },
                }
            },
            Ok(None) => {
                if self.eof {
                    let empty = self.read_buf.is_empty();
                    self.close();
                    if empty {
                        Async::Ready(Frame::Done)
                    } else {
                        Async::Ready(Frame::Error { error: Error::Parse })
                    }
                } else {
                    Async::NotReady
                }
            },
            Err(e) => {
                let empty = self.read_buf.is_empty();
                self.close();
                if empty {
                    Async::Ready(Frame::Done)
                } else {
                    Async::Ready(Frame::Error { error: e })
                }
            },
        }
    }

    /// Reads from the body of a response; see `client_read_body_model`.
    fn read_body(&mut self, d: Decoder) -> (r: Async<Frame<ResponseHead>>)
        requires
            old(self).wf(),
        ensures
            final(self).wf(),
            final(self)@ == client_read_body_model(old(self)@, d).0,
            async_view(r) == client_read_body_model(old(self)@, d).1,
    {
        let mut dec = d;
        let decoded = dec.decode(&mut self.read_buf, READ_CHUNK);
        match decoded {
            Ok(Decode::Data(chunk)) => {
                self.reading = Reading::Body(dec);
                Async::Ready(Frame::Body { chunk: Some(chunk) })
            },
            Err(_) => {
                self.close();
                Async::Ready(Frame::Error { error: Error::Framing })
            },
            Ok(Decode::Done) => {
                let reuse = self.read_reuse;
                self.finish(reuse);
                Async::Ready(Frame::Body { chunk: None })
            },
            Ok(Decode::NeedMore) => {
                if self.eof {
                    match dec {
                        Decoder::Eof(_) => {
                            self.close();
                            Async::Ready(Frame::Body { chunk: None })
                        },
                        _ => {
                            self.close();
                            Async::Ready(Frame::Error { error: Error::Framing })
                        },
                    }
                } else {
                    self.reading = Reading::Body(dec);
                    Async::NotReady
                }
            },
        }
    }

    /// Takes the next frame out of the input; see `client_read_model`.
    pub fn read(&mut self) -> (r: Async<Frame<ResponseHead>>)
        requires
            old(self).wf(),
        ensures
            final(self).wf(),
            final(self)@ == client_read_model(old(self)@).0,
            async_view(r) == client_read_model(old(self)@).1,
    {
        if self.is_closed() {
            return Async::Ready(Frame::Done);
        }
        match self.reading {
            Reading::Body(d) => self.read_body(d),
            Reading::Init => {
                if self.awaited.len() > 0 {
                    self.read_head()
                } else if self.eof {
                    self.close();
                    Async::Ready(Frame::Done)
                } else {
                    Async::NotReady
                }
            },
            Reading::KeepAlive => {
                if self.eof {
                    self.close();
                    Async::Ready(Frame::Done)
                } else {
                    Async::NotReady
                }
            },
            Reading::Closed => Async::NotReady,
        }
    }

    /// Appends `bytes` to the output, or closes the connection if memory
    /// cannot hold them.
    fn send(&mut self, bytes: &Vec<u8>) -> (r: Result<(), Error>)
        requires
            old(self).wf(),
        ensures
            final(self).wf(),
            old(self)@.output.len() + bytes@.len() > usize::MAX ==> r == Err::<(), Error>(
                Error::InvalidInput,
            ) && final(self)@ == client_close(old(self)@),
            old(self)@.output.len() + bytes@.len() <= usize::MAX ==> r is Ok && final(self)@ == (
            ClientView { output: old(self)@.output + bytes@, ..old(self)@ }),
    {
        match self.write_buf.extend(bytes.as_slice()) {
            Ok(()) => Ok(()),
            Err(_) => {
                self.close();
                Err(Error::InvalidInput)
            },
        }
    }

    /// Writes the head of a request; see `client_write_head_model`.
    fn write_head(&mut self, message: RequestHead, body: bool) -> (r: Result<(), Error>)
        requires
            old(self).wf(),
        ensures
            final(self).wf(),
            final(self)@ == client_write_head_model(old(self)@, message@, body).0,
            r == client_write_head_model(old(self)@, message@, body).1,
    {
        let mut head = message;
        let version = head.version;
        let reuse = self.keep_alive_enabled && headers_permit_reuse(version, &head.headers);
        let head_request = bytes_eq(
            head.subject.0.to_bytes().as_slice(),
            Method::Head.to_bytes().as_slice(),
        );
        match request_encoder(&mut head.headers, version, body) {
            Err(_) => {
                self.close();
                Err(Error::InvalidInput)
            },
            Ok(enc) => {
                let mut bytes: Vec<u8> = Vec::new();
                encode_request(&head, &mut bytes);
                let mut bounded = true;
                if !body {
                    bounded = enc.end(&mut bytes);
                }
                proof {
                    let sent = MessageHeadView {
                        headers: sent_headers(message@.headers, version, body),
                        ..message@
                    };
                    assert(head@ == sent);
                    assert(bytes@ =~= request_output(message@, enc, body));
                }
                if !bounded {
                    self.close();
                    return Err(Error::InvalidInput);
                }
                match self.send(&bytes) {
                    Err(e) => Err(e),
                    Ok(()) => {
                        self.awaited.push(Sent { version, head_request, reuse });
                        self.write_reuse = reuse;
                        if self.reading == Reading::KeepAlive {
                            self.reading = Reading::Init;
                        }
                        self.writing = if body {
                            Writing::Body(enc)
                        } else {
                            Writing::KeepAlive
                        };
                        self.settle();
                        Ok(())
                    },
                }
            },
        }
    }

    /// Writes a piece of the body of a request; see
    /// `client_write_body_model`.
    fn write_body(&mut self, enc: Encoder, chunk: Option<Vec<u8>>) -> (r: Result<(), Error>)
        requires
            old(self).wf(),
        ensures
            final(self).wf(),
            final(self)@ == client_write_body_model(
                old(self)@,
                enc,
                match chunk {
                    Some(c) => Some(c@),
                    None => None,
                },
            ).0,
            r == client_write_body_model(
                old(self)@,
                enc,
                match chunk {
                    Some(c) => Some(c@),
                    None => None,
                },
            ).1,
    {
        let mut bytes: Vec<u8> = Vec::new();
        match chunk {
            Some(c) => {
                let mut e = enc;
                match e.encode(c.as_slice(), &mut bytes) {
                    Err(_) => {
                        self.close();
                        Err(Error::InvalidInput)
                    },
                    Ok(()) => match self.send(&bytes) {
                        Err(err) => Err(err),
                        Ok(()) => {
                            self.writing = Writing::Body(e);
                            Ok(())
                        },
                    },
                }
            },
            None => {
                let bounded = enc.end(&mut bytes);
                match self.send(&bytes) {
                    Err(err) => Err(err),
                    Ok(()) => {
                        if bounded {
                            self.writing = Writing::KeepAlive;
                            self.settle();
                        } else {
                            self.close();
                        }
                        Ok(())
                    },
                }
            },
        }
    }

    /// Takes a frame for the peer; see `client_write_model`.
    pub fn write(&mut self, frame: Frame<RequestHead>) -> (r: Result<(), Error>)
        requires
            old(self).wf(),
        ensures
            final(self).wf(),
            final(self)@ == client_write_model(old(self)@, frame@).0,
            r == client_write_model(old(self)@, frame@).1,
    {
        if self.is_closed() {
            return match frame {
                Frame::Done => Ok(()),
                _ => Err(Error::Closed),
            };
        }
        match frame {
            Frame::Done => {
                self.close();
                Ok(())
            },
            Frame::Error { error } => {
                self.close();
                Ok(())
            },
            Frame::Message { message, body } => {
                if self.writing == Writing::Init || (self.writing == Writing::KeepAlive
                    && self.write_reuse) {
                    self.write_head(message, body)
                } else {
                    self.close();
                    Err(Error::InvalidInput)
                }
            },
            Frame::Body { chunk } => match self.writing {
                Writing::Body(enc) => self.write_body(enc, chunk),
                _ => {
                    self.close();
                    Err(Error::InvalidInput)
                },
            },
        }
    }
}

} // verus!
