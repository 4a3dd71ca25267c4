use h1conn::conn::{Config, Conn, Reading, Writing};
use h1conn::error::Error;
use h1conn::frame::{Async, Frame};
use h1conn::head::{
    Headers, HttpVersion, MessageHead, Method, RequestHead, RequestLine, RequestUri, ResponseHead,
    StatusCode,
};

fn response(status: u16, fields: &[(&str, &str)]) -> ResponseHead {
    let mut headers = Headers::new();
    for (name, value) in fields {
        headers.append(name.as_bytes().to_vec(), value.as_bytes().to_vec());
    }
    MessageHead { version: HttpVersion::Http11, subject: StatusCode(status), headers }
}

fn get(path: &str, fields: &[(&str, &str)]) -> RequestHead {
    let mut headers = Headers::new();
    for (name, value) in fields {
        headers.append(name.as_bytes().to_vec(), value.as_bytes().to_vec());
    }
    MessageHead {
        version: HttpVersion::Http11,
        subject: RequestLine(
            Method::Get,
            RequestUri::AbsolutePath { path: path.as_bytes().to_vec(), query: None },
        ),
        headers,
    }
}

fn message(head: ResponseHead, body: bool) -> Frame<ResponseHead> {
    Frame::Message { message: head, body }
}

fn chunk(bytes: &[u8]) -> Frame<ResponseHead> {
    Frame::Body { chunk: Some(bytes.to_vec()) }
}

fn end() -> Frame<ResponseHead> {
    Frame::Body { chunk: None }
}

fn take_output(conn: &mut Conn) -> Vec<u8> {
    let out = conn.output().to_vec();
    assert_eq!(conn.flush(out.len()), Async::Ready(()));
    out
}

#[test]
fn simple_get_has_no_body_and_ends_at_eof() {
    let mut conn = Conn::new();
    conn.fill(b"GET / HTTP/1.1\r\n\r\n").unwrap();
    assert_eq!(conn.read(), Async::Ready(Frame::Message { message: get("/", &[]), body: false }));
    assert_eq!(conn.read(), Async::NotReady);
    conn.end_of_input();
    assert_eq!(conn.read(), Async::Ready(Frame::Done));
    assert!(conn.is_closed());
}

#[test]
fn post_with_length_hands_out_its_body() {
    let mut conn = Conn::new();
    conn.fill(b"POST /x HTTP/1.1\r\nContent-Length: 5\r\n\r\nhello").unwrap();
    match conn.read() {
        Async::Ready(Frame::Message { message, body: true }) => {
            assert_eq!(message.subject.0, Method::Post);
            assert_eq!(
                message.subject.1,
                RequestUri::AbsolutePath { path: b"/x".to_vec(), query: None }
            );
            assert_eq!(message.headers.get(b"content-length"), Some(&b"5".to_vec()));
        }
        other => panic!("no head with a body: {:?}", other),
    }
    assert_eq!(conn.reading(), Reading::Body(h1conn::decode::Decoder::Length(5)));
    assert_eq!(conn.read(), Async::Ready(Frame::Body { chunk: Some(b"hello".to_vec()) }));
    assert_eq!(conn.read(), Async::Ready(Frame::Body { chunk: None }));
    assert_eq!(conn.reading(), Reading::KeepAlive);
}

#[test]
fn post_chunked_hands_out_its_body() {
    let mut conn = Conn::new();
    conn.fill(
        b"POST / HTTP/1.1\r\nTransfer-Encoding: chunked\r\n\r\n1\r\nq\r\n2\r\nwe\r\n2\r\nrt\r\n0\r\n\r\n",
    )
    .unwrap();
    assert!(matches!(conn.read(), Async::Ready(Frame::Message { body: true, .. })));
    let mut body = Vec::new();
    loop {
        match conn.read() {
            Async::Ready(Frame::Body { chunk: Some(c) }) => {
                assert!(!c.is_empty());
                body.extend(c);
            }
            Async::Ready(Frame::Body { chunk: None }) => break,
            other => panic!("no body frame: {:?}", other),
        }
    }
    assert_eq!(body, b"qwert");
    assert_eq!(conn.read_capacity(), 1048576);
}

#[test]
fn fixed_response_goes_out_as_written() {
    let mut conn = Conn::new();
    conn.fill(b"GET / HTTP/1.1\r\n\r\n").unwrap();
    assert!(matches!(conn.read(), Async::Ready(Frame::Message { body: false, .. })));
    assert_eq!(conn.write(message(response(200, &[("Content-Length", "11")]), true)), Ok(()));
    assert_eq!(
        conn.writing(),
        Writing::Body(h1conn::encode::Encoder::Length(11))
    );
    assert_eq!(conn.write(chunk(b"foo bar baz")), Ok(()));
    assert_eq!(conn.write(end()), Ok(()));
    assert_eq!(
        take_output(&mut conn),
        b"HTTP/1.1 200 OK\r\nContent-Length: 11\r\n\r\nfoo bar baz".to_vec()
    );
}

#[test]
fn chunked_response_frames_its_body() {
    let mut conn = Conn::new();
    conn.fill(b"GET / HTTP/1.1\r\n\r\n").unwrap();
    assert!(matches!(conn.read(), Async::Ready(Frame::Message { .. })));
    assert_eq!(conn.write(message(response(200, &[("Transfer-Encoding", "chunked")]), true)), Ok(()));
    assert_eq!(conn.write(chunk(b"foo bar baz")), Ok(()));
    assert_eq!(conn.write(end()), Ok(()));
    assert_eq!(
        take_output(&mut conn),
        b"HTTP/1.1 200 OK\r\nTransfer-Encoding: chunked\r\n\r\nB\r\nfoo bar baz\r\n0\r\n\r\n".to_vec()
    );
}

#[test]
fn keep_alive_serves_two_exchanges() {
    let mut conn = Conn::new();
    let mut wire = Vec::new();
    for _ in 0..2 {
        conn.fill(b"GET / HTTP/1.1\r\n\r\n").unwrap();
        assert_eq!(conn.read(), Async::Ready(Frame::Message { message: get("/", &[]), body: false }));
        assert_eq!(conn.write(message(response(200, &[("Content-Length", "11")]), true)), Ok(()));
        assert_eq!(conn.write(chunk(b"foo bar baz")), Ok(()));
        assert_eq!(conn.write(end()), Ok(()));
        assert_eq!(conn.reading(), Reading::Init);
        assert_eq!(conn.writing(), Writing::Init);
        wire.extend(take_output(&mut conn));
    }
    let one = b"HTTP/1.1 200 OK\r\nContent-Length: 11\r\n\r\nfoo bar baz".to_vec();
    let mut two = one.clone();
    two.extend(&one);
    assert_eq!(wire, two);
}

#[test]
fn pipelined_requests_are_answered_in_order() {
    let mut conn = Conn::new();
    conn.fill(b"GET /one HTTP/1.1\r\n\r\nGET /two HTTP/1.0\r\nConnection: keep-alive\r\n\r\n").unwrap();
    assert_eq!(conn.read(), Async::Ready(Frame::Message { message: get("/one", &[]), body: false }));
    match conn.read() {
        Async::Ready(Frame::Message { message, body: false }) => {
            assert_eq!(message.version, HttpVersion::Http10);
            assert_eq!(message.subject.1, RequestUri::AbsolutePath { path: b"/two".to_vec(), query: None });
        }
        other => panic!("no second head: {:?}", other),
    }
    // The first answer is framed for the first request, which spoke
    // HTTP/1.1: a body of unknown length goes out in chunks.
    assert_eq!(conn.write(message(response(200, &[]), true)), Ok(()));
    assert_eq!(conn.write(chunk(b"1")), Ok(()));
    assert_eq!(conn.write(end()), Ok(()));
    assert_eq!(conn.writing(), Writing::Init);
    // The second is framed for the second, which spoke HTTP/1.0: the close
    // of the connection ends its body.
    assert_eq!(conn.write(message(response(404, &[("Connection", "keep-alive")]), true)), Ok(()));
    assert_eq!(conn.writing(), Writing::Body(h1conn::encode::Encoder::CloseDelimited));
    assert_eq!(conn.write(chunk(b"2")), Ok(()));
    assert_eq!(conn.write(end()), Ok(()));
    assert!(conn.is_closed());
    assert_eq!(
        take_output(&mut conn),
        b"HTTP/1.1 200 OK\r\nTransfer-Encoding: chunked\r\n\r\n1\r\n1\r\n0\r\n\r\nHTTP/1.1 404 Not Found\r\nConnection: keep-alive\r\n\r\n2"
            .to_vec()
    );
}

#[test]
fn bytes_in_pieces_give_the_same_frames() {
    let wire: &[u8] =
        b"\r\nPOST /p?q HTTP/1.1\r\nHost:  a b \r\nTransfer-Encoding: gzip, chunked\r\n\r\n3;x=y\r\nabc\r\n0\r\nT: v\r\n\r\n";
    let mut whole = Conn::new();
    whole.fill(wire).unwrap();
    let head = match whole.read() {
        Async::Ready(Frame::Message { message, body: true }) => message,
        other => panic!("no head: {:?}", other),
    };
    assert_eq!(head.headers.get(b"host"), Some(&b"a b".to_vec()));
    assert_eq!(whole.read(), Async::Ready(Frame::Body { chunk: Some(b"abc".to_vec()) }));
    assert_eq!(whole.read(), Async::Ready(Frame::Body { chunk: None }));

    let mut pieces = Conn::new();
    let mut heads = Vec::new();
    let mut body = Vec::new();
    let mut ended = 0;
    for byte in wire {
        pieces.fill(&[*byte]).unwrap();
        loop {
            match pieces.read() {
                Async::Ready(Frame::Message { message, body: true }) => heads.push(message),
                Async::Ready(Frame::Body { chunk: Some(c) }) => body.extend(c),
                Async::Ready(Frame::Body { chunk: None }) => ended += 1,
                Async::NotReady => break,
                other => panic!("unexpected frame: {:?}", other),
            }
        }
    }
    assert_eq!(heads, vec![head]);
    assert_eq!(body, b"abc");
    assert_eq!(ended, 1);
    assert_eq!(whole.read(), Async::NotReady);
    assert_eq!(pieces.reading(), whole.reading());
}

#[test]
fn head_of_exactly_the_limit_is_accepted() {
    let wire = b"GET / HTTP/1.1\r\nHost: a\r\n\r\n";
    let config = Config { keep_alive_enabled: true, max_head_bytes: wire.len(), initial_buf_capacity: 8 };
    let mut conn = Conn::with_config(config);
    conn.fill(wire).unwrap();
    assert_eq!(conn.read(), Async::Ready(Frame::Message { message: get("/", &[("host", "a")]), body: false }));
}

#[test]
fn head_of_one_more_than_the_limit_is_a_parse_error() {
    let wire = b"GET / HTTP/1.1\r\nHost: a\r\n\r\n";
    let config = Config { keep_alive_enabled: true, max_head_bytes: wire.len() - 1, initial_buf_capacity: 8 };
    let mut conn = Conn::with_config(config);
    assert!(conn.fill(wire).is_err());
    conn.fill(&wire[..wire.len() - 1]).unwrap();
    assert_eq!(conn.read(), Async::Ready(Frame::Error { error: Error::Parse }));
    assert_eq!(conn.read(), Async::Ready(Frame::Done));
    assert_eq!(
        h1conn::parse::parse_request(wire, wire.len() - 1),
        Err(Error::Parse)
    );
    assert!(matches!(h1conn::parse::parse_request(wire, wire.len()), Ok(Some((_, 27)))));
}

#[test]
fn chunked_body_of_size_zero_is_empty_and_keeps_the_connection() {
    let mut conn = Conn::new();
    conn.fill(b"POST / HTTP/1.1\r\nTransfer-Encoding: chunked\r\n\r\n0\r\n\r\n").unwrap();
    assert!(matches!(conn.read(), Async::Ready(Frame::Message { body: true, .. })));
    assert_eq!(conn.read(), Async::Ready(Frame::Body { chunk: None }));
    assert_eq!(conn.reading(), Reading::KeepAlive);
    assert_eq!(conn.write(message(response(204, &[]), false)), Ok(()));
    assert_eq!(conn.reading(), Reading::Init);
    assert_eq!(conn.writing(), Writing::Init);
}

#[test]
fn content_length_zero_is_no_body_and_keeps_the_connection() {
    let mut conn = Conn::new();
    conn.fill(b"POST / HTTP/1.1\r\nContent-Length: 0\r\n\r\n").unwrap();
    assert!(matches!(conn.read(), Async::Ready(Frame::Message { body: false, .. })));
    assert_eq!(conn.reading(), Reading::KeepAlive);
    assert_eq!(conn.write(message(response(200, &[("Content-Length", "0")]), false)), Ok(()));
    assert_eq!(conn.reading(), Reading::Init);
    assert_eq!(conn.writing(), Writing::Init);
    assert!(!conn.is_closed());
}

#[test]
fn errors_on_the_wire_close_the_connection() {
    for (wire, error) in [
        (&b"G<T / HTTP/1.1\r\n\r\n"[..], Error::Parse),
        (&b"GET / HTTP/2.0\r\n\r\n"[..], Error::Version),
        (&b"GET / HTTP/1.1\r\nTransfer-Encoding: gzip\r\n\r\n"[..], Error::Framing),
        (&b"GET / HTTP/1.1\r\nContent-Length: 1\r\nContent-Length: 2\r\n\r\n"[..], Error::Framing),
        (&b"GET / HTTP/1.1\r\nContent-Length: -1\r\n\r\n"[..], Error::Framing),
        (&b"GET / HTTP/1.1\r\n folded: x\r\n\r\n"[..], Error::Parse),
    ] {
        let mut conn = Conn::new();
        conn.fill(wire).unwrap();
        assert_eq!(conn.read(), Async::Ready(Frame::Error { error }));
        assert!(conn.is_closed());
        assert_eq!(conn.read(), Async::Ready(Frame::Done));
    }
}

#[test]
fn broken_chunk_is_a_framing_error_then_done() {
    let mut conn = Conn::new();
    conn.fill(b"POST / HTTP/1.1\r\nTransfer-Encoding: chunked\r\n\r\nzz\r\n").unwrap();
    assert!(matches!(conn.read(), Async::Ready(Frame::Message { body: true, .. })));
    assert_eq!(conn.read(), Async::Ready(Frame::Error { error: Error::Framing }));
    assert_eq!(conn.read(), Async::Ready(Frame::Done));
}

#[test]
fn body_cut_short_is_a_framing_error() {
    let mut conn = Conn::new();
    conn.fill(b"POST / HTTP/1.1\r\nContent-Length: 5\r\n\r\nhel").unwrap();
    assert!(matches!(conn.read(), Async::Ready(Frame::Message { body: true, .. })));
    assert_eq!(conn.read(), Async::Ready(Frame::Body { chunk: Some(b"hel".to_vec()) }));
    assert_eq!(conn.read(), Async::NotReady);
    conn.end_of_input();
    assert_eq!(conn.read(), Async::Ready(Frame::Error { error: Error::Framing }));
    assert!(conn.is_closed());
}

#[test]
fn head_cut_short_is_a_parse_error() {
    let mut conn = Conn::new();
    conn.fill(b"\r\nGET / HT").unwrap();
    assert_eq!(conn.read(), Async::NotReady);
    conn.end_of_input();
    assert_eq!(conn.read(), Async::Ready(Frame::Error { error: Error::Parse }));
}

#[test]
fn illegal_frames_are_invalid_input() {
    // a piece of a body where a head is due
    let mut conn = Conn::new();
    conn.fill(b"GET / HTTP/1.1\r\n\r\n").unwrap();
    assert!(matches!(conn.read(), Async::Ready(Frame::Message { .. })));
    assert_eq!(conn.write(chunk(b"x")), Err(Error::InvalidInput));
    assert!(conn.is_closed());

    // a head where no request waits for an answer
    let mut conn = Conn::new();
    assert_eq!(conn.write(message(response(200, &[]), false)), Err(Error::InvalidInput));
    assert!(conn.is_closed());

    // a head in the middle of a body
    let mut conn = Conn::new();
    conn.fill(b"GET / HTTP/1.1\r\n\r\n").unwrap();
    assert!(matches!(conn.read(), Async::Ready(Frame::Message { .. })));
    assert_eq!(conn.write(message(response(200, &[]), true)), Ok(()));
    assert_eq!(conn.write(message(response(200, &[]), true)), Err(Error::InvalidInput));
    assert!(conn.is_closed());

    // more bytes than the length announced
    let mut conn = Conn::new();
    conn.fill(b"GET / HTTP/1.1\r\n\r\n").unwrap();
    assert!(matches!(conn.read(), Async::Ready(Frame::Message { .. })));
    assert_eq!(conn.write(message(response(200, &[("Content-Length", "2")]), true)), Ok(()));
    assert_eq!(conn.write(chunk(b"abc")), Err(Error::InvalidInput));
    assert!(conn.is_closed());

    // a status of four digits, and a length that is no number
    for head in [response(1000, &[]), response(200, &[("Content-Length", "x")])] {
        let mut conn = Conn::new();
        conn.fill(b"GET / HTTP/1.1\r\n\r\n").unwrap();
        assert!(matches!(conn.read(), Async::Ready(Frame::Message { .. })));
        assert_eq!(conn.write(message(head, false)), Err(Error::InvalidInput));
        assert!(conn.is_closed());
    }
}

#[test]
fn transport_failure_closes_with_io() {
    let mut conn = Conn::new();
    assert_eq!(conn.transport_failed(), Error::Io);
    assert!(conn.is_closed());
    assert_eq!(conn.write(end()), Err(Error::Closed));
}

#[test]
fn done_and_error_frames_close() {
    let mut conn = Conn::new();
    assert_eq!(conn.write(Frame::Done), Ok(()));
    assert!(conn.is_closed());
    let mut conn = Conn::new();
    assert_eq!(conn.write(Frame::Error { error: Error::Io }), Ok(()));
    assert!(conn.is_closed());
}

#[test]
fn response_that_forbids_reuse_closes() {
    let mut conn = Conn::new();
    conn.fill(b"GET / HTTP/1.1\r\n\r\n").unwrap();
    assert!(matches!(conn.read(), Async::Ready(Frame::Message { .. })));
    assert_eq!(
        conn.write(message(response(200, &[("Content-Length", "0"), ("Connection", "Keep-Alive, Close")]), false)),
        Ok(())
    );
    assert!(conn.is_closed());
}

#[test]
fn keep_alive_switched_off_closes_after_one_exchange() {
    let config = Config { keep_alive_enabled: false, max_head_bytes: 1024, initial_buf_capacity: 16 };
    let mut conn = Conn::with_config(config);
    conn.fill(b"GET / HTTP/1.1\r\n\r\nGET / HTTP/1.1\r\n\r\n").unwrap();
    assert!(matches!(conn.read(), Async::Ready(Frame::Message { .. })));
    assert_eq!(conn.read(), Async::NotReady);
    assert_eq!(conn.reading(), Reading::Closed);
    assert_eq!(conn.write(message(response(200, &[("Content-Length", "0")]), false)), Ok(()));
    assert!(conn.is_closed());
}

#[test]
fn http10_needs_keep_alive_from_both_sides() {
    // the request asks for it, the response does not grant it
    let mut conn = Conn::new();
    conn.fill(b"GET / HTTP/1.0\r\nConnection: keep-alive\r\n\r\n").unwrap();
    assert!(matches!(conn.read(), Async::Ready(Frame::Message { .. })));
    assert_eq!(conn.write(message(response(200, &[("Content-Length", "0")]), false)), Ok(()));
    assert!(conn.is_closed());
    // both do
    let mut conn = Conn::new();
    conn.fill(b"GET / HTTP/1.0\r\nConnection: keep-alive\r\n\r\n").unwrap();
    assert!(matches!(conn.read(), Async::Ready(Frame::Message { .. })));
    assert_eq!(
        conn.write(message(response(200, &[("Content-Length", "0"), ("Connection", "keep-alive")]), false)),
        Ok(())
    );
    assert_eq!(conn.reading(), Reading::Init);
    assert_eq!(conn.writing(), Writing::Init);
    // the request does not ask
    let mut conn = Conn::new();
    conn.fill(b"GET / HTTP/1.0\r\n\r\n").unwrap();
    assert!(matches!(conn.read(), Async::Ready(Frame::Message { .. })));
    assert_eq!(conn.read(), Async::NotReady);
    assert_eq!(conn.reading(), Reading::Closed);
}

#[test]
fn length_left_unsent_closes() {
    let mut conn = Conn::new();
    conn.fill(b"GET / HTTP/1.1\r\n\r\n").unwrap();
    assert!(matches!(conn.read(), Async::Ready(Frame::Message { .. })));
    assert_eq!(conn.write(message(response(200, &[("Content-Length", "5")]), true)), Ok(()));
    assert_eq!(conn.write(chunk(b"ab")), Ok(()));
    assert_eq!(conn.write(end()), Ok(()));
    assert!(conn.is_closed());
    assert_eq!(take_output(&mut conn), b"HTTP/1.1 200 OK\r\nContent-Length: 5\r\n\r\nab".to_vec());
}

#[test]
fn answer_to_head_may_announce_a_length() {
    let mut conn = Conn::new();
    conn.fill(b"HEAD / HTTP/1.1\r\n\r\n").unwrap();
    assert!(matches!(conn.read(), Async::Ready(Frame::Message { body: false, .. })));
    assert_eq!(conn.write(message(response(200, &[("Content-Length", "42")]), false)), Ok(()));
    assert_eq!(conn.reading(), Reading::Init);
    assert_eq!(conn.writing(), Writing::Init);
}

#[test]
fn early_response_waits_for_the_request_body() {
    let mut conn = Conn::new();
    conn.fill(b"POST / HTTP/1.1\r\nContent-Length: 2\r\n\r\n").unwrap();
    assert!(matches!(conn.read(), Async::Ready(Frame::Message { body: true, .. })));
    assert_eq!(conn.write(message(response(200, &[("Content-Length", "0")]), false)), Ok(()));
    assert_eq!(conn.writing(), Writing::KeepAlive);
    conn.fill(b"ab").unwrap();
    assert_eq!(conn.read(), Async::Ready(Frame::Body { chunk: Some(b"ab".to_vec()) }));
    assert_eq!(conn.read(), Async::Ready(Frame::Body { chunk: None }));
    assert_eq!(conn.reading(), Reading::Init);
    assert_eq!(conn.writing(), Writing::Init);
}

#[test]
fn readiness_follows_the_transport() {
    let mut conn = Conn::new();
    assert_eq!(conn.poll_read(false), Async::NotReady);
    assert_eq!(conn.poll_read(true), Async::Ready(()));
    assert_eq!(conn.poll_write(false), Async::NotReady);
    assert_eq!(conn.poll_write(true), Async::Ready(()));
    assert!(conn.can_read_head());
    conn.close();
    assert_eq!(conn.poll_read(false), Async::Ready(()));
    assert!(!conn.can_read_head());
    assert!(Async::Ready(1).is_ready());
}

#[test]
fn flush_reports_what_is_left() {
    let mut conn = Conn::new();
    conn.fill(b"GET / HTTP/1.1\r\n\r\n").unwrap();
    assert!(matches!(conn.read(), Async::Ready(Frame::Message { .. })));
    assert_eq!(conn.write(message(response(200, &[("Content-Length", "0")]), false)), Ok(()));
    let n = conn.output().len();
    assert_eq!(n, 38);
    assert_eq!(conn.flush(13), Async::NotReady);
    assert_eq!(conn.output(), &b"OK\r\nContent-Length: 0\r\n\r\n"[..][..]);
    assert_eq!(conn.flush(n - 13), Async::Ready(()));
    assert_eq!(conn.flush(0), Async::Ready(()));
}

#[test]
fn body_frames_hold_at_most_a_read_chunk() {
    let mut conn = Conn::new();
    conn.fill(b"POST / HTTP/1.1\r\nContent-Length: 5000\r\n\r\n").unwrap();
    assert!(matches!(conn.read(), Async::Ready(Frame::Message { body: true, .. })));
    conn.fill(&vec![7u8; 5000]).unwrap();
    assert_eq!(conn.read(), Async::Ready(Frame::Body { chunk: Some(vec![7u8; 4096]) }));
    assert_eq!(conn.read(), Async::Ready(Frame::Body { chunk: Some(vec![7u8; 904]) }));
    assert_eq!(conn.read(), Async::Ready(Frame::Body { chunk: None }));
}

#[test]
fn input_is_read_in_place() {
    let wire = b"GET / HTTP/1.1\r\n\r\n";
    let config = Config { keep_alive_enabled: true, max_head_bytes: 64, initial_buf_capacity: 4 };
    let mut conn = Conn::with_config(config);
    assert_eq!(conn.read_capacity(), 64);
    assert!(conn.reserve_input(65).is_err());
    assert_eq!(conn.reserve_input(wire.len()), Ok(()));
    {
        let space = conn.input_space();
        assert!(space.len() >= wire.len());
        space[..4].copy_from_slice(&wire[..4]);
    }
    assert_eq!(conn.read(), Async::NotReady);
    conn.commit_input(4);
    assert_eq!(conn.read(), Async::NotReady);
    assert_eq!(conn.read_capacity(), 60);
    assert_eq!(conn.reserve_input(wire.len() - 4), Ok(()));
    conn.input_space()[..wire.len() - 4].copy_from_slice(&wire[4..]);
    conn.commit_input(wire.len() - 4);
    assert_eq!(conn.read(), Async::Ready(Frame::Message { message: get("/", &[]), body: false }));
    assert_eq!(conn.read_capacity(), 64);
}

#[test]
fn response_without_framing_ends_with_the_connection() {
    let mut conn = Conn::new();
    conn.fill(b"GET / HTTP/1.1\r\n\r\n").unwrap();
    assert!(matches!(conn.read(), Async::Ready(Frame::Message { .. })));
    assert_eq!(conn.write(message(response(200, &[]), false)), Ok(()));
    assert!(conn.is_closed());
    assert_eq!(take_output(&mut conn), b"HTTP/1.1 200 OK\r\n\r\n".to_vec());
}

#[test]
fn response_that_never_has_a_body_keeps_the_connection() {
    for (status, fields, wire) in [
        (304u16, vec![("Content-Length", "42")], &b"HTTP/1.1 304 Not Modified\r\nContent-Length: 42\r\n\r\n"[..]),
        (204, vec![], b"HTTP/1.1 204 No Content\r\n\r\n"),
        (101, vec![("Transfer-Encoding", "chunked")], b"HTTP/1.1 101 Switching Protocols\r\nTransfer-Encoding: chunked\r\n\r\n"),
    ] {
        let mut conn = Conn::new();
        conn.fill(b"GET / HTTP/1.1\r\n\r\n").unwrap();
        assert!(matches!(conn.read(), Async::Ready(Frame::Message { .. })));
        assert_eq!(conn.write(message(response(status, &fields), false)), Ok(()));
        assert_eq!(conn.reading(), Reading::Init);
        assert_eq!(conn.writing(), Writing::Init);
        assert_eq!(take_output(&mut conn), wire.to_vec());
    }
}

#[test]
fn answer_to_head_in_chunks_sends_no_last_chunk() {
    let mut conn = Conn::new();
    conn.fill(b"HEAD / HTTP/1.1\r\n\r\n").unwrap();
    assert!(matches!(conn.read(), Async::Ready(Frame::Message { .. })));
    assert_eq!(conn.write(message(response(200, &[("Transfer-Encoding", "chunked")]), false)), Ok(()));
    assert_eq!(take_output(&mut conn), b"HTTP/1.1 200 OK\r\nTransfer-Encoding: chunked\r\n\r\n".to_vec());
    assert!(!conn.is_closed());
}

#[test]
fn full_input_holds_the_transport_back() {
    let config = Config { keep_alive_enabled: true, max_head_bytes: 64, initial_buf_capacity: 16 };
    let mut conn = Conn::with_config(config);
    conn.fill(b"POST / HTTP/1.1\r\nContent-Length: 100\r\n\r\n").unwrap();
    assert!(matches!(conn.read(), Async::Ready(Frame::Message { body: true, .. })));
    conn.fill(&[b'x'; 63]).unwrap();
    assert_eq!(conn.poll_read(true), Async::Ready(()));
    conn.fill(b"y").unwrap();
    assert_eq!(conn.read_capacity(), 0);
    assert_eq!(conn.poll_read(true), Async::NotReady);
    assert_eq!(conn.poll_read(false), Async::NotReady);
    assert!(matches!(conn.read(), Async::Ready(Frame::Body { chunk: Some(_) })));
    assert_eq!(conn.read_capacity(), 64);
    assert_eq!(conn.poll_read(true), Async::Ready(()));
    conn.close();
    assert_eq!(conn.poll_read(false), Async::Ready(()));
}

#[test]
fn request_keeps_the_method_as_it_was_read() {
    let head = get("/", &[]);
    let request = h1conn::request::Request::new(head.clone());
    assert_eq!(request.method(), &Method::Get);
    let (method, uri, version, fields) = request.deconstruct();
    assert_eq!(MessageHead { version, subject: RequestLine(method, uri), headers: fields }, head);
}

/// The frames of a connection that is read until it waits, the bytes of
/// each stretch of a body in one frame.
fn read_all(conn: &mut Conn, frames: &mut Vec<Frame<RequestHead>>) {
    loop {
        if conn.is_closed() {
            return;
        }
        match conn.read() {
            Async::NotReady => return,
            Async::Ready(Frame::Body { chunk: Some(more) }) => {
                if let Some(Frame::Body { chunk: Some(bytes) }) = frames.last_mut() {
                    bytes.extend(more);
                } else {
                    frames.push(Frame::Body { chunk: Some(more) });
                }
            }
            Async::Ready(frame) => frames.push(frame),
        }
    }
}

#[test]
fn any_split_gives_the_same_frames() {
    let mut wire = b"POST /a HTTP/1.1\r\nContent-Length: 6000\r\n\r\n".to_vec();
    wire.extend(vec![b'x'; 6000]);
    wire.extend(b"\r\nPUT /b HTTP/1.1\nTransfer-Encoding: chunked\n\n3\r\nabc\r\n2;e\r\nde\r\n0\r\n\r\nGET /c HTTP/1.1\r\n\r\nG T / HTTP/1.1\r\n\r\n");
    let mut whole = Conn::new();
    let mut expected = Vec::new();
    whole.fill(&wire).unwrap();
    read_all(&mut whole, &mut expected);
    assert_eq!(expected.len(), 8);
    assert_eq!(expected[1], Frame::Body { chunk: Some(vec![b'x'; 6000]) });
    assert_eq!(expected[4], Frame::Body { chunk: Some(b"abcde".to_vec()) });
    assert_eq!(expected[7], Frame::Error { error: Error::Parse });
    for size in [1usize, 2, 3, 7, 64, 4095, 4097] {
        let mut conn = Conn::new();
        let mut frames = Vec::new();
        for piece in wire.chunks(size) {
            conn.fill(piece).unwrap();
            read_all(&mut conn, &mut frames);
        }
        assert_eq!(frames, expected, "pieces of {}", size);
        assert_eq!(conn.reading(), whole.reading());
        assert_eq!(conn.writing(), whole.writing());
    }
}
