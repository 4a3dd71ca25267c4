use h1conn::client::ClientConn;
use h1conn::conn::{Config, Reading, Writing};
use h1conn::decode::Decoder;
use h1conn::encode::Encoder;
use h1conn::error::Error;
use h1conn::frame::{Async, Frame};
use h1conn::head::{
    Headers, HttpVersion, MessageHead, Method, RequestHead, RequestLine, RequestUri, ResponseHead,
    StatusCode,
};

fn request(method: Method, path: &str, fields: &[(&str, &str)]) -> RequestHead {
    let mut headers = Headers::new();
    for (name, value) in fields {
        headers.append(name.as_bytes().to_vec(), value.as_bytes().to_vec());
    }
    MessageHead {
        version: HttpVersion::Http11,
        subject: RequestLine(method, RequestUri::from_target(path.as_bytes().to_vec())),
        headers,
    }
}

fn response(status: u16, fields: &[(&str, &str)]) -> ResponseHead {
    let mut headers = Headers::new();
    for (name, value) in fields {
        headers.append(name.as_bytes().to_vec(), value.as_bytes().to_vec());
    }
    MessageHead { version: HttpVersion::Http11, subject: StatusCode(status), headers }
}

fn message(head: RequestHead, body: bool) -> Frame<RequestHead> {
    Frame::Message { message: head, body }
}

fn take_output(conn: &mut ClientConn) -> Vec<u8> {
    let out = conn.output().to_vec();
    assert_eq!(conn.flush(out.len()), Async::Ready(()));
    out
}

#[test]
fn client_sends_a_request_and_reads_the_response() {
    let mut conn = ClientConn::new();
    assert_eq!(conn.read(), Async::NotReady);
    assert_eq!(conn.write(message(request(Method::Get, "/a?b", &[("Host", "h")]), false)), Ok(()));
    assert_eq!(take_output(&mut conn), b"GET /a?b HTTP/1.1\r\nHost: h\r\n\r\n".to_vec());
    assert_eq!(conn.writing(), Writing::KeepAlive);
    assert_eq!(conn.read(), Async::NotReady);
    conn.fill(b"HTTP/1.1 200 OK\r\nContent-Length: 5\r\n\r\nhello").unwrap();
    assert_eq!(
        conn.read(),
        Async::Ready(Frame::Message { message: response(200, &[("content-length", "5")]), body: true })
    );
    assert_eq!(conn.reading(), Reading::Body(Decoder::Length(5)));
    assert_eq!(conn.read(), Async::Ready(Frame::Body { chunk: Some(b"hello".to_vec()) }));
    assert_eq!(conn.read(), Async::Ready(Frame::Body { chunk: None }));
    assert_eq!(conn.reading(), Reading::Init);
    assert_eq!(conn.writing(), Writing::Init);
}

#[test]
fn client_reads_no_body_behind_the_answer_to_head() {
    let mut conn = ClientConn::new();
    assert_eq!(conn.write(message(request(Method::Head, "/", &[]), false)), Ok(()));
    assert_eq!(conn.write(message(request(Method::Get, "/", &[]), false)), Ok(()));
    conn.fill(b"HTTP/1.1 200 OK\r\nContent-Length: 42\r\n\r\nHTTP/1.1 200 OK\r\nContent-Length: 2\r\n\r\nok")
        .unwrap();
    assert_eq!(
        conn.read(),
        Async::Ready(Frame::Message { message: response(200, &[("content-length", "42")]), body: false })
    );
    assert_eq!(conn.read_capacity(), 1048576 - 40);
    assert_eq!(
        conn.read(),
        Async::Ready(Frame::Message { message: response(200, &[("content-length", "2")]), body: true })
    );
    assert_eq!(conn.read(), Async::Ready(Frame::Body { chunk: Some(b"ok".to_vec()) }));
    assert_eq!(conn.read(), Async::Ready(Frame::Body { chunk: None }));
    assert_eq!((conn.reading(), conn.writing()), (Reading::Init, Writing::Init));
}

#[test]
fn client_frames_the_body_of_a_request() {
    let mut conn = ClientConn::new();
    assert_eq!(conn.write(message(request(Method::Post, "/", &[]), true)), Ok(()));
    assert_eq!(conn.writing(), Writing::Body(Encoder::Chunked));
    assert_eq!(conn.write(Frame::Body { chunk: Some(b"foo bar baz".to_vec()) }), Ok(()));
    assert_eq!(conn.write(Frame::Body { chunk: None }), Ok(()));
    assert_eq!(
        take_output(&mut conn),
        b"POST / HTTP/1.1\r\nTransfer-Encoding: chunked\r\n\r\nB\r\nfoo bar baz\r\n0\r\n\r\n".to_vec()
    );
    let mut conn = ClientConn::new();
    assert_eq!(conn.write(message(request(Method::Put, "/x", &[("Content-Length", "3")]), true)), Ok(()));
    assert_eq!(conn.write(Frame::Body { chunk: Some(b"abcd".to_vec()) }), Err(Error::InvalidInput));
    assert!(conn.is_closed());
}

#[test]
fn client_refuses_requests_it_cannot_frame() {
    // a body without framing in HTTP/1.0
    let mut head = request(Method::Post, "/", &[]);
    head.version = HttpVersion::Http10;
    let mut conn = ClientConn::new();
    assert_eq!(conn.write(message(head, true)), Err(Error::InvalidInput));
    assert!(conn.is_closed());
    // a length announced and no body
    let mut conn = ClientConn::new();
    assert_eq!(
        conn.write(message(request(Method::Post, "/", &[("Content-Length", "3")]), false)),
        Err(Error::InvalidInput)
    );
    assert!(conn.is_closed());
    // a piece of a body where a head is due
    let mut conn = ClientConn::new();
    assert_eq!(conn.write(Frame::Body { chunk: None }), Err(Error::InvalidInput));
    assert!(conn.is_closed());
    assert_eq!(conn.write(Frame::Body { chunk: None }), Err(Error::Closed));
    assert_eq!(conn.write(Frame::Done), Ok(()));
    assert_eq!(conn.read(), Async::Ready(Frame::Done));
}

#[test]
fn client_reads_a_body_to_the_end_of_the_transport() {
    let mut conn = ClientConn::new();
    assert_eq!(conn.write(message(request(Method::Get, "/", &[]), false)), Ok(()));
    conn.fill(b"HTTP/1.1 200 OK\r\n\r\nabc").unwrap();
    assert!(matches!(conn.read(), Async::Ready(Frame::Message { body: true, .. })));
    assert_eq!(conn.reading(), Reading::Body(Decoder::Eof(false)));
    assert_eq!(conn.read(), Async::Ready(Frame::Body { chunk: Some(b"abc".to_vec()) }));
    assert_eq!(conn.read(), Async::NotReady);
    conn.fill(b"def").unwrap();
    assert_eq!(conn.read(), Async::Ready(Frame::Body { chunk: Some(b"def".to_vec()) }));
    conn.end_of_input();
    assert_eq!(conn.read(), Async::Ready(Frame::Body { chunk: None }));
    assert!(conn.is_closed());
    assert_eq!(conn.read(), Async::Ready(Frame::Done));
}

#[test]
fn client_closes_when_either_side_asks_for_it() {
    let mut conn = ClientConn::new();
    assert_eq!(conn.write(message(request(Method::Get, "/", &[("Connection", "close")]), false)), Ok(()));
    assert_eq!(conn.write(message(request(Method::Get, "/", &[]), false)), Err(Error::InvalidInput));
    let mut conn = ClientConn::new();
    assert_eq!(conn.write(message(request(Method::Get, "/", &[]), false)), Ok(()));
    conn.fill(b"HTTP/1.1 204 No Content\r\nConnection: close\r\n\r\n").unwrap();
    assert!(matches!(conn.read(), Async::Ready(Frame::Message { body: false, .. })));
    assert!(conn.is_closed());
    let config = Config { keep_alive_enabled: false, max_head_bytes: 1024, initial_buf_capacity: 16 };
    let mut conn = ClientConn::with_config(config);
    assert_eq!(conn.write(message(request(Method::Get, "/", &[]), false)), Ok(()));
    conn.fill(b"HTTP/1.1 204 No Content\r\n\r\n").unwrap();
    assert!(matches!(conn.read(), Async::Ready(Frame::Message { body: false, .. })));
    assert!(conn.is_closed());
}

#[test]
fn client_reports_errors_of_the_response() {
    for (wire, error) in [
        (&b"HTTP/1.1 2x0 OK\r\n\r\n"[..], Error::Parse),
        (&b"HTTP/3.0 200 OK\r\n\r\n"[..], Error::Version),
        (&b"HTTP/1.1 200 OK\r\nContent-Length: a\r\n\r\n"[..], Error::Framing),
    ] {
        let mut conn = ClientConn::new();
        assert_eq!(conn.write(message(request(Method::Get, "/", &[]), false)), Ok(()));
        conn.fill(wire).unwrap();
        assert_eq!(conn.read(), Async::Ready(Frame::Error { error }));
        assert!(conn.is_closed());
    }
    let mut conn = ClientConn::new();
    assert_eq!(conn.write(message(request(Method::Get, "/", &[]), false)), Ok(()));
    conn.end_of_input();
    assert_eq!(conn.read(), Async::Ready(Frame::Done));
    let mut conn = ClientConn::new();
    assert_eq!(conn.transport_failed(), Error::Io);
    assert!(conn.is_closed());
}

#[test]
fn client_readiness_follows_transport_and_input() {
    let config = Config { keep_alive_enabled: true, max_head_bytes: 32, initial_buf_capacity: 16 };
    let mut conn = ClientConn::with_config(config);
    assert_eq!(conn.poll_read(false), Async::NotReady);
    assert_eq!(conn.poll_read(true), Async::Ready(()));
    assert_eq!(conn.poll_write(true), Async::Ready(()));
    assert_eq!(conn.poll_write(false), Async::NotReady);
    conn.fill(&[b'H'; 32]).unwrap();
    assert!(conn.fill(b"x").is_err());
    assert_eq!(conn.poll_read(true), Async::NotReady);
    conn.close();
    assert_eq!(conn.poll_read(false), Async::Ready(()));
}
