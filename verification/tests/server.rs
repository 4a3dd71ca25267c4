use h1conn::body::Body;
use h1conn::conn::{Conn, Reading, Writing};
use h1conn::frame::{Async, Frame};
use h1conn::head::{RequestHead, StatusCode};
use h1conn::request::Request;
use h1conn::response::Response;

/// One end of a conversation: a connection, the requests it has handed out
/// and the bytes it has sent.
struct Serve {
    conn: Conn,
    requests: Vec<Request>,
    chunks: Vec<Vec<u8>>,
    errors: usize,
    sent: Vec<u8>,
}

impl Serve {
    fn new() -> Serve {
        Serve { conn: Conn::new(), requests: Vec::new(), chunks: Vec::new(), errors: 0, sent: Vec::new() }
    }

    /// Hands in bytes from the peer and reads until the current request is
    /// complete or the connection has to wait.
    fn receive(&mut self, bytes: &[u8]) {
        self.conn.fill(bytes).unwrap();
        self.read_request();
    }

    fn read_request(&mut self) {
        let mut in_body = false;
        loop {
            match self.conn.read() {
                Async::Ready(Frame::Message { message, body }) => {
                    self.accept(message);
                    if !body {
                        return;
                    }
                    in_body = true;
                }
                Async::Ready(Frame::Body { chunk: Some(chunk) }) => self.chunks.push(chunk),
                Async::Ready(Frame::Body { chunk: None }) => return,
                Async::Ready(Frame::Error { .. }) => {
                    self.errors += 1;
                    return;
                }
                Async::Ready(Frame::Done) => return,
                Async::NotReady => {
                    assert!(in_body || self.requests.is_empty() || true);
                    return;
                }
            }
        }
    }

    fn accept(&mut self, head: RequestHead) {
        self.requests.push(Request::new(head));
    }

    /// The bytes of the bodies read so far.
    fn body(&self) -> Vec<u8> {
        let mut buf = vec![];
        for chunk in &self.chunks {
            buf.extend(chunk);
        }
        buf
    }

    /// Writes a response and sends all of the output.
    fn reply(&mut self, response: Response) -> Vec<u8> {
        for frame in response.into_frames() {
            self.conn.write(frame).unwrap();
        }
        let out = self.conn.output().to_vec();
        let n = out.len();
        assert_eq!(self.conn.flush(n), Async::Ready(()));
        self.sent.extend(&out);
        out
    }
}

fn after_head(wire: &[u8]) -> &[u8] {
    let n = wire.windows(4).position(|w| w == b"\r\n\r\n").unwrap() + 4;
    &wire[n..]
}

fn lines(wire: &[u8]) -> Vec<String> {
    String::from_utf8(wire.to_vec()).unwrap().lines().map(|l| l.to_string()).collect()
}

fn header(name: &str, value: &str) -> (Vec<u8>, Vec<u8>) {
    (name.as_bytes().to_vec(), value.as_bytes().to_vec())
}

#[test]
fn server_get_should_ignore_body() {
    let mut server = Serve::new();

    // Connection: close = don't try to parse the body as a new request
    server.receive(b"\
        GET / HTTP/1.1\r\n\
        Host: example.domain\r\n\
        Connection: close\r\n
        \r\n\
        I shouldn't be read.\r\n\
    ");
    server.read_request();

    assert_eq!(server.body(), b"");
    assert_eq!(server.requests.len(), 1);
    assert_eq!(server.errors, 0);
    assert_eq!(server.conn.reading(), Reading::Closed);
}

#[test]
fn server_get_with_body() {
    let mut server = Serve::new();
    server.receive(b"\
        GET / HTTP/1.1\r\n\
        Host: example.domain\r\n\
        Content-Length: 19\r\n\
        \r\n\
        I'm a good request.\r\n\
    ");

    // note: doesnt include trailing \r\n, cause Content-Length wasn't 21
    assert_eq!(server.body(), b"I'm a good request.");
}

#[test]
fn server_get_fixed_response() {
    let foo_bar = b"foo bar baz";
    let mut server = Serve::new();
    server.receive(b"\
        GET / HTTP/1.1\r\n\
        Host: example.domain\r\n\
        Connection: close\r\n\
        \r\n\
    ");
    let (name, value) = header("Content-Length", &foo_bar.len().to_string());
    let body = server.reply(
        Response::new().status(StatusCode(200)).header(name, value).body(foo_bar.to_vec()),
    );

    assert_eq!(after_head(&body), b"foo bar baz");
    assert!(server.conn.is_closed());
}

#[test]
fn server_get_chunked_response() {
    let foo_bar = b"foo bar baz";
    let mut server = Serve::new();
    server.receive(b"\
        GET / HTTP/1.1\r\n\
        Host: example.domain\r\n\
        Connection: close\r\n
        \r\n\
    ");
    let (name, value) = header("Transfer-Encoding", "chunked");
    let body = server.reply(
        Response::new().status(StatusCode(200)).header(name, value).body(foo_bar.to_vec()),
    );

    assert_eq!(after_head(&body), b"B\r\nfoo bar baz\r\n0\r\n\r\n");
}

#[test]
fn server_post_with_chunked_body() {
    let mut server = Serve::new();
    server.receive(b"\
        POST / HTTP/1.1\r\n\
        Host: example.domain\r\n\
        Transfer-Encoding: chunked\r\n\
        \r\n\
        1\r\n\
        q\r\n\
        2\r\n\
        we\r\n\
        2\r\n\
        rt\r\n\
        0\r\n\
        \r\n\
    ");

    assert_eq!(server.body(), b"qwert");
}

#[test]
fn server_empty_response_chunked() {
    let mut server = Serve::new();
    server.receive(b"\
        GET / HTTP/1.1\r\n\
        Host: example.domain\r\n\
        Content-Length: 0\r\n
        Connection: close\r\n
        \r\n\
    ");
    let response = server.reply(Response::new().status(StatusCode(200)).body(b"".to_vec()));
    let text = String::from_utf8(response.clone()).unwrap();

    assert!(text.contains("Transfer-Encoding: chunked\r\n"));

    let all = lines(&response);
    let mut lines = all.iter().map(|l| l.as_str());
    assert_eq!(lines.next(), Some("HTTP/1.1 200 OK"));

    let mut lines = lines.skip_while(|line| !line.is_empty());
    assert_eq!(lines.next(), Some(""));
    // 0\r\n\r\n
    assert_eq!(lines.next(), Some("0"));
    assert_eq!(lines.next(), Some(""));
    assert_eq!(lines.next(), None);
}

#[test]
fn server_empty_response_chunked_without_calling_write() {
    let mut server = Serve::new();
    server.receive(b"\
        GET / HTTP/1.1\r\n\
        Host: example.domain\r\n\
        Connection: close\r\n
        \r\n\
    ");
    let (name, value) = header("Transfer-Encoding", "chunked");
    let response = server.reply(Response::new().status(StatusCode(200)).header(name, value));
    let text = String::from_utf8(response.clone()).unwrap();

    assert!(text.contains("Transfer-Encoding: chunked\r\n"));

    let all = lines(&response);
    let mut lines = all.iter().map(|l| l.as_str());
    assert_eq!(lines.next(), Some("HTTP/1.1 200 OK"));

    let mut lines = lines.skip_while(|line| !line.is_empty());
    assert_eq!(lines.next(), Some(""));
    // 0\r\n\r\n
    assert_eq!(lines.next(), Some("0"));
    assert_eq!(lines.next(), Some(""));
    assert_eq!(lines.next(), None);
}

#[test]
fn server_keep_alive() {
    let foo_bar = b"foo bar baz";
    let mut server = Serve::new();
    server.receive(b"\
        GET / HTTP/1.1\r\n\
        Host: example.domain\r\n\
        Connection: keep-alive\r\n\
        \r\n\
    ");
    let (name, value) = header("Content-Length", &foo_bar.len().to_string());
    let first = server.reply(
        Response::new().status(StatusCode(200)).header(name, value).body(foo_bar.to_vec()),
    );
    let n = first.len();
    assert!(n > 0, "n = {}", n);
    assert_eq!(&first[n - foo_bar.len()..n], foo_bar);
    assert_eq!(server.conn.reading(), Reading::Init);
    assert_eq!(server.conn.writing(), Writing::Init);

    // try again!

    let quux = b"zar quux";
    server.receive(b"\
        GET /quux HTTP/1.1\r\n\
        Host: example.domain\r\n\
        Connection: close\r\n\
        \r\n\
    ");
    let (name, value) = header("Content-Length", &quux.len().to_string());
    let second = server.reply(
        Response::new().status(StatusCode(200)).header(name, value).body(quux.to_vec()),
    );
    let n = second.len();
    assert!(n > 0, "n = {}", n);
    assert_eq!(&second[n - quux.len()..n], quux);
    assert_eq!(server.requests.len(), 2);
    assert_eq!(server.requests[1].path(), Some(b"/quux".to_vec()));
    assert!(server.conn.is_closed());
}

#[test]
fn request_body_is_empty_until_set() {
    let mut server = Serve::new();
    server.receive(b"GET /a?b=c HTTP/1.1\r\n\r\n");
    let mut request = server.requests.pop().unwrap();
    assert_eq!(request.query(), Some(b"b=c".to_vec()));
    assert_eq!(request.clone().body(), Body::empty());
    let mut body = Body::empty();
    body.push(b"xy".to_vec());
    request.set_body(body.clone());
    assert_eq!(request.body(), body);
}
