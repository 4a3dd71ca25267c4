use h1conn::conn::{Conn, Reading, Writing};
use h1conn::error::Error;
use h1conn::frame::{Async, Frame};
use h1conn::head::{
    Headers, HttpVersion, MessageHead, Method, RequestLine, RequestUri, ResponseHead, StatusCode,
};

fn response(status: u16, fields: &[(&str, &str)]) -> ResponseHead {
    let mut headers = Headers::new();
    for (name, value) in fields {
        headers.append(name.as_bytes().to_vec(), value.as_bytes().to_vec());
    }
    MessageHead { version: HttpVersion::Http11, subject: StatusCode(status), headers }
}

#[test]
fn test_conn_init_read() {
    let good_message = b"GET / HTTP/1.1\r\n\r\n".to_vec();
    let mut conn = Conn::new();
    conn.fill(&good_message).unwrap();

    match conn.read() {
        Async::Ready(Frame::Message { message, body: false }) => {
            assert_eq!(
                message,
                MessageHead {
                    subject: RequestLine(
                        Method::Get,
                        RequestUri::AbsolutePath { path: b"/".to_vec(), query: None }
                    ),
                    ..MessageHead::default()
                }
            )
        }
        f => panic!("frame is not Frame::Message: {:?}", f),
    }
}

#[test]
fn test_conn_closed_read() {
    let mut conn = Conn::new();
    conn.close();

    match conn.read() {
        Async::Ready(Frame::Done) => {}
        other => panic!("frame is not Frame::Done: {:?}", other),
    }
}

#[test]
fn test_conn_closed_write() {
    let mut conn = Conn::new();
    conn.close();

    match conn.write(Frame::Body { chunk: Some(b"foobar".to_vec()) }) {
        Err(_e) => {}
        other => panic!("did not return Err: {:?}", other),
    }

    assert!(conn.is_closed());
}

#[test]
fn closed_write_is_rejected_with_closed() {
    let mut conn = Conn::new();
    conn.close();
    assert_eq!(conn.write(Frame::Message { message: response(200, &[]), body: false }), Err(Error::Closed));
    assert_eq!(conn.write(Frame::Done), Ok(()));
    assert_eq!(conn.reading(), Reading::Closed);
    assert_eq!(conn.writing(), Writing::Closed);
}

#[test]
fn heads_start_as_get_slash_and_200() {
    let request: MessageHead<RequestLine> = MessageHead::default();
    assert_eq!(request.version, HttpVersion::Http11);
    assert_eq!(request.headers, Headers::new());
    assert_eq!(request.headers, Headers::default());
    assert_eq!(
        request.subject,
        RequestLine(Method::Get, RequestUri::AbsolutePath { path: b"/".to_vec(), query: None })
    );
    let response: ResponseHead = MessageHead::default();
    assert_eq!(response.subject, StatusCode(200));
    assert_eq!(HttpVersion::default(), HttpVersion::Http11);
}
