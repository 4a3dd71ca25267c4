use h1conn::body::{Body, IntoBody};
use h1conn::buffer::{ByteBuffer, TooLarge};
use h1conn::chars::{bytes_eq, bytes_eq_ignore_case, hex_digit, hex_value, is_tchar, lower};
use h1conn::decode::{ChunkState, Chunked, Decode, Decoder};
use h1conn::encode::Encoder;
use h1conn::error::Error;
use h1conn::frame::Frame;
use h1conn::framing::{
    headers_content_length, headers_permit_reuse, headers_transfer_encoding, is_bodiless,
    list_ends_with, list_has, parse_decimal, request_decoder, response_decoder, response_encoder,
};
use h1conn::head::{
    find_byte, Headers, HttpVersion, MessageHead, Method, RequestLine, RequestUri, StatusCode,
};
use h1conn::parse::{parse_request, parse_response};
use h1conn::request::Request;
use h1conn::response::Response;
use h1conn::wire::{canonical_reason, encode_request, encode_response, push_hex};

fn headers(fields: &[(&str, &str)]) -> Headers {
    let mut h = Headers::new();
    for (name, value) in fields {
        h.append(name.as_bytes().to_vec(), value.as_bytes().to_vec());
    }
    h
}

fn buffer_with(bytes: &[u8], capacity: usize, ceiling: usize) -> ByteBuffer {
    let mut b = ByteBuffer::new(capacity, ceiling);
    b.extend(bytes).unwrap();
    b
}

#[test]
fn buffer_is_a_fifo() {
    let mut b = ByteBuffer::new(4, 16);
    assert!(b.is_empty());
    assert_eq!(b.allocated(), 4);
    assert_eq!(b.max_len(), 16);
    b.extend(b"abc").unwrap();
    b.push(b'd').unwrap();
    assert_eq!(b.len(), 4);
    assert_eq!(b.readable(), b"abcd");
    assert_eq!(b.get(2), b'c');
    b.consume(1);
    assert_eq!(b.readable(), b"bcd");
    b.consume(3);
    assert!(b.is_empty());
    assert_eq!(b.room(), 4);
}

#[test]
fn buffer_starts_no_larger_than_its_ceiling() {
    let b = ByteBuffer::new(100, 10);
    assert_eq!(b.allocated(), 10);
}

#[test]
fn buffer_doubles_until_the_request_fits() {
    let mut b = buffer_with(b"ab", 4, 100);
    assert_eq!(b.reserve(2), Ok(()));
    assert_eq!(b.allocated(), 4);
    assert_eq!(b.reserve(11), Ok(()));
    // 4 -> 8 -> 16, the first that holds 2 + 11
    assert_eq!(b.allocated(), 16);
    assert_eq!(b.room(), 14);
    assert_eq!(b.readable(), b"ab");
    assert_eq!(b.reserve(98), Ok(()));
    // 16 -> 32 -> 64 -> 100, the ceiling
    assert_eq!(b.allocated(), 100);
    let mut empty = ByteBuffer::new(0, 5);
    assert_eq!(empty.reserve(3), Ok(()));
    // 0 -> 1 -> 2 -> 4
    assert_eq!(empty.allocated(), 4);
}

#[test]
fn buffer_slides_when_more_than_half_is_read() {
    let mut b = buffer_with(b"abcdefgh", 8, 100);
    b.consume(5);
    assert_eq!(b.room(), 0);
    assert_eq!(b.reserve(4), Ok(()));
    // slid to the front: 3 unread bytes and 5 free ones, no growth
    assert_eq!(b.allocated(), 8);
    assert_eq!(b.room(), 5);
    assert_eq!(b.readable(), b"fgh");

    let mut b = buffer_with(b"abcdefgh", 8, 100);
    b.consume(4);
    assert_eq!(b.reserve(4), Ok(()));
    // half read is not more than half: no slide, the storage doubles
    assert_eq!(b.allocated(), 16);
    assert_eq!(b.room(), 8);
    assert_eq!(b.readable(), b"efgh");
}

#[test]
fn buffer_refuses_what_the_ceiling_cannot_hold() {
    let mut b = buffer_with(b"abcdef", 8, 8);
    assert_eq!(b.reserve(3), Err(TooLarge));
    assert_eq!(b.extend(b"xyz"), Err(TooLarge));
    assert_eq!(b.readable(), b"abcdef");
    assert_eq!(b.extend(b"xy"), Ok(()));
    assert_eq!(b.push(b'!'), Err(TooLarge));
    b.consume(6);
    // the ceiling forces a slide here although less than half is free
    assert_eq!(b.extend(b"123456"), Ok(()));
    assert_eq!(b.readable(), b"xy123456");
}

#[test]
fn buffer_drops_leading_empty_lines() {
    let mut b = buffer_with(b"\r\n\n\rGET\r\n", 16, 16);
    b.consume_leading_empty_lines();
    assert_eq!(b.readable(), b"GET\r\n");
    b.consume_leading_empty_lines();
    assert_eq!(b.readable(), b"GET\r\n");
    let mut b = buffer_with(b"\r\n\r\n", 16, 16);
    b.consume_leading_empty_lines();
    assert!(b.is_empty());
}

#[test]
fn byte_classes() {
    assert!(is_tchar(b'a') && is_tchar(b'!') && is_tchar(b'~') && is_tchar(b'9'));
    assert!(!is_tchar(b' ') && !is_tchar(b':') && !is_tchar(b'(') && !is_tchar(0));
    assert_eq!(lower(b'A'), b'a');
    assert_eq!(lower(b'-'), b'-');
    assert_eq!(hex_value(b'f'), 15);
    assert_eq!(hex_value(b'A'), 10);
    assert_eq!(hex_value(b'7'), 7);
    assert_eq!(hex_digit(11), b'B');
    assert_eq!(hex_digit(3), b'3');
    assert!(bytes_eq(b"ab", b"ab") && !bytes_eq(b"ab", b"aB") && !bytes_eq(b"ab", b"abc"));
    assert!(bytes_eq_ignore_case(b"Keep-Alive", b"keep-alive"));
    assert!(!bytes_eq_ignore_case(b"keep_alive", b"keep-alive"));
}

#[test]
fn methods_are_known_by_their_token() {
    assert_eq!(Method::from_token(b"GET".to_vec()), Method::Get);
    assert_eq!(Method::from_token(b"OPTIONS".to_vec()), Method::Options);
    assert_eq!(Method::from_token(b"PATCH".to_vec()), Method::Patch);
    assert_eq!(Method::from_token(b"get".to_vec()), Method::Extension(b"get".to_vec()));
    assert_eq!(Method::Delete.to_bytes(), b"DELETE");
    assert_eq!(Method::Extension(b"PURGE".to_vec()).to_bytes(), b"PURGE");
    assert!(Method::Head.is_head() && !Method::Get.is_head());
}

#[test]
fn targets_are_sorted_into_their_forms() {
    assert_eq!(RequestUri::from_target(b"*".to_vec()), RequestUri::Star);
    assert_eq!(
        RequestUri::from_target(b"/a/b?c=d?e".to_vec()),
        RequestUri::AbsolutePath { path: b"/a/b".to_vec(), query: Some(b"c=d?e".to_vec()) }
    );
    assert_eq!(
        RequestUri::from_target(b"/".to_vec()),
        RequestUri::AbsolutePath { path: b"/".to_vec(), query: None }
    );
    assert_eq!(
        RequestUri::from_target(b"http://a/b".to_vec()),
        RequestUri::AbsoluteUri(b"http://a/b".to_vec())
    );
    assert_eq!(
        RequestUri::from_target(b"example.com:443".to_vec()),
        RequestUri::Authority(b"example.com:443".to_vec())
    );
    assert_eq!(
        RequestUri::AbsolutePath { path: b"/p".to_vec(), query: Some(b"q".to_vec()) }.to_bytes(),
        b"/p?q"
    );
    assert_eq!(RequestUri::Star.to_bytes(), b"*");
    assert_eq!(find_byte(b"a?b?", b'?'), Some(1));
    assert_eq!(find_byte(b"ab", b'?'), None);
}

#[test]
fn header_fields_keep_their_order_and_ignore_case() {
    let mut h = headers(&[("A", "1"), ("b", "2"), ("a", "3")]);
    assert_eq!(h.len(), 3);
    assert_eq!(h.get(b"a"), Some(&b"1".to_vec()));
    assert_eq!(h.get(b"B"), Some(&b"2".to_vec()));
    assert_eq!(h.get(b"c"), None);
    assert_eq!(h.get_all(b"a"), vec![b"1".to_vec(), b"3".to_vec()]);
    assert_eq!(h.name_at(2), &b"a".to_vec());
    assert_eq!(h.value_at(1), &b"2".to_vec());
    h.set(b"a".to_vec(), b"4".to_vec());
    assert_eq!(h, headers(&[("b", "2"), ("a", "4")]));
}

#[test]
fn request_head_is_parsed() {
    let wire = b"PUT /x?y HTTP/1.0\nHost:\texample \r\nX-Empty:\r\nhost: two\n\nrest";
    let (head, n) = parse_request(wire, 1024).unwrap().unwrap();
    assert_eq!(n, wire.len() - 4);
    assert_eq!(head.version, HttpVersion::Http10);
    assert_eq!(head.subject.0, Method::Put);
    assert_eq!(
        head.subject.1,
        RequestUri::AbsolutePath { path: b"/x".to_vec(), query: Some(b"y".to_vec()) }
    );
    assert_eq!(head.headers, headers(&[("host", "example"), ("x-empty", ""), ("host", "two")]));
}

#[test]
fn request_head_waits_for_its_end() {
    let wire = b"GET / HTTP/1.1\r\nHost: a\r\n\r\n";
    for n in 0..wire.len() {
        assert_eq!(parse_request(&wire[..n], 1024), Ok(None));
    }
    assert!(matches!(parse_request(wire, 1024), Ok(Some((_, 27)))));
}

#[test]
fn request_head_errors_come_at_the_first_bad_byte() {
    assert_eq!(parse_request(b"G(T", 1024), Err(Error::Parse));
    assert_eq!(parse_request(b" GET", 1024), Err(Error::Parse));
    assert_eq!(parse_request(b"GET  ", 1024), Err(Error::Parse));
    assert_eq!(parse_request(b"GET / HTTQ", 1024), Err(Error::Parse));
    assert_eq!(parse_request(b"GET / HTTP/3", 1024), Err(Error::Version));
    assert_eq!(parse_request(b"GET / HTTP/1.2", 1024), Err(Error::Version));
    assert_eq!(parse_request(b"GET / HTTP/1x", 1024), Err(Error::Parse));
    assert_eq!(parse_request(b"GET / HTTP/1.1\rx", 1024), Err(Error::Parse));
    assert_eq!(parse_request(b"GET / HTTP/1.1\r\nA B: c", 1024), Err(Error::Parse));
    assert_eq!(parse_request(b"GET / HTTP/1.1\r\nA: \x01", 1024), Err(Error::Parse));
    assert_eq!(parse_request(b"GET / HTTP/1.1\r\nA: b\rc", 1024), Err(Error::Parse));
    assert_eq!(parse_request(b"GET / HTTP/1.1\r\n\rx", 1024), Err(Error::Parse));
    assert_eq!(parse_request(b"GET / HTTP/1.1\r\n", 16), Err(Error::Parse));
    assert_eq!(parse_request(b"", 0), Ok(None));
    assert_eq!(parse_request(b"G", 0), Err(Error::Parse));
}

#[test]
fn response_head_is_parsed() {
    let wire = b"HTTP/1.1 404 Not Found\r\nContent-Length: 0\r\n\r\n";
    let (head, n) = parse_response(wire, 1024).unwrap().unwrap();
    assert_eq!(n, wire.len());
    assert_eq!(head.version, HttpVersion::Http11);
    assert_eq!(head.subject, StatusCode(404));
    assert_eq!(head.headers, headers(&[("content-length", "0")]));
    assert!(matches!(parse_response(b"HTTP/1.0 200\r\n\r\n", 1024), Ok(Some((_, 16)))));
    assert!(matches!(parse_response(b"HTTP/1.0 200 \n\n", 1024), Ok(Some((_, 15)))));
    assert_eq!(parse_response(b"HTTP/1.1 20", 1024), Ok(None));
    assert_eq!(parse_response(b"HTTP/1.1 2x", 1024), Err(Error::Parse));
    assert_eq!(parse_response(b"HTTP/1.1 2000", 1024), Err(Error::Parse));
    assert_eq!(parse_response(b"HTTP/1.1  200", 1024), Err(Error::Parse));
    assert_eq!(parse_response(b"HTTP/2.0 200", 1024), Err(Error::Version));
    assert_eq!(parse_response(b"HTTP/1.1 200 a\x00", 1024), Err(Error::Parse));
}

#[test]
fn heads_go_out_and_come_back() {
    let request = MessageHead {
        version: HttpVersion::Http11,
        subject: RequestLine(
            Method::Extension(b"PURGE".to_vec()),
            RequestUri::from_target(b"http://h/p?q".to_vec()),
        ),
        headers: headers(&[("host", "h"), ("x-a", "b  c"), ("x-e", "")]),
    };
    let mut wire = Vec::new();
    encode_request(&request, &mut wire);
    assert_eq!(wire, b"PURGE http://h/p?q HTTP/1.1\r\nhost: h\r\nx-a: b  c\r\nx-e: \r\n\r\n");
    let n = wire.len();
    wire.extend(b"more");
    assert_eq!(parse_request(&wire, n), Ok(Some((request, n))));

    let response = MessageHead {
        version: HttpVersion::Http10,
        subject: StatusCode(503),
        headers: headers(&[("retry-after", "1")]),
    };
    let mut wire = Vec::new();
    encode_response(&response, &mut wire);
    assert_eq!(wire, b"HTTP/1.0 503 Service Unavailable\r\nretry-after: 1\r\n\r\n");
    let n = wire.len();
    assert_eq!(parse_response(&wire, n), Ok(Some((response, n))));
    assert_eq!(parse_response(&wire, n - 1), Err(Error::Parse));
}

#[test]
fn status_goes_out_in_three_digits() {
    let mut wire = Vec::new();
    encode_response(
        &MessageHead { version: HttpVersion::Http11, subject: StatusCode(7), headers: Headers::new() },
        &mut wire,
    );
    assert_eq!(wire, b"HTTP/1.1 007 Unknown\r\n\r\n");
    assert_eq!(canonical_reason(200), b"OK");
    assert_eq!(canonical_reason(505), b"HTTP Version Not Supported");
    assert_eq!(canonical_reason(299), b"Unknown");
}

#[test]
fn sizes_go_out_in_upper_case_hexadecimal() {
    for (n, text) in [(0u64, "0"), (11, "B"), (16, "10"), (255, "FF"), (4096, "1000"), (u64::MAX, "FFFFFFFFFFFFFFFF")] {
        let mut out = b">".to_vec();
        push_hex(&mut out, n);
        assert_eq!(out, format!(">{}", text).into_bytes());
    }
}

#[test]
fn decimal_numbers() {
    assert_eq!(parse_decimal(b"0"), Some(0));
    assert_eq!(parse_decimal(b"0042"), Some(42));
    assert_eq!(parse_decimal(b"18446744073709551615"), Some(u64::MAX));
    assert_eq!(parse_decimal(b"18446744073709551616"), None);
    assert_eq!(parse_decimal(b"99999999999999999999999"), None);
    assert_eq!(parse_decimal(b""), None);
    assert_eq!(parse_decimal(b"1 "), None);
    assert_eq!(parse_decimal(b"+1"), None);
}

#[test]
fn comma_separated_lists() {
    assert!(list_has(b"keep-alive, Close", b"close"));
    assert!(list_has(b"close", b"close"));
    assert!(list_has(b" \tclose\t ,x", b"close"));
    assert!(!list_has(b"closed, not-close", b"close"));
    assert!(!list_has(b"", b"close"));
    assert!(list_has(b"a,,b", b""));
    assert!(list_ends_with(b"gzip, Chunked ", b"chunked"));
    assert!(list_ends_with(b"chunked", b"chunked"));
    assert!(!list_ends_with(b"chunked, gzip", b"chunked"));
    assert!(!list_ends_with(b"chunked,", b"chunked"));
}

#[test]
fn reuse_follows_version_and_connection_field() {
    assert!(headers_permit_reuse(HttpVersion::Http11, &headers(&[])));
    assert!(!headers_permit_reuse(HttpVersion::Http11, &headers(&[("connection", "close")])));
    assert!(!headers_permit_reuse(HttpVersion::Http11, &headers(&[("Connection", "a"), ("connection", "b, CLOSE")])));
    assert!(!headers_permit_reuse(HttpVersion::Http10, &headers(&[])));
    assert!(headers_permit_reuse(HttpVersion::Http10, &headers(&[("Connection", "Keep-Alive")])));
}

#[test]
fn framing_fields_are_read() {
    assert_eq!(headers_content_length(&headers(&[])), Ok(None));
    assert_eq!(headers_content_length(&headers(&[("Content-Length", "7"), ("content-length", "07")])), Ok(Some(7)));
    assert_eq!(headers_content_length(&headers(&[("Content-Length", "7"), ("content-length", "8")])), Err(Error::Framing));
    assert_eq!(headers_content_length(&headers(&[("Content-Length", "7"), ("content-length", "x")])), Err(Error::Framing));
    assert_eq!(headers_transfer_encoding(&headers(&[])), (false, false));
    assert_eq!(headers_transfer_encoding(&headers(&[("transfer-encoding", "chunked"), ("Transfer-Encoding", "gzip")])), (true, false));
    assert_eq!(headers_transfer_encoding(&headers(&[("transfer-encoding", "gzip"), ("Transfer-Encoding", "chunked")])), (true, true));
}

#[test]
fn request_decoder_is_chosen_from_the_fields() {
    assert_eq!(request_decoder(&headers(&[])), Ok(Decoder::Empty));
    assert_eq!(request_decoder(&headers(&[("content-length", "3")])), Ok(Decoder::Length(3)));
    assert_eq!(
        request_decoder(&headers(&[("content-length", "3"), ("transfer-encoding", "chunked")])),
        Ok(Decoder::chunked())
    );
    assert_eq!(request_decoder(&headers(&[("transfer-encoding", "chunked, gzip")])), Err(Error::Framing));
    assert_eq!(request_decoder(&headers(&[("content-length", "3, 3")])), Err(Error::Framing));
}

#[test]
fn response_decoder_is_chosen_from_request_status_and_fields() {
    let length = headers(&[("content-length", "42")]);
    assert_eq!(response_decoder(true, 200, &length), Ok(Decoder::Empty));
    assert_eq!(response_decoder(false, 100, &length), Ok(Decoder::Empty));
    assert_eq!(response_decoder(false, 199, &length), Ok(Decoder::Empty));
    assert_eq!(response_decoder(false, 204, &length), Ok(Decoder::Empty));
    assert_eq!(response_decoder(false, 304, &length), Ok(Decoder::Empty));
    assert_eq!(response_decoder(false, 200, &length), Ok(Decoder::Length(42)));
    assert_eq!(response_decoder(false, 200, &headers(&[("transfer-encoding", "chunked")])), Ok(Decoder::chunked()));
    assert_eq!(response_decoder(false, 200, &headers(&[("transfer-encoding", "gzip")])), Ok(Decoder::Eof(false)));
    assert_eq!(response_decoder(false, 200, &headers(&[])), Ok(Decoder::Eof(false)));
    assert_eq!(response_decoder(false, 200, &headers(&[("content-length", "?")])), Err(Error::Framing));
}

#[test]
fn responses_without_a_body_whatever_their_fields() {
    assert!(is_bodiless(true, 200));
    assert!(is_bodiless(false, 100) && is_bodiless(false, 199));
    assert!(is_bodiless(false, 204) && is_bodiless(false, 304));
    assert!(!is_bodiless(false, 200) && !is_bodiless(false, 99) && !is_bodiless(false, 205));
}

#[test]
fn answer_to_head_takes_no_body_bytes() {
    let mut decoder = response_decoder(true, 200, &headers(&[("content-length", "42")])).unwrap();
    let mut buf = buffer_with(b"HTTP/1.1 200 OK\r\n", 64, 64);
    assert_eq!(decoder.decode(&mut buf, 4096), Ok(Decode::Done));
    assert_eq!(buf.readable(), b"HTTP/1.1 200 OK\r\n");
}

#[test]
fn response_encoder_is_chosen_from_fields_version_and_body() {
    let mut h = headers(&[("content-length", "5"), ("transfer-encoding", "chunked")]);
    assert_eq!(response_encoder(&mut h, HttpVersion::Http11, true), Ok(Encoder::Length(5)));
    let mut h = headers(&[("transfer-encoding", "chunked")]);
    assert_eq!(response_encoder(&mut h, HttpVersion::Http10, false), Ok(Encoder::Chunked));
    assert_eq!(h, headers(&[("transfer-encoding", "chunked")]));
    let mut h = headers(&[("a", "b")]);
    assert_eq!(response_encoder(&mut h, HttpVersion::Http11, true), Ok(Encoder::Chunked));
    assert_eq!(h, headers(&[("a", "b"), ("Transfer-Encoding", "chunked")]));
    let mut h = headers(&[("a", "b")]);
    assert_eq!(response_encoder(&mut h, HttpVersion::Http10, true), Ok(Encoder::CloseDelimited));
    assert_eq!(h, headers(&[("a", "b")]));
    assert_eq!(response_encoder(&mut h, HttpVersion::Http11, false), Ok(Encoder::CloseDelimited));
    assert_eq!(h, headers(&[("a", "b")]));
    let mut h = headers(&[("content-length", "1"), ("content-length", "2")]);
    assert_eq!(response_encoder(&mut h, HttpVersion::Http11, true), Err(Error::Framing));
}

#[test]
fn length_decoder_takes_what_it_is_owed() {
    let mut decoder = Decoder::Length(5);
    let mut buf = buffer_with(b"hel", 64, 64);
    assert_eq!(decoder.decode(&mut buf, 4096), Ok(Decode::Data(b"hel".to_vec())));
    assert_eq!(decoder, Decoder::Length(2));
    assert_eq!(decoder.decode(&mut buf, 4096), Ok(Decode::NeedMore));
    buf.extend(b"lo, world").unwrap();
    assert_eq!(decoder.decode(&mut buf, 4096), Ok(Decode::Data(b"lo".to_vec())));
    assert!(decoder.is_done());
    assert_eq!(decoder.decode(&mut buf, 4096), Ok(Decode::Done));
    assert_eq!(buf.readable(), b", world");
}

#[test]
fn decoder_hands_out_no_more_than_the_limit() {
    let mut decoder = Decoder::Length(5);
    let mut buf = buffer_with(b"hello", 64, 64);
    assert_eq!(decoder.decode(&mut buf, 2), Ok(Decode::Data(b"he".to_vec())));
    assert_eq!(decoder.decode(&mut buf, 0), Ok(Decode::NeedMore));
    assert_eq!(buf.readable(), b"llo");
}

#[test]
fn eof_decoder_runs_to_the_end_of_the_transport() {
    let mut decoder = Decoder::Eof(false);
    let mut buf = buffer_with(b"abc", 64, 64);
    assert_eq!(decoder.decode(&mut buf, 4096), Ok(Decode::Data(b"abc".to_vec())));
    assert_eq!(decoder.decode(&mut buf, 4096), Ok(Decode::NeedMore));
    assert_eq!(decoder.at_eof(), Ok(Decoder::Eof(true)));
    assert!(Decoder::Eof(true).is_done());
    assert_eq!(Decoder::Length(1).at_eof(), Err(Error::Framing));
    assert_eq!(Decoder::Length(0).at_eof(), Ok(Decoder::Length(0)));
    assert_eq!(Decoder::chunked().at_eof(), Err(Error::Framing));
    assert_eq!(Decoder::Empty.at_eof(), Ok(Decoder::Empty));
}

#[test]
fn chunked_decoder_skips_extensions_and_trailers() {
    let mut decoder = Decoder::chunked();
    let mut buf = buffer_with(b"a;ext=1\r\n0123456789\r\n0;last\r\nTrailer: x\r\nOther: y\r\n\r\nnext", 128, 128);
    assert_eq!(decoder.decode(&mut buf, 4096), Ok(Decode::Data(b"0123456789".to_vec())));
    assert!(decoder.is_done() && !decoder.is_failed());
    assert_eq!(buf.readable(), b"next");
}

#[test]
fn chunked_decoder_refuses_broken_framing() {
    for wire in [
        &b"\r\n"[..],
        b";\r\n",
        b"g\r\n",
        b"1 \r\n",
        b"1\n",
        b"1\r\r",
        b"1\r\nab",
        b"1\r\na\rb",
        b"0\r\n\n",
        b"0\r\n\rx",
        b"8000000000000000\r\n",
        b"00000000000000001\r\n",
    ] {
        let mut decoder = Decoder::chunked();
        let mut buf = buffer_with(wire, 64, 64);
        let mut last = decoder.decode(&mut buf, 4096);
        if let Ok(Decode::Data(_)) = last {
            last = decoder.decode(&mut buf, 4096);
        }
        assert_eq!(last, Err(Error::Framing), "{:?}", wire);
        assert!(decoder.is_failed());
    }
}

#[test]
fn chunked_decoder_takes_the_largest_size() {
    let mut decoder = Decoder::chunked();
    let mut buf = buffer_with(b"7fffffffffffffff\r\nx", 64, 64);
    assert_eq!(decoder.decode(&mut buf, 4096), Ok(Decode::Data(b"x".to_vec())));
    assert_eq!(
        decoder,
        Decoder::Chunked(Chunked { state: ChunkState::Body, size: 0x7FFF_FFFF_FFFF_FFFE, digits: 16 })
    );
}

#[test]
fn encoders_frame_their_chunks() {
    let mut out = Vec::new();
    let mut length = Encoder::Length(5);
    assert_eq!(length.encode(b"abc", &mut out), Ok(()));
    assert_eq!(length, Encoder::Length(2));
    assert_eq!(length.encode(b"def", &mut out), Err(Error::InvalidInput));
    assert_eq!(length, Encoder::Length(2));
    assert!(!length.end(&mut out));
    assert!(Encoder::Length(0).end(&mut out));
    assert_eq!(out, b"abc");

    let mut out = Vec::new();
    let mut chunked = Encoder::Chunked;
    assert_eq!(chunked.encode(b"", &mut out), Ok(()));
    assert_eq!(chunked.encode(&[b'x'; 26], &mut out), Ok(()));
    assert!(chunked.end(&mut out));
    assert_eq!(out, b"1A\r\nxxxxxxxxxxxxxxxxxxxxxxxxxx\r\n0\r\n\r\n");

    let mut out = Vec::new();
    let mut close = Encoder::CloseDelimited;
    assert_eq!(close.encode(b"abc", &mut out), Ok(()));
    assert!(!close.end(&mut out));
    assert_eq!(out, b"abc");
}

#[test]
fn bodies_go_out_and_come_back() {
    let chunks: [&[u8]; 4] = [b"foo", b"", b" bar baz", &[0u8; 300]];
    let mut wire = Vec::new();
    let mut encoder = Encoder::Chunked;
    let mut total = 0;
    for c in chunks {
        encoder.encode(c, &mut wire).unwrap();
        total += c.len();
    }
    encoder.end(&mut wire);
    let wire_len = wire.len();
    wire.extend(b"GET /next");
    let mut buf = buffer_with(&wire, 1024, 1024);
    let mut decoder = Decoder::chunked();
    let mut body = Vec::new();
    let mut lengths = 0;
    loop {
        match decoder.decode(&mut buf, 16).unwrap() {
            Decode::Data(d) => {
                assert!(d.len() <= 16 && !d.is_empty());
                lengths += d.len();
                body.extend(d);
            }
            Decode::Done => break,
            Decode::NeedMore => {}
        }
    }
    assert_eq!(body, chunks.concat());
    assert_eq!(lengths, total);
    assert_eq!(buf.len(), wire.len() - wire_len);
    assert_eq!(buf.readable(), b"GET /next");
}

#[test]
fn request_is_taken_apart() {
    let head = parse_request(b"GET http://example.com:8080/a/b?c=d#e HTTP/1.1\r\nHost: x\r\n\r\n", 1024)
        .unwrap()
        .unwrap()
        .0;
    let request = Request::new(head);
    assert_eq!(request.method(), &Method::Get);
    assert_eq!(request.version(), &HttpVersion::Http11);
    assert_eq!(request.headers(), &headers(&[("host", "x")]));
    assert_eq!(request.uri(), &RequestUri::AbsoluteUri(b"http://example.com:8080/a/b?c=d#e".to_vec()));
    assert_eq!(request.path(), Some(b"/a/b".to_vec()));
    assert_eq!(request.query(), Some(b"c=d".to_vec()));
    let (method, uri, version, fields) = request.deconstruct();
    assert_eq!(method, Method::Get);
    assert_eq!(uri, RequestUri::AbsoluteUri(b"http://example.com:8080/a/b?c=d#e".to_vec()));
    assert_eq!(version, HttpVersion::Http11);
    assert_eq!(fields, headers(&[("host", "x")]));
}

#[test]
fn request_path_by_form_of_target() {
    let path_of = |target: &str| {
        let wire = format!("GET {} HTTP/1.1\r\n\r\n", target).into_bytes();
        let request = Request::new(parse_request(&wire, 1024).unwrap().unwrap().0);
        (request.path(), request.query())
    };
    assert_eq!(path_of("/a?b"), (Some(b"/a".to_vec()), Some(b"b".to_vec())));
    assert_eq!(path_of("/a"), (Some(b"/a".to_vec()), None));
    assert_eq!(path_of("*"), (None, None));
    assert_eq!(path_of("example.com:80"), (None, None));
    assert_eq!(path_of("http://h"), (Some(b"/".to_vec()), None));
    assert_eq!(path_of("http://h?q"), (Some(b"/".to_vec()), Some(b"q".to_vec())));
    assert_eq!(path_of("http://h/p#f?x"), (Some(b"/p".to_vec()), None));
    assert_eq!(path_of("http://h/a/../b/./c?x=%20"), (Some(b"/b/c".to_vec()), Some(b"x=%20".to_vec())));
    assert_eq!(path_of("a/b?c"), (None, None));
}

#[test]
fn response_is_built_up() {
    let response = Response::new();
    assert_eq!(response, Response::default());
    assert_eq!(response.head.subject, StatusCode(200));
    assert_eq!(response.head.version, HttpVersion::Http11);
    assert_eq!(response.head.headers, Headers::new());
    assert_eq!(response.body, None);

    let response = response
        .status(StatusCode(404))
        .headers(headers(&[("a", "1"), ("b", "2")]))
        .header(b"A".to_vec(), b"3".to_vec())
        .body(b"gone".to_vec());
    assert_eq!(response.head.subject, StatusCode(404));
    assert_eq!(response.head.headers, headers(&[("b", "2"), ("A", "3")]));
    let mut body = Body::empty();
    body.push(b"gone".to_vec());
    assert_eq!(response.body, Some(body.clone()));
    assert_eq!(IntoBody::into(body.clone()), body);
    assert_eq!(body.len(), 1);
    assert_eq!(body.clone().into_chunks(), vec![b"gone".to_vec()]);

    let head = response.head.clone();
    assert_eq!(
        response.into_frames(),
        vec![
            Frame::Message { message: head.clone(), body: true },
            Frame::Body { chunk: Some(b"gone".to_vec()) },
            Frame::Body { chunk: None },
        ]
    );
    let bare = Response::new().status(StatusCode(404)).headers(head.headers.clone());
    assert_eq!(bare.into_frames(), vec![Frame::Message { message: head, body: false }]);
}

#[test]
fn buffer_takes_writes_in_place() {
    let mut b = buffer_with(b"ab", 4, 16);
    b.consume(1);
    {
        let space = b.writable();
        assert_eq!(space.len(), 2);
        space[0] = b'c';
        space[1] = b'd';
    }
    assert_eq!(b.readable(), b"b");
    b.commit(1);
    assert_eq!(b.readable(), b"bc");
    b.commit(1);
    assert_eq!(b.readable(), b"bcd");
    assert_eq!(b.room(), 0);
    assert_eq!(b.writable().len(), 0);
}
