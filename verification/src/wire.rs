//! The wire format of message heads.
//!
//! A head goes out as its start line, one line for each header field and an
//! empty line, every line ended by CR LF.

use vstd::prelude::*;
use crate::buffer::{CR, LF};
use crate::chars::{append_bytes, hex_digit, spec_hex_digit, COLON, SP};
use crate::head::{
    HeaderView, Headers, HttpVersion, RequestHead, RequestHeadView, ResponseHead,
    ResponseHeadView,
};

verus! {

/// CR LF
pub open spec fn crlf() -> Seq<u8> {
    seq![CR, LF]
}

/// `HTTP/1.0` or `HTTP/1.1`
pub open spec fn version_bytes(v: HttpVersion) -> Seq<u8> {
    seq![
        'H' as u8,
        'T' as u8,
        'T' as u8,
        'P' as u8,
        '/' as u8,
        '1' as u8,
        '.' as u8,
        match v {
            HttpVersion::Http10 => '0' as u8,
            HttpVersion::Http11 => '1' as u8,
        },
    ]
}

/// The three digits of a status below 1000.
pub open spec fn status_digits(code: u16) -> Seq<u8> {
    seq![(48 + code / 100 % 10) as u8, (48 + code / 10 % 10) as u8, (48 + code % 10) as u8]
}

/// The phrase `Unknown`, for a status that has none of its own.
pub open spec fn phrase_unknown() -> Seq<u8> {
    seq!['U' as u8, 'n' as u8, 'k' as u8, 'n' as u8, 'o' as u8, 'w' as u8, 'n' as u8]
}

/// `Continue`
pub open spec fn phrase_100() -> Seq<u8> {
    seq![
        'C' as u8, 'o' as u8, 'n' as u8, 't' as u8, 'i' as u8, 'n' as u8, 'u' as u8, 'e' as u8,
    ]
}

/// `Switching Protocols`
pub open spec fn phrase_101() -> Seq<u8> {
    seq![
        'S' as u8, 'w' as u8, 'i' as u8, 't' as u8, 'c' as u8, 'h' as u8, 'i' as u8, 'n' as u8,
        'g' as u8, ' ' as u8, 'P' as u8, 'r' as u8, 'o' as u8, 't' as u8, 'o' as u8, 'c' as u8,
        'o' as u8, 'l' as u8, 's' as u8,
    ]
}

/// `OK`
pub open spec fn phrase_200() -> Seq<u8> {
    seq![
        'O' as u8, 'K' as u8,
    ]
}

/// `Created`
pub open spec fn phrase_201() -> Seq<u8> {
    seq![
        'C' as u8, 'r' as u8, 'e' as u8, 'a' as u8, 't' as u8, 'e' as u8, 'd' as u8,
    ]
}

/// `Accepted`
pub open spec fn phrase_202() -> Seq<u8> {
    seq![
        'A' as u8, 'c' as u8, 'c' as u8, 'e' as u8, 'p' as u8, 't' as u8, 'e' as u8, 'd' as u8,
    ]
}

/// `No Content`
pub open spec fn phrase_204() -> Seq<u8> {
    seq![
        'N' as u8, 'o' as u8, ' ' as u8, 'C' as u8, 'o' as u8, 'n' as u8, 't' as u8, 'e' as u8,
        'n' as u8, 't' as u8,
    ]
}

/// `Partial Content`
pub open spec fn phrase_206() -> Seq<u8> {
    seq![
        'P' as u8, 'a' as u8, 'r' as u8, 't' as u8, 'i' as u8, 'a' as u8, 'l' as u8, ' ' as u8,
        'C' as u8, 'o' as u8, 'n' as u8, 't' as u8, 'e' as u8, 'n' as u8, 't' as u8,
    ]
}

/// `Moved Permanently`
pub open spec fn phrase_301() -> Seq<u8> {
    seq![
        'M' as u8, 'o' as u8, 'v' as u8, 'e' as u8, 'd' as u8, ' ' as u8, 'P' as u8, 'e' as u8,
        'r' as u8, 'm' as u8, 'a' as u8, 'n' as u8, 'e' as u8, 'n' as u8, 't' as u8, 'l' as u8,
        'y' as u8,
    ]
}

/// `Found`
pub open spec fn phrase_302() -> Seq<u8> {
    seq![
        'F' as u8, 'o' as u8, 'u' as u8, 'n' as u8, 'd' as u8,
    ]
}

/// `See Other`
pub open spec fn phrase_303() -> Seq<u8> {
    seq![
        'S' as u8, 'e' as u8, 'e' as u8, ' ' as u8, 'O' as u8, 't' as u8, 'h' as u8, 'e' as u8,
        'r' as u8,
    ]
}

/// `Not Modified`
pub open spec fn phrase_304() -> Seq<u8> {
    seq![
        'N' as u8, 'o' as u8, 't' as u8, ' ' as u8, 'M' as u8, 'o' as u8, 'd' as u8, 'i' as u8,
        'f' as u8, 'i' as u8, 'e' as u8, 'd' as u8,
    ]
}

/// `Temporary Redirect`
pub open spec fn phrase_307() -> Seq<u8> {
    seq![
        'T' as u8, 'e' as u8, 'm' as u8, 'p' as u8, 'o' as u8, 'r' as u8, 'a' as u8, 'r' as u8,
        'y' as u8, ' ' as u8, 'R' as u8, 'e' as u8, 'd' as u8, 'i' as u8, 'r' as u8, 'e' as u8,
        'c' as u8, 't' as u8,
    ]
}

/// `Bad Request`
pub open spec fn phrase_400() -> Seq<u8> {
    seq![
        'B' as u8, 'a' as u8, 'd' as u8, ' ' as u8, 'R' as u8, 'e' as u8, 'q' as u8, 'u' as u8,
        'e' as u8, 's' as u8, 't' as u8,
    ]
}

/// `Unauthorized`
pub open spec fn phrase_401() -> Seq<u8> {
    seq![
        'U' as u8, 'n' as u8, 'a' as u8, 'u' as u8, 't' as u8, 'h' as u8, 'o' as u8, 'r' as u8,
        'i' as u8, 'z' as u8, 'e' as u8, 'd' as u8,
    ]
}

/// `Forbidden`
pub open spec fn phrase_403() -> Seq<u8> {
    seq![
        'F' as u8, 'o' as u8, 'r' as u8, 'b' as u8, 'i' as u8, 'd' as u8, 'd' as u8, 'e' as u8,
        'n' as u8,
    ]
}

/// `Not Found`
pub open spec fn phrase_404() -> Seq<u8> {
    seq![
        'N' as u8, 'o' as u8, 't' as u8, ' ' as u8, 'F' as u8, 'o' as u8, 'u' as u8, 'n' as u8,
        'd' as u8,
    ]
}

/// `Method Not Allowed`
pub open spec fn phrase_405() -> Seq<u8> {
    seq![
        'M' as u8, 'e' as u8, 't' as u8, 'h' as u8, 'o' as u8, 'd' as u8, ' ' as u8, 'N' as u8,
        'o' as u8, 't' as u8, ' ' as u8, 'A' as u8, 'l' as u8, 'l' as u8, 'o' as u8, 'w' as u8,
        'e' as u8, 'd' as u8,
    ]
}

/// `Request Timeout`
pub open spec fn phrase_408() -> Seq<u8> {
    seq![
        'R' as u8, 'e' as u8, 'q' as u8, 'u' as u8, 'e' as u8, 's' as u8, 't' as u8, ' ' as u8,
        'T' as u8, 'i' as u8, 'm' as u8, 'e' as u8, 'o' as u8, 'u' as u8, 't' as u8,
    ]
}

/// `Length Required`
pub open spec fn phrase_411() -> Seq<u8> {
    seq![
        'L' as u8, 'e' as u8, 'n' as u8, 'g' as u8, 't' as u8, 'h' as u8, ' ' as u8, 'R' as u8,
        'e' as u8, 'q' as u8, 'u' as u8, 'i' as u8, 'r' as u8, 'e' as u8, 'd' as u8,
    ]
}

/// `Payload Too Large`
pub open spec fn phrase_413() -> Seq<u8> {
    seq![
        'P' as u8, 'a' as u8, 'y' as u8, 'l' as u8, 'o' as u8, 'a' as u8, 'd' as u8, ' ' as u8,
        'T' as u8, 'o' as u8, 'o' as u8, ' ' as u8, 'L' as u8, 'a' as u8, 'r' as u8, 'g' as u8,
        'e' as u8,
    ]
}

/// `Internal Server Error`
pub open spec fn phrase_500() -> Seq<u8> {
    seq![
        'I' as u8, 'n' as u8, 't' as u8, 'e' as u8, 'r' as u8, 'n' as u8, 'a' as u8, 'l' as u8,
        ' ' as u8, 'S' as u8, 'e' as u8, 'r' as u8, 'v' as u8, 'e' as u8, 'r' as u8, ' ' as u8,
        'E' as u8, 'r' as u8, 'r' as u8, 'o' as u8, 'r' as u8,
    ]
}

/// `Not Implemented`
pub open spec fn phrase_501() -> Seq<u8> {
    seq![
        'N' as u8, 'o' as u8, 't' as u8, ' ' as u8, 'I' as u8, 'm' as u8, 'p' as u8, 'l' as u8,
        'e' as u8, 'm' as u8, 'e' as u8, 'n' as u8, 't' as u8, 'e' as u8, 'd' as u8,
    ]
}

/// `Bad Gateway`
pub open spec fn phrase_502() -> Seq<u8> {
    seq![
        'B' as u8, 'a' as u8, 'd' as u8, ' ' as u8, 'G' as u8, 'a' as u8, 't' as u8, 'e' as u8,
        'w' as u8, 'a' as u8, 'y' as u8,
    ]
}

/// `Service Unavailable`
pub open spec fn phrase_503() -> Seq<u8> {
    seq![
        'S' as u8, 'e' as u8, 'r' as u8, 'v' as u8, 'i' as u8, 'c' as u8, 'e' as u8, ' ' as u8,
        'U' as u8, 'n' as u8, 'a' as u8, 'v' as u8, 'a' as u8, 'i' as u8, 'l' as u8, 'a' as u8,
        'b' as u8, 'l' as u8, 'e' as u8,
    ]
}

/// `HTTP Version Not Supported`
pub open spec fn phrase_505() -> Seq<u8> {
    seq![
        'H' as u8, 'T' as u8, 'T' as u8, 'P' as u8, ' ' as u8, 'V' as u8, 'e' as u8, 'r' as u8,
        's' as u8, 'i' as u8, 'o' as u8, 'n' as u8, ' ' as u8, 'N' as u8, 'o' as u8, 't' as u8,
        ' ' as u8, 'S' as u8, 'u' as u8, 'p' as u8, 'p' as u8, 'o' as u8, 'r' as u8, 't' as u8,
        'e' as u8, 'd' as u8,
    ]
}

/// The reason phrase that goes with a status.
pub open spec fn reason_phrase(code: u16) -> Seq<u8> {
    if code == 100 {
        phrase_100()
    }     else if code == 101 {
        phrase_101()
    }     else if code == 200 {
        phrase_200()
    }     else if code == 201 {
        phrase_201()
    }     else if code == 202 {
        phrase_202()
    }     else if code == 204 {
        phrase_204()
    }     else if code == 206 {
        phrase_206()
    }     else if code == 301 {
        phrase_301()
    }     else if code == 302 {
        phrase_302()
    }     else if code == 303 {
        phrase_303()
    }     else if code == 304 {
        phrase_304()
    }     else if code == 307 {
        phrase_307()
    }     else if code == 400 {
        phrase_400()
    }     else if code == 401 {
        phrase_401()
    }     else if code == 403 {
        phrase_403()
    }     else if code == 404 {
        phrase_404()
    }     else if code == 405 {
        phrase_405()
    }     else if code == 408 {
        phrase_408()
    }     else if code == 411 {
        phrase_411()
    }     else if code == 413 {
        phrase_413()
    }     else if code == 500 {
        phrase_500()
    }     else if code == 501 {
        phrase_501()
    }     else if code == 502 {
        phrase_502()
    }     else if code == 503 {
        phrase_503()
    }     else if code == 505 {
        phrase_505()
    } else {
        phrase_unknown()
    }
}

/// The line of one header field.
pub open spec fn header_wire(h: HeaderView) -> Seq<u8> {
    h.name + seq![COLON, SP] + h.value + crlf()
}

/// The lines of the header fields, in their order.
pub open spec fn headers_wire(hs: Seq<HeaderView>) -> Seq<u8>
    decreases hs.len(),
{
    if hs.len() == 0 {
        Seq::empty()
    } else {
        headers_wire(hs.drop_last()) + header_wire(hs.last())
    }
}

/// The request line.
pub open spec fn request_line_wire(h: RequestHeadView) -> Seq<u8> {
    h.subject.method + seq![SP] + h.subject.target + seq![SP] + version_bytes(h.version) + crlf()
}

/// The status line.
pub open spec fn status_line_wire(h: ResponseHeadView) -> Seq<u8> {
    version_bytes(h.version) + seq![SP] + status_digits(h.subject) + seq![SP] + reason_phrase(
        h.subject,
    ) + crlf()
}

/// The head of a request as it goes out.
pub open spec fn request_wire(h: RequestHeadView) -> Seq<u8> {
    request_line_wire(h) + headers_wire(h.headers) + crlf()
}

/// The head of a response as it goes out.
pub open spec fn response_wire(h: ResponseHeadView) -> Seq<u8> {
    status_line_wire(h) + headers_wire(h.headers) + crlf()
}

/// The hexadecimal digits of `n`, upper case, without leading zeros.
pub open spec fn hex_digits(n: nat) -> Seq<u8>
    decreases n,
{
    if n < 16 {
        seq![spec_hex_digit(n as u8)]
    } else {
        hex_digits(n / 16).push(spec_hex_digit((n % 16) as u8))
    }
}

/// Appends the hexadecimal digits of `n`.
pub fn push_hex(out: &mut Vec<u8>, n: u64)
    ensures
        final(out)@ == old(out)@ + hex_digits(n as nat),
    decreases n,
{
    if n >= 16 {
        push_hex(out, n / 16);
    }
    out.push(hex_digit((n % 16) as u8));
}

/// Appends CR LF.
pub fn push_crlf(out: &mut Vec<u8>)
    ensures
        final(out)@ == old(out)@ + crlf(),
{
    out.push(CR);
    out.push(LF);
}

/// Appends `HTTP/1.0` or `HTTP/1.1`.
pub fn push_version(out: &mut Vec<u8>, v: HttpVersion)
    ensures
        final(out)@ == old(out)@ + version_bytes(v),
{
    out.push('H' as u8);
    out.push('T' as u8);
    out.push('T' as u8);
    out.push('P' as u8);
    out.push('/' as u8);
    out.push('1' as u8);
    out.push('.' as u8);
    match v {
        HttpVersion::Http10 => out.push('0' as u8),
        HttpVersion::Http11 => out.push('1' as u8),
    }
}

/// The reason phrase that goes with a status.
pub fn canonical_reason(code: u16) -> (v: Vec<u8>)
    ensures
        v@ == reason_phrase(code),
{
    if code == 100 {
        vec![
            'C' as u8, 'o' as u8, 'n' as u8, 't' as u8, 'i' as u8, 'n' as u8, 'u' as u8,
            'e' as u8,
        ]
    }     else if code == 101 {
        vec![
            'S' as u8, 'w' as u8, 'i' as u8, 't' as u8, 'c' as u8, 'h' as u8, 'i' as u8,
            'n' as u8, 'g' as u8, ' ' as u8, 'P' as u8, 'r' as u8, 'o' as u8, 't' as u8,
            'o' as u8, 'c' as u8, 'o' as u8, 'l' as u8, 's' as u8,
        ]
    }     else if code == 200 {
        vec![
            'O' as u8, 'K' as u8,
        ]
    }     else if code == 201 {
        vec![
            'C' as u8, 'r' as u8, 'e' as u8, 'a' as u8, 't' as u8, 'e' as u8, 'd' as u8,
        ]
    }     else if code == 202 {
        vec![
            'A' as u8, 'c' as u8, 'c' as u8, 'e' as u8, 'p' as u8, 't' as u8, 'e' as u8,
            'd' as u8,
        ]
    }     else if code == 204 {
        vec![
            'N' as u8, 'o' as u8, ' ' as u8, 'C' as u8, 'o' as u8, 'n' as u8, 't' as u8,
            'e' as u8, 'n' as u8, 't' as u8,
        ]
    }     else if code == 206 {
        vec![
            'P' as u8, 'a' as u8, 'r' as u8, 't' as u8, 'i' as u8, 'a' as u8, 'l' as u8,
            ' ' as u8, 'C' as u8, 'o' as u8, 'n' as u8, 't' as u8, 'e' as u8, 'n' as u8,
            't' as u8,
        ]
    }     else if code == 301 {
        vec![
            'M' as u8, 'o' as u8, 'v' as u8, 'e' as u8, 'd' as u8, ' ' as u8, 'P' as u8,
            'e' as u8, 'r' as u8, 'm' as u8, 'a' as u8, 'n' as u8, 'e' as u8, 'n' as u8,
            't' as u8, 'l' as u8, 'y' as u8,
        ]
    }     else if code == 302 {
        vec![
            'F' as u8, 'o' as u8, 'u' as u8, 'n' as u8, 'd' as u8,
        ]
    }     else if code == 303 {
        vec![
            'S' as u8, 'e' as u8, 'e' as u8, ' ' as u8, 'O' as u8, 't' as u8, 'h' as u8,
            'e' as u8, 'r' as u8,
        ]
    }     else if code == 304 {
        vec![
            'N' as u8, 'o' as u8, 't' as u8, ' ' as u8, 'M' as u8, 'o' as u8, 'd' as u8,
            'i' as u8, 'f' as u8, 'i' as u8, 'e' as u8, 'd' as u8,
        ]
    }     else if code == 307 {
        vec![
            'T' as u8, 'e' as u8, 'm' as u8, 'p' as u8, 'o' as u8, 'r' as u8, 'a' as u8,
            'r' as u8, 'y' as u8, ' ' as u8, 'R' as u8, 'e' as u8, 'd' as u8, 'i' as u8,
            'r' as u8, 'e' as u8, 'c' as u8, 't' as u8,
        ]
    }     else if code == 400 {
        vec![
            'B' as u8, 'a' as u8, 'd' as u8, ' ' as u8, 'R' as u8, 'e' as u8, 'q' as u8,
            'u' as u8, 'e' as u8, 's' as u8, 't' as u8,
        ]
    }     else if code == 401 {
        vec![
            'U' as u8, 'n' as u8, 'a' as u8, 'u' as u8, 't' as u8, 'h' as u8, 'o' as u8,
            'r' as u8, 'i' as u8, 'z' as u8, 'e' as u8, 'd' as u8,
        ]
    }     else if code == 403 {
        vec![
            'F' as u8, 'o' as u8, 'r' as u8, 'b' as u8, 'i' as u8, 'd' as u8, 'd' as u8,
            'e' as u8, 'n' as u8,
        ]
    }     else if code == 404 {
        vec![
            'N' as u8, 'o' as u8, 't' as u8, ' ' as u8, 'F' as u8, 'o' as u8, 'u' as u8,
            'n' as u8, 'd' as u8,
        ]
    }     else if code == 405 {
        vec![
            'M' as u8, 'e' as u8, 't' as u8, 'h' as u8, 'o' as u8, 'd' as u8, ' ' as u8,
            'N' as u8, 'o' as u8, 't' as u8, ' ' as u8, 'A' as u8, 'l' as u8, 'l' as u8,
            'o' as u8, 'w' as u8, 'e' as u8, 'd' as u8,
        ]
    }     else if code == 408 {
        vec![
            'R' as u8, 'e' as u8, 'q' as u8, 'u' as u8, 'e' as u8, 's' as u8, 't' as u8,
            ' ' as u8, 'T' as u8, 'i' as u8, 'm' as u8, 'e' as u8, 'o' as u8, 'u' as u8,
            't' as u8,
        ]
    }     else if code == 411 {
        vec![
            'L' as u8, 'e' as u8, 'n' as u8, 'g' as u8, 't' as u8, 'h' as u8, ' ' as u8,
            'R' as u8, 'e' as u8, 'q' as u8, 'u' as u8, 'i' as u8, 'r' as u8, 'e' as u8,
            'd' as u8,
        ]
    }     else if code == 413 {
        vec![
            'P' as u8, 'a' as u8, 'y' as u8, 'l' as u8, 'o' as u8, 'a' as u8, 'd' as u8,
            ' ' as u8, 'T' as u8, 'o' as u8, 'o' as u8, ' ' as u8, 'L' as u8, 'a' as u8,
            'r' as u8, 'g' as u8, 'e' as u8,
        ]
    }     else if code == 500 {
        vec![
            'I' as u8, 'n' as u8, 't' as u8, 'e' as u8, 'r' as u8, 'n' as u8, 'a' as u8,
            'l' as u8, ' ' as u8, 'S' as u8, 'e' as u8, 'r' as u8, 'v' as u8, 'e' as u8,
            'r' as u8, ' ' as u8, 'E' as u8, 'r' as u8, 'r' as u8, 'o' as u8, 'r' as u8,
        ]
    }     else if code == 501 {
        vec![
            'N' as u8, 'o' as u8, 't' as u8, ' ' as u8, 'I' as u8, 'm' as u8, 'p' as u8,
            'l' as u8, 'e' as u8, 'm' as u8, 'e' as u8, 'n' as u8, 't' as u8, 'e' as u8,
            'd' as u8,
        ]
    }     else if code == 502 {
        vec![
            'B' as u8, 'a' as u8, 'd' as u8, ' ' as u8, 'G' as u8, 'a' as u8, 't' as u8,
            'e' as u8, 'w' as u8, 'a' as u8, 'y' as u8,
        ]
    }     else if code == 503 {
        vec![
            'S' as u8, 'e' as u8, 'r' as u8, 'v' as u8, 'i' as u8, 'c' as u8, 'e' as u8,
            ' ' as u8, 'U' as u8, 'n' as u8, 'a' as u8, 'v' as u8, 'a' as u8, 'i' as u8,
            'l' as u8, 'a' as u8, 'b' as u8, 'l' as u8, 'e' as u8,
        ]
    }     else if code == 505 {
        vec![
            'H' as u8, 'T' as u8, 'T' as u8, 'P' as u8, ' ' as u8, 'V' as u8, 'e' as u8,
            'r' as u8, 's' as u8, 'i' as u8, 'o' as u8, 'n' as u8, ' ' as u8, 'N' as u8,
            'o' as u8, 't' as u8, ' ' as u8, 'S' as u8, 'u' as u8, 'p' as u8, 'p' as u8,
            'o' as u8, 'r' as u8, 't' as u8, 'e' as u8, 'd' as u8,
        ]
    } else {
        vec!['U' as u8, 'n' as u8, 'k' as u8, 'n' as u8, 'o' as u8, 'w' as u8, 'n' as u8]
    }
}

/// Appends the lines of the header fields.
pub fn push_headers(out: &mut Vec<u8>, headers: &Headers)
    ensures
        final(out)@ == old(out)@ + headers_wire(headers@),
{
    let mut i: usize = 0;
    while i < headers.len()
        invariant
            i <= headers@.len(),
            out@ == old(out)@ + headers_wire(headers@.take(i as int)),
        decreases headers@.len() - i,
    {
        append_bytes(out, headers.name_at(i).as_slice());
        out.push(COLON);
        out.push(SP);
        append_bytes(out, headers.value_at(i).as_slice());
        push_crlf(out);
        proof {
            assert(headers@.take(i + 1).drop_last() =~= headers@.take(i as int));
        }
        i = i + 1;
    }
    assert(headers@.take(headers@.len() as int) =~= headers@);
}

/// Appends the head of a request as it goes out.
pub fn encode_request(head: &RequestHead, out: &mut Vec<u8>)
    ensures
        final(out)@ == old(out)@ + request_wire(head@),
{
    let method = head.subject.0.to_bytes();
    let target = head.subject.1.to_bytes();
    append_bytes(out, method.as_slice());
    out.push(SP);
    append_bytes(out, target.as_slice());
    out.push(SP);
    push_version(out, head.version);
    push_crlf(out);
    push_headers(out, &head.headers);
    push_crlf(out);
}

/// Appends the head of a response as it goes out.
pub fn encode_response(head: &ResponseHead, out: &mut Vec<u8>)
    requires
        head.subject.0 < 1000,
    ensures
        final(out)@ == old(out)@ + response_wire(head@),
{
    let code: u16 = head.subject.0;
    push_version(out, head.version);
    out.push(SP);
    out.push((48 + code / 100 % 10) as u8);
    out.push((48 + code / 10 % 10) as u8);
    out.push((48 + code % 10) as u8);
    out.push(SP);
    let reason = canonical_reason(code);
    append_bytes(out, reason.as_slice());
    push_crlf(out);
    push_headers(out, &head.headers);
    push_crlf(out);
}

} // verus!
