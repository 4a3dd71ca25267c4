//! Framing: which decoder a head calls for, which encoder a response goes
//! out with, and whether the connection may be used again.

use vstd::prelude::*;
use vstd::slice::slice_subrange;
use crate::chars::{
    bytes_eq_ignore_case, eq_ignore_case, is_digit, is_ws, spec_is_digit, spec_is_ws, COMMA,
};
use crate::decode::{chunked_start, Decoder};
use crate::encode::Encoder;
use crate::error::Error;
use crate::head::{values_of, HeaderView, Headers, HttpVersion};

verus! {

/// `transfer-encoding`
pub open spec fn transfer_encoding() -> Seq<u8> {
    seq![
        't' as u8, 'r' as u8, 'a' as u8, 'n' as u8, 's' as u8, 'f' as u8, 'e' as u8, 'r' as u8,
        '-' as u8, 'e' as u8, 'n' as u8, 'c' as u8, 'o' as u8, 'd' as u8, 'i' as u8, 'n' as u8,
        'g' as u8,
    ]
}

/// `transfer-encoding`
pub fn transfer_encoding_bytes() -> (v: Vec<u8>)
    ensures
        v@ == transfer_encoding(),
{
    vec![
        't' as u8, 'r' as u8, 'a' as u8, 'n' as u8, 's' as u8, 'f' as u8, 'e' as u8, 'r' as u8,
        '-' as u8, 'e' as u8, 'n' as u8, 'c' as u8, 'o' as u8, 'd' as u8, 'i' as u8, 'n' as u8,
        'g' as u8,
    ]
}

/// `content-length`
pub open spec fn content_length_name() -> Seq<u8> {
    seq![
        'c' as u8, 'o' as u8, 'n' as u8, 't' as u8, 'e' as u8, 'n' as u8, 't' as u8, '-' as u8,
        'l' as u8, 'e' as u8, 'n' as u8, 'g' as u8, 't' as u8, 'h' as u8,
    ]
}

/// `content-length`
pub fn content_length_name_bytes() -> (v: Vec<u8>)
    ensures
        v@ == content_length_name(),
{
    vec![
        'c' as u8, 'o' as u8, 'n' as u8, 't' as u8, 'e' as u8, 'n' as u8, 't' as u8, '-' as u8,
        'l' as u8, 'e' as u8, 'n' as u8, 'g' as u8, 't' as u8, 'h' as u8,
    ]
}

/// `connection`
pub open spec fn connection() -> Seq<u8> {
    seq![
        'c' as u8, 'o' as u8, 'n' as u8, 'n' as u8, 'e' as u8, 'c' as u8, 't' as u8, 'i' as u8,
        'o' as u8, 'n' as u8,
    ]
}

/// `connection`
pub fn connection_bytes() -> (v: Vec<u8>)
    ensures
        v@ == connection(),
{
    vec![
        'c' as u8, 'o' as u8, 'n' as u8, 'n' as u8, 'e' as u8, 'c' as u8, 't' as u8, 'i' as u8,
        'o' as u8, 'n' as u8,
    ]
}

/// `chunked`
pub open spec fn chunked() -> Seq<u8> {
    seq![
        'c' as u8, 'h' as u8, 'u' as u8, 'n' as u8, 'k' as u8, 'e' as u8, 'd' as u8,
    ]
}

/// `chunked`
pub fn chunked_bytes() -> (v: Vec<u8>)
    ensures
        v@ == chunked(),
{
    vec![
        'c' as u8, 'h' as u8, 'u' as u8, 'n' as u8, 'k' as u8, 'e' as u8, 'd' as u8,
    ]
}

/// `close`
pub open spec fn close() -> Seq<u8> {
    seq![
        'c' as u8, 'l' as u8, 'o' as u8, 's' as u8, 'e' as u8,
    ]
}

/// `close`
pub fn close_bytes() -> (v: Vec<u8>)
    ensures
        v@ == close(),
{
    vec![
        'c' as u8, 'l' as u8, 'o' as u8, 's' as u8, 'e' as u8,
    ]
}

/// `keep-alive`
pub open spec fn keep_alive() -> Seq<u8> {
    seq![
        'k' as u8, 'e' as u8, 'e' as u8, 'p' as u8, '-' as u8, 'a' as u8, 'l' as u8, 'i' as u8,
        'v' as u8, 'e' as u8,
    ]
}

/// `keep-alive`
pub fn keep_alive_bytes() -> (v: Vec<u8>)
    ensures
        v@ == keep_alive(),
{
    vec![
        'k' as u8, 'e' as u8, 'e' as u8, 'p' as u8, '-' as u8, 'a' as u8, 'l' as u8, 'i' as u8,
        'v' as u8, 'e' as u8,
    ]
}

/// `Transfer-Encoding`
pub open spec fn transfer_encoding_sent() -> Seq<u8> {
    seq![
        'T' as u8, 'r' as u8, 'a' as u8, 'n' as u8, 's' as u8, 'f' as u8, 'e' as u8, 'r' as u8,
        '-' as u8, 'E' as u8, 'n' as u8, 'c' as u8, 'o' as u8, 'd' as u8, 'i' as u8, 'n' as u8,
        'g' as u8,
    ]
}

/// `Transfer-Encoding`
pub fn transfer_encoding_sent_bytes() -> (v: Vec<u8>)
    ensures
        v@ == transfer_encoding_sent(),
{
    vec![
        'T' as u8, 'r' as u8, 'a' as u8, 'n' as u8, 's' as u8, 'f' as u8, 'e' as u8, 'r' as u8,
        '-' as u8, 'E' as u8, 'n' as u8, 'c' as u8, 'o' as u8, 'd' as u8, 'i' as u8, 'n' as u8,
        'g' as u8,
    ]
}

/// Every byte of `s` is a decimal digit.
pub open spec fn all_digits(s: Seq<u8>) -> bool {
    forall|i: int| 0 <= i < s.len() ==> spec_is_digit(#[trigger] s[i])
}

/// The number that the decimal digits `s` write.
pub open spec fn decimal_value(s: Seq<u8>) -> nat
    decreases s.len(),
{
    if s.len() == 0 {
        0
    } else {
        decimal_value(s.drop_last()) * 10 + (s.last() - 48) as nat
    }
}

/// The number that `s` writes, if `s` is made of decimal digits, at least
/// one, and the number fits in 64 bits.
pub open spec fn decimal(s: Seq<u8>) -> Option<u64> {
    if s.len() > 0 && all_digits(s) && decimal_value(s) <= u64::MAX {
        Some(decimal_value(s) as u64)
    } else {
        None
    }
}

/// More digits write no smaller a number.
pub proof fn lemma_decimal_grows(s: Seq<u8>, n: int)
    requires
        all_digits(s),
        0 <= n <= s.len(),
    ensures
        decimal_value(s.take(n)) <= decimal_value(s),
    decreases s.len() - n,
{
    if n == s.len() {
        assert(s.take(n) =~= s);
    } else {
        lemma_decimal_grows(s, n + 1);
        assert(s.take(n + 1).drop_last() =~= s.take(n));
    }
}

/// Reads a decimal number.
pub fn parse_decimal(s: &[u8]) -> (r: Option<u64>)
    ensures
        r == decimal(s@),
{
    if s.len() == 0 {
        return None;
    }
    let mut acc: u64 = 0;
    let mut i: usize = 0;
    while i < s.len()
        invariant
            i <= s@.len(),
            all_digits(s@.take(i as int)),
            acc == decimal_value(s@.take(i as int)),
        decreases s@.len() - i,
    {
        let b: u8 = s[i];
        proof {
            assert(s@.take(i + 1).drop_last() =~= s@.take(i as int));
        }
        if !is_digit(b) {
            return None;
        }
        let d: u64 = (b - 48) as u64;
        if acc > (u64::MAX - d) / 10 {
            proof {
                if all_digits(s@) {
                    lemma_decimal_grows(s@, i + 1);
                }
            }
            return None;
        }
        acc = acc * 10 + d;
        i = i + 1;
    }
    assert(s@.take(s@.len() as int) =~= s@);
    Some(acc)
}

/// `v` cut at its commas.
pub open spec fn split_commas(v: Seq<u8>) -> Seq<Seq<u8>>
    decreases v.len(),
{
    if v.len() == 0 {
        seq![Seq::<u8>::empty()]
    } else {
        let p = split_commas(v.drop_last());
        if v.last() == COMMA {
            p.push(Seq::<u8>::empty())
        } else {
            p.drop_last().push(p.last().push(v.last()))
        }
    }
}

/// `s` without the whitespace at its end.
pub open spec fn trim_end(s: Seq<u8>) -> Seq<u8>
    decreases s.len(),
{
    if s.len() > 0 && spec_is_ws(s.last()) {
        trim_end(s.drop_last())
    } else {
        s
    }
}

/// `s` without the whitespace at its start.
pub open spec fn trim_start(s: Seq<u8>) -> Seq<u8>
    decreases s.len(),
{
    if s.len() > 0 && spec_is_ws(s[0]) {
        trim_start(s.skip(1))
    } else {
        s
    }
}

/// `s` without the whitespace at either end.
pub open spec fn trim(s: Seq<u8>) -> Seq<u8> {
    trim_start(trim_end(s))
}

/// Whether one of `es`, trimmed, is `token`, whatever the case of its
/// letters.
pub open spec fn has_match(es: Seq<Seq<u8>>, token: Seq<u8>) -> bool
    decreases es.len(),
{
    es.len() > 0 && (has_match(es.drop_last(), token) || eq_ignore_case(trim(es.last()), token))
}

/// Whether `token` is an element of the comma-separated list `v`.
pub open spec fn has_element(v: Seq<u8>, token: Seq<u8>) -> bool {
    has_match(split_commas(v), token)
}

/// Whether `token` is the last element of the comma-separated list `v`.
pub open spec fn last_element_is(v: Seq<u8>, token: Seq<u8>) -> bool {
    eq_ignore_case(trim(split_commas(v).last()), token)
}

/// Whether `token` is an element of one of the lists `vs`.
pub open spec fn any_has_element(vs: Seq<Seq<u8>>, token: Seq<u8>) -> bool
    decreases vs.len(),
{
    vs.len() > 0 && (any_has_element(vs.drop_last(), token) || has_element(vs.last(), token))
}

/// Whether `s[lo..hi]`, trimmed, is `token`, whatever the case of its
/// letters.
fn part_is(s: &[u8], lo: usize, hi: usize, token: &[u8]) -> (r: bool)
    requires
        lo <= hi <= s@.len(),
    ensures
        r == eq_ignore_case(trim(s@.subrange(lo as int, hi as int)), token@),
{
    let mut b: usize = hi;
    while b > lo && is_ws(s[b - 1])
        invariant
            lo <= b <= hi <= s@.len(),
            trim_end(s@.subrange(lo as int, hi as int)) == trim_end(
                s@.subrange(lo as int, b as int),
            ),
        decreases b,
    {
        assert(s@.subrange(lo as int, b as int).drop_last() =~= s@.subrange(
            lo as int,
            b - 1,
        ));
        b = b - 1;
    }
    let mut a: usize = lo;
    while a < b && is_ws(s[a])
        invariant
            lo <= a <= b <= s@.len(),
            trim_start(s@.subrange(lo as int, b as int)) == trim_start(
                s@.subrange(a as int, b as int),
            ),
        decreases b - a,
    {
        assert(s@.subrange(a as int, b as int).skip(1) =~= s@.subrange(a + 1, b as int));
        a = a + 1;
    }
    bytes_eq_ignore_case(slice_subrange(s, a, b), token)
}

/// Whether `token` is an element of the comma-separated list `v`, whatever
/// the case of its letters and the whitespace around it.
pub fn list_has(v: &[u8], token: &[u8]) -> (r: bool)
    ensures
        r == has_element(v@, token@),
{
    let mut start: usize = 0;
    let mut i: usize = 0;
    let mut found: bool = false;
    while i < v.len()
        invariant
            start <= i <= v@.len(),
            split_commas(v@.take(i as int)).len() > 0,
            split_commas(v@.take(i as int)).last() == v@.subrange(start as int, i as int),
            found == has_match(split_commas(v@.take(i as int)).drop_last(), token@),
        decreases v@.len() - i,
    {
        let ghost p = split_commas(v@.take(i as int));
        proof {
            assert(v@.take(i + 1).drop_last() =~= v@.take(i as int));
        }
        if v[i] == COMMA {
            if part_is(v, start, i, token) {
                found = true;
            }
            start = i + 1;
            proof {
                assert(p.push(Seq::<u8>::empty()).drop_last() =~= p);
            }
        } else {
            proof {
                let q = p.drop_last().push(p.last().push(v@[i as int]));
                assert(q.drop_last() =~= p.drop_last());
            }
        }
        i = i + 1;
    }
    assert(v@.take(v@.len() as int) =~= v@);
    if found {
        true
    } else {
        part_is(v, start, i, token)
    }
}

/// Whether `token` is the last element of the comma-separated list `v`,
/// whatever the case of its letters and the whitespace around it.
pub fn list_ends_with(v: &[u8], token: &[u8]) -> (r: bool)
    ensures
        r == last_element_is(v@, token@),
{
    let mut start: usize = 0;
    let mut i: usize = 0;
    while i < v.len()
        invariant
            start <= i <= v@.len(),
            split_commas(v@.take(i as int)).len() > 0,
            split_commas(v@.take(i as int)).last() == v@.subrange(start as int, i as int),
        decreases v@.len() - i,
    {
        proof {
            assert(v@.take(i + 1).drop_last() =~= v@.take(i as int));
        }
        if v[i] == COMMA {
            start = i + 1;
        }
        i = i + 1;
    }
    assert(v@.take(v@.len() as int) =~= v@);
    part_is(v, start, i, token)
}

/// Whether one of the `Connection` fields lists `token`.
pub open spec fn connection_has(hs: Seq<HeaderView>, token: Seq<u8>) -> bool {
    any_has_element(values_of(hs, connection()), token)
}

/// Whether one side lets the connection be used again, by what it sent:
/// with HTTP/1.1 unless it sent `Connection: close`, with HTTP/1.0 only if
/// it sent `Connection: keep-alive`. `version` is that of the request.
pub open spec fn permits_reuse(version: HttpVersion, hs: Seq<HeaderView>) -> bool {
    match version {
        HttpVersion::Http11 => !connection_has(hs, close()),
        HttpVersion::Http10 => connection_has(hs, keep_alive()),
    }
}

/// The length that the `Content-Length` fields give: none if there is no
/// such field, an error if one of them is no number or two of them differ.
pub open spec fn content_length(hs: Seq<HeaderView>) -> Result<Option<u64>, Error> {
    let vs = values_of(hs, content_length_name());
    if vs.len() == 0 {
        Ok(None)
    } else if decimal(vs[0]) is Some && (forall|i: int|
        0 <= i < vs.len() ==> decimal(#[trigger] vs[i]) == decimal(vs[0])) {
        Ok(decimal(vs[0]))
    } else {
        Err(Error::Framing)
    }
}

/// Whether there is a `Transfer-Encoding` field.
pub open spec fn has_transfer_encoding(hs: Seq<HeaderView>) -> bool {
    values_of(hs, transfer_encoding()).len() > 0
}

/// Whether the last coding that the `Transfer-Encoding` fields name is
/// `chunked`.
pub open spec fn ends_chunked(hs: Seq<HeaderView>) -> bool {
    has_transfer_encoding(hs) && last_element_is(
        values_of(hs, transfer_encoding()).last(),
        chunked(),
    )
}

/// The decoder for the body of a request.
///
/// With a `Transfer-Encoding`: chunked if that is its last coding, else an
/// error. Else with a `Content-Length`: that length, or an error if the
/// fields give none. Else no body.
pub open spec fn request_decoder_spec(hs: Seq<HeaderView>) -> Result<Decoder, Error> {
    if has_transfer_encoding(hs) {
        if ends_chunked(hs) {
            Ok(Decoder::Chunked(chunked_start()))
        } else {
            Err(Error::Framing)
        }
    } else {
        match content_length(hs) {
            Ok(Some(n)) => Ok(Decoder::Length(n)),
            Ok(None) => Ok(Decoder::Empty),
            Err(e) => Err(e),
        }
    }
}

/// Whether a response has no body whatever its fields say: the answer to a
/// `HEAD`, and any with status 1xx, 204 or 304.
pub open spec fn bodiless(head_request: bool, status: u16) -> bool {
    head_request || 100 <= status < 200 || status == 204 || status == 304
}

/// Whether a response has no body whatever its fields say.
pub fn is_bodiless(head_request: bool, status: u16) -> (r: bool)
    ensures
        r == bodiless(head_request, status),
{
    head_request || (100 <= status && status < 200) || status == 204 || status == 304
}

/// The decoder for the body of a response.
///
/// None where the response has no body. Else chunked if that is the last
/// coding of a `Transfer-Encoding`. Else with a `Content-Length`: that
/// length, or an error if the fields give none. Else the body runs to the
/// end of the transport.
pub open spec fn response_decoder_spec(head_request: bool, status: u16, hs: Seq<HeaderView>)
    -> Result<Decoder, Error> {
    if bodiless(head_request, status) {
        Ok(Decoder::Empty)
    } else if ends_chunked(hs) {
        Ok(Decoder::Chunked(chunked_start()))
    } else {
        match content_length(hs) {
            Ok(Some(n)) => Ok(Decoder::Length(n)),
            Ok(None) => Ok(Decoder::Eof(false)),
            Err(e) => Err(e),
        }
    }
}

/// Whether a response gets a `Transfer-Encoding: chunked` of the
/// connection's making: it has a body, says nothing of its framing, and
/// answers an HTTP/1.1 request.
pub open spec fn adds_chunked(hs: Seq<HeaderView>, version: HttpVersion, body: bool) -> bool {
    content_length(hs) == Ok::<Option<u64>, Error>(None) && !ends_chunked(hs) && body && version
        == HttpVersion::Http11
}

/// The encoder for the body of a response, from its fields as the sender
/// set them, the version of the request and whether a body follows.
///
/// With a `Content-Length`: that length (or an error if the fields give
/// none). Else chunked, if that is the last coding of a
/// `Transfer-Encoding`, or if a body follows and the request was HTTP/1.1.
/// Else one that the close of the connection ends.
pub open spec fn response_encoder_spec(hs: Seq<HeaderView>, version: HttpVersion, body: bool)
    -> Result<Encoder, Error> {
    match content_length(hs) {
        Err(e) => Err(e),
        Ok(Some(n)) => Ok(Encoder::Length(n)),
        Ok(None) => if ends_chunked(hs) || (body && version == HttpVersion::Http11) {
            Ok(Encoder::Chunked)
        } else {
            Ok(Encoder::CloseDelimited)
        },
    }
}

/// Whether one of the `Connection` fields lists `token`.
pub fn headers_connection_has(headers: &Headers, token: &[u8]) -> (r: bool)
    ensures
        r == connection_has(headers@, token@),
{
    let name = connection_bytes();
    let vs = headers.get_all(name.as_slice());
    let mut i: usize = 0;
    let mut found: bool = false;
    let ghost all = values_of(headers@, connection());
    while i < vs.len()
        invariant
            i <= vs@.len(),
            vs@.len() == all.len(),
            forall|k: int| 0 <= k < vs@.len() ==> (#[trigger] vs@[k])@ == all[k],
            found == any_has_element(all.take(i as int), token@),
        decreases vs@.len() - i,
    {
        proof {
            assert(all.take(i + 1).drop_last() =~= all.take(i as int));
        }
        if list_has(vs[i].as_slice(), token) {
            found = true;
        }
        i = i + 1;
    }
    assert(all.take(all.len() as int) =~= all);
    found
}

/// Whether one side lets the connection be used again, by what it sent.
pub fn headers_permit_reuse(version: HttpVersion, headers: &Headers) -> (r: bool)
    ensures
        r == permits_reuse(version, headers@),
{
    match version {
        HttpVersion::Http11 => !headers_connection_has(headers, close_bytes().as_slice()),
        HttpVersion::Http10 => headers_connection_has(headers, keep_alive_bytes().as_slice()),
    }
}

/// The length that the `Content-Length` fields give.
pub fn headers_content_length(headers: &Headers) -> (r: Result<Option<u64>, Error>)
    ensures
        r == content_length(headers@),
{
    let name = content_length_name_bytes();
    let vs = headers.get_all(name.as_slice());
    let ghost all = values_of(headers@, content_length_name());
    if vs.len() == 0 {
        return Ok(None);
    }
    let first = parse_decimal(vs[0].as_slice());
    match first {
        None => Err(Error::Framing),
        Some(n) => {
            let mut i: usize = 1;
            while i < vs.len()
                invariant
                    1 <= i <= vs@.len(),
                    vs@.len() == all.len(),
                    all == values_of(headers@, content_length_name()),
                    forall|k: int| 0 <= k < vs@.len() ==> (#[trigger] vs@[k])@ == all[k],
                    decimal(all[0]) == Some(n),
                    forall|k: int| 0 <= k < i ==> decimal(#[trigger] all[k]) == decimal(all[0]),
                decreases vs@.len() - i,
            {
                let other = parse_decimal(vs[i].as_slice());
                match other {
                    Some(m) => {
                        if m != n {
                            return Err(Error::Framing);
                        }
                    },
                    None => {
                        return Err(Error::Framing);
                    },
                }
                i = i + 1;
            }
            Ok(Some(n))
        },
    }
}

/// Whether the last coding that the `Transfer-Encoding` fields name is
/// `chunked`, and whether there is such a field at all.
pub fn headers_transfer_encoding(headers: &Headers) -> (r: (bool, bool))
    ensures
        r.0 == has_transfer_encoding(headers@),
        r.1 == ends_chunked(headers@),
{
    let name = transfer_encoding_bytes();
    let vs = headers.get_all(name.as_slice());
    if vs.len() == 0 {
        (false, false)
    } else {
        let last = vs.len() - 1;
        (true, list_ends_with(vs[last].as_slice(), chunked_bytes().as_slice()))
    }
}

/// The decoder for the body of a request with these fields.
pub fn request_decoder(headers: &Headers) -> (r: Result<Decoder, Error>)
    ensures
        r == request_decoder_spec(headers@),
{
    let (present, chunked) = headers_transfer_encoding(headers);
    if present {
        if chunked {
            Ok(Decoder::chunked())
        } else {
            Err(Error::Framing)
        }
    } else {
        match headers_content_length(headers) {
            Ok(Some(n)) => Ok(Decoder::Length(n)),
            Ok(None) => Ok(Decoder::Empty),
            Err(e) => Err(e),
        }
    }
}

/// The decoder for the body of a response with this status and these
/// fields; `head_request` says whether it answers a `HEAD`.
pub fn response_decoder(head_request: bool, status: u16, headers: &Headers) -> (r: Result<
    Decoder,
    Error,
>)
    ensures
        r == response_decoder_spec(head_request, status, headers@),
{
    if is_bodiless(head_request, status) {
        return Ok(Decoder::Empty);
    }
    let (_, chunked) = headers_transfer_encoding(headers);
    if chunked {
        Ok(Decoder::chunked())
    } else {
        match headers_content_length(headers) {
            Ok(Some(n)) => Ok(Decoder::Length(n)),
            Ok(None) => Ok(Decoder::Eof(false)),
            Err(e) => Err(e),
        }
    }
}

/// The encoder for the body of a response, and the `Transfer-Encoding:
/// chunked` that the response gets where it has a body, says nothing of its
/// framing and answers an HTTP/1.1 request.
pub fn response_encoder(headers: &mut Headers, version: HttpVersion, body: bool) -> (r: Result<
    Encoder,
    Error,
>)
    ensures
        r == response_encoder_spec(old(headers)@, version, body),
        final(headers)@ == if adds_chunked(old(headers)@, version, body) {
            old(headers)@.push(HeaderView { name: transfer_encoding_sent(), value: chunked() })
        } else {
            old(headers)@
        },
{
    match headers_content_length(headers) {
        Err(e) => Err(e),
        Ok(Some(n)) => Ok(Encoder::Length(n)),
        Ok(None) => {
            let (_, chunked) = headers_transfer_encoding(headers);
            if chunked {
                Ok(Encoder::Chunked)
            } else if body && version == HttpVersion::Http11 {
                headers.append(transfer_encoding_sent_bytes(), chunked_bytes());
                Ok(Encoder::Chunked)
            } else {
                Ok(Encoder::CloseDelimited)
            }
        },
    }
}

/// The encoder for the body of a request, from its fields as the sender set
/// them, its version and whether a body follows.
///
/// With a `Content-Length`: that length (or an error if the fields give
/// none). Else chunked, if that is the last coding of a
/// `Transfer-Encoding`, or if a body follows and the request is HTTP/1.1.
/// Else, with no body to follow, a length of nothing. A body that says
/// nothing of its framing in an HTTP/1.0 request is an error: the close of
/// the connection cannot end a request.
pub open spec fn request_encoder_spec(hs: Seq<HeaderView>, version: HttpVersion, body: bool)
    -> Result<Encoder, Error> {
    match content_length(hs) {
        Err(e) => Err(e),
        Ok(Some(n)) => Ok(Encoder::Length(n)),
        Ok(None) => if ends_chunked(hs) || (body && version == HttpVersion::Http11) {
            Ok(Encoder::Chunked)
        } else if body {
            Err(Error::Framing)
        } else {
            Ok(Encoder::Length(0))
        },
    }
}

/// The encoder for the body of a request, and the `Transfer-Encoding:
/// chunked` that the request gets where it has a body, says nothing of its
/// framing and is HTTP/1.1.
pub fn request_encoder(headers: &mut Headers, version: HttpVersion, body: bool) -> (r: Result<
    Encoder,
    Error,
>)
    ensures
        r == request_encoder_spec(old(headers)@, version, body),
        final(headers)@ == if adds_chunked(old(headers)@, version, body) {
            old(headers)@.push(HeaderView { name: transfer_encoding_sent(), value: chunked() })
        } else {
            old(headers)@
        },
{
    match headers_content_length(headers) {
        Err(e) => Err(e),
        Ok(Some(n)) => Ok(Encoder::Length(n)),
        Ok(None) => {
            let (_, chunked) = headers_transfer_encoding(headers);
            if chunked {
                Ok(Encoder::Chunked)
            } else if body && version == HttpVersion::Http11 {
                headers.append(transfer_encoding_sent_bytes(), chunked_bytes());
                Ok(Encoder::Chunked)
            } else if body {
                Err(Error::Framing)
            } else {
                Ok(Encoder::Length(0))
            }
        },
    }
}

} // verus!
