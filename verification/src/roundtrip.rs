//! What goes out as a head comes back as that head.
//!
//! The laws here join the wire format to the head parser: a valid head,
//! written out, parses to itself, with the names of its fields in lower
//! case, whatever bytes follow it.

use vstd::prelude::*;
use crate::buffer::{CR, LF};
use crate::chars::{
    all_tchar, all_vchar, is_token, lower_seq, spec_is_field_byte, spec_is_ws, spec_lower, COLON,
    SP,
};
use crate::head::{HeaderView, HttpVersion, MessageHeadView, RequestHeadView, ResponseHeadView};
use crate::parse::{
    after_version, lemma_run_concat, lemma_run_halted, parse_request_spec, parse_response_spec,
    run, start, step, Kind, Machine, Phase,
};
use crate::wire::{
    crlf, header_wire, headers_wire, reason_phrase, request_line_wire, request_wire, response_wire,
    status_digits, status_line_wire, version_bytes,
};

verus! {

/// Every byte of `s` is field content or whitespace.
pub open spec fn all_text(s: Seq<u8>) -> bool {
    forall|i: int| 0 <= i < s.len() ==> spec_is_field_byte(#[trigger] s[i]) || spec_is_ws(s[i])
}

/// A field value as the parser hands it out: text without whitespace at
/// either end.
pub open spec fn valid_value(v: Seq<u8>) -> bool {
    &&& all_text(v)
    &&& v.len() > 0 ==> spec_is_field_byte(v[0]) && spec_is_field_byte(v.last())
}

/// A header field that can go out: a token for a name, and a valid value.
pub open spec fn valid_header(h: HeaderView) -> bool {
    is_token(h.name) && valid_value(h.value)
}

/// Header fields that can go out.
pub open spec fn valid_headers(hs: Seq<HeaderView>) -> bool {
    forall|i: int| 0 <= i < hs.len() ==> valid_header(#[trigger] hs[i])
}

/// A request head that can go out: a token for a method, a target of
/// visible bytes, and valid header fields.
pub open spec fn valid_request(h: RequestHeadView) -> bool {
    &&& is_token(h.subject.method)
    &&& h.subject.target.len() > 0
    &&& all_vchar(h.subject.target)
    &&& valid_headers(h.headers)
}

/// A response head that can go out: a status of three digits, and valid
/// header fields.
pub open spec fn valid_response(h: ResponseHeadView) -> bool {
    h.subject < 1000 && valid_headers(h.headers)
}

/// The header fields with their names in lower case.
pub open spec fn lower_names(hs: Seq<HeaderView>) -> Seq<HeaderView> {
    Seq::new(hs.len(), |i: int| HeaderView { name: lower_seq(hs[i].name), value: hs[i].value })
}

/// The head with the names of its fields in lower case.
pub open spec fn canonical<V>(h: MessageHeadView<V>) -> MessageHeadView<V> {
    MessageHeadView { headers: lower_names(h.headers), ..h }
}

/// Whether the names of the header fields are in lower case already.
pub open spec fn names_are_lower(hs: Seq<HeaderView>) -> bool {
    forall|i: int| 0 <= i < hs.len() ==> lower_seq((#[trigger] hs[i]).name) == hs[i].name
}

/// A head whose fields have their names in lower case is its own canonical
/// form: such a head comes back from the wire exactly as it went out.
pub proof fn lemma_canonical_of_lower<V>(h: MessageHeadView<V>)
    requires
        names_are_lower(h.headers),
    ensures
        canonical(h) == h,
{
    assert(lower_names(h.headers) =~= h.headers);
}

/// One more byte is one more step.
proof fn lemma_run_push(s: Machine, a: Seq<u8>, b: u8, max: nat)
    ensures
        run(s, a.push(b), max) == step(run(s, a, max), b, max),
{
    assert(a.push(b).drop_last() =~= a);
}

/// A byte alone is one step.
proof fn lemma_run_one(s: Machine, b: u8, max: nat)
    ensures
        run(s, seq![b], max) == step(s, b, max),
{
    lemma_run_push(s, Seq::empty(), b, max);
}

/// Two bytes are two steps.
proof fn lemma_run_two(s: Machine, a: u8, b: u8, max: nat)
    ensures
        run(s, seq![a, b], max) == step(step(s, a, max), b, max),
{
    assert(seq![a, b] =~= seq![a].push(b));
    lemma_run_push(s, seq![a], b, max);
    lemma_run_one(s, a, max);
}

/// The method is taken byte by byte.
proof fn lemma_method(s: Machine, t: Seq<u8>, max: nat)
    requires
        s.phase == Phase::Method,
        all_tchar(t),
        s.count + t.len() < max,
    ensures
        run(s, t, max) == (Machine { method: s.method + t, count: s.count + t.len(), ..s }),
    decreases t.len(),
{
    if t.len() > 0 {
        lemma_method(s, t.drop_last(), max);
        assert((s.method + t.drop_last()).push(t.last()) =~= s.method + t);
    }
}

/// The target is taken byte by byte.
proof fn lemma_target(s: Machine, t: Seq<u8>, max: nat)
    requires
        s.phase == Phase::Target,
        all_vchar(t),
        s.count + t.len() < max,
    ensures
        run(s, t, max) == (Machine { target: s.target + t, count: s.count + t.len(), ..s }),
    decreases t.len(),
{
    if t.len() > 0 {
        lemma_target(s, t.drop_last(), max);
        assert((s.target + t.drop_last()).push(t.last()) =~= s.target + t);
    }
}

/// The version is read off its eight bytes.
proof fn lemma_version(s: Machine, v: HttpVersion, max: nat)
    requires
        s.phase == Phase::Version,
        s.vpos == 0,
        s.count + 8 < max,
    ensures
        run(s, version_bytes(v), max) == (Machine {
            phase: after_version(s.kind),
            vpos: 7,
            version: v,
            count: s.count + 8,
            ..s
        }),
{
    let b = version_bytes(v);
    let e = Seq::<u8>::empty();
    let a1 = e.push(b[0]);
    let a2 = a1.push(b[1]);
    let a3 = a2.push(b[2]);
    let a4 = a3.push(b[3]);
    let a5 = a4.push(b[4]);
    let a6 = a5.push(b[5]);
    let a7 = a6.push(b[6]);
    let a8 = a7.push(b[7]);
    assert(a8 =~= b);
    lemma_run_push(s, e, b[0], max);
    lemma_run_push(s, a1, b[1], max);
    lemma_run_push(s, a2, b[2], max);
    lemma_run_push(s, a3, b[3], max);
    lemma_run_push(s, a4, b[4], max);
    lemma_run_push(s, a5, b[5], max);
    lemma_run_push(s, a6, b[6], max);
    lemma_run_push(s, a7, b[7], max);
}

/// A request line brings the machine to the first header line.
proof fn lemma_request_line(h: RequestHeadView, max: nat)
    requires
        valid_request(h),
        request_line_wire(h).len() < max,
    ensures
        run(start(Kind::Request), request_line_wire(h), max) == (Machine {
            phase: Phase::LineStart,
            method: h.subject.method,
            target: h.subject.target,
            vpos: 7,
            version: h.version,
            count: request_line_wire(h).len(),
            ..start(Kind::Request)
        }),
{
    let s0 = start(Kind::Request);
    let m = h.subject.method;
    let t = h.subject.target;
    let w1 = m;
    let w2 = w1 + seq![SP];
    let w3 = w2 + t;
    let w4 = w3 + seq![SP];
    let w5 = w4 + version_bytes(h.version);
    lemma_method(s0, m, max);
    let s1 = run(s0, w1, max);
    lemma_run_concat(s0, w1, seq![SP], max);
    lemma_run_one(s1, SP, max);
    let s2 = run(s0, w2, max);
    lemma_run_concat(s0, w2, t, max);
    lemma_target(s2, t, max);
    let s3 = run(s0, w3, max);
    lemma_run_concat(s0, w3, seq![SP], max);
    lemma_run_one(s3, SP, max);
    let s4 = run(s0, w4, max);
    lemma_run_concat(s0, w4, version_bytes(h.version), max);
    lemma_version(s4, h.version, max);
    let s5 = run(s0, w5, max);
    lemma_run_concat(s0, w5, crlf(), max);
    lemma_run_two(s5, CR, LF, max);
}

/// The digits of a status are read back as the status.
proof fn lemma_status_digits(s: Machine, code: u16, max: nat)
    requires
        s.phase == Phase::Code,
        s.code_digits == 0,
        s.code == 0,
        code < 1000,
        s.count + 3 < max,
    ensures
        run(s, status_digits(code), max) == (Machine {
            phase: Phase::AfterCode,
            code_digits: 3,
            code: code as nat,
            count: s.count + 3,
            ..s
        }),
{
    let b = status_digits(code);
    let e = Seq::<u8>::empty();
    let a1 = e.push(b[0]);
    let a2 = a1.push(b[1]);
    let a3 = a2.push(b[2]);
    assert(a3 =~= b);
    lemma_run_push(s, e, b[0], max);
    lemma_run_push(s, a1, b[1], max);
    lemma_run_push(s, a2, b[2], max);
}

/// A reason phrase leaves the machine as it is.
proof fn lemma_reason(s: Machine, t: Seq<u8>, max: nat)
    requires
        s.phase == Phase::Reason,
        all_text(t),
        s.count + t.len() < max,
    ensures
        run(s, t, max) == (Machine { count: s.count + t.len(), ..s }),
    decreases t.len(),
{
    if t.len() > 0 {
        lemma_reason(s, t.drop_last(), max);
    }
}

/// Every reason phrase is text.
pub proof fn lemma_reason_phrase_is_text(code: u16)
    ensures
        all_text(reason_phrase(code)),
{
}

/// A status line brings the machine to the first header line.
proof fn lemma_status_line(h: ResponseHeadView, max: nat)
    requires
        valid_response(h),
        status_line_wire(h).len() < max,
    ensures
        run(start(Kind::Response), status_line_wire(h), max) == (Machine {
            phase: Phase::LineStart,
            vpos: 7,
            version: h.version,
            code_digits: 3,
            code: h.subject as nat,
            count: status_line_wire(h).len(),
            ..start(Kind::Response)
        }),
{
    let s0 = start(Kind::Response);
    let w1 = version_bytes(h.version);
    let w2 = w1 + seq![SP];
    let w3 = w2 + status_digits(h.subject);
    let w4 = w3 + seq![SP];
    let w5 = w4 + reason_phrase(h.subject);
    lemma_version(s0, h.version, max);
    let s1 = run(s0, w1, max);
    lemma_run_concat(s0, w1, seq![SP], max);
    lemma_run_one(s1, SP, max);
    let s2 = run(s0, w2, max);
    lemma_run_concat(s0, w2, status_digits(h.subject), max);
    lemma_status_digits(s2, h.subject, max);
    let s3 = run(s0, w3, max);
    lemma_run_concat(s0, w3, seq![SP], max);
    lemma_run_one(s3, SP, max);
    let s4 = run(s0, w4, max);
    lemma_run_concat(s0, w4, reason_phrase(h.subject), max);
    lemma_reason_phrase_is_text(h.subject);
    lemma_reason(s4, reason_phrase(h.subject), max);
    let s5 = run(s0, w5, max);
    lemma_run_concat(s0, w5, crlf(), max);
    lemma_run_two(s5, CR, LF, max);
}

/// A field name is taken byte by byte, in lower case.
proof fn lemma_name(s: Machine, t: Seq<u8>, max: nat)
    requires
        s.phase == Phase::Name,
        all_tchar(t),
        s.count + t.len() < max,
    ensures
        run(s, t, max) == (Machine {
            name: s.name + lower_seq(t),
            count: s.count + t.len(),
            ..s
        }),
    decreases t.len(),
{
    if t.len() > 0 {
        lemma_name(s, t.drop_last(), max);
        assert((s.name + lower_seq(t.drop_last())).push(spec_lower(t.last())) =~= s.name
            + lower_seq(t));
    }
}

/// A field value is taken byte by byte, the whitespace at its end held
/// back.
proof fn lemma_value(s: Machine, t: Seq<u8>, max: nat)
    requires
        s.phase == Phase::Value,
        all_text(t),
        s.count + t.len() < max,
    ensures
        ({
            let r = run(s, t, max);
            &&& r == (Machine { value: r.value, ws: r.ws, count: s.count + t.len(), ..s })
            &&& r.value + r.ws == s.value + s.ws + t
            &&& t.len() > 0 && spec_is_field_byte(t.last()) ==> r.ws == Seq::<u8>::empty()
        }),
    decreases t.len(),
{
    if t.len() > 0 {
        lemma_value(s, t.drop_last(), max);
    }
}

/// A whole field name, from the start of its line.
proof fn lemma_field_name(s: Machine, n: Seq<u8>, max: nat)
    requires
        s.phase == Phase::LineStart,
        is_token(n),
        s.count + n.len() < max,
    ensures
        run(s, n, max) == (Machine {
            phase: Phase::Name,
            name: lower_seq(n),
            count: s.count + n.len(),
            ..s
        }),
{
    let n0 = seq![n[0]];
    let n1 = n.skip(1);
    assert(n =~= n0 + n1);
    lemma_run_concat(s, n0, n1, max);
    lemma_run_one(s, n[0], max);
    let sa = run(s, n0, max);
    lemma_name(sa, n1, max);
    assert(sa.name + lower_seq(n1) =~= lower_seq(n));
}

/// A whole field value, from behind the colon and the space.
proof fn lemma_field_value(s: Machine, v: Seq<u8>, max: nat)
    requires
        s.phase == Phase::ValueLead,
        s.value == Seq::<u8>::empty(),
        s.ws == Seq::<u8>::empty(),
        valid_value(v),
        s.count + v.len() < max,
    ensures
        run(s, v, max) == (Machine {
            phase: if v.len() == 0 {
                Phase::ValueLead
            } else {
                Phase::Value
            },
            value: v,
            count: s.count + v.len(),
            ..s
        }),
{
    let r = run(s, v, max);
    if v.len() == 0 {
        assert(r.value =~= v);
    } else {
        let v0 = seq![v[0]];
        let v1 = v.skip(1);
        assert(v =~= v0 + v1);
        lemma_run_concat(s, v0, v1, max);
        lemma_run_one(s, v[0], max);
        let sb = run(s, v0, max);
        lemma_value(sb, v1, max);
    }
}

/// The line of a valid field adds that field, its name in lower case.
proof fn lemma_header(s: Machine, h: HeaderView, max: nat)
    requires
        s.phase == Phase::LineStart,
        s.name == Seq::<u8>::empty(),
        s.value == Seq::<u8>::empty(),
        s.ws == Seq::<u8>::empty(),
        valid_header(h),
        s.count + header_wire(h).len() < max,
    ensures
        run(s, header_wire(h), max) == (Machine {
            headers: s.headers.push(HeaderView { name: lower_seq(h.name), value: h.value }),
            count: s.count + header_wire(h).len(),
            ..s
        }),
{
    let n = h.name;
    let v = h.value;
    let w1 = n;
    let w2 = w1 + seq![COLON, SP];
    let w3 = w2 + v;
    lemma_field_name(s, n, max);
    let s1 = run(s, w1, max);
    lemma_run_concat(s, w1, seq![COLON, SP], max);
    lemma_run_two(s1, COLON, SP, max);
    let s2 = run(s, w2, max);
    lemma_run_concat(s, w2, v, max);
    lemma_field_value(s2, v, max);
    let s3 = run(s, w3, max);
    lemma_run_concat(s, w3, crlf(), max);
    lemma_run_two(s3, CR, LF, max);
}

/// The lines of valid fields add those fields, in their order.
proof fn lemma_headers(s: Machine, hs: Seq<HeaderView>, max: nat)
    requires
        s.phase == Phase::LineStart,
        s.name == Seq::<u8>::empty(),
        s.value == Seq::<u8>::empty(),
        s.ws == Seq::<u8>::empty(),
        valid_headers(hs),
        s.count + headers_wire(hs).len() < max,
    ensures
        run(s, headers_wire(hs), max) == (Machine {
            headers: s.headers + lower_names(hs),
            count: s.count + headers_wire(hs).len(),
            ..s
        }),
    decreases hs.len(),
{
    if hs.len() > 0 {
        let front = hs.drop_last();
        let h = hs.last();
        lemma_headers(s, front, max);
        let q = run(s, headers_wire(front), max);
        lemma_run_concat(s, headers_wire(front), header_wire(h), max);
        lemma_header(q, h, max);
        assert((s.headers + lower_names(front)).push(
            HeaderView { name: lower_seq(h.name), value: h.value },
        ) =~= s.headers + lower_names(hs));
    }
}

/// A valid request head that fits in `max` bytes, written out and followed
/// by any bytes at all, is parsed as that head, with the names of its
/// fields in lower case, and as taking just the bytes that were written.
pub proof fn lemma_request_roundtrip(h: RequestHeadView, rest: Seq<u8>, max: nat)
    requires
        valid_request(h),
        request_wire(h).len() <= max,
    ensures
        parse_request_spec(request_wire(h) + rest, max) == Ok::<
            Option<(RequestHeadView, nat)>,
            crate::error::Error,
        >(Some((canonical(h), request_wire(h).len()))),
{
    let s0 = start(Kind::Request);
    let w1 = request_line_wire(h);
    let w2 = w1 + headers_wire(h.headers);
    let w3 = w2 + crlf();
    lemma_request_line(h, max);
    let s1 = run(s0, w1, max);
    lemma_run_concat(s0, w1, headers_wire(h.headers), max);
    lemma_headers(s1, h.headers, max);
    let s2 = run(s0, w2, max);
    lemma_run_concat(s0, w2, crlf(), max);
    lemma_run_two(s2, CR, LF, max);
    let s3 = run(s0, w3, max);
    lemma_run_concat(s0, w3, rest, max);
    lemma_run_halted(s3, rest, max);
}

/// A valid response head that fits in `max` bytes, written out and
/// followed by any bytes at all, is parsed as that head, with the names of
/// its fields in lower case, and as taking just the bytes that were written.
pub proof fn lemma_response_roundtrip(h: ResponseHeadView, rest: Seq<u8>, max: nat)
    requires
        valid_response(h),
        response_wire(h).len() <= max,
    ensures
        parse_response_spec(response_wire(h) + rest, max) == Ok::<
            Option<(ResponseHeadView, nat)>,
            crate::error::Error,
        >(Some((canonical(h), response_wire(h).len()))),
{
    let s0 = start(Kind::Response);
    let w1 = status_line_wire(h);
    let w2 = w1 + headers_wire(h.headers);
    let w3 = w2 + crlf();
    lemma_status_line(h, max);
    let s1 = run(s0, w1, max);
    lemma_run_concat(s0, w1, headers_wire(h.headers), max);
    lemma_headers(s1, h.headers, max);
    let s2 = run(s0, w2, max);
    lemma_run_concat(s0, w2, crlf(), max);
    lemma_run_two(s2, CR, LF, max);
    let s3 = run(s0, w3, max);
    lemma_run_concat(s0, w3, rest, max);
    lemma_run_halted(s3, rest, max);
}

/// Every byte of `s` is a space or a tab.
pub open spec fn all_ws(s: Seq<u8>) -> bool {
    forall|i: int| 0 <= i < s.len() ==> spec_is_ws(#[trigger] s[i])
}

/// Whitespace before a value is skipped.
proof fn lemma_skip_ws(s: Machine, t: Seq<u8>, max: nat)
    requires
        s.phase == Phase::ValueLead,
        all_ws(t),
        s.count + t.len() < max,
    ensures
        run(s, t, max) == (Machine { count: s.count + t.len(), ..s }),
    decreases t.len(),
{
    if t.len() > 0 {
        lemma_skip_ws(s, t.drop_last(), max);
        assert(spec_is_ws(t[t.len() - 1]));
    }
}

/// Whitespace behind a value is held back.
proof fn lemma_hold_ws(s: Machine, t: Seq<u8>, max: nat)
    requires
        s.phase == Phase::Value,
        all_ws(t),
        s.count + t.len() < max,
    ensures
        run(s, t, max) == (Machine { ws: s.ws + t, count: s.count + t.len(), ..s }),
    decreases t.len(),
{
    if t.len() > 0 {
        lemma_hold_ws(s, t.drop_last(), max);
        assert(spec_is_ws(t[t.len() - 1]));
        assert((s.ws + t.drop_last()).push(t.last()) =~= s.ws + t);
    } else {
        assert(s.ws + t =~= s.ws);
    }
}

/// The end of a line: CR LF, or a line feed alone.
pub open spec fn line_end(bare: bool) -> Seq<u8> {
    if bare {
        seq![LF]
    } else {
        crlf()
    }
}

/// The line of a field as a peer may send it: the name, a colon, any
/// whitespace, the value, any whitespace, and the end of the line.
pub open spec fn header_line(h: HeaderView, before: Seq<u8>, after: Seq<u8>, bare: bool) -> Seq<
    u8,
> {
    h.name + seq![COLON] + before + h.value + after + line_end(bare)
}

/// A field comes out of its line with its name in lower case and its value
/// without the whitespace round it, whether the line ends with CR LF or
/// with a line feed alone: the machine at the start of a line, run over the
/// line, has that field behind those it had, and stands at the start of the
/// next line.
pub proof fn law_field_is_read_off_its_line(
    s: Machine,
    h: HeaderView,
    before: Seq<u8>,
    after: Seq<u8>,
    bare: bool,
    max: nat,
)
    requires
        s.phase == Phase::LineStart,
        s.name == Seq::<u8>::empty(),
        s.value == Seq::<u8>::empty(),
        s.ws == Seq::<u8>::empty(),
        valid_header(h),
        all_ws(before),
        all_ws(after),
        s.count + header_line(h, before, after, bare).len() < max,
    ensures
        run(s, header_line(h, before, after, bare), max) == (Machine {
            headers: s.headers.push(HeaderView { name: lower_seq(h.name), value: h.value }),
            count: s.count + header_line(h, before, after, bare).len(),
            ..s
        }),
{
    let n = h.name;
    let v = h.value;
    let w1 = n;
    let w2 = w1 + seq![COLON];
    let w3 = w2 + before;
    let w4 = w3 + v;
    let w5 = w4 + after;
    let w6 = w5 + line_end(bare);
    assert(w6 == header_line(h, before, after, bare));
    lemma_field_name(s, n, max);
    let s1 = run(s, w1, max);
    lemma_run_concat(s, w1, seq![COLON], max);
    lemma_run_one(s1, COLON, max);
    let s2 = run(s, w2, max);
    assert(s2 == Machine { phase: Phase::ValueLead, count: s1.count + 1, ..s1 });
    lemma_run_concat(s, w2, before, max);
    lemma_skip_ws(s2, before, max);
    let s3 = run(s, w3, max);
    lemma_run_concat(s, w3, v, max);
    lemma_field_value(s3, v, max);
    let s4 = run(s, w4, max);
    lemma_run_concat(s, w4, after, max);
    if v.len() == 0 {
        lemma_skip_ws(s4, after, max);
    } else {
        lemma_hold_ws(s4, after, max);
    }
    let s5 = run(s, w5, max);
    assert(s5.value == v);
    lemma_run_concat(s, w5, line_end(bare), max);
    if bare {
        lemma_run_one(s5, LF, max);
    } else {
        lemma_run_two(s5, CR, LF, max);
        let mid = step(s5, CR, max);
        assert(mid == Machine { phase: Phase::ValueLf, count: s5.count + 1, ..s5 });
    }
    let s6 = run(s, w6, max);
    assert(s6.headers == s.headers.push(HeaderView { name: lower_seq(n), value: v }));
}

/// A folded line is refused: a head in which a line starts with a space or
/// a tab is a parse error, whatever the start line and the fields before
/// that line, and whatever follows.
pub proof fn law_folded_head_is_refused(h: RequestHeadView, fold: u8, rest: Seq<u8>, max: nat)
    requires
        valid_request(h),
        spec_is_ws(fold),
        request_line_wire(h).len() + headers_wire(h.headers).len() + 1 < max,
    ensures
        parse_request_spec(
            request_line_wire(h) + headers_wire(h.headers) + seq![fold] + rest,
            max,
        ) == Err::<Option<(RequestHeadView, nat)>, crate::error::Error>(
            crate::error::Error::Parse,
        ),
{
    let s0 = start(Kind::Request);
    let w1 = request_line_wire(h);
    let w2 = w1 + headers_wire(h.headers);
    let w3 = w2 + seq![fold];
    lemma_request_line(h, max);
    let s1 = run(s0, w1, max);
    lemma_run_concat(s0, w1, headers_wire(h.headers), max);
    lemma_headers(s1, h.headers, max);
    let s2 = run(s0, w2, max);
    lemma_run_concat(s0, w2, seq![fold], max);
    lemma_run_one(s2, fold, max);
    let s3 = run(s0, w3, max);
    assert(s3.phase == Phase::Failed && s3.error == crate::error::Error::Parse);
    lemma_run_concat(s0, w3, rest, max);
    lemma_run_halted(s3, rest, max);
}

} // verus!
