//! The head parser: a machine that takes a head one byte at a time.
//!
//! `step` is the whole grammar. A head is parsed by running the machine from
//! its start over the bytes at hand, so the outcome depends on those bytes
//! alone: a machine that has come to an end, well or badly, takes no further
//! byte, and one that has not wants more.

use vstd::prelude::*;
use crate::buffer::{CR, LF};
use crate::chars::{
    append_bytes, is_digit, is_field_byte, is_tchar, is_vchar, is_ws, lower, spec_is_digit,
    spec_is_field_byte, spec_is_tchar, spec_is_vchar, spec_is_ws, spec_lower, COLON, DOT, SP,
};
use crate::error::Error;
use crate::head::{
    header_views, Header, HeaderView, Headers, HttpVersion, MessageHead, MessageHeadView, Method,
    RequestHead, RequestHeadView, RequestLine, RequestLineView, RequestUri, ResponseHead,
    ResponseHeadView, StatusCode,
};

verus! {

/// Which start line a head has.
#[derive(Debug, Clone, Copy, PartialEq, Eq, Structural)]
pub enum Kind {
    /// `method SP target SP version`
    Request,
    /// `version SP status [SP reason]`
    Response,
}

/// Where in a head the machine stands.
#[derive(Debug, Clone, Copy, PartialEq, Eq, Structural)]
pub enum Phase {
    /// In the method.
    Method,
    /// In the request target.
    Target,
    /// In `HTTP/1.x`.
    Version,
    /// Behind the version of a request line.
    StartLineEnd,
    /// Behind the CR that ends the start line.
    StartLineLf,
    /// Behind the version of a status line.
    StatusSp,
    /// In the three digits of the status.
    Code,
    /// Behind the status.
    AfterCode,
    /// In the reason phrase.
    Reason,
    /// At the start of a header line.
    LineStart,
    /// In a field name.
    Name,
    /// Behind the colon, before the value.
    ValueLead,
    /// In a field value.
    Value,
    /// Behind the CR that ends a header line.
    ValueLf,
    /// Behind the CR of the empty line.
    EndLf,
    /// The head is complete.
    Done,
    /// The head is malformed.
    Failed,
}

/// The state of the machine.
pub struct Machine {
    pub kind: Kind,
    pub phase: Phase,
    /// Bytes taken so far.
    pub count: nat,
    pub method: Seq<u8>,
    pub target: Seq<u8>,
    /// Bytes of the version taken so far.
    pub vpos: nat,
    pub version: HttpVersion,
    /// Digits of the status taken so far.
    pub code_digits: nat,
    pub code: nat,
    pub headers: Seq<HeaderView>,
    /// The name of the field at hand, in lower case.
    pub name: Seq<u8>,
    /// The value of the field at hand, up to its last byte that is no
    /// whitespace.
    pub value: Seq<u8>,
    /// The whitespace seen since.
    pub ws: Seq<u8>,
    /// Why the machine failed, once it has.
    pub error: Error,
}

/// The machine before the first byte.
pub open spec fn start(kind: Kind) -> Machine {
    Machine {
        kind,
        phase: match kind {
            Kind::Request => Phase::Method,
            Kind::Response => Phase::Version,
        },
        count: 0,
        method: Seq::empty(),
        target: Seq::empty(),
        vpos: 0,
        version: HttpVersion::Http11,
        code_digits: 0,
        code: 0,
        headers: Seq::empty(),
        name: Seq::empty(),
        value: Seq::empty(),
        ws: Seq::empty(),
        error: Error::Parse,
    }
}

/// Whether the machine has come to an end.
pub open spec fn halted(s: Machine) -> bool {
    s.phase == Phase::Done || s.phase == Phase::Failed
}

/// The machine, failed with `e`.
pub open spec fn fail(s: Machine, e: Error) -> Machine {
    Machine { phase: Phase::Failed, error: e, ..s }
}

/// Byte `i` of `HTTP/`.
pub open spec fn version_prefix(i: nat) -> u8 {
    if i == 0 {
        'H' as u8
    } else if i == 1 || i == 2 {
        'T' as u8
    } else if i == 3 {
        'P' as u8
    } else {
        '/' as u8
    }
}

/// The phase behind the version.
pub open spec fn after_version(kind: Kind) -> Phase {
    match kind {
        Kind::Request => Phase::StartLineEnd,
        Kind::Response => Phase::StatusSp,
    }
}

/// The machine with the field at hand added to its fields.
pub open spec fn with_field(s: Machine) -> Machine {
    Machine {
        phase: Phase::LineStart,
        headers: s.headers.push(HeaderView { name: s.name, value: s.value }),
        name: Seq::empty(),
        value: Seq::empty(),
        ws: Seq::empty(),
        ..s
    }
}

/// What a byte does to a machine that has not come to an end, the count of
/// bytes left aside.
pub open spec fn advance(s: Machine, b: u8) -> Machine {
    match s.phase {
        Phase::Method => if spec_is_tchar(b) {
            Machine { method: s.method.push(b), ..s }
        } else if b == SP && s.method.len() > 0 {
            Machine { phase: Phase::Target, ..s }
        } else {
            fail(s, Error::Parse)
        },
        Phase::Target => if spec_is_vchar(b) {
            Machine { target: s.target.push(b), ..s }
        } else if b == SP && s.target.len() > 0 {
            Machine { phase: Phase::Version, ..s }
        } else {
            fail(s, Error::Parse)
        },
        Phase::Version => if s.vpos < 5 {
            if b == version_prefix(s.vpos) {
                Machine { vpos: s.vpos + 1, ..s }
            } else {
                fail(s, Error::Parse)
            }
        } else if s.vpos == 5 {
            if !spec_is_digit(b) {
                fail(s, Error::Parse)
            } else if b != '1' as u8 {
                fail(s, Error::Version)
            } else {
                Machine { vpos: 6, ..s }
            }
        } else if s.vpos == 6 {
            if b == DOT {
                Machine { vpos: 7, ..s }
            } else {
                fail(s, Error::Parse)
            }
        } else {
            if !spec_is_digit(b) {
                fail(s, Error::Parse)
            } else if b == '0' as u8 {
                Machine { phase: after_version(s.kind), version: HttpVersion::Http10, ..s }
            } else if b == '1' as u8 {
                Machine { phase: after_version(s.kind), version: HttpVersion::Http11, ..s }
            } else {
                fail(s, Error::Version)
            }
        },
        Phase::StartLineEnd => if b == CR {
            Machine { phase: Phase::StartLineLf, ..s }
        } else if b == LF {
            Machine { phase: Phase::LineStart, ..s }
        } else {
            fail(s, Error::Parse)
        },
        Phase::StartLineLf => if b == LF {
            Machine { phase: Phase::LineStart, ..s }
        } else {
            fail(s, Error::Parse)
        },
        Phase::StatusSp => if b == SP {
            Machine { phase: Phase::Code, ..s }
        } else {
            fail(s, Error::Parse)
        },
        Phase::Code => if spec_is_digit(b) {
            Machine {
                phase: if s.code_digits >= 2 {
                    Phase::AfterCode
                } else {
                    Phase::Code
                },
                code_digits: s.code_digits + 1,
                code: (s.code * 10 + (b - 48)) as nat,
                ..s
            }
        } else {
            fail(s, Error::Parse)
        },
        Phase::AfterCode => if b == SP {
            Machine { phase: Phase::Reason, ..s }
        } else if b == CR {
            Machine { phase: Phase::StartLineLf, ..s }
        } else if b == LF {
            Machine { phase: Phase::LineStart, ..s }
        } else {
            fail(s, Error::Parse)
        },
        Phase::Reason => if b == CR {
            Machine { phase: Phase::StartLineLf, ..s }
        } else if b == LF {
            Machine { phase: Phase::LineStart, ..s }
        } else if spec_is_field_byte(b) || spec_is_ws(b) {
            s
        } else {
            fail(s, Error::Parse)
        },
        Phase::LineStart => if b == CR {
            Machine { phase: Phase::EndLf, ..s }
        } else if b == LF {
            Machine { phase: Phase::Done, ..s }
        } else if spec_is_tchar(b) {
            Machine { phase: Phase::Name, name: seq![spec_lower(b)], ..s }
        } else {
            fail(s, Error::Parse)
        },
        Phase::EndLf => if b == LF {
            Machine { phase: Phase::Done, ..s }
        } else {
            fail(s, Error::Parse)
        },
        Phase::Name => if spec_is_tchar(b) {
            Machine { name: s.name.push(spec_lower(b)), ..s }
        } else if b == COLON {
            Machine { phase: Phase::ValueLead, ..s }
        } else {
            fail(s, Error::Parse)
        },
        Phase::ValueLead => if spec_is_ws(b) {
            s
        } else if spec_is_field_byte(b) {
            Machine { phase: Phase::Value, value: seq![b], ..s }
        } else if b == CR {
            Machine { phase: Phase::ValueLf, ..s }
        } else if b == LF {
            with_field(s)
        } else {
            fail(s, Error::Parse)
        },
        Phase::Value => if spec_is_field_byte(b) {
            Machine { value: (s.value + s.ws).push(b), ws: Seq::empty(), ..s }
        } else if spec_is_ws(b) {
            Machine { ws: s.ws.push(b), ..s }
        } else if b == CR {
            Machine { phase: Phase::ValueLf, ..s }
        } else if b == LF {
            with_field(s)
        } else {
            fail(s, Error::Parse)
        },
        Phase::ValueLf => if b == LF {
            with_field(s)
        } else {
            fail(s, Error::Parse)
        },
        Phase::Done => s,
        Phase::Failed => s,
    }
}

/// What the next byte does to the machine. A machine that has come to an
/// end stays as it is. Any other takes the byte, and fails if it has then
/// taken `max` bytes without completing the head.
pub open spec fn step(s: Machine, b: u8, max: nat) -> Machine {
    if halted(s) {
        s
    } else {
        let t = Machine { count: s.count + 1, ..advance(s, b) };
        if !halted(t) && t.count >= max {
            fail(t, Error::Parse)
        } else {
            t
        }
    }
}

/// The machine after `bytes`.
pub open spec fn run(s: Machine, bytes: Seq<u8>, max: nat) -> Machine
    decreases bytes.len(),
{
    if bytes.len() == 0 {
        s
    } else {
        step(run(s, bytes.drop_last(), max), bytes.last(), max)
    }
}

/// The head that a machine for requests has read.
pub open spec fn request_of(s: Machine) -> RequestHeadView {
    MessageHeadView {
        version: s.version,
        subject: RequestLineView { method: s.method, target: s.target },
        headers: s.headers,
    }
}

/// The head that a machine for responses has read.
pub open spec fn response_of(s: Machine) -> ResponseHeadView {
    MessageHeadView { version: s.version, subject: s.code as u16, headers: s.headers }
}

/// What the bytes at hand hold of a request head of at most `max` bytes:
/// the head and its length, nothing yet, or an error.
pub open spec fn parse_request_spec(bytes: Seq<u8>, max: nat) -> Result<
    Option<(RequestHeadView, nat)>,
    Error,
> {
    let s = run(start(Kind::Request), bytes, max);
    if s.phase == Phase::Done {
        Ok(Some((request_of(s), s.count)))
    } else if s.phase == Phase::Failed {
        Err(s.error)
    } else {
        Ok(None)
    }
}

/// What the bytes at hand hold of a response head of at most `max` bytes:
/// the head and its length, nothing yet, or an error.
pub open spec fn parse_response_spec(bytes: Seq<u8>, max: nat) -> Result<
    Option<(ResponseHeadView, nat)>,
    Error,
> {
    let s = run(start(Kind::Response), bytes, max);
    if s.phase == Phase::Done {
        Ok(Some((response_of(s), s.count)))
    } else if s.phase == Phase::Failed {
        Err(s.error)
    } else {
        Ok(None)
    }
}

/// A machine that has come to an end takes no further byte.
pub proof fn lemma_run_halted(s: Machine, bytes: Seq<u8>, max: nat)
    requires
        halted(s),
    ensures
        run(s, bytes, max) == s,
    decreases bytes.len(),
{
    if bytes.len() > 0 {
        lemma_run_halted(s, bytes.drop_last(), max);
    }
}

/// Running over `a` and then over `b` is running over both.
pub proof fn lemma_run_concat(s: Machine, a: Seq<u8>, b: Seq<u8>, max: nat)
    ensures
        run(s, a + b, max) == run(run(s, a, max), b, max),
    decreases b.len(),
{
    if b.len() > 0 {
        assert((a + b).drop_last() =~= a + b.drop_last());
        lemma_run_concat(s, a, b.drop_last(), max);
    }
}

/// The machine counts the bytes it takes, and takes none past the end of a
/// head.
pub proof fn lemma_run_count(s: Machine, bytes: Seq<u8>, max: nat)
    ensures
        s.count <= run(s, bytes, max).count <= s.count + bytes.len(),
        !halted(run(s, bytes, max)) ==> run(s, bytes, max).count == s.count + bytes.len(),
        run(s, bytes, max).kind == s.kind,
    decreases bytes.len(),
{
    if bytes.len() > 0 {
        lemma_run_count(s, bytes.drop_last(), max);
    }
}

/// The machine, in memory.
struct Parser {
    kind: Kind,
    phase: Phase,
    count: usize,
    method: Vec<u8>,
    target: Vec<u8>,
    vpos: u8,
    version: HttpVersion,
    code_digits: u8,
    code: u16,
    headers: Vec<Header>,
    name: Vec<u8>,
    value: Vec<u8>,
    ws: Vec<u8>,
    error: Error,
}

impl View for Parser {
    type V = Machine;

    closed spec fn view(&self) -> Machine {
        Machine {
            kind: self.kind,
            phase: self.phase,
            count: self.count as nat,
            method: self.method@,
            target: self.target@,
            vpos: self.vpos as nat,
            version: self.version,
            code_digits: self.code_digits as nat,
            code: self.code as nat,
            headers: header_views(self.headers@),
            name: self.name@,
            value: self.value@,
            ws: self.ws@,
            error: self.error,
        }
    }
}

/// Takes the bytes out of `v`, leaving it empty.
fn take_bytes(v: &mut Vec<u8>) -> (r: Vec<u8>)
    ensures
        r@ == old(v)@,
        final(v)@ == Seq::<u8>::empty(),
{
    let mut r: Vec<u8> = Vec::new();
    core::mem::swap(v, &mut r);
    r
}

impl Parser {
    /// The numbers of the machine are within what a head can hold.
    spec fn inv(&self) -> bool {
        &&& self.vpos <= 7
        &&& self.code_digits <= 3
        &&& self.code_digits == 0 ==> self.code == 0
        &&& self.code_digits == 1 ==> self.code < 10
        &&& self.code_digits == 2 ==> self.code < 100
        &&& self.code < 1000
        &&& self.phase == Phase::Code ==> self.code_digits < 3
        &&& self.phase == Phase::Method || self.phase == Phase::Target || self.phase
            == Phase::Version || self.phase == Phase::StatusSp ==> self.code_digits == 0
    }

    fn new(kind: Kind) -> (p: Parser)
        ensures
            p@ == start(kind),
            p.inv(),
    {
        let p = Parser {
            kind,
            phase: match kind {
                Kind::Request => Phase::Method,
                Kind::Response => Phase::Version,
            },
            count: 0,
            method: Vec::new(),
            target: Vec::new(),
            vpos: 0,
            version: HttpVersion::Http11,
            code_digits: 0,
            code: 0,
            headers: Vec::new(),
            name: Vec::new(),
            value: Vec::new(),
            ws: Vec::new(),
            error: Error::Parse,
        };
        assert(header_views(p.headers@) =~= Seq::<HeaderView>::empty());
        p
    }

    fn is_halted(&self) -> (r: bool)
        ensures
            r == halted(self@),
    {
        self.phase == Phase::Done || self.phase == Phase::Failed
    }

    fn failed(self, e: Error) -> (r: Parser)
        requires
            self.inv(),
        ensures
            r@ == fail(self@, e),
            r.inv(),
    {
        let mut p = self;
        p.phase = Phase::Failed;
        p.error = e;
        p
    }

    fn to(self, phase: Phase) -> (r: Parser)
        ensures
            r == (Parser { phase, ..self }),
    {
        let mut p = self;
        p.phase = phase;
        p
    }

    fn field_done(self) -> (r: Parser)
        requires
            self.inv(),
        ensures
            r@ == with_field(self@),
            r.inv(),
    {
        let mut p = self;
        let name = take_bytes(&mut p.name);
        let value = take_bytes(&mut p.value);
        p.headers.push(Header { name, value });
        p.ws = Vec::new();
        p.phase = Phase::LineStart;
        assert(header_views(p.headers@) =~= header_views(self.headers@).push(
            HeaderView { name: self.name@, value: self.value@ },
        ));
        p
    }

    fn version_byte(self, b: u8) -> (r: Parser)
        requires
            self.inv(),
            self.phase == Phase::Version,
        ensures
            r@ == advance(self@, b),
            r.inv(),
    {
        let mut p = self;
        if p.vpos < 5 {
            let want: u8 = if p.vpos == 0 {
                'H' as u8
            } else if p.vpos == 1 || p.vpos == 2 {
                'T' as u8
            } else if p.vpos == 3 {
                'P' as u8
            } else {
                '/' as u8
            };
            if b == want {
                p.vpos = p.vpos + 1;
                p
            } else {
                p.failed(Error::Parse)
            }
        } else if p.vpos == 5 {
            if !is_digit(b) {
                p.failed(Error::Parse)
            } else if b != '1' as u8 {
                p.failed(Error::Version)
            } else {
                p.vpos = 6;
                p
            }
        } else if p.vpos == 6 {
            if b == DOT {
                p.vpos = 7;
                p
            } else {
                p.failed(Error::Parse)
            }
        } else {
            if !is_digit(b) {
                p.failed(Error::Parse)
            } else if b == '0' as u8 || b == '1' as u8 {
                p.version = if b == '0' as u8 {
                    HttpVersion::Http10
                } else {
                    HttpVersion::Http11
                };
                p.phase = match p.kind {
                    Kind::Request => Phase::StartLineEnd,
                    Kind::Response => Phase::StatusSp,
                };
                p
            } else {
                p.failed(Error::Version)
            }
        }
    }

    fn start_line_byte(self, b: u8) -> (r: Parser)
        requires
            self.inv(),
            self.phase == Phase::Method || self.phase == Phase::Target || self.phase
                == Phase::StartLineEnd || self.phase == Phase::StartLineLf || self.phase
                == Phase::StatusSp || self.phase == Phase::Code || self.phase == Phase::AfterCode
                || self.phase == Phase::Reason,
        ensures
            r@ == advance(self@, b),
            r.inv(),
    {
        let mut p = self;
        match p.phase {
            Phase::Method => {
                if is_tchar(b) {
                    p.method.push(b);
                    p
                } else if b == SP && p.method.len() > 0 {
                    p.to(Phase::Target)
                } else {
                    p.failed(Error::Parse)
                }
            },
            Phase::Target => {
                if is_vchar(b) {
                    p.target.push(b);
                    p
                } else if b == SP && p.target.len() > 0 {
                    p.to(Phase::Version)
                } else {
                    p.failed(Error::Parse)
                }
            },
            Phase::StartLineEnd => {
                if b == CR {
                    p.to(Phase::StartLineLf)
                } else if b == LF {
                    p.to(Phase::LineStart)
                } else {
                    p.failed(Error::Parse)
                }
            },
            Phase::StartLineLf => {
                if b == LF {
                    p.to(Phase::LineStart)
                } else {
                    p.failed(Error::Parse)
                }
            },
            Phase::StatusSp => {
                if b == SP {
                    p.to(Phase::Code)
                } else {
                    p.failed(Error::Parse)
                }
            },
            Phase::Code => {
                if is_digit(b) {
                    if p.code_digits >= 2 {
                        p.phase = Phase::AfterCode;
                    }
                    p.code = p.code * 10 + (b - 48) as u16;
                    p.code_digits = p.code_digits + 1;
                    p
                } else {
                    p.failed(Error::Parse)
                }
            },
            Phase::AfterCode => {
                if b == SP {
                    p.to(Phase::Reason)
                } else if b == CR {
                    p.to(Phase::StartLineLf)
                } else if b == LF {
                    p.to(Phase::LineStart)
                } else {
                    p.failed(Error::Parse)
                }
            },
            _ => {
                if b == CR {
                    p.to(Phase::StartLineLf)
                } else if b == LF {
                    p.to(Phase::LineStart)
                } else if is_field_byte(b) || is_ws(b) {
                    p
                } else {
                    p.failed(Error::Parse)
                }
            },
        }
    }

    fn field_byte(self, b: u8) -> (r: Parser)
        requires
            self.inv(),
            self.phase == Phase::LineStart || self.phase == Phase::EndLf || self.phase
                == Phase::Name || self.phase == Phase::ValueLead || self.phase == Phase::Value
                || self.phase == Phase::ValueLf,
        ensures
            r@ == advance(self@, b),
            r.inv(),
    {
        let mut p = self;
        match p.phase {
            Phase::LineStart => {
                if b == CR {
                    p.to(Phase::EndLf)
                } else if b == LF {
                    p.to(Phase::Done)
                } else if is_tchar(b) {
                    p.name = Vec::new();
                    p.name.push(lower(b));
                    p.phase = Phase::Name;
                    p
                } else {
                    p.failed(Error::Parse)
                }
            },
            Phase::EndLf => {
                if b == LF {
                    p.to(Phase::Done)
                } else {
                    p.failed(Error::Parse)
                }
            },
            Phase::Name => {
                if is_tchar(b) {
                    p.name.push(lower(b));
                    p
                } else if b == COLON {
                    p.to(Phase::ValueLead)
                } else {
                    p.failed(Error::Parse)
                }
            },
            Phase::ValueLead => {
                if is_ws(b) {
                    p
                } else if is_field_byte(b) {
                    p.value = Vec::new();
                    p.value.push(b);
                    p.phase = Phase::Value;
                    p
                } else if b == CR {
                    p.to(Phase::ValueLf)
                } else if b == LF {
                    p.field_done()
                } else {
                    p.failed(Error::Parse)
                }
            },
            Phase::Value => {
                if is_field_byte(b) {
                    let ws = take_bytes(&mut p.ws);
                    append_bytes(&mut p.value, ws.as_slice());
                    p.value.push(b);
                    p
                } else if is_ws(b) {
                    p.ws.push(b);
                    p
                } else if b == CR {
                    p.to(Phase::ValueLf)
                } else if b == LF {
                    p.field_done()
                } else {
                    p.failed(Error::Parse)
                }
            },
            _ => {
                if b == LF {
                    p.field_done()
                } else {
                    p.failed(Error::Parse)
                }
            },
        }
    }

    fn step(self, b: u8, max: usize) -> (r: Parser)
        requires
            self.inv(),
            self@.count < usize::MAX,
        ensures
            r@ == step(self@, b, max as nat),
            r.inv(),
    {
        if self.is_halted() {
            return self;
        }
        let count: usize = self.count + 1;
        let mut p = match self.phase {
            Phase::Version => self.version_byte(b),
            Phase::Method | Phase::Target | Phase::StartLineEnd | Phase::StartLineLf
            | Phase::StatusSp | Phase::Code | Phase::AfterCode | Phase::Reason => {
                self.start_line_byte(b)
            },
            _ => self.field_byte(b),
        };
        p.count = count;
        if !p.is_halted() && p.count >= max {
            p.failed(Error::Parse)
        } else {
            p
        }
    }

    /// Runs a fresh machine over `buf`.
    fn run(kind: Kind, buf: &[u8], max: usize) -> (p: Parser)
        ensures
            p@ == run(start(kind), buf@, max as nat),
            p.inv(),
            p@.count <= buf@.len(),
    {
        let mut p = Parser::new(kind);
        let mut i: usize = 0;
        while i < buf.len() && !p.is_halted()
            invariant
                i <= buf@.len(),
                p.inv(),
                p@ == run(start(kind), buf@.take(i as int), max as nat),
                p@.count <= i,
            decreases buf@.len() - i,
        {
            p = p.step(buf[i], max);
            proof {
                assert(buf@.take(i + 1).drop_last() =~= buf@.take(i as int));
            }
            i = i + 1;
        }
        proof {
            assert(buf@ =~= buf@.take(i as int) + buf@.skip(i as int));
            lemma_run_concat(start(kind), buf@.take(i as int), buf@.skip(i as int), max as nat);
            if halted(p@) {
                lemma_run_halted(p@, buf@.skip(i as int), max as nat);
            }
        }
        p
    }
}

/// The view of what a parse returns.
pub open spec fn outcome_view<S: View>(r: Result<Option<(MessageHead<S>, usize)>, Error>) -> Result<
    Option<(MessageHeadView<S::V>, nat)>,
    Error,
> {
    match r {
        Ok(Some((head, n))) => Ok(Some((head@, n as nat))),
        Ok(None) => Ok(None),
        Err(e) => Err(e),
    }
}

/// Parses the head of a request from the front of `buf`.
///
/// Returns the head and the number of bytes it takes once `buf` holds all
/// of it, `None` while `buf` is the start of a head that may still be
/// completed, and an error at the first byte that no head can hold or once
/// `max` bytes have not completed one.
pub fn parse_request(buf: &[u8], max: usize) -> (r: Result<Option<(RequestHead, usize)>, Error>)
    ensures
        outcome_view(r) == parse_request_spec(buf@, max as nat),
        r matches Ok(Some((head, n))) ==> head.subject.wf() && n <= buf@.len(),
{
    let p = Parser::run(Kind::Request, buf, max);
    if p.phase == Phase::Done {
        let Parser { method, target, headers, version, count, .. } = p;
        let head = MessageHead {
            version,
            subject: RequestLine(Method::from_token(method), RequestUri::from_target(target)),
            headers: Headers::from_vec(headers),
        };
        Ok(Some((head, count)))
    } else if p.phase == Phase::Failed {
        Err(p.error)
    } else {
        Ok(None)
    }
}

/// Parses the head of a response from the front of `buf`.
///
/// Returns the head and the number of bytes it takes once `buf` holds all
/// of it, `None` while `buf` is the start of a head that may still be
/// completed, and an error at the first byte that no head can hold or once
/// `max` bytes have not completed one.
pub fn parse_response(buf: &[u8], max: usize) -> (r: Result<Option<(ResponseHead, usize)>, Error>)
    ensures
        outcome_view(r) == parse_response_spec(buf@, max as nat),
        r matches Ok(Some((head, n))) ==> n <= buf@.len(),
{
    let p = Parser::run(Kind::Response, buf, max);
    if p.phase == Phase::Done {
        let Parser { headers, version, count, code, .. } = p;
        let head = MessageHead {
            version,
            subject: StatusCode(code),
            headers: Headers::from_vec(headers),
        };
        Ok(Some((head, count)))
    } else if p.phase == Phase::Failed {
        Err(p.error)
    } else {
        Ok(None)
    }
}

/// The outcome of a parse, once it is a head or an error, stays what it is
/// when more bytes arrive.
pub proof fn lemma_parse_request_stable(bytes: Seq<u8>, more: Seq<u8>, max: nat)
    requires
        parse_request_spec(bytes, max) != Ok::<Option<(RequestHeadView, nat)>, Error>(None),
    ensures
        parse_request_spec(bytes + more, max) == parse_request_spec(bytes, max),
{
    lemma_run_concat(start(Kind::Request), bytes, more, max);
    lemma_run_halted(run(start(Kind::Request), bytes, max), more, max);
}

/// The outcome of a parse, once it is a head or an error, stays what it is
/// when more bytes arrive.
pub proof fn lemma_parse_response_stable(bytes: Seq<u8>, more: Seq<u8>, max: nat)
    requires
        parse_response_spec(bytes, max) != Ok::<Option<(ResponseHeadView, nat)>, Error>(None),
    ensures
        parse_response_spec(bytes + more, max) == parse_response_spec(bytes, max),
{
    lemma_run_concat(start(Kind::Response), bytes, more, max);
    lemma_run_halted(run(start(Kind::Response), bytes, max), more, max);
}

/// A head that the machine completes within a larger limit, and that is
/// longer than `max`, is an error of the parse with limit `max`.
pub proof fn lemma_run_too_large(s: Machine, bytes: Seq<u8>, max: nat, larger: nat)
    requires
        !halted(s),
        s.count < max,
        max <= larger,
        run(s, bytes, larger).phase == Phase::Done,
        run(s, bytes, larger).count > max,
    ensures
        run(s, bytes, max).phase == Phase::Failed,
        run(s, bytes, max).error == Error::Parse,
    decreases bytes.len(),
{
    if bytes.len() > 0 {
        let front = bytes.drop_last();
        let q = run(s, front, larger);
        if halted(q) {
            lemma_run_too_large(s, front, max, larger);
        } else {
            // The last byte completes the head within the larger limit.
            lemma_run_fails_large(s, front, max, larger);
        }
    }
}

/// Where a larger limit lets the machine go on, the machine with limit
/// `max` has either gone the same way or failed for the size of the head.
pub proof fn lemma_run_fails_large(s: Machine, bytes: Seq<u8>, max: nat, larger: nat)
    requires
        !halted(s),
        max <= larger,
        !halted(run(s, bytes, larger)),
    ensures
        run(s, bytes, max) == run(s, bytes, larger) || (run(s, bytes, max).phase == Phase::Failed
            && run(s, bytes, max).error == Error::Parse),
    decreases bytes.len(),
{
    if bytes.len() > 0 {
        lemma_run_fails_large(s, bytes.drop_last(), max, larger);
    }
}

/// A line feed alone ends a line as a carriage return and a line feed do:
/// wherever a line may end, the two leave the machine in the same state,
/// but for the count of bytes.
pub proof fn law_line_feed_alone_ends_a_line(s: Machine)
    requires
        s.phase == Phase::StartLineEnd || s.phase == Phase::AfterCode || s.phase == Phase::Reason
            || s.phase == Phase::LineStart || s.phase == Phase::ValueLead || s.phase
            == Phase::Value,
    ensures
        advance(advance(s, CR), LF) == advance(s, LF),
        !halted(advance(s, CR)),
{
}

/// A control byte is refused wherever it stands: but for the carriage
/// return and the line feed that end a line, and for the tab, every byte
/// below 32, and the byte 127, fails the machine with a parse error.
pub proof fn law_control_byte_is_refused(s: Machine, b: u8)
    requires
        !halted(s),
        (b < 32 && b != CR && b != LF && b != 9) || b == 127,
    ensures
        advance(s, b) == fail(s, Error::Parse),
{
}

/// A tab is whitespace in a reason phrase and in a field value, and refused
/// everywhere else.
pub proof fn law_tab_is_refused_outside_text(s: Machine)
    requires
        !halted(s),
        s.phase != Phase::Reason,
        s.phase != Phase::ValueLead,
        s.phase != Phase::Value,
    ensures
        advance(s, 9) == fail(s, Error::Parse),
{
}

/// A folded line is refused: a line that starts with a space or a tab,
/// which would carry on the field before it, fails the machine with a parse
/// error.
pub proof fn law_folded_line_is_refused(s: Machine, b: u8)
    requires
        s.phase == Phase::LineStart,
        spec_is_ws(b),
    ensures
        advance(s, b) == fail(s, Error::Parse),
{
}

/// A head takes at least one byte: a machine that has come to an end from
/// its start has counted one.
pub proof fn lemma_head_takes_bytes(kind: Kind, bytes: Seq<u8>, max: nat)
    ensures
        halted(run(start(kind), bytes, max)) ==> run(start(kind), bytes, max).count >= 1,
    decreases bytes.len(),
{
    if bytes.len() > 0 {
        lemma_head_takes_bytes(kind, bytes.drop_last(), max);
    }
}

} // verus!
