//! Message heads: the start line and the header fields.
//!
//! Every type here has a view made of plain sequences of bytes, and the
//! view of a method or of a request target is the very token that stands
//! for it on the wire.

use vstd::prelude::*;
use vstd::slice::slice_subrange;
use crate::chars::{
    append_bytes, bytes_eq, bytes_eq_ignore_case, copy_bytes, eq_ignore_case, QUESTION, SLASH, STAR,
};

verus! {

/// The protocol versions that a connection speaks.
#[derive(Debug, Clone, Copy, PartialEq, Eq, Structural)]
pub enum HttpVersion {
    Http10,
    Http11,
}

/// A request method.
#[derive(Debug, Clone, PartialEq, Eq)]
pub enum Method {
    Options,
    Get,
    Post,
    Put,
    Delete,
    Head,
    Trace,
    Connect,
    Patch,
    /// Any other token.
    Extension(Vec<u8>),
}

/// `OPTIONS`
pub open spec fn name_options() -> Seq<u8> {
    seq!['O' as u8, 'P' as u8, 'T' as u8, 'I' as u8, 'O' as u8, 'N' as u8, 'S' as u8]
}

/// `GET`
pub open spec fn name_get() -> Seq<u8> {
    seq!['G' as u8, 'E' as u8, 'T' as u8]
}

/// `POST`
pub open spec fn name_post() -> Seq<u8> {
    seq!['P' as u8, 'O' as u8, 'S' as u8, 'T' as u8]
}

/// `PUT`
pub open spec fn name_put() -> Seq<u8> {
    seq!['P' as u8, 'U' as u8, 'T' as u8]
}

/// `DELETE`
pub open spec fn name_delete() -> Seq<u8> {
    seq!['D' as u8, 'E' as u8, 'L' as u8, 'E' as u8, 'T' as u8, 'E' as u8]
}

/// `HEAD`
pub open spec fn name_head() -> Seq<u8> {
    seq!['H' as u8, 'E' as u8, 'A' as u8, 'D' as u8]
}

/// `TRACE`
pub open spec fn name_trace() -> Seq<u8> {
    seq!['T' as u8, 'R' as u8, 'A' as u8, 'C' as u8, 'E' as u8]
}

/// `CONNECT`
pub open spec fn name_connect() -> Seq<u8> {
    seq!['C' as u8, 'O' as u8, 'N' as u8, 'N' as u8, 'E' as u8, 'C' as u8, 'T' as u8]
}

/// `PATCH`
pub open spec fn name_patch() -> Seq<u8> {
    seq!['P' as u8, 'A' as u8, 'T' as u8, 'C' as u8, 'H' as u8]
}

/// Whether `t` is the name of one of the nine methods that have a variant
/// of their own.
pub open spec fn is_standard_method(t: Seq<u8>) -> bool {
    t == name_options() || t == name_get() || t == name_post() || t == name_put() || t
        == name_delete() || t == name_head() || t == name_trace() || t == name_connect() || t
        == name_patch()
}

impl View for Method {
    type V = Seq<u8>;

    /// The method's token.
    open spec fn view(&self) -> Seq<u8> {
        match self {
            Method::Options => name_options(),
            Method::Get => name_get(),
            Method::Post => name_post(),
            Method::Put => name_put(),
            Method::Delete => name_delete(),
            Method::Head => name_head(),
            Method::Trace => name_trace(),
            Method::Connect => name_connect(),
            Method::Patch => name_patch(),
            Method::Extension(t) => t@,
        }
    }
}

impl Method {
    /// An extension never repeats the name of a method with its own variant,
    /// so a method is known by its token.
    pub open spec fn wf(&self) -> bool {
        self matches Method::Extension(t) ==> !is_standard_method(t@)
    }

    /// The method's token.
    pub fn to_bytes(&self) -> (v: Vec<u8>)
        ensures
            v@ == self@,
    {
        match self {
            Method::Options => vec![
                'O' as u8,
                'P' as u8,
                'T' as u8,
                'I' as u8,
                'O' as u8,
                'N' as u8,
                'S' as u8,
            ],
            Method::Get => vec!['G' as u8, 'E' as u8, 'T' as u8],
            Method::Post => vec!['P' as u8, 'O' as u8, 'S' as u8, 'T' as u8],
            Method::Put => vec!['P' as u8, 'U' as u8, 'T' as u8],
            Method::Delete => vec!['D' as u8, 'E' as u8, 'L' as u8, 'E' as u8, 'T' as u8, 'E' as u8],
            Method::Head => vec!['H' as u8, 'E' as u8, 'A' as u8, 'D' as u8],
            Method::Trace => vec!['T' as u8, 'R' as u8, 'A' as u8, 'C' as u8, 'E' as u8],
            Method::Connect => vec![
                'C' as u8,
                'O' as u8,
                'N' as u8,
                'N' as u8,
                'E' as u8,
                'C' as u8,
                'T' as u8,
            ],
            Method::Patch => vec!['P' as u8, 'A' as u8, 'T' as u8, 'C' as u8, 'H' as u8],
            Method::Extension(t) => copy_bytes(t.as_slice()),
        }
    }

    /// The method that the token `t` names: the variant of that name, or an
    /// extension that holds `t`.
    pub fn from_token(t: Vec<u8>) -> (m: Method)
        ensures
            m@ == t@,
            m.wf(),
            m is Extension <==> !is_standard_method(t@),
    {
        if bytes_eq(t.as_slice(), Method::Get.to_bytes().as_slice()) {
            Method::Get
        } else if bytes_eq(t.as_slice(), Method::Post.to_bytes().as_slice()) {
            Method::Post
        } else if bytes_eq(t.as_slice(), Method::Put.to_bytes().as_slice()) {
            Method::Put
        } else if bytes_eq(t.as_slice(), Method::Delete.to_bytes().as_slice()) {
            Method::Delete
        } else if bytes_eq(t.as_slice(), Method::Head.to_bytes().as_slice()) {
            Method::Head
        } else if bytes_eq(t.as_slice(), Method::Options.to_bytes().as_slice()) {
            Method::Options
        } else if bytes_eq(t.as_slice(), Method::Trace.to_bytes().as_slice()) {
            Method::Trace
        } else if bytes_eq(t.as_slice(), Method::Connect.to_bytes().as_slice()) {
            Method::Connect
        } else if bytes_eq(t.as_slice(), Method::Patch.to_bytes().as_slice()) {
            Method::Patch
        } else {
            Method::Extension(t)
        }
    }

    /// Whether this is `HEAD`.
    pub fn is_head(&self) -> (r: bool)
        ensures
            r == (self is Head),
    {
        match self {
            Method::Head => true,
            _ => false,
        }
    }
}

/// The target of a request, by the four forms it can take.
#[derive(Debug, Clone, PartialEq, Eq)]
pub enum RequestUri {
    /// `*`
    Star,
    /// A path that starts with `/`, and the query behind its first `?`.
    AbsolutePath { path: Vec<u8>, query: Option<Vec<u8>> },
    /// A target with a `/` in it that does not start with one.
    AbsoluteUri(Vec<u8>),
    /// Any other target.
    Authority(Vec<u8>),
}

/// The target that a path and a query make.
pub open spec fn path_and_query(path: Seq<u8>, query: Option<Seq<u8>>) -> Seq<u8> {
    match query {
        Some(q) => path + seq![QUESTION] + q,
        None => path,
    }
}

impl View for RequestUri {
    type V = Seq<u8>;

    /// The target as it stands in the request line.
    open spec fn view(&self) -> Seq<u8> {
        match self {
            RequestUri::Star => seq![STAR],
            RequestUri::AbsolutePath { path, query } => path_and_query(
                path@,
                match query {
                    Some(q) => Some(q@),
                    None => None,
                },
            ),
            RequestUri::AbsoluteUri(u) => u@,
            RequestUri::Authority(a) => a@,
        }
    }
}

impl RequestUri {
    /// Each target has one form only: the form is decided by the bytes.
    pub open spec fn wf(&self) -> bool {
        match self {
            RequestUri::Star => true,
            RequestUri::AbsolutePath { path, query } => path@.len() > 0 && path@[0] == SLASH
                && !path@.contains(QUESTION),
            RequestUri::AbsoluteUri(u) => u@.len() > 0 && u@[0] != SLASH && u@.contains(SLASH),
            RequestUri::Authority(a) => a@ != seq![STAR] && !a@.contains(SLASH),
        }
    }

    /// The target as it stands in the request line.
    pub fn to_bytes(&self) -> (v: Vec<u8>)
        ensures
            v@ == self@,
    {
        match self {
            RequestUri::Star => vec![STAR],
            RequestUri::AbsolutePath { path, query } => {
                let mut v = copy_bytes(path.as_slice());
                match query {
                    Some(q) => {
                        v.push(QUESTION);
                        append_bytes(&mut v, q.as_slice());
                    },
                    None => {},
                }
                v
            },
            RequestUri::AbsoluteUri(u) => copy_bytes(u.as_slice()),
            RequestUri::Authority(a) => copy_bytes(a.as_slice()),
        }
    }

    /// Sorts a target into its form. `*` alone is the star; a target that
    /// starts with `/` is a path, cut at its first `?` into path and query;
    /// another target with a `/` in it is an absolute URI; any other is an
    /// authority.
    pub fn from_target(t: Vec<u8>) -> (u: RequestUri)
        ensures
            u@ == t@,
            u.wf(),
            u is Star <==> t@ == seq![STAR],
            u is AbsolutePath <==> t@.len() > 0 && t@[0] == SLASH,
            u is AbsoluteUri <==> t@.len() > 0 && t@[0] != SLASH && t@.contains(SLASH),
            u matches RequestUri::AbsolutePath { path, query } ==> (query is Some
                <==> t@.contains(QUESTION)),
    {
        if t.len() == 1 && t[0] == STAR {
            RequestUri::Star
        } else if t.len() > 0 && t[0] == SLASH {
            match find_byte(t.as_slice(), QUESTION) {
                Some(i) => {
                    let path = copy_bytes(slice_subrange(t.as_slice(), 0, i));
                    let query = copy_bytes(
                        slice_subrange(t.as_slice(), i + 1, t.len()),
                    );
                    RequestUri::AbsolutePath { path, query: Some(query) }
                },
                None => RequestUri::AbsolutePath { path: t, query: None },
            }
        } else {
            match find_byte(t.as_slice(), SLASH) {
                Some(_) => RequestUri::AbsoluteUri(t),
                None => {
                    RequestUri::Authority(t)
                },
            }
        }
    }
}

/// The index of the first `b` in `s`.
pub fn find_byte(s: &[u8], b: u8) -> (r: Option<usize>)
    ensures
        match r {
            Some(i) => i < s@.len() && s@[i as int] == b && forall|j: int|
                0 <= j < i ==> s@[j] != b,
            None => !s@.contains(b),
        },
{
    let mut i: usize = 0;
    while i < s.len()
        invariant
            i <= s@.len(),
            forall|j: int| 0 <= j < i ==> s@[j] != b,
        decreases s@.len() - i,
    {
        if s[i] == b {
            return Some(i);
        }
        i = i + 1;
    }
    None
}

/// The first line of a request: its method and its target.
#[derive(Debug, Clone, PartialEq, Eq)]
pub struct RequestLine(pub Method, pub RequestUri);

/// What a request line says, as plain bytes.
pub struct RequestLineView {
    pub method: Seq<u8>,
    pub target: Seq<u8>,
}

impl View for RequestLine {
    type V = RequestLineView;

    open spec fn view(&self) -> RequestLineView {
        RequestLineView { method: self.0@, target: self.1@ }
    }
}

impl RequestLine {
    /// Both parts are in the one form that their bytes decide.
    pub open spec fn wf(&self) -> bool {
        self.0.wf() && self.1.wf()
    }
}

/// The three-digit status of a response.
#[derive(Debug, Clone, Copy, PartialEq, Eq, Structural)]
pub struct StatusCode(pub u16);

impl View for StatusCode {
    type V = u16;

    open spec fn view(&self) -> u16 {
        self.0
    }
}

/// One header field.
#[derive(Debug, Clone, PartialEq, Eq)]
pub struct Header {
    pub name: Vec<u8>,
    pub value: Vec<u8>,
}

/// One header field, as plain bytes.
pub struct HeaderView {
    pub name: Seq<u8>,
    pub value: Seq<u8>,
}

impl View for Header {
    type V = HeaderView;

    open spec fn view(&self) -> HeaderView {
        HeaderView { name: self.name@, value: self.value@ }
    }
}

/// The values of the fields called `name`, whatever the case of their
/// letters, in the order of the fields.
pub open spec fn values_of(hs: Seq<HeaderView>, name: Seq<u8>) -> Seq<Seq<u8>>
    decreases hs.len(),
{
    if hs.len() == 0 {
        Seq::empty()
    } else {
        let before = values_of(hs.drop_last(), name);
        if eq_ignore_case(hs.last().name, name) {
            before.push(hs.last().value)
        } else {
            before
        }
    }
}

/// The fields of `hs` that are not called `name`, in their order.
pub open spec fn without_name(hs: Seq<HeaderView>, name: Seq<u8>) -> Seq<HeaderView>
    decreases hs.len(),
{
    if hs.len() == 0 {
        Seq::empty()
    } else {
        let before = without_name(hs.drop_last(), name);
        if eq_ignore_case(hs.last().name, name) {
            before
        } else {
            before.push(hs.last())
        }
    }
}

/// The views of a run of header fields.
pub open spec fn header_views(hs: Seq<Header>) -> Seq<HeaderView> {
    Seq::new(hs.len(), |i: int| hs[i]@)
}

/// The header fields of a message, in their order. A name may occur more
/// than once.
#[derive(Debug, Clone, PartialEq, Eq)]
pub struct Headers {
    entries: Vec<Header>,
}

impl View for Headers {
    type V = Seq<HeaderView>;

    closed spec fn view(&self) -> Seq<HeaderView> {
        header_views(self.entries@)
    }
}

impl Headers {
    /// No field at all.
    pub fn new() -> (h: Headers)
        ensures
            h@ == Seq::<HeaderView>::empty(),
    {
        let h = Headers { entries: Vec::new() };
        h
    }

    /// The fields in `entries`, in that order.
    pub fn from_vec(entries: Vec<Header>) -> (h: Headers)
        ensures
            h@ == header_views(entries@),
    {
        Headers { entries }
    }

    /// The number of fields.
    pub fn len(&self) -> (n: usize)
        ensures
            n == self@.len(),
    {
        self.entries.len()
    }

    /// The name of field `i`.
    pub fn name_at(&self, i: usize) -> (n: &Vec<u8>)
        requires
            i < self@.len(),
        ensures
            n@ == self@[i as int].name,
    {
        &self.entries[i].name
    }

    /// The value of field `i`.
    pub fn value_at(&self, i: usize) -> (v: &Vec<u8>)
        requires
            i < self@.len(),
        ensures
            v@ == self@[i as int].value,
    {
        &self.entries[i].value
    }

    /// Adds a field behind the others.
    pub fn append(&mut self, name: Vec<u8>, value: Vec<u8>)
        ensures
            final(self)@ == old(self)@.push(HeaderView { name: name@, value: value@ }),
    {
        self.entries.push(Header { name, value });
    }

    /// Replaces every field called `name` by one field, behind the others.
    pub fn set(&mut self, name: Vec<u8>, value: Vec<u8>)
        ensures
            final(self)@ == without_name(old(self)@, name@).push(
                HeaderView { name: name@, value: value@ },
            ),
    {
        let mut kept: Vec<Header> = Vec::new();
        let mut i: usize = 0;
        while i < self.entries.len()
            invariant
                i <= self.entries@.len(),
                *self == *old(self),
                header_views(kept@) == without_name(self@.take(i as int), name@),
            decreases self.entries@.len() - i,
        {
            proof {
                assert(self@.take(i + 1).drop_last() =~= self@.take(i as int));
            }
            if !bytes_eq_ignore_case(self.entries[i].name.as_slice(), name.as_slice()) {
                let h = Header {
                    name: copy_bytes(self.entries[i].name.as_slice()),
                    value: copy_bytes(self.entries[i].value.as_slice()),
                };
                kept.push(h);
            }
            i = i + 1;
        }
        assert(self@.take(self@.len() as int) =~= self@);
        kept.push(Header { name, value });
        self.entries = kept;
    }

    /// The value of the first field called `name`, whatever the case of its
    /// letters.
    pub fn get(&self, name: &[u8]) -> (r: Option<&Vec<u8>>)
        ensures
            match r {
                Some(v) => values_of(self@, name@).len() > 0 && v@ == values_of(self@, name@)[0],
                None => values_of(self@, name@).len() == 0,
            },
    {
        let mut i: usize = 0;
        while i < self.entries.len()
            invariant
                i <= self.entries@.len(),
                values_of(self@.take(i as int), name@).len() == 0,
            decreases self.entries@.len() - i,
        {
            proof {
                assert(self@.take(i + 1).drop_last() =~= self@.take(i as int));
            }
            if bytes_eq_ignore_case(self.entries[i].name.as_slice(), name) {
                proof {
                    lemma_values_of_prefix(self@, name@, i + 1);
                }
                return Some(&self.entries[i].value);
            }
            i = i + 1;
        }
        assert(self@.take(self@.len() as int) =~= self@);
        None
    }

    /// The values of the fields called `name`, in the order of the fields.
    pub fn get_all(&self, name: &[u8]) -> (r: Vec<Vec<u8>>)
        ensures
            r@.len() == values_of(self@, name@).len(),
            forall|k: int| 0 <= k < r@.len() ==> (#[trigger] r@[k])@ == values_of(self@, name@)[k],
    {
        let mut out: Vec<Vec<u8>> = Vec::new();
        let mut i: usize = 0;
        while i < self.entries.len()
            invariant
                i <= self.entries@.len(),
                out@.len() == values_of(self@.take(i as int), name@).len(),
                forall|k: int|
                    0 <= k < out@.len() ==> (#[trigger] out@[k])@ == values_of(
                        self@.take(i as int),
                        name@,
                    )[k],
            decreases self.entries@.len() - i,
        {
            proof {
                assert(self@.take(i + 1).drop_last() =~= self@.take(i as int));
            }
            if bytes_eq_ignore_case(self.entries[i].name.as_slice(), name) {
                out.push(copy_bytes(self.entries[i].value.as_slice()));
            }
            i = i + 1;
        }
        assert(self@.take(self@.len() as int) =~= self@);
        out
    }
}

/// The values found in a prefix of the fields open the values found in all
/// of them.
pub proof fn lemma_values_of_prefix(hs: Seq<HeaderView>, name: Seq<u8>, n: int)
    requires
        0 <= n <= hs.len(),
    ensures
        values_of(hs.take(n), name).len() <= values_of(hs, name).len(),
        forall|k: int|
            0 <= k < values_of(hs.take(n), name).len() ==> values_of(hs.take(n), name)[k]
                == values_of(hs, name)[k],
    decreases hs.len() - n,
{
    if n == hs.len() {
        assert(hs.take(n) =~= hs);
    } else {
        lemma_values_of_prefix(hs, name, n + 1);
        assert(hs.take(n + 1).drop_last() =~= hs.take(n));
    }
}

/// A message head: the version, the subject (a request line or a status)
/// and the header fields.
#[derive(Debug, Clone, PartialEq, Eq)]
pub struct MessageHead<S> {
    pub version: HttpVersion,
    pub subject: S,
    pub headers: Headers,
}

/// What a message head says, as plain values.
pub struct MessageHeadView<V> {
    pub version: HttpVersion,
    pub subject: V,
    pub headers: Seq<HeaderView>,
}

impl<S: View> View for MessageHead<S> {
    type V = MessageHeadView<S::V>;

    open spec fn view(&self) -> MessageHeadView<S::V> {
        MessageHeadView { version: self.version, subject: self.subject@, headers: self.headers@ }
    }
}

/// The head of a request.
pub type RequestHead = MessageHead<RequestLine>;

/// The head of a response.
pub type ResponseHead = MessageHead<StatusCode>;

/// What the head of a request says.
pub type RequestHeadView = MessageHeadView<RequestLineView>;

/// What the head of a response says.
pub type ResponseHeadView = MessageHeadView<u16>;

impl Default for HttpVersion {
    /// HTTP/1.1
    fn default() -> (v: HttpVersion)
        ensures
            v == HttpVersion::Http11,
    {
        HttpVersion::Http11
    }
}

impl Default for StatusCode {
    /// 200
    fn default() -> (s: StatusCode)
        ensures
            s == StatusCode(200),
    {
        StatusCode(200)
    }
}

impl Default for Headers {
    /// No field at all.
    fn default() -> (h: Headers)
        ensures
            h@ == Seq::<HeaderView>::empty(),
    {
        Headers::new()
    }
}

impl Default for RequestLine {
    /// `GET /`
    fn default() -> (r: RequestLine)
        ensures
            r@ == (RequestLineView { method: name_get(), target: seq![SLASH] }),
            r.wf(),
    {
        let path: Vec<u8> = vec![SLASH];
        let r = RequestLine(Method::Get, RequestUri::AbsolutePath { path, query: None });
        assert(r.1.wf()) by {
            assert(path@ =~= seq![SLASH]);
        }
        r
    }
}

impl<S: Default> Default for MessageHead<S> {
    /// HTTP/1.1, the subject that `S` starts with, and no field.
    fn default() -> (h: MessageHead<S>)
        ensures
            h.version == HttpVersion::Http11,
            h.headers@ == Seq::<HeaderView>::empty(),
    {
        MessageHead { version: HttpVersion::Http11, subject: S::default(), headers: Headers::new() }
    }
}

} // verus!
