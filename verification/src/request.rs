//! Requests as the code above the connection sees them.

use vstd::prelude::*;
use crate::body::Body;
use crate::chars::copy_bytes;
use crate::head::{
    HeaderView, Headers, HttpVersion, MessageHead, Method, RequestHead, RequestLine, RequestUri,
};

verus! {

/// The path of the URL that the bytes `uri` write, as the `url` crate reads
/// it: none where the bytes are no text or the text is no absolute URL.
pub uninterp spec fn url_path(uri: Seq<u8>) -> Option<Seq<u8>>;

/// The query of the URL that the bytes `uri` write, as the `url` crate
/// reads it: none where the bytes are no text, the text is no absolute URL,
/// or the URL has no query.
pub uninterp spec fn url_query(uri: Seq<u8>) -> Option<Seq<u8>>;

/// The view of bytes that may be missing.
pub open spec fn bytes_view(b: Option<Vec<u8>>) -> Option<Seq<u8>> {
    match b {
        Some(v) => Some(v@),
        None => None,
    }
}

/// The path of an absolute URI.
///
/// Calls `Url::parse` of the `url` crate on the bytes, read as text, and
/// `Url::path` on what it gives. What comes back depends on the bytes
/// alone, and is what `url_path` names: the contract says no more of it.
#[verifier::external_body]
fn path_of_uri(uri: &[u8]) -> (r: Option<Vec<u8>>)
    ensures
        bytes_view(r) == url_path(uri@),
{
    let text = core::str::from_utf8(uri).ok()?;
    let url = url::Url::parse(text).ok()?;
    Some(url.path().as_bytes().to_vec())
}

/// The query of an absolute URI.
///
/// Calls `Url::parse` of the `url` crate on the bytes, read as text, and
/// `Url::query` on what it gives. What comes back depends on the bytes
/// alone, and is what `url_query` names: the contract says no more of it.
#[verifier::external_body]
fn query_of_uri(uri: &[u8]) -> (r: Option<Vec<u8>>)
    ensures
        bytes_view(r) == url_query(uri@),
{
    let text = core::str::from_utf8(uri).ok()?;
    let url = url::Url::parse(text).ok()?;
    Some(url.query()?.as_bytes().to_vec())
}

/// A request: its head, taken apart, and its body, if one has come.
#[derive(Debug, Clone, PartialEq, Eq)]
pub struct Request {
    method: Method,
    uri: RequestUri,
    version: HttpVersion,
    headers: Headers,
    body: Option<Body>,
}

/// A request, as plain values.
pub struct RequestView {
    pub method: Seq<u8>,
    pub target: Seq<u8>,
    pub version: HttpVersion,
    pub headers: Seq<HeaderView>,
    pub body: Option<Seq<Seq<u8>>>,
}

impl View for Request {
    type V = RequestView;

    closed spec fn view(&self) -> RequestView {
        RequestView {
            method: self.method@,
            target: self.uri@,
            version: self.version,
            headers: self.headers@,
            body: match self.body {
                Some(b) => Some(b@),
                None => None,
            },
        }
    }
}

impl Request {
    /// The target, sorted into its form.
    pub closed spec fn spec_uri(&self) -> RequestUri {
        self.uri
    }

    /// The method, by its variant.
    pub closed spec fn spec_method(&self) -> Method {
        self.method
    }

    /// The request that a head announces, without a body.
    pub fn new(incoming: RequestHead) -> (r: Request)
        ensures
            r@ == (RequestView {
                method: incoming@.subject.method,
                target: incoming@.subject.target,
                version: incoming@.version,
                headers: incoming@.headers,
                body: None,
            }),
            r.spec_uri() == incoming.subject.1,
            r.spec_method() == incoming.subject.0,
    {
        let MessageHead { version, subject, headers } = incoming;
        let RequestLine(method, uri) = subject;
        Request { method, uri, version, headers, body: None }
    }

    /// The method.
    pub fn method(&self) -> (m: &Method)
        ensures
            m@ == self@.method,
            *m == self.spec_method(),
    {
        &self.method
    }

    /// The header fields.
    pub fn headers(&self) -> (h: &Headers)
        ensures
            h@ == self@.headers,
    {
        &self.headers
    }

    /// The target.
    pub fn uri(&self) -> (u: &RequestUri)
        ensures
            u@ == self@.target,
            *u == self.spec_uri(),
    {
        &self.uri
    }

    /// The version.
    pub fn version(&self) -> (v: &HttpVersion)
        ensures
            *v == self@.version,
    {
        &self.version
    }

    /// The path of the target: that of a target in path form, the path of
    /// the URL in an absolute URI, and none for the other forms.
    pub fn path(&self) -> (p: Option<Vec<u8>>)
        ensures
            bytes_view(p) == match self.spec_uri() {
                RequestUri::AbsolutePath { path, query } => Some(path@),
                RequestUri::AbsoluteUri(u) => url_path(u@),
                _ => None,
            },
    {
        match &self.uri {
            RequestUri::AbsolutePath { path, query } => Some(copy_bytes(path.as_slice())),
            RequestUri::AbsoluteUri(u) => path_of_uri(u.as_slice()),
            _ => None,
        }
    }

    /// The query of the target: that of a target in path form, the query of
    /// the URL in an absolute URI, and none for the other forms or where the
    /// target has none.
    pub fn query(&self) -> (q: Option<Vec<u8>>)
        ensures
            bytes_view(q) == match self.spec_uri() {
                RequestUri::AbsolutePath { path, query } => bytes_view(query),
                RequestUri::AbsoluteUri(u) => url_query(u@),
                _ => None,
            },
    {
        match &self.uri {
            RequestUri::AbsolutePath { path, query } => match query {
                Some(found) => Some(copy_bytes(found.as_slice())),
                None => None,
            },
            RequestUri::AbsoluteUri(u) => query_of_uri(u.as_slice()),
            _ => None,
        }
    }

    /// Puts the chunks of a body that has come with the request.
    pub fn set_body(&mut self, body: Body)
        ensures
            final(self)@ == (RequestView { body: Some(body@), ..old(self)@ }),
            final(self).spec_uri() == old(self).spec_uri(),
            final(self).spec_method() == old(self).spec_method(),
    {
        self.body = Some(body);
    }

    /// The body of the request; one without a chunk if none has come.
    pub fn body(self) -> (b: Body)
        ensures
            b@ == match self@.body {
                Some(chunks) => chunks,
                None => Seq::<Seq<u8>>::empty(),
            },
    {
        match self.body {
            Some(b) => b,
            None => Body::empty(),
        }
    }

    /// The parts of the head.
    pub fn deconstruct(self) -> (r: (Method, RequestUri, HttpVersion, Headers))
        ensures
            r.0 == self.spec_method(),
            r.0@ == self@.method,
            r.1 == self.spec_uri(),
            r.2 == self@.version,
            r.3@ == self@.headers,
    {
        (self.method, self.uri, self.version, self.headers)
    }
}

} // verus!
