//! Responses as the code above the connection makes them.

use vstd::prelude::*;
use crate::body::{chunk_views, Body, IntoBody};
use crate::frame::{Frame, FrameView};
use crate::head::{
    without_name, HeaderView, Headers, HttpVersion, MessageHead, MessageHeadView, ResponseHead,
    ResponseHeadView, StatusCode,
};

verus! {

/// A response: its head and, if it has one, its body. A new response has
/// status 200, version HTTP/1.1, no header field and no body.
#[derive(Debug, Clone, PartialEq, Eq)]
pub struct Response {
    pub head: MessageHead<StatusCode>,
    pub body: Option<Body>,
}

/// The head of a new response.
pub open spec fn default_head() -> ResponseHeadView {
    MessageHeadView { version: HttpVersion::Http11, subject: 200u16, headers: Seq::empty() }
}

/// The frames that carry a response with these chunks for a body: the
/// head, each chunk and the end of the body.
pub open spec fn body_frames(chunks: Seq<Seq<u8>>) -> Seq<FrameView<ResponseHeadView>> {
    Seq::new(
        chunks.len() + 1,
        |i: int|
            if i < chunks.len() {
                FrameView::Body { chunk: Some(chunks[i]) }
            } else {
                FrameView::Body { chunk: None }
            },
    )
}

/// The frames that carry a response: its head alone if it has no body,
/// else its head, each chunk of its body and the end of the body.
pub open spec fn response_frames(head: ResponseHeadView, body: Option<Seq<Seq<u8>>>) -> Seq<
    FrameView<ResponseHeadView>,
> {
    match body {
        None => seq![FrameView::Message { message: head, body: false }],
        Some(chunks) => seq![FrameView::Message { message: head, body: true }] + body_frames(
            chunks,
        ),
    }
}

/// The views of a run of frames.
pub open spec fn frame_views(frames: Seq<Frame<ResponseHead>>) -> Seq<FrameView<ResponseHeadView>> {
    Seq::new(frames.len(), |i: int| frames[i]@)
}

impl Response {
    /// The chunks of the body, if the response has one.
    pub open spec fn spec_body(&self) -> Option<Seq<Seq<u8>>> {
        match self.body {
            Some(b) => Some(b@),
            None => None,
        }
    }

    /// A new response.
    pub fn new() -> (r: Response)
        ensures
            r.head@ == default_head(),
            r.body is None,
    {
        Response {
            head: MessageHead {
                version: HttpVersion::Http11,
                subject: StatusCode(200),
                headers: Headers::new(),
            },
            body: None,
        }
    }

    /// The response with this status.
    pub fn status(self, status: StatusCode) -> (r: Response)
        ensures
            r.head@ == (MessageHeadView { subject: status.0, ..self.head@ }),
            r.body == self.body,
    {
        let mut r = self;
        r.head.subject = status;
        r
    }

    /// The response with this header field in place of every field of that
    /// name.
    pub fn header(self, name: Vec<u8>, value: Vec<u8>) -> (r: Response)
        ensures
            r.head@ == (MessageHeadView {
                headers: without_name(self.head@.headers, name@).push(
                    HeaderView { name: name@, value: value@ },
                ),
                ..self.head@
            }),
            r.body == self.body,
    {
        let mut r = self;
        r.head.headers.set(name, value);
        r
    }

    /// The response with these header fields in place of its own.
    pub fn headers(self, headers: Headers) -> (r: Response)
        ensures
            r.head@ == (MessageHeadView { headers: headers@, ..self.head@ }),
            r.body == self.body,
    {
        let mut r = self;
        r.head.headers = headers;
        r
    }

    /// The response with this body.
    pub fn body<T: IntoBody>(self, body: T) -> (r: Response)
        ensures
            r.head == self.head,
            r.spec_body() == Some(body.chunks()),
    {
        let mut r = self;
        r.body = Some(IntoBody::into(body));
        r
    }

    /// The frames that carry the response, in the order in which the
    /// connection takes them.
    pub fn into_frames(self) -> (frames: Vec<Frame<ResponseHead>>)
        ensures
            frame_views(frames@) == response_frames(self.head@, self.spec_body()),
    {
        let Response { head, body } = self;
        let mut frames: Vec<Frame<ResponseHead>> = Vec::new();
        match body {
            None => {
                frames.push(Frame::Message { message: head, body: false });
            },
            Some(b) => {
                let ghost all = b@;
                frames.push(Frame::Message { message: head, body: true });
                let mut chunks = b.into_chunks();
                let n: usize = chunks.len();
                let mut i: usize = 0;
                let ghost start = chunks@;
                while i < n
                    invariant
                        i <= n,
                        n == start.len(),
                        chunk_views(start) == all,
                        chunks@.len() == n - i,
                        forall|k: int| 0 <= k < n - i ==> chunks@[k] == start[i + k],
                        frames@.len() == i + 1,
                        frames@[0]@ == (FrameView::Message { message: head@, body: true }),
                        forall|k: int|
                            0 <= k < i ==> (#[trigger] frames@[k + 1])@ == (FrameView::<
                                ResponseHeadView,
                            >::Body { chunk: Some(all[k]) }),
                    decreases n - i,
                {
                    let chunk = chunks.remove(0);
                    frames.push(Frame::Body { chunk: Some(chunk) });
                    i = i + 1;
                }
                frames.push(Frame::Body { chunk: None });
                assert(frame_views(frames@) =~= response_frames(head@, Some(all))) by {
                    let want = response_frames(head@, Some(all));
                    assert forall|k: int| 0 <= k < want.len() implies frame_views(frames@)[k]
                        == want[k] by {
                        if 0 < k <= n {
                            assert(frames@[(k - 1) + 1]@ == (FrameView::<ResponseHeadView>::Body {
                                chunk: Some(all[k - 1]),
                            }));
                        }
                    }
                }
            },
        }
        frames
    }
}

impl Default for Response {
    fn default() -> (r: Response)
        ensures
            r.head@ == default_head(),
            r.body is None,
    {
        Response::new()
    }
}

} // verus!
