//! Bodies as the code above the connection holds them: the chunks that
//! have come, in their order.

use vstd::prelude::*;

verus! {

/// The views of a run of chunks.
pub open spec fn chunk_views(chunks: Seq<Vec<u8>>) -> Seq<Seq<u8>> {
    Seq::new(chunks.len(), |i: int| chunks[i]@)
}

/// The chunks of a body, oldest first.
#[derive(Debug, Clone, PartialEq, Eq)]
pub struct Body {
    chunks: Vec<Vec<u8>>,
}

impl View for Body {
    type V = Seq<Seq<u8>>;

    closed spec fn view(&self) -> Seq<Seq<u8>> {
        chunk_views(self.chunks@)
    }
}

impl Body {
    /// A body without a chunk.
    pub fn empty() -> (b: Body)
        ensures
            b@ == Seq::<Seq<u8>>::empty(),
    {
        let b = Body { chunks: Vec::new() };
        b
    }

    /// The number of chunks.
    pub fn len(&self) -> (n: usize)
        ensures
            n == self@.len(),
    {
        self.chunks.len()
    }

    /// Adds a chunk behind the others.
    pub fn push(&mut self, chunk: Vec<u8>)
        ensures
            final(self)@ == old(self)@.push(chunk@),
    {
        self.chunks.push(chunk);
    }

    /// The chunks, oldest first.
    pub fn into_chunks(self) -> (v: Vec<Vec<u8>>)
        ensures
            chunk_views(v@) == self@,
    {
        self.chunks
    }
}

/// What can be sent as the body of a response.
pub trait IntoBody: Sized {
    /// The chunks that the body will have.
    spec fn chunks(&self) -> Seq<Seq<u8>>;

    /// The body.
    fn into(self) -> (b: Body)
        ensures
            b@ == self.chunks(),
    ;
}

impl IntoBody for Body {
    open spec fn chunks(&self) -> Seq<Seq<u8>> {
        self@
    }

    fn into(self) -> (b: Body) {
        self
    }
}

impl IntoBody for Vec<u8> {
    /// The bytes, as one chunk.
    open spec fn chunks(&self) -> Seq<Seq<u8>> {
        seq![self@]
    }

    fn into(self) -> (b: Body) {
        let mut b = Body::empty();
        b.push(self);
        b
    }
}

} // verus!
