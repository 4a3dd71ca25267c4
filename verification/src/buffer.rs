//! A growable, read-once FIFO byte region.
//!
//! Bytes are appended at the write cursor and taken from the read cursor.
//! The storage doubles when it runs out of room, slides the unread bytes to
//! the front when more than half of it has been read, and never grows past a
//! ceiling fixed at construction.

use vstd::prelude::*;
use vstd::slice::slice_subrange;

verus! {

/// Carriage return.
pub const CR: u8 = 13;

/// Line feed.
pub const LF: u8 = 10;

/// Storage a buffer starts with unless told otherwise: 8 KiB.
pub const DEFAULT_INITIAL_CAPACITY: usize = 8192;

/// Ceiling of a buffer unless told otherwise: 1 MiB.
pub const DEFAULT_CEILING: usize = 1048576;

/// The request would take the buffer past its ceiling.
#[derive(Debug, Clone, Copy, PartialEq, Eq)]
pub struct TooLarge;

/// The length of the longest run of CR and LF bytes at the front of `s`.
pub open spec fn leading_line_breaks(s: Seq<u8>) -> nat
    decreases s.len(),
{
    if s.len() > 0 && (s[0] == CR || s[0] == LF) {
        1 + leading_line_breaks(s.skip(1))
    } else {
        0
    }
}

/// The capacity reached from `cap` by doubling, never past `ceiling`, until
/// it is at least `need`.
pub open spec fn grown_capacity(cap: nat, need: nat, ceiling: nat) -> nat
    decreases ceiling - cap,
{
    if cap >= need || cap >= ceiling {
        cap
    } else {
        let doubled = if cap == 0 { 1 } else { 2 * cap };
        grown_capacity(if doubled < ceiling { doubled } else { ceiling }, need, ceiling)
    }
}

/// Doubling reaches every need that the ceiling allows.
pub proof fn lemma_grown_capacity_bounds(cap: nat, need: nat, ceiling: nat)
    requires
        cap <= ceiling,
        need <= ceiling,
    ensures
        need <= grown_capacity(cap, need, ceiling) <= ceiling,
        cap <= grown_capacity(cap, need, ceiling),
    decreases ceiling - cap,
{
    if cap < need && cap < ceiling {
        let doubled = if cap == 0 { 1 } else { 2 * cap };
        let next = if doubled < ceiling { doubled } else { ceiling };
        lemma_grown_capacity_bounds(next, need, ceiling);
    }
}

/// The run of line breaks at the front of `s` lies within `s`, and the byte
/// after it, if there is one, is no line break.
pub proof fn lemma_leading_line_breaks(s: Seq<u8>)
    ensures
        leading_line_breaks(s) <= s.len(),
        forall|i: int| 0 <= i < leading_line_breaks(s) ==> s[i] == CR || s[i] == LF,
        leading_line_breaks(s) < s.len() ==> s[leading_line_breaks(s) as int] != CR
            && s[leading_line_breaks(s) as int] != LF,
    decreases s.len(),
{
    if s.len() > 0 && (s[0] == CR || s[0] == LF) {
        lemma_leading_line_breaks(s.skip(1));
        assert forall|i: int| 0 <= i < leading_line_breaks(s) implies s[i] == CR || s[i] == LF by {
            if i > 0 {
                assert(s[i] == s.skip(1)[i - 1]);
            }
        }
    }
}

/// The part of `slice` from index `at` on, to write into.
///
/// Calls the index operator of std's slices with a range that is open at
/// its end (`&mut slice[at..]`). Says of it what std's documentation says of
/// a mutable subslice: it holds the elements from `at` on, a slice does not
/// change its length, and what is written to it is written to those
/// elements of `slice` and to no other.
#[verifier::external_body]
fn slice_from(slice: &mut [u8], at: usize) -> (part: &mut [u8])
    requires
        at <= old(slice)@.len(),
    ensures
        part@ == old(slice)@.skip(at as int),
        final(part)@.len() == part@.len(),
        final(slice)@ == old(slice)@.take(at as int) + final(part)@,
{
    &mut slice[at..]
}

/// A byte FIFO over one contiguous storage.
#[derive(Debug)]
pub struct ByteBuffer {
    data: Vec<u8>,
    read_cursor: usize,
    write_cursor: usize,
    ceiling: usize,
}

impl View for ByteBuffer {
    type V = Seq<u8>;

    /// The unread bytes, oldest first.
    closed spec fn view(&self) -> Seq<u8> {
        self.data@.subrange(self.read_cursor as int, self.write_cursor as int)
    }
}

impl ByteBuffer {
    /// Index in the storage of the next byte to read.
    pub closed spec fn read_cursor(&self) -> nat {
        self.read_cursor as nat
    }

    /// Index in the storage of the next byte to write.
    pub closed spec fn write_cursor(&self) -> nat {
        self.write_cursor as nat
    }

    /// Size of the storage.
    pub closed spec fn capacity(&self) -> nat {
        self.data@.len()
    }

    /// Size that the storage never exceeds.
    pub closed spec fn ceiling(&self) -> nat {
        self.ceiling as nat
    }

    /// `read_cursor <= write_cursor <= capacity <= ceiling`.
    pub open spec fn wf(&self) -> bool {
        &&& self.read_cursor() <= self.write_cursor()
        &&& self.write_cursor() <= self.capacity()
        &&& self.capacity() <= self.ceiling()
        &&& self@.len() == self.write_cursor() - self.read_cursor()
        &&& self.tail().len() == self.capacity() - self.write_cursor()
    }

    /// Room left behind the write cursor.
    pub open spec fn spare(&self) -> nat {
        (self.capacity() - self.write_cursor()) as nat
    }

    /// What the storage holds behind the write cursor.
    pub closed spec fn tail(&self) -> Seq<u8> {
        self.data@.skip(self.write_cursor as int)
    }

    /// An empty buffer whose storage starts at `initial_capacity`, or at
    /// `ceiling` if that is smaller.
    pub fn new(initial_capacity: usize, ceiling: usize) -> (b: ByteBuffer)
        ensures
            b.wf(),
            b@ == Seq::<u8>::empty(),
            b.ceiling() == ceiling,
            b.capacity() == if initial_capacity <= ceiling { initial_capacity } else { ceiling },
            b.read_cursor() == 0,
            b.write_cursor() == 0,
    {
        let cap: usize = if initial_capacity <= ceiling { initial_capacity } else { ceiling };
        let b = ByteBuffer { data: vec![0u8; cap], read_cursor: 0, write_cursor: 0, ceiling };
        b
    }

    /// Number of unread bytes.
    pub fn len(&self) -> (n: usize)
        requires
            self.wf(),
        ensures
            n == self@.len(),
    {
        self.write_cursor - self.read_cursor
    }

    /// Whether no unread byte is left.
    pub fn is_empty(&self) -> (e: bool)
        requires
            self.wf(),
        ensures
            e <==> self@.len() == 0,
    {
        self.write_cursor == self.read_cursor
    }

    /// The ceiling given at construction.
    pub fn max_len(&self) -> (n: usize)
        ensures
            n == self.ceiling(),
    {
        self.ceiling
    }

    /// The size of the storage.
    pub fn allocated(&self) -> (n: usize)
        ensures
            n == self.capacity(),
    {
        self.data.len()
    }

    /// The room left behind the write cursor.
    pub fn room(&self) -> (n: usize)
        requires
            self.wf(),
        ensures
            n == self.spare(),
    {
        self.data.len() - self.write_cursor
    }

    /// The unread bytes as one slice.
    pub fn readable(&self) -> (s: &[u8])
        requires
            self.wf(),
        ensures
            s@ == self@,
    {
        slice_subrange(self.data.as_slice(), self.read_cursor, self.write_cursor)
    }

    /// The unread byte at offset `i`.
    pub fn get(&self, i: usize) -> (b: u8)
        requires
            self.wf(),
            i < self@.len(),
        ensures
            b == self@[i as int],
    {
        self.data[self.read_cursor + i]
    }

    /// The room behind the write cursor, to write into. What is written
    /// there is no part of the buffer until `commit` makes it one.
    pub fn writable(&mut self) -> (s: &mut [u8])
        requires
            old(self).wf(),
        ensures
            s@ == old(self).tail(),
            s@.len() == old(self).spare(),
            final(self).tail() == final(s)@,
            final(self).wf(),
            final(self)@ == old(self)@,
            final(self).ceiling() == old(self).ceiling(),
            final(self).capacity() == old(self).capacity(),
            final(self).read_cursor() == old(self).read_cursor(),
            final(self).write_cursor() == old(self).write_cursor(),
    {
        let at: usize = self.write_cursor;
        let tail = slice_from(self.data.as_mut_slice(), at);
        tail
    }

    /// Makes the first `n` bytes behind the write cursor part of the
    /// buffer.
    pub fn commit(&mut self, n: usize)
        requires
            old(self).wf(),
            n <= old(self).spare(),
        ensures
            final(self).wf(),
            final(self)@ == old(self)@ + old(self).tail().take(n as int),
            final(self).tail() == old(self).tail().skip(n as int),
            final(self).ceiling() == old(self).ceiling(),
            final(self).capacity() == old(self).capacity(),
            final(self).read_cursor() == old(self).read_cursor(),
            final(self).write_cursor() == old(self).write_cursor() + n,
    {
        self.write_cursor = self.write_cursor + n;
    }

    /// Drops the first `n` unread bytes. A buffer that is empty then starts
    /// at the front of its storage again.
    pub fn consume(&mut self, n: usize)
        requires
            old(self).wf(),
            n <= old(self)@.len(),
        ensures
            final(self).wf(),
            final(self)@ == old(self)@.skip(n as int),
            final(self).ceiling() == old(self).ceiling(),
            final(self).capacity() == old(self).capacity(),
            n < old(self)@.len() ==> final(self).read_cursor() == old(self).read_cursor() + n
                && final(self).write_cursor() == old(self).write_cursor(),
            n == old(self)@.len() ==> final(self).read_cursor() == 0
                && final(self).write_cursor() == 0,
    {
        self.read_cursor = self.read_cursor + n;
        if self.read_cursor == self.write_cursor {
            self.read_cursor = 0;
            self.write_cursor = 0;
        }
    }

    /// Drops every CR and LF byte at the front: the empty lines that a peer
    /// may send between two messages.
    pub fn consume_leading_empty_lines(&mut self)
        requires
            old(self).wf(),
        ensures
            final(self).wf(),
            final(self)@ == old(self)@.skip(leading_line_breaks(old(self)@) as int),
            final(self).ceiling() == old(self).ceiling(),
            final(self).capacity() == old(self).capacity(),
    {
        let len: usize = self.len();
        let mut k: usize = 0;
        assert(self@.skip(0) =~= self@);
        while k < len && (self.data[self.read_cursor + k] == CR || self.data[self.read_cursor + k]
            == LF)
            invariant
                self.wf(),
                *self == *old(self),
                len == self@.len(),
                k <= len,
                k + leading_line_breaks(self@.skip(k as int)) == leading_line_breaks(self@),
            decreases len - k,
        {
            assert(self@.skip(k as int).skip(1) =~= self@.skip(k + 1));
            k = k + 1;
        }
        self.consume(k);
    }

    /// Slides the unread bytes to the front of the storage.
    fn compact(&mut self)
        requires
            old(self).wf(),
        ensures
            final(self).wf(),
            final(self)@ == old(self)@,
            final(self).ceiling() == old(self).ceiling(),
            final(self).capacity() == old(self).capacity(),
            final(self).read_cursor() == 0,
            final(self).write_cursor() == old(self)@.len(),
    {
        let start: usize = self.read_cursor;
        let len: usize = self.write_cursor - self.read_cursor;
        if start == 0 {
            return ;
        }
        let mut i: usize = 0;
        while i < len
            invariant
                i <= len,
                start > 0,
                start + len <= self.data@.len(),
                self.data@.len() == old(self).data@.len(),
                self.read_cursor == old(self).read_cursor,
                self.write_cursor == old(self).write_cursor,
                self.ceiling == old(self).ceiling,
                start == old(self).read_cursor,
                len == old(self).write_cursor - old(self).read_cursor,
                forall|j: int| 0 <= j < i ==> self.data@[j] == old(self).data@[start + j],
                forall|j: int| i <= j < self.data@.len() ==> self.data@[j] == old(self).data@[j],
            decreases len - i,
        {
            let b: u8 = self.data[start + i];
            self.data.set(i, b);
            i = i + 1;
        }
        self.read_cursor = 0;
        self.write_cursor = len;
    }

    /// Makes room for `n` more bytes behind the write cursor.
    ///
    /// Fails, leaving the buffer as it was, exactly when the unread bytes and
    /// `n` more would not fit under the ceiling. Otherwise the unread bytes
    /// stay as they are. Where the room is not there yet, the unread bytes
    /// are first slid to the front if more than half of the storage has been
    /// read (or if the ceiling leaves no other way), and the storage then
    /// doubles until the request fits.
    pub fn reserve(&mut self, n: usize) -> (r: Result<(), TooLarge>)
        requires
            old(self).wf(),
        ensures
            final(self).wf(),
            final(self)@ == old(self)@,
            final(self).ceiling() == old(self).ceiling(),
            r is Ok <==> old(self)@.len() + n <= old(self).ceiling(),
            r is Ok ==> final(self).spare() >= n,
            r is Err || old(self).spare() >= n ==> *final(self) == *old(self),
            r is Ok && old(self).spare() < n ==> {
                let slid = old(self).read_cursor() > old(self).capacity() / 2
                    || old(self).write_cursor() + n > old(self).ceiling();
                &&& final(self).read_cursor() == if slid { 0 } else { old(self).read_cursor() }
                &&& final(self).capacity() == grown_capacity(
                    old(self).capacity(),
                    (final(self).write_cursor() + n) as nat,
                    old(self).ceiling(),
                )
            },
    {
        let len: usize = self.write_cursor - self.read_cursor;
        if n > self.ceiling - len {
            return Err(TooLarge);
        }
        if self.data.len() - self.write_cursor >= n {
            return Ok(());
        }
        if self.read_cursor > self.data.len() / 2 || n > self.ceiling - self.write_cursor {
            self.compact();
        }
        let need: usize = self.write_cursor + n;
        let mut cap: usize = self.data.len();
        while cap < need && cap < self.ceiling
            invariant
                need <= self.ceiling,
                cap <= self.ceiling,
                grown_capacity(cap as nat, need as nat, self.ceiling as nat) == grown_capacity(
                    self.data@.len(),
                    need as nat,
                    self.ceiling as nat,
                ),
            decreases self.ceiling - cap,
        {
            if cap > self.ceiling / 2 {
                cap = self.ceiling;
            } else if cap == 0 {
                cap = 1;
            } else {
                cap = cap * 2;
            }
        }
        self.data.resize(cap, 0u8);
        Ok(())
    }

    /// Appends `bytes` behind the unread bytes, growing the storage as
    /// `reserve` does. Fails, leaving the buffer as it was, exactly when the
    /// result would not fit under the ceiling.
    pub fn extend(&mut self, bytes: &[u8]) -> (r: Result<(), TooLarge>)
        requires
            old(self).wf(),
        ensures
            final(self).wf(),
            final(self).ceiling() == old(self).ceiling(),
            r is Ok <==> old(self)@.len() + bytes@.len() <= old(self).ceiling(),
            r is Ok ==> final(self)@ == old(self)@ + bytes@,
            r is Err ==> *final(self) == *old(self),
    {
        let n: usize = bytes.len();
        match self.reserve(n) {
            Err(e) => {
                return Err(e);
            },
            Ok(()) => {},
        }
        let ghost mid = *self;
        let start: usize = self.write_cursor;
        let mut i: usize = 0;
        while i < n
            invariant
                i <= n,
                n == bytes@.len(),
                start + n <= self.data@.len(),
                self.data@.len() == mid.data@.len(),
                self.read_cursor == mid.read_cursor,
                self.write_cursor == mid.write_cursor,
                self.ceiling == mid.ceiling,
                start == mid.write_cursor,
                mid.wf(),
                forall|j: int| 0 <= j < start ==> self.data@[j] == mid.data@[j],
                forall|j: int| 0 <= j < i ==> self.data@[start + j] == bytes@[j],
            decreases n - i,
        {
            let b: u8 = bytes[i];
            self.data.set(start + i, b);
            i = i + 1;
        }
        self.write_cursor = start + n;
        Ok(())
    }

    /// Appends one byte; see `extend`.
    pub fn push(&mut self, byte: u8) -> (r: Result<(), TooLarge>)
        requires
            old(self).wf(),
        ensures
            final(self).wf(),
            final(self).ceiling() == old(self).ceiling(),
            r is Ok <==> old(self)@.len() + 1 <= old(self).ceiling(),
            r is Ok ==> final(self)@ == old(self)@.push(byte),
            r is Err ==> *final(self) == *old(self),
    {
        match self.reserve(1) {
            Err(e) => {
                return Err(e);
            },
            Ok(()) => {},
        }
        let at: usize = self.write_cursor;
        self.data.set(at, byte);
        self.write_cursor = at + 1;
        Ok(())
    }
}

} // verus!
