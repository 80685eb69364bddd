use vstd::prelude::*;

verus! {

/// The byte that ends every frame on the wire.
pub const NEWLINE: u8 = 10;

/// The byte that may precede the terminator and is then not part of the frame.
pub const CARRIAGE_RETURN: u8 = 13;

/// Why a buffered byte stream could not yield its next frame.
#[derive(Clone, Copy, Debug, PartialEq, Eq, Structural)]
pub enum FrameError {
    /// More than the configured maximum arrived without a terminator, or a
    /// terminated frame is longer than that maximum.
    FrameTooLong,
}

/// Whether `b` holds a line terminator.
pub open spec fn has_newline(b: Seq<u8>) -> bool {
    exists|i: int| 0 <= i < b.len() && b[i] == NEWLINE
}

/// The index of the first line terminator in `b`; meaningful when there is one.
pub open spec fn first_newline(b: Seq<u8>) -> int {
    choose|i: int| 0 <= i < b.len() && b[i] == NEWLINE && forall|j: int| 0 <= j < i ==> b[j] != NEWLINE
}

/// The text of a line with its terminator removed: one carriage return
/// directly before the terminator belongs to the terminator.
pub open spec fn strip_cr(line: Seq<u8>) -> Seq<u8> {
    if line.len() > 0 && line.last() == CARRIAGE_RETURN {
        line.drop_last()
    } else {
        line
    }
}

/// A frame put on the wire: its bytes followed by the terminator.
pub open spec fn framed(f: Seq<u8>) -> Seq<u8> {
    f.push(NEWLINE)
}

/// Returns the index of the first terminator in `b`, or `b.len()` if none.
pub fn find_newline(b: &[u8]) -> (r: usize)
    ensures
        r <= b@.len(),
        forall|j: int| 0 <= j < r ==> b@[j] != NEWLINE,
        r < b@.len() ==> b@[r as int] == NEWLINE,
        r == b@.len() <==> !has_newline(b@),
        r < b@.len() ==> r == first_newline(b@),
{
    let mut i: usize = 0;
    while i < b.len()
        invariant
            i <= b@.len(),
            forall|j: int| 0 <= j < i ==> b@[j] != NEWLINE,
        decreases b@.len() - i,
    {
        if b[i] == NEWLINE {
            proof {
                let k = first_newline(b@);
                assert(0 <= i && b@[i as int] == NEWLINE && forall|j: int| 0 <= j < i ==> b@[j] != NEWLINE);
                if k < i as int {
                    assert(b@[k] == NEWLINE);
                } else if k > i as int {
                    assert(b@[i as int] != NEWLINE);
                }
            }
            return i;
        }
        i = i + 1;
    }
    i
}


/// Returns `b` with the terminator appended, ready to be written in one piece.
pub fn encode_frame(b: &[u8]) -> (r: Vec<u8>)
    ensures
        r@ == framed(b@),
{
    let mut r: Vec<u8> = Vec::new();
    let mut i: usize = 0;
    while i < b.len()
        invariant
            i <= b@.len(),
            r@ == b@.subrange(0, i as int),
        decreases b@.len() - i,
    {
        r.push(b[i]);
        i = i + 1;
    }
    r.push(NEWLINE);
    proof {
        assert(b@.subrange(0, b@.len() as int) =~= b@);
    }
    r
}

/// Bytes received on one connection that do not yet form a whole frame.
pub struct LineBuffer {
    buf: Vec<u8>,
    max_len: usize,
}

impl View for LineBuffer {
    type V = Seq<u8>;

    closed spec fn view(&self) -> Seq<u8> {
        self.buf@
    }
}

/// What remains of `b` after the first frame in it has been taken.
pub open spec fn rest_after_frame(b: Seq<u8>) -> Seq<u8> {
    b.subrange(first_newline(b) + 1, b.len() as int)
}

/// The text of the first frame in `b`.
pub open spec fn first_frame(b: Seq<u8>) -> Seq<u8> {
    strip_cr(b.subrange(0, first_newline(b)))
}

impl LineBuffer {
    /// The largest frame, in bytes, that this buffer hands out.
    pub closed spec fn spec_max_len(&self) -> nat {
        self.max_len as nat
    }

    /// An empty buffer that refuses frames longer than `max_len` bytes.
    pub fn new(max_len: usize) -> (r: LineBuffer)
        ensures
            r@ == Seq::<u8>::empty(),
            r.spec_max_len() == max_len,
    {
        LineBuffer { buf: Vec::new(), max_len }
    }

    /// The limit this buffer was made with.
    pub fn max_len(&self) -> (r: usize)
        ensures
            r == self.spec_max_len(),
    {
        self.max_len
    }

    /// The number of bytes held back, waiting for a terminator.
    pub fn pending(&self) -> (r: usize)
        ensures
            r == self@.len(),
    {
        self.buf.len()
    }

    /// Appends bytes read from the connection.
    pub fn extend(&mut self, data: &[u8])
        ensures
            final(self)@ == old(self)@ + data@,
            final(self).spec_max_len() == old(self).spec_max_len(),
    {
        let mut i: usize = 0;
        while i < data.len()
            invariant
                i <= data@.len(),
                self@ == old(self)@ + data@.subrange(0, i as int),
                self.spec_max_len() == old(self).spec_max_len(),
            decreases data@.len() - i,
        {
            self.buf.push(data[i]);
            i = i + 1;
            proof {
                assert(old(self)@ + data@.subrange(0, i as int) =~= (old(self)@ + data@.subrange(0, i - 1)).push(data@[i - 1]));
            }
        }
        proof {
            assert(data@.subrange(0, data@.len() as int) =~= data@);
        }
    }

    /// Takes the next whole frame, if one has arrived.
    ///
    /// A frame is the text before the first terminator, without a carriage
    /// return that directly precedes it; it and its terminator leave the
    /// buffer. Without a terminator the bytes stay for the next read. A frame
    /// longer than the limit, or more unterminated bytes than the limit, is
    /// `FrameTooLong`, and the buffer is left as it was.
    pub fn next_frame(&mut self) -> (r: Result<Option<Vec<u8>>, FrameError>)
        ensures
            final(self).spec_max_len() == old(self).spec_max_len(),
            has_newline(old(self)@) ==> {
                if first_frame(old(self)@).len() > old(self).spec_max_len() {
                    &&& r == Err::<Option<Vec<u8>>, FrameError>(FrameError::FrameTooLong)
                    &&& final(self)@ == old(self)@
                } else {
                    &&& r is Ok
                    &&& r->Ok_0 is Some
                    &&& r->Ok_0->Some_0@ == first_frame(old(self)@)
                    &&& final(self)@ == rest_after_frame(old(self)@)
                }
            },
            !has_newline(old(self)@) ==> {
                &&& final(self)@ == old(self)@
                &&& if old(self)@.len() > old(self).spec_max_len() {
                    r == Err::<Option<Vec<u8>>, FrameError>(FrameError::FrameTooLong)
                } else {
                    r == Ok::<Option<Vec<u8>>, FrameError>(None)
                }
            },
    {
        let n = find_newline(self.buf.as_slice());
        if n == self.buf.len() {
            if self.buf.len() > self.max_len {
                return Err(FrameError::FrameTooLong);
            }
            return Ok(None);
        }
        let end: usize = if n > 0 && self.buf[n - 1] == CARRIAGE_RETURN {
            n - 1
        } else {
            n
        };
        proof {
            let line = old(self)@.subrange(0, n as int);
            assert(first_frame(old(self)@) =~= old(self)@.subrange(0, end as int));
        }
        if end > self.max_len {
            return Err(FrameError::FrameTooLong);
        }
        let mut frame: Vec<u8> = Vec::new();
        let mut i: usize = 0;
        while i < end
            invariant
                end <= n < self.buf@.len(),
                i <= end,
                self.buf@ == old(self)@,
                frame@ == self.buf@.subrange(0, i as int),
            decreases end - i,
        {
            frame.push(self.buf[i]);
            i = i + 1;
        }
        let mut rest: Vec<u8> = Vec::new();
        let mut j: usize = n + 1;
        while j < self.buf.len()
            invariant
                n < j <= self.buf@.len(),
                self.buf@ == old(self)@,
                rest@ == self.buf@.subrange(n + 1, j as int),
            decreases self.buf@.len() - j,
        {
            rest.push(self.buf[j]);
            j = j + 1;
        }
        self.buf = rest;
        Ok(Some(frame))
    }
}

} // verus!
