//! A seekable, readable byte stream over bytes held in memory.
//!
//! The stream is a sequence of bytes and a position. The position may lie
//! beyond the last byte: a read there yields nothing and moves nothing.

use vstd::prelude::*;

verus! {

/// The byte that ends a line.
pub const LINE_FEED: u8 = 10;

/// Bytes with a read position.
pub struct ByteStream {
    data: Vec<u8>,
    pos: u64,
}

impl ByteStream {
    #[verifier::type_invariant]
    spec fn fits(self) -> bool {
        self.data@.len() < u64::MAX
    }

    /// The bytes of the stream.
    pub closed spec fn bytes(&self) -> Seq<u8> {
        self.data@
    }

    /// The read position, counted in bytes from the start.
    pub closed spec fn offset(&self) -> nat {
        self.pos as nat
    }

    /// A stream over `data`, positioned at its start. The offset behind
    /// the last byte, and the one behind that, must fit in 64 bits.
    pub fn new(data: Vec<u8>) -> (s: Self)
        requires
            data@.len() < u64::MAX,
        ensures
            s.bytes() == data@,
            s.offset() == 0,
    {
        ByteStream { data, pos: 0 }
    }

    /// Gives the bytes back.
    pub fn into_inner(self) -> (data: Vec<u8>)
        ensures
            data@ == self.bytes(),
    {
        self.data
    }

    /// The number of bytes in the stream.
    pub fn len(&self) -> (n: u64)
        ensures
            n == self.bytes().len(),
            n < u64::MAX,
    {
        proof {
            use_type_invariant(self);
        }
        self.data.len() as u64
    }

    /// The current read position.
    pub fn position(&self) -> (p: u64)
        ensures
            p == self.offset(),
    {
        self.pos
    }

    /// Moves the read position to `pos`, which may lie beyond the end.
    pub fn seek_to(&mut self, pos: u64)
        ensures
            final(self).bytes() == old(self).bytes(),
            final(self).offset() == pos,
    {
        proof {
            use_type_invariant(&*self);
        }
        self.pos = pos;
    }

    /// Reads the byte at the read position and steps over it. At or beyond
    /// the end there is nothing to read and the position stays.
    pub fn read_byte(&mut self) -> (b: Option<u8>)
        ensures
            final(self).bytes() == old(self).bytes(),
            old(self).offset() < old(self).bytes().len() ==> b == Some(
                old(self).bytes()[old(self).offset() as int],
            ) && final(self).offset() == old(self).offset() + 1,
            old(self).offset() >= old(self).bytes().len() ==> b.is_none() && final(self).offset()
                == old(self).offset(),
    {
        proof {
            use_type_invariant(&*self);
        }
        if self.pos < self.data.len() as u64 {
            let b = self.data[self.pos as usize];
            self.pos = self.pos + 1;
            Some(b)
        } else {
            None
        }
    }

    /// Fills `buf` with the bytes at the read position and steps over them.
    /// Where fewer bytes are left than `buf` holds, nothing is read: `buf`
    /// and the position stay as they were.
    pub fn read_exact(&mut self, buf: &mut Vec<u8>) -> (filled: bool)
        ensures
            final(self).bytes() == old(self).bytes(),
            final(buf)@.len() == old(buf)@.len(),
            filled == (old(self).offset() + old(buf)@.len() <= old(self).bytes().len()),
            filled ==> final(buf)@ == old(self).bytes().subrange(
                old(self).offset() as int,
                (old(self).offset() + old(buf)@.len()) as int,
            ) && final(self).offset() == (old(self).offset() + old(buf)@.len()) as int,
            !filled ==> final(buf)@ == old(buf)@ && final(self).offset() == old(self).offset(),
    {
        proof {
            use_type_invariant(&*self);
        }
        let n = buf.len();
        let len = self.data.len();
        if self.pos > len as u64 || n > len - self.pos as usize {
            return false;
        }
        let start = self.pos as usize;
        let mut i: usize = 0;
        while i < n
            invariant
                i <= n,
                n == buf@.len(),
                start + n <= len,
                len == self.data@.len(),
                self.data@ == old(self).data@,
                self.pos == old(self).pos,
                start == self.pos,
                forall|j: int| 0 <= j < i ==> buf@[j] == self.data@[start + j],
            decreases n - i,
        {
            buf.set(i, self.data[start + i]);
            i = i + 1;
        }
        self.pos = self.pos + n as u64;
        assert(buf@ =~= old(self).bytes().subrange(
            old(self).offset() as int,
            (old(self).offset() + old(buf)@.len()) as int,
        ));
        true
    }

    /// Reads the bytes from the read position up to offset `end`, and moves
    /// there.
    pub fn read_to(&mut self, end: u64) -> (out: Vec<u8>)
        requires
            old(self).offset() <= end <= old(self).bytes().len(),
        ensures
            final(self).bytes() == old(self).bytes(),
            final(self).offset() == end,
            out@ == old(self).bytes().subrange(old(self).offset() as int, end as int),
    {
        proof {
            use_type_invariant(&*self);
        }
        let len = self.data.len();
        let mut out: Vec<u8> = Vec::new();
        let start = self.pos as usize;
        let stop = end as usize;
        let mut i: usize = start;
        while i < stop
            invariant
                start <= i <= stop,
                stop <= len,
                len == self.data@.len(),
                self.data@ == old(self).data@,
                self.pos == old(self).pos,
                out@ == self.data@.subrange(start as int, i as int),
            decreases stop - i,
        {
            out.push(self.data[i]);
            i = i + 1;
            assert(out@ =~= self.data@.subrange(start as int, i as int));
        }
        self.pos = end;
        out
    }
}

} // verus!
