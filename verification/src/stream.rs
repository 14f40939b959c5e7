//! A cursor over the owned input buffer, consumed byte by byte by the
//! marker dispatcher and the segment processors.

use vstd::prelude::*;

verus! {

/// The big-endian 16-bit value stored at offset `i` of `data`.
pub open spec fn be16(data: Seq<u8>, i: int) -> int {
    data[i] * 256 + data[i + 1]
}

/// Reading only consumes: the buffer stays as it was and the position
/// never moves backwards.
pub open spec fn stream_advanced(s0: ByteStream, s1: ByteStream) -> bool {
    &&& s1.data == s0.data
    &&& s0.pos <= s1.pos <= s1.data.len()
}

/// An owned byte buffer and a read position. Bytes before `pos` have been
/// consumed; the buffer itself is never changed.
pub struct ByteStream {
    pub data: Vec<u8>,
    pub pos: usize,
}

impl ByteStream {
    /// The read position never runs past the end of the buffer.
    pub open spec fn wf(&self) -> bool {
        self.pos <= self.data.len()
    }

    /// How many bytes are left to read.
    pub open spec fn remaining(&self) -> int {
        self.data.len() - self.pos
    }

    pub fn new(data: Vec<u8>) -> (s: Self)
        ensures
            s.wf(),
            s.data == data,
            s.pos == 0,
    {
        ByteStream { data, pos: 0 }
    }

    /// Consumes and returns the next byte, or `None` at the end of the buffer.
    pub fn next(&mut self) -> (r: Option<u8>)
        requires
            old(self).wf(),
        ensures
            final(self).wf(),
            final(self).data == old(self).data,
            old(self).pos < old(self).data.len() ==> r == Some(
                old(self).data[old(self).pos as int],
            ) && final(self).pos == old(self).pos + 1,
            old(self).pos >= old(self).data.len() ==> r == None::<u8> && *final(self) == *old(self),
    {
        if self.pos < self.data.len() {
            let b: u8 = self.data[self.pos];
            self.pos = self.pos + 1;
            Some(b)
        } else {
            None
        }
    }

    /// Returns the next byte without consuming it.
    pub fn peek(&self) -> (r: Option<u8>)
        requires
            self.wf(),
        ensures
            self.pos < self.data.len() ==> r == Some(self.data[self.pos as int]),
            self.pos >= self.data.len() ==> r == None::<u8>,
    {
        if self.pos < self.data.len() {
            Some(self.data[self.pos])
        } else {
            None
        }
    }

    /// Reads a big-endian 16-bit value. When fewer than two bytes are left,
    /// what is left is consumed and `None` is returned.
    pub fn read_u16(&mut self) -> (r: Option<u16>)
        requires
            old(self).wf(),
        ensures
            final(self).wf(),
            final(self).data == old(self).data,
            old(self).pos + 2 <= old(self).data.len() ==> r == Some(
                be16(old(self).data@, old(self).pos as int) as u16,
            ) && final(self).pos == old(self).pos + 2,
            old(self).pos + 2 > old(self).data.len() ==> r == None::<u16> && final(self).pos
                == old(self).data.len(),
    {
        let x: Option<u8> = self.next();
        let y: Option<u8> = self.next();
        match (x, y) {
            (Some(x), Some(y)) => Some((x as u16) * 256 + (y as u16)),
            _ => None,
        }
    }

    /// Skips up to `n` bytes, stopping at the end of the buffer.
    pub fn skip(&mut self, n: usize)
        requires
            old(self).wf(),
        ensures
            final(self).wf(),
            final(self).data == old(self).data,
            old(self).remaining() >= n ==> final(self).pos == old(self).pos + n,
            old(self).remaining() < n ==> final(self).pos == old(self).data.len(),
    {
        if n < self.data.len() - self.pos {
            self.pos = self.pos + n;
        } else {
            self.pos = self.data.len();
        }
    }
}

} // verus!
