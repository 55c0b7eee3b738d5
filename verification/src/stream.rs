//! An in-memory seekable byte sink.
//!
//! A `ByteStream` plays the role of the underlying byte store: a growable
//! byte array together with a cursor position. Reads take exactly the bytes
//! they ask for or fail without effect; writes overwrite in place, zero-fill
//! any gap between the end of the data and the cursor, and extend the data
//! as needed. Every store owns its sink exclusively.

use vstd::prelude::*;

verus! {

/// A sequence of `n` zero bytes.
pub open spec fn zero_bytes(n: nat) -> Seq<u8> {
    Seq::new(n, |i: int| 0u8)
}

/// The bytes of a sink after writing `v` at offset `off` into `s`:
/// bytes inside the written window come from `v`, bytes outside it keep
/// their old value, and any gap between the old end and `off` is zero.
pub open spec fn write_at(s: Seq<u8>, off: nat, v: Seq<u8>) -> Seq<u8> {
    Seq::new(
        if s.len() >= off + v.len() {
            s.len()
        } else {
            off + v.len()
        },
        |i: int|
            if off <= i < off + v.len() {
                v[i - off]
            } else if i < s.len() {
                s[i]
            } else {
                0u8
            },
    )
}

/// Builds a buffer of `n` zero bytes.
pub fn zero_vec(n: usize) -> (v: Vec<u8>)
    ensures
        v@ == zero_bytes(n as nat),
{
    let mut v: Vec<u8> = Vec::new();
    let mut i: usize = 0;
    while i < n
        invariant
            i <= n,
            v@ == zero_bytes(i as nat),
        decreases n - i,
    {
        v.push(0u8);
        i += 1;
        assert(v@ =~= zero_bytes(i as nat));
    }
    v
}

/// An in-memory seekable read/write byte sink with a cursor.
#[derive(Debug)]
pub struct ByteStream {
    pub data: Vec<u8>,
    pub pos: usize,
}

impl ByteStream {
    /// An empty sink with the cursor at the start.
    pub fn new() -> (s: Self)
        ensures
            s.data@ == Seq::<u8>::empty(),
            s.pos == 0,
    {
        ByteStream { data: Vec::new(), pos: 0 }
    }

    /// A sink over the given bytes with the cursor at the start.
    pub fn from_bytes(data: Vec<u8>) -> (s: Self)
        ensures
            s.data@ == data@,
            s.pos == 0,
    {
        ByteStream { data, pos: 0 }
    }

    /// Releases the sink and hands its bytes back.
    pub fn into_bytes(self) -> (v: Vec<u8>)
        ensures
            v@ == self.data@,
    {
        self.data
    }

    /// The number of bytes the sink currently holds.
    pub fn len(&self) -> (n: usize)
        ensures
            n == self.data@.len(),
    {
        self.data.len()
    }

    /// Moves the cursor to the given absolute offset, which may lie past
    /// the end of the data.
    pub fn seek_to(&mut self, offset: usize)
        ensures
            final(self).data == old(self).data,
            final(self).pos == offset,
    {
        self.pos = offset;
    }

    /// Reads exactly `n` bytes at the cursor and advances it. If fewer than
    /// `n` bytes remain, fails without moving the cursor or producing data.
    pub fn read_exact(&mut self, n: usize) -> (r: Option<Vec<u8>>)
        ensures
            final(self).data == old(self).data,
            old(self).pos + n <= old(self).data@.len() ==> {
                &&& r matches Some(v) && v@ == old(self).data@.subrange(
                    old(self).pos as int,
                    old(self).pos + n,
                )
                &&& final(self).pos == old(self).pos + n
            },
            old(self).pos + n > old(self).data@.len() ==> {
                &&& r is None
                &&& final(self).pos == old(self).pos
            },
    {
        if n > self.data.len() || self.pos > self.data.len() - n {
            return None;
        }
        let mut out: Vec<u8> = Vec::new();
        let mut i: usize = 0;
        while i < n
            invariant
                i <= n,
                self == old(self),
                self.data@.len() <= usize::MAX,
                self.pos + n <= self.data@.len(),
                out@ == self.data@.subrange(self.pos as int, self.pos + i),
            decreases n - i,
        {
            out.push(self.data[self.pos + i]);
            i += 1;
            assert(out@ =~= self.data@.subrange(self.pos as int, self.pos + i));
        }
        self.pos = self.pos + n;
        Some(out)
    }

    /// Reads exactly `n` bytes at the given absolute offset without moving
    /// the cursor. If fewer than `n` bytes lie there, fails without effect.
    pub fn read_at(&self, off: usize, n: usize) -> (r: Option<Vec<u8>>)
        ensures
            off + n <= self.data@.len() ==> (r matches Some(v) && v@ == self.data@.subrange(
                off as int,
                off + n,
            )),
            off + n > self.data@.len() ==> r is None,
    {
        if n > self.data.len() || off > self.data.len() - n {
            return None;
        }
        let mut out: Vec<u8> = Vec::new();
        let mut i: usize = 0;
        while i < n
            invariant
                i <= n,
                self.data@.len() <= usize::MAX,
                off + n <= self.data@.len(),
                out@ == self.data@.subrange(off as int, off + i),
            decreases n - i,
        {
            out.push(self.data[off + i]);
            i += 1;
            assert(out@ =~= self.data@.subrange(off as int, off + i));
        }
        Some(out)
    }

    /// Writes all the given bytes at the cursor and advances it past them.
    /// Bytes already present outside the written window keep their value;
    /// a gap between the old end of the data and the cursor is zero-filled.
    pub fn write_all(&mut self, bytes: &[u8])
        requires
            old(self).pos + bytes@.len() <= usize::MAX,
        ensures
            final(self).data@ == write_at(old(self).data@, old(self).pos as nat, bytes@),
            final(self).pos == old(self).pos + bytes@.len(),
    {
        let ghost orig: Seq<u8> = self.data@;
        while self.data.len() < self.pos
            invariant
                self.pos == old(self).pos,
                orig == old(self).data@,
                orig.len() <= self.data@.len(),
                self.data@.len() == orig.len() || self.data@.len() <= self.pos,
                forall|j: int| 0 <= j < orig.len() ==> self.data@[j] == orig[j],
                forall|j: int| orig.len() <= j < self.data@.len() ==> self.data@[j] == 0u8,
            decreases self.pos - self.data@.len(),
        {
            self.data.push(0);
        }
        let ghost padded: Seq<u8> = self.data@;
        assert(padded.len() >= self.pos);
        assert(padded.len() == if orig.len() >= self.pos {
            orig.len() as int
        } else {
            self.pos as int
        });
        let n = bytes.len();
        let mut i: usize = 0;
        while i < n
            invariant
                i <= n,
                n == bytes@.len(),
                self.pos == old(self).pos,
                self.pos + n <= usize::MAX,
                self.pos <= padded.len(),
                orig == old(self).data@,
                padded.len() == if orig.len() >= self.pos {
                    orig.len() as int
                } else {
                    self.pos as int
                },
                forall|j: int| 0 <= j < orig.len() ==> padded[j] == orig[j],
                forall|j: int| orig.len() <= j < padded.len() ==> padded[j] == 0u8,
                self.data@.len() == if padded.len() >= self.pos + i {
                    padded.len() as int
                } else {
                    self.pos + i
                },
                forall|j: int|
                    0 <= j < self.data@.len() && !(self.pos <= j < self.pos + i) ==> self.data@[j]
                        == padded[j],
                forall|j: int|
                    self.pos <= j < self.pos + i ==> self.data@[j] == bytes@[j - self.pos],
            decreases n - i,
        {
            if self.pos + i < self.data.len() {
                self.data.set(self.pos + i, bytes[i]);
            } else {
                assert(self.pos + i == self.data@.len());
                self.data.push(bytes[i]);
            }
            i += 1;
        }
        proof {
            let p = old(self).pos as int;
            let w = write_at(orig, old(self).pos as nat, bytes@);
            assert(self.data@.len() == w.len());
            assert forall|j: int| 0 <= j < self.data@.len() implies self.data@[j] == w[j] by {
                if p <= j < p + bytes@.len() {
                    assert(self.data@[j] == bytes@[j - p]);
                } else {
                    assert(self.data@[j] == padded[j]);
                    if j < orig.len() {
                        assert(padded[j] == orig[j]);
                    } else {
                        assert(padded[j] == 0u8);
                    }
                }
            }
            assert(self.data@ =~= w);
        }
        self.pos = self.pos + n;
    }
}

} // verus!
