//! The page store: fixed-size pages over a seekable byte sink.
//!
//! A `Pager` owns its sink exclusively and carves it into equal-size,
//! zero-indexed pages; page `i` occupies bytes `[i * page_size,
//! (i + 1) * page_size)`. The in-memory page counter is derived once at
//! construction as the number of whole pages the sink holds and is
//! authoritative afterwards.

use vstd::arithmetic::div_mod::lemma_fundamental_div_mod;
use vstd::arithmetic::div_mod::lemma_mod_bound;
use vstd::arithmetic::mul::lemma_mul_inequality;
use vstd::prelude::*;

use crate::error::BookwormError;
use crate::error::BookwormResult;
use crate::error::ErrorKind;
use crate::record::decoded_record;
use crate::record::encode_record;
use crate::record::decode_record;
use crate::record::record_bytes;
use crate::record::Record;
use crate::stream::write_at;
use crate::stream::zero_bytes;
use crate::stream::zero_vec;
use crate::stream::ByteStream;

verus! {

/// The bytes of page `i` of a sink carved into pages of `page_size` bytes.
pub open spec fn page_at(stream: Seq<u8>, page_size: nat, i: nat) -> Seq<u8> {
    stream.subrange((i * page_size) as int, (i * page_size + page_size) as int)
}

/// A payload zero-padded to a full page.
pub open spec fn pad_page(data: Seq<u8>, page_size: nat) -> Seq<u8> {
    data + zero_bytes((page_size - data.len()) as nat)
}

/// A slot inside the counted pages starts and ends inside the counted
/// prefix of the sink.
pub proof fn lemma_slot_bounds(count: nat, page_size: nat, i: nat)
    requires
        i < count,
    ensures
        i * page_size + page_size <= count * page_size,
{
    lemma_mul_inequality(i as int + 1, count as int, page_size as int);
    assert((i + 1) * page_size == i * page_size + page_size) by (nonlinear_arith);
}

/// Two writes in a row, the second starting where the first ended, land
/// the concatenation of the two payloads.
pub proof fn lemma_write_twice(s: Seq<u8>, off: nat, d: Seq<u8>, z: Seq<u8>)
    ensures
        write_at(write_at(s, off, d), (off + d.len()) as nat, z) == write_at(s, off, d + z),
{
    let s1 = write_at(s, off, d);
    let w2 = write_at(s1, (off + d.len()) as nat, z);
    let w = write_at(s, off, d + z);
    assert(w2.len() == w.len());
    assert forall|j: int| 0 <= j < w2.len() implies w2[j] == w[j] by {
        if off + d.len() <= j < off + d.len() + z.len() {
            assert(w2[j] == z[j - off - d.len()]);
            assert(w[j] == (d + z)[j - off]);
        } else if off <= j < off + d.len() {
            assert(s1.len() >= off + d.len());
            assert(w2[j] == s1[j]);
            assert(s1[j] == d[j - off]);
        } else {
            if j < s1.len() {
                assert(w2[j] == s1[j]);
            }
        }
    }
    assert(w2 =~= w);
}

/// Writing one full page at slot `i` replaces that page and leaves every
/// other counted page unchanged.
pub proof fn lemma_pages_after_write(s: Seq<u8>, page_size: nat, count: nat, i: nat, p: Seq<u8>)
    requires
        page_size >= 1,
        count * page_size <= s.len(),
        i <= count,
        p.len() == page_size,
    ensures
        ({
            let s2 = write_at(s, i * page_size, p);
            &&& s2.len() == if s.len() >= i * page_size + page_size {
                s.len() as int
            } else {
                (i * page_size + page_size) as int
            }
            &&& page_at(s2, page_size, i) == p
            &&& forall|j: nat|
                j < count && j != i ==> page_at(s2, page_size, j) == page_at(s, page_size, j)
        }),
{
    let s2 = write_at(s, i * page_size, p);
    assert(page_at(s2, page_size, i) =~= p);
    assert forall|j: nat| j < count && j != i implies page_at(s2, page_size, j) == page_at(
        s,
        page_size,
        j,
    ) by {
        lemma_slot_bounds(count, page_size, j);
        if j < i {
            lemma_mul_inequality(j as int + 1, i as int, page_size as int);
            assert((j + 1) * page_size == j * page_size + page_size) by (nonlinear_arith);
        } else {
            lemma_mul_inequality(i as int + 1, j as int, page_size as int);
            assert((i + 1) * page_size == i * page_size + page_size) by (nonlinear_arith);
        }
        assert(page_at(s2, page_size, j) =~= page_at(s, page_size, j));
    }
}

/// A page store over an exclusively owned byte sink.
#[derive(Debug)]
pub struct Pager {
    pub stream: ByteStream,
    pub page_size: usize,
    pub pages_count: usize,
}

impl Pager {
    /// The store is well formed: pages are at least one byte long and the
    /// counted pages all lie inside the sink.
    pub open spec fn wf(&self) -> bool {
        &&& self.page_size >= 1
        &&& self.pages_count * self.page_size <= self.stream.data@.len()
        &&& self.stream.data@.len() <= usize::MAX
    }

    /// The bytes of page `i`.
    pub open spec fn page(&self, i: int) -> Seq<u8> {
        page_at(self.stream.data@, self.page_size as nat, i as nat)
    }

    /// All counted pages, in index order.
    pub open spec fn pages(&self) -> Seq<Seq<u8>> {
        Seq::new(self.pages_count as nat, |i: int| self.page(i))
    }

    /// Binds a store to an already-open sink, deriving the page counter as
    /// the number of whole pages the sink currently holds.
    pub fn new(page_size: usize, data_source: ByteStream) -> (p: Pager)
        requires
            page_size >= 1,
        ensures
            p.wf(),
            p.page_size == page_size,
            p.stream.data == data_source.data,
            p.stream.pos == data_source.data@.len(),
            p.pages_count == data_source.data@.len() as int / page_size as int,
    {
        let mut data_source = data_source;
        let data_source_len = data_source.len();
        data_source.seek_to(data_source_len);
        let last_page = data_source_len / page_size;
        proof {
            lemma_fundamental_div_mod(data_source_len as int, page_size as int);
            lemma_mod_bound(data_source_len as int, page_size as int);
            assert(page_size as int * (data_source_len as int / page_size as int) == (
            data_source_len as int / page_size as int) * page_size as int) by (nonlinear_arith);
        }
        Pager { page_size, stream: data_source, pages_count: last_page }
    }

    /// Reads page `page` and returns its full `page_size` bytes unmodified.
    pub fn get_raw_page(&mut self, page: usize) -> (r: BookwormResult<Vec<u8>>)
        requires
            old(self).wf(),
        ensures
            final(self).wf(),
            final(self).page_size == old(self).page_size,
            final(self).pages_count == old(self).pages_count,
            final(self).stream.data == old(self).stream.data,
            page < old(self).pages_count ==> (r matches Ok(v) && v@ == old(self).page(
                page as int,
            )),
            page >= old(self).pages_count ==> (r matches Err(e) && e.kind
                == ErrorKind::PageNotFound),
    {
        if page >= self.pages_count {
            return Err(
                BookwormError::new(ErrorKind::PageNotFound, "Page doesn't exist".to_string()),
            );
        }
        proof {
            lemma_slot_bounds(
                self.pages_count as nat,
                self.page_size as nat,
                page as nat,
            );
        }
        let page_offset = page * self.page_size;
        self.stream.seek_to(page_offset);
        match self.stream.read_exact(self.page_size) {
            Some(buf) => Ok(buf),
            None => Err(
                BookwormError::new(ErrorKind::IOFailure, "Could not read page".to_string()),
            ),
        }
    }

    /// Writes the payload into the slot of page `slot`, zero-padding the
    /// remainder of the page. The slot may be the one just past the counted
    /// pages, which appends a page's worth of bytes to the sink.
    fn write_slot(&mut self, slot: usize, data: &[u8])
        requires
            old(self).wf(),
            slot <= old(self).pages_count,
            data@.len() <= old(self).page_size,
            slot * old(self).page_size + old(self).page_size <= usize::MAX,
        ensures
            final(self).wf(),
            final(self).page_size == old(self).page_size,
            final(self).pages_count == old(self).pages_count,
            final(self).stream.data@ == write_at(
                old(self).stream.data@,
                (slot * old(self).page_size) as nat,
                pad_page(data@, old(self).page_size as nat),
            ),
    {
        let off = slot * self.page_size;
        self.stream.seek_to(off);
        self.stream.write_all(data);
        let pad = zero_vec(self.page_size - data.len());
        self.stream.write_all(pad.as_slice());
        proof {
            lemma_write_twice(
                old(self).stream.data@,
                off as nat,
                data@,
                zero_bytes((old(self).page_size - data@.len()) as nat),
            );
            lemma_mul_inequality(
                slot as int,
                old(self).pages_count as int,
                old(self).page_size as int,
            );
        }
    }

    /// Overwrites page `page` with the payload, zero-padded to a full page.
    /// Fails without touching the sink if the page does not exist or the
    /// payload is longer than a page.
    pub fn write_raw_page(&mut self, page: usize, data: &[u8]) -> (r: BookwormResult<()>)
        requires
            old(self).wf(),
        ensures
            final(self).wf(),
            final(self).page_size == old(self).page_size,
            final(self).pages_count == old(self).pages_count,
            r is Err ==> final(self).stream.data == old(self).stream.data,
            page >= old(self).pages_count ==> (r matches Err(e) && e.kind
                == ErrorKind::PageNotFound),
            page < old(self).pages_count && data@.len() > old(self).page_size ==> (r matches Err(e)
                && e.kind == ErrorKind::PageTooLarge),
            page < old(self).pages_count && data@.len() <= old(self).page_size ==> r is Ok,
            r is Ok ==> {
                &&& final(self).stream.data@ == write_at(
                    old(self).stream.data@,
                    (page * old(self).page_size) as nat,
                    pad_page(data@, old(self).page_size as nat),
                )
                &&& final(self).stream.data@.len() == old(self).stream.data@.len()
                &&& final(self).pages() == old(self).pages().update(
                    page as int,
                    pad_page(data@, old(self).page_size as nat),
                )
            },
    {
        if page >= self.pages_count {
            return Err(
                BookwormError::new(ErrorKind::PageNotFound, "Page doesn't exist".to_string()),
            );
        }
        if data.len() > self.page_size {
            return Err(
                BookwormError::new(
                    ErrorKind::PageTooLarge,
                    "Could not write data to page: data is bigger than page".to_string(),
                ),
            );
        }
        proof {
            lemma_slot_bounds(self.pages_count as nat, self.page_size as nat, page as nat);
        }
        self.write_slot(page, data);
        proof {
            lemma_pages_after_write(
                old(self).stream.data@,
                old(self).page_size as nat,
                old(self).pages_count as nat,
                page as nat,
                pad_page(data@, old(self).page_size as nat),
            );
            assert(final(self).pages() =~= old(self).pages().update(
                page as int,
                pad_page(data@, old(self).page_size as nat),
            ));
        }
        Ok(())
    }

    /// Encodes the record and overwrites page `page` with the encoding,
    /// zero-padded to a full page. Fails without touching the sink if the
    /// page does not exist or the encoding is longer than a page.
    pub fn write_page(&mut self, page: usize, data: &Record) -> (r: BookwormResult<()>)
        requires
            old(self).wf(),
        ensures
            final(self).wf(),
            final(self).page_size == old(self).page_size,
            final(self).pages_count == old(self).pages_count,
            r is Err ==> final(self).stream.data == old(self).stream.data,
            page >= old(self).pages_count ==> (r matches Err(e) && e.kind
                == ErrorKind::PageNotFound),
            page < old(self).pages_count && record_bytes(*data).len() > old(self).page_size ==> (
            r matches Err(e) && e.kind == ErrorKind::PageTooLarge),
            page < old(self).pages_count && record_bytes(*data).len() <= old(self).page_size
                ==> r is Ok,
            r is Ok ==> {
                &&& final(self).stream.data@ == write_at(
                    old(self).stream.data@,
                    (page * old(self).page_size) as nat,
                    pad_page(record_bytes(*data), old(self).page_size as nat),
                )
                &&& final(self).stream.data@.len() == old(self).stream.data@.len()
                &&& final(self).pages() == old(self).pages().update(
                    page as int,
                    pad_page(record_bytes(*data), old(self).page_size as nat),
                )
            },
    {
        if page >= self.pages_count {
            return Err(
                BookwormError::new(ErrorKind::PageNotFound, "Page doesn't exist".to_string()),
            );
        }
        let serialized = encode_record(data);
        if serialized.len() > self.page_size {
            return Err(
                BookwormError::new(
                    ErrorKind::PageTooLarge,
                    "Could not write data to page: data is bigger than page".to_string(),
                ),
            );
        }
        self.write_raw_page(page, serialized.as_slice())
    }

    /// Appends the payload as a new page at index `pages_count`, then
    /// increments the counter; the counter only grows once the write has
    /// happened, so a rejected append leaves the store unchanged.
    pub fn push_raw(&mut self, data: &[u8]) -> (r: BookwormResult<()>)
        requires
            old(self).wf(),
            old(self).pages_count * old(self).page_size + old(self).page_size <= usize::MAX,
        ensures
            final(self).wf(),
            final(self).page_size == old(self).page_size,
            data@.len() > old(self).page_size ==> (r matches Err(e) && e.kind
                == ErrorKind::PageTooLarge && final(self).stream.data == old(self).stream.data
                && final(self).pages_count == old(self).pages_count),
            data@.len() <= old(self).page_size ==> r is Ok,
            r is Ok ==> {
                &&& final(self).pages_count == old(self).pages_count + 1
                &&& final(self).stream.data@ == write_at(
                    old(self).stream.data@,
                    (old(self).pages_count * old(self).page_size) as nat,
                    pad_page(data@, old(self).page_size as nat),
                )
                &&& final(self).pages() == old(self).pages().push(
                    pad_page(data@, old(self).page_size as nat),
                )
            },
    {
        if data.len() > self.page_size {
            return Err(
                BookwormError::new(
                    ErrorKind::PageTooLarge,
                    "Could not write data to page: data is bigger than page".to_string(),
                ),
            );
        }
        let slot = self.pages_count;
        self.write_slot(slot, data);
        proof {
            let count = old(self).pages_count as int;
            let ps = old(self).page_size as int;
            lemma_mul_inequality(1, ps, count);
            assert(count * ps == ps * count) by (nonlinear_arith);
        }
        self.pages_count = self.pages_count + 1;
        proof {
            let count = old(self).pages_count as int;
            let ps = old(self).page_size as int;
            lemma_pages_after_write(
                old(self).stream.data@,
                old(self).page_size as nat,
                old(self).pages_count as nat,
                old(self).pages_count as nat,
                pad_page(data@, old(self).page_size as nat),
            );
            assert((count + 1) * ps == count * ps + ps) by (nonlinear_arith);
            assert(final(self).pages() =~= old(self).pages().push(
                pad_page(data@, old(self).page_size as nat),
            ));
        }
        Ok(())
    }

    /// Encodes the record and appends it as a new page, incrementing the
    /// counter only once the write has happened.
    pub fn push(&mut self, data: &Record) -> (r: BookwormResult<()>)
        requires
            old(self).wf(),
            old(self).pages_count * old(self).page_size + old(self).page_size <= usize::MAX,
        ensures
            final(self).wf(),
            final(self).page_size == old(self).page_size,
            record_bytes(*data).len() > old(self).page_size ==> (r matches Err(e) && e.kind
                == ErrorKind::PageTooLarge && final(self).stream.data == old(self).stream.data
                && final(self).pages_count == old(self).pages_count),
            record_bytes(*data).len() <= old(self).page_size ==> r is Ok,
            r is Ok ==> {
                &&& final(self).pages_count == old(self).pages_count + 1
                &&& final(self).stream.data@ == write_at(
                    old(self).stream.data@,
                    (old(self).pages_count * old(self).page_size) as nat,
                    pad_page(record_bytes(*data), old(self).page_size as nat),
                )
                &&& final(self).pages() == old(self).pages().push(
                    pad_page(record_bytes(*data), old(self).page_size as nat),
                )
            },
    {
        let serialized = encode_record(data);
        self.push_raw(serialized.as_slice())
    }

    /// Removes the last page: decrements the counter and scrubs the vacated
    /// slot with zero bytes, so stale content cannot resurface. Fails with
    /// an underflow error when the store holds no pages.
    pub fn pop(&mut self) -> (r: BookwormResult<()>)
        requires
            old(self).wf(),
        ensures
            final(self).wf(),
            final(self).page_size == old(self).page_size,
            old(self).pages_count == 0 ==> (r matches Err(e) && e.kind == ErrorKind::Underflow
                && final(self).stream.data == old(self).stream.data && final(self).pages_count
                == 0),
            old(self).pages_count > 0 ==> r is Ok,
            r is Ok ==> {
                &&& final(self).pages_count == old(self).pages_count - 1
                &&& final(self).stream.data@ == write_at(
                    old(self).stream.data@,
                    ((old(self).pages_count - 1) * old(self).page_size) as nat,
                    zero_bytes(old(self).page_size as nat),
                )
                &&& final(self).stream.data@.len() == old(self).stream.data@.len()
                &&& final(self).pages() == old(self).pages().subrange(
                    0,
                    old(self).pages_count - 1,
                )
            },
    {
        if self.pages_count == 0 {
            return Err(
                BookwormError::new(ErrorKind::Underflow, "No page to remove".to_string()),
            );
        }
        self.pages_count = self.pages_count - 1;
        proof {
            lemma_slot_bounds(
                old(self).pages_count as nat,
                old(self).page_size as nat,
                (old(self).pages_count - 1) as nat,
            );
            lemma_mul_inequality(
                old(self).pages_count as int - 1,
                old(self).pages_count as int,
                old(self).page_size as int,
            );
        }
        let slot = self.pages_count;
        let scrub: Vec<u8> = Vec::new();
        self.write_slot(slot, scrub.as_slice());
        proof {
            assert(pad_page(Seq::<u8>::empty(), old(self).page_size as nat) =~= zero_bytes(
                old(self).page_size as nat,
            ));
            lemma_pages_after_write(
                old(self).stream.data@,
                old(self).page_size as nat,
                old(self).pages_count as nat,
                (old(self).pages_count - 1) as nat,
                zero_bytes(old(self).page_size as nat),
            );
            assert(final(self).pages() =~= old(self).pages().subrange(
                0,
                old(self).pages_count - 1,
            ));
        }
        Ok(())
    }

    /// Forgets every page: resets the counter to zero without erasing the
    /// underlying bytes.
    pub fn clear(&mut self)
        requires
            old(self).wf(),
        ensures
            final(self).wf(),
            final(self).page_size == old(self).page_size,
            final(self).pages_count == 0,
            final(self).stream.data == old(self).stream.data,
    {
        self.pages_count = 0;
    }

    /// Reads page `page` and decodes the record it holds. The decode reads
    /// the full zero-padded page, which the self-delimiting codec accepts.
    pub fn get_page(&mut self, page: usize) -> (r: BookwormResult<Record>)
        requires
            old(self).wf(),
        ensures
            final(self).wf(),
            final(self).page_size == old(self).page_size,
            final(self).pages_count == old(self).pages_count,
            final(self).stream.data == old(self).stream.data,
            page >= old(self).pages_count ==> (r matches Err(e) && e.kind
                == ErrorKind::PageNotFound),
            page < old(self).pages_count ==> match r {
                Ok(rec) => decoded_record(old(self).page(page as int)) == Some(rec),
                Err(e) => e.kind == ErrorKind::DecodeFailure && decoded_record(
                    old(self).page(page as int),
                ) is None,
            },
    {
        let raw_page = match self.get_raw_page(page) {
            Ok(v) => v,
            Err(e) => {
                return Err(e);
            },
        };
        match decode_record(raw_page.as_slice()) {
            Some(parsed) => Ok(parsed),
            None => Err(
                BookwormError::new(ErrorKind::DecodeFailure, "Could not parse data".to_string()),
            ),
        }
    }

    /// Starts a borrowing raw-page sequence at the given page index; the
    /// store stays usable by its owner once the sequence is abandoned.
    pub fn raw_iter(&self, starting_page: usize) -> (it: RawPagerIter<'_>)
        ensures
            it.pager == self,
            it.curr_pos == starting_page,
    {
        RawPagerIter { curr_pos: starting_page, pager: self }
    }

    /// Starts a borrowing typed-record sequence at the given page index; the
    /// store stays usable by its owner once the sequence is abandoned.
    pub fn iter(&self, starting_page: usize) -> (it: PagerIter<'_>)
        ensures
            it.pager == self,
            it.curr_pos == starting_page,
    {
        PagerIter { curr_pos: starting_page, pager: self }
    }

    /// Consumes the store into a raw-page sequence that starts at the given
    /// page index and runs until the sink has no full page left.
    pub fn into_raw_iterator(self, starting_page: usize) -> (it: RawPagerIterator)
        requires
            starting_page * self.page_size <= usize::MAX,
        ensures
            it.page_size == self.page_size,
            it.stream.data == self.stream.data,
            it.stream.pos == starting_page * self.page_size,
    {
        let off = starting_page * self.page_size;
        let mut stream = self.stream;
        stream.seek_to(off);
        RawPagerIterator { page_size: self.page_size, stream }
    }

    /// Consumes the store into a typed-record sequence that starts at the
    /// given page index and runs until the sink has no full page left.
    pub fn into_iterator(self, starting_page: usize) -> (it: PagerIterator)
        requires
            starting_page * self.page_size <= usize::MAX,
        ensures
            it.page_size == self.page_size,
            it.stream.data == self.stream.data,
            it.stream.pos == starting_page * self.page_size,
    {
        let off = starting_page * self.page_size;
        let mut stream = self.stream;
        stream.seek_to(off);
        PagerIterator { page_size: self.page_size, stream }
    }
}

/// A consuming raw-page sequence: owns the sink and reads one full page at
/// the cursor per step; a short read ends the sequence.
#[derive(Debug)]
pub struct RawPagerIterator {
    pub stream: ByteStream,
    pub page_size: usize,
}

impl RawPagerIterator {
    /// Yields the next full page of bytes, or nothing once fewer than a
    /// full page remains at the cursor.
    pub fn next(&mut self) -> (r: Option<Vec<u8>>)
        ensures
            final(self).page_size == old(self).page_size,
            final(self).stream.data == old(self).stream.data,
            old(self).stream.pos + old(self).page_size <= old(self).stream.data@.len() ==> {
                &&& r matches Some(v) && v@ == old(self).stream.data@.subrange(
                    old(self).stream.pos as int,
                    old(self).stream.pos + old(self).page_size,
                )
                &&& final(self).stream.pos == old(self).stream.pos + old(self).page_size
            },
            old(self).stream.pos + old(self).page_size > old(self).stream.data@.len() ==> (
            r is None && final(self).stream.pos == old(self).stream.pos),
    {
        self.stream.read_exact(self.page_size)
    }

    /// Ends the sequence and hands the sink back.
    pub fn into_stream(self) -> (s: ByteStream)
        ensures
            s == self.stream,
    {
        self.stream
    }
}

/// A consuming typed-record sequence: owns the sink, reads one full page at
/// the cursor per step and decodes it; a short read or a failed decode ends
/// the sequence.
#[derive(Debug)]
pub struct PagerIterator {
    pub stream: ByteStream,
    pub page_size: usize,
}

impl PagerIterator {
    /// Yields the record of the next full page, or nothing once fewer than
    /// a full page remains at the cursor or the page does not decode.
    pub fn next(&mut self) -> (r: Option<Record>)
        ensures
            final(self).page_size == old(self).page_size,
            final(self).stream.data == old(self).stream.data,
            old(self).stream.pos + old(self).page_size <= old(self).stream.data@.len() ==> {
                &&& r == decoded_record(
                    old(self).stream.data@.subrange(
                        old(self).stream.pos as int,
                        old(self).stream.pos + old(self).page_size,
                    ),
                )
                &&& final(self).stream.pos == old(self).stream.pos + old(self).page_size
            },
            old(self).stream.pos + old(self).page_size > old(self).stream.data@.len() ==> (
            r is None && final(self).stream.pos == old(self).stream.pos),
    {
        match self.stream.read_exact(self.page_size) {
            Some(buf) => decode_record(buf.as_slice()),
            None => None,
        }
    }

    /// Ends the sequence and hands the sink back.
    pub fn into_stream(self) -> (s: ByteStream)
        ensures
            s == self.stream,
    {
        self.stream
    }
}

/// A borrowing raw-page sequence: steps through the counted pages by index
/// and ends at the page counter.
pub struct RawPagerIter<'a> {
    pub curr_pos: usize,
    pub pager: &'a Pager,
}

impl<'a> RawPagerIter<'a> {
    /// Yields the bytes of the page at the sequence's position and advances
    /// it, or nothing once the position has reached the page counter.
    pub fn next(&mut self) -> (r: Option<Vec<u8>>)
        requires
            old(self).pager.wf(),
        ensures
            final(self).pager == old(self).pager,
            old(self).curr_pos < old(self).pager.pages_count ==> {
                &&& r matches Some(v) && v@ == old(self).pager.page(old(self).curr_pos as int)
                &&& final(self).curr_pos == old(self).curr_pos + 1
            },
            old(self).curr_pos >= old(self).pager.pages_count ==> (r is None
                && final(self).curr_pos == old(self).curr_pos),
    {
        if self.curr_pos >= self.pager.pages_count {
            return None;
        }
        proof {
            lemma_slot_bounds(
                self.pager.pages_count as nat,
                self.pager.page_size as nat,
                self.curr_pos as nat,
            );
        }
        let off = self.curr_pos * self.pager.page_size;
        match self.pager.stream.read_at(off, self.pager.page_size) {
            Some(buf) => {
                self.curr_pos = self.curr_pos + 1;
                Some(buf)
            },
            None => None,
        }
    }
}

/// A borrowing typed-record sequence: steps through the counted pages by
/// index, decoding each, and ends at the page counter; with `next` a page
/// that does not decode also ends the sequence, while `next_checked` tells
/// the two signals apart.
pub struct PagerIter<'a> {
    pub curr_pos: usize,
    pub pager: &'a Pager,
}

impl<'a> PagerIter<'a> {
    /// Yields the record of the page at the sequence's position and
    /// advances it; yields nothing, without advancing, once the position has
    /// reached the page counter or the page does not decode.
    pub fn next(&mut self) -> (r: Option<Record>)
        requires
            old(self).pager.wf(),
        ensures
            final(self).pager == old(self).pager,
            r matches Some(rec) ==> {
                &&& old(self).curr_pos < old(self).pager.pages_count
                &&& decoded_record(old(self).pager.page(old(self).curr_pos as int)) == Some(rec)
                &&& final(self).curr_pos == old(self).curr_pos + 1
            },
            r is None ==> {
                &&& (old(self).curr_pos >= old(self).pager.pages_count || decoded_record(
                    old(self).pager.page(old(self).curr_pos as int),
                ) is None)
                &&& final(self).curr_pos == old(self).curr_pos
            },
    {
        match self.next_checked() {
            Ok(Some(rec)) => Some(rec),
            Ok(None) => None,
            Err(_) => None,
        }
    }

    /// Like `next`, but keeps the two ways a sequence can stop apart: a
    /// position past the page counter is the end of the sequence, while a
    /// page that does not decode is reported as a decode failure, without
    /// advancing.
    pub fn next_checked(&mut self) -> (r: BookwormResult<Option<Record>>)
        requires
            old(self).pager.wf(),
        ensures
            final(self).pager == old(self).pager,
            old(self).curr_pos >= old(self).pager.pages_count ==> (r matches Ok(rec) && rec
                is None && final(self).curr_pos == old(self).curr_pos),
            old(self).curr_pos < old(self).pager.pages_count ==> match r {
                Ok(rec) => {
                    &&& rec matches Some(record) && decoded_record(
                        old(self).pager.page(old(self).curr_pos as int),
                    ) == Some(record)
                    &&& final(self).curr_pos == old(self).curr_pos + 1
                },
                Err(e) => {
                    &&& e.kind == ErrorKind::DecodeFailure
                    &&& decoded_record(old(self).pager.page(old(self).curr_pos as int)) is None
                    &&& final(self).curr_pos == old(self).curr_pos
                },
            },
    {
        if self.curr_pos >= self.pager.pages_count {
            return Ok(None);
        }
        proof {
            lemma_slot_bounds(
                self.pager.pages_count as nat,
                self.pager.page_size as nat,
                self.curr_pos as nat,
            );
        }
        let off = self.curr_pos * self.pager.page_size;
        match self.pager.stream.read_at(off, self.pager.page_size) {
            Some(buf) => match decode_record(buf.as_slice()) {
                Some(rec) => {
                    self.curr_pos = self.curr_pos + 1;
                    Ok(Some(rec))
                },
                None => Err(
                    BookwormError::new(
                        ErrorKind::DecodeFailure,
                        "Could not parse data".to_string(),
                    ),
                ),
            },
            None => Ok(None),
        }
    }
}

} // verus!
