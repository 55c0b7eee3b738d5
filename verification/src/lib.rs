//! A fixed-size-page storage primitive.
//!
//! The crate turns a seekable in-memory byte sink into an array of
//! equal-size, zero-indexed pages, each holding either raw bytes or one
//! encoded record, and removes a page from the middle of that array while
//! preserving order, using only bounded auxiliary memory.
//!
//! The `Bookworm` facade composes two independent page stores — a primary
//! and a scratch ("swap") store over a second byte sink — to implement
//! mid-sequence deletion without loading the whole tail into memory: the
//! tail is streamed into the swap store one page at a time, streamed back
//! one slot earlier, and the counter shrinks by one.

pub mod error;
pub mod pager;
pub mod record;
pub mod stream;

use vstd::arithmetic::div_mod::lemma_fundamental_div_mod;
use vstd::arithmetic::div_mod::lemma_mod_bound;
use vstd::arithmetic::mul::lemma_mul_inequality;
use vstd::prelude::*;

use crate::error::BookwormError;
use crate::error::BookwormResult;
use crate::error::ErrorKind;
use crate::pager::pad_page;
use crate::pager::Pager;
use crate::pager::PagerIterator;
use crate::pager::RawPagerIterator;
use crate::record::decoded_record;
use crate::record::lemma_decode_encoded_prefix;
use crate::record::record_bytes;
use crate::record::Record;
use crate::stream::ByteStream;

verus! {

/// One logical page array over a primary sink, with positional deletion
/// implemented through a second, structurally identical swap store.
#[derive(Debug)]
pub struct Bookworm {
    pub pager: Pager,
    pub swap: Pager,
    pub page_size: usize,
}

impl Bookworm {
    /// The facade is well formed: both stores are well formed, share the
    /// page size, and the swap store is empty between deletions.
    pub open spec fn wf(&self) -> bool {
        &&& self.pager.wf()
        &&& self.swap.wf()
        &&& self.pager.page_size == self.page_size
        &&& self.swap.page_size == self.page_size
        &&& self.swap.pages_count == 0
    }

    /// Binds the facade to two already-open sinks: the primary, whose whole
    /// pages become the visible page array, and the swap sink, whose
    /// contents are ignored and reused as scratch space.
    pub fn new(page_size: usize, data_source: ByteStream, swap: ByteStream) -> (b: Bookworm)
        requires
            page_size >= 1,
        ensures
            b.wf(),
            b.page_size == page_size,
            b.pager.stream.data == data_source.data,
            b.pager.pages_count == data_source.data@.len() as int / page_size as int,
            b.swap.stream.data == swap.data,
    {
        let pager = Pager::new(page_size, data_source);
        let mut swap_pager = Pager::new(page_size, swap);
        swap_pager.clear();
        Bookworm { page_size, pager, swap: swap_pager }
    }

    /// Reads page `page` of the primary store and decodes its record.
    pub fn get_page(&mut self, page: usize) -> (r: BookwormResult<Record>)
        requires
            old(self).wf(),
        ensures
            final(self).wf(),
            final(self).page_size == old(self).page_size,
            final(self).pager.pages_count == old(self).pager.pages_count,
            final(self).pager.stream.data == old(self).pager.stream.data,
            page >= old(self).pager.pages_count ==> (r matches Err(e) && e.kind
                == ErrorKind::PageNotFound),
            page < old(self).pager.pages_count ==> match r {
                Ok(rec) => decoded_record(old(self).pager.page(page as int)) == Some(rec),
                Err(e) => e.kind == ErrorKind::DecodeFailure && decoded_record(
                    old(self).pager.page(page as int),
                ) is None,
            },
    {
        self.pager.get_page(page)
    }

    /// Reads page `page` of the primary store and returns its full
    /// `page_size` bytes unmodified.
    pub fn get_raw_page(&mut self, page: usize) -> (r: BookwormResult<Vec<u8>>)
        requires
            old(self).wf(),
        ensures
            final(self).wf(),
            final(self).page_size == old(self).page_size,
            final(self).pager.pages_count == old(self).pager.pages_count,
            final(self).pager.stream.data == old(self).pager.stream.data,
            page < old(self).pager.pages_count ==> (r matches Ok(v) && v@ == old(self).pager.page(
                page as int,
            )),
            page >= old(self).pager.pages_count ==> (r matches Err(e) && e.kind
                == ErrorKind::PageNotFound),
    {
        self.pager.get_raw_page(page)
    }

    /// Encodes the record and appends it as a new page of the primary
    /// store; the counter grows only once the write has happened.
    pub fn push(&mut self, data: &Record) -> (r: BookwormResult<()>)
        requires
            old(self).wf(),
            old(self).pager.pages_count * old(self).page_size + old(self).page_size <= usize::MAX,
        ensures
            final(self).wf(),
            final(self).page_size == old(self).page_size,
            record_bytes(*data).len() > old(self).page_size ==> (r matches Err(e) && e.kind
                == ErrorKind::PageTooLarge && final(self).pager.stream.data == old(
                self,
            ).pager.stream.data && final(self).pager.pages_count == old(self).pager.pages_count),
            record_bytes(*data).len() <= old(self).page_size ==> r is Ok,
            r is Ok ==> {
                &&& final(self).pager.pages_count == old(self).pager.pages_count + 1
                &&& final(self).pager.pages() == old(self).pager.pages().push(
                    pad_page(record_bytes(*data), old(self).page_size as nat),
                )
            },
    {
        self.pager.push(data)
    }

    /// Removes the last page of the primary store, scrubbing the vacated
    /// slot; fails with an underflow error when the store holds no pages.
    pub fn pop(&mut self) -> (r: BookwormResult<()>)
        requires
            old(self).wf(),
        ensures
            final(self).wf(),
            final(self).page_size == old(self).page_size,
            old(self).pager.pages_count == 0 ==> (r matches Err(e) && e.kind
                == ErrorKind::Underflow && final(self).pager.stream.data == old(
                self,
            ).pager.stream.data && final(self).pager.pages_count == 0),
            old(self).pager.pages_count > 0 ==> r is Ok,
            r is Ok ==> {
                &&& final(self).pager.pages_count == old(self).pager.pages_count - 1
                &&& final(self).pager.pages() == old(self).pager.pages().subrange(
                    0,
                    old(self).pager.pages_count - 1,
                )
            },
    {
        self.pager.pop()
    }

    /// Removes the page at `page` and shifts every later page down one
    /// position, preserving order, in three phases: the tail past `page` is
    /// streamed into the swap store one page at a time, streamed back into
    /// the primary starting at `page`, and the primary counter shrinks by
    /// one while the swap counter resets to zero. Peak memory is one page
    /// regardless of the tail's length. No atomicity is guaranteed across
    /// the phases; there is no concurrent access and no crash-recovery
    /// goal.
    pub fn delete(&mut self, page: usize) -> (r: BookwormResult<()>)
        requires
            old(self).wf(),
        ensures
            final(self).wf(),
            final(self).page_size == old(self).page_size,
            old(self).pager.pages_count == 0 ==> (r matches Err(e) && e.kind
                == ErrorKind::Underflow && *final(self) == *old(self)),
            page >= old(self).pager.pages_count && old(self).pager.pages_count > 0 ==> (
            r matches Err(e) && e.kind == ErrorKind::PageNotFound && *final(self) == *old(self)),
            page < old(self).pager.pages_count ==> r is Ok,
            r is Ok ==> {
                &&& final(self).pager.pages_count == old(self).pager.pages_count - 1
                &&& final(self).pager.pages() == old(self).pager.pages().remove(page as int)
            },
    {
        if self.pages_count_internal() == 0 {
            return Err(
                BookwormError::new(ErrorKind::Underflow, "No page to delete".to_string()),
            );
        }
        if page >= self.pages_count_internal() {
            return Err(
                BookwormError::new(ErrorKind::PageNotFound, "Page doesn't exist".to_string()),
            );
        }
        let ghost count = old(self).pager.pages_count as int;
        let ghost ps = old(self).page_size as int;
        // Drain the tail past `page` into the swap store, one page per step.
        let mut i: usize = page + 1;
        while i < self.pager.pages_count
            invariant
                old(self).wf(),
                self.page_size == old(self).page_size,
                self.pager.wf(),
                self.swap.wf(),
                self.pager.page_size == old(self).page_size,
                self.swap.page_size == old(self).page_size,
                self.pager.pages_count == count,
                self.pager.stream.data@ == old(self).pager.stream.data@,
                count == old(self).pager.pages_count,
                ps == old(self).page_size,
                page < count,
                page + 1 <= i <= count,
                self.swap.pages_count == i - page - 1,
                forall|k: int|
                    0 <= k < i - page - 1 ==> self.swap.page(k) == old(self).pager.page(
                        page + 1 + k,
                    ),
            decreases count - i,
        {
            let data = match self.pager.get_raw_page(i) {
                Ok(d) => d,
                Err(e) => {
                    return Err(e);
                },
            };
            let ghost swap_before = self.swap;
            proof {
                let sc = self.swap.pages_count as int;
                lemma_mul_inequality(sc + 1, count, ps);
                assert((sc + 1) * ps == sc * ps + ps) by (nonlinear_arith);
                crate::pager::lemma_slot_bounds(count as nat, ps as nat, i as nat);
                assert(data@.len() == ps);
                assert(pad_page(data@, self.swap.page_size as nat) =~= data@);
            }
            match self.swap.push_raw(data.as_slice()) {
                Ok(()) => {},
                Err(e) => {
                    return Err(e);
                },
            }
            proof {
                let sc = swap_before.pages_count as int;
                assert(sc == i - page - 1);
                assert(data@ == old(self).pager.page(i as int));
                assert(self.swap.pages() == swap_before.pages().push(data@));
                assert forall|k: int| 0 <= k < sc + 1 implies self.swap.page(k) == old(
                    self,
                ).pager.page(page + 1 + k) by {
                    assert(self.swap.page(k) == self.swap.pages()[k]);
                    if k < sc {
                        assert(self.swap.pages()[k] == swap_before.pages()[k]);
                        assert(swap_before.pages()[k] == swap_before.page(k));
                    } else {
                        assert(self.swap.pages()[k] == data@);
                        assert(page + 1 + k == i);
                    }
                }
            }
            i = i + 1;
        }
        // Stream the swap store back into the primary, one slot earlier.
        let ghost tail_len = count - page - 1;
        let mut j: usize = 0;
        while j < self.swap.pages_count
            invariant
                old(self).wf(),
                self.page_size == old(self).page_size,
                self.pager.wf(),
                self.swap.wf(),
                self.pager.page_size == old(self).page_size,
                self.swap.page_size == old(self).page_size,
                self.pager.pages_count == count,
                self.swap.pages_count == tail_len,
                count == old(self).pager.pages_count,
                ps == old(self).page_size,
                tail_len == count - page - 1,
                page < count,
                0 <= j <= tail_len,
                self.pager.stream.data@.len() == old(self).pager.stream.data@.len(),
                forall|k: int|
                    0 <= k < tail_len ==> self.swap.page(k) == old(self).pager.page(page + 1 + k),
                forall|k: int| 0 <= k < page ==> self.pager.page(k) == old(self).pager.page(k),
                forall|m: int|
                    page <= m < page + j ==> self.pager.page(m) == old(self).pager.page(m + 1),
                forall|m: int|
                    page + j <= m < count ==> self.pager.page(m) == old(self).pager.page(m),
            decreases tail_len - j,
        {
            let ghost swap_body_start = self.swap;
            let data = match self.swap.get_raw_page(j) {
                Ok(d) => d,
                Err(e) => {
                    return Err(e);
                },
            };
            proof {
                assert forall|k: int| 0 <= k < tail_len implies self.swap.page(k) == old(
                    self,
                ).pager.page(page + 1 + k) by {
                    assert(self.swap.page(k) == swap_body_start.page(k));
                    assert(swap_body_start.page(k) == old(self).pager.page(page + 1 + k));
                }
            }
            proof {
                crate::pager::lemma_slot_bounds(tail_len as nat, ps as nat, j as nat);
                lemma_mul_inequality(tail_len, count, ps);
                assert(data@.len() == ps);
            }
            let ghost pager_before = self.pager;
            match self.pager.write_raw_page(page + j, data.as_slice()) {
                Ok(()) => {},
                Err(e) => {
                    return Err(e);
                },
            }
            proof {
                assert(pad_page(data@, old(self).page_size as nat) =~= data@);
                assert(self.pager.pages() == pager_before.pages().update(page + j, data@));
                assert forall|m: int| 0 <= m < count implies self.pager.page(m) == (if m == page
                    + j {
                    data@
                } else {
                    pager_before.page(m)
                }) by {
                    assert(self.pager.pages()[m] == self.pager.page(m));
                    assert(pager_before.pages()[m] == pager_before.page(m));
                }
            }
            j = j + 1;
        }
        // Drop the final, now-duplicated tail slot from the logical view and
        // reset the swap store for the next deletion.
        let ghost pager_exit = self.pager;
        self.pager.pages_count = self.pager.pages_count - 1;
        proof {
            lemma_mul_inequality(count - 1, count, ps);
        }
        self.swap.clear();
        proof {
            let removed = old(self).pager.pages().remove(page as int);
            assert(removed.len() == count - 1);
            assert forall|m: int| 0 <= m < count - 1 implies final(self).pager.pages()[m]
                == removed[m] by {
                assert(final(self).pager.pages()[m] == final(self).pager.page(m));
                assert(final(self).pager.page(m) == pager_exit.page(m));
                if m < page {
                    assert(pager_exit.page(m) == old(self).pager.page(m));
                } else {
                    assert(pager_exit.page(m) == old(self).pager.page(m + 1));
                }
                assert(old(self).pager.pages()[m] == old(self).pager.page(m));
                if m + 1 < count {
                    assert(old(self).pager.pages()[m + 1] == old(self).pager.page(m + 1));
                }
            }
            assert(final(self).pager.pages() =~= removed);
        }
        Ok(())
    }

    /// The number of pages the primary store currently counts.
    fn pages_count_internal(&self) -> (n: usize)
        ensures
            n == self.pager.pages_count,
    {
        self.pager.pages_count
    }

    /// Consumes the facade into a raw-page sequence over the primary sink,
    /// rewound to page zero.
    pub fn into_raw_iter(self) -> (it: RawPageIterator)
        requires
            self.wf(),
        ensures
            it.pager_iterator.page_size == self.page_size,
            it.pager_iterator.stream.data == self.pager.stream.data,
            it.pager_iterator.stream.pos == 0,
    {
        RawPageIterator { pager_iterator: self.pager.into_raw_iterator(0) }
    }

    /// Consumes the facade into a typed-record sequence over the primary
    /// sink, rewound to page zero.
    pub fn into_iter(self) -> (it: PageIterator)
        requires
            self.wf(),
        ensures
            it.pager_iterator.page_size == self.page_size,
            it.pager_iterator.stream.data == self.pager.stream.data,
            it.pager_iterator.stream.pos == 0,
    {
        PageIterator { pager_iterator: self.pager.into_iterator(0) }
    }
}

/// A consuming raw-page sequence over the facade's primary sink.
#[derive(Debug)]
pub struct RawPageIterator {
    pub pager_iterator: RawPagerIterator,
}

impl RawPageIterator {
    /// Yields the next full page of bytes, or nothing once fewer than a
    /// full page remains at the cursor.
    pub fn next(&mut self) -> (r: Option<Vec<u8>>)
        ensures
            final(self).pager_iterator.page_size == old(self).pager_iterator.page_size,
            final(self).pager_iterator.stream.data == old(self).pager_iterator.stream.data,
            old(self).pager_iterator.stream.pos + old(self).pager_iterator.page_size <= old(
                self,
            ).pager_iterator.stream.data@.len() ==> {
                &&& r matches Some(v) && v@ == old(self).pager_iterator.stream.data@.subrange(
                    old(self).pager_iterator.stream.pos as int,
                    old(self).pager_iterator.stream.pos + old(self).pager_iterator.page_size,
                )
                &&& final(self).pager_iterator.stream.pos == old(self).pager_iterator.stream.pos
                    + old(self).pager_iterator.page_size
            },
            old(self).pager_iterator.stream.pos + old(self).pager_iterator.page_size > old(
                self,
            ).pager_iterator.stream.data@.len() ==> (r is None && final(self).pager_iterator.stream.pos == old(self).pager_iterator.stream.pos),
    {
        self.pager_iterator.next()
    }

    /// Ends the sequence and hands the sink back.
    pub fn into_stream(self) -> (s: ByteStream)
        ensures
            s == self.pager_iterator.stream,
    {
        self.pager_iterator.into_stream()
    }
}

/// A consuming typed-record sequence over the facade's primary sink.
#[derive(Debug)]
pub struct PageIterator {
    pub pager_iterator: PagerIterator,
}

impl PageIterator {
    /// Yields the record of the next full page, or nothing once fewer than
    /// a full page remains at the cursor or the page does not decode.
    pub fn next(&mut self) -> (r: Option<Record>)
        ensures
            final(self).pager_iterator.page_size == old(self).pager_iterator.page_size,
            final(self).pager_iterator.stream.data == old(self).pager_iterator.stream.data,
            old(self).pager_iterator.stream.pos + old(self).pager_iterator.page_size <= old(
                self,
            ).pager_iterator.stream.data@.len() ==> {
                &&& r == decoded_record(
                    old(self).pager_iterator.stream.data@.subrange(
                        old(self).pager_iterator.stream.pos as int,
                        old(self).pager_iterator.stream.pos + old(self).pager_iterator.page_size,
                    ),
                )
                &&& final(self).pager_iterator.stream.pos == old(self).pager_iterator.stream.pos
                    + old(self).pager_iterator.page_size
            },
            old(self).pager_iterator.stream.pos + old(self).pager_iterator.page_size > old(
                self,
            ).pager_iterator.stream.data@.len() ==> (r is None && final(self).pager_iterator.stream.pos == old(self).pager_iterator.stream.pos),
    {
        self.pager_iterator.next()
    }

    /// Ends the sequence and hands the sink back.
    pub fn into_stream(self) -> (s: ByteStream)
        ensures
            s == self.pager_iterator.stream,
    {
        self.pager_iterator.into_stream()
    }
}

/// Round trip: a record whose encoding fits in a page decodes back exactly
/// from the zero-padded page the encoding was written into.
pub proof fn lemma_record_round_trip(r: Record, page_size: nat)
    requires
        record_bytes(r).len() <= page_size,
    ensures
        decoded_record(pad_page(record_bytes(r), page_size)) == Some(r),
{
    let padded = pad_page(record_bytes(r), page_size);
    assert(padded.subrange(0, record_bytes(r).len() as int) =~= record_bytes(r));
    lemma_decode_encoded_prefix(r, padded);
}

/// Push/pop inverse: appending a record makes the padded encoding the last
/// page, which decodes back to the record, and leaves the earlier pages
/// unchanged; removing the last page afterwards restores the original page
/// array, and the appended page's index lies past the restored counter, so
/// reading it fails. The three store states are related exactly as the
/// contracts of `push` and `pop` leave them.
pub proof fn lemma_push_pop_inverse(before: Pager, pushed: Pager, popped: Pager, r: Record)
    requires
        before.wf(),
        record_bytes(r).len() <= before.page_size,
        pushed.page_size == before.page_size,
        pushed.pages_count == before.pages_count + 1,
        pushed.pages() == before.pages().push(
            pad_page(record_bytes(r), before.page_size as nat),
        ),
        popped.pages_count == pushed.pages_count - 1,
        popped.pages() == pushed.pages().subrange(0, pushed.pages_count - 1),
    ensures
        pushed.pages().last() == pad_page(record_bytes(r), before.page_size as nat),
        decoded_record(pushed.pages().last()) == Some(r),
        popped.pages() == before.pages(),
        popped.pages_count == before.pages_count,
{
    lemma_record_round_trip(r, before.page_size as nat);
    assert(popped.pages() =~= before.pages());
}

/// Iteration order: when the counted pages hold the padded encodings of a
/// sequence of records, each page decodes to its record, so a typed
/// sequence started at page zero yields exactly those records in order and
/// then stops at the page counter.
pub proof fn lemma_iteration_order(p: Pager, rs: Seq<Record>)
    requires
        p.wf(),
        rs.len() == p.pages_count,
        forall|k: int| 0 <= k < rs.len() ==> record_bytes(rs[k]).len() <= p.page_size,
        forall|k: int|
            0 <= k < rs.len() ==> p.page(k) == pad_page(record_bytes(rs[k]), p.page_size as nat),
    ensures
        forall|k: int| 0 <= k < rs.len() ==> decoded_record(p.page(k)) == Some(rs[k]),
{
    assert forall|k: int| 0 <= k < rs.len() implies decoded_record(p.page(k)) == Some(rs[k]) by {
        lemma_record_round_trip(rs[k], p.page_size as nat);
    }
}

/// Reopen stability: binding a new store over an already-populated sink
/// derives a counter at least as large as the previous instance's and keeps
/// every page that instance counted, so the same records are exposed.
pub proof fn lemma_reopen_stability(p: Pager, reopened: Pager)
    requires
        p.wf(),
        reopened.page_size == p.page_size,
        reopened.stream.data@ == p.stream.data@,
        reopened.pages_count == p.stream.data@.len() as int / p.page_size as int,
    ensures
        reopened.pages_count >= p.pages_count,
        forall|k: int| 0 <= k < p.pages_count ==> reopened.page(k) == p.page(k),
{
    let len = p.stream.data@.len() as int;
    let ps = p.page_size as int;
    let count = p.pages_count as int;
    lemma_fundamental_div_mod(len, ps);
    lemma_mod_bound(len, ps);
    if count > len / ps {
        lemma_mul_inequality(len / ps + 1, count, ps);
        assert((len / ps + 1) * ps == (len / ps) * ps + ps) by (nonlinear_arith);
        assert(ps * (len / ps) == (len / ps) * ps) by (nonlinear_arith);
        assert(false);
    }
}

} // verus!
