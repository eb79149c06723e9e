//! The buffering adapter: a fixed-capacity buffer in front of a byte source,
//! a fill/consume protocol over it, and a bypass for requests at least as
//! large as the buffer itself.

use vstd::prelude::*;
use crate::scatter::copy_into;
use crate::scatter::scatter;
use crate::scatter::scatter_from;
use crate::scatter::sum_lens;
use crate::scatter::total_len;
use crate::scatter::views_of;
use crate::source::ByteSource;

verus! {

/// The buffer capacity `new` picks.
pub const DEFAULT_CAPACITY: usize = 4096;

/// Wraps a byte source and amortizes many small reads into fewer, larger
/// reads against it. Bytes pass through a fixed-capacity buffer, except for
/// requests at least as large as that buffer, which go straight to the
/// source.
///
/// Releasing the adapter with unread buffered bytes drops those bytes for
/// good: the source has already moved past them.
pub struct BufReader<R: ByteSource> {
    inner: R,
    buf: Vec<u8>,
    pos: usize,
    cap: usize,
}

impl<R: ByteSource> BufReader<R> {
    /// The source behind the adapter.
    pub closed spec fn src(self) -> R {
        self.inner
    }

    /// Offset of the next unread byte within the internal buffer.
    pub closed spec fn read_pos(self) -> nat {
        self.pos as nat
    }

    /// Offset one past the last filled byte within the internal buffer.
    pub closed spec fn fill_len(self) -> nat {
        self.cap as nat
    }

    /// Size of the internal buffer, fixed at construction.
    pub closed spec fn capacity(self) -> nat {
        self.buf@.len()
    }

    /// The buffered bytes read from the source but not yet handed out.
    pub closed spec fn unread(self) -> Seq<u8> {
        self.buf@.subrange(self.pos as int, self.cap as int)
    }

    /// The bytes the source still has to produce.
    pub open spec fn src_rem(self) -> Seq<u8> {
        self.src().remaining()
    }

    /// How many reads have been issued against the source.
    pub open spec fn src_calls(self) -> nat {
        self.src().call_count()
    }

    /// Everything a caller has not seen yet: first the unread buffered
    /// bytes, then whatever the source still holds.
    pub open spec fn stream(self) -> Seq<u8> {
        self.unread() + self.src_rem()
    }

    /// The adapter's invariant: the read cursor never passes the fill
    /// boundary, the fill boundary never passes the capacity, and the unread
    /// region is exactly what lies between the two.
    pub open spec fn wf(self) -> bool {
        &&& self.read_pos() <= self.fill_len() <= self.capacity()
        &&& self.unread().len() == self.fill_len() - self.read_pos()
    }

    /// Makes an adapter over `inner` with an internal buffer of exactly
    /// `capacity` zeroed bytes; no read is issued.
    pub fn with_capacity(capacity: usize, inner: R) -> (r: BufReader<R>)
        ensures
            r.wf(),
            r.capacity() == capacity,
            r.read_pos() == 0,
            r.fill_len() == 0,
            r.src() == inner,
            r.src_calls() == inner.call_count(),
            r.stream() == inner.remaining(),
    {
        let buf: Vec<u8> = vec![0u8; capacity];
        let r = BufReader { inner, buf, pos: 0, cap: 0 };
        proof {
            assert(r.unread() =~= Seq::<u8>::empty());
            assert(r.stream() =~= r.src_rem());
        }
        r
    }

    /// Makes an adapter with the default capacity; no read is issued.
    pub fn new(inner: R) -> (r: BufReader<R>)
        ensures
            r.wf(),
            r.capacity() == DEFAULT_CAPACITY,
            r.read_pos() == 0,
            r.fill_len() == 0,
            r.src() == inner,
            r.src_calls() == inner.call_count(),
            r.stream() == inner.remaining(),
    {
        BufReader::with_capacity(DEFAULT_CAPACITY, inner)
    }

    /// A shared view of the source.
    pub fn get_ref(&self) -> (r: &R)
        ensures
            *r == self.src(),
    {
        &self.inner
    }

    /// An exclusive view of the source; the buffered state stays as it is.
    pub fn get_mut(&mut self) -> (r: &mut R)
        ensures
            *r == old(self).src(),
            final(self).src() == *final(r),
            final(self).read_pos() == old(self).read_pos(),
            final(self).fill_len() == old(self).fill_len(),
            final(self).capacity() == old(self).capacity(),
            final(self).unread() == old(self).unread(),
    {
        &mut self.inner
    }

    /// The valid unread region of the internal buffer, as a read-only view.
    pub fn buffer(&self) -> (r: &[u8])
        requires
            self.wf(),
        ensures
            r@ == self.unread(),
    {
        vstd::slice::slice_subrange(self.buf.as_slice(), self.pos, self.cap)
    }

    /// A diagnostic snapshot: how many unread bytes are buffered, over the
    /// buffer's total capacity. Pure and side-effect-free; no read is ever
    /// issued for it.
    pub fn buffer_usage(&self) -> (r: (usize, usize))
        ensures
            self.wf() ==> r.0 == self.fill_len() - self.read_pos(),
            r.1 == self.capacity(),
    {
        let used: usize = if self.pos <= self.cap {
            self.cap - self.pos
        } else {
            0
        };
        (used, self.buf.len())
    }

    /// Releases the adapter and hands the source back. Unread buffered
    /// bytes, if any, are dropped for good: the source has already moved
    /// past them, so its next read starts after them.
    pub fn into_inner(self) -> (r: R)
        ensures
            r == self.src(),
    {
        self.inner
    }

    /// Declares the buffered bytes abandoned; only the bypass path uses it,
    /// and only when none are left anyway.
    #[inline]
    fn discard_buffer(&mut self)
        ensures
            final(self).read_pos() == 0,
            final(self).fill_len() == 0,
            final(self).capacity() == old(self).capacity(),
            final(self).src() == old(self).src(),
            final(self).unread() == Seq::<u8>::empty(),
    {
        self.pos = 0;
        self.cap = 0;
        proof {
            assert(self.unread() =~= Seq::<u8>::empty());
        }
    }

    /// With unread bytes present, does nothing and cannot fail; with the
    /// buffer drained, issues exactly one read against the source into the
    /// whole buffer — a short read is taken as it comes, and an empty one
    /// means the source is exhausted. Returns how many unread bytes stand
    /// ready afterwards; a source error leaves the buffered state exactly
    /// as it was.
    pub fn fill_buf(&mut self) -> (r: Result<usize, R::Err>)
        requires
            old(self).wf(),
        ensures
            final(self).wf(),
            final(self).capacity() == old(self).capacity(),
            final(self).src_calls() <= old(self).src_calls() + 1,
            final(self).src().maximal() == old(self).src().maximal(),
            final(self).stream() == old(self).stream(),
            old(self).read_pos() < old(self).fill_len() ==> r is Ok,
            old(self).src().maximal() ==> r is Ok,
            match r {
                Ok(n) => {
                    &&& n == final(self).fill_len() - final(self).read_pos()
                    &&& (n == 0 ==> old(self).stream().len() == 0 || old(self).capacity() == 0)
                    &&& final(self).unread() == final(self).stream().take(n as int)
                    &&& (old(self).read_pos() < old(self).fill_len() ==> *final(self) == *old(
                        self,
                    ))
                    &&& (old(self).read_pos() == old(self).fill_len() ==> {
                        &&& final(self).read_pos() == 0
                        &&& final(self).src_calls() == old(self).src_calls() + 1
                        &&& final(self).unread() == old(self).src_rem().take(n as int)
                        &&& final(self).src_rem() == old(self).src_rem().skip(n as int)
                        &&& (old(self).src().maximal() ==> n == vstd::math::min(
                            old(self).capacity() as int,
                            old(self).src_rem().len() as int,
                        ))
                    })
                },
                Err(e) => {
                    &&& old(self).src().can_err(e)
                    &&& final(self).read_pos() == old(self).read_pos()
                    &&& final(self).fill_len() == old(self).fill_len()
                    &&& final(self).unread() == old(self).unread()
                    &&& final(self).src_rem() == old(self).src_rem()
                    &&& final(self).src_calls() == old(self).src_calls() + 1
                },
            },
    {
        if self.pos >= self.cap {
            let res = self.inner.read(&mut self.buf);
            match res {
                Ok(n) => {
                    self.cap = n;
                    self.pos = 0;
                    proof {
                        assert(old(self).unread() =~= Seq::<u8>::empty());
                        assert(self.unread() =~= old(self).src_rem().take(n as int));
                        assert(self.stream() =~= old(self).src_rem());
                        assert(old(self).stream() =~= old(self).src_rem());
                        assert(self.unread() =~= self.stream().take(n as int));
                    }
                    Ok(n)
                },
                Err(e) => {
                    proof {
                        assert(self.unread() =~= old(self).unread());
                    }
                    Err(e)
                },
            }
        } else {
            let n: usize = self.cap - self.pos;
            proof {
                assert(self.unread() =~= self.stream().take(n as int));
            }
            Ok(n)
        }
    }

    /// Advances the read cursor over `amt` already-delivered bytes, clamped
    /// at the fill boundary: asking for more than is buffered drains the
    /// buffer and no more.
    pub fn consume(&mut self, amt: usize)
        requires
            old(self).wf(),
        ensures
            final(self).wf(),
            final(self).capacity() == old(self).capacity(),
            final(self).fill_len() == old(self).fill_len(),
            final(self).src() == old(self).src(),
            final(self).read_pos() == vstd::math::min(
                old(self).read_pos() as int + amt as int,
                old(self).fill_len() as int,
            ),
            final(self).unread() == old(self).unread().skip(
                vstd::math::min(amt as int, old(self).unread().len() as int),
            ),
            final(self).stream() == old(self).stream().skip(
                vstd::math::min(amt as int, old(self).unread().len() as int),
            ),
    {
        let room: usize = self.cap - self.pos;
        if amt < room {
            self.pos = self.pos + amt;
        } else {
            self.pos = self.cap;
        }
        proof {
            let k = vstd::math::min(amt as int, old(self).unread().len() as int);
            assert(self.unread() =~= old(self).unread().skip(k));
            assert(self.stream() =~= old(self).stream().skip(k));
        }
    }

    /// Reads into `dest`, whose length never changes; the count returned is
    /// how many bytes were written at its front, and those bytes are exactly
    /// the next ones of the stream. With the buffer drained and `dest` at
    /// least as large as the whole buffer, the read bypasses the buffer and
    /// goes straight to the source; otherwise the buffer is filled if need
    /// be and bytes are copied out of it. At most one source read is issued
    /// either way, and a source error leaves the unread bytes as they were.
    pub fn read(&mut self, dest: &mut Vec<u8>) -> (r: Result<usize, R::Err>)
        requires
            old(self).wf(),
        ensures
            final(self).wf(),
            final(self).capacity() == old(self).capacity(),
            final(dest)@.len() == old(dest)@.len(),
            final(self).src_calls() <= old(self).src_calls() + 1,
            final(self).src().maximal() == old(self).src().maximal(),
            old(self).unread().len() > 0 ==> r is Ok,
            old(self).src().maximal() ==> r is Ok,
            old(self).read_pos() == old(self).fill_len() && old(dest)@.len() >= old(
                self,
            ).capacity() ==> final(self).read_pos() == 0 && final(self).fill_len() == 0,
            match r {
                Ok(n) => {
                    &&& n <= old(dest)@.len()
                    &&& n <= old(self).stream().len()
                    &&& (n == 0 ==> old(self).stream().len() == 0 || old(dest)@.len() == 0)
                    &&& final(dest)@ == old(self).stream().take(n as int) + old(dest)@.skip(
                        n as int,
                    )
                    &&& final(self).stream() == old(self).stream().skip(n as int)
                    &&& (old(self).unread().len() > 0 ==> {
                        &&& n == vstd::math::min(
                            old(dest)@.len() as int,
                            old(self).unread().len() as int,
                        )
                        &&& final(self).src() == old(self).src()
                        &&& final(self).src_calls() == old(self).src_calls()
                        &&& final(self).read_pos() == old(self).read_pos() + n
                        &&& final(self).fill_len() == old(self).fill_len()
                    })
                    &&& (old(self).unread().len() == 0 ==> final(self).src_calls() == old(
                        self,
                    ).src_calls() + 1)
                    &&& (old(self).read_pos() == old(self).fill_len() && old(dest)@.len()
                        < old(self).capacity() ==> {
                        &&& final(self).read_pos() == n
                        &&& final(self).fill_len() <= old(self).capacity()
                        &&& n == vstd::math::min(
                            old(dest)@.len() as int,
                            final(self).fill_len() as int,
                        )
                        &&& (old(self).src().maximal() ==> final(self).fill_len()
                            == vstd::math::min(
                            old(self).capacity() as int,
                            old(self).stream().len() as int,
                        ))
                    })
                    &&& (old(self).read_pos() == old(self).fill_len() && old(dest)@.len()
                        >= old(self).capacity() ==> {
                        &&& final(self).src_calls() == old(self).src_calls() + 1
                        &&& (old(self).src().maximal() ==> n == vstd::math::min(
                            old(dest)@.len() as int,
                            old(self).stream().len() as int,
                        ))
                    })
                },
                Err(e) => {
                    &&& old(self).src().can_err(e)
                    &&& final(self).unread() == old(self).unread()
                    &&& final(self).stream() == old(self).stream()
                    &&& final(dest)@ == old(dest)@
                    &&& final(self).src_calls() == old(self).src_calls() + 1
                },
            },
    {
        if self.pos == self.cap && dest.len() >= self.buf.len() {
            self.discard_buffer();
            let res = self.inner.read(dest);
            proof {
                assert(old(self).unread() =~= Seq::<u8>::empty());
                assert(old(self).stream() =~= old(self).src_rem());
                assert(self.unread() =~= Seq::<u8>::empty());
                assert(self.stream() =~= self.src_rem());
            }
            return res;
        }
        let avail: usize = match self.fill_buf() {
            Ok(a) => a,
            Err(e) => {
                return Err(e);
            },
        };
        let ghost mid: BufReader<R> = *self;
        let dlen: usize = dest.len();
        let n: usize = if dlen < avail {
            dlen
        } else {
            avail
        };
        copy_into(&self.buf, self.pos, n, dest);
        self.pos = self.pos + n;
        proof {
            if old(self).unread().len() == 0 {
                assert(old(self).stream() =~= old(self).src_rem());
            }
            assert(self.buf@.subrange(mid.pos as int, (mid.pos + n) as int) =~= mid.unread().take(
                n as int,
            ));
            assert(mid.unread().take(n as int) =~= old(self).stream().take(n as int));
            assert(dest@ =~= old(self).stream().take(n as int) + old(dest)@.skip(n as int));
            assert(self.unread() =~= mid.unread().skip(n as int));
            assert(self.stream() =~= old(self).stream().skip(n as int));
        }
        Ok(n)
    }

    /// Reads into several destination regions at once, filling them in
    /// order; the dispatch is the same as `read`'s, with the regions'
    /// combined length as the size test for the bypass.
    pub fn read_vectored(&mut self, dests: &mut Vec<Vec<u8>>) -> (r: Result<usize, R::Err>)
        requires
            old(self).wf(),
        ensures
            final(self).wf(),
            final(self).capacity() == old(self).capacity(),
            final(dests)@.len() == old(dests)@.len(),
            final(self).src_calls() <= old(self).src_calls() + 1,
            final(self).src().maximal() == old(self).src().maximal(),
            old(self).unread().len() > 0 ==> r is Ok,
            old(self).src().maximal() ==> r is Ok,
            old(self).read_pos() == old(self).fill_len() && total_len(views_of(old(dests)@))
                >= old(self).capacity() ==> final(self).read_pos() == 0
                && final(self).fill_len() == 0,
            match r {
                Ok(n) => {
                    &&& n <= total_len(views_of(old(dests)@))
                    &&& n <= old(self).stream().len()
                    &&& (n == 0 ==> old(self).stream().len() == 0 || total_len(
                        views_of(old(dests)@),
                    ) == 0)
                    &&& views_of(final(dests)@) == scatter(
                        views_of(old(dests)@),
                        old(self).stream().take(n as int),
                    )
                    &&& final(self).stream() == old(self).stream().skip(n as int)
                    &&& (old(self).unread().len() > 0 ==> {
                        &&& n == vstd::math::min(
                            total_len(views_of(old(dests)@)) as int,
                            old(self).unread().len() as int,
                        )
                        &&& final(self).src() == old(self).src()
                        &&& final(self).src_calls() == old(self).src_calls()
                        &&& final(self).read_pos() == old(self).read_pos() + n
                        &&& final(self).fill_len() == old(self).fill_len()
                    })
                    &&& (old(self).unread().len() == 0 ==> final(self).src_calls() == old(
                        self,
                    ).src_calls() + 1)
                    &&& (old(self).read_pos() == old(self).fill_len() && total_len(
                        views_of(old(dests)@),
                    ) < old(self).capacity() ==> {
                        &&& final(self).read_pos() == n
                        &&& final(self).fill_len() <= old(self).capacity()
                        &&& n == vstd::math::min(
                            total_len(views_of(old(dests)@)) as int,
                            final(self).fill_len() as int,
                        )
                        &&& (old(self).src().maximal() ==> final(self).fill_len()
                            == vstd::math::min(
                            old(self).capacity() as int,
                            old(self).stream().len() as int,
                        ))
                    })
                    &&& (old(self).read_pos() == old(self).fill_len() && total_len(
                        views_of(old(dests)@),
                    ) >= old(self).capacity() ==> {
                        &&& final(self).src_calls() == old(self).src_calls() + 1
                        &&& (old(self).src().maximal() ==> n == vstd::math::min(
                            total_len(views_of(old(dests)@)) as int,
                            old(self).stream().len() as int,
                        ))
                    })
                },
                Err(e) => {
                    &&& old(self).src().can_err(e)
                    &&& final(self).unread() == old(self).unread()
                    &&& final(self).stream() == old(self).stream()
                    &&& final(dests)@ == old(dests)@
                    &&& final(self).src_calls() == old(self).src_calls() + 1
                },
            },
    {
        let total: usize = sum_lens(dests);
        if self.pos == self.cap && total >= self.buf.len() {
            self.discard_buffer();
            let res = self.inner.read_vectored(dests);
            proof {
                assert(old(self).unread() =~= Seq::<u8>::empty());
                assert(old(self).stream() =~= old(self).src_rem());
                assert(self.unread() =~= Seq::<u8>::empty());
                assert(self.stream() =~= self.src_rem());
            }
            return res;
        }
        let avail: usize = match self.fill_buf() {
            Ok(a) => a,
            Err(e) => {
                return Err(e);
            },
        };
        let ghost mid: BufReader<R> = *self;
        let n: usize = if total < avail {
            total
        } else {
            avail
        };
        scatter_from(&self.buf, self.pos, n, dests);
        self.pos = self.pos + n;
        proof {
            if old(self).unread().len() == 0 {
                assert(old(self).stream() =~= old(self).src_rem());
            }
            assert(self.buf@.subrange(mid.pos as int, (mid.pos + n) as int) =~= mid.unread().take(
                n as int,
            ));
            assert(mid.unread().take(n as int) =~= old(self).stream().take(n as int));
            assert(self.unread() =~= mid.unread().skip(n as int));
            assert(self.stream() =~= old(self).stream().skip(n as int));
        }
        Ok(n)
    }
}

/// The cursor offsets are machine words: both fit in `usize`, whatever state
/// the adapter is in.
pub proof fn lemma_offsets_fit<R: ByteSource>(r: BufReader<R>)
    ensures
        r.read_pos() <= usize::MAX,
        r.fill_len() <= usize::MAX,
{
}

/// Law: against a drained adapter the visible stream is exactly the source's
/// remaining bytes, so the large-request bypass delivers precisely what a
/// direct read of the source into the same destination would deliver.
pub proof fn lemma_bypass_equivalence<R: ByteSource>(r: BufReader<R>)
    requires
        r.wf(),
        r.read_pos() == r.fill_len(),
    ensures
        r.stream() == r.src_rem(),
{
    assert(r.unread() =~= Seq::<u8>::empty());
    assert(r.stream() =~= r.src_rem());
}

} // verus!
