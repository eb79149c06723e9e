//! The byte source a buffering adapter draws from: the contract every source
//! must meet, an in-memory source, and a source that always fails.

use vstd::prelude::*;
use crate::scatter::copy_into;
use crate::scatter::scatter;
use crate::scatter::scatter_from;
use crate::scatter::sum_lens;
use crate::scatter::total_len;
use crate::scatter::views_of;

verus! {

/// A producer of bytes that can be read into caller-supplied regions.
///
/// A source holds a (possibly unbounded) run of bytes still to be produced,
/// `remaining()`. Each read hands out some prefix of that run — a short read
/// is allowed, but a count of zero against a destination with room means
/// end-of-input — and never invents bytes of its own. A read that fails
/// produces nothing and leaves the run as it was; its error is one the
/// source owns up to in `can_err`.
pub trait ByteSource: Sized {
    /// The error a failing read reports; an adapter propagates it verbatim.
    type Err;

    /// The bytes this source has yet to produce.
    spec fn remaining(&self) -> Seq<u8>;

    /// How many read calls have been issued against this source so far.
    spec fn call_count(&self) -> nat;

    /// Whether this source always serves as many bytes as fit and never
    /// fails. A source free to short-read, or to fail, leaves this false.
    spec fn maximal(&self) -> bool;

    /// Whether this source can report `e`: a failing read reports only such
    /// errors.
    spec fn can_err(&self, e: Self::Err) -> bool;

    /// Reads some bytes into the front of `dest`, whose length never changes;
    /// the count returned is how many bytes were written there. A count of
    /// zero into a non-empty destination means the source is exhausted.
    fn read(&mut self, dest: &mut Vec<u8>) -> (r: Result<usize, Self::Err>)
        ensures
            final(self).call_count() == old(self).call_count() + 1,
            final(self).maximal() == old(self).maximal(),
            final(dest)@.len() == old(dest)@.len(),
            match r {
                Ok(n) => {
                    &&& n <= old(dest)@.len()
                    &&& n <= old(self).remaining().len()
                    &&& (n == 0 ==> old(self).remaining().len() == 0 || old(dest)@.len() == 0)
                    &&& final(dest)@ == old(self).remaining().take(n as int) + old(
                        dest,
                    )@.skip(n as int)
                    &&& final(self).remaining() == old(self).remaining().skip(n as int)
                },
                Err(e) => {
                    &&& old(self).can_err(e)
                    &&& final(dest)@ == old(dest)@
                    &&& final(self).remaining() == old(self).remaining()
                },
            },
            old(self).maximal() ==> match r {
                Ok(n) => n == vstd::math::min(
                    old(dest)@.len() as int,
                    old(self).remaining().len() as int,
                ),
                Err(_) => false,
            },
    ;

    /// Reads some bytes, scattering them across the regions of `dests` in
    /// order; every region keeps its length. A count of zero against regions
    /// with room means the source is exhausted.
    fn read_vectored(&mut self, dests: &mut Vec<Vec<u8>>) -> (r: Result<usize, Self::Err>)
        ensures
            final(self).call_count() == old(self).call_count() + 1,
            final(self).maximal() == old(self).maximal(),
            final(dests)@.len() == old(dests)@.len(),
            match r {
                Ok(n) => {
                    &&& n <= total_len(views_of(old(dests)@))
                    &&& n <= old(self).remaining().len()
                    &&& (n == 0 ==> old(self).remaining().len() == 0 || total_len(
                        views_of(old(dests)@),
                    ) == 0)
                    &&& views_of(final(dests)@) == scatter(
                        views_of(old(dests)@),
                        old(self).remaining().take(n as int),
                    )
                    &&& final(self).remaining() == old(self).remaining().skip(n as int)
                },
                Err(e) => {
                    &&& old(self).can_err(e)
                    &&& final(dests)@ == old(dests)@
                    &&& final(self).remaining() == old(self).remaining()
                },
            },
            old(self).maximal() ==> match r {
                Ok(n) => n == vstd::math::min(
                    total_len(views_of(old(dests)@)) as int,
                    old(self).remaining().len() as int,
                ),
                Err(_) => false,
            },
    ;
}

/// A source that serves the bytes of a vector, front to back, and gives each
/// read as many bytes as fit; at the end it reports zero bytes, never an
/// error.
pub struct MemSource {
    data: Vec<u8>,
    pos: usize,
    calls: Ghost<nat>,
}

impl MemSource {
    /// Makes a source that will produce exactly the bytes of `data`.
    pub fn new(data: Vec<u8>) -> (r: MemSource)
        ensures
            r.remaining() == data@,
            r.call_count() == 0,
    {
        let r = MemSource { data, pos: 0, calls: Ghost(0) };
        proof {
            assert(r.remaining() =~= r.data@);
        }
        r
    }

    /// How many bytes this source still has to serve.
    pub fn remaining_len(&self) -> (r: usize)
        ensures
            r == self.remaining().len(),
    {
        let len: usize = self.data.len();
        if self.pos >= len {
            0
        } else {
            len - self.pos
        }
    }
}

impl ByteSource for MemSource {
    type Err = u32;

    /// The bytes not yet served.
    closed spec fn remaining(&self) -> Seq<u8> {
        if self.pos <= self.data@.len() {
            self.data@.skip(self.pos as int)
        } else {
            Seq::empty()
        }
    }

    closed spec fn call_count(&self) -> nat {
        self.calls@
    }

    /// Every read serves as many bytes as fit, and none can fail.
    open spec fn maximal(&self) -> bool {
        true
    }

    /// No error is ever reported.
    open spec fn can_err(&self, e: u32) -> bool {
        false
    }

    fn read(&mut self, dest: &mut Vec<u8>) -> (r: Result<usize, u32>)
        ensures
            r == Result::<usize, u32>::Ok(
                vstd::math::min(
                    old(dest)@.len() as int,
                    old(self).remaining().len() as int,
                ) as usize,
            ),
    {
        self.calls = Ghost(self.calls@ + 1);
        let len: usize = self.data.len();
        if self.pos >= len {
            proof {
                assert(self.remaining().take(0) + dest@.skip(0) =~= dest@);
                assert(self.remaining().skip(0) =~= self.remaining());
            }
            return Ok(0);
        }
        let avail: usize = len - self.pos;
        let dlen: usize = dest.len();
        let n: usize = if dlen < avail {
            dlen
        } else {
            avail
        };
        copy_into(&self.data, self.pos, n, dest);
        let ghost before: Seq<u8> = self.remaining();
        self.pos = self.pos + n;
        proof {
            assert(dest@ =~= before.take(n as int) + old(dest)@.skip(n as int));
            assert(self.remaining() =~= before.skip(n as int));
        }
        Ok(n)
    }

    fn read_vectored(&mut self, dests: &mut Vec<Vec<u8>>) -> (r: Result<usize, u32>)
        ensures
            r == Result::<usize, u32>::Ok(
                vstd::math::min(
                    total_len(views_of(old(dests)@)) as int,
                    old(self).remaining().len() as int,
                ) as usize,
            ),
    {
        self.calls = Ghost(self.calls@ + 1);
        let len: usize = self.data.len();
        let total: usize = sum_lens(dests);
        let st: usize = if self.pos < len {
            self.pos
        } else {
            len
        };
        let avail: usize = len - st;
        let n: usize = if total < avail {
            total
        } else {
            avail
        };
        let ghost before: Seq<u8> = self.remaining();
        scatter_from(&self.data, st, n, dests);
        self.pos = st + n;
        proof {
            assert(self.data@.subrange(st as int, (st + n) as int) =~= before.take(n as int));
            assert(self.remaining() =~= before.skip(n as int));
        }
        Ok(n)
    }
}

/// A source that never produces a byte: every read reports the error it was
/// built with and changes nothing.
pub struct FaultySource {
    code: u32,
    calls: Ghost<nat>,
}

impl FaultySource {
    /// Makes a source whose every read fails with `code`.
    pub fn new(code: u32) -> (r: FaultySource)
        ensures
            r.error_code() == code,
            r.call_count() == 0,
            r.remaining() == Seq::<u8>::empty(),
    {
        FaultySource { code, calls: Ghost(0) }
    }

    /// The error every read of this source reports.
    pub closed spec fn error_code(&self) -> u32 {
        self.code
    }
}

impl ByteSource for FaultySource {
    type Err = u32;

    closed spec fn remaining(&self) -> Seq<u8> {
        Seq::empty()
    }

    closed spec fn call_count(&self) -> nat {
        self.calls@
    }

    /// Reads fail rather than serve bytes.
    open spec fn maximal(&self) -> bool {
        false
    }

    /// The one error this source reports is its own code, verbatim.
    open spec fn can_err(&self, e: u32) -> bool {
        e == self.error_code()
    }

    fn read(&mut self, dest: &mut Vec<u8>) -> (r: Result<usize, u32>)
        ensures
            r == Result::<usize, u32>::Err(old(self).error_code()),
    {
        self.calls = Ghost(self.calls@ + 1);
        Err(self.code)
    }

    fn read_vectored(&mut self, dests: &mut Vec<Vec<u8>>) -> (r: Result<usize, u32>)
        ensures
            r == Result::<usize, u32>::Err(old(self).error_code()),
    {
        self.calls = Ghost(self.calls@ + 1);
        Err(self.code)
    }
}

} // verus!
