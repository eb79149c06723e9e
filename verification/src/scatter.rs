//! Model of scattering a run of bytes, in order, across a sequence of
//! destination regions, each region keeping its length; and the verified
//! byte-copy helpers built on that model.

use vstd::prelude::*;

verus! {

/// The views of a sequence of byte vectors.
pub open spec fn views_of(ds: Seq<Vec<u8>>) -> Seq<Seq<u8>> {
    ds.map_values(|d: Vec<u8>| d@)
}

/// Number of bytes the regions can hold together.
pub open spec fn total_len(ds: Seq<Seq<u8>>) -> nat
    decreases ds.len(),
{
    if ds.len() == 0 {
        0
    } else {
        ds[0].len() + total_len(ds.drop_first())
    }
}

/// Number of bytes the first `i` regions can hold together.
pub open spec fn prefix_len(ds: Seq<Seq<u8>>, i: int) -> nat
    decreases i,
{
    if i <= 0 {
        0
    } else {
        prefix_len(ds, i - 1) + ds[i - 1].len()
    }
}

/// One region after receiving `data`: as much of `data` as fits, the tail of
/// the region kept as it was.
pub open spec fn fill_one(d: Seq<u8>, data: Seq<u8>) -> Seq<u8> {
    if data.len() >= d.len() {
        data.take(d.len() as int)
    } else {
        data + d.skip(data.len() as int)
    }
}

/// All regions after `data` is spread across them in order: the first region
/// takes the first bytes, the next region the following ones, and so on.
pub open spec fn scatter(ds: Seq<Seq<u8>>, data: Seq<u8>) -> Seq<Seq<u8>>
    decreases ds.len(),
{
    if ds.len() == 0 {
        ds
    } else {
        let k = vstd::math::min(ds[0].len() as int, data.len() as int);
        seq![fill_one(ds[0], data)] + scatter(ds.drop_first(), data.skip(k))
    }
}

/// Scattering fills exactly as many regions as it was given.
pub proof fn lemma_scatter_len(ds: Seq<Seq<u8>>, data: Seq<u8>)
    ensures
        scatter(ds, data).len() == ds.len(),
    decreases ds.len(),
{
    if ds.len() > 0 {
        let k = vstd::math::min(ds[0].len() as int, data.len() as int);
        lemma_scatter_len(ds.drop_first(), data.skip(k));
    }
}

/// The capacity of the first `i` regions, split at the first region.
pub proof fn lemma_prefix_len_drop_first(ds: Seq<Seq<u8>>, i: int)
    requires
        1 <= i <= ds.len(),
    ensures
        prefix_len(ds, i) == ds[0].len() + prefix_len(ds.drop_first(), i - 1),
    decreases i,
{
    if i == 1 {
        assert(prefix_len(ds, 0) == 0);
        assert(prefix_len(ds, 1) == ds[0].len());
        assert(prefix_len(ds.drop_first(), 0) == 0);
    } else {
        lemma_prefix_len_drop_first(ds, i - 1);
        assert(ds.drop_first()[i - 2] == ds[i - 1]);
        assert(prefix_len(ds, i) == prefix_len(ds, i - 1) + ds[i - 1].len());
        assert(prefix_len(ds.drop_first(), i - 1) == prefix_len(ds.drop_first(), i - 2)
            + ds.drop_first()[i - 2].len());
    }
}

/// Over all regions, the prefix capacity is the total capacity.
pub proof fn lemma_prefix_total(ds: Seq<Seq<u8>>)
    ensures
        prefix_len(ds, ds.len() as int) == total_len(ds),
    decreases ds.len(),
{
    if ds.len() > 0 {
        lemma_prefix_len_drop_first(ds, ds.len() as int);
        lemma_prefix_total(ds.drop_first());
    }
}

/// What scattering leaves in region `i`: the bytes of `data` that remain
/// after the regions before `i` took their share.
pub proof fn lemma_scatter_index(ds: Seq<Seq<u8>>, data: Seq<u8>, i: int)
    requires
        0 <= i < ds.len(),
    ensures
        scatter(ds, data)[i] == fill_one(
            ds[i],
            data.skip(vstd::math::min(prefix_len(ds, i) as int, data.len() as int)),
        ),
    decreases i,
{
    let k = vstd::math::min(ds[0].len() as int, data.len() as int);
    lemma_scatter_len(ds.drop_first(), data.skip(k));
    if i == 0 {
        assert(data.skip(0) =~= data);
    } else {
        lemma_scatter_index(ds.drop_first(), data.skip(k), i - 1);
        lemma_prefix_len_drop_first(ds, i);
        let m1 = vstd::math::min(prefix_len(ds, i) as int, data.len() as int);
        let m2 = vstd::math::min(
            prefix_len(ds.drop_first(), i - 1) as int,
            data.skip(k).len() as int,
        );
        assert(k + m2 == m1);
        assert(data.skip(k).skip(m2) =~= data.skip(m1));
        assert(ds.drop_first()[i - 1] == ds[i]);
        assert(scatter(ds, data)[i] == scatter(ds.drop_first(), data.skip(k))[i - 1]);
    }
}

/// Copies `n` bytes of `src`, starting at `start`, over the first `n` bytes
/// of `dest`; the rest of `dest` keeps its old bytes.
pub fn copy_into(src: &Vec<u8>, start: usize, n: usize, dest: &mut Vec<u8>)
    requires
        start + n <= src@.len(),
        n <= old(dest)@.len(),
    ensures
        final(dest)@.len() == old(dest)@.len(),
        final(dest)@ == src@.subrange(start as int, (start + n) as int) + old(dest)@.skip(
            n as int,
        ),
{
    let sl: usize = src.len();
    let mut i: usize = 0;
    while i < n
        invariant
            i <= n,
            start + n <= sl,
            sl == src@.len(),
            n <= dest@.len(),
            dest@.len() == old(dest)@.len(),
            forall|j: int| 0 <= j < i ==> dest@[j] == src@[start + j],
            forall|j: int| i <= j < dest@.len() ==> dest@[j] == old(dest)@[j],
        decreases n - i,
    {
        let b: u8 = src[start + i];
        dest[i] = b;
        i = i + 1;
    }
    proof {
        assert(dest@ =~= src@.subrange(start as int, (start + n) as int) + old(dest)@.skip(
            n as int,
        ));
    }
}

/// Scatters `n` bytes of `src`, starting at `start`, across the regions of
/// `dests` in order; every region keeps its length.
#[verifier::rlimit(50)]
pub fn scatter_from(src: &Vec<u8>, start: usize, n: usize, dests: &mut Vec<Vec<u8>>)
    requires
        start + n <= src@.len(),
        n <= total_len(views_of(old(dests)@)),
    ensures
        final(dests)@.len() == old(dests)@.len(),
        views_of(final(dests)@) == scatter(
            views_of(old(dests)@),
            src@.subrange(start as int, (start + n) as int),
        ),
{
    let ghost orig: Seq<Seq<u8>> = views_of(dests@);
    let ghost data: Seq<u8> = src@.subrange(start as int, (start + n) as int);
    let sl: usize = src.len();
    let mut copied: usize = 0;
    let mut i: usize = 0;
    while i < dests.len()
        invariant
            start + n <= sl,
            sl == src@.len(),
            data == src@.subrange(start as int, (start + n) as int),
            n <= total_len(orig),
            i <= dests@.len(),
            dests@.len() == orig.len(),
            copied as int == vstd::math::min(prefix_len(orig, i as int) as int, n as int),
            forall|j: int| i <= j < orig.len() ==> dests@[j]@ == orig[j],
            forall|j: int|
                0 <= j < i ==> dests@[j]@ == fill_one(
                    orig[j],
                    data.skip(vstd::math::min(prefix_len(orig, j) as int, n as int)),
                ),
        decreases dests@.len() - i,
    {
        let dlen: usize = dests[i].len();
        let rest: usize = n - copied;
        let k: usize = if dlen < rest {
            dlen
        } else {
            rest
        };
        copy_into(src, start + copied, k, &mut dests[i]);
        proof {
            assert(data.skip(copied as int) =~= src@.subrange(
                (start + copied) as int,
                (start + n) as int,
            ));
            assert(dests@[i as int]@ =~= fill_one(orig[i as int], data.skip(copied as int)));
            assert(prefix_len(orig, i + 1) == prefix_len(orig, i as int) + orig[
                i as int
            ].len());
        }
        copied = copied + k;
        i = i + 1;
    }
    proof {
        lemma_scatter_len(orig, data);
        assert forall|j: int| 0 <= j < orig.len() implies views_of(dests@)[j] == scatter(
            orig,
            data,
        )[j] by {
            lemma_scatter_index(orig, data, j);
        }
        assert(views_of(dests@) =~= scatter(orig, data));
    }
}

/// Adds up the region lengths, stopping at the largest machine value: enough
/// to compare the total against any capacity.
pub fn sum_lens(dests: &Vec<Vec<u8>>) -> (s: usize)
    ensures
        s as int == vstd::math::min(total_len(views_of(dests@)) as int, usize::MAX as int),
{
    let ghost vs: Seq<Seq<u8>> = views_of(dests@);
    let mut s: usize = 0;
    let mut i: usize = 0;
    while i < dests.len()
        invariant
            i <= dests@.len(),
            vs == views_of(dests@),
            s as int == vstd::math::min(prefix_len(vs, i as int) as int, usize::MAX as int),
        decreases dests@.len() - i,
    {
        let dlen: usize = dests[i].len();
        s = if s > usize::MAX - dlen {
            usize::MAX
        } else {
            s + dlen
        };
        i = i + 1;
    }
    proof {
        lemma_prefix_total(vs);
    }
    s
}

} // verus!
