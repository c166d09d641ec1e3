use vstd::prelude::*;

use crate::errors::ScError;

verus! {

/// A contiguous genomic range `[start, stop)` on a single chromosome.
#[derive(Clone)]
pub struct Region {
    pub chr: String,
    pub start: u32,
    pub stop: u32,
}

impl Region {
    /// A region is well formed when its bounds are ordered; a region whose
    /// stop lies before its start is a data-integrity violation.
    pub open spec fn wf(self) -> bool {
        self.start <= self.stop
    }

    /// Length of the half-open range.
    pub open spec fn spec_total(self) -> int {
        self.stop - self.start
    }

    /// Length of the region.
    pub fn total(&self) -> (r: u32)
        requires
            self.wf(),
        ensures
            r == self.spec_total(),
    {
        self.stop - self.start
    }
}


/// The UTF-8 encoding of the text holds no NUL byte, so the text can be
/// handed to the store's C index as a name.
pub open spec fn nul_free(s: Seq<char>) -> bool {
    forall|i: int|
        0 <= i < vstd::utf8::encode_utf8(s).len() ==> vstd::utf8::encode_utf8(s)[i] != 0
}

/// Every region of the sequence is well formed.
pub open spec fn all_wf(s: Seq<Region>) -> bool {
    forall|i: int| 0 <= i < s.len() ==> s[i].wf()
}

/// Overlap length of two regions on the same chromosome.  Regions that do
/// not overlap contribute zero; regions whose boundaries merely touch count
/// as overlapping with length zero after clamping.
pub open spec fn spec_intersection(a: Region, b: Region) -> int {
    if b.start > a.stop || a.start > b.stop {
        0
    } else {
        let lo = if a.start >= b.start {
            a.start
        } else {
            b.start
        };
        let hi = if a.stop <= b.stop {
            a.stop
        } else {
            b.stop
        };
        hi - lo
    }
}

/// Overlap length of two well-formed regions.  The caller guarantees that
/// both refer to the same chromosome; the engine does so by only comparing
/// regions returned from a chromosome-scoped query.
pub fn get_intersection(interval1: &Region, interval2: &Region) -> (r: u32)
    requires
        interval1.wf(),
        interval2.wf(),
    ensures
        r == spec_intersection(*interval1, *interval2),
{
    if interval2.start > interval1.stop || interval1.start > interval2.stop {
        return 0;
    }
    let start = if interval1.start >= interval2.start {
        interval1.start
    } else {
        interval2.start
    };
    let stop = if interval1.stop <= interval2.stop {
        interval1.stop
    } else {
        interval2.stop
    };
    stop - start
}

/// The overlap length is symmetric in its two arguments.
pub proof fn lemma_intersection_symmetric(a: Region, b: Region)
    requires
        a.wf(),
        b.wf(),
    ensures
        spec_intersection(a, b) == spec_intersection(b, a),
{
}

/// Regions that fail the overlap test contribute exactly zero.
pub proof fn lemma_intersection_disjoint(a: Region, b: Region)
    requires
        b.start > a.stop || a.start > b.stop,
    ensures
        spec_intersection(a, b) == 0,
{
}

/// A well-formed region overlaps itself over its whole length.
pub proof fn lemma_intersection_self(a: Region)
    requires
        a.wf(),
    ensures
        spec_intersection(a, a) == a.spec_total(),
{
}

/// The overlap length is never negative and never longer than either
/// well-formed argument.
pub proof fn lemma_intersection_bounds(a: Region, b: Region)
    requires
        a.wf(),
        b.wf(),
    ensures
        0 <= spec_intersection(a, b),
        spec_intersection(a, b) <= a.spec_total(),
        spec_intersection(a, b) <= b.spec_total(),
{
}

/// Sum of the lengths of a sequence of regions.
pub open spec fn sum_lengths(s: Seq<Region>) -> int
    decreases s.len(),
{
    if s.len() == 0 {
        0
    } else {
        sum_lengths(s.drop_last()) + s.last().spec_total()
    }
}

/// Appending one region adds exactly its length to the sum.
pub proof fn lemma_sum_lengths_push(s: Seq<Region>, r: Region)
    ensures
        sum_lengths(s.push(r)) == sum_lengths(s) + r.spec_total(),
{
    assert(s.push(r).drop_last() =~= s);
}

/// The sum over well-formed regions is never negative.
pub proof fn lemma_sum_lengths_nonneg(s: Seq<Region>)
    requires
        all_wf(s),
    ensures
        sum_lengths(s) >= 0,
    decreases s.len(),
{
    if s.len() > 0 {
        assert(all_wf(s.drop_last()));
        lemma_sum_lengths_nonneg(s.drop_last());
    }
}

/// The sum distributes over concatenation.
pub proof fn lemma_sum_lengths_concat(a: Seq<Region>, b: Seq<Region>)
    ensures
        sum_lengths(a + b) == sum_lengths(a) + sum_lengths(b),
    decreases b.len(),
{
    if b.len() == 0 {
        assert(a + b =~= a);
    } else {
        assert((a + b).drop_last() =~= a + b.drop_last());
        lemma_sum_lengths_concat(a, b.drop_last());
    }
}

/// A prefix of well-formed regions never sums to more than the whole.
pub proof fn lemma_sum_lengths_prefix(s: Seq<Region>, i: int)
    requires
        all_wf(s),
        0 <= i <= s.len(),
    ensures
        sum_lengths(s.take(i)) <= sum_lengths(s),
{
    assert(s =~= s.take(i) + s.skip(i));
    lemma_sum_lengths_concat(s.take(i), s.skip(i));
    assert(all_wf(s.skip(i)));
    lemma_sum_lengths_nonneg(s.skip(i));
}

/// The folding function behind `sum_lengths`.
pub open spec fn add_length_fn() -> spec_fn(Region, int) -> int {
    |r: Region, acc: int| acc + r.spec_total()
}

/// `sum_lengths` is a right fold of `add_length_fn`.
pub proof fn lemma_sum_lengths_fold(s: Seq<Region>)
    ensures
        sum_lengths(s) == s.fold_right(add_length_fn(), 0),
    decreases s.len(),
{
    if s.len() > 0 {
        lemma_sum_lengths_fold(s.drop_last());
        assert(vstd::seq_lib::commutative_foldr(add_length_fn()));
        s.drop_last().lemma_fold_right_commute_one(s.last(), add_length_fn(), 0);
    }
}

/// The sum of lengths does not depend on the order the regions come in:
/// two sequences with the same regions, counted with multiplicity, sum to
/// the same total.
pub proof fn lemma_sum_lengths_permutation(s1: Seq<Region>, s2: Seq<Region>)
    requires
        s1.to_multiset() == s2.to_multiset(),
    ensures
        sum_lengths(s1) == sum_lengths(s2),
{
    lemma_sum_lengths_fold(s1);
    lemma_sum_lengths_fold(s2);
    assert(vstd::seq_lib::commutative_foldr(add_length_fn()));
    vstd::seq_lib::lemma_fold_right_permutation(s1, s2, add_length_fn(), 0);
}

/// Sum of the lengths of the given well-formed regions, or `Overflow` when
/// the total leaves the range of `u32`.
pub fn sum_region_lengths(regions: &Vec<Region>) -> (r: Result<u32, ScError>)
    requires
        all_wf(regions@),
    ensures
        match r {
            Ok(v) => sum_lengths(regions@) <= u32::MAX && v == sum_lengths(regions@),
            Err(e) => e == ScError::Overflow && sum_lengths(regions@) > u32::MAX,
        },
{
    let mut acc: u32 = 0;
    let mut k: usize = 0;
    let n = regions.len();
    while k < n
        invariant
            n == regions@.len(),
            0 <= k <= n,
            all_wf(regions@),
            acc == sum_lengths(regions@.take(k as int)),
        decreases n - k,
    {
        proof {
            assert(regions@[k as int].wf());
            assert(regions@.take(k as int + 1) =~= regions@.take(k as int).push(
                regions@[k as int],
            ));
            lemma_sum_lengths_push(regions@.take(k as int), regions@[k as int]);
        }
        let len = regions[k].total();
        let next = acc as u64 + len as u64;
        if next > u32::MAX as u64 {
            proof {
                lemma_sum_lengths_prefix(regions@, k as int + 1);
            }
            return Err(ScError::Overflow);
        }
        acc = next as u32;
        k = k + 1;
    }
    proof {
        assert(regions@.take(n as int) =~= regions@);
    }
    Ok(acc)
}

} // verus!
