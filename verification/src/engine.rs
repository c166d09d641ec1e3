use vstd::prelude::*;

use crate::cell::Cell;
use std::collections::HashMap;
use crate::bed::{bed_field0, bed_field1, bed_field2, number_value, try_parse_bed_line, valid_bed_line};
use crate::errors::ScError;
use crate::ingest::Record;
use crate::region::{all_wf, spec_intersection, get_intersection, Region};
use crate::store::{store_fetch, store_open, store_read_lines, store_tid};
use crate::table::RegionTable;
use vstd::utf8::decode_utf8;

verus! {

broadcast use vstd::std_specs::hash::group_hash_axioms;

/// Padding added on each side of a query range, to tolerate small index
/// misalignments and to amortise nearby lookups into one range query.
pub const QUERY_PAD: u32 = 1000;

/// The window handed to the store for one region: the region widened by
/// `QUERY_PAD` on each side, except that a start too close to the
/// chromosome's origin is left unwidened rather than clamped.
pub open spec fn spec_padded_range(reg: Region) -> (int, int) {
    (
        if reg.start > QUERY_PAD {
            reg.start - QUERY_PAD
        } else {
            reg.start as int
        },
        reg.stop + QUERY_PAD,
    )
}

/// The query window for one region, exactly `spec_padded_range`.
pub fn padded_range(reg: &Region) -> (r: (u64, u64))
    ensures
        r.0 == spec_padded_range(*reg).0,
        r.1 == spec_padded_range(*reg).1,
{
    let qstart: u64 = if reg.start > QUERY_PAD {
        (reg.start - QUERY_PAD) as u64
    } else {
        reg.start as u64
    };
    let qend: u64 = reg.stop as u64 + QUERY_PAD as u64;
    (qstart, qend)
}

/// Sum of the overlap lengths of `a` against each region of `s`.
pub open spec fn sum_intersections(a: Region, s: Seq<Region>) -> int
    decreases s.len(),
{
    if s.len() == 0 {
        0
    } else {
        sum_intersections(a, s.drop_last()) + spec_intersection(a, s.last())
    }
}

/// How many regions of `s` overlap `a` with a positive length.
pub open spec fn count_overlaps(a: Region, s: Seq<Region>) -> int
    decreases s.len(),
{
    if s.len() == 0 {
        0
    } else {
        count_overlaps(a, s.drop_last()) + (if spec_intersection(a, s.last()) > 0 {
            1int
        } else {
            0int
        })
    }
}

pub proof fn lemma_sum_intersections_push(a: Region, s: Seq<Region>, b: Region)
    ensures
        sum_intersections(a, s.push(b)) == sum_intersections(a, s) + spec_intersection(a, b),
        count_overlaps(a, s.push(b)) == count_overlaps(a, s) + (if spec_intersection(a, b) > 0 {
            1int
        } else {
            0int
        }),
{
    assert(s.push(b).drop_last() =~= s);
}

/// A prefix never sums to more than the whole sequence of hits.
pub proof fn lemma_sum_intersections_prefix(a: Region, s: Seq<Region>, i: int)
    requires
        a.wf(),
        all_wf(s),
        0 <= i <= s.len(),
    ensures
        sum_intersections(a, s.take(i)) <= sum_intersections(a, s),
    decreases s.len(),
{
    if i < s.len() {
        assert(all_wf(s.drop_last()));
        assert(s.take(i) =~= s.drop_last().take(i));
        lemma_sum_intersections_prefix(a, s.drop_last(), i);
        crate::region::lemma_intersection_bounds(a, s.last());
    } else {
        assert(s.take(i) =~= s);
    }
}

/// Total overlap length and positive-overlap count of `reg` against every
/// returned region, or `Overflow` when the total leaves the range of
/// `u32`.  This is the pure half of the overlap engine: it is a function
/// of its arguments alone, so the same regions give the same totals
/// whatever worker, order or run produced them.
pub fn overlap_with_all(reg: &Region, hits: &Vec<Region>) -> (r: Result<(u32, u32), ScError>)
    requires
        reg.wf(),
        all_wf(hits@),
    ensures
        match r {
            Ok(p) => {
                &&& sum_intersections(*reg, hits@) <= u32::MAX
                &&& p.0 == sum_intersections(*reg, hits@)
                &&& p.1 == count_overlaps(*reg, hits@)
                &&& p.1 <= p.0
            },
            Err(e) => e == ScError::Overflow && sum_intersections(*reg, hits@) > u32::MAX,
        },
{
    let mut isec: u32 = 0;
    let mut nint: u32 = 0;
    let mut k: usize = 0;
    let n = hits.len();
    while k < n
        invariant
            0 <= k <= n,
            n == hits@.len(),
            reg.wf(),
            all_wf(hits@),
            isec == sum_intersections(*reg, hits@.take(k as int)),
            nint == count_overlaps(*reg, hits@.take(k as int)),
            nint <= isec,
        decreases n - k,
    {
        proof {
            assert(hits@[k as int].wf());
            assert(hits@.take(k as int + 1) =~= hits@.take(k as int).push(hits@[k as int]));
            lemma_sum_intersections_push(*reg, hits@.take(k as int), hits@[k as int]);
        }
        let isecs = get_intersection(reg, &hits[k]);
        if isecs > u32::MAX - isec {
            proof {
                lemma_sum_intersections_prefix(*reg, hits@, k as int + 1);
            }
            return Err(ScError::Overflow);
        }
        if isecs > 0 {
            nint = nint + 1;
        }
        isec = isec + isecs;
        k = k + 1;
    }
    proof {
        assert(hits@.take(n as int) =~= hits@);
    }
    Ok((isec, nint))
}

/// The line parses as an interval record and the interval is well formed.
pub open spec fn line_ok(s: Seq<u8>) -> bool {
    &&& valid_bed_line(s)
    &&& number_value(bed_field1(s)) <= number_value(bed_field2(s))
}

/// Parse every returned line into a well-formed region.  A line that does
/// not parse, or whose interval has its stop before its start, is a fatal
/// data error: tolerating it would corrupt every downstream sum.
pub fn parse_regions(lines: &Vec<Vec<u8>>) -> (r: Result<Vec<Region>, ScError>)
    ensures
        match r {
            Ok(v) => {
                &&& v@.len() == lines@.len()
                &&& all_wf(v@)
                &&& forall|i: int| 0 <= i < lines@.len() ==> line_ok(#[trigger] lines@[i]@)
                &&& forall|i: int|
                    0 <= i < lines@.len() ==> {
                        &&& (#[trigger] v@[i]).chr@ == decode_utf8(bed_field0(lines@[i]@))
                        &&& v@[i].start == number_value(bed_field1(lines@[i]@))
                        &&& v@[i].stop == number_value(bed_field2(lines@[i]@))
                    }
            },
            Err(e) => {
                &&& e == ScError::MalformedInterval
                &&& exists|i: int| 0 <= i < lines@.len() && !line_ok(#[trigger] lines@[i]@)
            },
        },
{
    let mut out: Vec<Region> = Vec::new();
    let mut k: usize = 0;
    let n = lines.len();
    while k < n
        invariant
            0 <= k <= n,
            n == lines@.len(),
            out@.len() == k,
            all_wf(out@),
            forall|i: int| 0 <= i < k ==> line_ok(#[trigger] lines@[i]@),
            forall|i: int|
                0 <= i < k ==> {
                    &&& (#[trigger] out@[i]).chr@ == decode_utf8(bed_field0(lines@[i]@))
                    &&& out@[i].start == number_value(bed_field1(lines@[i]@))
                    &&& out@[i].stop == number_value(bed_field2(lines@[i]@))
                },
        decreases n - k,
    {
        let reg = match try_parse_bed_line(&lines[k]) {
            Some(reg) => reg,
            None => {
                return Err(ScError::MalformedInterval);
            },
        };
        if reg.stop < reg.start {
            return Err(ScError::MalformedInterval);
        }
        out.push(reg);
        k = k + 1;
    }
    Ok(out)
}

/// Per-cell overlap engine.  For each assigned ordinal it looks the region
/// up, queries the store for the padded range around it on the region's
/// chromosome, and accumulates the overlap length and the positive-overlap
/// count of every returned record against the unpadded region; the region
/// count grows by one per assigned ordinal whatever the query returned.
/// Any store failure, malformed record or overflowing total aborts the
/// whole run: a partial result would present corrupt denominators as
/// complete.  The result depends only on this cell's own records, the
/// table and the store: no other cell enters the computation.
pub fn total_isec(
    cell_barcode: &String,
    records: &Vec<Record>,
    path_bed: &str,
    regions: &RegionTable,
) -> (r: Result<(String, (u32, u32, u32)), ScError>)
    requires
        regions.wf(),
        records@.len() <= u32::MAX,
        forall|k: int| 0 <= k < records@.len() ==> 1 <= (#[trigger] records@[k]).i <= regions@.len(),
    ensures
        match r {
            Ok(p) => {
                &&& p.0@ == cell_barcode@
                &&& p.1.2 == records@.len()
                &&& p.1.1 <= p.1.0
                &&& records@.len() == 0 ==> p.1.0 == 0 && p.1.1 == 0
            },
            Err(e) => {
                ||| e is StoreUnavailable
                ||| e is UnknownChromosome
                ||| e is StoreQuery
                ||| e is MalformedInterval
                ||| e is Overflow
            },
        },
{
    let mut reader = match store_open(path_bed) {
        Ok(rd) => rd,
        Err(e) => {
            return Err(e);
        },
    };
    let mut isec: u32 = 0;
    let mut nint: u32 = 0;
    let mut nreg: u32 = 0;
    let mut k: usize = 0;
    let n = records.len();
    while k < n
        invariant
            0 <= k <= n,
            n == records@.len(),
            n <= u32::MAX,
            regions.wf(),
            forall|j: int| 0 <= j < n ==> 1 <= (#[trigger] records@[j]).i <= regions@.len(),
            nreg == k,
            nint <= isec,
            k == 0 ==> isec == 0 && nint == 0,
        decreases n - k,
    {
        let reg = regions.get(records[k].i);
        proof {
            assert(regions@[records@[k as int].i - 1].wf());
            assert(crate::region::nul_free(regions@[records@[k as int].i - 1].chr@));
        }
        let tid = match store_tid(&reader, reg.chr.as_str()) {
            Ok(t) => t,
            Err(e) => {
                return Err(e);
            },
        };
        let (qstart, qend) = padded_range(reg);
        match store_fetch(&mut reader, tid, qstart, qend) {
            Ok(()) => {},
            Err(e) => {
                return Err(e);
            },
        }
        let lines = match store_read_lines(&mut reader) {
            Ok(ls) => ls,
            Err(e) => {
                return Err(e);
            },
        };
        let hits = match parse_regions(&lines) {
            Ok(hs) => hs,
            Err(e) => {
                return Err(e);
            },
        };
        match overlap_with_all(reg, &hits) {
            Ok((s, cnt)) => {
                if s > u32::MAX - isec {
                    return Err(ScError::Overflow);
                }
                isec = isec + s;
                nint = nint + cnt;
            },
            Err(e) => {
                return Err(e);
            },
        }
        nreg = nreg + 1;
        k = k + 1;
    }
    Ok((cell_barcode.clone(), (isec, nint, nreg)))
}

/// Reference-total precomputation: one exhaustive full-range query per
/// chromosome index in `[0, nchr)`, summing the length of every interval
/// the store holds.  A chromosome index the store does not know is a fatal
/// configuration error named by the returned value, never skipped: a
/// silent skip would corrupt every downstream denominator.
pub fn known_total(path_bed: &str, nchr: u64) -> (r: Result<u32, ScError>)
    ensures
        match r {
            Ok(v) => nchr == 0 ==> v == 0,
            Err(e) => {
                ||| e is StoreUnavailable
                ||| e is UnknownChromosomeIndex
                ||| e is StoreQuery
                ||| e is MalformedInterval
                ||| e is Overflow
            },
        },
        r matches Err(ScError::UnknownChromosomeIndex(i)) ==> i < nchr,
{
    let mut reader = match store_open(path_bed) {
        Ok(rd) => rd,
        Err(e) => {
            return Err(e);
        },
    };
    let mut acc: u32 = 0;
    let mut i: u64 = 0;
    while i < nchr
        invariant
            0 <= i <= nchr,
            i == 0 ==> acc == 0,
        decreases nchr - i,
    {
        match store_fetch(&mut reader, i, 0, 1000000000) {
            Ok(()) => {},
            Err(_) => {
                return Err(ScError::UnknownChromosomeIndex(i));
            },
        }
        let lines = match store_read_lines(&mut reader) {
            Ok(ls) => ls,
            Err(e) => {
                return Err(e);
            },
        };
        let regs = match parse_regions(&lines) {
            Ok(rs) => rs,
            Err(e) => {
                return Err(e);
            },
        };
        let s = match crate::region::sum_region_lengths(&regs) {
            Ok(v) => v,
            Err(e) => {
                return Err(e);
            },
        };
        if s > u32::MAX - acc {
            return Err(ScError::Overflow);
        }
        acc = acc + s;
        i = i + 1;
    }
    Ok(acc)
}


/// Some result of the batch carries cell id `c`.
pub open spec fn merged_key(results: Seq<(u32, (u32, u32, u32))>, c: u32) -> bool {
    exists|k: int| 0 <= k < results.len() && (#[trigger] results[k]).0 == c
}

proof fn lemma_merged_key_take_succ(results: Seq<(u32, (u32, u32, u32))>, j: int, c: u32)
    requires
        0 <= j < results.len(),
    ensures
        merged_key(results.take(j + 1), c) <==> (merged_key(results.take(j), c) || results[j].0
            == c),
{
    if merged_key(results.take(j + 1), c) {
        let k = choose|k: int|
            0 <= k < results.take(j + 1).len() && (#[trigger] results.take(j + 1)[k]).0 == c;
        if k < j {
            assert((results.take(j)[k]).0 == c);
        }
    }
    if merged_key(results.take(j), c) {
        let k = choose|k: int|
            0 <= k < results.take(j).len() && (#[trigger] results.take(j)[k]).0 == c;
        assert((results.take(j + 1)[k]).0 == c);
    }
    if results[j].0 == c {
        assert((results.take(j + 1)[j]).0 == c);
    }
}

/// Merge the overlap engine's per-cell results into the accumulators: each
/// listed cell's intersection length and hit count are written exactly
/// once, every other accumulator and every unlisted cell stay as they
/// were.  Cell ids are unique keys, so no cell is merged twice.
pub fn merge_results(stats: &mut HashMap<u32, Cell>, results: &Vec<(u32, (u32, u32, u32))>)
    requires
        forall|k: int|
            0 <= k < results@.len() ==> old(stats)@.contains_key((#[trigger] results@[k]).0),
        forall|k: int|
            0 <= k < results@.len() ==> {
                &&& old(stats)@[(#[trigger] results@[k]).0].isec == 0
                &&& old(stats)@[results@[k].0].nisec == 0
            },
        forall|k1: int, k2: int|
            0 <= k1 < k2 < results@.len() ==> (#[trigger] results@[k1]).0 != (
            #[trigger] results@[k2]).0,
    ensures
        final(stats)@.dom() == old(stats)@.dom(),
        forall|k: int|
            0 <= k < results@.len() ==> {
                let p = #[trigger] results@[k];
                &&& final(stats)@.contains_key(p.0)
                &&& final(stats)@[p.0].isec == p.1.0
                &&& final(stats)@[p.0].nisec == p.1.1
                &&& final(stats)@[p.0].union_len == old(stats)@[p.0].union_len
                &&& final(stats)@[p.0].nreg == old(stats)@[p.0].nreg
            },
        forall|c: u32|
            old(stats)@.contains_key(c) && !merged_key(results@, c) ==> final(stats)@[c] == old(
                stats,
            )@[c],
{
    let mut j: usize = 0;
    let n = results.len();
    while j < n
        invariant
            0 <= j <= n,
            n == results@.len(),
            forall|k: int|
                0 <= k < results@.len() ==> old(stats)@.contains_key((#[trigger] results@[k]).0),
            forall|k: int|
                0 <= k < results@.len() ==> {
                    &&& old(stats)@[(#[trigger] results@[k]).0].isec == 0
                    &&& old(stats)@[results@[k].0].nisec == 0
                },
            forall|k1: int, k2: int|
                0 <= k1 < k2 < results@.len() ==> (#[trigger] results@[k1]).0 != (
                #[trigger] results@[k2]).0,
            stats@.dom() == old(stats)@.dom(),
            forall|k: int|
                0 <= k < j ==> {
                    let p = #[trigger] results@[k];
                    &&& stats@.contains_key(p.0)
                    &&& stats@[p.0].isec == p.1.0
                    &&& stats@[p.0].nisec == p.1.1
                    &&& stats@[p.0].union_len == old(stats)@[p.0].union_len
                    &&& stats@[p.0].nreg == old(stats)@[p.0].nreg
                },
            forall|c: u32|
                old(stats)@.contains_key(c) && !merged_key(results@.take(j as int), c)
                    ==> stats@[c] == old(stats)@[c],
        decreases n - j,
    {
        let c = results[j].0;
        let trip = results[j].1;
        proof {
            assert(!merged_key(results@.take(j as int), c)) by {
                if merged_key(results@.take(j as int), c) {
                    let k = choose|k: int|
                        0 <= k < results@.take(j as int).len() && (#[trigger] results@.take(
                            j as int,
                        )[k]).0 == c;
                    assert((results@[k]).0 == (results@[j as int]).0);
                }
            }
        }
        match stats.remove(&c) {
            Some(cell) => {
                let updated = Cell {
                    isec: cell.isec + trip.0,
                    union_len: cell.union_len,
                    nisec: cell.nisec + trip.1,
                    nreg: cell.nreg,
                };
                stats.insert(c, updated);
                proof {
                    assert(stats@.dom() =~= old(stats)@.dom());
                }
            },
            None => {
                proof {
                    assert(false);
                }
            },
        }
        proof {
            assert forall|cc: u32|
                old(stats)@.contains_key(cc) && !merged_key(
                    results@.take(j as int + 1),
                    cc,
                ) implies stats@[cc] == old(stats)@[cc] by {
                lemma_merged_key_take_succ(results@, j as int, cc);
            }
        }
        j = j + 1;
    }
    proof {
        assert(results@.take(n as int) =~= results@);
    }
}

/// Results may be emitted in any order: whether a cell has a result in the
/// batch is a property of the batch's contents alone.
pub proof fn lemma_merged_key_permutation(
    r1: Seq<(u32, (u32, u32, u32))>,
    r2: Seq<(u32, (u32, u32, u32))>,
    c: u32,
)
    requires
        r1.to_multiset() == r2.to_multiset(),
    ensures
        merged_key(r1, c) <==> merged_key(r2, c),
{
    r1.to_multiset_ensures();
    r2.to_multiset_ensures();
    if merged_key(r1, c) {
        let k = choose|k: int| 0 <= k < r1.len() && (#[trigger] r1[k]).0 == c;
        assert(r1.contains(r1[k]));
        assert(r1.to_multiset().count(r1[k]) > 0);
        assert(r2.to_multiset().count(r1[k]) > 0);
        assert(r2.contains(r1[k]));
        let j = choose|j: int| 0 <= j < r2.len() && r2[j] == r1[k];
        assert((r2[j]).0 == c);
    }
    if merged_key(r2, c) {
        let k = choose|k: int| 0 <= k < r2.len() && (#[trigger] r2[k]).0 == c;
        assert(r2.contains(r2[k]));
        assert(r2.to_multiset().count(r2[k]) > 0);
        assert(r1.to_multiset().count(r2[k]) > 0);
        assert(r1.contains(r2[k]));
        let j = choose|j: int| 0 <= j < r1.len() && r1[j] == r2[k];
        assert((r1[j]).0 == c);
    }
}

/// With unique cell ids, the triple a cell gets ignores emission order:
/// two batches holding the same results, however ordered, hand the cell
/// the same triple.  Together with `merge_results`, a serial run and a
/// parallel run that compute the same per-cell triples merge to the same
/// accumulators.
pub proof fn lemma_batch_triple_unique(
    r1: Seq<(u32, (u32, u32, u32))>,
    r2: Seq<(u32, (u32, u32, u32))>,
    c: u32,
    k1: int,
    k2: int,
)
    requires
        r1.to_multiset() == r2.to_multiset(),
        forall|a: int, b: int|
            0 <= a < b < r2.len() ==> (#[trigger] r2[a]).0 != (#[trigger] r2[b]).0,
        0 <= k1 < r1.len(),
        0 <= k2 < r2.len(),
        (r1[k1]).0 == c,
        (r2[k2]).0 == c,
    ensures
        r1[k1].1 == r2[k2].1,
{
    r1.to_multiset_ensures();
    r2.to_multiset_ensures();
    assert(r1.contains(r1[k1]));
    assert(r1.to_multiset().count(r1[k1]) > 0);
    assert(r2.to_multiset().count(r1[k1]) > 0);
    assert(r2.contains(r1[k1]));
    let j = choose|j: int| 0 <= j < r2.len() && r2[j] == r1[k1];
    assert((r2[j]).0 == c);
    if j < k2 {
        assert((r2[j]).0 != (r2[k2]).0);
    } else if k2 < j {
        assert((r2[k2]).0 != (r2[j]).0);
    }
}

} // verus!
