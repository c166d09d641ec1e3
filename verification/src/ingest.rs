use vstd::prelude::*;

use crate::cell::Cell;
use crate::errors::ScError;
use crate::region::{sum_lengths, Region};
use crate::table::RegionTable;
use std::collections::HashMap;

verus! {

broadcast use vstd::std_specs::hash::group_hash_axioms;

/// One matrix entry for a cell: the 1-based ordinal of an assigned region.
#[derive(Clone, Copy)]
pub struct Record {
    pub i: u32,
}

/// The ordinals assigned to cell `c` by the entries `(ordinal, cell)`, in
/// entry order, counted with multiplicity: a duplicate ordinal appears as
/// often as the matrix lists it.
pub open spec fn assigned_ordinals(entries: Seq<(u32, u32)>, c: u32) -> Seq<u32>
    decreases entries.len(),
{
    if entries.len() == 0 {
        Seq::empty()
    } else {
        let rest = assigned_ordinals(entries.drop_last(), c);
        if entries.last().1 == c {
            rest.push(entries.last().0)
        } else {
            rest
        }
    }
}

/// At least one entry assigns a region to cell `c`.
pub open spec fn appears(entries: Seq<(u32, u32)>, c: u32) -> bool {
    assigned_ordinals(entries, c).len() > 0
}

/// The union length of cell `c`: the lengths of its assigned regions,
/// summed with multiplicity in entry order.
pub open spec fn cell_union(entries: Seq<(u32, u32)>, c: u32, table: Seq<Region>) -> int
    decreases entries.len(),
{
    if entries.len() == 0 {
        0
    } else {
        let rest = cell_union(entries.drop_last(), c, table);
        if entries.last().1 == c {
            rest + table[entries.last().0 - 1].spec_total()
        } else {
            rest
        }
    }
}

/// A cell never has more assigned ordinals than there are entries.
pub proof fn lemma_assigned_len(entries: Seq<(u32, u32)>, c: u32)
    ensures
        assigned_ordinals(entries, c).len() <= entries.len(),
    decreases entries.len(),
{
    if entries.len() > 0 {
        lemma_assigned_len(entries.drop_last(), c);
    }
}

/// A prefix of the entries assigns no more ordinals to a cell than the
/// whole run of entries.
pub proof fn lemma_assigned_prefix_len(entries: Seq<(u32, u32)>, c: u32, i: int)
    requires
        0 <= i <= entries.len(),
    ensures
        assigned_ordinals(entries.take(i), c).len() <= assigned_ordinals(entries, c).len(),
    decreases entries.len(),
{
    if i < entries.len() {
        assert(entries.take(i) =~= entries.drop_last().take(i));
        lemma_assigned_prefix_len(entries.drop_last(), c, i);
    } else {
        assert(entries.take(i) =~= entries);
    }
}

/// A prefix of the entries never sums a cell's union higher than the whole
/// run of entries does.
pub proof fn lemma_cell_union_prefix(entries: Seq<(u32, u32)>, c: u32, table: Seq<Region>, i: int)
    requires
        crate::region::all_wf(table),
        forall|k: int| 0 <= k < entries.len() ==> 1 <= (#[trigger] entries[k]).0 <= table.len(),
        0 <= i <= entries.len(),
    ensures
        cell_union(entries.take(i), c, table) <= cell_union(entries, c, table),
    decreases entries.len(),
{
    if i < entries.len() {
        assert(entries.take(i) =~= entries.drop_last().take(i));
        lemma_cell_union_prefix(entries.drop_last(), c, table, i);
        if entries.last().1 == c {
            assert(table[entries.last().0 - 1].wf());
        }
    } else {
        assert(entries.take(i) =~= entries);
    }
}

/// The union length of a cell is the sum of `Region` lengths over its
/// assignment list, counted with multiplicity.
pub proof fn lemma_cell_union_is_sum_of_assignments(
    entries: Seq<(u32, u32)>,
    c: u32,
    table: Seq<Region>,
)
    ensures
        cell_union(entries, c, table) == sum_lengths(
            assigned_ordinals(entries, c).map_values(|o: u32| table[o - 1]),
        ),
    decreases entries.len(),
{
    let f = |o: u32| table[o - 1];
    if entries.len() > 0 {
        lemma_cell_union_is_sum_of_assignments(entries.drop_last(), c, table);
        let rest = assigned_ordinals(entries.drop_last(), c);
        if entries.last().1 == c {
            assert(rest.push(entries.last().0).map_values(f) =~= rest.map_values(f).push(
                f(entries.last().0),
            ));
            crate::region::lemma_sum_lengths_push(rest.map_values(f), f(entries.last().0));
        }
    } else {
        assert(assigned_ordinals(entries, c).map_values(f) =~= Seq::<Region>::empty());
    }
}

/// One ingestion pass over the matrix entries `(region ordinal, cell
/// ordinal)`.  It builds, per cell that appears, the assignment list in
/// entry order (duplicates kept: each occurrence counts), and the cell's
/// accumulators: the union length summed with multiplicity, the region
/// count, and zeroed intersection accumulators for the merge step to fill.
/// A union that leaves the range of `u32` is a fatal `Overflow`.
pub fn ingest(entries: &Vec<(u32, u32)>, table: &RegionTable) -> (r: Result<
    (HashMap<u32, Vec<Record>>, HashMap<u32, Cell>),
    ScError,
>)
    requires
        table.wf(),
        entries@.len() <= u32::MAX,
        forall|k: int| 0 <= k < entries@.len() ==> 1 <= (#[trigger] entries@[k]).0 <= table@.len(),
    ensures
        match r {
            Ok((mtx, stats)) => {
                &&& forall|c: u32| #[trigger] mtx@.contains_key(c) <==> appears(entries@, c)
                &&& forall|c: u32| #[trigger] stats@.contains_key(c) <==> appears(entries@, c)
                &&& forall|c: u32|
                    #[trigger] mtx@.contains_key(c) ==> mtx@[c]@.map_values(|rec: Record| rec.i)
                        == assigned_ordinals(entries@, c)
                &&& forall|c: u32|
                    #[trigger] stats@.contains_key(c) ==> {
                        &&& stats@[c].union_len == cell_union(entries@, c, table@)
                        &&& stats@[c].isec == 0
                        &&& stats@[c].nisec == 0
                        &&& stats@[c].nreg == assigned_ordinals(entries@, c).len()
                    }
            },
            Err(e) => {
                &&& e == ScError::Overflow
                &&& exists|c: u32|
                    #[trigger] appears(entries@, c) && cell_union(entries@, c, table@) > u32::MAX
            },
        },
{
    let mut mtx: HashMap<u32, Vec<Record>> = HashMap::new();
    let mut stats: HashMap<u32, Cell> = HashMap::new();
    let mut j: usize = 0;
    let n = entries.len();
    while j < n
        invariant
            0 <= j <= n,
            n == entries@.len(),
            n <= u32::MAX,
            table.wf(),
            forall|k: int|
                0 <= k < entries@.len() ==> 1 <= (#[trigger] entries@[k]).0 <= table@.len(),
            forall|c: u32| #[trigger] mtx@.contains_key(c) <==> appears(entries@.take(j as int), c),
            forall|c: u32| #[trigger] stats@.contains_key(c) <==> appears(
                entries@.take(j as int),
                c,
            ),
            forall|c: u32|
                #[trigger] mtx@.contains_key(c) ==> mtx@[c]@.map_values(|rec: Record| rec.i)
                    == assigned_ordinals(entries@.take(j as int), c),
            forall|c: u32|
                #[trigger] stats@.contains_key(c) ==> {
                    &&& stats@[c].union_len == cell_union(entries@.take(j as int), c, table@)
                    &&& stats@[c].isec == 0
                    &&& stats@[c].nisec == 0
                    &&& stats@[c].nreg == assigned_ordinals(entries@.take(j as int), c).len()
                },
        decreases n - j,
    {
        let e = entries[j];
        let c = e.1;
        let ord = e.0;
        proof {
            assert(entries@.take(j as int + 1) =~= entries@.take(j as int).push(
                entries@[j as int],
            ));
            assert(entries@.take(j as int).push(entries@[j as int]).drop_last() =~= entries@.take(
                j as int,
            ));
        }
        let reglen = table.get(ord).total();
        let mut lst = match mtx.remove(&c) {
            Some(l) => l,
            None => Vec::new(),
        };
        proof {
            if !appears(entries@.take(j as int), c) {
                assert(assigned_ordinals(entries@.take(j as int), c) =~= Seq::<u32>::empty());
            }
            assert(lst@.map_values(|rec: Record| rec.i) == assigned_ordinals(
                entries@.take(j as int),
                c,
            ));
        }
        let cell = match stats.remove(&c) {
            Some(cl) => cl,
            None => Cell { isec: 0, union_len: 0, nisec: 0, nreg: 0 },
        };
        proof {
            if !appears(entries@.take(j as int), c) {
                lemma_cell_union_is_sum_of_assignments(entries@.take(j as int), c, table@);
                assert(assigned_ordinals(entries@.take(j as int), c).map_values(
                    |o: u32| table@[o - 1],
                ) =~= Seq::<Region>::empty());
            }
            assert(cell.union_len == cell_union(entries@.take(j as int), c, table@));
            assert(cell.nreg == assigned_ordinals(entries@.take(j as int), c).len());
        }
        if reglen > u32::MAX - cell.union_len {
            proof {
                lemma_cell_union_prefix(entries@, c, table@, j as int + 1);
                lemma_assigned_prefix_len(entries@, c, j as int + 1);
                assert(appears(entries@, c));
                assert(cell_union(entries@, c, table@) > u32::MAX);
            }
            return Err(ScError::Overflow);
        }
        proof {
            lemma_assigned_len(entries@.take(j as int), c);
            assert(lst@.push(Record { i: ord }).map_values(|rec: Record| rec.i) =~= lst@.map_values(
                |rec: Record| rec.i,
            ).push(ord));
        }
        lst.push(Record { i: ord });
        let updated = Cell {
            isec: 0,
            union_len: cell.union_len + reglen,
            nisec: 0,
            nreg: cell.nreg + 1,
        };
        mtx.insert(c, lst);
        stats.insert(c, updated);
        j = j + 1;
    }
    proof {
        assert(entries@.take(n as int) =~= entries@);
    }
    Ok((mtx, stats))
}

} // verus!
