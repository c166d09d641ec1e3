use scjaccard::cell::Cell;
use scjaccard::engine::{known_total, merge_results, overlap_with_all, padded_range, parse_regions, total_isec};
use scjaccard::errors::ScError;
use scjaccard::ingest::{ingest, Record};
use scjaccard::region::Region;
use scjaccard::table::RegionTable;
use std::collections::HashMap;

fn reg(chr: &str, start: u32, stop: u32) -> Region {
    Region { chr: chr.to_string(), start, stop }
}

fn table_of(regions: Vec<Region>) -> RegionTable {
    let mut t = RegionTable::new();
    for r in regions {
        t.try_push(r).expect("well-formed region");
    }
    t
}

fn ordinals(records: &Vec<Record>) -> Vec<u32> {
    records.iter().map(|r| r.i).collect()
}

#[test]
fn table_refuses_malformed_intervals() {
    let mut t = RegionTable::new();
    assert_eq!(t.try_push(reg("chr1", 200, 100)), Err(ScError::MalformedInterval));
    assert_eq!(t.len(), 0);
    assert_eq!(t.try_push(reg("chr1", 100, 200)), Ok(()));
    assert_eq!(t.len(), 1);
    assert_eq!(t.get(1).start, 100);
}

#[test]
fn ingest_counts_duplicates_toward_the_union() {
    let table = table_of(vec![reg("chr1", 0, 100)]);
    let entries = vec![(1, 1), (1, 1)];
    let (mtx, stats) = ingest(&entries, &table).expect("ingest");
    assert_eq!(ordinals(&mtx[&1]), vec![1, 1]);
    let c = &stats[&1];
    assert_eq!(c.union_len, 200);
    assert_eq!(c.nreg, 2);
    assert_eq!(c.isec, 0);
    assert_eq!(c.nisec, 0);
}

#[test]
fn ingest_keeps_cells_apart_and_in_entry_order() {
    let table = table_of(vec![
        reg("chr1", 0, 100),
        reg("chr1", 100, 200),
        reg("chr2", 0, 50),
    ]);
    let entries = vec![(1, 1), (3, 2), (2, 1)];
    let (mtx, stats) = ingest(&entries, &table).expect("ingest");
    assert_eq!(mtx.len(), 2);
    assert_eq!(ordinals(&mtx[&1]), vec![1, 2]);
    assert_eq!(ordinals(&mtx[&2]), vec![3]);
    assert_eq!(stats[&1].union_len, 200);
    assert_eq!(stats[&2].union_len, 50);
    assert_eq!(stats[&1].nreg, 2);
    assert_eq!(stats[&2].nreg, 1);
}

#[test]
fn ingest_overflowing_union_is_an_error() {
    let table = table_of(vec![reg("chr1", 0, u32::MAX)]);
    let entries = vec![(1, 1), (1, 1)];
    assert_eq!(ingest(&entries, &table).err(), Some(ScError::Overflow));
}

#[test]
fn overlap_accumulates_length_and_hit_count() {
    let a = reg("chr1", 100, 200);
    let hits = vec![
        reg("chr1", 0, 50),      // disjoint: nothing
        reg("chr1", 150, 300),   // 50 of overlap, one hit
        reg("chr1", 120, 130),   // 10 of overlap, one hit
        reg("chr1", 200, 250),   // touching boundary: length 0, no hit
    ];
    assert_eq!(overlap_with_all(&a, &hits), Ok((60, 2)));
}

#[test]
fn overlap_with_no_hits_is_zero() {
    let a = reg("chr1", 100, 200);
    assert_eq!(overlap_with_all(&a, &Vec::new()), Ok((0, 0)));
}

#[test]
fn overlap_overflow_is_an_error() {
    let a = reg("chr1", 0, u32::MAX);
    let hits = vec![reg("chr1", 0, u32::MAX), reg("chr1", 0, u32::MAX)];
    assert_eq!(overlap_with_all(&a, &hits), Err(ScError::Overflow));
}

#[test]
fn overlap_does_not_depend_on_the_order_of_hits() {
    let a = reg("chr1", 100, 200);
    let h1 = vec![reg("chr1", 150, 300), reg("chr1", 120, 130)];
    let h2 = vec![reg("chr1", 120, 130), reg("chr1", 150, 300)];
    assert_eq!(overlap_with_all(&a, &h1), overlap_with_all(&a, &h2));
}

#[test]
fn repeated_runs_give_identical_results() {
    // The per-cell computation is a function of the cell's own inputs
    // alone: running it twice, or for cells in another order, changes
    // nothing.
    let a = reg("chr1", 100, 200);
    let b = reg("chr2", 0, 80);
    let hits_a = vec![reg("chr1", 150, 300)];
    let hits_b = vec![reg("chr2", 40, 100), reg("chr2", 0, 10)];
    let first = (overlap_with_all(&a, &hits_a), overlap_with_all(&b, &hits_b));
    let second = (overlap_with_all(&a, &hits_a), overlap_with_all(&b, &hits_b));
    let swapped = (overlap_with_all(&b, &hits_b), overlap_with_all(&a, &hits_a));
    assert_eq!(first, second);
    assert_eq!(first.0, swapped.1);
    assert_eq!(first.1, swapped.0);
}

#[test]
fn parse_regions_turns_lines_into_regions() {
    let lines = vec![b"chr1\t0\t50".to_vec(), b"chr1\t100\t150\textra".to_vec()];
    let regs = parse_regions(&lines).expect("parse");
    assert_eq!(regs.len(), 2);
    assert_eq!(regs[0].chr, "chr1".to_string());
    assert_eq!(regs[0].start, 0);
    assert_eq!(regs[1].stop, 150);
}

#[test]
fn parse_regions_rejects_malformed_records() {
    let bad = vec![b"chr1\t0\t50".to_vec(), b"chr1\tx\t50".to_vec()];
    assert_eq!(parse_regions(&bad).err(), Some(ScError::MalformedInterval));
    let inverted = vec![b"chr1\t50\t0".to_vec()];
    assert_eq!(parse_regions(&inverted).err(), Some(ScError::MalformedInterval));
}

#[test]
fn merge_writes_each_cell_once_and_leaves_the_rest() {
    let table = table_of(vec![reg("chr1", 0, 100), reg("chr1", 100, 200)]);
    let entries = vec![(1, 1), (2, 1), (1, 2)];
    let (_, mut stats) = ingest(&entries, &table).expect("ingest");
    let results = vec![(1, (60, 2, 2))];
    merge_results(&mut stats, &results);
    assert_eq!(stats[&1].isec, 60);
    assert_eq!(stats[&1].nisec, 2);
    assert_eq!(stats[&1].union_len, 200);
    assert_eq!(stats[&1].nreg, 2);
    // The unlisted cell keeps its ingestion-time accumulators.
    assert_eq!(stats[&2].isec, 0);
    assert_eq!(stats[&2].nisec, 0);
    assert_eq!(stats[&2].union_len, 100);
    assert_eq!(stats[&2].nreg, 1);
}

#[test]
fn unavailable_store_is_fatal_for_a_cell() {
    let table = table_of(vec![reg("chr1", 0, 100)]);
    let records = vec![Record { i: 1 }];
    let barcode = "barcode1".to_string();
    let r = total_isec(&barcode, &records, "no/such/file.bed.gz", &table);
    assert_eq!(r.err(), Some(ScError::StoreUnavailable));
}

#[test]
fn unavailable_store_is_fatal_for_the_reference_total() {
    assert_eq!(known_total("no/such/file.bed.gz", 22).err(), Some(ScError::StoreUnavailable));
}

#[test]
fn two_cells_end_to_end() {
    // Cell 1 holds two intervals of total length 200; two reference
    // intervals overlap them over 100 in all.  Cell 2 holds two intervals
    // of total length 200; one reference interval overlaps them over 50.
    // The reference population totals 200, so the scores are
    // 100 / (200 + 200 - 100) = 0.33333 and 50 / (200 + 200 - 50) = 0.14286.
    let table = table_of(vec![
        reg("chr1", 0, 100),
        reg("chr1", 200, 300),
        reg("chr1", 400, 500),
        reg("chr1", 600, 700),
    ]);
    let entries = vec![(1, 1), (2, 1), (3, 2), (4, 2)];
    let (mtx, mut stats) = ingest(&entries, &table).expect("ingest");

    // What the reference store holds; its total length is 200.
    let reference = vec![
        reg("chr1", 0, 50),
        reg("chr1", 200, 250),
        reg("chr1", 400, 450),
        reg("chr1", 900, 950),
    ];
    let known = scjaccard::region::sum_region_lengths(&reference).expect("known");
    assert_eq!(known, 200);

    // The overlap engine, one cell at a time, against the reference
    // intervals that a chromosome-scoped query would return.
    let mut results: Vec<(u32, (u32, u32, u32))> = Vec::new();
    for (cell_id, records) in mtx.iter() {
        let mut isec: u32 = 0;
        let mut nisec: u32 = 0;
        let mut nreg: u32 = 0;
        for r in records {
            let region = table.get(r.i);
            let (s, n) = overlap_with_all(region, &reference).expect("overlap");
            isec += s;
            nisec += n;
            nreg += 1;
        }
        results.push((*cell_id, (isec, nisec, nreg)));
    }
    merge_results(&mut stats, &results);

    let one = &stats[&1];
    assert_eq!(one.union_len, 200);
    assert_eq!(one.isec, 100);
    assert_eq!(one.nisec, 2);
    assert_eq!(one.nreg, 2);
    assert_eq!(one.jaccard(known), Ok(33333));

    let two = &stats[&2];
    assert_eq!(two.union_len, 200);
    assert_eq!(two.isec, 50);
    assert_eq!(two.nisec, 1);
    assert_eq!(two.nreg, 2);
    assert_eq!(two.jaccard(known), Ok(14286));
}

#[test]
fn rerunning_the_pipeline_reproduces_the_scores() {
    let table = table_of(vec![reg("chr1", 0, 100), reg("chr1", 200, 300)]);
    let entries = vec![(1, 1), (2, 1), (1, 2)];
    let reference = vec![reg("chr1", 0, 50), reg("chr1", 220, 260)];
    let run = || {
        let (mtx, mut stats) = ingest(&entries, &table).expect("ingest");
        let mut results: Vec<(u32, (u32, u32, u32))> = Vec::new();
        for (cell_id, records) in mtx.iter() {
            let mut isec: u32 = 0;
            let mut nisec: u32 = 0;
            let mut nreg: u32 = 0;
            for r in records {
                let (s, n) = overlap_with_all(table.get(r.i), &reference).expect("overlap");
                isec += s;
                nisec += n;
                nreg += 1;
            }
            results.push((*cell_id, (isec, nisec, nreg)));
        }
        merge_results(&mut stats, &results);
        let mut scores: Vec<(u32, Result<u64, ScError>)> =
            stats.iter().map(|(c, cell)| (*c, cell.jaccard(90))).collect();
        scores.sort_by_key(|p| p.0);
        scores
    };
    assert_eq!(run(), run());
}

#[test]
fn cell_absent_from_the_matrix_never_reaches_the_report() {
    let table = table_of(vec![reg("chr1", 0, 100)]);
    let entries = vec![(1, 1)];
    let (mtx, stats) = ingest(&entries, &table).expect("ingest");
    assert!(!mtx.contains_key(&7));
    assert!(!stats.contains_key(&7));
    // A zero cell scored by hand still gets 0, not an error.
    let zero = Cell { isec: 0, union_len: 0, nisec: 0, nreg: 0 };
    assert_eq!(zero.jaccard(200), Ok(0));
}

#[test]
fn table_refuses_nul_in_chromosome_names() {
    let mut t = RegionTable::new();
    let bad = Region { chr: "ch\0r1".to_string(), start: 0, stop: 10 };
    assert_eq!(t.try_push(bad), Err(ScError::MalformedInterval));
    assert_eq!(t.len(), 0);
}

#[test]
fn query_window_is_padded_on_both_sides() {
    assert_eq!(padded_range(&reg("chr1", 5000, 6000)), (4000, 7000));
    assert_eq!(padded_range(&reg("chr1", 1001, 1500)), (1, 2500));
    // A start at or below the padding is left unwidened, not clamped.
    assert_eq!(padded_range(&reg("chr1", 1000, 1200)), (1000, 2200));
    assert_eq!(padded_range(&reg("chr1", 0, 100)), (0, 1100));
}
