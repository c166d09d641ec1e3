use scjaccard::cell::Cell;
use scjaccard::errors::ScError;

fn cell(isec: u32, union_len: u32, nisec: u32, nreg: u32) -> Cell {
    Cell { isec, union_len, nisec, nreg }
}

#[test]
fn jaccard_of_the_first_example_cell() {
    // 100 / (200 + 200 - 100) = 0.33333 to five decimal places.
    assert_eq!(cell(100, 200, 2, 2).jaccard(200), Ok(33333));
}

#[test]
fn jaccard_of_the_second_example_cell() {
    // 50 / (200 + 200 - 50) = 0.14286 to five decimal places.
    assert_eq!(cell(50, 200, 1, 2).jaccard(200), Ok(14286));
}

#[test]
fn jaccard_of_identical_sets_is_one() {
    // 100 / (100 + 100 - 100) = 1.00000.
    assert_eq!(cell(100, 100, 1, 1).jaccard(100), Ok(100000));
}

#[test]
fn empty_cell_scores_zero_against_nonempty_reference() {
    // A cell with no assigned intervals: denominator is the reference
    // total, the score is zero, not an error.
    assert_eq!(cell(0, 0, 0, 0).jaccard(200), Ok(0));
}

#[test]
fn zero_denominator_is_a_per_cell_error() {
    assert_eq!(cell(0, 0, 0, 0).jaccard(0), Err(ScError::DegenerateDenominator));
}

#[test]
fn swallowed_denominator_is_a_per_cell_error() {
    assert_eq!(cell(400, 200, 4, 2).jaccard(200), Err(ScError::DegenerateDenominator));
    assert_eq!(cell(401, 200, 4, 2).jaccard(200), Err(ScError::DegenerateDenominator));
}

#[test]
fn jaccard_rounds_to_the_nearest_fifth_decimal() {
    // 1 / (2 + 1 - 1) = 0.5 exactly.
    assert_eq!(cell(1, 2, 1, 1).jaccard(1), Ok(50000));
    // 2 / (4 + 1 - 2) = 0.666666... rounds to 0.66667.
    assert_eq!(cell(2, 4, 1, 1).jaccard(1), Ok(66667));
}

#[test]
fn configuration_carries_its_values() {
    let opt = scjaccard::opt::Opt {
        input: "counts.mtx".to_string(),
        bed: "regions.bed".to_string(),
        barcodes: "barcodes.tsv".to_string(),
        atac: "reference.bed.gz".to_string(),
        cores: 4,
        nchr: 22,
        loglevel: "warn".to_string(),
        full: true,
    };
    assert_eq!(opt.cores, 4);
    assert_eq!(opt.nchr, 22);
    assert!(opt.full);
}
