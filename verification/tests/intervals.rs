use scjaccard::region::{get_intersection, sum_region_lengths, Region};
use scjaccard::errors::ScError;

fn reg(chr: &str, start: u32, stop: u32) -> Region {
    Region { chr: chr.to_string(), start, stop }
}

#[test]
fn total_is_stop_minus_start() {
    assert_eq!(reg("chr1", 10, 100).total(), 90);
    assert_eq!(reg("chr1", 7, 7).total(), 0);
}

#[test]
fn intersection_is_symmetric() {
    let a = reg("chr1", 10, 100);
    let b = reg("chr1", 50, 200);
    assert_eq!(get_intersection(&a, &b), 50);
    assert_eq!(get_intersection(&b, &a), 50);
    let c = reg("chr1", 0, 20);
    assert_eq!(get_intersection(&a, &c), get_intersection(&c, &a));
}

#[test]
fn disjoint_intervals_intersect_to_zero() {
    let a = reg("chr1", 10, 100);
    let b = reg("chr1", 150, 200);
    assert_eq!(get_intersection(&a, &b), 0);
    assert_eq!(get_intersection(&b, &a), 0);
}

#[test]
fn interval_intersects_itself_over_its_length() {
    let a = reg("chr1", 10, 100);
    assert_eq!(get_intersection(&a, &a), a.total());
    let empty = reg("chr1", 42, 42);
    assert_eq!(get_intersection(&empty, &empty), 0);
}

#[test]
fn touching_boundaries_overlap_with_length_zero() {
    let a = reg("chr1", 10, 100);
    let b = reg("chr1", 100, 200);
    assert_eq!(get_intersection(&a, &b), 0);
    assert_eq!(get_intersection(&b, &a), 0);
}

#[test]
fn contained_interval_intersects_over_its_own_length() {
    let a = reg("chr1", 0, 1000);
    let b = reg("chr1", 400, 500);
    assert_eq!(get_intersection(&a, &b), 100);
}

#[test]
fn sum_of_lengths_over_regions() {
    let v = vec![reg("chr1", 0, 100), reg("chr2", 10, 60), reg("chr1", 5, 5)];
    assert_eq!(sum_region_lengths(&v), Ok(150));
    let empty: Vec<Region> = Vec::new();
    assert_eq!(sum_region_lengths(&empty), Ok(0));
}

#[test]
fn sum_of_lengths_does_not_depend_on_order() {
    let v1 = vec![reg("chr1", 0, 100), reg("chr2", 10, 60), reg("chr3", 3, 33)];
    let v2 = vec![reg("chr3", 3, 33), reg("chr1", 0, 100), reg("chr2", 10, 60)];
    assert_eq!(sum_region_lengths(&v1), sum_region_lengths(&v2));
}

#[test]
fn sum_of_lengths_overflow_is_an_error() {
    let v = vec![reg("chr1", 0, u32::MAX), reg("chr2", 0, u32::MAX)];
    assert_eq!(sum_region_lengths(&v), Err(ScError::Overflow));
}
