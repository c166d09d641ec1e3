use vstd::prelude::*;

use crate::errors::ScError;

verus! {

/// Per-cell accumulators.  `union_len` is filled once during ingestion, `isec`
/// and `nisec` are written exactly once when the overlap engine's results
/// are merged back, and `nreg` counts the intervals assigned to the cell.
pub struct Cell {
    /// Total intersection length against the reference store.
    pub isec: u32,
    /// Sum of the lengths of the intervals assigned to this cell, counted
    /// with multiplicity.
    pub union_len: u32,
    /// Number of reference intervals hit with a positive overlap.
    pub nisec: u32,
    /// Number of intervals assigned to this cell.
    pub nreg: u32,
}

/// The Jaccard score of a cell, scaled by `100000` and rounded to the
/// nearest integer, so that dividing by `100000` gives the score to five
/// decimal places: `isec / (union + known - isec)`.
pub open spec fn spec_jaccard_scaled(isec: u32, union_len: u32, known: u32) -> int
    recommends
        union_len + known > isec,
{
    let denom = union_len + known - isec;
    (100000 * isec + denom / 2) / denom
}

impl Cell {
    /// The Jaccard score of this cell against the reference total `known`,
    /// scaled by `100000`.  A denominator that is not positive cannot be
    /// scored and is reported as a per-cell computation error.
    pub fn jaccard(&self, known: u32) -> (r: Result<u64, ScError>)
        ensures
            match r {
                Ok(v) => self.union_len + known > self.isec && v == spec_jaccard_scaled(
                    self.isec,
                    self.union_len,
                    known,
                ),
                Err(e) => e == ScError::DegenerateDenominator && self.union_len + known <= self.isec,
            },
    {
        let base = self.union_len as u64 + known as u64;
        if base <= self.isec as u64 {
            return Err(ScError::DegenerateDenominator);
        }
        let denom = base - self.isec as u64;
        Ok((100000u64 * self.isec as u64 + denom / 2) / denom)
    }
}

/// A cell with no assigned intervals and no intersection scores zero
/// against any non-empty reference population; it is not an error.
pub proof fn lemma_empty_cell_scores_zero(known: u32)
    requires
        known > 0,
    ensures
        spec_jaccard_scaled(0, 0, known) == 0,
{
    vstd::arithmetic::div_mod::lemma_div_decreases(known as int, 2);
    vstd::arithmetic::div_mod::lemma_div_nonincreasing(known as int, 2);
    vstd::arithmetic::div_mod::lemma_basic_div(known as int / 2, known as int);
}

} // verus!
