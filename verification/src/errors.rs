use vstd::prelude::*;

verus! {

/// The failures the pipeline can report.  All of them are fatal for the
/// whole run except `DegenerateDenominator`, which is reported per cell.
#[derive(Clone, Debug, PartialEq, Eq)]
pub enum ScError {
    /// An interval record could not be parsed, or its stop lies before its
    /// start.  Tolerating such a record would corrupt every downstream sum.
    MalformedInterval,
    /// A chromosome name could not be resolved against the store's index.
    UnknownChromosome(String),
    /// A chromosome index handed to the reference-total scan is not present
    /// in the store's index.
    UnknownChromosomeIndex(u64),
    /// The indexed store could not be opened.
    StoreUnavailable,
    /// A range query against the indexed store failed.
    StoreQuery,
    /// An accumulated length left the range of `u32`.
    Overflow,
    /// The Jaccard denominator is not positive: both unions are empty, or
    /// the intersection swallows them.
    DegenerateDenominator,
}

} // verus!
