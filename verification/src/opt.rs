use vstd::prelude::*;

verus! {

/// The configuration the pipeline consumes: where its four inputs live,
/// how many chromosomes the reference scan covers, how many workers run
/// the overlap engine, the log level, and whether the report is compact
/// or full.  Parsing the command line into these values happens outside
/// the library.
pub struct Opt {
    /// Read counts per region in MatrixMarket triplet format.
    pub input: String,
    /// Regions of interest, tab-delimited, in MatrixMarket row order.
    pub bed: String,
    /// One barcode per line, in MatrixMarket column order.
    pub barcodes: String,
    /// Sorted, tabix-indexed, bgzip-compressed reference intervals.
    pub atac: String,
    /// Number of workers for the overlap engine.
    pub cores: usize,
    /// Number of chromosomes the reference-total scan covers.
    pub nchr: u64,
    /// Log level of the surrounding program.
    pub loglevel: String,
    /// Report every accumulator instead of barcode and score alone.
    pub full: bool,
}

} // verus!
