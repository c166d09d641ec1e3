use vstd::prelude::*;

use crate::errors::ScError;
use rust_htslib::tbx;
use rust_htslib::tbx::Read;

verus! {

#[verifier::external_type_specification]
#[verifier::external_body]
pub struct ExTbxReader(tbx::Reader);

/// Relies on rust_htslib's `tbx::Reader::from_path`: it opens a reader on
/// a tabix-indexed file and fails when the file or its index is missing.
/// A file that exists but cannot be opened, or whose header lines are not
/// UTF-8, aborts inside the crate rather than returning; that depends on
/// the disk, not on the arguments, and an unreadable store is fatal for
/// the run either way.
#[verifier::external_body]
pub(crate) fn store_open(path: &str) -> (r: Result<tbx::Reader, ScError>)
    ensures
        match r {
            Ok(_) => true,
            Err(e) => e == ScError::StoreUnavailable,
        },
{
    tbx::Reader::from_path(path).map_err(|_| ScError::StoreUnavailable)
}

/// Relies on `tbx::Reader::tid`: it resolves a chromosome name to the
/// store's numeric id and fails exactly when the name is not indexed.  A
/// name with an interior NUL byte would abort inside the call and is
/// excluded.
#[verifier::external_body]
pub(crate) fn store_tid(reader: &tbx::Reader, name: &str) -> (r: Result<u64, ScError>)
    requires
        crate::region::nul_free(name@),
    ensures
        match r {
            Ok(_) => true,
            Err(e) => e matches ScError::UnknownChromosome(n) && n@ == name@,
        },
{
    match reader.tid(name) {
        Ok(t) => Ok(t),
        Err(_) => Err(ScError::UnknownChromosome(name.to_owned())),
    }
}

/// Relies on `tbx::Reader::fetch`: it points the reader's cursor at the
/// records overlapping `[start, end)` of the chromosome with the given id,
/// and fails when the id is not in the index.  The crate truncates the id
/// to 32 bits before handing it to the index.
#[verifier::external_body]
pub(crate) fn store_fetch(reader: &mut tbx::Reader, tid: u64, start: u64, end: u64) -> (r: Result<
    (),
    ScError,
>)
    ensures
        match r {
            Ok(_) => true,
            Err(e) => e == ScError::StoreQuery,
        },
{
    reader.fetch(tid, start, end).map_err(|_| ScError::StoreQuery)
}

/// Relies on `tbx::Reader::records`: it yields the fetched records as raw
/// text lines, in store order, and fails when a record is truncated or no
/// region was fetched.  A record that is not UTF-8 aborts inside the
/// crate; that too depends on the store file alone.
#[verifier::external_body]
pub(crate) fn store_read_lines(reader: &mut tbx::Reader) -> (r: Result<Vec<Vec<u8>>, ScError>)
    ensures
        match r {
            Ok(_) => true,
            Err(e) => e == ScError::StoreQuery,
        },
{
    let mut lines: Vec<Vec<u8>> = Vec::new();
    for rec in reader.records() {
        match rec {
            Ok(line) => lines.push(line),
            Err(_) => {
                return Err(ScError::StoreQuery);
            },
        }
    }
    Ok(lines)
}

} // verus!
