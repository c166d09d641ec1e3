use vstd::prelude::*;

use crate::errors::ScError;
use crate::region::{all_wf, nul_free, Region};

verus! {

/// The reference ordinal table: interval records in the order they appear
/// in the region file, addressed by their 1-based ordinal.  It is built in
/// one ingestion pass and read-only afterwards; every held region is well
/// formed.
pub struct RegionTable {
    regions: Vec<Region>,
}

impl View for RegionTable {
    type V = Seq<Region>;

    closed spec fn view(&self) -> Seq<Region> {
        self.regions@
    }
}

impl RegionTable {
    /// Every region of the table is well formed, and every chromosome name
    /// can be handed to the store's index.
    pub open spec fn wf(self) -> bool {
        &&& all_wf(self@)
        &&& forall|i: int| 0 <= i < self@.len() ==> nul_free((#[trigger] self@[i]).chr@)
    }

    pub fn new() -> (r: RegionTable)
        ensures
            r@ == Seq::<Region>::empty(),
            r.wf(),
    {
        RegionTable { regions: Vec::new() }
    }

    pub fn len(&self) -> (r: usize)
        ensures
            r == self@.len(),
    {
        self.regions.len()
    }

    /// Append the region with the next ordinal.  An interval whose stop
    /// lies before its start, or whose chromosome name holds a NUL byte,
    /// is a fatal data error and is refused.
    pub fn try_push(&mut self, region: Region) -> (r: Result<(), ScError>)
        requires
            old(self).wf(),
        ensures
            final(self).wf(),
            match r {
                Ok(()) => {
                    &&& region.wf()
                    &&& nul_free(region.chr@)
                    &&& final(self)@ == old(self)@.push(region)
                },
                Err(e) => {
                    &&& e == ScError::MalformedInterval
                    &&& !(region.wf() && nul_free(region.chr@))
                    &&& final(self)@ == old(self)@
                },
            },
    {
        if region.stop < region.start {
            return Err(ScError::MalformedInterval);
        }
        let bytes = region.chr.as_str().as_bytes();
        let n = bytes.len();
        let mut i: usize = 0;
        while i < n
            invariant
                0 <= i <= n,
                n == bytes@.len(),
                bytes@ == vstd::utf8::encode_utf8(region.chr@),
                forall|j: int| 0 <= j < i ==> bytes@[j] != 0,
                self@ == old(self)@,
                old(self).wf(),
            decreases n - i,
        {
            if bytes[i] == 0 {
                proof {
                    assert(vstd::utf8::encode_utf8(region.chr@)[i as int] == 0);
                }
                return Err(ScError::MalformedInterval);
            }
            i = i + 1;
        }
        proof {
            assert(nul_free(region.chr@));
        }
        self.regions.push(region);
        proof {
            assert forall|k: int| 0 <= k < self@.len() implies (#[trigger] self@[k]).wf()
                && nul_free(self@[k].chr@) by {
                if k < self@.len() - 1 {
                    assert(self@[k] == old(self)@[k]);
                } else {
                    assert(self@[k] == region);
                }
            }
        }
        Ok(())
    }

    /// The region with the given 1-based ordinal.
    pub fn get(&self, ordinal: u32) -> (r: &Region)
        requires
            1 <= ordinal <= self@.len(),
        ensures
            *r == self@[ordinal - 1],
    {
        &self.regions[(ordinal - 1) as usize]
    }
}

} // verus!
