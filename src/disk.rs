//! What the cache shares with the disk layer: page identifiers and the page size.
use vstd::prelude::*;

verus! {

/// Size in bytes of one page, the unit of disk transfer and of residency.
pub const PAGE_SIZE: usize = 4096;

/// The raw value that names no page; frames that never held a page carry it.
pub const INVALID_PAGE_ID_RAW: u64 = 0xffff_ffff_ffff_ffff;

/// Identifier of a logical page; one to one with a location on disk.
#[derive(Clone, Copy, Debug, PartialEq, Eq, Hash, Structural)]
pub struct PageId(pub u64);

impl PageId {
    /// The identifier that names no page.
    pub fn invalid() -> (r: PageId)
        ensures
            r.0 == INVALID_PAGE_ID_RAW,
    {
        PageId(INVALID_PAGE_ID_RAW)
    }

    pub fn is_valid(&self) -> (r: bool)
        ensures
            r == (self.0 != INVALID_PAGE_ID_RAW),
    {
        self.0 != INVALID_PAGE_ID_RAW
    }
}

} // verus!
