//! Addresses, regions and page arithmetic. Addresses are counted in pages.

use vstd::prelude::*;

verus! {

/// The size of a page in bytes.
pub const BYTES_IN_PAGE: usize = 4096;

/// The number of pages that an object of `bytes` bytes spans when it starts on
/// a page boundary. Every object occupies at least one page.
pub open spec fn pages_spanned(bytes: int) -> int {
    if bytes <= 0 {
        1
    } else {
        (bytes - 1) / (BYTES_IN_PAGE as int) + 1
    }
}

/// `pages_spanned` is the least positive page count whose bytes hold the object.
pub proof fn lemma_pages_spanned_is_least(bytes: int, n: int)
    requires
        0 <= bytes,
    ensures
        pages_spanned(bytes) >= 1,
        pages_spanned(bytes) * BYTES_IN_PAGE >= bytes,
        n >= 1 && n * BYTES_IN_PAGE >= bytes ==> pages_spanned(bytes) <= n,
{
    if bytes > 0 {
        let q = (bytes - 1) / 4096;
        assert((bytes - 1) == 4096 * q + (bytes - 1) % 4096);
        if n >= 1 && n * 4096 >= bytes {
            assert(n > q) by (nonlinear_arith)
                requires
                    n * 4096 >= bytes,
                    bytes - 1 >= 4096 * q,
            ;
        }
    }
}

/// Rounds a size in bytes up to whole pages.
pub fn bytes_to_pages_up(bytes: usize) -> (pages: usize)
    ensures
        pages == pages_spanned(bytes as int),
{
    if bytes == 0 {
        1
    } else {
        (bytes - 1) / BYTES_IN_PAGE + 1
    }
}

/// A run of consecutive pages.
#[derive(Clone, Copy, Debug, PartialEq, Eq, Structural)]
pub struct Region {
    /// Number of the first page.
    pub start: usize,
    /// How many pages the run holds.
    pub pages: usize,
}

impl Region {
    /// One past the last page.
    pub open spec fn end(self) -> int {
        self.start + self.pages
    }

    /// The run is not empty and ends within the address space.
    pub open spec fn well_formed(self) -> bool {
        self.pages > 0 && self.end() <= usize::MAX
    }

    pub open spec fn contains_page(self, page: int) -> bool {
        self.start <= page < self.end()
    }

    /// The two runs share a page.
    pub open spec fn overlaps(self, other: Region) -> bool {
        self.start < other.end() && other.start < self.end()
    }

    pub fn is_well_formed(&self) -> (r: bool)
        ensures
            r == self.well_formed(),
    {
        self.pages > 0 && self.pages <= usize::MAX - self.start
    }

    /// Whether the two runs share a page.
    pub fn intersects(&self, other: &Region) -> (r: bool)
        ensures
            r == self.overlaps(*other),
    {
        let below_other_end = if self.start < other.start {
            true
        } else {
            self.start - other.start < other.pages
        };
        let other_below_end = if other.start < self.start {
            true
        } else {
            other.start - self.start < self.pages
        };
        below_other_end && other_below_end
    }
}

/// A reference to an object: the number of the first page of its region.
#[derive(Clone, Copy, Debug, PartialEq, Eq, Structural)]
pub struct ObjectReference {
    pub address: usize,
}

} // verus!
