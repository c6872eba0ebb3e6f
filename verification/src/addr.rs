//! Page arithmetic on addresses.
use vstd::prelude::*;

verus! {

/// The size of a page, in bytes.
pub const PAGE_SIZE_4K: usize = 4096;

/// The page boundary at or below `addr`.
pub open spec fn page_floor(addr: int) -> int {
    addr - addr % 4096
}

/// The page boundary at or above `addr`.
pub open spec fn page_ceil(addr: int) -> int {
    page_floor(addr + 4095)
}

/// `memory_addr::align_down_4k` returns the greatest multiple of the page size
/// that is not above the address.
pub assume_specification[ memory_addr::align_down_4k ](addr: usize) -> (r: usize)
    ensures
        r == page_floor(addr as int),
;

/// `memory_addr::align_up_4k` returns the smallest multiple of the page size
/// that is not below the address. It adds a whole page and takes one off again
/// before it masks, so the address must leave room for the page.
pub assume_specification[ memory_addr::align_up_4k ](addr: usize) -> (r: usize)
    requires
        addr + 4096 <= usize::MAX,
    ensures
        r == page_ceil(addr as int),
;

/// The page boundary below an address is the nearest one.
pub proof fn law_page_floor(addr: int)
    ensures
        page_floor(addr) % 4096 == 0,
        page_floor(addr) <= addr < page_floor(addr) + 4096,
{
}

/// The page boundary above an address is the nearest one.
pub proof fn law_page_ceil(addr: int)
    ensures
        page_ceil(addr) % 4096 == 0,
        page_ceil(addr) - 4096 < addr <= page_ceil(addr),
{
}

} // verus!
