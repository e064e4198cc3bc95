use vstd::prelude::*;

verus! {

/// The pages that `total_elements` items fill at `pagesize` a page: a last,
/// partial page counts, and there is always at least one page.
pub open spec fn pages_for(total_elements: int, pagesize: int) -> int {
    let full = total_elements / pagesize;
    let pages = if total_elements % pagesize > 0 {
        full + 1
    } else {
        full
    };
    if pages < 1 {
        1
    } else {
        pages
    }
}

/// The number of pages of a listing.
pub fn total_pages(total_elements: i64, pagesize: i64) -> (r: i64)
    requires
        total_elements >= 0,
        pagesize > 0,
    ensures
        r == pages_for(total_elements as int, pagesize as int),
{
    let full = total_elements / pagesize;
    let rem = total_elements % pagesize;
    proof {
        assert(rem > 0 ==> full < total_elements) by (nonlinear_arith)
            requires
                full == total_elements / pagesize,
                rem == total_elements % pagesize,
                total_elements >= 0,
                pagesize > 0,
        ;
    }
    let pages = if rem > 0 {
        full + 1
    } else {
        full
    };
    if pages < 1 {
        1
    } else {
        pages
    }
}

} // verus!
