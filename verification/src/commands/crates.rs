//! Decisions of the crate-list command: the cache key of the list and the
//! paging arithmetic over it.

use vstd::prelude::*;

verus! {

/// How many list entries one page shows.
pub const CRATES_PER_PAGE: usize = 24;

/// The cache key of the crate list.
pub open spec fn crates_key_spec() -> Seq<char> {
    "crates"@
}

/// Builds the cache key of the crate list.
pub fn crates_cache_key() -> (r: String)
    ensures
        r@ == crates_key_spec(),
{
    let mut k = String::new();
    k.append("crates");
    k
}

/// One resolved page request: either the page is out of range, or the
/// half-open entry range to show.
pub enum CratesPage {
    OutOfRange { total_pages: usize },
    Show { start: usize, end: usize, total_pages: usize },
}

/// Resolves a page request over a list of `total` entries: pages count
/// from one, each holds `CRATES_PER_PAGE` entries, and a page past the
/// last one is reported out of range with the page count.
pub fn crates_page(total: usize, page: usize) -> (r: CratesPage)
    requires
        page >= 1,
        total + CRATES_PER_PAGE <= usize::MAX,
    ensures
        match r {
            CratesPage::OutOfRange { total_pages } => total_pages == (total + CRATES_PER_PAGE
                - 1) / CRATES_PER_PAGE as int && page > total_pages,
            CratesPage::Show { start, end, total_pages } => {
                &&& total_pages == (total + CRATES_PER_PAGE - 1) / CRATES_PER_PAGE as int
                &&& page <= total_pages
                &&& start == (page - 1) * CRATES_PER_PAGE
                &&& end == if start + CRATES_PER_PAGE <= total {
                    start + CRATES_PER_PAGE as int
                } else {
                    total as int
                }
                &&& start <= end <= total
            },
        },
{
    let total_pages = (total + CRATES_PER_PAGE - 1) / CRATES_PER_PAGE;
    if page > total_pages {
        return CratesPage::OutOfRange { total_pages };
    }
    proof {
        assert((page - 1) * CRATES_PER_PAGE < total) by (nonlinear_arith)
            requires
                1 <= page <= (total + CRATES_PER_PAGE - 1) / CRATES_PER_PAGE as int,
                CRATES_PER_PAGE == 24,
        ;
    }
    let start = (page - 1) * CRATES_PER_PAGE;
    let end = if start + CRATES_PER_PAGE <= total {
        start + CRATES_PER_PAGE
    } else {
        total
    };
    CratesPage::Show { start, end, total_pages }
}

} // verus!
