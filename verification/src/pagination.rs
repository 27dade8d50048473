//! Page-based offset pagination.
//!
//! Pages are 1-indexed: page `p` selects the half-open record range
//! `[(p - 1) * PAGE_SIZE, p * PAGE_SIZE)` of the filtered result set.
//! An absent page value is equivalent to requesting page 1; this default is
//! fixed here once, and every query strategy computes its window from the
//! same formula.

use vstd::prelude::*;

verus! {

/// Fixed number of records per page, shared by every backend adapter.
pub const PAGE_SIZE: u32 = 20;

/// The record offset that a requested page selects: `(p - 1) * PAGE_SIZE`,
/// where an absent page and page 1 both start at offset 0. A page value of 0
/// is treated like page 1 rather than underflowing.
pub open spec fn spec_page_offset(page: Option<u32>) -> nat {
    let p = match page {
        Some(p) => p,
        None => 1u32,
    };
    if p <= 1 {
        0
    } else {
        (p - 1) as nat * PAGE_SIZE as nat
    }
}

/// Computes the record offset of a requested page.
pub fn page_offset(page: Option<u32>) -> (r: u64)
    ensures
        r == spec_page_offset(page),
{
    let p: u32 = match page {
        Some(p) => p,
        None => 1,
    };
    if p <= 1 {
        0
    } else {
        assert((p as u64 - 1) * PAGE_SIZE as u64 <= (u32::MAX as u64) * 20);
        (p as u64 - 1) * PAGE_SIZE as u64
    }
}

/// Requesting page 1 and requesting no page select the same offset, hence
/// the same result window.
pub proof fn lemma_default_page_is_page_one()
    ensures
        spec_page_offset(Some(1u32)) == spec_page_offset(None::<u32>),
        spec_page_offset(None::<u32>) == 0,
{
}

/// The page and per-page-limit values of a request, both optional.
#[derive(Debug)]
pub struct PaginationParams {
    /// Page number (1-indexed).
    pub page: Option<u32>,
    /// Number of items per page.
    pub limit: Option<u32>,
}

impl PaginationParams {
    /// The requested page, raised to the minimum of 1: pages are
    /// 1-indexed, and an absent page means page 1.
    pub fn page(&self) -> (r: u32)
        ensures
            r == match self.page {
                Some(p) => if p < 1 { 1u32 } else { p },
                None => 1u32,
            },
            r >= 1,
    {
        let p = match self.page {
            Some(p) => p,
            None => 1,
        };
        if p < 1 {
            1
        } else {
            p
        }
    }

    /// The requested number of items per page, defaulting to
    /// [`PAGE_SIZE`] and capped at the documented maximum of 100.
    pub fn limit(&self) -> (r: u32)
        ensures
            r == match self.limit {
                Some(l) => if l > 100 { 100u32 } else { l },
                None => PAGE_SIZE,
            },
            r <= 100,
    {
        let l = match self.limit {
            Some(l) => l,
            None => PAGE_SIZE,
        };
        if l > 100 {
            100
        } else {
            l
        }
    }
}

impl Default for PaginationParams {
    /// No page and no limit requested.
    fn default() -> (r: Self)
        ensures
            r.page is None,
            r.limit is None,
    {
        PaginationParams { page: None, limit: None }
    }
}

/// An error as the calling layer reports it.
#[derive(Debug)]
pub struct ApiError {
    /// Error message.
    pub message: String,
    /// Error code for client handling.
    pub code: Option<String>,
}

/// A page of results together with the pagination bookkeeping the calling
/// layer reports.
#[derive(Debug)]
pub struct PaginatedResponse<T> {
    pub data: Vec<T>,
    pub total: u64,
    pub page: u32,
    pub limit: u32,
    pub total_pages: u32,
}

/// How many pages of size `limit` hold `total` records: the ceiling of
/// their quotient.
pub open spec fn spec_total_pages(total: nat, limit: nat) -> nat {
    (total + limit - 1) as nat / limit
}

/// Wraps one page of records in a response, counting the total and the
/// number of pages (capped at `u32::MAX`) by ceiling division.
pub fn paginate<T>(data: Vec<T>, page: u32, limit: u32) -> (r: PaginatedResponse<T>)
    requires
        limit >= 1,
    ensures
        r.data == data,
        r.total == data@.len(),
        r.page == page,
        r.limit == limit,
        r.total_pages == if spec_total_pages(data@.len(), limit as nat) > u32::MAX {
            u32::MAX as nat
        } else {
            spec_total_pages(data@.len(), limit as nat)
        },
{
    let total = data.len() as u64;
    let pages_wide: u128 = (total as u128 + limit as u128 - 1) / (limit as u128);
    let total_pages: u32 = if pages_wide > u32::MAX as u128 {
        u32::MAX
    } else {
        pages_wide as u32
    };
    PaginatedResponse { data, total, page, limit, total_pages }
}

} // verus!
