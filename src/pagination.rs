//! Bounded, one-based pages and their conversion to offset and limit.

use vstd::prelude::*;

verus! {

pub const MAX_PAGE: usize = 1000;
pub const MAX_PAGE_SIZE: usize = 1000;
pub const DEFAULT_PAGE: usize = 1;
pub const DEFAULT_PAGE_SIZE: usize = 10;

/// Why a page request is refused.
#[derive(Debug, PartialEq, Eq, Structural, Clone, Copy)]
pub enum PaginationError {
    /// Pages are counted from 1.
    InvalidPage,
    /// A page holds at least one item.
    InvalidPageSize,
    PageLimitReached,
    PageSizeLimitReached,
}

/// A page number and a page size, each between 1 and 1000.
#[derive(Debug, PartialEq, Eq, Structural, Clone, Copy)]
pub struct Pagination {
    page: usize,
    page_size: usize,
}

/// Where a page starts and how many items it holds, counted from zero.
#[derive(Debug, PartialEq, Eq, Structural, Clone, Copy)]
pub struct DbPagination {
    pub limit: usize,
    pub offset: usize,
}

/// The outcome of asking for a page: conditions are tested in order, page first.
pub open spec fn pagination_rule(page: usize, page_size: usize) -> Result<(usize, usize), PaginationError> {
    if page == 0 {
        Err(PaginationError::InvalidPage)
    } else if page_size == 0 {
        Err(PaginationError::InvalidPageSize)
    } else if page > MAX_PAGE {
        Err(PaginationError::PageLimitReached)
    } else if page_size > MAX_PAGE_SIZE {
        Err(PaginationError::PageSizeLimitReached)
    } else {
        Ok((page, page_size))
    }
}

impl Pagination {
    #[verifier::type_invariant]
    spec fn bounded(self) -> bool {
        &&& 1 <= self.page <= MAX_PAGE
        &&& 1 <= self.page_size <= MAX_PAGE_SIZE
    }

    pub closed spec fn spec_page(self) -> usize {
        self.page
    }

    pub closed spec fn spec_page_size(self) -> usize {
        self.page_size
    }

    /// Both values lie between 1 and 1000.
    pub open spec fn wf(self) -> bool {
        &&& 1 <= self.spec_page() <= MAX_PAGE
        &&& 1 <= self.spec_page_size() <= MAX_PAGE_SIZE
    }

    pub fn new(page: usize, page_size: usize) -> (r: Result<Self, PaginationError>)
        ensures
            match pagination_rule(page, page_size) {
                Ok((p, s)) => r is Ok && r->Ok_0.spec_page() == p && r->Ok_0.spec_page_size() == s
                    && r->Ok_0.wf(),
                Err(e) => r == Err::<Self, PaginationError>(e),
            },
    {
        if page == 0 {
            return Err(PaginationError::InvalidPage);
        }
        if page_size == 0 {
            return Err(PaginationError::InvalidPageSize);
        }
        if page > MAX_PAGE {
            return Err(PaginationError::PageLimitReached);
        }
        if page_size > MAX_PAGE_SIZE {
            return Err(PaginationError::PageSizeLimitReached);
        }
        Ok(Self { page, page_size })
    }

    /// Page 1 and a size of 10 where a value is not given.
    pub fn new_from_optional(page: Option<usize>, page_size: Option<usize>) -> (r: Result<Self, PaginationError>)
        ensures
            ({
                let p = match page {
                    Some(v) => v,
                    None => DEFAULT_PAGE,
                };
                let s = match page_size {
                    Some(v) => v,
                    None => DEFAULT_PAGE_SIZE,
                };
                match pagination_rule(p, s) {
                    Ok((p, s)) => r is Ok && r->Ok_0.spec_page() == p && r->Ok_0.spec_page_size() == s
                        && r->Ok_0.wf(),
                    Err(e) => r == Err::<Self, PaginationError>(e),
                }
            }),
    {
        let p = match page {
            Some(v) => v,
            None => DEFAULT_PAGE,
        };
        let s = match page_size {
            Some(v) => v,
            None => DEFAULT_PAGE_SIZE,
        };
        Self::new(p, s)
    }

    pub fn page(&self) -> (r: usize)
        ensures
            r == self.spec_page(),
            1 <= r <= MAX_PAGE,
    {
        proof {
            use_type_invariant(self);
        }
        self.page
    }

    pub fn page_size(&self) -> (r: usize)
        ensures
            r == self.spec_page_size(),
            1 <= r <= MAX_PAGE_SIZE,
    {
        proof {
            use_type_invariant(self);
        }
        self.page_size
    }

    /// The zero-based window of the page.
    pub open spec fn spec_window(self) -> DbPagination {
        DbPagination {
            limit: self.spec_page_size(),
            offset: ((self.spec_page() - 1) * self.spec_page_size()) as usize,
        }
    }

    /// The zero-based window of the page: it skips `(page - 1) * page_size`
    /// items and takes `page_size`.
    pub fn to_db(self) -> (r: DbPagination)
        ensures
            r.limit == self.spec_page_size(),
            r.offset == (self.spec_page() - 1) * self.spec_page_size(),
            r == self.spec_window(),
    {
        proof {
            use_type_invariant(&self);
        }
        assert((self.page - 1) * self.page_size <= 999 * 1000) by (nonlinear_arith)
            requires
                1 <= self.page <= 1000,
                1 <= self.page_size <= 1000,
        ;
        DbPagination { limit: self.page_size, offset: (self.page - 1) * self.page_size }
    }
}

} // verus!
