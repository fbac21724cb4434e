use coin_ledger::pagination::{Pagination, PaginationError};

#[test]
fn page_limit_err() {
    let err = Pagination::new(1_001, 10).unwrap_err();
    assert_eq!(PaginationError::PageLimitReached, err);
}

#[test]
fn page_size_limit_err() {
    let err = Pagination::new(1, 1_001).unwrap_err();
    assert_eq!(PaginationError::PageSizeLimitReached, err);
}

#[test]
fn from_optional_uses_default() {
    let pagination = Pagination::new_from_optional(None, None).unwrap();
    assert_eq!(1, pagination.page());
    assert_eq!(10, pagination.page_size());
}

#[test]
fn from_optional_uses_provided_page() {
    let pagination = Pagination::new_from_optional(Some(23), None).unwrap();
    assert_eq!(23, pagination.page());
    assert_eq!(10, pagination.page_size());
}

#[test]
fn from_optional_uses_provided_page_size() {
    let pagination = Pagination::new_from_optional(None, Some(87)).unwrap();
    assert_eq!(1, pagination.page());
    assert_eq!(87, pagination.page_size());
}

#[test]
fn db_conversion_is_correct() {
    for (page, page_size, limit, offset) in [(1, 10, 10, 0), (2, 10, 10, 10), (2, 20, 20, 20), (1, 20, 20, 0)] {
        let dbp = Pagination::new(page, page_size).unwrap().to_db();
        assert_eq!(limit, dbp.limit);
        assert_eq!(offset, dbp.offset);
    }
}

#[test]
fn largest_page_offset() {
    let dbp = Pagination::new(1_000, 1_000).unwrap().to_db();
    assert_eq!(1_000, dbp.limit);
    assert_eq!(999_000, dbp.offset);
}

#[test]
fn limits_ok() {
    for (page, page_size) in [(1, 10), (1, 999), (999, 345), (1_000, 1_000)] {
        assert!(Pagination::new(page, page_size).is_ok());
    }
}

#[test]
fn zero_page_or_size_rejected() {
    assert_eq!(PaginationError::InvalidPage, Pagination::new(0, 10).unwrap_err());
    assert_eq!(PaginationError::InvalidPageSize, Pagination::new(1, 0).unwrap_err());
    assert_eq!(PaginationError::InvalidPage, Pagination::new_from_optional(Some(0), Some(0)).unwrap_err());
}

#[test]
fn page_tested_before_page_size() {
    assert_eq!(PaginationError::PageLimitReached, Pagination::new(1_001, 1_001).unwrap_err());
}
