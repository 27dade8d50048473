use deckmaster::pagination::{page_offset, paginate, ApiError, PaginatedResponse, PaginationParams, PAGE_SIZE};

#[test]
fn page_size_is_twenty() {
    assert_eq!(PAGE_SIZE, 20);
}

#[test]
fn offset_of_absent_page_is_zero() {
    assert_eq!(page_offset(None), 0);
}

#[test]
fn offset_of_page_one_matches_absent_page() {
    assert_eq!(page_offset(Some(1)), page_offset(None));
}

#[test]
fn offset_follows_the_formula() {
    assert_eq!(page_offset(Some(2)), 20);
    assert_eq!(page_offset(Some(3)), 40);
    assert_eq!(page_offset(Some(7)), (7 - 1) * 20);
}

#[test]
fn offset_of_page_zero_does_not_underflow() {
    assert_eq!(page_offset(Some(0)), 0);
}

#[test]
fn offset_of_largest_page_does_not_overflow() {
    assert_eq!(page_offset(Some(u32::MAX)), (u32::MAX as u64 - 1) * 20);
}

#[test]
fn params_page_is_one_indexed_with_minimum_one() {
    let p = PaginationParams { page: Some(5), limit: None };
    assert_eq!(p.page(), 5);
    let p = PaginationParams { page: None, limit: None };
    assert_eq!(p.page(), 1);
    let p = PaginationParams { page: Some(0), limit: None };
    assert_eq!(p.page(), 1);
}

#[test]
fn params_limit_defaults_to_page_size_and_caps_at_hundred() {
    let p = PaginationParams { page: None, limit: Some(20) };
    assert_eq!(p.limit(), 20);
    let p = PaginationParams { page: None, limit: None };
    assert_eq!(p.limit(), PAGE_SIZE);
    let p = PaginationParams { page: None, limit: Some(250) };
    assert_eq!(p.limit(), 100);
    let p = PaginationParams { page: None, limit: Some(100) };
    assert_eq!(p.limit(), 100);
}

#[test]
fn params_default_is_empty() {
    let p = PaginationParams::default();
    assert!(p.page.is_none());
    assert!(p.limit.is_none());
}

#[test]
fn paginate_counts_pages_by_ceiling() {
    let data: Vec<u32> = (0..45).collect();
    let r: PaginatedResponse<u32> = paginate(data, 1, 20);
    assert_eq!(r.total, 45);
    assert_eq!(r.page, 1);
    assert_eq!(r.limit, 20);
    assert_eq!(r.total_pages, 3);
    assert_eq!(r.data.len(), 45);
}

#[test]
fn paginate_of_empty_data_has_no_pages() {
    let data: Vec<u32> = Vec::new();
    let r = paginate(data, 1, 20);
    assert_eq!(r.total, 0);
    assert_eq!(r.total_pages, 0);
}

#[test]
fn paginate_exact_multiple_has_no_partial_page() {
    let data: Vec<u32> = (0..40).collect();
    let r = paginate(data, 2, 20);
    assert_eq!(r.total_pages, 2);
    assert_eq!(r.page, 2);
}

#[test]
fn api_error_carries_message_and_code() {
    let e = ApiError { message: "not found".to_string(), code: Some("NOT_FOUND".to_string()) };
    assert_eq!(e.message, "not found");
    assert_eq!(e.code.as_deref(), Some("NOT_FOUND"));
}
