use observation_tools::model::Timestamp;
use observation_tools::responses::{MAX_OBSERVATION_BATCH_SIZE, MAX_OBSERVATION_SIZE};
use observation_tools::api::{ErrorResponse, ListExecutionsQuery, ListObservationsQuery};
use observation_tools::server_api;

#[test]
fn test_list_executions_query_defaults() {
    let query = ListExecutionsQuery::default();
    assert!(query.limit.is_none());
    assert!(query.offset.is_none());
    assert!(query.search.is_none());
}

#[test]
fn test_error_response_creation() {
    let err = ErrorResponse::new("test error".to_string());
    assert_eq!(err.error, "test error");
    assert!(err.code.is_none());

    let err_with_code = ErrorResponse::with_code("test error".to_string(), "TEST_ERROR".to_string());
    assert_eq!(err_with_code.error, "test error");
    assert_eq!(err_with_code.code, Some("TEST_ERROR".to_string()));
}

#[test]
fn list_observations_query_defaults() {
    let q = ListObservationsQuery::default();
    assert!(q.limit.is_none() && q.offset.is_none() && q.search.is_none());
    assert!(q.labels.is_none() && q.source_file.is_none() && q.parent_span_id.is_none());
    let s = server_api::ListObservationsQuery::default();
    assert!(s.page_token.is_none());
}

#[test]
fn server_error_response_keeps_code() {
    let e = server_api::ErrorResponse::with_code("bad".to_string(), "E1".to_string());
    assert_eq!(e.error, "bad");
    assert_eq!(e.code.as_deref(), Some("E1"));
    assert!(e.details.is_none());
}

#[test]
fn list_pages_drop_the_extra_item() {
    assert_eq!(server_api::list_limit(None), 100);
    assert_eq!(server_api::list_limit(Some(7)), 7);
    assert_eq!(server_api::fetch_count(7), 8);
    let (items, more) = server_api::page_of(vec![1, 2, 3], 2);
    assert_eq!(items, vec![1, 2]);
    assert!(more);
    let (items, more) = server_api::page_of(vec![1, 2], 2);
    assert_eq!(items, vec![1, 2]);
    assert!(!more);
}

fn execution_at(name: &str, secs: i64, nanos: u32) -> observation_tools::model::Execution {
    let mut e = observation_tools::model::Execution::new(name.to_string());
    e.created_at = observation_tools::model::Timestamp::from_parts(secs, nanos).unwrap();
    e
}

#[test]
fn executions_list_newest_first_keeping_ties_in_order() {
    let list = vec![
        execution_at("old", 100, 0),
        execution_at("tie-a", 200, 5),
        execution_at("newest", 300, 0),
        execution_at("tie-b", 200, 5),
        execution_at("mid", 200, 1),
    ];
    let names: Vec<String> = server_api::newest_first(list).into_iter().map(|e| e.name).collect();
    assert_eq!(names, vec!["newest", "tie-a", "tie-b", "mid", "old"]);
}

#[test]
fn windows_skip_then_take() {
    assert_eq!(server_api::window(vec![1, 2, 3, 4, 5], 1, 2), vec![2, 3]);
    assert_eq!(server_api::window(vec![1, 2, 3], 2, 10), vec![3]);
    assert!(server_api::window(vec![1, 2, 3], 3, 1).is_empty());
    assert!(server_api::window(vec![1, 2, 3], 0, 0).is_empty());
}

#[test]
fn upload_limits_follow_from_the_blob_threshold() {
    assert_eq!(MAX_OBSERVATION_SIZE, 65536 * 4 + 4096);
    assert_eq!(MAX_OBSERVATION_BATCH_SIZE, 100 * MAX_OBSERVATION_SIZE);
}

#[test]
fn rfc3339_texts_read_back_within_four_digit_years() {
    let t = Timestamp::from_parts(1_700_000_000, 123_000_000).unwrap();
    let text = t.to_rfc3339();
    assert_eq!(text, "2023-11-14T22:13:20.123+00:00");
    assert_eq!(Timestamp::parse_rfc3339(&text), Ok(t));
    let last = Timestamp::from_parts(253402300799, 0).unwrap();
    assert_eq!(Timestamp::parse_rfc3339(&last.to_rfc3339()), Ok(last));
    let leap = Timestamp::from_parts(1_483_228_799, 1_500_000_000).unwrap();
    assert_eq!(leap.to_rfc3339(), "2016-12-31T23:59:60.500+00:00");
    assert_eq!(Timestamp::parse_rfc3339(&leap.to_rfc3339()), Ok(leap));
    let beyond = Timestamp::from_parts(253402300800, 0).unwrap();
    assert_eq!(beyond.to_rfc3339(), "+10000-01-01T00:00:00+00:00");
    assert!(Timestamp::parse_rfc3339(&beyond.to_rfc3339()).is_err());
}
