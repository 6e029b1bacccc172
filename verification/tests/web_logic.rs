use observation_tools::auth::{
    ApiKeySecret, AuthError, Provider, check_authorization, generate_api_key, parse_google_user_info,
    social_account_key, validate_api_key,
};
use observation_tools::csrf::{CsrfDecision, csrf_cookie_token, csrf_decision, is_checked_method, issue_csrf_token};
use observation_tools::ids::{ExecutionId, ObservationId, PayloadId};
use observation_tools::json::JsonValue;
use observation_tools::model::{LogLevel, Observation, ObservationType, Timestamp};
use observation_tools::payload::{Markdown, Payload, PayloadBuilder, MIME_TYPE_RUST_DEBUG};
use observation_tools::responses::{
    AppError, GetObservation, PayloadOrPointerResponse, guess_mime_type, is_blob_size, parse_payload_key,
};
use observation_tools::storage::{ObservationWithPayloads, PayloadData, StorageError, StoredPayload};
use observation_tools::ui_tree::{
    BreadcrumbTrail, PayloadTreeQuery, UrlContext, build_tree_url, focus_group, to_pagination_view,
};
use observation_tools::upload::{PayloadManifestEntry, collect_observation_payloads, key_head_text};

#[test]
fn text_payloads_read_back() {
    let p = Payload::text("hello".to_string());
    assert_eq!(p.mime_type, "text/plain");
    assert_eq!(p.size, 5);
    assert_eq!(p.data_as_str(), "hello");
    assert_eq!(Payload::json("{}".to_string()).mime_type, "application/json");
    assert_eq!(Payload::debug("x".to_string()).mime_type, MIME_TYPE_RUST_DEBUG);
    assert_eq!(Payload::with_mime_type("é".to_string(), "a/b".to_string()).size, 2);
    let md = Markdown::from("# t".to_string()).into_payload();
    assert_eq!(md.mime_type, "text/markdown");
    let b = PayloadBuilder::markdown("n".to_string(), "c".to_string());
    assert_eq!(b.name, "n");
    assert_eq!(b.payload.mime_type, "text/markdown");
    assert_eq!(PayloadBuilder::text("n".to_string(), "t".to_string()).payload.data, b"t".to_vec());
}

fn stored(mime: &str, data: &[u8]) -> StoredPayload {
    StoredPayload { id: PayloadId::from_text("p"), name: "n".to_string(), mime_type: mime.to_string(), size: data.len(), data: PayloadData::Inline(data.to_vec()) }
}

#[test]
fn payloads_are_shown_by_type() {
    let e = ExecutionId(1);
    let o = ObservationId(2);
    match PayloadOrPointerResponse::from_stored_payload(stored("application/json", b"{\"a\": [1, 2.5]}"), e, o) {
        PayloadOrPointerResponse::Json(JsonValue::Object(entries)) => {
            assert_eq!(entries[0].0, "a");
            assert_eq!(entries[0].1, JsonValue::Array(vec![JsonValue::Int(1), JsonValue::Float("2.5".to_string())]));
        }
        other => panic!("unexpected {:?}", other),
    }
    match PayloadOrPointerResponse::from_stored_payload(stored("text/x-rust-debug", b"Some(\n    1,\n)"), e, o) {
        PayloadOrPointerResponse::Json(JsonValue::Object(entries)) => assert_eq!(entries.len(), 2),
        other => panic!("unexpected {:?}", other),
    }
    assert!(matches!(PayloadOrPointerResponse::from_stored_payload(stored("text/plain", b"hi"), e, o), PayloadOrPointerResponse::Text(ref t) if t == "hi"));
    assert!(matches!(PayloadOrPointerResponse::from_stored_payload(stored("text/markdown", b"# h"), e, o), PayloadOrPointerResponse::Markdown { ref raw } if raw == "# h"));
    assert!(matches!(PayloadOrPointerResponse::from_stored_payload(stored("application/json", b"not json"), e, o), PayloadOrPointerResponse::InlineBinary(_)));
    assert!(matches!(PayloadOrPointerResponse::from_stored_payload(stored("text/plain", &[0xff, 0xfe]), e, o), PayloadOrPointerResponse::InlineBinary(_)));
    let mut blob = stored("text/plain", b"");
    blob.data = PayloadData::Blob;
    match PayloadOrPointerResponse::from_stored_payload(blob, e, o) {
        PayloadOrPointerResponse::Pointer { url } => assert_eq!(
            url,
            "/api/exe/00000000000000000000000000000001/obs/00000000000000000000000000000002/payload/p/content"
        ),
        other => panic!("unexpected {:?}", other),
    }
}

fn observation(id: u128) -> Observation {
    Observation {
        id: ObservationId(id),
        execution_id: ExecutionId(1),
        name: "o".to_string(),
        observation_type: ObservationType::LogEntry,
        log_level: LogLevel::Info,
        source: None,
        metadata: Vec::new(),
        group_ids: Vec::new(),
        parent_group_id: None,
        parent_span_id: None,
        created_at: Timestamp::from_parts(0, 0).unwrap(),
    }
}

#[test]
fn get_observation_shows_each_payload() {
    let obs = ObservationWithPayloads { observation: observation(2), payloads: vec![stored("text/plain", b"a"), stored("text/plain", b"b")] };
    let g = GetObservation::new(obs);
    assert_eq!(g.payloads.len(), 2);
    assert!(matches!(g.payloads[1].data, PayloadOrPointerResponse::Text(ref t) if t == "b"));
}

#[test]
fn payload_keys_name_payloads() {
    let oid = "0000000000000000000000000000000a";
    let (_, name) = parse_payload_key(oid, oid).ok().unwrap();
    assert_eq!(name, "default");
    let (_, name) = parse_payload_key(&format!("{}:headers", oid), oid).ok().unwrap();
    assert_eq!(name, "headers");
    let pid = "018e9a3a2c1b7e3f8d2a4b5c6d7e8f9c";
    let (id, name) = parse_payload_key(&format!("{}:{}:body", oid, pid), oid).ok().unwrap();
    assert_eq!(id.as_str(), pid);
    assert_eq!(name, "body");
    let (_, name) = parse_payload_key(&format!("{}:x:y", oid), oid).ok().unwrap();
    assert_eq!(name, "x:y");
    match parse_payload_key(&format!("{}-bad", oid), oid) {
        Err(AppError::BadRequest(m)) => assert_eq!(m, format!("Invalid payload key format: {}-bad", oid)),
        _ => panic!("expected a bad request"),
    }
}

#[test]
fn error_answers_have_status_codes() {
    assert_eq!(AppError::Storage(StorageError::NotFound("x".to_string())).status_and_message(), (404, "x".to_string()));
    assert_eq!(AppError::Storage(StorageError::Internal("y".to_string())).status_and_message(), (500, "Internal error: y".to_string()));
    assert_eq!(AppError::BadRequest("z".to_string()).status_and_message().0, 400);
    assert_eq!(
        AppError::Template("boom\ncaused by: deeper".to_string()).status_and_message(),
        (500, "Template rendering error: boom\ncaused by: deeper".to_string())
    );
    assert_eq!(AuthError::InvalidApiKey.status_and_message(), (401, "Invalid API key"));
    assert_eq!(AuthError::InvalidSecretLength { min_length: 16 }.status_and_message().0, 500);
}

#[test]
fn mime_types_are_guessed_from_content() {
    assert_eq!(guess_mime_type(b"[1]"), "application/json");
    assert_eq!(guess_mime_type(b"plain"), "text/plain");
    assert_eq!(guess_mime_type(&[0xff]), "application/octet-stream");
    assert!(is_blob_size(65537));
    assert!(!is_blob_size(65536));
    assert!(!is_blob_size(65535));
}

#[test]
fn uploads_are_matched_to_observations() {
    let obs = observation(10);
    let oid = obs.id.to_string();
    let big = vec![b'a'; 70000];
    let mut parts = vec![
        (format!("{}:note", oid), b"hello".to_vec()),
        ("ffffffffffffffffffffffffffffffff:x".to_string(), b"other".to_vec()),
        (format!("{}:blob", oid), big.clone()),
    ];
    let manifest = vec![];
    let payloads = collect_observation_payloads(&obs, &mut parts, &manifest).ok().unwrap();
    assert_eq!(parts.len(), 1);
    assert_eq!(payloads.len(), 2);
    assert_eq!(payloads[0].0.name, "note");
    assert_eq!(payloads[0].0.mime_type, "text/plain");
    assert!(payloads[0].1.is_none());
    assert!(matches!(payloads[1].0.data, PayloadData::Blob));
    assert_eq!(payloads[1].1.as_ref().unwrap().len(), 70000);
    let mut none: Vec<(String, Vec<u8>)> = Vec::new();
    match collect_observation_payloads(&obs, &mut none, &manifest) {
        Err(AppError::BadRequest(m)) => assert_eq!(m, format!("Missing payload data for observation ID {}", oid)),
        _ => panic!("expected a bad request"),
    }
    let pid = "018e9a3a2c1b7e3f8d2a4b5c6d7e8f9c";
    let manifest = vec![PayloadManifestEntry { observation_id: oid.clone(), payload_id: pid.to_string(), name: "b".to_string(), mime_type: "image/png".to_string(), size: 3 }];
    let mut parts = vec![(format!("{}:{}:b", oid, pid), b"abc".to_vec())];
    let payloads = collect_observation_payloads(&obs, &mut parts, &manifest).ok().unwrap();
    assert_eq!(payloads[0].0.mime_type, "image/png");
    let edge = vec![b'a'; 65536];
    let mut parts = vec![(format!("{}:edge", oid), edge.clone())];
    let payloads = collect_observation_payloads(&obs, &mut parts, &manifest).ok().unwrap();
    assert!(payloads[0].1.is_none());
    assert_eq!(payloads[0].0.size, 65536);
    match &payloads[0].0.data {
        PayloadData::Inline(d) => assert_eq!(d, &edge),
        _ => panic!("expected inline data"),
    }
    assert_eq!(key_head_text("a:b:c"), "a");
}

#[test]
fn api_keys_validate_only_under_their_secret() {
    assert!(matches!(ApiKeySecret::new("short"), Err(AuthError::InvalidSecretLength { min_length: 16 })));
    let secret = ApiKeySecret::new("0123456789abcdef").ok().unwrap();
    let other = ApiKeySecret::new("fedcba9876543210").ok().unwrap();
    let key = generate_api_key(&secret).ok().unwrap();
    assert!(key.starts_with("obs_"));
    assert_eq!(validate_api_key(&key, &secret), Ok(()));
    assert_eq!(validate_api_key(&key, &other), Err(AuthError::InvalidApiKey));
    assert_eq!(validate_api_key("obs_abc", &secret), Err(AuthError::InvalidApiKey));
    assert_eq!(validate_api_key("key", &secret), Err(AuthError::InvalidApiKey));
    let mut tampered = key.clone();
    let last = tampered.pop().unwrap();
    tampered.push(if last == 'A' { 'B' } else { 'A' });
    assert_eq!(validate_api_key(&tampered, &secret), Err(AuthError::InvalidApiKey));
}

#[test]
fn authorization_headers_are_checked() {
    let secret = ApiKeySecret::new("0123456789abcdef").ok().unwrap();
    let key = generate_api_key(&secret).ok().unwrap();
    assert_eq!(check_authorization(&None, None), Ok(()));
    let s = Some(secret);
    assert_eq!(check_authorization(&s, None), Err(AuthError::MissingAuthHeader));
    assert_eq!(check_authorization(&s, Some(None)), Err(AuthError::InvalidAuthFormat));
    assert_eq!(check_authorization(&s, Some(Some(key.clone()))), Err(AuthError::InvalidAuthFormat));
    assert_eq!(check_authorization(&s, Some(Some(format!("Bearer {}", key)))), Ok(()));
}

#[test]
fn providers_parse_in_any_case() {
    assert_eq!(Provider::parse("GitHub"), Ok(Provider::GitHub));
    assert_eq!(Provider::parse("google"), Ok(Provider::Google));
    assert_eq!(Provider::parse("x"), Err("Unknown provider: x".to_string()));
    assert_eq!(Provider::GitHub.as_str(), "github");
    assert_eq!(social_account_key(Provider::Google, "42"), "google:42");
    assert_eq!(Provider::Google.scopes(), vec!["openid", "email", "profile"]);
}

#[test]
fn google_user_info_needs_id_and_email() {
    let data = JsonValue::Object(vec![
        ("email".to_string(), JsonValue::Str("a@b".to_string())),
        ("id".to_string(), JsonValue::Str("7".to_string())),
        ("picture".to_string(), JsonValue::Str("p".to_string())),
    ]);
    let info = parse_google_user_info(&data).ok().unwrap();
    assert_eq!(info.provider_user_id, "7");
    assert_eq!(info.avatar_url, Some("p".to_string()));
    assert!(info.name.is_none());
    let missing = JsonValue::Object(vec![("id".to_string(), JsonValue::Str("7".to_string()))]);
    assert_eq!(parse_google_user_info(&missing).err(), Some("Missing email".to_string()));
}

#[test]
fn csrf_checks_only_state_changes_with_cookie() {
    assert!(is_checked_method("POST"));
    assert!(!is_checked_method("GET"));
    assert_eq!(csrf_decision("GET", Some("a".into()), None), CsrfDecision::Allow);
    assert_eq!(csrf_decision("POST", None, None), CsrfDecision::Allow);
    assert_eq!(
        csrf_decision("POST", Some("a".into()), None),
        CsrfDecision::Forbidden("CSRF token missing in request header. Please include X-CSRF-Token header.".to_string())
    );
    assert_eq!(csrf_decision("DELETE", Some("a".into()), Some("a".into())), CsrfDecision::Allow);
    assert_eq!(
        csrf_decision("PATCH", Some("a".into()), Some("b".into())),
        CsrfDecision::Forbidden("CSRF token mismatch. Please refresh the page and try again.".to_string())
    );
    assert_eq!(csrf_cookie_token(Some("x=1; csrf_token=abc; y=2")), Some("abc".to_string()));
    assert_eq!(csrf_cookie_token(Some("x=1")), None);
    assert_eq!(csrf_cookie_token(None), None);
    let (token, cookie) = issue_csrf_token();
    assert_eq!(token.0.len(), 32);
    assert!(cookie.starts_with(&format!("csrf_token={}", token.0)));
    assert!(cookie.contains("HttpOnly"));
    assert!(cookie.contains("SameSite=Strict"));
    assert!(cookie.contains("Path=/"));
}

fn query(expanded: Option<&str>, extra: Vec<(&str, &str)>) -> PayloadTreeQuery {
    PayloadTreeQuery {
        focus: None,
        expanded: expanded.map(|s| s.to_string()),
        obs: None,
        extra: extra.into_iter().map(|(k, v)| (k.to_string(), v.to_string())).collect(),
    }
}

#[test]
fn expanded_sets_are_sorted_and_deduplicated() {
    let q = query(Some("b,,a,b"), vec![]);
    let mut set = q.expanded_set();
    set.sort();
    assert_eq!(set, vec!["a".to_string(), "b".to_string()]);
    assert_eq!(q.expanded_with("c"), "a,b,c");
    assert_eq!(q.expanded_with("a"), "a,b");
    assert_eq!(q.expanded_without("b"), "a");
    assert_eq!(query(None, vec![]).expanded_with("x"), "x");
    assert_eq!(query(None, vec![]).expanded_without("x"), "");
}

#[test]
fn page_tokens_are_found_by_group() {
    let q = query(None, vec![("page.g1", "t1"), ("other", "v"), ("page._root_", "t0")]);
    assert_eq!(q.page_token_for(&None), Some("t0".to_string()));
    assert_eq!(q.page_token_for(&Some(observation_tools::ids::GroupId::from("g1".to_string()))), Some("t1".to_string()));
    assert_eq!(q.page_tokens().len(), 2);
}

#[test]
fn tree_urls_list_parameters_in_order() {
    assert_eq!(build_tree_url("e", None, None, None, &vec![]), "/exe/e/payload");
    assert_eq!(
        build_tree_url("e", Some("f"), Some(""), Some("o"), &vec![("page.g".to_string(), "t".to_string())]),
        "/exe/e/payload?focus=f&obs=o&page.g=t"
    );
    let mut q = query(Some("b"), vec![("page.g", "t")]);
    q.obs = Some("o".to_string());
    let ctx = UrlContext::new(ExecutionId(1), &q);
    let e = "00000000000000000000000000000001";
    assert_eq!(ctx.expand_url("a"), format!("/exe/{}/payload?expanded=a,b&obs=o&page.g=t", e));
    assert_eq!(ctx.collapse_url("b"), format!("/exe/{}/payload?obs=o&page.g=t", e));
    assert_eq!(ctx.focus_url("g"), format!("/exe/{}/payload?focus=g&obs=o", e));
    assert_eq!(ctx.select_url("x"), format!("/exe/{}/payload?expanded=b&obs=x&page.g=t", e));
    assert_eq!(ctx.root_url(), format!("/exe/{}/payload?obs=o", e));
    assert_eq!(ctx.close_url(), format!("/exe/{}/payload?expanded=b&page.g=t", e));
}

#[test]
fn pagination_views_link_neighbouring_pages() {
    let q = query(None, vec![("page.g", "old"), ("page.h", "t")]);
    let info = observation_tools::storage::PaginationInfo { item_count: 3, previous_page_token: None, next_page_token: Some("n".to_string()) };
    let v = to_pagination_view(&info, ExecutionId(1), &Some(observation_tools::ids::GroupId::from("g".to_string())), &q).unwrap();
    assert_eq!(v.item_count, 3);
    assert!(v.prev.is_none());
    assert_eq!(v.next, Some("/exe/00000000000000000000000000000001/payload?page.h=t&page.g=n".to_string()));
    let none = observation_tools::storage::PaginationInfo { item_count: 3, previous_page_token: None, next_page_token: None };
    assert!(to_pagination_view(&none, ExecutionId(1), &None, &q).is_none());
}

#[test]
fn breadcrumbs_run_from_the_root_to_the_parent() {
    let mut q = query(None, vec![]);
    q.focus = Some("c".to_string());
    assert_eq!(focus_group(&q).unwrap().as_str(), "c");
    let ctx = UrlContext::new(ExecutionId(1), &q);
    let mut trail = BreadcrumbTrail::new(Some(observation_tools::ids::GroupId::from("b".to_string())));
    let id = trail.next_lookup().unwrap();
    assert_eq!(id.as_str(), "b");
    trail.on_found(Some(("B".to_string(), Some(observation_tools::ids::GroupId::from("a".to_string())))));
    assert_eq!(trail.next_lookup().unwrap().as_str(), "a");
    trail.on_found(Some(("A".to_string(), None)));
    assert!(trail.next_lookup().is_none());
    let crumbs = trail.finish(&ctx);
    let names: Vec<&str> = crumbs.iter().map(|c| c.name.as_str()).collect();
    assert_eq!(names, vec!["root", "A", "B"]);
    assert_eq!(crumbs[1].url, "/exe/00000000000000000000000000000001/payload?focus=a");
    let mut empty = query(None, vec![]);
    empty.focus = Some(String::new());
    assert!(focus_group(&empty).is_none());
}

#[test]
fn expanding_then_collapsing_reads_back() {
    let q = query(Some("b,,a"), vec![]);
    let expanded = q.expanded_with("c");
    let q2 = query(Some(&expanded), vec![]);
    let mut set = q2.expanded_set();
    set.sort();
    assert_eq!(set, vec!["a".to_string(), "b".to_string(), "c".to_string()]);
    let collapsed = q2.expanded_without("a");
    let q3 = query(Some(&collapsed), vec![]);
    let mut set = q3.expanded_set();
    set.sort();
    assert_eq!(set, vec!["b".to_string(), "c".to_string()]);
}
