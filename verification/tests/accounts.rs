use observation_tools::accounts::{
    callback_provider, check_oauth_state, github_public_email, github_user_info, oauth_csrf_cookie_name,
    primary_email, Session, SocialAccount, User, UserLookup, UserResolution, SESSION_DAYS,
};
use observation_tools::auth::{OAuthUserInfo, Provider};
use observation_tools::json::JsonValue;
use observation_tools::model::Timestamp;

fn obj(entries: Vec<(&str, JsonValue)>) -> JsonValue {
    let mut e: Vec<(String, JsonValue)> = entries.into_iter().map(|(k, v)| (k.to_string(), v)).collect();
    e.sort_by(|a, b| a.0.cmp(&b.0));
    JsonValue::Object(e)
}

fn s(t: &str) -> JsonValue {
    JsonValue::Str(t.to_string())
}

fn info() -> OAuthUserInfo {
    OAuthUserInfo {
        provider_user_id: "42".to_string(),
        email: "ada@example.com".to_string(),
        name: Some("Ada".to_string()),
        avatar_url: None,
    }
}

#[test]
fn github_user_ids_are_decimal_text() {
    let user = obj(vec![("id", JsonValue::Int(42)), ("name", s("Ada")), ("avatar_url", s("https://a/x.png"))]);
    let u = github_user_info(&user, "ada@example.com".to_string()).unwrap();
    assert_eq!(u.provider_user_id, "42");
    assert_eq!(u.email, "ada@example.com");
    assert_eq!(u.name.as_deref(), Some("Ada"));
    assert_eq!(u.avatar_url.as_deref(), Some("https://a/x.png"));

    let big = obj(vec![("id", JsonValue::Float("18446744073709551615".to_string()))]);
    assert_eq!(github_user_info(&big, String::new()).unwrap().provider_user_id, "18446744073709551615");

    for bad in [obj(vec![]), obj(vec![("id", s("42"))]), obj(vec![("id", JsonValue::Int(-1))]), obj(vec![("id", JsonValue::Float("1.5".to_string()))])] {
        assert_eq!(github_user_info(&bad, String::new()).unwrap_err(), "Missing user ID");
    }
}

#[test]
fn github_emails_prefer_the_public_one_then_the_first_primary() {
    assert_eq!(github_public_email(&obj(vec![("email", s("a@b.c"))])).as_deref(), Some("a@b.c"));
    assert!(github_public_email(&obj(vec![("email", JsonValue::Null)])).is_none());

    let emails = vec![
        obj(vec![("email", s("x@b.c")), ("primary", JsonValue::Bool(false))]),
        obj(vec![("email", s("y@b.c")), ("primary", JsonValue::Bool(true))]),
        obj(vec![("email", s("z@b.c")), ("primary", JsonValue::Bool(true))]),
    ];
    assert_eq!(primary_email(&emails).unwrap(), "y@b.c");
    let none = vec![obj(vec![("email", s("x@b.c"))])];
    assert_eq!(primary_email(&none).unwrap_err(), "No primary email found");
    let first_without_email = vec![obj(vec![("primary", JsonValue::Bool(true))]), obj(vec![("email", s("y@b.c")), ("primary", JsonValue::Bool(true))])];
    assert_eq!(primary_email(&first_without_email).unwrap_err(), "No primary email found");
}

#[test]
fn oauth_callbacks_check_provider_and_state() {
    assert_eq!(callback_provider("GitHub").unwrap(), Provider::GitHub);
    assert_eq!(callback_provider("gitlab").unwrap_err(), (400, "Invalid provider"));
    assert_eq!(oauth_csrf_cookie_name(Provider::Google), "oauth_csrf_google");
    assert_eq!(check_oauth_state(None, Some("t".to_string())).unwrap_err(), (400, "Missing CSRF token"));
    assert_eq!(check_oauth_state(Some("t".to_string()), Some("u".to_string())).unwrap_err(), (400, "Invalid CSRF token"));
    assert!(check_oauth_state(Some("t".to_string()), Some("t".to_string())).is_ok());
    assert!(check_oauth_state(Some("t".to_string()), None).is_ok());
}

#[test]
fn a_linked_account_keeps_its_user_and_takes_the_new_token() {
    let mut r = UserResolution::new(Provider::GitHub, info(), "token-2".to_string());
    match r.next_lookup() {
        UserLookup::Account(k) => assert_eq!(k, "github:42"),
        other => panic!("unexpected {:?}", other),
    }
    let user = User::new("ada@example.com".to_string(), None, None);
    let mut account = SocialAccount::new(user.id, Provider::GitHub, "42".to_string(), "ada@example.com".to_string(), None, None, Some("token-1".to_string()), None);
    account.refresh_token = Some("r".to_string());
    r.on_account(Some(account));
    match r.next_lookup() {
        UserLookup::User(id) => assert_eq!(id, user.id),
        other => panic!("unexpected {:?}", other),
    }
    let now = Timestamp::from_parts(2_000_000_000, 0).unwrap();
    let linked = r.on_user(Some(user.clone()), now).unwrap();
    assert_eq!(linked.user.id, user.id);
    assert!(!linked.new_user);
    assert_eq!(linked.account.access_token.as_deref(), Some("token-2"));
    assert_eq!(linked.account.refresh_token.as_deref(), Some("r"));
    assert_eq!(linked.account.updated_at, now);
    assert!(matches!(r.next_lookup(), UserLookup::Done));
}

#[test]
fn without_a_link_the_user_is_found_by_email_or_made() {
    let mut r = UserResolution::new(Provider::Google, info(), "tok".to_string());
    r.on_account(None);
    match r.next_lookup() {
        UserLookup::Email(e) => assert_eq!(e, "ada@example.com"),
        other => panic!("unexpected {:?}", other),
    }
    let linked = r.on_email_user(None);
    assert!(linked.new_user);
    assert_eq!(linked.user.email, "ada@example.com");
    assert_eq!(linked.user.name.as_deref(), Some("Ada"));
    assert_eq!(linked.account.user_id, linked.user.id);
    assert_eq!(linked.account.key(), "google:42");
    assert_eq!(linked.account.access_token.as_deref(), Some("tok"));
    assert!(linked.account.refresh_token.is_none());

    let existing = User::new("ada@example.com".to_string(), None, None);
    let mut r = UserResolution::new(Provider::Google, info(), "tok".to_string());
    r.on_account(None);
    let linked = r.on_email_user(Some(existing.clone()));
    assert!(!linked.new_user);
    assert_eq!(linked.user.id, existing.id);
    assert_eq!(linked.account.user_id, existing.id);
}

#[test]
fn a_dangling_link_falls_back_to_the_email() {
    let mut r = UserResolution::new(Provider::Google, info(), "tok".to_string());
    let account = SocialAccount::new(7, Provider::Google, "42".to_string(), "ada@example.com".to_string(), None, None, None, None);
    r.on_account(Some(account));
    assert!(r.on_user(None, Timestamp::now()).is_none());
    assert!(matches!(r.next_lookup(), UserLookup::Email(_)));
}

#[test]
fn sessions_last_their_days() {
    let s = Session::new(9, SESSION_DAYS).unwrap();
    assert_eq!(s.user_id, 9);
    assert_eq!(s.expires_at.secs() - s.created_at.secs(), 30 * 86400);
    assert_eq!(s.id.len(), 43);
    assert!(!s.is_expired());
    assert!(!s.is_expired_at(s.expires_at));
    let later = Timestamp::from_parts(s.expires_at.secs(), s.expires_at.nanos() + 1).unwrap();
    assert!(s.is_expired_at(later));
    assert!(Session::new(9, i64::MAX).is_none());
}

#[test]
fn user_keys_use_the_hyphenated_form() {
    let id: u128 = 0x0123456789abcdef0123456789abcdef;
    assert_eq!(observation_tools::accounts::user_key(id), "01234567-89ab-cdef-0123-456789abcdef");
    assert_eq!(
        observation_tools::accounts::user_account_index_key(id, "github:42"),
        "01234567-89ab-cdef-0123-456789abcdef:github:42"
    );
    assert_eq!(observation_tools::accounts::user_account_index_prefix(id), "01234567-89ab-cdef-0123-456789abcdef:");
    assert_eq!(observation_tools::accounts::parse_user_id("01234567-89ab-cdef-0123-456789abcdef"), Some(id));
    assert_eq!(observation_tools::accounts::parse_user_id("0123456789abcdef0123456789abcdef"), Some(id));
    assert_eq!(observation_tools::accounts::parse_user_id("not-a-uuid"), None);
}

#[test]
fn sessions_start_at_the_given_instant() {
    let start = Timestamp::from_parts(1_700_000_000, 5).unwrap();
    let s = Session::starting_at(3, start, 30, "abc".to_string()).unwrap();
    assert_eq!(s.user_id, 3);
    assert_eq!(s.id, "abc");
    assert_eq!(s.created_at, start);
    assert_eq!(s.expires_at.secs(), 1_700_000_000 + 30 * 86400);
    assert_eq!(s.expires_at.nanos(), 5);
    let back = Session::starting_at(3, start, -1, "abc".to_string()).unwrap();
    assert_eq!(back.expires_at.secs(), 1_700_000_000 - 86400);
    assert!(Session::starting_at(3, start, i64::MAX, "abc".to_string()).is_none());
    assert!(Session::starting_at(3, start, 1_000_000_000_000, "abc".to_string()).is_none());
}
