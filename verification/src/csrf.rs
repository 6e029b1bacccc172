//! Protection against cross-site request forgery, in a lenient form: a
//! state-changing request that carries the CSRF cookie must carry the same
//! token in the `x-csrf-token` header; requests without the cookie
//! (programmatic clients) pass.

use vstd::prelude::*;
use crate::ids::uuid_text;
use axum_extra::extract::cookie::{Cookie, SameSite};

verus! {

/// The name of the cookie that holds the token.
pub const CSRF_COOKIE_NAME: &'static str = "csrf_token";

/// The header that must repeat the token.
pub const CSRF_HEADER_NAME: &'static str = "x-csrf-token";

/// The items of a `Cookie` header as `Cookie::split_parse` reads them: a
/// name and value for each pair it parses, `None` for each it cannot.
pub uninterp spec fn cookie_items(header: Seq<char>) -> Seq<Option<(Seq<char>, Seq<char>)>>;

/// The `SameSite` attribute of a cookie.
#[derive(Debug, Clone, Copy, PartialEq, Eq, Structural)]
pub enum SameSitePolicy {
    /// `SameSite=Strict`: sent on same-site requests only.
    Strict,
    /// `SameSite=Lax`: also sent on top-level navigations from elsewhere.
    Lax,
    /// `SameSite=None`: sent on cross-site requests too.
    Unrestricted,
}

/// The `Set-Cookie` value that `Cookie::build` gives for a cookie with this
/// name, value, path, `SameSite` attribute and `HttpOnly` flag.
pub uninterp spec fn cookie_text(
    name: Seq<char>,
    value: Seq<char>,
    path: Seq<char>,
    same_site: SameSitePolicy,
    http_only: bool,
) -> Seq<char>;

/// `Cookie::split_parse` over a `Cookie` header, each item as its name and
/// value, or `None` where it does not parse.
#[verifier::external_body]
fn split_cookies(header: &str) -> (r: Vec<Option<(String, String)>>)
    ensures
        r@.len() == cookie_items(header@).len(),
        forall|i: int|
            0 <= i < r@.len() ==> #[trigger] cookie_items(header@)[i] == match r@[i] {
                Some((n, v)) => Some((n@, v@)),
                None => None,
            },
{
    Cookie::split_parse(header).map(|item| match item {
        Ok(c) => Some((c.name().to_owned(), c.value().to_owned())),
        Err(_) => None,
    }).collect()
}

/// `Cookie::build` of a cookie with a path, a `SameSite` attribute and an
/// `HttpOnly` flag, shown as a `Set-Cookie` value. The text is named, not
/// stated.
#[verifier::external_body]
fn build_cookie(name: &str, value: &str, path: &str, same_site: SameSitePolicy, http_only: bool) -> (r:
    String)
    ensures
        r@ == cookie_text(name@, value@, path@, same_site, http_only),
{
    let policy = match same_site {
        SameSitePolicy::Strict => SameSite::Strict,
        SameSitePolicy::Lax => SameSite::Lax,
        SameSitePolicy::Unrestricted => SameSite::None,
    };
    Cookie::build((name.to_owned(), value.to_owned())).path(path.to_owned()).same_site(policy).http_only(
        http_only,
    ).build().to_string()
}

/// A random token: a version-4 UUID in simple form.
fn random_token() -> (r: String)
    ensures
        exists|v: u128| r@ == uuid_text(v),
{
    crate::ids::uuid_simple_string(crate::auth::random_uuid_value())
}

/// The token of the first cookie named `csrf_token` among the items.
pub open spec fn token_in(items: Seq<Option<(Seq<char>, Seq<char>)>>) -> Option<Seq<char>>
    decreases items.len(),
{
    if items.len() == 0 {
        None
    } else {
        match items[0] {
            Some((n, v)) => if n == "csrf_token"@ {
                Some(v)
            } else {
                token_in(items.drop_first())
            },
            None => token_in(items.drop_first()),
        }
    }
}

/// The CSRF token of a request's `Cookie` header (where it has one that is
/// text).
pub fn csrf_cookie_token(header: Option<&str>) -> (r: Option<String>)
    ensures
        match header {
            None => r is None,
            Some(h) => match r {
                Some(t) => token_in(cookie_items(h@)) == Some(t@),
                None => token_in(cookie_items(h@)) is None,
            },
        },
{
    let h = match header {
        Some(h) => h,
        None => {
            return None;
        },
    };
    let items = split_cookies(h);
    let ghost all = cookie_items(h@);
    let name = CSRF_COOKIE_NAME.to_owned();
    let mut i: usize = 0;
    assert(all.skip(0) =~= all);
    while i < items.len()
        invariant
            i <= items.len(),
            items@.len() == all.len(),
            all == cookie_items(h@),
            header == Some(h),
            name@ == "csrf_token"@,
            forall|k: int|
                0 <= k < items@.len() ==> #[trigger] all[k] == match items@[k] {
                    Some((n, v)) => Some((n@, v@)),
                    None => None,
                },
            token_in(all) == token_in(all.skip(i as int)),
        decreases items.len() - i,
    {
        let ghost rest = all.skip(i as int);
        assert(rest[0] == all[i as int]);
        assert(rest.drop_first() =~= all.skip(i + 1));
        match &items[i] {
            Some((n, v)) => {
                if *n == name {
                    return Some(v.clone());
                }
            },
            None => {},
        }
        i = i + 1;
    }
    None
}

/// Whether requests of this method are checked: `POST`, `PUT`, `DELETE`,
/// `PATCH`.
pub fn is_checked_method(method: &str) -> (r: bool)
    ensures
        r == (method@ == "POST"@ || method@ == "PUT"@ || method@ == "DELETE"@ || method@ == "PATCH"@),
{
    let m = method.to_owned();
    m == "POST".to_owned() || m == "PUT".to_owned() || m == "DELETE".to_owned() || m == "PATCH".to_owned()
}

/// What happens to a request.
#[derive(Debug, Clone, PartialEq, Eq)]
pub enum CsrfDecision {
    /// It goes on.
    Allow,
    /// It is refused with status 403 and this message.
    Forbidden(String),
}

/// The decision for a request: requests of other methods, and requests
/// without the cookie, go on; with the cookie, the header must be present
/// and equal to it.
pub fn csrf_decision(method: &str, cookie_token: Option<String>, header_token: Option<String>) -> (r:
    CsrfDecision)
    ensures
        !(method@ == "POST"@ || method@ == "PUT"@ || method@ == "DELETE"@ || method@ == "PATCH"@) ==> r
            == CsrfDecision::Allow,
        (method@ == "POST"@ || method@ == "PUT"@ || method@ == "DELETE"@ || method@ == "PATCH"@) ==> match (
            cookie_token,
            header_token,
        ) {
            (None, _) => r == CsrfDecision::Allow,
            (Some(_), None) => r matches CsrfDecision::Forbidden(m) && m@
                == "CSRF token missing in request header. Please include X-CSRF-Token header."@,
            (Some(c), Some(h)) => if c@ == h@ {
                r == CsrfDecision::Allow
            } else {
                r matches CsrfDecision::Forbidden(m) && m@
                    == "CSRF token mismatch. Please refresh the page and try again."@
            },
        },
{
    if !is_checked_method(method) {
        return CsrfDecision::Allow;
    }
    match (cookie_token, header_token) {
        (None, _) => CsrfDecision::Allow,
        (Some(_), None) => CsrfDecision::Forbidden(
            "CSRF token missing in request header. Please include X-CSRF-Token header.".to_owned(),
        ),
        (Some(c), Some(h)) => {
            if c == h {
                CsrfDecision::Allow
            } else {
                CsrfDecision::Forbidden("CSRF token mismatch. Please refresh the page and try again.".to_owned())
            }
        },
    }
}

/// The CSRF token of a rendered page.
#[derive(Debug, Clone)]
pub struct CsrfToken(pub String);

/// A fresh token and the `Set-Cookie` value that gives it to the browser:
/// the cookie `csrf_token` with path `/`, `SameSite=Strict` and `HttpOnly`.
pub fn issue_csrf_token() -> (r: (CsrfToken, String))
    ensures
        exists|v: u128| r.0.0@ == uuid_text(v),
        r.1@ == cookie_text(CSRF_COOKIE_NAME@, r.0.0@, "/"@, SameSitePolicy::Strict, true),
{
    let token = random_token();
    let cookie = build_cookie(CSRF_COOKIE_NAME, token.as_str(), "/", SameSitePolicy::Strict, true);
    (CsrfToken(token), cookie)
}

} // verus!
