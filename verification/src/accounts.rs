//! Signed-in users: their accounts, the provider accounts linked to them
//! and their sessions; the checks of the OAuth callback; the linking of a
//! provider's user to an account; and the reading of GitHub's answers.

use vstd::prelude::*;
use crate::auth::{
    OAuthUserInfo, Provider, base64_url_bytes, base64_url_encode, json_str_field, keys_distinct,
    provider_name, random_uuid_value, social_account_key, str_field,
};
use crate::json::{Json, JsonValue, entries_model, int_decimal, lemma_object_model, values_model};
use crate::ids::{uuid_hyphenated, uuid_hyphenated_string, uuid_parse, uuid_parse_value};
use crate::model::{Timestamp, rfc3339_text};
use crate::text::concat;

verus! {

broadcast use vstd::std_specs::vec::group_vec_axioms;

/// The name of the cookie that holds a session id.
pub const SESSION_COOKIE_NAME: &'static str = "session_id";

/// How long a session lasts, in days.
pub const SESSION_DAYS: i64 = 30;

/// `rand::thread_rng().gen::<[u8; 32]>()`: 32 random bytes. Only their
/// number is stated.
#[verifier::external_body]
fn random_bytes_32() -> (r: Vec<u8>)
    ensures
        r@.len() == 32,
{
    let b: [u8; 32] = rand::Rng::gen(&mut rand::thread_rng());
    b.to_vec()
}

/// A user account.
#[derive(Debug, Clone)]
pub struct User {
    pub id: u128,
    pub email: String,
    pub name: Option<String>,
    pub avatar_url: Option<String>,
    pub created_at: Timestamp,
}

impl User {
    /// A new user, with a random id, created now.
    pub fn new(email: String, name: Option<String>, avatar_url: Option<String>) -> (r: Self)
        ensures
            r.email@ == email@,
            r.name == name,
            r.avatar_url == avatar_url,
    {
        User { id: random_uuid_value(), email, name, avatar_url, created_at: Timestamp::now() }
    }
}

/// An account of a sign-in provider, linked to a user.
#[derive(Debug, Clone)]
pub struct SocialAccount {
    pub user_id: u128,
    pub provider: Provider,
    pub provider_user_id: String,
    pub email: String,
    pub name: Option<String>,
    pub avatar_url: Option<String>,
    pub access_token: Option<String>,
    pub refresh_token: Option<String>,
    pub created_at: Timestamp,
    pub updated_at: Timestamp,
}

impl SocialAccount {
    /// A linked account created now.
    pub fn new(
        user_id: u128,
        provider: Provider,
        provider_user_id: String,
        email: String,
        name: Option<String>,
        avatar_url: Option<String>,
        access_token: Option<String>,
        refresh_token: Option<String>,
    ) -> (r: Self)
        ensures
            r.user_id == user_id,
            r.provider == provider,
            r.provider_user_id@ == provider_user_id@,
            r.email@ == email@,
            r.name == name,
            r.avatar_url == avatar_url,
            r.access_token == access_token,
            r.refresh_token == refresh_token,
            r.created_at == r.updated_at,
    {
        let now = Timestamp::now();
        SocialAccount {
            user_id,
            provider,
            provider_user_id,
            email,
            name,
            avatar_url,
            access_token,
            refresh_token,
            created_at: now,
            updated_at: now,
        }
    }

    /// The account's key: `{provider}:{provider_user_id}`.
    pub fn key(&self) -> (r: String)
        ensures
            r@ == provider_name(self.provider) + ":"@ + self.provider_user_id@,
    {
        social_account_key(self.provider, self.provider_user_id.as_str())
    }
}

/// The key of a user in the users tree: the id in hyphenated form.
pub fn user_key(user_id: u128) -> (r: String)
    ensures
        r@ == uuid_hyphenated(user_id),
{
    uuid_hyphenated_string(user_id)
}

/// The user id that a stored text names, in any form `Uuid::parse_str`
/// reads.
pub fn parse_user_id(s: &str) -> (r: Option<u128>)
    ensures
        r == uuid_parse_value(s@),
{
    match uuid_parse(s) {
        Ok(v) => Some(v),
        Err(_) => None,
    }
}

/// The key of the index of a user's linked accounts:
/// `{user_id}:{account_key}`, the user id in hyphenated form.
pub fn user_account_index_key(user_id: u128, account_key: &str) -> (r: String)
    ensures
        r@ == uuid_hyphenated(user_id) + ":"@ + account_key@,
{
    let mut r = uuid_hyphenated_string(user_id);
    crate::text::push_str(&mut r, ":");
    crate::text::push_str(&mut r, account_key);
    proof {
        reveal_strlit(":");
    }
    r
}

/// The prefix of the index keys of a user's linked accounts.
pub fn user_account_index_prefix(user_id: u128) -> (r: String)
    ensures
        r@ == uuid_hyphenated(user_id) + ":"@,
{
    let mut r = uuid_hyphenated_string(user_id);
    crate::text::push_str(&mut r, ":");
    r
}

/// `a` is a later instant than `b`.
pub open spec fn later(a: Timestamp, b: Timestamp) -> bool {
    a.spec_secs() > b.spec_secs() || (a.spec_secs() == b.spec_secs() && a.spec_nanos() > b.spec_nanos())
}

/// The seconds of `days` days.
pub open spec fn day_seconds(days: int) -> int {
    days * 86400
}

/// An instant `days` days after the instant `(secs, nanos)` can be
/// represented.
pub open spec fn end_representable(secs: i64, nanos: u32, days: int) -> bool {
    let end = secs + day_seconds(days);
    &&& i64::MIN <= end <= i64::MAX
    &&& rfc3339_text(end as i64, nanos) is Some
}

/// A session of a user.
#[derive(Debug, Clone)]
pub struct Session {
    pub id: String,
    pub user_id: u128,
    pub created_at: Timestamp,
    pub expires_at: Timestamp,
}

impl Session {
    /// A session created now that lasts `duration_days` days, with an id
    /// that is the URL-safe base64 text of 32 random bytes. `None` where
    /// its end cannot be represented. What follows the clock and the random
    /// bytes is `starting_at`.
    pub fn new(user_id: u128, duration_days: i64) -> (r: Option<Session>)
        ensures
            r matches Some(s) ==> {
                &&& s.user_id == user_id
                &&& s.expires_at.spec_secs() == s.created_at.spec_secs() + day_seconds(duration_days as int)
                &&& s.expires_at.spec_nanos() == s.created_at.spec_nanos()
                &&& base64_url_bytes(s.id@) matches Some(b) && b.len() == 32
            },
            r is None ==> exists|secs: i64, nanos: u32|
                #![trigger rfc3339_text(secs, nanos)]
                rfc3339_text(secs, nanos) is Some && !end_representable(secs, nanos, duration_days as int),
    {
        let bytes = random_bytes_32();
        let id = base64_url_encode(bytes.as_slice());
        let now = Timestamp::now();
        let r = Session::starting_at(user_id, now, duration_days, id);
        proof {
            if r is None {
                assert(rfc3339_text(now.spec_secs(), now.spec_nanos()) is Some);
            }
        }
        r
    }

    /// The session of `user_id` with the id `id` that starts at `now` and
    /// lasts `duration_days` days; `None` exactly where its end cannot be
    /// represented.
    pub fn starting_at(user_id: u128, now: Timestamp, duration_days: i64, id: String) -> (r: Option<
        Session,
    >)
        ensures
            r is Some <==> end_representable(now.spec_secs(), now.spec_nanos(), duration_days as int),
            r matches Some(s) ==> {
                &&& s.user_id == user_id
                &&& s.created_at == now
                &&& s.expires_at.spec_secs() == now.spec_secs() + day_seconds(duration_days as int)
                &&& s.expires_at.spec_nanos() == now.spec_nanos()
                &&& s.id@ == id@
            },
            r is None ==> rfc3339_text(now.spec_secs(), now.spec_nanos()) is Some,
    {
        let secs = now.secs();
        let nanos = now.nanos();
        let end: i128 = secs as i128 + (duration_days as i128) * 86400;
        if end < i64::MIN as i128 || end > i64::MAX as i128 {
            return None;
        }
        let end = end as i64;
        let expires_at = match Timestamp::from_parts(end, nanos) {
            Some(t) => t,
            None => {
                return None;
            },
        };
        Some(Session { id, user_id, created_at: now, expires_at })
    }

    /// Whether the session has ended at `now`.
    pub fn is_expired_at(&self, now: Timestamp) -> (r: bool)
        ensures
            r == later(now, self.expires_at),
    {
        let (ns, es) = (now.secs(), self.expires_at.secs());
        ns > es || (ns == es && now.nanos() > self.expires_at.nanos())
    }

    /// Whether the session has ended: the current time is later than its
    /// end.
    pub fn is_expired(&self) -> (r: bool)
        ensures
            exists|now: Timestamp| r == later(now, self.expires_at),
    {
        let now = Timestamp::now();
        self.is_expired_at(now)
    }
}


// ---------------------------------------------------------------------------
// GitHub's answers
// ---------------------------------------------------------------------------

/// The value held under `key` in a JSON object, if any.
pub open spec fn json_field(v: Json, key: Seq<char>) -> Option<Json> {
    match v {
        Json::Object(entries) => if exists|i: int| 0 <= i < entries.len() && entries[i].0 == key {
            Some(entries[choose|i: int| 0 <= i < entries.len() && entries[i].0 == key].1)
        } else {
            None
        },
        _ => None,
    }
}

proof fn lemma_distinct_keys(m: Seq<(Seq<char>, Json)>, a: int, b: int)
    requires
        keys_distinct(Json::Object(m)),
        0 <= a < b < m.len(),
    ensures
        m[a].0 != m[b].0,
{
    let v = Json::Object(m);
    match v {
        Json::Object(e) => {
            assert(e == m);
            assert(forall|i: int, j: int| 0 <= i < j < e.len() ==> e[i].0 != e[j].0);
            assert(e[a].0 != e[b].0);
        },
        _ => {},
    }
}

fn field<'a>(v: &'a JsonValue, key: &str) -> (r: Option<&'a JsonValue>)
    requires
        keys_distinct(v.model()),
    ensures
        match r {
            Some(x) => json_field(v.model(), key@) == Some(x.model()),
            None => json_field(v.model(), key@) is None,
        },
{
    match v {
        JsonValue::Object(entries) => {
            proof {
                lemma_object_model(*entries);
            }
            let ghost m = entries_model(entries@);
            let kstr = key.to_owned();
            let mut i: usize = 0;
            while i < entries.len()
                invariant
                    i <= entries.len(),
                    m == entries_model(entries@),
                    v.model() == Json::Object(m),
                    keys_distinct(v.model()),
                    kstr@ == key@,
                    forall|k: int| 0 <= k < i ==> m[k].0 != key@,
                decreases entries.len() - i,
            {
                if entries[i].0 == kstr {
                    proof {
                        assert(m[i as int].0 == key@);
                        assert forall|c: int| 0 <= c < m.len() && #[trigger] m[c].0 == key@ implies c == i by {
                            if c > i {
                                lemma_distinct_keys(m, i as int, c);
                            }
                        }
                    }
                    return Some(&entries[i].1);
                }
                i = i + 1;
            }
            None
        },
        _ => None,
    }
}

/// A nonempty text of decimal digits.
pub open spec fn all_digits(t: Seq<char>) -> bool {
    t.len() > 0 && forall|i: int| 0 <= i < t.len() ==> '0' <= #[trigger] t[i] <= '9'
}

/// The decimal text of a JSON number that is an unsigned 64-bit integer
/// (one above the signed range is kept as its text).
pub open spec fn json_u64_text(v: Json) -> Option<Seq<char>> {
    match v {
        Json::Int(n) => if n >= 0 {
            Some(int_decimal(n))
        } else {
            None
        },
        Json::Float(t) => if all_digits(t) {
            Some(t)
        } else {
            None
        },
        _ => None,
    }
}

/// The unsigned integer held under `key`, as decimal text.
pub open spec fn json_u64_field(v: Json, key: Seq<char>) -> Option<Seq<char>> {
    match json_field(v, key) {
        Some(x) => json_u64_text(x),
        None => None,
    }
}

fn u64_text(v: &JsonValue) -> (r: Option<String>)
    ensures
        match r {
            Some(t) => json_u64_text(v.model()) == Some(t@),
            None => json_u64_text(v.model()) is None,
        },
{
    match v {
        JsonValue::Int(n) => {
            if *n >= 0 {
                let mut out: Vec<char> = Vec::new();
                crate::json::write_int(*n, &mut out);
                assert(out@ =~= int_decimal(*n as int));
                Some(crate::text::string_of(&out))
            } else {
                None
            }
        },
        JsonValue::Float(t) => {
            let cs = crate::text::chars_of(t.as_str());
            if cs.len() == 0 {
                return None;
            }
            let mut i: usize = 0;
            while i < cs.len()
                invariant
                    i <= cs.len(),
                    cs.len() > 0,
                    cs@ == t@,
                    v.model() == Json::Float(t@),
                    forall|k: int| 0 <= k < i ==> '0' <= #[trigger] cs@[k] <= '9',
                decreases cs.len() - i,
            {
                if cs[i] < '0' || cs[i] > '9' {
                    assert(!('0' <= t@[i as int] <= '9'));
                    return None;
                }
                i = i + 1;
            }
            Some(t.clone())
        },
        _ => None,
    }
}

/// The email in GitHub's user answer, where it is public.
pub fn github_public_email(user: &JsonValue) -> (r: Option<String>)
    requires
        keys_distinct(user.model()),
    ensures
        match r {
            Some(e) => json_str_field(user.model(), "email"@) == Some(e@),
            None => json_str_field(user.model(), "email"@) is None,
        },
{
    str_field(user, "email")
}

/// The entry is marked `"primary": true`.
pub open spec fn is_primary(e: Json) -> bool {
    json_field(e, "primary"@) == Some(Json::Bool(true))
}

/// The email of the first entry marked primary, where it has one.
pub open spec fn primary_email_of(es: Seq<Json>) -> Option<Seq<char>>
    decreases es.len(),
{
    if es.len() == 0 {
        None
    } else if is_primary(es[0]) {
        json_str_field(es[0], "email"@)
    } else {
        primary_email_of(es.drop_first())
    }
}

/// The email of the first entry marked primary in GitHub's list of a
/// user's emails.
pub fn primary_email(emails: &Vec<JsonValue>) -> (r: Result<String, String>)
    requires
        forall|i: int| 0 <= i < emails@.len() ==> keys_distinct(#[trigger] emails@[i].model()),
    ensures
        match primary_email_of(values_model(emails@)) {
            Some(e) => r matches Ok(x) && x@ == e,
            None => r matches Err(m) && m@ == "No primary email found"@,
        },
{
    let ghost ms = values_model(emails@);
    assert(ms.skip(0) =~= ms);
    let mut i: usize = 0;
    while i < emails.len()
        invariant
            i <= emails@.len(),
            ms == values_model(emails@),
            forall|k: int| 0 <= k < emails@.len() ==> keys_distinct(#[trigger] emails@[k].model()),
            primary_email_of(ms) == primary_email_of(ms.skip(i as int)),
        decreases emails.len() - i,
    {
        let e = &emails[i];
        assert(ms.skip(i as int)[0] == e.model());
        let primary = match field(e, "primary") {
            Some(JsonValue::Bool(b)) => *b,
            _ => false,
        };
        if primary {
            assert(is_primary(ms.skip(i as int)[0]));
            return match str_field(e, "email") {
                Some(x) => Ok(x),
                None => Err("No primary email found".to_owned()),
            };
        }
        assert(!is_primary(ms.skip(i as int)[0]));
        assert(ms.skip(i as int).drop_first() =~= ms.skip(i + 1));
        i = i + 1;
    }
    assert(ms.skip(i as int).len() == 0);
    Err("No primary email found".to_owned())
}

/// The user information in GitHub's user answer, with the user's email:
/// `id` must be an unsigned integer, whose decimal text is the user's id;
/// `name` and `avatar_url` are optional strings.
pub fn github_user_info(user: &JsonValue, email: String) -> (r: Result<OAuthUserInfo, String>)
    requires
        keys_distinct(user.model()),
    ensures
        json_u64_field(user.model(), "id"@) is None ==> (r matches Err(m) && m@ == "Missing user ID"@),
        json_u64_field(user.model(), "id"@) matches Some(id) ==> (r matches Ok(u) && {
            &&& u.provider_user_id@ == id
            &&& u.email@ == email@
            &&& json_str_field(user.model(), "name"@) == match u.name {
                Some(n) => Some(n@),
                None => None,
            }
            &&& json_str_field(user.model(), "avatar_url"@) == match u.avatar_url {
                Some(a) => Some(a@),
                None => None,
            }
        }),
{
    let id = match field(user, "id") {
        Some(v) => u64_text(v),
        None => None,
    };
    match id {
        Some(id) => Ok(
            OAuthUserInfo {
                provider_user_id: id,
                email,
                name: str_field(user, "name"),
                avatar_url: str_field(user, "avatar_url"),
            },
        ),
        None => Err("Missing user ID".to_owned()),
    }
}

// ---------------------------------------------------------------------------
// The OAuth callback
// ---------------------------------------------------------------------------

/// The provider named in the callback's path; an unknown one is refused
/// with status 400.
pub fn callback_provider(provider_str: &str) -> (r: Result<Provider, (u16, &'static str)>)
    ensures
        crate::auth::lowercase_text(provider_str@) == "google"@ ==> r == Ok::<Provider, (u16, &'static str)>(
            Provider::Google,
        ),
        crate::auth::lowercase_text(provider_str@) == "github"@ ==> r == Ok::<Provider, (u16, &'static str)>(
            Provider::GitHub,
        ),
        crate::auth::lowercase_text(provider_str@) != "google"@ && crate::auth::lowercase_text(provider_str@)
            != "github"@ ==> (r matches Err((c, m)) && c == 400 && m@ == "Invalid provider"@),
{
    match Provider::parse(provider_str) {
        Ok(p) => Ok(p),
        Err(_) => Err((400, "Invalid provider")),
    }
}

/// The name of the cookie that keeps the OAuth state token of a provider.
pub fn oauth_csrf_cookie_name(provider: Provider) -> (r: String)
    ensures
        r@ == "oauth_csrf_"@ + provider_name(provider),
{
    concat("oauth_csrf_", provider.as_str())
}

/// Tests the state a provider sends back: the token kept in the
/// cookie must be there, and a state, where one is sent, must equal it.
/// A failure is refused with status 400.
pub fn check_oauth_state(stored: Option<String>, state: Option<String>) -> (r: Result<
    (),
    (u16, &'static str),
>)
    ensures
        match (stored, state) {
            (None, _) => r matches Err((c, m)) && c == 400 && m@ == "Missing CSRF token"@,
            (Some(k), Some(t)) => if t@ == k@ {
                r is Ok
            } else {
                r matches Err((c, m)) && c == 400 && m@ == "Invalid CSRF token"@
            },
            (Some(_), None) => r is Ok,
        },
{
    match (stored, state) {
        (None, _) => Err((400, "Missing CSRF token")),
        (Some(k), Some(t)) => {
            if t == k {
                Ok(())
            } else {
                Err((400, "Invalid CSRF token"))
            }
        },
        (Some(_), None) => Ok(()),
    }
}

/// The next read of the linking of a provider's user to an account.
#[derive(Debug)]
pub enum UserLookup {
    /// The linked account under this key.
    Account(String),
    /// The user with this id.
    User(u128),
    /// The user with this email.
    Email(String),
    /// Nothing more.
    Done,
}

#[derive(Debug)]
enum Stage {
    Start,
    Linked(SocialAccount),
    ByEmail,
    Done,
}

/// What the linking stores and answers: the user; the user to store, where
/// it is new; and the linked account to store.
#[derive(Debug)]
pub struct Linked {
    pub user: User,
    pub new_user: bool,
    pub account: SocialAccount,
}

/// The linking of a provider's user to an account: an account already
/// linked to an existing user is kept, with the new access token; otherwise
/// the user with the same email, or a new user, is linked anew.
pub struct UserResolution {
    provider: Provider,
    info: OAuthUserInfo,
    access_token: String,
    stage: Stage,
}

impl UserResolution {
    /// The provider.
    pub closed spec fn spec_provider(&self) -> Provider {
        self.provider
    }

    /// What the provider tells of the user.
    pub closed spec fn spec_info(&self) -> OAuthUserInfo {
        self.info
    }

    /// The access token given.
    pub closed spec fn spec_token(&self) -> Seq<char> {
        self.access_token@
    }

    /// The linked account is awaited.
    pub closed spec fn awaits_account(&self) -> bool {
        self.stage is Start
    }

    /// The user of this linked account is awaited.
    pub closed spec fn awaits_user_of(&self) -> Option<SocialAccount> {
        match self.stage {
            Stage::Linked(a) => Some(a),
            _ => None,
        }
    }

    /// The user with the email is awaited.
    pub closed spec fn awaits_email(&self) -> bool {
        self.stage is ByEmail
    }

    /// The linking is done.
    pub closed spec fn is_done(&self) -> bool {
        self.stage is Done
    }

    /// Starts the linking of the user a provider told of.
    pub fn new(provider: Provider, info: OAuthUserInfo, access_token: String) -> (r: Self)
        ensures
            r.spec_provider() == provider,
            r.spec_info() == info,
            r.spec_token() == access_token@,
            r.awaits_account(),
    {
        UserResolution { provider, info, access_token, stage: Stage::Start }
    }

    /// The next read.
    pub fn next_lookup(&self) -> (r: UserLookup)
        ensures
            self.awaits_account() ==> (r matches UserLookup::Account(k) && k@ == provider_name(
                self.spec_provider(),
            ) + ":"@ + self.spec_info().provider_user_id@),
            self.awaits_user_of() matches Some(a) ==> r == UserLookup::User(a.user_id),
            self.awaits_email() ==> (r matches UserLookup::Email(e) && e@ == self.spec_info().email@),
            self.is_done() ==> r is Done,
    {
        match &self.stage {
            Stage::Start => UserLookup::Account(
                social_account_key(self.provider, self.info.provider_user_id.as_str()),
            ),
            Stage::Linked(a) => UserLookup::User(a.user_id),
            Stage::ByEmail => UserLookup::Email(self.info.email.clone()),
            Stage::Done => UserLookup::Done,
        }
    }

    /// Takes the linked account read, if there is one.
    pub fn on_account(&mut self, found: Option<SocialAccount>)
        requires
            old(self).awaits_account(),
        ensures
            final(self).spec_provider() == old(self).spec_provider(),
            final(self).spec_info() == old(self).spec_info(),
            final(self).spec_token() == old(self).spec_token(),
            found matches Some(a) ==> final(self).awaits_user_of() == Some(a),
            found is None ==> final(self).awaits_email(),
    {
        self.stage = match found {
            Some(a) => Stage::Linked(a),
            None => Stage::ByEmail,
        };
    }

    /// Takes the user of the linked account, if there is one: that user is
    /// the answer, with the account holding the new access token and
    /// updated at `now`. Without one, the user is looked up by email.
    pub fn on_user(&mut self, found: Option<User>, now: Timestamp) -> (r: Option<Linked>)
        requires
            old(self).awaits_user_of() is Some,
        ensures
            final(self).spec_provider() == old(self).spec_provider(),
            final(self).spec_info() == old(self).spec_info(),
            final(self).spec_token() == old(self).spec_token(),
            match found {
                Some(u) => final(self).is_done() && (r matches Some(l) && {
                    let a = old(self).awaits_user_of()->Some_0;
                    &&& l.user == u
                    &&& !l.new_user
                    &&& l.account.user_id == a.user_id
                    &&& l.account.provider == a.provider
                    &&& l.account.provider_user_id == a.provider_user_id
                    &&& l.account.email == a.email
                    &&& l.account.name == a.name
                    &&& l.account.avatar_url == a.avatar_url
                    &&& l.account.refresh_token == a.refresh_token
                    &&& l.account.created_at == a.created_at
                    &&& l.account.access_token matches Some(t) && t@ == old(self).spec_token()
                    &&& l.account.updated_at == now
                }),
                None => final(self).awaits_email() && r is None,
            },
    {
        let mut stage = Stage::ByEmail;
        std::mem::swap(&mut stage, &mut self.stage);
        let account = match stage {
            Stage::Linked(a) => a,
            _ => {
                return None;
            },
        };
        match found {
            Some(user) => {
                self.stage = Stage::Done;
                Some(
                    Linked {
                        user,
                        new_user: false,
                        account: SocialAccount {
                            access_token: Some(self.access_token.clone()),
                            updated_at: now,
                            ..account
                        },
                    },
                )
            },
            None => None,
        }
    }

    /// Takes the user with the email, if there is one; otherwise a new
    /// user is made from what the provider told. Either is linked by a new
    /// account that holds the access token.
    pub fn on_email_user(&mut self, found: Option<User>) -> (r: Linked)
        requires
            old(self).awaits_email(),
        ensures
            final(self).is_done(),
            found matches Some(u) ==> r.user == u && !r.new_user,
            found is None ==> r.new_user && r.user.email@ == old(self).spec_info().email@ && r.user.name
                == old(self).spec_info().name && r.user.avatar_url == old(self).spec_info().avatar_url,
            r.account.user_id == r.user.id,
            r.account.provider == old(self).spec_provider(),
            r.account.provider_user_id@ == old(self).spec_info().provider_user_id@,
            r.account.email@ == old(self).spec_info().email@,
            r.account.name == old(self).spec_info().name,
            r.account.avatar_url == old(self).spec_info().avatar_url,
            r.account.access_token matches Some(t) && t@ == old(self).spec_token(),
            r.account.refresh_token is None,
    {
        self.stage = Stage::Done;
        let (user, new_user) = match found {
            Some(u) => (u, false),
            None => (
                User::new(self.info.email.clone(), self.info.name.clone(), self.info.avatar_url.clone()),
                true,
            ),
        };
        let account = SocialAccount::new(
            user.id,
            self.provider,
            self.info.provider_user_id.clone(),
            self.info.email.clone(),
            self.info.name.clone(),
            self.info.avatar_url.clone(),
            Some(self.access_token.clone()),
            None,
        );
        Linked { user, new_user, account }
    }
}

} // verus!
