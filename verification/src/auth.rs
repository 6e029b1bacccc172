//! API keys: `obs_` followed by the URL-safe unpadded base64 of a random
//! 16-byte id and its HMAC-SHA256 under the server's secret. Also the
//! identity providers of sign-in and the user information they give.

use vstd::prelude::*;
use vstd::utf8::encode_utf8;
use vstd::string::StrSliceExecFns;
use crate::json::{Json, JsonValue};
use crate::keys::starts_with;
use crate::responses::str_starts_with;
use crate::text::{chars_of, concat, string_of_range};
use base64::Engine;
use hmac::Mac;

verus! {

broadcast use vstd::std_specs::vec::group_vec_axioms;

/// The shortest secret accepted, in bytes.
pub const MIN_SECRET_LENGTH: usize = 16;

/// The prefix of every API key.
pub const API_KEY_PREFIX: &'static str = "obs_";

/// The environment variable that holds the secret.
pub const ENV_API_KEY_SECRET: &'static str = "API_KEY_SECRET";

/// The URL-safe unpadded base64 text of some bytes.
pub uninterp spec fn base64_url_text(b: Seq<u8>) -> Seq<char>;

/// The bytes that URL-safe unpadded base64 decoding reads from a text, if
/// it reads any.
pub uninterp spec fn base64_url_bytes(s: Seq<char>) -> Option<Seq<u8>>;

/// The HMAC-SHA256 tag of a message under a key.
pub uninterp spec fn hmac_sha256(key: Seq<u8>, msg: Seq<u8>) -> Seq<u8>;

/// `URL_SAFE_NO_PAD.encode`: the base64 text of the bytes, which decodes
/// back to them.
#[verifier::external_body]
pub(crate) fn base64_url_encode(b: &[u8]) -> (r: String)
    requires
        b@.len() <= usize::MAX / 4,
    ensures
        r@ == base64_url_text(b@),
        base64_url_bytes(r@) == Some(b@),
{
    base64::engine::general_purpose::URL_SAFE_NO_PAD.encode(b)
}

/// `URL_SAFE_NO_PAD.decode`: the bytes a text encodes, if it is valid.
#[verifier::external_body]
fn base64_url_decode(s: &str) -> (r: Option<Vec<u8>>)
    ensures
        match r {
            Some(v) => base64_url_bytes(s@) == Some(v@),
            None => base64_url_bytes(s@) is None,
        },
{
    match base64::engine::general_purpose::URL_SAFE_NO_PAD.decode(s) {
        Ok(v) => Some(v),
        Err(_) => None,
    }
}

/// `Hmac::<Sha256>` over a message: `new_from_slice` (which takes keys of
/// any length), `update`, `finalize`. The tag has 32 bytes.
#[verifier::external_body]
fn hmac_sha256_tag(key: &[u8], msg: &[u8]) -> (r: Vec<u8>)
    ensures
        r@ == hmac_sha256(key@, msg@),
        r@.len() == 32,
{
    let mut mac = <hmac::Hmac<sha2::Sha256> as hmac::Mac>::new_from_slice(key).unwrap();
    mac.update(msg);
    mac.finalize().into_bytes().to_vec()
}

/// `Hmac::<Sha256>::verify_slice`: whether the tag is the message's tag
/// under the key (of the full length).
#[verifier::external_body]
fn hmac_sha256_verify(key: &[u8], msg: &[u8], tag: &[u8]) -> (r: bool)
    ensures
        r == (tag@ == hmac_sha256(key@, msg@)),
{
    let mut mac = <hmac::Hmac<sha2::Sha256> as hmac::Mac>::new_from_slice(key).unwrap();
    mac.update(msg);
    mac.verify_slice(tag).is_ok()
}

/// `Uuid::new_v4` as bytes: 16 random bytes (with the version bits set).
/// Only their number is stated.
#[verifier::external_body]
pub(crate) fn random_uuid_bytes() -> (r: Vec<u8>)
    ensures
        r@.len() == 16,
{
    uuid::Uuid::new_v4().as_bytes().to_vec()
}

/// A random 128-bit id, from the bytes of a version-4 UUID.
pub(crate) fn random_uuid_value() -> u128 {
    let b = random_uuid_bytes();
    let mut v: u128 = 0;
    let mut i: usize = 0;
    while i < 16
        invariant
            b@.len() == 16,
            i <= 16,
        decreases 16 - i,
    {
        v = (v << 8u32) | (b[i] as u128);
        i = i + 1;
    }
    v
}


/// The server's secret for API keys.
#[derive(Debug, Clone)]
pub struct ApiKeySecret(String);

/// Errors of API-key authentication.
#[derive(Debug, Clone, PartialEq, Eq, Structural)]
pub enum AuthError {
    InvalidSecretLength { min_length: usize },
    MissingAuthHeader,
    InvalidAuthFormat,
    InvalidApiKey,
    HmacInitFailed,
}

impl ApiKeySecret {
    /// The secret's text.
    pub closed spec fn text(&self) -> Seq<char> {
        self.0@
    }

    /// The secret's bytes.
    pub open spec fn bytes(&self) -> Seq<u8> {
        encode_utf8(self.text())
    }

    /// A secret of at least 16 bytes.
    pub fn new(secret: &str) -> (r: Result<Self, AuthError>)
        ensures
            secret.len() < MIN_SECRET_LENGTH ==> r == Err::<Self, AuthError>(
                AuthError::InvalidSecretLength { min_length: MIN_SECRET_LENGTH },
            ),
            secret.len() >= MIN_SECRET_LENGTH ==> (r matches Ok(s) && s.text() == secret@),
    {
        if secret.len() < MIN_SECRET_LENGTH {
            return Err(AuthError::InvalidSecretLength { min_length: MIN_SECRET_LENGTH });
        }
        Ok(ApiKeySecret(secret.to_owned()))
    }
}

impl AuthError {
    /// The status code and message of the error's answer: a bad secret
    /// and an HMAC failure are server errors (500), the others 401.
    pub fn status_and_message(&self) -> (r: (u16, &'static str))
        ensures
            match self {
                AuthError::InvalidSecretLength { .. } => r.0 == 500 && r.1@
                    == "Invalid API secret configuration"@,
                AuthError::MissingAuthHeader => r.0 == 401 && r.1@ == "Missing Authorization header"@,
                AuthError::InvalidAuthFormat => r.0 == 401 && r.1@
                    == "Invalid Authorization header format"@,
                AuthError::InvalidApiKey => r.0 == 401 && r.1@ == "Invalid API key"@,
                AuthError::HmacInitFailed => r.0 == 500 && r.1@ == "Internal server error"@,
            },
    {
        match self {
            AuthError::InvalidSecretLength { .. } => (500, "Invalid API secret configuration"),
            AuthError::MissingAuthHeader => (401, "Missing Authorization header"),
            AuthError::InvalidAuthFormat => (401, "Invalid Authorization header format"),
            AuthError::InvalidApiKey => (401, "Invalid API key"),
            AuthError::HmacInitFailed => (500, "Internal server error"),
        }
    }
}

/// The prefix `obs_`.
pub open spec fn key_prefix() -> Seq<char> {
    seq!['o', 'b', 's', '_']
}

/// A valid API key under a secret: `obs_` followed by base64 that decodes to
/// at least 48 bytes, whose bytes after the first 16 are the HMAC-SHA256 of
/// those 16 under the secret.
pub open spec fn api_key_valid(key: Seq<char>, secret: Seq<u8>) -> bool {
    &&& starts_with(key, key_prefix())
    &&& match base64_url_bytes(key.skip(4)) {
        Some(p) => p.len() >= 48 && p.skip(16) == hmac_sha256(secret, p.take(16)),
        None => false,
    }
}

fn prefix_text() -> (r: &'static str)
    ensures
        r@ == key_prefix(),
{
    proof {
        reveal_strlit("obs_");
    }
    API_KEY_PREFIX
}

fn slice_bytes(v: &Vec<u8>, from: usize, to: usize) -> (r: Vec<u8>)
    requires
        from <= to <= v.len(),
    ensures
        r@ == v@.subrange(from as int, to as int),
{
    let mut r: Vec<u8> = Vec::new();
    let mut i = from;
    while i < to
        invariant
            from <= i <= to <= v.len(),
            r@ == v@.subrange(from as int, i as int),
        decreases to - i,
    {
        r.push(v[i]);
        i = i + 1;
        assert(r@ =~= v@.subrange(from as int, i as int));
    }
    r
}

/// Checks an API key against the secret.
pub fn validate_api_key(api_key: &str, secret: &ApiKeySecret) -> (r: Result<(), AuthError>)
    ensures
        r is Ok <==> api_key_valid(api_key@, secret.bytes()),
        r matches Err(e) ==> e == AuthError::InvalidApiKey,
{
    if !str_starts_with(api_key, prefix_text()) {
        return Err(AuthError::InvalidApiKey);
    }
    let k = chars_of(api_key);
    let encoded = string_of_range(&k, 4, k.len());
    assert(encoded@ =~= api_key@.skip(4));
    let payload = match base64_url_decode(encoded.as_str()) {
        Some(p) => p,
        None => {
            return Err(AuthError::InvalidApiKey);
        },
    };
    if payload.len() < 16 + 32 {
        return Err(AuthError::InvalidApiKey);
    }
    let id = slice_bytes(&payload, 0, 16);
    let signature = slice_bytes(&payload, 16, payload.len());
    assert(id@ =~= payload@.take(16));
    assert(signature@ =~= payload@.skip(16));
    let key = secret.0.as_str().as_bytes_vec();
    if !hmac_sha256_verify(key.as_slice(), id.as_slice(), signature.as_slice()) {
        return Err(AuthError::InvalidApiKey);
    }
    Ok(())
}

/// A new API key for the secret: a random id with its tag. Every key it
/// makes is valid under the secret.
pub fn generate_api_key(secret: &ApiKeySecret) -> (r: Result<String, AuthError>)
    ensures
        r matches Ok(k) && api_key_valid(k@, secret.bytes()),
{
    let id = random_uuid_bytes();
    let key = secret.0.as_str().as_bytes_vec();
    let signature = hmac_sha256_tag(key.as_slice(), id.as_slice());
    let mut payload = id.clone();
    let mut sig = signature.clone();
    payload.append(&mut sig);
    assert(payload@ =~= id@ + signature@);
    let encoded = base64_url_encode(payload.as_slice());
    let r = concat(prefix_text(), encoded.as_str());
    proof {
        let p = payload@;
        assert(p.take(16) =~= id@);
        assert(p.skip(16) =~= signature@);
        assert(r@.take(4) =~= key_prefix());
        assert(r@.skip(4) =~= encoded@);
    }
    Ok(r)
}

/// The decision of API-key authentication for a request: without a secret
/// every request passes; otherwise the Authorization header (`None` where
/// it is missing, `Some(None)` where it is not text) must be `Bearer `
/// followed by a valid key.
pub fn check_authorization(secret: &Option<ApiKeySecret>, header: Option<Option<String>>) -> (r: Result<
    (),
    AuthError,
>)
    ensures
        match secret {
            None => r is Ok,
            Some(s) => match header {
                None => r == Err::<(), AuthError>(AuthError::MissingAuthHeader),
                Some(None) => r == Err::<(), AuthError>(AuthError::InvalidAuthFormat),
                Some(Some(h)) => if starts_with(h@, "Bearer "@) {
                    (r is Ok <==> api_key_valid(h@.skip("Bearer "@.len() as int), s.bytes()))
                        && (r matches Err(e) ==> e == AuthError::InvalidApiKey)
                } else {
                    r == Err::<(), AuthError>(AuthError::InvalidAuthFormat)
                },
            },
        },
{
    match secret {
        None => Ok(()),
        Some(s) => match header {
            None => Err(AuthError::MissingAuthHeader),
            Some(None) => Err(AuthError::InvalidAuthFormat),
            Some(Some(h)) => {
                let bearer = "Bearer ";
                if !str_starts_with(h.as_str(), bearer) {
                    return Err(AuthError::InvalidAuthFormat);
                }
                let hc = chars_of(h.as_str());
                let n = chars_of(bearer).len();
                let token = string_of_range(&hc, n, hc.len());
                assert(token@ =~= h@.skip(bearer@.len() as int));
                validate_api_key(token.as_str(), s)
            },
        },
    }
}

/// A sign-in identity provider.
#[derive(Debug, Clone, Copy, PartialEq, Eq, Hash, Structural)]
pub enum Provider {
    Google,
    GitHub,
}

/// The lowercase form of a text, as `str::to_lowercase` gives it.
pub uninterp spec fn lowercase_text(s: Seq<char>) -> Seq<char>;

/// `str::to_lowercase`.
#[verifier::external_body]
fn to_lowercase(s: &str) -> (r: String)
    ensures
        r@ == lowercase_text(s@),
{
    s.to_lowercase()
}

pub open spec fn provider_name(p: Provider) -> Seq<char> {
    match p {
        Provider::Google => "google"@,
        Provider::GitHub => "github"@,
    }
}

impl Provider {
    /// The provider's lowercase name.
    pub fn as_str(&self) -> (r: &'static str)
        ensures
            r@ == provider_name(*self),
    {
        match self {
            Provider::Google => "google",
            Provider::GitHub => "github",
        }
    }

    /// The provider a name stands for, in any case.
    pub fn parse(s: &str) -> (r: Result<Provider, String>)
        ensures
            lowercase_text(s@) == "google"@ ==> r == Ok::<Provider, String>(Provider::Google),
            lowercase_text(s@) == "github"@ ==> r == Ok::<Provider, String>(Provider::GitHub),
            lowercase_text(s@) != "google"@ && lowercase_text(s@) != "github"@ ==> (r matches Err(m)
                && m@ == "Unknown provider: "@ + s@),
    {
        proof {
            reveal_strlit("google");
            reveal_strlit("github");
            assert("github"@[1] != "google"@[1]);
        }
        let lower = to_lowercase(s);
        let g = "google".to_owned();
        let h = "github".to_owned();
        if lower == g {
            Ok(Provider::Google)
        } else if lower == h {
            Ok(Provider::GitHub)
        } else {
            Err(concat("Unknown provider: ", s))
        }
    }

    /// The authorization, token and user-information URLs of the provider.
    pub fn provider_urls(&self) -> (r: (&'static str, &'static str, &'static str))
        ensures
            match self {
                Provider::Google => r.0@ == "https://accounts.google.com/o/oauth2/v2/auth"@ && r.1@
                    == "https://oauth2.googleapis.com/token"@ && r.2@
                    == "https://www.googleapis.com/oauth2/v2/userinfo"@,
                Provider::GitHub => r.0@ == "https://github.com/login/oauth/authorize"@ && r.1@
                    == "https://github.com/login/oauth/access_token"@ && r.2@
                    == "https://api.github.com/user"@,
            },
    {
        match self {
            Provider::Google => (
                "https://accounts.google.com/o/oauth2/v2/auth",
                "https://oauth2.googleapis.com/token",
                "https://www.googleapis.com/oauth2/v2/userinfo",
            ),
            Provider::GitHub => (
                "https://github.com/login/oauth/authorize",
                "https://github.com/login/oauth/access_token",
                "https://api.github.com/user",
            ),
        }
    }

    /// The scopes the provider is asked for.
    pub fn scopes(&self) -> (r: Vec<&'static str>)
        ensures
            match self {
                Provider::Google => r@.len() == 3 && r@[0]@ == "openid"@ && r@[1]@ == "email"@
                    && r@[2]@ == "profile"@,
                Provider::GitHub => r@.len() == 2 && r@[0]@ == "read:user"@ && r@[1]@ == "user:email"@,
            },
    {
        match self {
            Provider::Google => {
                let mut v: Vec<&'static str> = Vec::new();
                v.push("openid");
                v.push("email");
                v.push("profile");
                v
            },
            Provider::GitHub => {
                let mut v: Vec<&'static str> = Vec::new();
                v.push("read:user");
                v.push("user:email");
                v
            },
        }
    }
}

impl std::str::FromStr for Provider {
    type Err = String;

    fn from_str(s: &str) -> (r: Result<Self, Self::Err>)
        ensures
            lowercase_text(s@) == "google"@ ==> r == Ok::<Provider, String>(Provider::Google),
            lowercase_text(s@) == "github"@ ==> r == Ok::<Provider, String>(Provider::GitHub),
            lowercase_text(s@) != "google"@ && lowercase_text(s@) != "github"@ ==> (r matches Err(m)
                && m@ == "Unknown provider: "@ + s@),
    {
        Provider::parse(s)
    }
}

/// The key of a linked account: `{provider}:{provider_user_id}`.
pub fn social_account_key(provider: Provider, provider_user_id: &str) -> (r: String)
    ensures
        r@ == provider_name(provider) + ":"@ + provider_user_id@,
{
    let mut r = concat(provider.as_str(), ":");
    crate::text::push_str(&mut r, provider_user_id);
    r
}

/// The OAuth client settings of a provider.
#[derive(Debug, Clone)]
pub struct OAuthConfig {
    pub client_id: String,
    pub client_secret: String,
    pub redirect_url: String,
}

/// What a provider tells of a user.
#[derive(Debug, Clone)]
pub struct OAuthUserInfo {
    pub provider_user_id: String,
    pub email: String,
    pub name: Option<String>,
    pub avatar_url: Option<String>,
}

/// The query of the OAuth callback.
#[derive(Debug, Clone)]
pub struct OAuthCallbackQuery {
    pub code: String,
    pub state: Option<String>,
}

/// The string held under `key` in a JSON object, if any.
pub open spec fn json_str_field(v: Json, key: Seq<char>) -> Option<Seq<char>> {
    match v {
        Json::Object(entries) => if exists|i: int| 0 <= i < entries.len() && entries[i].0 == key {
            match entries[choose|i: int| 0 <= i < entries.len() && entries[i].0 == key].1 {
                Json::Str(s) => Some(s),
                _ => None,
            }
        } else {
            None
        },
        _ => None,
    }
}

/// The distinct keys of an object: what a JSON object holds.
pub open spec fn keys_distinct(v: Json) -> bool {
    match v {
        Json::Object(entries) => forall|i: int, j: int|
            0 <= i < j < entries.len() ==> entries[i].0 != entries[j].0,
        _ => true,
    }
}

pub(crate) fn str_field(v: &JsonValue, key: &str) -> (r: Option<String>)
    requires
        keys_distinct(v.model()),
    ensures
        match r {
            Some(s) => json_str_field(v.model(), key@) == Some(s@),
            None => json_str_field(v.model(), key@) is None,
        },
{
    match v {
        JsonValue::Object(entries) => {
            proof {
                crate::json::lemma_object_model(*entries);
            }
            let ghost m = crate::json::entries_model(entries@);
            let kstr = key.to_owned();
            let mut i: usize = 0;
            while i < entries.len()
                invariant
                    i <= entries.len(),
                    m == crate::json::entries_model(entries@),
                    v.model() == Json::Object(m),
                    keys_distinct(v.model()),
                    kstr@ == key@,
                    forall|k: int| 0 <= k < i ==> m[k].0 != key@,
                decreases entries.len() - i,
            {
                if entries[i].0 == kstr {
                    assert(m[i as int].0 == key@);
                    proof {
                        assert(v.model() == Json::Object(m));
                        assert(keys_distinct(Json::Object(m)));
                        let c = choose|c: int| 0 <= c < m.len() && m[c].0 == key@;
                        if c < i {
                            assert(m[c].0 != m[i as int].0);
                        } else if c > i {
                            assert(m[i as int].0 != m[c].0);
                        }
                        assert(c == i);
                        assert(m[i as int].1 == entries@[i as int].1.model());
                    }
                    return match &entries[i].1 {
                        JsonValue::Str(s) => Some(s.clone()),
                        _ => None,
                    };
                }
                i = i + 1;
            }
            None
        },
        _ => None,
    }
}

/// The user information in Google's answer: `id` and `email` are required
/// strings, `name` and `picture` optional ones.
pub fn parse_google_user_info(data: &JsonValue) -> (r: Result<OAuthUserInfo, String>)
    requires
        keys_distinct(data.model()),
    ensures
        json_str_field(data.model(), "id"@) is None ==> (r matches Err(m) && m@ == "Missing user ID"@),
        json_str_field(data.model(), "id"@) is Some && json_str_field(data.model(), "email"@) is None
            ==> (r matches Err(m) && m@ == "Missing email"@),
        r matches Ok(u) ==> {
            &&& json_str_field(data.model(), "id"@) == Some(u.provider_user_id@)
            &&& json_str_field(data.model(), "email"@) == Some(u.email@)
            &&& json_str_field(data.model(), "name"@) == match u.name {
                Some(n) => Some(n@),
                None => None,
            }
            &&& json_str_field(data.model(), "picture"@) == match u.avatar_url {
                Some(a) => Some(a@),
                None => None,
            }
        },
        (json_str_field(data.model(), "id"@) is Some && json_str_field(data.model(), "email"@) is Some)
            ==> r is Ok,
{
    let id = match str_field(data, "id") {
        Some(s) => s,
        None => {
            return Err("Missing user ID".to_owned());
        },
    };
    let email = match str_field(data, "email") {
        Some(s) => s,
        None => {
            return Err("Missing email".to_owned());
        },
    };
    Ok(
        OAuthUserInfo {
            provider_user_id: id,
            email,
            name: str_field(data, "name"),
            avatar_url: str_field(data, "picture"),
        },
    )
}

} // verus!
