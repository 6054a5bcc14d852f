//! Sessions: the claims a session token carries, who a request speaks for,
//! and the short-lived tokens of the login flow.

use vstd::prelude::*;
use vstd::string::{StringExecFns, StringSliceAdditionalSpecFns};
use crate::models::User;
use crate::platform::{
    fresh_uuid, hex_encode, hex_lower, now_millis, percent_encoded, sha256, sha256_of, url_encode,
};
use crate::text::{
    contains_text, format_i64, decimal_of, parse_i64, parsed_i64, same_text,
    split_commas, split_commas_trimmed, strip_prefix, trimmed, views_of, without_prefix,
};
use crate::tokens::{consumed, ConsumeError, TokenStore};

verus! {

/// The query of the identity provider's callback.
#[derive(Debug)]
pub struct CallbackParams {
    pub code: String,
    pub state: String,
}

/// The claims of a session token.
#[derive(Debug)]
pub struct Claims {
    /// The account id, in decimal.
    pub id: String,
    pub discord_id: String,
    pub username: String,
    pub is_super_admin: bool,
    /// Expiry, in seconds since the Unix epoch.
    pub exp: usize,
}

/// The body of a request to exchange a one-time code for a session token.
#[derive(Debug)]
pub struct ExchangeRequest {
    pub code: String,
}

/// The session token handed out for a one-time code.
#[derive(Debug)]
pub struct ExchangeResponse {
    pub token: String,
}

/// The account a request speaks for.
#[derive(Debug, Clone, Copy, PartialEq, Eq, Structural)]
pub struct AuthenticatedUser {
    pub user_id: i64,
    pub is_super_admin: bool,
}

/// Proof that a request carried the secret shared with internal services.
#[derive(Debug)]
pub struct InternalSecret(pub String);

/// Why a request was not accepted as authenticated.
#[derive(Debug, Clone, Copy, PartialEq, Eq, Structural)]
pub enum AuthError {
    MissingAuthHeader,
    InvalidAuthHeader,
    InvalidToken,
    InvalidUserId,
    /// The session is valid but its account is gone.
    UserNotFound,
    NotSuperAdmin,
    InvalidInternalSecret,
    /// The one-time token is unknown or was used already.
    InvalidOrExpired,
    /// The one-time token is older than its time to live.
    Expired,
}

impl AuthError {
    /// The HTTP status that reports the error.
    pub open spec fn status_spec(self) -> u16 {
        match self {
            AuthError::NotSuperAdmin => 403,
            AuthError::InvalidOrExpired => 400,
            AuthError::Expired => 400,
            _ => 401,
        }
    }

    pub fn status(&self) -> (r: u16)
        ensures
            r == self.status_spec(),
    {
        match self {
            AuthError::NotSuperAdmin => 403,
            AuthError::InvalidOrExpired => 400,
            AuthError::Expired => 400,
            _ => 401,
        }
    }
}

impl Claims {
    /// The account id that the claims name, where it is a number.
    pub fn user_id(&self) -> (r: Option<i64>)
        ensures
            r == parsed_i64(self.id@),
    {
        parse_i64(self.id.as_str())
    }
}

/// The account that a session token's claims stand for.
pub open spec fn authenticated(claims: Claims) -> Result<AuthenticatedUser, AuthError> {
    match parsed_i64(claims.id@) {
        Some(user_id) => Ok(AuthenticatedUser { user_id, is_super_admin: claims.is_super_admin }),
        None => Err(AuthError::InvalidUserId),
    }
}

/// Turns the claims of a verified session token into the account that the
/// request speaks for. Claims whose id is no number are refused.
pub fn authenticate(claims: &Claims) -> (r: Result<AuthenticatedUser, AuthError>)
    ensures
        r == authenticated(*claims),
{
    match claims.user_id() {
        Some(user_id) => Ok(AuthenticatedUser { user_id, is_super_admin: claims.is_super_admin }),
        None => Err(AuthError::InvalidUserId),
    }
}

/// How long the state token of a login attempt lives: five minutes.
pub const OAUTH_STATE_TTL_MILLIS: i64 = 300_000;

/// How long a one-time code lives: thirty seconds.
pub const AUTH_CODE_TTL_MILLIS: i64 = 30_000;

/// How long a session lasts: one day, in seconds.
pub const SESSION_SECONDS: i64 = 86_400;

/// The fingerprint under which an erased identity is remembered: the
/// SHA-256 digest of the identity's bytes followed by the pepper's, in
/// lower-case hexadecimal.
pub open spec fn identity_hash(input: Seq<u8>, pepper: Seq<u8>) -> Seq<char> {
    hex_lower(sha256_of(input + pepper))
}

/// Hashes an identity with the service's pepper.
pub fn hash_identity(input: &str, pepper: &str) -> (r: String)
    ensures
        r@ == identity_hash(input.spec_bytes(), pepper.spec_bytes()),
        r@.len() == 64,
{
    let mut bytes = input.as_bytes_vec();
    let mut tail = pepper.as_bytes_vec();
    bytes.append(&mut tail);
    let digest = sha256(bytes.as_slice());
    hex_encode(digest.as_slice())
}

/// The external identities that hold process-wide admin rights, as
/// configured at startup.
#[derive(Debug)]
pub struct SuperAdmins {
    pub ids: Vec<String>,
}

impl SuperAdmins {
    /// Reads the configured list: identities separated by commas, with
    /// whitespace around each ignored.
    pub fn parse(raw: &str) -> (r: Self)
        ensures
            views_of(r.ids@) == split_commas(raw@).map_values(|part: Seq<char>| trimmed(part)),
    {
        SuperAdmins { ids: split_commas_trimmed(raw) }
    }

    /// Whether the identity is among the configured ones.
    pub fn contains(&self, discord_id: &str) -> (r: bool)
        ensures
            r == views_of(self.ids@).contains(discord_id@),
    {
        contains_text(&self.ids, discord_id)
    }
}

/// Proof that a request came from a configured super admin.
#[derive(Debug)]
pub struct RequireSuperAdmin {
    pub discord_id: String,
}

/// Admits the holder of a verified session token as super admin if, and only
/// if, the token's external identity is among the configured ones. The flag
/// inside the claims is not consulted.
pub fn require_super_admin(claims: &Claims, admins: &SuperAdmins) -> (r: Result<
    RequireSuperAdmin,
    AuthError,
>)
    ensures
        match r {
            Ok(admin) => views_of(admins.ids@).contains(claims.discord_id@) && admin.discord_id@
                == claims.discord_id@,
            Err(e) => !views_of(admins.ids@).contains(claims.discord_id@) && e
                == AuthError::NotSuperAdmin,
        },
{
    if admins.contains(claims.discord_id.as_str()) {
        Ok(RequireSuperAdmin { discord_id: claims.discord_id.clone() })
    } else {
        Err(AuthError::NotSuperAdmin)
    }
}

/// The token that an `Authorization` header carries.
pub open spec fn bearer_of(header: Option<Seq<char>>) -> Result<Seq<char>, AuthError> {
    match header {
        None => Err(AuthError::MissingAuthHeader),
        Some(h) => match without_prefix(h, "Bearer "@) {
            Some(token) => Ok(token),
            None => Err(AuthError::InvalidAuthHeader),
        },
    }
}

/// Extracts the bearer token from the `Authorization` header, if the
/// request has one.
pub fn bearer_token(header: Option<&str>) -> (r: Result<String, AuthError>)
    ensures
        match r {
            Ok(token) => bearer_of(crate::access::opt_str_view(header)) == Ok::<
                Seq<char>,
                AuthError,
            >(token@),
            Err(e) => bearer_of(crate::access::opt_str_view(header)) == Err::<
                Seq<char>,
                AuthError,
            >(e),
        },
{
    match header {
        None => Err(AuthError::MissingAuthHeader),
        Some(h) => match strip_prefix(h, "Bearer ") {
            Some(token) => Ok(token),
            None => Err(AuthError::InvalidAuthHeader),
        },
    }
}

/// Admits a request from an internal service if, and only if, it carries
/// the configured secret.
pub fn check_internal_secret(header: Option<&str>, configured: &str) -> (r: Result<
    InternalSecret,
    AuthError,
>)
    ensures
        match r {
            Ok(secret) => crate::access::opt_str_view(header) == Some(configured@) && secret.0@
                == configured@,
            Err(e) => crate::access::opt_str_view(header) != Some(configured@) && e
                == AuthError::InvalidInternalSecret,
        },
{
    match header {
        Some(s) => {
            if same_text(s, configured) {
                Ok(InternalSecret(s.to_owned()))
            } else {
                Err(AuthError::InvalidInternalSecret)
            }
        },
        None => Err(AuthError::InvalidInternalSecret),
    }
}

/// The address that sends a user to the identity provider.
pub open spec fn authorize_url_text(
    client_id: Seq<char>,
    redirect_uri: Seq<u8>,
    state: Seq<char>,
) -> Seq<char> {
    "https://discord.com/api/oauth2/authorize?client_id="@ + client_id + "&redirect_uri="@
        + percent_encoded(redirect_uri) + "&response_type=code&scope="@ + "identify"@ + "&state="@
        + state
}

/// Builds the address that sends a user to the identity provider, with the
/// redirect address percent-encoded.
pub fn authorize_url(client_id: &str, redirect_uri: &str, state: &str) -> (r: String)
    ensures
        r@ == authorize_url_text(client_id@, redirect_uri.spec_bytes(), state@),
{
    let encoded = url_encode(redirect_uri);
    let mut out = "https://discord.com/api/oauth2/authorize?client_id=".to_owned();
    out.append(client_id);
    out.append("&redirect_uri=");
    out.append(encoded.as_str());
    out.append("&response_type=code&scope=");
    out.append("identify");
    out.append("&state=");
    out.append(state);
    out
}

/// Starts a login attempt: draws a state token, remembers it with the
/// current time, and returns the address to send the user to. Whatever was
/// drawn, it is remembered, and no other token is touched.
pub fn discord_login(states: &mut TokenStore, client_id: &str, redirect_uri: &str) -> (r: (
    String,
    String,
))
    requires
        old(states).wf(),
    ensures
        final(states).wf(),
        final(states).ttl() == old(states).ttl(),
        final(states)@.contains_key(r.0@),
        final(states)@.remove(r.0@) == old(states)@.remove(r.0@),
        r.1@ == authorize_url_text(client_id@, redirect_uri.spec_bytes(), r.0@),
{
    let state = fresh_uuid();
    let now = now_millis();
    let blank = String::new();
    let ghost stored = (blank@, now);
    states.insert(state.clone(), blank, now);
    assert(old(states)@.insert(state@, stored).remove(state@) =~= old(states)@.remove(state@));
    let url = authorize_url(client_id, redirect_uri, state.as_str());
    (state, url)
}

/// What redeeming a one-time token yields.
pub open spec fn redeemed(
    stored: Map<Seq<char>, (Seq<char>, i64)>,
    key: Seq<char>,
    now: i64,
    ttl: i64,
) -> Result<Seq<char>, AuthError> {
    match consumed(stored, key, now, ttl) {
        Ok(value) => Ok(value),
        Err(ConsumeError::NotFound) => Err(AuthError::InvalidOrExpired),
        Err(ConsumeError::Expired) => Err(AuthError::Expired),
    }
}

/// Checks the state token that the identity provider handed back: it must
/// be one that was issued, not used before, and not older than the store's
/// time to live. The token is used up whatever the outcome.
pub fn check_oauth_state(states: &mut TokenStore, params: &CallbackParams, now: i64) -> (r: Result<
    (),
    AuthError,
>)
    requires
        old(states).wf(),
    ensures
        final(states).wf(),
        final(states).ttl() == old(states).ttl(),
        final(states)@ == old(states)@.remove(params.state@),
        match r {
            Ok(_) => redeemed(old(states)@, params.state@, now, old(states).ttl()) is Ok,
            Err(e) => redeemed(old(states)@, params.state@, now, old(states).ttl()) == Err::<
                Seq<char>,
                AuthError,
            >(e),
        },
{
    match states.consume(params.state.as_str(), now) {
        Ok(_) => Ok(()),
        Err(ConsumeError::NotFound) => Err(AuthError::InvalidOrExpired),
        Err(ConsumeError::Expired) => Err(AuthError::Expired),
    }
}

/// Remembers a session token under a fresh one-time code and returns the
/// code. Whatever code was drawn, the token is stored under it, and no other
/// code is touched.
pub fn issue_auth_code(codes: &mut TokenStore, token: String) -> (code: String)
    requires
        old(codes).wf(),
    ensures
        final(codes).wf(),
        final(codes).ttl() == old(codes).ttl(),
        final(codes)@.contains_key(code@),
        final(codes)@[code@].0 == token@,
        final(codes)@.remove(code@) == old(codes)@.remove(code@),
{
    let code = fresh_uuid();
    let now = now_millis();
    codes.insert(code.clone(), token, now);
    assert(old(codes)@.insert(code@, (token@, now)).remove(code@) =~= old(codes)@.remove(code@));
    code
}

/// Redeems a one-time code for the session token stored under it. A code
/// can be redeemed once, and only while it is fresh.
pub fn exchange_code(codes: &mut TokenStore, payload: &ExchangeRequest, now: i64) -> (r: Result<
    ExchangeResponse,
    AuthError,
>)
    requires
        old(codes).wf(),
    ensures
        final(codes).wf(),
        final(codes).ttl() == old(codes).ttl(),
        final(codes)@ == old(codes)@.remove(payload.code@),
        match r {
            Ok(response) => redeemed(old(codes)@, payload.code@, now, old(codes).ttl()) == Ok::<
                Seq<char>,
                AuthError,
            >(response.token@),
            Err(e) => redeemed(old(codes)@, payload.code@, now, old(codes).ttl()) == Err::<
                Seq<char>,
                AuthError,
            >(e),
        },
{
    match codes.consume(payload.code.as_str(), now) {
        Ok(token) => Ok(ExchangeResponse { token }),
        Err(ConsumeError::NotFound) => Err(AuthError::InvalidOrExpired),
        Err(ConsumeError::Expired) => Err(AuthError::Expired),
    }
}

/// When a session that starts at `now_seconds` ends: a day later, and never
/// before the epoch.
pub open spec fn session_expiry(now_seconds: i64) -> int {
    if now_seconds + SESSION_SECONDS < 0 {
        0
    } else if now_seconds + SESSION_SECONDS > usize::MAX {
        usize::MAX as int
    } else {
        now_seconds + SESSION_SECONDS
    }
}

/// The claims of a session for `user` that starts at `now_seconds`.
pub fn session_claims(user: &User, is_super_admin: bool, now_seconds: i64) -> (r: Claims)
    ensures
        r.id@ == decimal_of(user.id),
        r.discord_id@ == user.discord_id@,
        r.username@ == user.username@,
        r.is_super_admin == is_super_admin,
        r.exp == session_expiry(now_seconds),
{
    let end: i128 = (now_seconds as i128) + (SESSION_SECONDS as i128);
    let exp: usize = if end < 0 {
        0
    } else if end > (usize::MAX as i128) {
        usize::MAX
    } else {
        end as usize
    };
    Claims {
        id: format_i64(user.id),
        discord_id: user.discord_id.clone(),
        username: user.username.clone(),
        is_super_admin,
        exp,
    }
}

/// The address that hands the one-time code to the front end.
pub fn callback_redirect(frontend_url: &str, code: &str) -> (r: String)
    ensures
        r@ == frontend_url@ + "/auth/callback?code="@ + code@,
{
    let mut out = frontend_url.to_owned();
    out.append("/auth/callback?code=");
    out.append(code);
    out
}

/// The address that tells an erased identity that it stays erased.
pub fn deleted_redirect(frontend_url: &str) -> (r: String)
    ensures
        r@ == frontend_url@ + "/deleted"@,
{
    let mut out = frontend_url.to_owned();
    out.append("/deleted");
    out
}

} // verus!
