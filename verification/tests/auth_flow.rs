use void_eid_backend::auth::{
    authenticate, authorize_url, bearer_token, callback_redirect, check_internal_secret,
    check_oauth_state, deleted_redirect, discord_login, exchange_code, hash_identity,
    issue_auth_code, require_super_admin, session_claims, AuthError, AuthenticatedUser,
    CallbackParams, Claims, ExchangeRequest, InternalSecret, SuperAdmins, AUTH_CODE_TTL_MILLIS,
    OAUTH_STATE_TTL_MILLIS,
};
use void_eid_backend::audit::AuditAction;
use void_eid_backend::config::{
    allowed_origins, database_url, is_initial_admin, origin_of, ping, rate_limit_key,
    DEFAULT_PORT,
};
use void_eid_backend::models::{DiscordProfile, User};
use void_eid_backend::registry::{LoginError, Registry};
use void_eid_backend::service::{discord_callback, new_account_id};
use void_eid_backend::state::AppState;
use void_eid_backend::tokens::TokenStore;

fn wall_clock_millis() -> i64 {
    let since = std::time::SystemTime::now()
        .duration_since(std::time::UNIX_EPOCH)
        .expect("clock after the epoch");
    since.as_millis() as i64
}

fn claims(id: &str, discord_id: &str) -> Claims {
    Claims {
        id: id.to_string(),
        discord_id: discord_id.to_string(),
        username: "TestUser".to_string(),
        is_super_admin: true,
        exp: 9999999999,
    }
}

fn profile(id: &str, username: &str) -> DiscordProfile {
    DiscordProfile {
        id: id.to_string(),
        username: username.to_string(),
        discriminator: "0007".to_string(),
        avatar: Some("pic".to_string()),
    }
}

#[test]
fn hash_identity_is_sha256_of_input_and_pepper_in_hex() {
    // SHA-256("abc")
    assert_eq!(
        hash_identity("ab", "c"),
        "ba7816bf8f01cfea414140de5dae2223b00361a396177a9cb410ff61f20015ad"
    );
    assert_eq!(hash_identity("", "abc"), hash_identity("abc", ""));
    // SHA-256("")
    assert_eq!(
        hash_identity("", ""),
        "e3b0c44298fc1c149afbf4c8996fb92427ae41e4649b934ca495991b7852b855"
    );
}

#[test]
fn bearer_token_is_what_follows_the_prefix() {
    assert_eq!(bearer_token(Some("Bearer abc.def")), Ok("abc.def".to_string()));
    assert_eq!(bearer_token(Some("Bearer ")), Ok(String::new()));
    assert_eq!(bearer_token(None), Err(AuthError::MissingAuthHeader));
    assert_eq!(bearer_token(Some("bearer abc")), Err(AuthError::InvalidAuthHeader));
    assert_eq!(bearer_token(Some("Bearer")), Err(AuthError::InvalidAuthHeader));
    assert_eq!(bearer_token(Some("Basic abc")), Err(AuthError::InvalidAuthHeader));
    assert_eq!(AuthError::MissingAuthHeader.status(), 401);
    assert_eq!(AuthError::InvalidAuthHeader.status(), 401);
    assert_eq!(AuthError::InvalidToken.status(), 401);
}

#[test]
fn claims_become_the_authenticated_user() {
    assert_eq!(
        authenticate(&claims("123456789", "d")),
        Ok(AuthenticatedUser { user_id: 123456789, is_super_admin: true })
    );
    assert_eq!(authenticate(&claims("-5", "d")).unwrap().user_id, -5);
    assert_eq!(authenticate(&claims("not-a-number", "d")), Err(AuthError::InvalidUserId));
    assert_eq!(authenticate(&claims("", "d")), Err(AuthError::InvalidUserId));
    assert_eq!(authenticate(&claims("9223372036854775808", "d")), Err(AuthError::InvalidUserId));
    assert_eq!(AuthError::InvalidUserId.status(), 401);
}

#[test]
fn super_admins_are_read_from_a_comma_separated_list() {
    let admins = SuperAdmins::parse(" 111 ,222,, 333\t");
    assert_eq!(admins.ids, vec!["111", "222", "", "333"]);
    assert!(admins.contains("222"));
    assert!(!admins.contains("22"));
    assert_eq!(SuperAdmins::parse("").ids, vec![""]);
    assert!(!SuperAdmins::parse("").contains("111"));

    let ok = require_super_admin(&claims("1", "333"), &admins).unwrap();
    assert_eq!(ok.discord_id, "333");
    let err = require_super_admin(&claims("1", "444"), &admins).unwrap_err();
    assert_eq!(err, AuthError::NotSuperAdmin);
    assert_eq!(err.status(), 403);
}

#[test]
fn internal_secret_must_match_exactly() {
    let ok: InternalSecret = check_internal_secret(Some("s3cret"), "s3cret").unwrap();
    assert_eq!(ok.0, "s3cret");
    assert_eq!(
        check_internal_secret(Some("s3cret "), "s3cret").unwrap_err(),
        AuthError::InvalidInternalSecret
    );
    assert_eq!(check_internal_secret(None, "s3cret").unwrap_err().status(), 401);
}

#[test]
fn authorize_url_encodes_the_redirect_address() {
    let url = authorize_url("cid", "https://a.example/cb?x=1&y=é", "tok");
    assert_eq!(
        url,
        "https://discord.com/api/oauth2/authorize?client_id=cid&redirect_uri=\
         https%3A%2F%2Fa.example%2Fcb%3Fx%3D1%26y%3D%C3%A9&response_type=code&scope=identify&state=tok"
    );
}

#[test]
fn login_state_is_remembered_once() {
    let mut states = TokenStore::new(OAUTH_STATE_TTL_MILLIS);
    let (state, url) = discord_login(&mut states, "cid", "http://localhost/cb");
    assert_eq!(state.len(), 36);
    assert!(url.ends_with(&format!("&state={}", state)));
    assert!(url.contains("redirect_uri=http%3A%2F%2Flocalhost%2Fcb&"));
    let params = CallbackParams { code: "c".to_string(), state: state.clone() };
    assert_eq!(check_oauth_state(&mut states, &params, wall_clock_millis()), Ok(()));
    assert_eq!(
        check_oauth_state(&mut states, &params, wall_clock_millis()),
        Err(AuthError::InvalidOrExpired)
    );
}

#[test]
fn login_state_expires_after_five_minutes() {
    let mut states = TokenStore::new(OAUTH_STATE_TTL_MILLIS);
    states.insert("s".to_string(), String::new(), 1_000);
    let params = CallbackParams { code: "c".to_string(), state: "s".to_string() };
    assert_eq!(check_oauth_state(&mut states, &params, 301_001), Err(AuthError::Expired));
    assert_eq!(AuthError::Expired.status(), 400);
    states.insert("s".to_string(), String::new(), 1_000);
    assert_eq!(check_oauth_state(&mut states, &params, 301_000), Ok(()));
    assert_eq!(AuthError::InvalidOrExpired.status(), 400);
}

#[test]
fn auth_code_is_exchanged_once_within_thirty_seconds() {
    let mut codes = TokenStore::new(AUTH_CODE_TTL_MILLIS);
    let code = issue_auth_code(&mut codes, "jwt-1".to_string());
    assert_eq!(code.len(), 36);
    let request = ExchangeRequest { code: code.clone() };
    let response = exchange_code(&mut codes, &request, wall_clock_millis()).unwrap();
    assert_eq!(response.token, "jwt-1");
    assert_eq!(
        exchange_code(&mut codes, &request, wall_clock_millis()).unwrap_err(),
        AuthError::InvalidOrExpired
    );
    codes.insert("old".to_string(), "jwt-2".to_string(), 0);
    let late = ExchangeRequest { code: "old".to_string() };
    assert_eq!(exchange_code(&mut codes, &late, 30_001).unwrap_err(), AuthError::Expired);
    codes.insert("old".to_string(), "jwt-2".to_string(), 0);
    assert_eq!(exchange_code(&mut codes, &late, 30_000).unwrap().token, "jwt-2");
}

#[test]
fn session_claims_expire_a_day_later() {
    let user = User {
        id: -17,
        discord_id: "d-1".to_string(),
        username: "Name".to_string(),
        discriminator: "0001".to_string(),
        avatar: None,
        is_admin: false,
        last_login_at: None,
    };
    let c = session_claims(&user, true, 1_700_000_000);
    assert_eq!(c.id, "-17");
    assert_eq!(c.discord_id, "d-1");
    assert_eq!(c.username, "Name");
    assert!(c.is_super_admin);
    assert_eq!(c.exp, 1_700_086_400);
    assert_eq!(session_claims(&user, false, -100_000).exp, 0);
    assert_eq!(session_claims(&user, false, i64::MAX).exp, usize::MAX.min(i64::MAX as usize + 86_400));
    assert_eq!(authenticate(&c).unwrap().user_id, -17);
}

#[test]
fn redirects_are_built_from_the_front_end_address() {
    assert_eq!(
        callback_redirect("http://localhost:5173", "abc"),
        "http://localhost:5173/auth/callback?code=abc"
    );
    assert_eq!(deleted_redirect("http://localhost:5173"), "http://localhost:5173/deleted");
}

#[test]
fn new_account_ids_are_positive() {
    assert_eq!(new_account_id(5), 5);
    assert_eq!(new_account_id(-5), 5);
    assert_eq!(new_account_id(0), 1);
    assert_eq!(new_account_id(i64::MIN), i64::MAX);
    assert_eq!(new_account_id(i64::MAX), i64::MAX);
}

#[test]
fn first_login_creates_the_account_and_later_logins_refresh_it() {
    let mut db = Registry::new();
    let first = db
        .login(&profile("d-1", "Old Name"), "pep", false, 77, ("l-1".into(), "g-1".into()), 100)
        .unwrap();
    assert_eq!(first.user.id, 77);
    assert!(!first.admin_granted);
    assert!(!first.user.is_admin);
    assert_eq!(first.user.last_login_at, Some(100));
    assert_eq!(db.users().len(), 1);
    assert_eq!(db.audit_logs().len(), 1);
    assert_eq!(db.audit_logs()[0].action, AuditAction::Login);
    assert_eq!(db.audit_logs()[0].details, "User Old Name logged in via Discord");

    let second = db
        .login(&profile("d-1", "New Name"), "pep", true, 78, ("l-2".into(), "g-2".into()), 200)
        .unwrap();
    assert_eq!(second.user.id, 77);
    assert_eq!(second.user.username, "New Name");
    assert!(second.admin_granted);
    assert!(second.user.is_admin);
    assert_eq!(db.users().len(), 1);
    assert_eq!(db.users()[0].username, "New Name");
    assert_eq!(db.users()[0].last_login_at, Some(200));
    assert_eq!(db.audit_logs().len(), 3);
    assert_eq!(db.audit_logs()[2].action, AuditAction::AdminGrant);
    assert_eq!(db.audit_logs()[2].target_id, Some(77));
    assert_eq!(db.audit_logs()[2].details, "User New Name granted admin via INITIAL_ADMIN_ID");

    // an admin is not promoted again
    let third = db
        .login(&profile("d-1", "New Name"), "pep", true, 79, ("l-3".into(), "g-3".into()), 300)
        .unwrap();
    assert!(!third.admin_granted);
    assert!(third.user.is_admin);
    assert_eq!(db.audit_logs().len(), 4);
}

#[test]
fn login_is_refused_by_the_store_on_ids_in_use() {
    let mut db = Registry::new();
    db.login(&profile("d-1", "A"), "pep", false, 77, ("l-1".into(), "g-1".into()), 100).unwrap();
    let taken_audit =
        db.login(&profile("d-2", "B"), "pep", false, 78, ("l-1".into(), "g-2".into()), 101);
    assert_eq!(taken_audit.unwrap_err(), LoginError::Storage);
    let taken_id =
        db.login(&profile("d-2", "B"), "pep", false, 77, ("l-2".into(), "g-2".into()), 101);
    assert_eq!(taken_id.unwrap_err(), LoginError::Storage);
    let same_ids =
        db.login(&profile("d-2", "B"), "pep", true, 78, ("l-2".into(), "l-2".into()), 101);
    assert_eq!(same_ids.unwrap_err(), LoginError::Storage);
    assert_eq!(db.users().len(), 1);
    assert_eq!(db.audit_logs().len(), 1);
}

#[test]
fn an_erased_identity_cannot_log_in_again() {
    let mut db = Registry::new();
    db.login(&profile("d-1", "A"), "pep", false, 77, ("l-1".into(), "g-1".into()), 100).unwrap();
    db.delete_account(77, "pep", 4242, "x-1".to_string(), 150).unwrap();
    assert_eq!(db.users()[0].discord_id, "deleted_4242");
    let again = discord_callback(&mut db, &profile("d-1", "A"), "pep", false);
    assert_eq!(again.unwrap_err(), LoginError::Erased);
    // with another pepper the fingerprint differs
    let other = discord_callback(&mut db, &profile("d-1", "A"), "salt", true).unwrap();
    assert!(other.user.id >= 1);
    assert!(other.admin_granted);
    assert_eq!(db.users().len(), 2);
}

#[test]
fn state_at_startup_is_empty() {
    let state = AppState::new(Registry::new(), None, "pep".to_string(), SuperAdmins::parse("1,2"));
    assert_eq!(state.mumble_required_tribe, "Fire");
    assert_eq!(state.identity_hash_pepper, "pep");
    assert_eq!(state.oauth_states.ttl_millis(), 300_000);
    assert_eq!(state.auth_codes.ttl_millis(), 30_000);
    assert_eq!(state.oauth_states.len(), 0);
    assert!(state.db.users().is_empty());
    assert!(state.super_admins.contains("2"));
    let other =
        AppState::new(Registry::new(), Some("Water".to_string()), "p".to_string(), SuperAdmins::parse(""));
    assert_eq!(other.mumble_required_tribe, "Water");
}

#[test]
fn startup_configuration_decisions() {
    assert_eq!(DEFAULT_PORT, 5038);
    assert_eq!(database_url("sqlite://void-eid.db"), "sqlite://void-eid.db?mode=rwc");
    assert_eq!(database_url("sqlite://void-eid.db?mode=rwc"), "sqlite://void-eid.db?mode=rwc");
    assert_eq!(origin_of("http://localhost:5173///"), "http://localhost:5173");
    assert_eq!(origin_of("http://localhost:5173"), "http://localhost:5173");
    assert_eq!(origin_of("///"), "");
    assert_eq!(
        allowed_origins("http://localhost:5173/"),
        vec!["http://localhost:5173", "https://voideid.scetrov.live"]
    );
    assert!(is_initial_admin(Some("42"), "42"));
    assert!(!is_initial_admin(Some("42"), "43"));
    assert!(!is_initial_admin(None, "42"));
    assert_eq!(rate_limit_key(Some("1.2.3.4".into()), Some("5.6.7.8".into())), "1.2.3.4");
    assert_eq!(rate_limit_key(None, Some("5.6.7.8".into())), "5.6.7.8");
    assert_eq!(rate_limit_key(None, None), "fallback-internal");
    assert_eq!(ping(), (200, "pong"));
}
