use void_eid_backend::audit::AuditAction;
use void_eid_backend::auth::{hash_identity, Claims};
use void_eid_backend::mumble::{resolve_mumble_username, sanitize_username};
use void_eid_backend::roster::RosterQuery;
use void_eid_backend::text::{is_blank, normalize_address};
use void_eid_backend::wallet::NonceStore;

#[test]
fn audit_test_audit_action_as_str() {
    assert_eq!(AuditAction::Login.as_str(), "LOGIN");
    assert_eq!(AuditAction::LinkWallet.as_str(), "LINK_WALLET");
    assert_eq!(AuditAction::UnlinkWallet.as_str(), "UNLINK_WALLET");
    assert_eq!(AuditAction::ViewRoster.as_str(), "VIEW_ROSTER");
    assert_eq!(AuditAction::ViewMember.as_str(), "VIEW_MEMBER");
    assert_eq!(AuditAction::AdminGrant.as_str(), "ADMIN_GRANT");
    assert_eq!(AuditAction::AdminRevoke.as_str(), "ADMIN_REVOKE");
    assert_eq!(AuditAction::TribeJoin.as_str(), "TRIBE_JOIN");
    assert_eq!(AuditAction::TribeLeave.as_str(), "TRIBE_LEAVE");
    assert_eq!(AuditAction::NoteCreate.as_str(), "NOTE_CREATE");
    assert_eq!(AuditAction::NoteEdit.as_str(), "NOTE_EDIT");
}

#[test]
fn test_user_id_parsing_from_claims() {
    let claims = Claims {
        id: "123456789".to_string(),
        discord_id: "discord123".to_string(),
        username: "TestUser".to_string(),
        is_super_admin: false,
        exp: 9999999999,
    };

    let user_id: i64 = claims.user_id().expect("Failed to parse user_id");
    assert_eq!(user_id, 123456789);
}

#[test]
fn test_user_id_parsing_invalid() {
    let claims = Claims {
        id: "not-a-number".to_string(),
        discord_id: "discord123".to_string(),
        username: "TestUser".to_string(),
        is_super_admin: false,
        exp: 9999999999,
    };

    let result: Option<i64> = claims.user_id();
    assert!(result.is_none());
}

#[test]
fn test_resolve_mumble_username_with_wallet() {
    let wallet = Some("Friendly Rider".to_string());
    let username = "VoidUser".to_string();
    let result = resolve_mumble_username(wallet, username);
    assert_eq!(result, "Friendly Rider");
}

#[test]
fn test_resolve_mumble_username_fallback() {
    let wallet = None;
    let username = "VoidUser".to_string();
    let result = resolve_mumble_username(wallet, username);
    assert_eq!(result, "VoidUser");
}

#[test]
fn test_resolve_mumble_username_empty_wallet() {
    let wallet = Some("   ".to_string());
    let username = "VoidUser".to_string();
    let result = resolve_mumble_username(wallet, username);
    assert_eq!(result, "VoidUser");
}

#[test]
fn test_sanitize_username() {
    let raw = "My Cool Name";
    let sanitized = sanitize_username(raw);
    assert_eq!(sanitized, "My_Cool_Name");
}

#[test]
fn test_content_validation_empty() {
    let content = "   ";
    assert!(is_blank(content));
}

#[test]
fn test_content_validation_valid() {
    let content = "This is valid content";
    assert!(!is_blank(content));
}

#[test]
fn roster_test_roster_query_struct() {
    let q = RosterQuery {
        tribe: None,
        sort: Some("username".to_string()),
        order: Some("asc".to_string()),
        search: None,
    };
    assert_eq!(q.sort.unwrap(), "username");
}

#[test]
fn test_address_lowercase_normalization() {
    let address = "0xABCDEF1234567890ABCDEF1234567890ABCDEF12";
    let normalized = normalize_address(address);
    assert_eq!(normalized, "0xabcdef1234567890abcdef1234567890abcdef12");
}

#[test]
fn test_hash_identity_deterministic() {
    let pepper1 = "test-pepper";
    let hash1 = hash_identity("test-input", pepper1);
    let hash2 = hash_identity("test-input", pepper1);
    assert_eq!(hash1, hash2);

    let hash3 = hash_identity("other-input", pepper1);
    assert_ne!(hash1, hash3);

    let pepper2 = "other-pepper";
    let hash4 = hash_identity("test-input", pepper2);
    assert_ne!(hash1, hash4);
}

#[test]
fn test_nonce_generation_uniqueness() {
    let mut nonces = NonceStore::new();
    let nonce1 = nonces.issue("0xa");
    let nonce2 = nonces.issue("0xb");
    assert_ne!(nonce1, nonce2);
}

#[test]
fn test_nonce_storage_and_retrieval() {
    let mut nonces = NonceStore::new();
    let address = normalize_address("0xtest");
    let nonce = "3f0c9a52-7f0e-4c53-9d1e-0d6a3f1f2b11".to_string();

    // Store
    nonces.issue_at(&address, nonce.clone(), 1_000);

    // Retrieve and remove
    let stored = nonces.consume(&address, 2_000);
    assert!(stored.is_some());
    assert_eq!(stored.unwrap(), nonce);

    // Verify it's gone
    assert!(nonces.consume(&address, 2_000).is_none());
}
