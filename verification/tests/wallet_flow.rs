use void_eid_backend::audit::AuditAction;
use void_eid_backend::auth::AuthenticatedUser;
use void_eid_backend::registry::{Registry, UnlinkError};
use void_eid_backend::service::{link_verify, unlink_wallet};
use void_eid_backend::tokens::{ConsumeError, TokenStore};
use void_eid_backend::wallet::{
    link_challenge, link_nonce, plan_link, require_valid_signature, LinkError, LinkOutcome,
    LinkPlan, NonceRequest, NonceStore, SignatureCheck, VerifyRequest, NONCE_TTL_MILLIS,
};

const ADDR1: &str = "0xabc0000000000000000000000000000000000000000000000000000000000001";

fn wall_clock_millis() -> i64 {
    let since = std::time::SystemTime::now()
        .duration_since(std::time::UNIX_EPOCH)
        .expect("clock after the epoch");
    since.as_millis() as i64
}

fn link(db: &mut Registry, user: i64, address: &str, binding: &str, audit: &str, now: i64)
    -> Result<LinkOutcome, LinkError> {
    db.link_wallet(user, address, SignatureCheck::Valid, binding.to_string(), audit.to_string(), now)
}

#[test]
fn nonce_is_single_use() {
    let mut nonces = NonceStore::new();
    nonces.issue_at("0xAbC", "n-1".to_string(), 10);
    assert_eq!(nonces.consume("0xabc", 20), Some("n-1".to_string()));
    assert_eq!(nonces.consume("0xabc", 20), None);
    assert_eq!(nonces.consume("0xABC", 30), None);
}

#[test]
fn nonce_is_keyed_by_normalized_address() {
    let mut nonces = NonceStore::new();
    nonces.issue_at("0xABCDEF", "n-1".to_string(), 10);
    assert_eq!(nonces.consume("0xabcdef", 11), Some("n-1".to_string()));
}

#[test]
fn issuing_again_overwrites_the_outstanding_nonce() {
    let mut nonces = NonceStore::new();
    nonces.issue_at("0xabc", "old".to_string(), 10);
    nonces.issue_at("0xabc", "new".to_string(), 20);
    assert_eq!(nonces.consume("0xabc", 30), Some("new".to_string()));
    assert_eq!(nonces.consume("0xabc", 30), None);
}

#[test]
fn nonce_expires_after_its_time_to_live() {
    let mut nonces = NonceStore::new();
    nonces.issue_at("0xabc", "n-1".to_string(), 1_000);
    // exactly at the bound the nonce is still fresh
    assert_eq!(nonces.consume("0xabc", 1_000 + NONCE_TTL_MILLIS), Some("n-1".to_string()));
    nonces.issue_at("0xabc", "n-2".to_string(), 1_000);
    assert_eq!(nonces.consume("0xabc", 1_000 + NONCE_TTL_MILLIS + 1), None);
    // the stale nonce was removed by the failed attempt
    assert_eq!(nonces.consume("0xabc", 1_001), None);
}

#[test]
fn token_store_tells_missing_from_expired() {
    let mut store = TokenStore::new(30_000);
    assert_eq!(store.ttl_millis(), 30_000);
    assert_eq!(store.consume("code", 0), Err(ConsumeError::NotFound));
    store.insert("code".to_string(), "jwt".to_string(), 100);
    assert!(store.contains("code"));
    assert_eq!(store.len(), 1);
    assert_eq!(store.consume("code", 30_101), Err(ConsumeError::Expired));
    assert_eq!(store.consume("code", 30_101), Err(ConsumeError::NotFound));
    store.insert("code".to_string(), "jwt".to_string(), 100);
    assert_eq!(store.consume("code", 30_100), Ok("jwt".to_string()));
    assert_eq!(store.len(), 0);
}

#[test]
fn token_store_handles_extreme_times() {
    let mut store = TokenStore::new(10);
    store.insert("k".to_string(), "v".to_string(), i64::MIN);
    assert_eq!(store.consume("k", i64::MAX), Err(ConsumeError::Expired));
    store.insert("k".to_string(), "v".to_string(), i64::MAX);
    assert_eq!(store.consume("k", i64::MIN), Ok("v".to_string()));
}

#[test]
fn link_nonce_hands_out_the_stored_challenge() {
    let mut nonces = NonceStore::new();
    let response = link_nonce(&mut nonces, &NonceRequest { address: "0xABC".to_string() });
    assert_eq!(response.nonce.len(), 36);
    assert_eq!(nonces.consume("0xabc", wall_clock_millis()), Some(response.nonce));
    assert_eq!(nonces.consume("0xabc", wall_clock_millis()), None);
}

#[test]
fn challenge_phase_decodes_the_signature() {
    let mut nonces = NonceStore::new();
    nonces.issue_at(ADDR1, "challenge".to_string(), 100);
    let request = VerifyRequest {
        address: ADDR1.to_uppercase().replace("0X", "0x"),
        signature: "aGVsbG8=".to_string(),
    };
    let pending = link_challenge(&mut nonces, &request, 200).expect("challenge phase");
    assert_eq!(pending.address, ADDR1);
    assert_eq!(pending.nonce, "challenge");
    assert_eq!(pending.signature, b"hello".to_vec());
}

#[test]
fn challenge_phase_rejects_bad_base64_and_still_consumes_the_nonce() {
    let mut nonces = NonceStore::new();
    nonces.issue_at(ADDR1, "challenge".to_string(), 100);
    let request = VerifyRequest { address: ADDR1.to_string(), signature: "%%%".to_string() };
    assert_eq!(link_challenge(&mut nonces, &request, 200).unwrap_err(), LinkError::InvalidBase64);
    // a second attempt finds no challenge, whatever the signature
    let retry = VerifyRequest { address: ADDR1.to_string(), signature: "aGVsbG8=".to_string() };
    assert_eq!(
        link_challenge(&mut nonces, &retry, 200).unwrap_err(),
        LinkError::NonceInvalidOrExpired
    );
}

#[test]
fn challenge_phase_without_nonce_fails() {
    let mut nonces = NonceStore::new();
    let request = VerifyRequest { address: ADDR1.to_string(), signature: "aGVsbG8=".to_string() };
    let err = link_challenge(&mut nonces, &request, 200).unwrap_err();
    assert_eq!(err, LinkError::NonceInvalidOrExpired);
    assert_eq!(err.status(), 400);
    assert_eq!(err.message(), "Nonce invalid or expired");
}

#[test]
fn signature_check_fails_closed() {
    assert_eq!(require_valid_signature(SignatureCheck::Valid), Ok(()));
    assert_eq!(
        require_valid_signature(SignatureCheck::MalformedSignature),
        Err(LinkError::InvalidSignatureFormat)
    );
    assert_eq!(
        require_valid_signature(SignatureCheck::MalformedAddress),
        Err(LinkError::InvalidAddressFormat)
    );
    assert_eq!(require_valid_signature(SignatureCheck::Mismatch), Err(LinkError::SignatureInvalid));
    assert_eq!(plan_link(SignatureCheck::Valid, None), Ok(LinkPlan::Insert));
    assert_eq!(plan_link(SignatureCheck::Mismatch, None), Err(LinkError::SignatureInvalid));
}

#[test]
fn link_errors_map_to_statuses() {
    assert_eq!(LinkError::InvalidBase64.status(), 400);
    assert_eq!(LinkError::InvalidSignatureFormat.status(), 400);
    assert_eq!(LinkError::InvalidAddressFormat.status(), 400);
    assert_eq!(LinkError::SignatureInvalid.status(), 400);
    assert_eq!(LinkError::AlreadyLinked.status(), 400);
    assert_eq!(LinkError::AlreadyLinked.message(), "Wallet already linked");
    assert_eq!(LinkError::Storage.status(), 500);
    assert_eq!(LinkOutcome::Linked.message(), "Wallet linked successfully");
    assert_eq!(LinkOutcome::Relinked.message(), "Wallet linked successfully");
    assert_eq!(UnlinkError::NotFoundOrNotOwned.status(), 404);
    assert_eq!(UnlinkError::Storage.status(), 500);
}

#[test]
fn new_link_creates_an_active_binding_and_an_audit_entry() {
    let mut db = Registry::new();
    assert_eq!(link(&mut db, 7, ADDR1, "w-1", "a-1", 1_000), Ok(LinkOutcome::Linked));
    let wallets = db.wallets();
    assert_eq!(wallets.len(), 1);
    assert_eq!(wallets[0].id, "w-1");
    assert_eq!(wallets[0].user_id, 7);
    assert_eq!(wallets[0].address, ADDR1);
    assert_eq!(wallets[0].verified_at, 1_000);
    assert_eq!(wallets[0].deleted_at, None);
    assert!(wallets[0].is_active());
    let logs = db.audit_logs();
    assert_eq!(logs.len(), 1);
    assert_eq!(logs[0].id, "a-1");
    assert_eq!(logs[0].action, AuditAction::LinkWallet);
    assert_eq!(logs[0].actor_id, 7);
    assert_eq!(logs[0].target_id, None);
    assert_eq!(logs[0].details, format!("Linked wallet {}", ADDR1));
    assert_eq!(logs[0].created_at, 1_000);
}

#[test]
fn linking_an_active_address_is_refused_even_for_its_owner() {
    let mut db = Registry::new();
    assert_eq!(link(&mut db, 7, ADDR1, "w-1", "a-1", 1_000), Ok(LinkOutcome::Linked));
    assert_eq!(link(&mut db, 7, ADDR1, "w-2", "a-2", 1_001), Err(LinkError::AlreadyLinked));
    assert_eq!(link(&mut db, 8, ADDR1, "w-3", "a-3", 1_002), Err(LinkError::AlreadyLinked));
    assert_eq!(db.wallets().len(), 1);
    assert_eq!(db.audit_logs().len(), 1);
}

#[test]
fn of_two_racing_links_exactly_one_wins() {
    let mut db = Registry::new();
    let first = link(&mut db, 1, ADDR1, "w-1", "a-1", 10);
    let second = link(&mut db, 2, ADDR1, "w-2", "a-2", 10);
    assert_eq!(first, Ok(LinkOutcome::Linked));
    assert_eq!(second, Err(LinkError::AlreadyLinked));
    let active: Vec<_> = db.wallets().iter().filter(|w| w.is_active()).collect();
    assert_eq!(active.len(), 1);
    assert_eq!(active[0].user_id, 1);
}

#[test]
fn failed_signature_changes_nothing() {
    let mut db = Registry::new();
    let r = db.link_wallet(7, ADDR1, SignatureCheck::Mismatch, "w-1".into(), "a-1".into(), 5);
    assert_eq!(r, Err(LinkError::SignatureInvalid));
    let r = db.link_wallet(7, ADDR1, SignatureCheck::MalformedAddress, "w-1".into(), "a-1".into(), 5);
    assert_eq!(r, Err(LinkError::InvalidAddressFormat));
    let r =
        db.link_wallet(7, ADDR1, SignatureCheck::MalformedSignature, "w-1".into(), "a-1".into(), 5);
    assert_eq!(r, Err(LinkError::InvalidSignatureFormat));
    assert_eq!(db.wallets().len(), 0);
    assert_eq!(db.audit_logs().len(), 0);
}

#[test]
fn relink_hands_the_binding_to_the_new_owner() {
    let mut db = Registry::new();
    assert_eq!(link(&mut db, 1, ADDR1, "w-1", "a-1", 10), Ok(LinkOutcome::Linked));
    assert_eq!(db.unlink_wallet(1, "w-1", "a-2".to_string(), 20), Ok(()));
    assert_eq!(db.wallets()[0].deleted_at, Some(20));
    assert_eq!(link(&mut db, 2, ADDR1, "w-ignored", "a-3", 30), Ok(LinkOutcome::Relinked));
    let wallets = db.wallets();
    assert_eq!(wallets.len(), 1);
    assert_eq!(wallets[0].id, "w-1");
    assert_eq!(wallets[0].user_id, 2);
    assert_eq!(wallets[0].verified_at, 30);
    assert!(wallets[0].is_active());
    assert!(!wallets.iter().any(|w| w.is_active() && w.user_id == 1));
    let logs = db.audit_logs();
    assert_eq!(logs.len(), 3);
    assert_eq!(logs[1].action, AuditAction::UnlinkWallet);
    assert_eq!(logs[1].details, format!("Unlinked wallet {}", ADDR1));
    assert_eq!(logs[2].action, AuditAction::LinkWallet);
    assert_eq!(logs[2].actor_id, 2);
    assert_eq!(logs[2].details, format!("Re-linked wallet {}", ADDR1));
}

#[test]
fn unlink_requires_an_active_binding_of_the_caller() {
    let mut db = Registry::new();
    assert_eq!(link(&mut db, 1, ADDR1, "w-1", "a-1", 10), Ok(LinkOutcome::Linked));
    assert_eq!(
        db.unlink_wallet(2, "w-1", "a-2".to_string(), 20),
        Err(UnlinkError::NotFoundOrNotOwned)
    );
    assert_eq!(
        db.unlink_wallet(1, "w-x", "a-2".to_string(), 20),
        Err(UnlinkError::NotFoundOrNotOwned)
    );
    assert_eq!(db.unlink_wallet(1, "w-1", "a-1".to_string(), 20), Err(UnlinkError::Storage));
    assert!(db.wallets()[0].is_active());
    assert_eq!(db.unlink_wallet(1, "w-1", "a-2".to_string(), 20), Ok(()));
    assert_eq!(
        db.unlink_wallet(1, "w-1", "a-3".to_string(), 21),
        Err(UnlinkError::NotFoundOrNotOwned)
    );
}

#[test]
fn storage_refusal_rolls_a_link_back() {
    let mut db = Registry::new();
    assert_eq!(link(&mut db, 1, ADDR1, "w-1", "a-1", 10), Ok(LinkOutcome::Linked));
    // the audit id is taken: the new binding must not stay
    assert_eq!(link(&mut db, 2, "0xother", "w-2", "a-1", 11), Err(LinkError::Storage));
    // the binding id is taken
    assert_eq!(link(&mut db, 2, "0xother", "w-1", "a-2", 11), Err(LinkError::Storage));
    assert_eq!(db.wallets().len(), 1);
    assert_eq!(db.audit_logs().len(), 1);
}

#[test]
fn end_to_end_link_with_a_fresh_nonce_then_a_stale_one() {
    let mut nonces = NonceStore::new();
    let mut db = Registry::new();
    let account = AuthenticatedUser { user_id: 42, is_super_admin: false };

    let issued = link_nonce(&mut nonces, &NonceRequest { address: ADDR1.to_string() });
    assert!(!issued.nonce.is_empty());

    // the wallet signs off-path; the verifier below stands for its verdict
    let request = VerifyRequest { address: ADDR1.to_string(), signature: "c2lnbmVk".to_string() };
    let pending = link_challenge(&mut nonces, &request, wall_clock_millis()).expect("fresh nonce");
    assert_eq!(pending.nonce, issued.nonce);
    let mut replay = nonces;
    assert_eq!(pending.signature, b"signed".to_vec());

    let outcome = link_verify(&mut db, &account, &pending, SignatureCheck::Valid);
    assert_eq!(outcome, Ok(LinkOutcome::Linked));
    assert!(db.wallets()[0].is_active());
    assert_eq!(db.wallets()[0].user_id, 42);
    assert_eq!(db.wallets()[0].id.len(), 36);
    let entry = &db.audit_logs()[0];
    assert_eq!(entry.action, AuditAction::LinkWallet);
    assert_eq!(entry.action.as_str(), "LINK_WALLET");
    assert_eq!(entry.actor_id, 42);
    assert!(entry.details.contains(ADDR1));
    assert!(entry.created_at > 0);

    // repeating with the consumed nonce
    let again = link_challenge(&mut replay, &request, 2_001).unwrap_err();
    assert_eq!(again, LinkError::NonceInvalidOrExpired);
    assert_eq!(again.status(), 400);

    // repeating with an expired nonce
    replay.issue_at(ADDR1, "late".to_string(), 1_000);
    let late = link_challenge(&mut replay, &request, 1_000 + NONCE_TTL_MILLIS + 1).unwrap_err();
    assert_eq!(late.status(), 400);

    // the caller unlinks its wallet through the handler
    let id = db.wallets()[0].id.clone();
    assert_eq!(unlink_wallet(&mut db, &id, &account), Ok(()));
    assert!(!db.wallets()[0].is_active());
    assert_eq!(db.audit_logs().len(), 2);
}

#[test]
fn test_wallet_insert_and_query() {
    let mut db = Registry::new();
    let address = "0xtest1234567890abcdef1234567890abcdef1234";
    assert_eq!(link(&mut db, 1001, address, "w-1", "a-1", 5), Ok(LinkOutcome::Linked));

    let wallet = db.wallets().iter().find(|w| w.address == address);
    assert!(wallet.is_some());
    let wallet = wallet.unwrap();
    assert_eq!(wallet.address, address);
    assert_eq!(wallet.user_id, 1001);
}

#[test]
fn test_wallet_duplicate_address_rejected() {
    let mut db = Registry::new();
    let address = "0xduplicate12345678901234567890123456789012";
    assert!(link(&mut db, 1001, address, "w-1", "a-1", 5).is_ok());

    let result = link(&mut db, 1001, address, "w-2", "a-2", 5);
    assert!(result.is_err());
}

#[test]
fn test_wallet_ownership_check() {
    let mut db = Registry::new();
    assert!(link(&mut db, 1001, "0xownedwallet", "w-1", "a-1", 5).is_ok());

    // Check ownership with correct user
    let wallet = db.wallets().iter().find(|w| w.id == "w-1" && w.user_id == 1001);
    assert!(wallet.is_some());

    // Check with wrong user
    let wallet_wrong_user = db.wallets().iter().find(|w| w.id == "w-1" && w.user_id == 9999);
    assert!(wallet_wrong_user.is_none());
    assert_eq!(
        db.unlink_wallet(9999, "w-1", "a-2".to_string(), 6),
        Err(UnlinkError::NotFoundOrNotOwned)
    );
}

#[test]
fn test_wallet_deletion() {
    let mut db = Registry::new();
    assert!(link(&mut db, 1001, "0xtobedeleted", "w-1", "a-1", 5).is_ok());

    // Delete
    assert_eq!(db.unlink_wallet(1001, "w-1", "a-2".to_string(), 6), Ok(()));

    // Verify deleted
    let wallet = db.wallets().iter().find(|w| w.id == "w-1" && w.is_active());
    assert!(wallet.is_none());
}
