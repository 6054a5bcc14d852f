use void_eid_backend::admin::{decide_add_user, decide_grant, AdminError, GrantPlan};
use void_eid_backend::audit::AuditAction;
use void_eid_backend::listing::{audits_about, audits_by, page_of_audits, wallets_of_user};
use void_eid_backend::models::{IdentityKind, User, WalletBinding};
use void_eid_backend::registry::{decide_forced_delete, decide_unlink, Registry, UnlinkError};
use void_eid_backend::roster::{paginate, MemberQuery, PageWindow};
use void_eid_backend::wallet::{plan_link, LinkError, LinkPlan, SignatureCheck};

fn user(id: i64) -> User {
    User {
        id,
        discord_id: format!("d-{}", id),
        username: format!("user{}", id),
        discriminator: "0000".to_string(),
        avatar: None,
        is_admin: false,
        last_login_at: None,
    }
}

fn wallet(id: &str, user_id: i64, deleted_at: Option<i64>) -> WalletBinding {
    WalletBinding {
        id: id.to_string(),
        user_id,
        address: format!("0x{}", id),
        verified_at: 1,
        deleted_at,
    }
}

#[test]
fn link_plan_depends_on_the_binding_that_holds_the_address() {
    let active = wallet("w", 1, None);
    let deleted = wallet("w", 1, Some(9));
    assert_eq!(plan_link(SignatureCheck::Valid, None), Ok(LinkPlan::Insert));
    assert_eq!(plan_link(SignatureCheck::Valid, Some(&deleted)), Ok(LinkPlan::Reactivate));
    assert_eq!(plan_link(SignatureCheck::Valid, Some(&active)), Err(LinkError::AlreadyLinked));
    // a failed signature is reported before anything about the binding
    assert_eq!(
        plan_link(SignatureCheck::Mismatch, Some(&active)),
        Err(LinkError::SignatureInvalid)
    );
}

#[test]
fn unlink_needs_an_active_binding_of_the_caller() {
    let active = wallet("w", 1, None);
    let deleted = wallet("w", 1, Some(9));
    assert_eq!(decide_unlink(Some(&active), 1), Ok(()));
    assert_eq!(decide_unlink(Some(&active), 2), Err(UnlinkError::NotFoundOrNotOwned));
    assert_eq!(decide_unlink(Some(&deleted), 1), Err(UnlinkError::NotFoundOrNotOwned));
    assert_eq!(decide_unlink(None, 1), Err(UnlinkError::NotFoundOrNotOwned));
    assert_eq!(decide_forced_delete(Some(&active)), Ok(()));
    assert_eq!(decide_forced_delete(Some(&deleted)), Err(UnlinkError::NotFoundOrNotOwned));
    assert_eq!(decide_forced_delete(None), Err(UnlinkError::NotFoundOrNotOwned));
}

#[test]
fn adding_a_user_checks_user_membership_and_tribe_in_order() {
    let u = user(1);
    assert_eq!(decide_add_user(None, true, false), Err(AdminError::UserNotFound));
    assert_eq!(decide_add_user(Some(&u), true, false), Err(AdminError::AlreadyInTribe));
    assert_eq!(decide_add_user(Some(&u), false, false), Err(AdminError::TribeMissing));
    assert_eq!(decide_add_user(Some(&u), false, true), Ok(()));
}

#[test]
fn a_grant_rests_on_an_active_wallet_of_the_target() {
    let u = user(1);
    let own = wallet("w", 1, None);
    let foreign = wallet("w", 2, None);
    let deleted = wallet("w", 1, Some(3));
    assert_eq!(decide_grant(&u, Some(&own), true), Ok(GrantPlan::UpdateMembership));
    assert_eq!(decide_grant(&u, Some(&own), false), Ok(GrantPlan::InsertMembership));
    assert_eq!(decide_grant(&u, Some(&foreign), true), Err(AdminError::WalletNotFound));
    assert_eq!(decide_grant(&u, Some(&deleted), true), Err(AdminError::WalletNotFound));
    assert_eq!(decide_grant(&u, None, false), Err(AdminError::WalletNotFound));
}

#[test]
fn audit_log_is_queried_per_actor_and_per_target() {
    let mut db = Registry::new();
    assert!(db.log_audit("a-1".into(), AuditAction::Login, 1, None, "one", 1));
    assert!(db.log_audit("a-2".into(), AuditAction::ViewMember, 2, Some(1), "two", 2));
    assert!(db.log_audit("a-3".into(), AuditAction::ViewMember, 1, Some(2), "three", 3));
    assert!(db.log_audit("a-4".into(), AuditAction::Login, 2, None, "four", 4));
    assert!(db.log_audit("a-5".into(), AuditAction::LinkWallet, 1, None, "five", 5));

    let ids = |entries: &Vec<void_eid_backend::audit::AuditLogEntry>| {
        entries.iter().map(|e| e.id.clone()).collect::<Vec<_>>()
    };
    assert_eq!(ids(&audits_about(&db, 1)), vec!["a-1", "a-2", "a-5"]);
    assert_eq!(ids(&audits_about(&db, 2)), vec!["a-3", "a-4"]);
    assert_eq!(ids(&audits_by(&db, 1)), vec!["a-1", "a-3", "a-5"]);
    assert!(audits_by(&db, 3).is_empty());

    let about = audits_about(&db, 1);
    let query = MemberQuery { tribe: None, audit_page: Some(1), audit_per_page: Some(2) };
    let first = page_of_audits(&about, &paginate(&query, about.len() as i64));
    assert_eq!(ids(&first), vec!["a-5", "a-2"]);
    let query = MemberQuery { tribe: None, audit_page: Some(2), audit_per_page: Some(2) };
    let second = page_of_audits(&about, &paginate(&query, about.len() as i64));
    assert_eq!(ids(&second), vec!["a-1"]);
    let query = MemberQuery { tribe: None, audit_page: Some(3), audit_per_page: Some(2) };
    assert!(page_of_audits(&about, &paginate(&query, about.len() as i64)).is_empty());

    let odd = PageWindow { page: 1, per_page: -1, offset: -5, total_pages: 0 };
    assert!(page_of_audits(&about, &odd).is_empty());
    let wide = PageWindow { page: 1, per_page: i64::MAX, offset: i64::MAX, total_pages: 0 };
    assert!(page_of_audits(&about, &wide).is_empty());
    let all = PageWindow { page: 1, per_page: i64::MAX, offset: -1, total_pages: 0 };
    assert_eq!(ids(&page_of_audits(&about, &all)), vec!["a-5", "a-2", "a-1"]);
}

#[test]
fn wallets_are_listed_with_the_tribes_that_rest_on_them() {
    let mut db = Registry::new();
    assert!(db.insert_user(user(1)));
    db.create_tribe(1, "Earth", "t-1".into(), 1).unwrap();
    db.link_wallet(1, "0xa", SignatureCheck::Valid, "w-a".into(), "l-1".into(), 2).unwrap();
    db.link_wallet(1, "0xb", SignatureCheck::Valid, "w-b".into(), "l-2".into(), 3).unwrap();
    db.grant_admin(1, "d-1", "Earth", "w-a", "g-1".into(), 4).unwrap();
    db.grant_admin(1, "d-1", "Water", "w-a", "g-2".into(), 5).unwrap();
    db.unlink_wallet(1, "w-b", "u-1".into(), 6).unwrap();

    let all = wallets_of_user(&db, 1, false);
    assert_eq!(all.len(), 2);
    assert_eq!(all[0].tribes, vec!["Earth", "Water"]);
    assert_eq!(all[1].deleted_at, Some(6));
    let active = wallets_of_user(&db, 1, true);
    assert_eq!(active.len(), 1);
    assert_eq!(active[0].id, "w-a");
    assert!(wallets_of_user(&db, 2, false).is_empty());
}

#[test]
fn erasure_remembers_each_fingerprint_once() {
    let mut db = Registry::new();
    assert!(db.insert_user(user(1)));
    assert!(db.insert_user(user(2)));
    db.link_wallet(1, "0xa", SignatureCheck::Valid, "w-a".into(), "l-1".into(), 2).unwrap();
    db.link_wallet(2, "0xb", SignatureCheck::Valid, "w-b".into(), "l-2".into(), 3).unwrap();
    db.delete_account(1, "pep", 7, "x-1".into(), 9).unwrap();
    let kinds: Vec<IdentityKind> = db.identity_hashes().iter().map(|h| h.kind).collect();
    assert_eq!(kinds, vec![IdentityKind::Discord, IdentityKind::Wallet]);
    assert_eq!(db.wallets().len(), 1);
    assert_eq!(db.wallets()[0].id, "w-b");
    // the address of the erased account can be linked again by someone else
    assert!(db
        .link_wallet(2, "0xa", SignatureCheck::Valid, "w-c".into(), "l-3".into(), 10)
        .is_ok());
}
