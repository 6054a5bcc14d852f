use void_eid_backend::admin::{
    validate_tribe_name, validate_username, AddUserToTribeRequest, AdminError,
    CreateTribeRequest, UpdateUserRequest,
};
use void_eid_backend::audit::AuditAction;
use void_eid_backend::auth::{AuthenticatedUser, RequireSuperAdmin, SuperAdmins};
use void_eid_backend::coordinator::{status_of, step, TxAction, TxEvent, TxState};
use void_eid_backend::errors::ErrorKind;
use void_eid_backend::listing::{get_me, get_roster, list_tribes, list_users};
use void_eid_backend::models::User;
use void_eid_backend::mumble::MumbleAccount;
use void_eid_backend::notes::Note;
use void_eid_backend::registry::{Registry, UnlinkError};
use void_eid_backend::roster::{GrantAdminRequest, MemberQuery, RosterQuery};
use void_eid_backend::service::{
    add_user_to_tribe, create_tribe, delete_me, delete_wallet, get_admin_id, grant_admin,
    log_audit, update_tribe, update_user, GrantError,
};
use void_eid_backend::wallet::SignatureCheck;

fn user(id: i64, discord_id: &str, username: &str, is_admin: bool) -> User {
    User {
        id,
        discord_id: discord_id.to_string(),
        username: username.to_string(),
        discriminator: "0001".to_string(),
        avatar: Some("avatar_url".to_string()),
        is_admin,
        last_login_at: Some(5),
    }
}

fn seeded() -> Registry {
    let mut db = Registry::new();
    assert!(db.insert_user(user(1001, "admin-discord-id", "AdminUser", true)));
    assert!(db.insert_user(user(1002, "regular-discord-id", "RegularUser", false)));
    db.create_tribe(1001, "Earth", "t-1".to_string(), 1).unwrap();
    db.create_tribe(1001, "Water", "t-2".to_string(), 2).unwrap();
    db.add_user_to_tribe(1001, "Earth", "adminuser", "m-1".to_string(), 3).unwrap();
    db.add_user_to_tribe(1001, "Earth", "RegularUser", "m-2".to_string(), 4).unwrap();
    db
}

fn link(db: &mut Registry, user: i64, address: &str, binding: &str, audit: &str) {
    db.link_wallet(user, address, SignatureCheck::Valid, binding.to_string(), audit.to_string(), 9)
        .expect("link");
}

#[test]
fn audit_test_log_audit_without_target() {
    let mut db = seeded();
    let before = db.audit_logs().len();
    let result = log_audit(&mut db, AuditAction::ViewRoster, 1001, None, "Viewed roster");
    assert!(result.is_ok());
    assert_eq!(db.audit_logs().len(), before + 1);
    let entry = db.audit_logs().last().unwrap();
    assert_eq!(entry.action, AuditAction::ViewRoster);
    assert_eq!(entry.details, "Viewed roster");
    assert_eq!(entry.id.len(), 36);
}

#[test]
fn audit_test_log_audit_with_target() {
    let mut db = seeded();
    let result =
        log_audit(&mut db, AuditAction::ViewMember, 1001, Some(1002), "Viewed member details");
    assert!(result.is_ok());
    assert_eq!(db.audit_logs().last().unwrap().target_id, Some(1002));
}

#[test]
fn log_audit_refuses_an_id_in_use() {
    let mut db = Registry::new();
    assert!(db.log_audit("a-1".to_string(), AuditAction::Login, 1, None, "first", 10));
    assert!(!db.log_audit("a-1".to_string(), AuditAction::Login, 1, None, "second", 11));
    assert_eq!(db.audit_logs().len(), 1);
    assert_eq!(db.audit_logs()[0].details, "first");
}

#[test]
fn tribe_names_are_validated_before_anything_is_written() {
    assert_eq!(validate_tribe_name("Fire"), Ok(()));
    assert_eq!(validate_tribe_name(""), Err(AdminError::EmptyName));
    assert_eq!(validate_tribe_name(" \t\n"), Err(AdminError::EmptyName));
    assert_eq!(validate_tribe_name(&"x".repeat(100)), Ok(()));
    assert_eq!(validate_tribe_name(&"x".repeat(101)), Err(AdminError::NameTooLong));
    assert_eq!(validate_username(&"y".repeat(100)), Ok(()));
    assert_eq!(validate_username(&"y".repeat(101)), Err(AdminError::UsernameTooLong));
    assert_eq!(AdminError::EmptyName.status(), 400);
    assert_eq!(
        AdminError::NameTooLong.message(),
        "Tribe name exceeds maximum length (100 characters)"
    );
    assert_eq!(AdminError::UsernameTooLong.status(), 400);
    assert_eq!(AdminError::AdminUnknown.status(), 500);
}

#[test]
fn create_tribe_conflicts_on_a_name_in_use() {
    let mut db = seeded();
    assert_eq!(db.create_tribe(1001, "Earth", "t-3".to_string(), 5), Err(AdminError::TribeExists));
    assert_eq!(AdminError::TribeExists.status(), 409);
    assert_eq!(db.create_tribe(1001, "Fire", "t-1".to_string(), 5), Err(AdminError::Storage));
    assert_eq!(AdminError::Storage.status(), 500);
    assert_eq!(list_tribes(&db), vec!["Earth", "Water"]);
    assert_eq!(db.create_tribe(1001, "Fire", "t-3".to_string(), 5), Ok(()));
    assert_eq!(list_tribes(&db), vec!["Earth", "Fire", "Water"]);
    let entry = db.audit_logs().last().unwrap();
    assert_eq!(entry.action, AuditAction::SuperAdminCreateTribe);
    assert_eq!(entry.details, "Created Tribe 'Fire'");
    assert_eq!(entry.actor_id, 1001);
}

#[test]
fn rename_is_rolled_back_when_the_audit_entry_is_refused() {
    let mut db = seeded();
    let logs_before = db.audit_logs().len();
    // "t-1" is the id of an audit entry that exists: the insert must fail
    let r = db.update_tribe(1001, "Earth", "Terra", "t-1".to_string(), 50);
    assert_eq!(r, Err(AdminError::Storage));
    assert_eq!(list_tribes(&db), vec!["Earth", "Water"]);
    assert!(db.user_tribes().iter().all(|m| m.tribe == "Earth"));
    assert_eq!(db.audit_logs().len(), logs_before);
}

#[test]
fn rename_updates_the_tribe_and_every_membership() {
    let mut db = seeded();
    assert_eq!(db.update_tribe(1001, "Earth", "Terra", "r-1".to_string(), 50), Ok(()));
    assert_eq!(list_tribes(&db), vec!["Terra", "Water"]);
    assert!(db.user_tribes().iter().all(|m| m.tribe == "Terra"));
    let entry = db.audit_logs().last().unwrap();
    assert_eq!(entry.action, AuditAction::SuperAdminUpdateTribe);
    assert_eq!(entry.details, "Renamed Tribe 'Earth' to 'Terra'");
    assert_eq!(entry.target_id, None);
}

#[test]
fn rename_conflicts_and_validations() {
    let mut db = seeded();
    assert_eq!(
        db.update_tribe(1001, "Earth", "Water", "r-1".to_string(), 50),
        Err(AdminError::TribeExists)
    );
    assert_eq!(db.update_tribe(1001, "Earth", "  ", "r-1".to_string(), 50), Err(AdminError::EmptyName));
    assert_eq!(
        db.update_tribe(1001, "Earth", &"n".repeat(101), "r-1".to_string(), 50),
        Err(AdminError::NameTooLong)
    );
    // renaming a tribe to its own name is no conflict
    assert_eq!(db.update_tribe(1001, "Earth", "Earth", "r-1".to_string(), 50), Ok(()));
    // an account in both tribes would end up twice in one
    db.add_user_to_tribe(1001, "Water", "RegularUser", "m-3".to_string(), 6).unwrap();
    db.create_tribe(1001, "Fire", "t-3".to_string(), 7).unwrap();
    assert_eq!(
        db.update_tribe(1001, "Earth", "Water", "r-2".to_string(), 51),
        Err(AdminError::TribeExists)
    );
    assert_eq!(list_tribes(&db), vec!["Earth", "Fire", "Water"]);
}

#[test]
fn add_user_to_tribe_checks_in_order() {
    let mut db = seeded();
    let long = "u".repeat(101);
    assert_eq!(
        db.add_user_to_tribe(1001, "Earth", &long, "m-9".to_string(), 9),
        Err(AdminError::UsernameTooLong)
    );
    let r = db.add_user_to_tribe(1001, "Earth", "Nobody", "m-9".to_string(), 9);
    assert_eq!(r, Err(AdminError::UserNotFound));
    assert_eq!(AdminError::UserNotFound.status(), 404);
    let r = db.add_user_to_tribe(1001, "Earth", "REGULARUSER", "m-9".to_string(), 9);
    assert_eq!(r, Err(AdminError::AlreadyInTribe));
    assert_eq!(AdminError::AlreadyInTribe.status(), 409);
    assert_eq!(AdminError::AlreadyInTribe.message(), "User already in tribe");
    let r = db.add_user_to_tribe(1001, "Fire", "RegularUser", "m-9".to_string(), 9);
    assert_eq!(r, Err(AdminError::TribeMissing));
    assert_eq!(AdminError::TribeMissing.status(), 400);
    assert_eq!(AdminError::TribeMissing.message(), "Tribe does not exist");
    let r = db.add_user_to_tribe(1001, "Water", "RegularUser", "m-1".to_string(), 9);
    assert_eq!(r, Err(AdminError::Storage));
    assert_eq!(db.user_tribes().len(), 2);
    assert_eq!(db.add_user_to_tribe(1001, "Water", "regularuser", "m-9".to_string(), 9), Ok(()));
    let row = db.user_tribes().last().unwrap();
    assert_eq!(row.user_id, 1002);
    assert_eq!(row.tribe, "Water");
    assert!(!row.is_admin);
    assert_eq!(row.wallet_id, None);
    assert_eq!(row.created_at, Some(9));
    let entry = db.audit_logs().last().unwrap();
    assert_eq!(entry.details, "Added User 'RegularUser' to Tribe 'Water'");
    assert_eq!(entry.target_id, Some(1002));
}

#[test]
fn forced_delete_clears_the_weak_references() {
    let mut db = seeded();
    link(&mut db, 1002, "0xregularwallet987654321", "w-1", "a-1");
    db.grant_admin(1001, "regular-discord-id", "Earth", "w-1", "g-1".to_string(), 10).unwrap();
    assert_eq!(db.user_tribes()[1].wallet_id.as_deref(), Some("w-1"));
    assert!(db.user_tribes()[1].is_admin);

    // the audit entry is written first: a refused entry is reported first
    assert_eq!(db.delete_wallet(1001, "none", "a-1".to_string(), 11), Err(UnlinkError::Storage));
    assert_eq!(
        db.delete_wallet(1001, "none", "d-1".to_string(), 11),
        Err(UnlinkError::NotFoundOrNotOwned)
    );
    assert_eq!(db.delete_wallet(1001, "w-1", "d-1".to_string(), 11), Ok(()));
    assert_eq!(db.wallets()[0].deleted_at, Some(11));
    assert_eq!(db.user_tribes()[1].wallet_id, None);
    assert!(db.user_tribes()[1].is_admin);
    let entry = db.audit_logs().last().unwrap();
    assert_eq!(entry.action, AuditAction::SuperAdminDeleteWallet);
    assert_eq!(entry.details, "Forced soft delete wallet w-1");
    assert_eq!(
        db.delete_wallet(1001, "w-1", "d-2".to_string(), 12),
        Err(UnlinkError::NotFoundOrNotOwned)
    );
}

#[test]
fn unlink_clears_the_weak_references_too() {
    let mut db = seeded();
    link(&mut db, 1002, "0xregularwallet987654321", "w-1", "a-1");
    db.grant_admin(1001, "regular-discord-id", "Water", "w-1", "g-1".to_string(), 10).unwrap();
    assert_eq!(db.user_tribes().last().unwrap().wallet_id.as_deref(), Some("w-1"));
    db.unlink_wallet(1002, "w-1", "u-1".to_string(), 11).unwrap();
    assert_eq!(db.user_tribes().last().unwrap().wallet_id, None);
    assert_eq!(db.user_tribes().last().unwrap().tribe, "Water");
}

#[test]
fn grant_admin_needs_an_active_wallet_of_the_member() {
    let mut db = seeded();
    link(&mut db, 1001, "0xadminwallet123456789", "w-admin", "a-1");
    let r = db.grant_admin(1001, "nobody", "Earth", "w-admin", "g-1".to_string(), 10);
    assert_eq!(r, Err(AdminError::UserNotFound));
    let r = db.grant_admin(1001, "regular-discord-id", "Earth", "w-admin", "g-1".to_string(), 10);
    assert_eq!(r, Err(AdminError::WalletNotFound));
    assert_eq!(AdminError::WalletNotFound.status(), 404);
    let r = db.grant_admin(1001, "regular-discord-id", "Earth", "w-none", "g-1".to_string(), 10);
    assert_eq!(r, Err(AdminError::WalletNotFound));
    link(&mut db, 1002, "0xregular", "w-reg", "a-2");
    db.unlink_wallet(1002, "w-reg", "a-3".to_string(), 11).unwrap();
    let r = db.grant_admin(1001, "regular-discord-id", "Earth", "w-reg", "g-1".to_string(), 12);
    assert_eq!(r, Err(AdminError::WalletNotFound));
}

#[test]
fn grant_admin_through_the_handler_resolves_the_tribe() {
    let mut db = seeded();
    link(&mut db, 1002, "0xregular", "w-reg", "a-1");
    let admin = AuthenticatedUser { user_id: 1001, is_super_admin: false };
    let plain = AuthenticatedUser { user_id: 1002, is_super_admin: false };
    let query = MemberQuery { tribe: None, audit_page: None, audit_per_page: None };
    let payload = GrantAdminRequest { wallet_id: "w-reg".to_string() };
    let r = grant_admin(&mut db, "regular-discord-id", &query, &plain, &payload);
    assert!(matches!(r, Err(GrantError::Access(_))));
    assert_eq!(r.unwrap_err().status(), 403);
    assert_eq!(grant_admin(&mut db, "regular-discord-id", &query, &admin, &payload), Ok(()));
    let row = &db.user_tribes()[1];
    assert!(row.is_admin);
    assert_eq!(row.wallet_id.as_deref(), Some("w-reg"));
    let entry = db.audit_logs().last().unwrap();
    assert_eq!(entry.action, AuditAction::AdminGrant);
    assert_eq!(entry.actor_id, 1001);
    assert_eq!(entry.target_id, Some(1002));
    assert_eq!(entry.details, "Granted admin to RegularUser in tribe Earth via wallet w-reg");
    let missing = GrantAdminRequest { wallet_id: "w-none".to_string() };
    let r = grant_admin(&mut db, "regular-discord-id", &query, &admin, &missing);
    assert_eq!(r, Err(GrantError::Admin(AdminError::WalletNotFound)));
}

#[test]
fn update_user_sets_flags_and_records_old_and_new_values() {
    let mut db = seeded();
    db.add_user_to_tribe(1001, "Water", "RegularUser", "m-3".to_string(), 6).unwrap();
    let payload = UpdateUserRequest {
        is_admin: true,
        username: "Renamed".to_string(),
        discriminator: "4242".to_string(),
        admin_tribes: vec!["Water".to_string(), "Fire".to_string()],
    };
    assert_eq!(
        db.update_user(1001, 404, &payload, "u-1".to_string(), 20),
        Err(AdminError::UserNotFound)
    );
    assert_eq!(
        db.update_user(1001, 1002, &payload, "m-3".to_string(), 20),
        Err(AdminError::Storage)
    );
    assert_eq!(db.users()[1].username, "RegularUser");
    assert_eq!(db.update_user(1001, 1002, &payload, "u-1".to_string(), 20), Ok(()));
    let u = &db.users()[1];
    assert_eq!(u.username, "Renamed");
    assert_eq!(u.discriminator, "4242");
    assert!(u.is_admin);
    assert_eq!(u.discord_id, "regular-discord-id");
    let flags: Vec<(i64, String, bool)> =
        db.user_tribes().iter().map(|m| (m.user_id, m.tribe.clone(), m.is_admin)).collect();
    assert_eq!(
        flags,
        vec![
            (1001, "Earth".to_string(), false),
            (1002, "Earth".to_string(), false),
            (1002, "Water".to_string(), true),
        ]
    );
    let entry = db.audit_logs().last().unwrap();
    assert_eq!(entry.action, AuditAction::SuperAdminUpdateUser);
    assert_eq!(entry.target_id, Some(1002));
    assert_eq!(
        entry.details,
        "is_admin: false->true, username: RegularUser->Renamed, discriminator: 0001->4242, \
         admin_tribes: [\"Water\", \"Fire\"]"
    );
}

#[test]
fn handlers_act_for_the_super_admin_account() {
    let mut db = seeded();
    let admin = RequireSuperAdmin { discord_id: "admin-discord-id".to_string() };
    let ghost = RequireSuperAdmin { discord_id: "unknown".to_string() };
    assert_eq!(get_admin_id(&db, "admin-discord-id"), Some(1001));
    assert_eq!(get_admin_id(&db, "unknown"), None);

    let fire = CreateTribeRequest { name: "Fire".to_string() };
    assert_eq!(create_tribe(&mut db, &ghost, &fire), Err(AdminError::AdminUnknown));
    let blank = CreateTribeRequest { name: " ".to_string() };
    assert_eq!(create_tribe(&mut db, &ghost, &blank), Err(AdminError::EmptyName));
    assert_eq!(create_tribe(&mut db, &admin, &fire), Ok(()));
    assert_eq!(create_tribe(&mut db, &admin, &fire), Err(AdminError::TribeExists));

    let ember = CreateTribeRequest { name: "Ember".to_string() };
    assert_eq!(update_tribe(&mut db, &admin, "Fire", &ember), Ok(()));
    assert_eq!(list_tribes(&db), vec!["Earth", "Ember", "Water"]);

    let add = AddUserToTribeRequest { username: "regularuser".to_string() };
    assert_eq!(add_user_to_tribe(&mut db, &admin, "Ember", &add), Ok(()));
    assert_eq!(add_user_to_tribe(&mut db, &admin, "Ember", &add), Err(AdminError::AlreadyInTribe));
    assert_eq!(add_user_to_tribe(&mut db, &ghost, "Ember", &add), Err(AdminError::AdminUnknown));

    let change = UpdateUserRequest {
        is_admin: false,
        username: "Regular".to_string(),
        discriminator: "0002".to_string(),
        admin_tribes: vec!["Ember".to_string()],
    };
    assert_eq!(update_user(&mut db, &admin, 1002, &change), Ok(()));
    assert!(db.user_tribes().iter().any(|m| m.user_id == 1002 && m.tribe == "Ember" && m.is_admin));

    link(&mut db, 1002, "0xregular", "w-reg", "a-1");
    assert_eq!(delete_wallet(&mut db, &admin, "w-reg"), Ok(()));
    assert_eq!(delete_wallet(&mut db, &admin, "w-reg"), Err(AdminError::WalletNotFound));
    assert_eq!(delete_wallet(&mut db, &ghost, "w-reg"), Err(AdminError::AdminUnknown));
    assert!(db.audit_logs().iter().all(|e| !e.id.is_empty()));
}

#[test]
fn listings_show_tribes_admin_tribes_and_wallets() {
    let mut db = seeded();
    link(&mut db, 1002, "0xregular", "w-reg", "a-1");
    link(&mut db, 1002, "0xsecond", "w-two", "a-2");
    db.grant_admin(1001, "regular-discord-id", "Water", "w-reg", "g-1".to_string(), 10).unwrap();
    db.unlink_wallet(1002, "w-two", "a-3".to_string(), 11).unwrap();

    let admins = SuperAdmins::parse("someone, regular-discord-id ,");
    assert_eq!(admins.ids, vec!["someone", "regular-discord-id", ""]);
    let users = list_users(&db, &admins);
    assert_eq!(users.len(), 2);
    assert_eq!(users[0].id, "1001");
    assert_eq!(users[0].tribes, vec!["Earth"]);
    assert_eq!(users[0].admin_tribes, vec!["Earth"]);
    assert!(!users[0].is_super_admin);
    assert!(users[0].wallets.is_empty());
    assert_eq!(users[1].id, "1002");
    assert_eq!(users[1].tribes, vec!["Earth", "Water"]);
    assert_eq!(users[1].admin_tribes, vec!["Water"]);
    assert!(users[1].is_super_admin);
    assert_eq!(users[1].wallets.len(), 2);
    assert_eq!(users[1].wallets[0].tribes, vec!["Water"]);
    assert!(users[1].wallets[1].tribes.is_empty());
    assert_eq!(users[1].wallets[1].deleted_at, Some(11));

    let me = get_me(&db, &AuthenticatedUser { user_id: 1002, is_super_admin: false }).unwrap();
    assert_eq!(me.username, "RegularUser");
    assert_eq!(me.wallets.len(), 1);
    assert_eq!(me.wallets[0].id, "w-reg");
    assert!(!me.is_super_admin);
    let gone = get_me(&db, &AuthenticatedUser { user_id: 7, is_super_admin: false });
    assert_eq!(gone.unwrap_err().status(), 401);

    let query = RosterQuery { tribe: None, sort: None, order: None, search: None };
    let roster =
        get_roster(&mut db, &AuthenticatedUser { user_id: 1001, is_super_admin: false }, &query)
            .unwrap();
    assert_eq!(roster.len(), 2);
    assert_eq!(roster[0].username, "AdminUser");
    assert_eq!(roster[1].wallets.len(), 2);
    assert!(roster[1].audits.is_none());
}

fn plain_user(id: i64, discord_id: &str, username: &str, tag: &str, is_admin: bool) -> User {
    User {
        id,
        discord_id: discord_id.to_string(),
        username: username.to_string(),
        discriminator: tag.to_string(),
        avatar: None,
        is_admin,
        last_login_at: None,
    }
}

fn join(db: &mut Registry, username: &str, tribe: &str, n: u32) {
    let _ = db.create_tribe(0, tribe, format!("seed-tribe-{}", n), 0);
    db.add_user_to_tribe(0, tribe, username, format!("seed-member-{}", n), 0).expect("member");
}

fn no_query() -> RosterQuery {
    RosterQuery { tribe: None, sort: None, order: None, search: None }
}

#[test]
fn roster_test_roster_logic_admin_only() {
    let mut db = Registry::new();

    // 1. Create Admin User
    assert!(db.insert_user(plain_user(111, "123", "admin", "0000", true)));
    // Add admin to Fire tribe
    join(&mut db, "admin", "Fire", 1);

    // 2. Create Normal User in same tribe
    assert!(db.insert_user(plain_user(222, "456", "member", "1111", false)));
    join(&mut db, "member", "Fire", 2);

    // 3. Create User in different tribe
    assert!(db.insert_user(plain_user(333, "789", "alien", "2222", false)));
    join(&mut db, "alien", "Water", 3);

    // 4. Test as Admin
    let auth_user = AuthenticatedUser { user_id: 111, is_super_admin: false };
    let views_before =
        db.audit_logs().iter().filter(|e| e.action == AuditAction::ViewRoster).count();
    let response = get_roster(&mut db, &auth_user, &no_query());
    assert!(response.is_ok());

    let roster = response.unwrap();
    let names: Vec<&str> = roster.iter().map(|m| m.username.as_str()).collect();
    assert_eq!(names, vec!["admin", "member"]);
    let views: Vec<_> =
        db.audit_logs().iter().filter(|e| e.action == AuditAction::ViewRoster).collect();
    assert_eq!(views.len(), views_before + 1);
    assert_eq!(views[0].actor_id, 111);
    assert_eq!(views[0].target_id, None);
    assert_eq!(views[0].details, "Viewed roster for tribe Fire");
}

#[test]
fn roster_test_roster_logic_forbidden() {
    let mut db = Registry::new();
    assert!(db.insert_user(plain_user(444, "123", "user", "0000", false)));
    // Add user to Fire tribe
    join(&mut db, "user", "Fire", 1);

    let auth_user = AuthenticatedUser { user_id: 444, is_super_admin: false };
    let logs_before = db.audit_logs().len();
    let response = get_roster(&mut db, &auth_user, &no_query());
    assert_eq!(response.unwrap_err().status(), 403);
    assert_eq!(db.audit_logs().len(), logs_before);
}

#[test]
fn roster_is_ordered_as_the_query_asks() {
    let mut db = Registry::new();
    let mut zed = plain_user(1, "d1", "zed", "0", true);
    zed.last_login_at = Some(50);
    let mut amy = plain_user(2, "d2", "amy", "0", false);
    amy.last_login_at = Some(70);
    let bob = plain_user(3, "d3", "bob", "0", false);
    let cat = plain_user(4, "d4", "Cat", "0", false);
    for u in [zed, amy, bob, cat] {
        assert!(db.insert_user(u));
    }
    for (n, name) in ["zed", "amy", "bob", "Cat"].iter().enumerate() {
        join(&mut db, name, "Fire", n as u32);
    }
    link(&mut db, 3, "0xb1", "w-b1", "l-1");
    link(&mut db, 3, "0xb2", "w-b2", "l-2");
    link(&mut db, 1, "0xz1", "w-z1", "l-3");
    let me = AuthenticatedUser { user_id: 1, is_super_admin: false };
    let names = |db: &mut Registry, sort: Option<&str>, order: Option<&str>| -> Vec<String> {
        let query = RosterQuery {
            tribe: None,
            sort: sort.map(String::from),
            order: order.map(String::from),
            search: None,
        };
        get_roster(db, &me, &query).unwrap().into_iter().map(|m| m.username).collect()
    };
    // by the bytes of the name: capitals come first
    assert_eq!(names(&mut db, None, None), vec!["Cat", "amy", "bob", "zed"]);
    assert_eq!(names(&mut db, Some("username"), Some("desc")), vec!["zed", "bob", "amy", "Cat"]);
    // missing times come first
    assert_eq!(names(&mut db, Some("last_login"), None), vec!["bob", "Cat", "zed", "amy"]);
    assert_eq!(names(&mut db, Some("last_login"), Some("desc")), vec!["amy", "zed", "Cat", "bob"]);
    // by wallets, members with equal numbers in the order of their names
    assert_eq!(names(&mut db, Some("wallet_count"), None), vec!["Cat", "amy", "zed", "bob"]);
    assert_eq!(
        names(&mut db, Some("wallet_count"), Some("desc")),
        vec!["bob", "zed", "Cat", "amy"]
    );
    let views = db.audit_logs().iter().filter(|e| e.action == AuditAction::ViewRoster).count();
    assert_eq!(views, 6);
}

#[test]
fn an_account_in_no_tribe_sees_an_empty_roster() {
    let mut db = Registry::new();
    assert!(db.insert_user(user(5, "d5", "Loner", true)));
    let roster =
        get_roster(&mut db, &AuthenticatedUser { user_id: 5, is_super_admin: false }, &no_query())
            .unwrap();
    assert!(roster.is_empty());
    assert!(db.audit_logs().is_empty());
}

#[test]
fn test_delete_account_full_flow() {
    let pepper = "test-pepper";
    let mut db = Registry::new();

    // 1. Create a user with wallets and associations
    let user_id: i64 = 7_000_000_001;
    let discord_id = format!("discord_{}", user_id);
    let wallet_address = "0xTestWalletAddress".to_lowercase();
    assert!(db.insert_user(plain_user(user_id, &discord_id, "TestUser", "0000", false)));
    assert!(db.insert_user(plain_user(9, "other", "Other", "0000", false)));
    link(&mut db, user_id, &wallet_address, "w-1", "a-1");
    db.grant_admin(user_id, &discord_id, "TestTribe", "w-1", "g-1".to_string(), 10).unwrap();
    db.save_mumble_account(MumbleAccount {
        user_id,
        username: "testmumble".to_string(),
        password_hash: "hash".to_string(),
    });
    db.save_mumble_account(MumbleAccount {
        user_id: 9,
        username: "othermumble".to_string(),
        password_hash: "hash".to_string(),
    });
    let note = |id: &str, author_id: i64, target_user_id: i64| Note {
        id: id.to_string(),
        target_user_id,
        author_id,
        tribe: "TestTribe".to_string(),
        content: "Test content".to_string(),
        created_at: 1,
        updated_at: 1,
    };
    assert!(db.add_note(note("n-1", user_id, user_id)));
    assert!(db.add_note(note("n-2", 9, user_id)));
    assert!(db.add_note(note("n-3", user_id, 9)));
    assert!(db.add_note(note("n-4", 9, 9)));
    assert!(!db.add_note(note("n-4", 9, 9)));

    // 2. Run delete_me
    let auth_user = AuthenticatedUser { user_id, is_super_admin: false };
    delete_me(&mut db, &auth_user, pepper).expect("delete_me failed");

    // 3. Verify Verifications
    // User anonymized
    let u = db.users().iter().find(|u| u.id == user_id).unwrap();
    assert!(u.discord_id.starts_with("deleted_"));
    assert!(u.discord_id["deleted_".len()..].parse::<u64>().is_ok());
    assert_eq!(u.username, "Deleted User");
    assert!(!u.is_admin);
    assert_eq!(u.avatar, None);

    // Denylist populated
    let discord_hash = void_eid_backend::auth::hash_identity(&discord_id, pepper);
    let wallet_hash = void_eid_backend::auth::hash_identity(&wallet_address, pepper);
    assert!(db.identity_hashes().iter().any(|h| h.hash == discord_hash));
    assert!(db.identity_hashes().iter().any(|h| h.hash == wallet_hash));
    assert!(db.is_erased(&discord_id, pepper));
    assert!(!db.is_erased("other", pepper));

    // Data scrubbed
    let wallet_count = db.wallets().iter().filter(|w| w.user_id == user_id).count();
    assert_eq!(wallet_count, 0);

    let tribe_count = db.user_tribes().iter().filter(|m| m.user_id == user_id).count();
    assert_eq!(tribe_count, 0);

    let mumble_count = db.mumble_accounts().iter().filter(|a| a.user_id == user_id).count();
    assert_eq!(mumble_count, 0);
    assert_eq!(db.mumble_accounts().len(), 1);

    let note_count = db
        .notes()
        .iter()
        .filter(|n| n.target_user_id == user_id || n.author_id == user_id)
        .count();
    assert_eq!(note_count, 0);
    assert_eq!(db.notes().len(), 1);
    assert_eq!(db.notes()[0].id, "n-4");

    // Audit log exists
    let audit = db.audit_logs().iter().rev().find(|e| e.actor_id == user_id).unwrap();
    assert_eq!(audit.action.as_str(), AuditAction::DeleteUser.as_str());

    let again = delete_me(&mut db, &AuthenticatedUser { user_id: 8, is_super_admin: false }, pepper);
    assert_eq!(again, Err(ErrorKind::NotFound));
    assert_eq!(ErrorKind::NotFound.status(), 404);
}

#[test]
fn notes_and_voice_accounts_are_stored_and_replaced() {
    let mut db = Registry::new();
    let first = Note {
        id: "n-1".to_string(),
        target_user_id: 2,
        author_id: 1,
        tribe: "Fire".to_string(),
        content: "old".to_string(),
        created_at: 1,
        updated_at: 1,
    };
    let mut edited = first.clone();
    edited.content = "new".to_string();
    edited.updated_at = 5;
    assert!(!db.replace_note(edited.clone()));
    assert!(db.add_note(first));
    assert!(db.replace_note(edited));
    assert_eq!(db.notes().len(), 1);
    assert_eq!(db.notes()[0].content, "new");
    assert_eq!(db.notes()[0].updated_at, 5);

    let account = |name: &str| MumbleAccount {
        user_id: 1,
        username: name.to_string(),
        password_hash: "h".to_string(),
    };
    db.save_mumble_account(account("first"));
    db.save_mumble_account(account("second"));
    assert_eq!(db.mumble_accounts().len(), 1);
    assert_eq!(db.mumble_accounts()[0].username, "second");
}

#[test]
fn coordinator_commits_only_after_the_audit_entry() {
    let (s, a) = step(TxState::Open, TxEvent::MutationSucceeded);
    assert_eq!((s, a), (TxState::Mutated, TxAction::InsertAudit));
    let (s, a) = step(s, TxEvent::AuditInserted);
    assert_eq!((s, a), (TxState::Audited, TxAction::Commit));
    let (s, a) = step(s, TxEvent::CommitSucceeded);
    assert_eq!((s, a), (TxState::Committed, TxAction::NotifyAndSucceed));
    assert_eq!(status_of(s), Some(200));
    assert_eq!(step(s, TxEvent::CommitFailed), (TxState::Committed, TxAction::Nothing));
}

#[test]
fn coordinator_rolls_back_on_every_failure() {
    let failed = TxState::Failed(ErrorKind::Internal);
    assert_eq!(
        step(TxState::Open, TxEvent::MutationFailed(ErrorKind::Conflict)),
        (TxState::Failed(ErrorKind::Conflict), TxAction::RollBack(ErrorKind::Conflict))
    );
    assert_eq!(status_of(TxState::Failed(ErrorKind::Conflict)), Some(409));
    assert_eq!(
        step(TxState::Mutated, TxEvent::AuditInsertFailed),
        (failed, TxAction::RollBack(ErrorKind::Internal))
    );
    assert_eq!(
        step(TxState::Audited, TxEvent::CommitFailed),
        (failed, TxAction::Report(ErrorKind::Internal))
    );
    // an event out of turn fails closed
    assert_eq!(
        step(TxState::Open, TxEvent::CommitSucceeded),
        (failed, TxAction::RollBack(ErrorKind::Internal))
    );
    assert_eq!(
        step(TxState::Mutated, TxEvent::CommitSucceeded),
        (failed, TxAction::RollBack(ErrorKind::Internal))
    );
    assert_eq!(step(failed, TxEvent::AuditInserted), (failed, TxAction::Nothing));
    assert_eq!(status_of(failed), Some(500));
    assert_eq!(status_of(TxState::Mutated), None);
}

#[test]
fn error_kinds_map_to_statuses() {
    assert_eq!(ErrorKind::Unauthorized.status(), 401);
    assert_eq!(ErrorKind::Forbidden.status(), 403);
    assert_eq!(ErrorKind::NotFound.status(), 404);
    assert_eq!(ErrorKind::Conflict.status(), 409);
    assert_eq!(ErrorKind::Validation.status(), 400);
    assert_eq!(ErrorKind::BadRequest.status(), 400);
    assert_eq!(ErrorKind::Internal.status(), 500);
    assert!(ErrorKind::Validation.precedes_transaction());
    assert!(ErrorKind::Forbidden.precedes_transaction());
    assert!(!ErrorKind::Internal.precedes_transaction());
    assert!(!ErrorKind::Conflict.precedes_transaction());
}
