use void_eid_backend::access::{resolve_admin_context, tribe_names_of, AccessError};
use void_eid_backend::helpers::{
    get_user_by_discord_id, get_user_by_id, get_user_tribes, memberships_of,
    require_admin_in_tribe,
};
use void_eid_backend::models::{MembershipSource, User, UserTribe};
use void_eid_backend::registry::Registry;

fn user(id: i64, discord_id: &str, username: &str, is_admin: bool) -> User {
    User {
        id,
        discord_id: discord_id.to_string(),
        username: username.to_string(),
        discriminator: "0000".to_string(),
        avatar: None,
        is_admin,
        last_login_at: None,
    }
}

fn row(user_id: i64, tribe: &str, is_admin: bool) -> UserTribe {
    UserTribe {
        user_id,
        tribe: tribe.to_string(),
        wallet_id: None,
        created_at: None,
        is_admin,
        source: MembershipSource::System,
    }
}

fn registry_with(users: Vec<User>, tribes: &[&str], members: &[(&str, &str)]) -> Registry {
    let mut db = Registry::new();
    for u in users {
        assert!(db.insert_user(u));
    }
    let mut n = 0;
    for t in tribes {
        n += 1;
        db.create_tribe(1, t, format!("seed-tribe-{}", n), 0).expect("tribe");
    }
    for (name, tribe) in members {
        n += 1;
        db.add_user_to_tribe(1, tribe, name, format!("seed-member-{}", n), 0).expect("member");
    }
    db
}

#[test]
fn helpers_test_get_user_by_id_not_found() {
    let db = Registry::new();
    let result = get_user_by_id(&db, 99999);
    assert!(result.is_none());
}

#[test]
fn helpers_test_get_user_by_id_found() {
    let db = registry_with(vec![user(101, "123456", "TestUser", false)], &[], &[]);
    let result = get_user_by_id(&db, 101);
    assert!(result.is_some());
    assert_eq!(result.unwrap().username, "TestUser");
    assert_eq!(get_user_by_discord_id(&db, "123456").unwrap().id, 101);
    assert!(get_user_by_discord_id(&db, "654321").is_none());
}

#[test]
fn helpers_test_require_admin_in_tribe_not_admin() {
    let db = registry_with(
        vec![user(202, "123456", "RegularUser", false)],
        &["Fire"],
        &[("RegularUser", "Fire")],
    );
    let result = require_admin_in_tribe(&db, 202, None);
    assert!(result.is_err());
    let err = result.unwrap_err();
    assert_eq!(err.status(), 403);
    assert_eq!(err, AccessError::NotAdminOfAnyTribe);
}

#[test]
fn helpers_test_require_admin_in_tribe_success() {
    let db = registry_with(
        vec![user(303, "789", "AdminUser", true)],
        &["Fire"],
        &[("AdminUser", "Fire")],
    );
    let result = require_admin_in_tribe(&db, 303, None);
    assert!(result.is_ok());
    let (user, tribe, all_tribes) = result.unwrap();
    assert_eq!(user.username, "AdminUser");
    assert_eq!(tribe, "Fire");
    assert_eq!(all_tribes, vec!["Fire"]);
}

fn tribe_admin(db: &mut Registry, user_id: i64, username: &str, admin_tribes: &[&str]) {
    let flags = void_eid_backend::admin::UpdateUserRequest {
        is_admin: false,
        username: username.to_string(),
        discriminator: "0000".to_string(),
        admin_tribes: admin_tribes.iter().map(|t| t.to_string()).collect(),
    };
    db.update_user(1, user_id, &flags, format!("seed-flags-{}", user_id), 0).expect("flags");
}

#[test]
fn test_require_admin_in_tribe_specific_success() {
    // User Not Global Admin; Admin of Earth; Member of Wind (Not Admin)
    let mut db = registry_with(
        vec![user(404, "101", "TribeAdmin", false)],
        &["Earth", "Wind"],
        &[("TribeAdmin", "Earth"), ("TribeAdmin", "Wind")],
    );
    tribe_admin(&mut db, 404, "TribeAdmin", &["Earth"]);

    // Case A: Access Earth (Admin) -> OK
    let result = require_admin_in_tribe(&db, 404, Some("Earth"));
    assert!(result.is_ok());
    assert_eq!(result.unwrap().1, "Earth");

    // Case B: Access Wind (Member) -> Fail
    let result = require_admin_in_tribe(&db, 404, Some("Wind"));
    assert!(result.is_err());
    assert_eq!(result.unwrap_err().status(), 403);

    // Case C: No tribe specified -> Default to Earth (only admin tribe)
    let result = require_admin_in_tribe(&db, 404, None);
    assert!(result.is_ok());
    assert_eq!(result.unwrap().1, "Earth");
}

#[test]
fn test_require_admin_in_tribe_multi_admin() {
    // User Not Global Admin; Admin of Earth; Admin of Water
    let mut db = registry_with(
        vec![user(505, "202", "MultiTribeAdmin", false)],
        &["Earth", "Water"],
        &[("MultiTribeAdmin", "Earth"), ("MultiTribeAdmin", "Water")],
    );
    tribe_admin(&mut db, 505, "MultiTribeAdmin", &["Earth", "Water"]);

    // Case A: No tribe specified -> Fail (Ambiguous)
    let result = require_admin_in_tribe(&db, 505, None);
    assert!(result.is_err());
    assert_eq!(result.unwrap_err().status(), 400);

    // Case B: Specify Earth -> OK
    let result = require_admin_in_tribe(&db, 505, Some("Earth"));
    assert!(result.is_ok());
    assert_eq!(result.unwrap().1, "Earth");
}

#[test]
fn ambiguous_admin_must_name_a_tribe() {
    let account = user(1, "d", "Multi", false);
    let rows = vec![row(1, "Earth", true), row(1, "Water", true)];
    let err = resolve_admin_context(Some(account.clone()), &rows, None).unwrap_err();
    assert_eq!(err, AccessError::AmbiguousTribe);
    assert_eq!(err.message(), "Please specify a tribe - you manage multiple tribes");
    let (_, tribe, all) = resolve_admin_context(Some(account.clone()), &rows, Some("Earth")).unwrap();
    assert_eq!(tribe, "Earth");
    assert_eq!(all, vec!["Earth", "Water"]);
    let err = resolve_admin_context(Some(account), &rows, Some("Fire")).unwrap_err();
    assert_eq!(err, AccessError::NotInSpecifiedTribe);
    assert_eq!(err.status(), 403);
    assert_eq!(err.message(), "Access denied: You are not in the specified tribe");
}

#[test]
fn single_admin_tribe_is_the_default() {
    let account = user(1, "d", "Solo", false);
    let rows = vec![row(1, "Earth", true)];
    let (u, tribe, all) = resolve_admin_context(Some(account), &rows, None).unwrap();
    assert_eq!(u.id, 1);
    assert_eq!(tribe, "Earth");
    assert_eq!(all, vec!["Earth"]);
}

#[test]
fn single_admin_tribe_among_plain_memberships_is_the_default() {
    let account = user(1, "d", "Solo", false);
    let rows = vec![row(1, "Wind", false), row(1, "Earth", true), row(1, "Water", false)];
    let (_, tribe, all) = resolve_admin_context(Some(account), &rows, None).unwrap();
    assert_eq!(tribe, "Earth");
    assert_eq!(all, vec!["Wind", "Earth", "Water"]);
}

#[test]
fn global_admin_counts_only_in_its_own_tribes() {
    let account = user(1, "d", "Global", true);
    let rows = vec![row(1, "Earth", false), row(1, "Water", false)];
    // the global flag makes both memberships eligible, so the choice is ambiguous
    assert_eq!(
        resolve_admin_context(Some(account.clone()), &rows, None).unwrap_err(),
        AccessError::AmbiguousTribe
    );
    assert_eq!(resolve_admin_context(Some(account.clone()), &rows, Some("Water")).unwrap().1, "Water");
    // but it gives no rights in a tribe the account does not belong to
    assert_eq!(
        resolve_admin_context(Some(account), &rows, Some("Fire")).unwrap_err(),
        AccessError::NotInSpecifiedTribe
    );
}

#[test]
fn every_access_error_has_its_inputs() {
    let rows = vec![row(1, "Earth", false)];
    let err = resolve_admin_context(None, &rows, None).unwrap_err();
    assert_eq!(err, AccessError::UserNotFound);
    assert_eq!(err.status(), 401);
    assert_eq!(err.message(), "User not found");
    let err = resolve_admin_context(Some(user(1, "d", "u", true)), &Vec::new(), None).unwrap_err();
    assert_eq!(err, AccessError::NotInAnyTribe);
    assert_eq!(err.message(), "Access denied: You are not in any tribe");
    let err =
        resolve_admin_context(Some(user(1, "d", "u", false)), &rows, Some("Earth")).unwrap_err();
    assert_eq!(err, AccessError::NotAdminOfTribe);
    assert_eq!(err.message(), "Access denied: You are not an admin of this tribe");
    let err = resolve_admin_context(Some(user(1, "d", "u", false)), &rows, None).unwrap_err();
    assert_eq!(err, AccessError::NotAdminOfAnyTribe);
    assert_eq!(err.message(), "Access denied: You are not an admin of any tribe");
}

#[test]
fn the_first_membership_in_a_named_tribe_decides() {
    let rows = vec![row(1, "Earth", false), row(1, "Earth", true)];
    let err =
        resolve_admin_context(Some(user(1, "d", "u", false)), &rows, Some("Earth")).unwrap_err();
    assert_eq!(err, AccessError::NotAdminOfTribe);
}

#[test]
fn memberships_are_looked_up_per_account() {
    let db = registry_with(
        vec![user(1, "a", "Ann", false), user(2, "b", "Bob", false)],
        &["Earth", "Water"],
        &[("Ann", "Earth"), ("Bob", "Water"), ("Ann", "Water")],
    );
    assert_eq!(get_user_tribes(&db, 1), vec!["Earth", "Water"]);
    assert_eq!(get_user_tribes(&db, 2), vec!["Water"]);
    assert!(get_user_tribes(&db, 3).is_empty());
    assert_eq!(memberships_of(&db, 1).len(), 2);
    assert_eq!(tribe_names_of(&memberships_of(&db, 2)), vec!["Water"]);
    assert_eq!(require_admin_in_tribe(&db, 3, None).unwrap_err(), AccessError::UserNotFound);
}
