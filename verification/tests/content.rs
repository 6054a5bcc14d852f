use void_eid_backend::access::AccessError;
use void_eid_backend::auth::AuthenticatedUser;
use void_eid_backend::listing::{get_roster_member, MemberError};
use void_eid_backend::models::User;
use void_eid_backend::mumble::{
    create_account, get_status, settle_account, verify_login, MumbleAccount, MumbleError,
    RiderRecord, VerifyLoginRequest, PASSWORD_CHARS,
};
use void_eid_backend::notes::{
    check_edit, create_note, edit_note, get_notes, note_preview, validate_content,
    CreateNoteRequest, EditNoteRequest, Note, NoteError, NoteFailure, MAX_NOTE_CHARS,
};
use void_eid_backend::roster::{
    group_wallets, paginate, plan_roster, records_member_view, sort_by_wallet_count,
    FlatLinkedWallet, LinkedWallet, MemberQuery, PageWindow, RosterMember, RosterQuery,
    SortColumn,
};
use void_eid_backend::text::{
    concat2, concat3, contains_text, format_i64, format_u64, is_blank, parse_i64, same_text,
    same_text_ignoring_ascii_case, split_commas_trimmed, strip_prefix, trim,
};

fn user(id: i64, username: &str) -> User {
    User {
        id,
        discord_id: format!("d-{}", id),
        username: username.to_string(),
        discriminator: "0000".to_string(),
        avatar: None,
        is_admin: false,
        last_login_at: None,
    }
}

fn ctx(id: i64, tribe: &str) -> Result<(User, String, Vec<String>), AccessError> {
    Ok((user(id, "Admin"), tribe.to_string(), vec![tribe.to_string()]))
}

fn flat(id: &str, user_id: i64, tribe: Option<&str>) -> FlatLinkedWallet {
    FlatLinkedWallet {
        id: id.to_string(),
        user_id,
        address: format!("0x{}", id),
        verified_at: 1,
        deleted_at: None,
        tribe: tribe.map(|t| t.to_string()),
    }
}

fn member(name: &str, wallets: usize) -> RosterMember {
    let mut list = Vec::new();
    for i in 0..wallets {
        list.push(LinkedWallet {
            id: format!("{}-{}", name, i),
            user_id: 1,
            address: format!("0x{}{}", name, i),
            verified_at: 0,
            deleted_at: None,
            tribes: Vec::new(),
        });
    }
    RosterMember {
        discord_id: name.to_string(),
        username: name.to_string(),
        avatar: None,
        last_login_at: None,
        wallets: list,
        audits: None,
    }
}

#[test]
fn note_content_is_validated() {
    assert_eq!(validate_content("This is valid content"), Ok(()));
    assert_eq!(validate_content("   "), Err(NoteError::EmptyContent));
    assert_eq!(validate_content(""), Err(NoteError::EmptyContent));
    assert_eq!(validate_content("\u{2003}\u{00a0}\n"), Err(NoteError::EmptyContent));
    assert_eq!(validate_content(&"n".repeat(MAX_NOTE_CHARS)), Ok(()));
    assert_eq!(validate_content(&"n".repeat(MAX_NOTE_CHARS + 1)), Err(NoteError::ContentTooLong));
    // the bound counts characters, not bytes
    assert_eq!(validate_content(&"é".repeat(MAX_NOTE_CHARS)), Ok(()));
    assert_eq!(NoteError::EmptyContent.status(), 400);
    assert_eq!(NoteError::EmptyContent.message(), "Note content cannot be empty");
    assert_eq!(NoteError::ContentTooLong.status(), 400);
    assert_eq!(
        NoteError::ContentTooLong.message(),
        "Note content exceeds maximum length (10,000 characters)"
    );
}

#[test]
fn note_preview_quotes_fifty_characters() {
    assert_eq!(note_preview("short"), "short");
    let fifty = "a".repeat(50);
    assert_eq!(note_preview(&fifty), fifty);
    let longer = format!("{}bcd", fifty);
    assert_eq!(note_preview(&longer), format!("{}...", fifty));
    let accented = "é".repeat(51);
    assert_eq!(note_preview(&accented), format!("{}...", "é".repeat(50)));
}

#[test]
fn only_the_author_edits_a_note() {
    assert_eq!(check_edit(None, 1, "text"), Err(NoteError::NotFound));
    assert_eq!(check_edit(Some(2), 1, "text"), Err(NoteError::NotAuthor));
    assert_eq!(check_edit(Some(2), 1, ""), Err(NoteError::NotAuthor));
    assert_eq!(check_edit(Some(1), 1, ""), Err(NoteError::EmptyContent));
    assert_eq!(check_edit(Some(1), 1, "text"), Ok(()));
    assert_eq!(NoteError::NotFound.status(), 404);
    assert_eq!(NoteError::NotAuthor.status(), 403);
    assert_eq!(NoteError::NotAuthor.message(), "You can only edit your own notes");
    assert_eq!(NoteError::NotFound.message(), "Note not found");
}

#[test]
fn create_note_builds_the_note_and_its_audit_details() {
    let payload = CreateNoteRequest { content: "Test note content".to_string() };
    let (note, details) =
        create_note(ctx(1001, "test_tribe"), Some(user(1002, "TargetUser")), &payload, "note-123".into(), 77)
            .unwrap();
    assert_eq!(note.id, "note-123");
    assert_eq!(note.target_user_id, 1002);
    assert_eq!(note.author_id, 1001);
    assert_eq!(note.tribe, "test_tribe");
    assert_eq!(note.content, "Test note content");
    assert_eq!((note.created_at, note.updated_at), (77, 77));
    assert_eq!(details, "Created note for TargetUser in tribe test_tribe: Test note content");

    let denied = create_note(
        Err(AccessError::NotAdminOfAnyTribe),
        Some(user(1002, "T")),
        &payload,
        "n".into(),
        1,
    );
    assert_eq!(denied.unwrap_err(), NoteFailure::Access(AccessError::NotAdminOfAnyTribe));
    let missing = create_note(ctx(1, "t"), None, &payload, "n".into(), 1);
    assert_eq!(missing.unwrap_err(), NoteFailure::UserNotFound);
    assert_eq!(NoteFailure::UserNotFound.status(), 404);
    let blank = CreateNoteRequest { content: " ".to_string() };
    let refused = create_note(ctx(1, "t"), Some(user(2, "T")), &blank, "n".into(), 1);
    assert_eq!(refused.unwrap_err(), NoteFailure::Note(NoteError::EmptyContent));
    assert_eq!(NoteFailure::Access(AccessError::AmbiguousTribe).status(), 400);
}

#[test]
fn edit_note_replaces_content_and_time() {
    let note = Note {
        id: "n-1".to_string(),
        target_user_id: 1002,
        author_id: 1001,
        tribe: "test_tribe".to_string(),
        content: "Test note content".to_string(),
        created_at: 5,
        updated_at: 5,
    };
    let author = AuthenticatedUser { user_id: 1001, is_super_admin: false };
    let payload = EditNoteRequest { content: "Updated content".to_string() };
    let (edited, details) = edit_note(Some(note), &author, &payload, 9).unwrap();
    assert_eq!(edited.content, "Updated content");
    assert_eq!(edited.created_at, 5);
    assert_eq!(edited.updated_at, 9);
    assert_eq!(edited.id, "n-1");
    assert_eq!(details, "Edited note in tribe test_tribe: Updated content");
    let none = edit_note(None, &author, &payload, 9);
    assert_eq!(none.unwrap_err(), NoteFailure::Note(NoteError::NotFound));
}

#[test]
fn get_notes_names_the_member_and_the_tribe() {
    assert_eq!(get_notes(ctx(1, "Fire"), Some(user(9, "T"))), Ok((9, "Fire".to_string())));
    assert_eq!(get_notes(ctx(1, "Fire"), None), Err(NoteFailure::UserNotFound));
    assert_eq!(
        get_notes(Err(AccessError::UserNotFound), Some(user(9, "T"))),
        Err(NoteFailure::Access(AccessError::UserNotFound))
    );
}

#[test]
fn mumble_account_is_named_after_the_wallet_reference() {
    let rider = RiderRecord { wallet_id: Some("Friendly Rider".into()), username: "VoidUser".into() };
    let (response, account, details) =
        settle_account(7, Some(rider), "pw".into(), Some("hash".into())).unwrap();
    assert_eq!(response.username, "Friendly_Rider");
    assert_eq!(response.password, "pw");
    assert_eq!(account.user_id, 7);
    assert_eq!(account.username, "Friendly_Rider");
    assert_eq!(account.password_hash, "hash");
    assert_eq!(details, "Created mumble account: Friendly_Rider");

    let fallback = RiderRecord { wallet_id: Some("  ".into()), username: "Void User".into() };
    let (response, _, _) = settle_account(7, Some(fallback), "pw".into(), Some("h".into())).unwrap();
    assert_eq!(response.username, "Void_User");

    assert_eq!(
        settle_account(7, None, "pw".into(), Some("h".into())).unwrap_err(),
        MumbleError::NotInRequiredTribe
    );
    let rider = RiderRecord { wallet_id: None, username: "VoidUser".into() };
    assert_eq!(
        settle_account(7, Some(rider), "pw".into(), None).unwrap_err(),
        MumbleError::HashFailed
    );
    assert_eq!(MumbleError::NotInRequiredTribe.status(), 403);
    assert_eq!(MumbleError::NotInRequiredTribe.message(), "User not in required tribe");
    assert_eq!(MumbleError::HashFailed.status(), 500);
    assert_eq!(MumbleError::HashFailed.message(), "Failed to hash password");
}

#[test]
fn a_created_mumble_account_accepts_its_password_only() {
    let rider = RiderRecord { wallet_id: None, username: "VoidUser".into() };
    let (response, account, _) = create_account(7, Some(rider)).unwrap();
    assert_eq!(response.password.chars().count(), PASSWORD_CHARS);
    assert!(response.password.chars().all(|c| c.is_ascii_alphanumeric()));
    assert_eq!(account.password_hash.len(), 60);
    assert_ne!(account.password_hash, response.password);

    let good = VerifyLoginRequest { username: "VoidUser".into(), password: response.password.clone() };
    let stored = MumbleAccount {
        user_id: 7,
        username: account.username.clone(),
        password_hash: account.password_hash.clone(),
    };
    let ok = verify_login(Some(stored), &good).unwrap();
    assert_eq!(ok.user_id, 7);
    assert_eq!(ok.username, "VoidUser");

    let bad = VerifyLoginRequest { username: "VoidUser".into(), password: "wrong".into() };
    assert_eq!(verify_login(Some(account), &bad).unwrap_err(), MumbleError::InvalidCredentials);
    assert_eq!(verify_login(None, &good).unwrap_err(), MumbleError::InvalidCredentials);
    let broken = MumbleAccount { user_id: 7, username: "x".into(), password_hash: "nohash".into() };
    assert_eq!(verify_login(Some(broken), &good).unwrap_err().status(), 401);
    assert_eq!(MumbleError::InvalidCredentials.message(), "Invalid credentials");

    assert_eq!(create_account(7, None).unwrap_err(), MumbleError::NotInRequiredTribe);
}

#[test]
fn mumble_status_says_what_is_stored() {
    let status = get_status(Some("Rider".into()), "Fire");
    assert_eq!(status.username.as_deref(), Some("Rider"));
    assert_eq!(status.required_tribe, "Fire");
    assert_eq!(get_status(None, "Fire").username, None);
}

#[test]
fn roster_queries_are_planned_as_fixed_variants() {
    let q = |sort: Option<&str>, order: Option<&str>, search: Option<&str>| RosterQuery {
        tribe: None,
        sort: sort.map(String::from),
        order: order.map(String::from),
        search: search.map(String::from),
    };
    let plan = plan_roster(&q(None, None, None));
    assert_eq!(plan.column, SortColumn::Username);
    assert!(!plan.descending);
    assert!(!plan.by_wallet_count);
    assert_eq!(plan.search_pattern, None);

    let plan = plan_roster(&q(Some("last_login"), Some("desc"), Some("bob")));
    assert_eq!(plan.column, SortColumn::LastLogin);
    assert!(plan.descending);
    assert_eq!(plan.search_pattern.as_deref(), Some("%bob%"));

    let plan = plan_roster(&q(Some("wallet_count"), Some("DESC"), Some("")));
    assert_eq!(plan.column, SortColumn::Username);
    assert!(plan.by_wallet_count);
    assert!(!plan.descending);
    assert_eq!(plan.search_pattern, None);

    let plan = plan_roster(&q(Some("username; DROP TABLE users"), Some("asc"), None));
    assert_eq!(plan.column, SortColumn::Username);
}

#[test]
fn audit_pages_are_windows_of_the_log() {
    let q = |page: Option<i64>, per: Option<i64>| MemberQuery {
        tribe: None,
        audit_page: page,
        audit_per_page: per,
    };
    assert_eq!(
        paginate(&q(None, None), 25),
        PageWindow { page: 1, per_page: 10, offset: 0, total_pages: 3 }
    );
    assert_eq!(
        paginate(&q(Some(3), Some(7)), 21),
        PageWindow { page: 3, per_page: 7, offset: 14, total_pages: 3 }
    );
    assert_eq!(
        paginate(&q(Some(0), Some(0)), 1),
        PageWindow { page: 1, per_page: 1, offset: 0, total_pages: 1 }
    );
    assert_eq!(
        paginate(&q(Some(-4), Some(1000)), 101),
        PageWindow { page: 1, per_page: 100, offset: 0, total_pages: 2 }
    );
    assert_eq!(paginate(&q(Some(2), Some(10)), 0).total_pages, 0);
    assert_eq!(paginate(&q(Some(2), Some(10)), -3).total_pages, 0);
    assert_eq!(paginate(&q(Some(i64::MAX), Some(100)), 5).offset, i64::MAX);
    assert_eq!(paginate(&q(Some(2), Some(1)), i64::MAX).total_pages, i64::MAX);
}

#[test]
fn joined_rows_are_grouped_into_wallets() {
    let rows = vec![
        flat("w-1", 1, Some("Earth")),
        flat("w-2", 1, None),
        flat("w-1", 1, Some("Water")),
        flat("w-1", 1, Some("Earth")),
        flat("w-3", 2, Some("Fire")),
        flat("w-2", 1, Some("Fire")),
    ];
    let wallets = group_wallets(&rows);
    let summary: Vec<(String, Vec<String>)> =
        wallets.iter().map(|w| (w.id.clone(), w.tribes.clone())).collect();
    assert_eq!(
        summary,
        vec![
            ("w-1".to_string(), vec!["Earth".to_string(), "Water".to_string()]),
            ("w-2".to_string(), vec!["Fire".to_string()]),
            ("w-3".to_string(), vec!["Fire".to_string()]),
        ]
    );
    assert_eq!(wallets[0].address, "0xw-1");
    assert_eq!(wallets[2].user_id, 2);
    assert!(group_wallets(&Vec::new()).is_empty());
}

#[test]
fn rosters_are_ordered_by_wallet_count() {
    let names = |r: &Vec<RosterMember>| r.iter().map(|m| m.username.clone()).collect::<Vec<_>>();
    let roster = vec![member("c", 2), member("a", 0), member("d", 3), member("b", 0)];
    let up = sort_by_wallet_count(roster, false);
    assert_eq!(names(&up), vec!["a", "b", "c", "d"]);
    let down = sort_by_wallet_count(up, true);
    assert_eq!(names(&down), vec!["d", "c", "b", "a"]);
    assert!(sort_by_wallet_count(Vec::new(), true).is_empty());
}

#[test]
fn a_look_at_someone_else_is_recorded() {
    assert!(records_member_view(1, 2));
    assert!(!records_member_view(2, 2));
    let tribes = vec!["Fire".to_string()];
    let (m, recorded) = get_roster_member(ctx(1, "Fire"), Some(user(2, "Member")), &tribes).unwrap();
    assert_eq!(m.id, 2);
    assert!(recorded);
    let (_, recorded) = get_roster_member(ctx(1, "Fire"), Some(user(1, "Admin")), &tribes).unwrap();
    assert!(!recorded);
    assert_eq!(
        get_roster_member(ctx(1, "Water"), Some(user(2, "Member")), &tribes).unwrap_err(),
        MemberError::NotInTribe
    );
    assert_eq!(MemberError::NotInTribe.status(), 403);
    assert_eq!(
        get_roster_member(ctx(1, "Fire"), None, &tribes).unwrap_err(),
        MemberError::MemberNotFound
    );
    assert_eq!(MemberError::MemberNotFound.status(), 404);
    let denied = get_roster_member(Err(AccessError::NotInAnyTribe), None, &tribes).unwrap_err();
    assert_eq!(denied, MemberError::Access(AccessError::NotInAnyTribe));
    assert_eq!(denied.status(), 403);
}

#[test]
fn text_helpers_behave_as_documented() {
    assert!(is_blank(""));
    assert!(is_blank(" \t\r\n\u{3000}"));
    assert!(!is_blank(" x "));
    assert!(same_text("abc", "abc"));
    assert!(!same_text("abc", "abd"));
    assert!(same_text_ignoring_ascii_case("AdminUser", "aDMINuSER"));
    assert!(!same_text_ignoring_ascii_case("É", "é"));
    assert!(!same_text_ignoring_ascii_case("abc", "abcd"));
    assert_eq!(parse_i64("-42"), Some(-42));
    assert_eq!(parse_i64("+7"), Some(7));
    assert_eq!(parse_i64("4 2"), None);
    assert_eq!(format_i64(-42), "-42");
    assert_eq!(format_u64(u64::MAX), "18446744073709551615");
    assert_eq!(trim("  a b \n"), "a b");
    assert_eq!(trim(" \t "), "");
    assert_eq!(split_commas_trimmed("a, b ,,c"), vec!["a", "b", "", "c"]);
    assert_eq!(split_commas_trimmed(","), vec!["", ""]);
    assert_eq!(strip_prefix("Bearer x", "Bearer "), Some("x".to_string()));
    assert_eq!(strip_prefix("Bear", "Bearer "), None);
    assert_eq!(concat2("a", "b"), "ab");
    assert_eq!(concat3("a", "b", "c"), "abc");
    assert!(contains_text(&vec!["a".to_string(), "b".to_string()], "b"));
    assert!(!contains_text(&vec!["a".to_string()], "A"));
}
