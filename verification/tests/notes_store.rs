use chrono::Utc;
use uuid::Uuid;
use void_eid_backend::admin::UpdateUserRequest;
use void_eid_backend::listing::notes_on;
use void_eid_backend::models::User;
use void_eid_backend::notes::Note;
use void_eid_backend::registry::Registry;

fn account(id: i64, discord_id: &str, username: &str, tag: &str, is_admin: bool) -> User {
    User {
        id,
        discord_id: discord_id.to_string(),
        username: username.to_string(),
        discriminator: tag.to_string(),
        avatar: None,
        is_admin,
        last_login_at: None,
    }
}

fn setup_db() -> Registry {
    let mut db = Registry::new();
    // Insert admin user
    assert!(db.insert_user(account(1001, "admin-discord-id", "AdminUser", "0001", true)));
    // Insert target user
    assert!(db.insert_user(account(1002, "target-discord-id", "TargetUser", "0002", false)));
    // Add admin to tribe
    db.create_tribe(1001, "test_tribe", "seed-tribe".to_string(), 0).expect("tribe");
    db.add_user_to_tribe(1001, "test_tribe", "AdminUser", "seed-member".to_string(), 0)
        .expect("member");
    let flags = UpdateUserRequest {
        is_admin: true,
        username: "AdminUser".to_string(),
        discriminator: "0001".to_string(),
        admin_tribes: vec!["test_tribe".to_string()],
    };
    db.update_user(1001, 1001, &flags, "seed-flags".to_string(), 0).expect("flags");
    db
}

fn note(id: &str, target: i64, author: i64, tribe: &str, content: &str, at: i64) -> Note {
    Note {
        id: id.to_string(),
        target_user_id: target,
        author_id: author,
        tribe: tribe.to_string(),
        content: content.to_string(),
        created_at: at,
        updated_at: at,
    }
}

fn note_by_id(db: &Registry, id: &str) -> Option<Note> {
    db.notes().iter().find(|n| n.id == id).cloned()
}

#[test]
fn test_note_crud_in_database() {
    let mut db = setup_db();
    let note_id = Uuid::new_v4().to_string();
    let now: i64 = Utc::now().timestamp_millis();

    // Create note
    let result = db.add_note(note(&note_id, 1002, 1001, "test_tribe", "Test note content", now));

    assert!(result);

    // Read note
    let note = note_by_id(&db, &note_id);

    assert!(note.is_some());
    let note = note.unwrap();
    assert_eq!(note.content, "Test note content");
    assert_eq!(note.author_id, 1001);
    assert_eq!(note.target_user_id, 1002);

    // Update note
    let updated_content = "Updated content";
    let mut edited = note.clone();
    edited.content = updated_content.to_string();
    edited.updated_at = Utc::now().timestamp_millis();
    assert!(db.replace_note(edited));

    let updated_note = note_by_id(&db, &note_id).unwrap();

    assert_eq!(updated_note.content, "Updated content");
}

#[test]
fn test_fetch_notes_with_author() {
    let mut db = setup_db();
    let note_id = Uuid::new_v4().to_string();
    let now: i64 = Utc::now().timestamp_millis();

    // Create note
    assert!(db.add_note(note(&note_id, 1002, 1001, "test_tribe", "Note with author join", now)));

    // Fetch with author
    let notes = notes_on(&db, 1002, "test_tribe");

    assert_eq!(notes.len(), 1);
    assert_eq!(notes[0].author_username, "AdminUser");
    assert_eq!(notes[0].content, "Note with author join");
}

#[test]
fn notes_are_shown_newest_first_with_their_authors() {
    let mut db = setup_db();
    assert!(db.add_note(note("n-1", 1002, 1001, "test_tribe", "first", 10)));
    assert!(db.add_note(note("n-2", 1002, 1002, "test_tribe", "second", 30)));
    assert!(db.add_note(note("n-3", 1002, 1001, "test_tribe", "third", 20)));
    assert!(db.add_note(note("n-4", 1002, 1001, "other_tribe", "elsewhere", 40)));
    assert!(db.add_note(note("n-5", 1001, 1001, "test_tribe", "on the admin", 50)));
    assert!(db.add_note(note("n-6", 1002, 4040, "test_tribe", "author unknown", 60)));
    assert!(db.add_note(note("n-7", 1002, 1001, "test_tribe", "as old as the first", 10)));

    let notes = notes_on(&db, 1002, "test_tribe");
    let ids: Vec<&str> = notes.iter().map(|n| n.id.as_str()).collect();
    assert_eq!(ids, vec!["n-2", "n-3", "n-7", "n-1"]);
    assert_eq!(notes[0].author_username, "TargetUser");
    assert_eq!(notes[0].author_discriminator, "0002");
    assert_eq!(notes[1].author_username, "AdminUser");
    assert_eq!(notes[1].author_discriminator, "0001");
    assert_eq!(notes[1].created_at, 20);
    assert_eq!(notes[1].updated_at, 20);
    assert_eq!(notes[1].tribe, "test_tribe");
    assert_eq!(notes[1].target_user_id, 1002);
    assert_eq!(notes[1].author_id, 1001);

    assert!(notes_on(&db, 1002, "Test_Tribe").is_empty());
    assert!(notes_on(&db, 9999, "test_tribe").is_empty());
    assert_eq!(notes_on(&db, 1001, "test_tribe").len(), 1);
}

#[test]
fn a_note_id_is_stored_once() {
    let mut db = setup_db();
    assert!(db.add_note(note("n-1", 1002, 1001, "test_tribe", "first", 10)));
    assert!(!db.add_note(note("n-1", 1002, 1001, "test_tribe", "again", 11)));
    assert_eq!(db.notes().len(), 1);
    assert_eq!(db.notes()[0].content, "first");
    assert!(!db.replace_note(note("n-2", 1002, 1001, "test_tribe", "missing", 12)));
    assert_eq!(db.notes().len(), 1);
    assert_eq!(db.notes()[0].content, "first");
}
