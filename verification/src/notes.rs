//! Notes that tribe admins keep on members: what a note may hold, who may
//! edit it, and what the audit log says of it.

use vstd::prelude::*;
use vstd::string::StringExecFns;
use crate::access::AccessError;
use crate::auth::AuthenticatedUser;
use crate::models::User;
use crate::text::{all_whitespace, chars_of, is_blank, text_of};

verus! {

/// The longest note, in characters.
pub const MAX_NOTE_CHARS: usize = 10_000;

/// How many characters of a note the audit log quotes.
pub const NOTE_PREVIEW_CHARS: usize = 50;

/// A note on a member of a tribe.
#[derive(Debug)]
pub struct Note {
    pub id: String,
    pub target_user_id: i64,
    pub author_id: i64,
    pub tribe: String,
    pub content: String,
    pub created_at: i64,
    pub updated_at: i64,
}

/// A note together with its author's public name.
#[derive(Debug)]
pub struct NoteWithAuthor {
    pub id: String,
    pub target_user_id: i64,
    pub author_id: i64,
    pub tribe: String,
    pub content: String,
    pub created_at: i64,
    pub updated_at: i64,
    pub author_username: String,
    pub author_discriminator: String,
}

/// The query of a request on notes: the tribe, if the caller names one.
#[derive(Debug)]
pub struct NotesQuery {
    pub tribe: Option<String>,
}

/// The body of a request to create a note.
#[derive(Debug)]
pub struct CreateNoteRequest {
    pub content: String,
}

/// The body of a request to edit a note.
#[derive(Debug)]
pub struct EditNoteRequest {
    pub content: String,
}

/// Why a note was refused.
#[derive(Debug, Clone, Copy, PartialEq, Eq, Structural)]
pub enum NoteError {
    /// No such note.
    NotFound,
    /// Only the author may edit a note.
    NotAuthor,
    /// The content is empty or blank.
    EmptyContent,
    /// The content is longer than `MAX_NOTE_CHARS`.
    ContentTooLong,
}

impl NoteError {
    /// The HTTP status that reports the error.
    pub open spec fn status_spec(self) -> u16 {
        match self {
            NoteError::NotFound => 404,
            NoteError::NotAuthor => 403,
            NoteError::EmptyContent => 400,
            NoteError::ContentTooLong => 400,
        }
    }

    pub fn status(&self) -> (r: u16)
        ensures
            r == self.status_spec(),
    {
        match self {
            NoteError::NotFound => 404,
            NoteError::NotAuthor => 403,
            NoteError::EmptyContent => 400,
            NoteError::ContentTooLong => 400,
        }
    }

    /// The reason given to the client.
    pub open spec fn message_spec(self) -> Seq<char> {
        match self {
            NoteError::NotFound => "Note not found"@,
            NoteError::NotAuthor => "You can only edit your own notes"@,
            NoteError::EmptyContent => "Note content cannot be empty"@,
            NoteError::ContentTooLong =>
                "Note content exceeds maximum length (10,000 characters)"@,
        }
    }

    pub fn message(&self) -> (r: &'static str)
        ensures
            r@ == self.message_spec(),
    {
        match self {
            NoteError::NotFound => "Note not found",
            NoteError::NotAuthor => "You can only edit your own notes",
            NoteError::EmptyContent => "Note content cannot be empty",
            NoteError::ContentTooLong => "Note content exceeds maximum length (10,000 characters)",
        }
    }
}

/// Whether a text may be the content of a note.
pub open spec fn content_verdict(content: Seq<char>) -> Result<(), NoteError> {
    if all_whitespace(content) {
        Err(NoteError::EmptyContent)
    } else if content.len() > MAX_NOTE_CHARS {
        Err(NoteError::ContentTooLong)
    } else {
        Ok(())
    }
}

/// Checks the content of a note: it must not be blank, and not longer than
/// `MAX_NOTE_CHARS` characters.
pub fn validate_content(content: &str) -> (r: Result<(), NoteError>)
    ensures
        r == content_verdict(content@),
{
    if is_blank(content) {
        return Err(NoteError::EmptyContent);
    }
    if content.unicode_len() > MAX_NOTE_CHARS {
        return Err(NoteError::ContentTooLong);
    }
    Ok(())
}

/// What the audit log quotes of a note: the whole content where it is short,
/// else its first `NOTE_PREVIEW_CHARS` characters and an ellipsis.
pub open spec fn preview_of(content: Seq<char>) -> Seq<char> {
    if content.len() > NOTE_PREVIEW_CHARS {
        content.take(NOTE_PREVIEW_CHARS as int) + "..."@
    } else {
        content
    }
}

/// The quote of a note for the audit log.
pub fn note_preview(content: &str) -> (r: String)
    ensures
        r@ == preview_of(content@),
{
    let chars = chars_of(content);
    if chars.len() > NOTE_PREVIEW_CHARS {
        let mut head: Vec<char> = Vec::new();
        let mut i: usize = 0;
        while i < NOTE_PREVIEW_CHARS
            invariant
                i <= NOTE_PREVIEW_CHARS,
                NOTE_PREVIEW_CHARS < chars.len(),
                head@ == chars@.take(i as int),
            decreases NOTE_PREVIEW_CHARS - i,
        {
            head.push(chars[i]);
            assert(chars@.take(i as int).push(chars@[i as int]) =~= chars@.take(i + 1));
            i = i + 1;
        }
        let mut out = text_of(&head);
        out.append("...");
        out
    } else {
        content.to_owned()
    }
}

/// Whether `user_id` may replace the content of a note by `content`: the
/// note must exist, the user must be its author, and the content must be
/// valid, in this order.
pub open spec fn edit_verdict(author_id: Option<i64>, user_id: i64, content: Seq<char>) -> Result<
    (),
    NoteError,
> {
    match author_id {
        None => Err(NoteError::NotFound),
        Some(a) => if a != user_id {
            Err(NoteError::NotAuthor)
        } else {
            content_verdict(content)
        },
    }
}

/// Decides whether an edit goes through. `author_id` is the author of the
/// note to edit, or `None` where there is no such note.
pub fn check_edit(author_id: Option<i64>, user_id: i64, content: &str) -> (r: Result<(), NoteError>)
    ensures
        r == edit_verdict(author_id, user_id, content@),
{
    match author_id {
        None => Err(NoteError::NotFound),
        Some(a) => {
            if a != user_id {
                Err(NoteError::NotAuthor)
            } else {
                validate_content(content)
            }
        },
    }
}

pub struct NoteView {
    pub id: Seq<char>,
    pub target_user_id: i64,
    pub author_id: i64,
    pub tribe: Seq<char>,
    pub content: Seq<char>,
    pub created_at: i64,
    pub updated_at: i64,
}

impl View for Note {
    type V = NoteView;

    open spec fn view(&self) -> NoteView {
        NoteView {
            id: self.id@,
            target_user_id: self.target_user_id,
            author_id: self.author_id,
            tribe: self.tribe@,
            content: self.content@,
            created_at: self.created_at,
            updated_at: self.updated_at,
        }
    }
}

impl Clone for Note {
    fn clone(&self) -> (r: Self)
        ensures
            r@ == self@,
    {
        Note {
            id: self.id.clone(),
            target_user_id: self.target_user_id,
            author_id: self.author_id,
            tribe: self.tribe.clone(),
            content: self.content.clone(),
            created_at: self.created_at,
            updated_at: self.updated_at,
        }
    }
}

pub struct NoteWithAuthorView {
    pub id: Seq<char>,
    pub target_user_id: i64,
    pub author_id: i64,
    pub tribe: Seq<char>,
    pub content: Seq<char>,
    pub created_at: i64,
    pub updated_at: i64,
    pub author_username: Seq<char>,
    pub author_discriminator: Seq<char>,
}

impl View for NoteWithAuthor {
    type V = NoteWithAuthorView;

    open spec fn view(&self) -> NoteWithAuthorView {
        NoteWithAuthorView {
            id: self.id@,
            target_user_id: self.target_user_id,
            author_id: self.author_id,
            tribe: self.tribe@,
            content: self.content@,
            created_at: self.created_at,
            updated_at: self.updated_at,
            author_username: self.author_username@,
            author_discriminator: self.author_discriminator@,
        }
    }
}

/// Why a request on notes failed.
#[derive(Debug, Clone, Copy, PartialEq, Eq, Structural)]
pub enum NoteFailure {
    /// The caller may not act as admin of the tribe.
    Access(AccessError),
    /// The member that the note is about does not exist.
    UserNotFound,
    /// The note or its new content was refused.
    Note(NoteError),
}

impl NoteFailure {
    /// The HTTP status that reports the failure.
    pub open spec fn status_spec(self) -> u16 {
        match self {
            NoteFailure::Access(e) => e.status_spec(),
            NoteFailure::UserNotFound => 404,
            NoteFailure::Note(e) => e.status_spec(),
        }
    }

    pub fn status(&self) -> (r: u16)
        ensures
            r == self.status_spec(),
    {
        match self {
            NoteFailure::Access(e) => e.status(),
            NoteFailure::UserNotFound => 404,
            NoteFailure::Note(e) => e.status(),
        }
    }
}

/// What the audit log says of a new note.
pub open spec fn created_note_text(username: Seq<char>, tribe: Seq<char>, content: Seq<char>) -> Seq<
    char,
> {
    "Created note for "@ + username + " in tribe "@ + tribe + ": "@ + preview_of(content)
}

/// What the audit log says of an edited note.
pub open spec fn edited_note_text(tribe: Seq<char>, content: Seq<char>) -> Seq<char> {
    "Edited note in tribe "@ + tribe + ": "@ + preview_of(content)
}

/// Which notes a request may read: those on the member `target`, in the
/// tribe that the caller administers. `resolution` is how the resolution of
/// the caller's tribe went; `target` is the member, if it exists.
pub fn get_notes(
    resolution: Result<(User, String, Vec<String>), AccessError>,
    target: Option<User>,
) -> (r: Result<(i64, String), NoteFailure>)
    ensures
        match r {
            Ok((target_id, tribe)) => resolution matches Ok(ctx) && target matches Some(t)
                && target_id == t.id && tribe@ == ctx.1@,
            Err(NoteFailure::Access(e)) => resolution == Err::<
                (User, String, Vec<String>),
                AccessError,
            >(e),
            Err(NoteFailure::UserNotFound) => resolution is Ok && target is None,
            Err(NoteFailure::Note(_)) => false,
        },
{
    let (_, tribe, _) = match resolution {
        Ok(ctx) => ctx,
        Err(e) => {
            return Err(NoteFailure::Access(e));
        },
    };
    match target {
        Some(t) => Ok((t.id, tribe)),
        None => Err(NoteFailure::UserNotFound),
    }
}

/// Decides on a request to write a note on the member `target`, and builds
/// the note and its audit details. The checks come in this order: the
/// caller's admin rights, the member's existence, the content.
pub fn create_note(
    resolution: Result<(User, String, Vec<String>), AccessError>,
    target: Option<User>,
    payload: &CreateNoteRequest,
    note_id: String,
    now: i64,
) -> (r: Result<(Note, String), NoteFailure>)
    ensures
        match r {
            Ok((note, details)) => {
                &&& resolution matches Ok(ctx)
                &&& target matches Some(t)
                &&& content_verdict(payload.content@) is Ok
                &&& note@ == (NoteView {
                    id: note_id@,
                    target_user_id: t.id,
                    author_id: ctx.0.id,
                    tribe: ctx.1@,
                    content: payload.content@,
                    created_at: now,
                    updated_at: now,
                })
                &&& details@ == created_note_text(t.username@, ctx.1@, payload.content@)
            },
            Err(NoteFailure::Access(e)) => resolution == Err::<
                (User, String, Vec<String>),
                AccessError,
            >(e),
            Err(NoteFailure::UserNotFound) => resolution is Ok && target is None,
            Err(NoteFailure::Note(e)) => resolution is Ok && target is Some && content_verdict(
                payload.content@,
            ) == Err::<(), NoteError>(e),
        },
{
    let (current_user, tribe, _) = match resolution {
        Ok(ctx) => ctx,
        Err(e) => {
            return Err(NoteFailure::Access(e));
        },
    };
    let target_user = match target {
        Some(t) => t,
        None => {
            return Err(NoteFailure::UserNotFound);
        },
    };
    match validate_content(payload.content.as_str()) {
        Err(e) => {
            return Err(NoteFailure::Note(e));
        },
        Ok(_) => {},
    }
    let mut details = "Created note for ".to_owned();
    details.append(target_user.username.as_str());
    details.append(" in tribe ");
    details.append(tribe.as_str());
    details.append(": ");
    details.append(note_preview(payload.content.as_str()).as_str());
    let note = Note {
        id: note_id,
        target_user_id: target_user.id,
        author_id: current_user.id,
        tribe,
        content: payload.content.clone(),
        created_at: now,
        updated_at: now,
    };
    Ok((note, details))
}

/// The view of an optional note.
pub open spec fn opt_note_view(note: Option<Note>) -> Option<NoteView> {
    match note {
        Some(n) => Some(n@),
        None => None,
    }
}

/// Decides on a request to edit a note, and builds the edited note and its
/// audit details. Only the author may edit; the new content must be valid.
pub fn edit_note(
    note: Option<Note>,
    auth_user: &AuthenticatedUser,
    payload: &EditNoteRequest,
    now: i64,
) -> (r: Result<(Note, String), NoteFailure>)
    ensures
        match r {
            Ok((edited, details)) => {
                &&& note matches Some(n)
                &&& edit_verdict(Some(n.author_id), auth_user.user_id, payload.content@) is Ok
                &&& edited@ == (NoteView { content: payload.content@, updated_at: now, ..n@ })
                &&& details@ == edited_note_text(n.tribe@, payload.content@)
            },
            Err(NoteFailure::Note(e)) => edit_verdict(
                match note {
                    Some(n) => Some(n.author_id),
                    None => None,
                },
                auth_user.user_id,
                payload.content@,
            ) == Err::<(), NoteError>(e),
            Err(_) => false,
        },
{
    let author = match &note {
        Some(n) => Some(n.author_id),
        None => None,
    };
    match check_edit(author, auth_user.user_id, payload.content.as_str()) {
        Err(e) => {
            return Err(NoteFailure::Note(e));
        },
        Ok(_) => {},
    }
    let n = note.unwrap();
    let mut details = "Edited note in tribe ".to_owned();
    details.append(n.tribe.as_str());
    details.append(": ");
    details.append(note_preview(payload.content.as_str()).as_str());
    let edited = Note {
        id: n.id,
        target_user_id: n.target_user_id,
        author_id: n.author_id,
        tribe: n.tribe,
        content: payload.content.clone(),
        created_at: n.created_at,
        updated_at: now,
    };
    Ok((edited, details))
}

} // verus!
