//! Voice-chat accounts: which name an account gets, and how its password
//! is made and checked.

use vstd::prelude::*;
use vstd::string::StringExecFns;
use crate::models::opt_text;
use crate::platform::{
    bcrypt_hash, bcrypt_verified, bcrypt_verify, is_ascii_alphanumeric, random_alphanumeric,
};
use crate::text::{all_whitespace, chars_of, is_blank, string_push};

verus! {

/// The body of a request to create a voice-chat account.
#[derive(Debug)]
pub struct CreateAccountRequest {
    pub user_id: i64,
}

/// The answer to the creation of a voice-chat account. The password is shown
/// this once only.
#[derive(Debug)]
pub struct CreateAccountResponse {
    pub username: String,
    pub password: String,
}

/// The body of a login check sent by the voice-chat authenticator.
#[derive(Debug)]
pub struct VerifyLoginRequest {
    pub username: String,
    pub password: String,
}

/// The answer to a successful login check.
#[derive(Debug)]
pub struct VerifyLoginResponse {
    pub user_id: i64,
    pub username: String,
}

/// Whether the account has a voice-chat account, and which tribe it needs.
#[derive(Debug)]
pub struct MumbleStatusResponse {
    pub username: Option<String>,
    pub required_tribe: String,
}

/// A text with every space replaced by an underscore.
pub open spec fn spaces_to_underscores(text: Seq<char>) -> Seq<char> {
    Seq::new(text.len(), |i: int| if text[i] == ' ' { '_' } else { text[i] })
}

/// The name that a voice-chat account is based on: the wallet reference of
/// the membership where there is one that is not blank, else the account's
/// own name.
pub open spec fn resolved_username(wallet_id: Option<Seq<char>>, username: Seq<char>) -> Seq<char> {
    match wallet_id {
        Some(w) => if all_whitespace(w) {
            username
        } else {
            w
        },
        None => username,
    }
}

/// Resolves the name to use for a voice-chat account. The wallet reference
/// has priority where it is present and not blank.
pub fn resolve_mumble_username(wallet_id: Option<String>, username: String) -> (r: String)
    ensures
        r@ == resolved_username(crate::models::opt_text(wallet_id), username@),
{
    match wallet_id {
        Some(w) => {
            if !is_blank(w.as_str()) {
                w
            } else {
                username
            }
        },
        None => username,
    }
}

/// Replaces every space by an underscore and keeps all other characters.
pub fn sanitize_username(name: &str) -> (r: String)
    ensures
        r@ == spaces_to_underscores(name@),
{
    let chars = chars_of(name);
    let mut out = String::new();
    let mut i: usize = 0;
    while i < chars.len()
        invariant
            i <= chars.len(),
            chars@ == name@,
            out@ == spaces_to_underscores(name@).take(i as int),
        decreases chars.len() - i,
    {
        let c = chars[i];
        if c == ' ' {
            string_push(&mut out, '_');
        } else {
            string_push(&mut out, c);
        }
        i = i + 1;
    }
    out
}

/// The length of a generated password.
pub const PASSWORD_CHARS: usize = 16;

/// The bcrypt cost of a stored password.
pub const PASSWORD_COST: u32 = 12;

/// Why a voice-chat request failed.
#[derive(Debug, Clone, Copy, PartialEq, Eq, Structural)]
pub enum MumbleError {
    /// The account is not in the tribe that voice chat requires.
    NotInRequiredTribe,
    /// The password could not be hashed.
    HashFailed,
    /// The name or the password is wrong.
    InvalidCredentials,
}

impl MumbleError {
    /// The HTTP status that reports the error.
    pub open spec fn status_spec(self) -> u16 {
        match self {
            MumbleError::NotInRequiredTribe => 403,
            MumbleError::HashFailed => 500,
            MumbleError::InvalidCredentials => 401,
        }
    }

    pub fn status(&self) -> (r: u16)
        ensures
            r == self.status_spec(),
    {
        match self {
            MumbleError::NotInRequiredTribe => 403,
            MumbleError::HashFailed => 500,
            MumbleError::InvalidCredentials => 401,
        }
    }

    /// The reason given to the client.
    pub open spec fn message_spec(self) -> Seq<char> {
        match self {
            MumbleError::NotInRequiredTribe => "User not in required tribe"@,
            MumbleError::HashFailed => "Failed to hash password"@,
            MumbleError::InvalidCredentials => "Invalid credentials"@,
        }
    }

    pub fn message(&self) -> (r: &'static str)
        ensures
            r@ == self.message_spec(),
    {
        match self {
            MumbleError::NotInRequiredTribe => "User not in required tribe",
            MumbleError::HashFailed => "Failed to hash password",
            MumbleError::InvalidCredentials => "Invalid credentials",
        }
    }
}

/// The membership that a voice-chat account rests on: its weak wallet
/// reference and the account's own name.
#[derive(Debug)]
pub struct RiderRecord {
    pub wallet_id: Option<String>,
    pub username: String,
}

/// A voice-chat account as it is stored.
#[derive(Debug)]
pub struct MumbleAccount {
    pub user_id: i64,
    pub username: String,
    pub password_hash: String,
}

pub struct MumbleAccountView {
    pub user_id: i64,
    pub username: Seq<char>,
    pub password_hash: Seq<char>,
}

impl View for MumbleAccount {
    type V = MumbleAccountView;

    open spec fn view(&self) -> MumbleAccountView {
        MumbleAccountView {
            user_id: self.user_id,
            username: self.username@,
            password_hash: self.password_hash@,
        }
    }
}

impl Clone for MumbleAccount {
    fn clone(&self) -> (r: Self)
        ensures
            r@ == self@,
    {
        MumbleAccount {
            user_id: self.user_id,
            username: self.username.clone(),
            password_hash: self.password_hash.clone(),
        }
    }
}

/// The name of the voice-chat account that rests on a membership.
pub open spec fn account_name(wallet_id: Option<Seq<char>>, username: Seq<char>) -> Seq<char> {
    spaces_to_underscores(resolved_username(wallet_id, username))
}

/// What the audit log says of a new voice-chat account.
pub open spec fn created_account_text(name: Seq<char>) -> Seq<char> {
    "Created mumble account: "@ + name
}

/// Settles a request for a voice-chat account, given the membership in the
/// required tribe (if the account has one), a generated password and the
/// outcome of hashing it. Yields the answer for the client, the account to
/// store (created or replaced), and the audit details.
pub fn settle_account(
    user_id: i64,
    membership: Option<RiderRecord>,
    password: String,
    hashed: Option<String>,
) -> (r: Result<(CreateAccountResponse, MumbleAccount, String), MumbleError>)
    ensures
        match r {
            Ok((response, account, details)) => {
                &&& membership matches Some(m)
                &&& hashed matches Some(h)
                &&& response.username@ == account_name(opt_text(m.wallet_id), m.username@)
                &&& response.password@ == password@
                &&& account.user_id == user_id
                &&& account.username@ == response.username@
                &&& account.password_hash@ == h@
                &&& details@ == created_account_text(response.username@)
            },
            Err(e) => e == if membership is None {
                MumbleError::NotInRequiredTribe
            } else {
                MumbleError::HashFailed
            } && (membership is None || hashed is None),
        },
{
    let m = match membership {
        Some(m) => m,
        None => {
            return Err(MumbleError::NotInRequiredTribe);
        },
    };
    let password_hash = match hashed {
        Some(h) => h,
        None => {
            return Err(MumbleError::HashFailed);
        },
    };
    let name = resolve_mumble_username(m.wallet_id, m.username);
    let mumble_username = sanitize_username(name.as_str());
    let mut details = "Created mumble account: ".to_owned();
    details.append(mumble_username.as_str());
    let account = MumbleAccount { user_id, username: mumble_username.clone(), password_hash };
    Ok((CreateAccountResponse { username: mumble_username, password }, account, details))
}

/// Creates, or resets, the voice-chat account of `user_id`: draws a random
/// password of letters and digits, hashes it, and settles the request. An
/// account without the required membership is turned away before anything
/// is drawn. Whatever was drawn, a password that is handed out has
/// `PASSWORD_CHARS` letters and digits and matches the stored hash.
pub fn create_account(user_id: i64, membership: Option<RiderRecord>) -> (r: Result<
    (CreateAccountResponse, MumbleAccount, String),
    MumbleError,
>)
    ensures
        match r {
            Ok((response, account, details)) => {
                &&& membership matches Some(m)
                &&& response.username@ == account_name(opt_text(m.wallet_id), m.username@)
                &&& response.password@.len() == PASSWORD_CHARS
                &&& forall|i: int|
                    0 <= i < response.password@.len() ==> is_ascii_alphanumeric(
                        #[trigger] response.password@[i],
                    )
                &&& account.user_id == user_id
                &&& account.username@ == response.username@
                &&& bcrypt_verified(response.password@, account.password_hash@) == Some(true)
                &&& details@ == created_account_text(response.username@)
            },
            Err(e) => (e == MumbleError::NotInRequiredTribe) == (membership is None),
        },
{
    if membership.is_none() {
        return Err(MumbleError::NotInRequiredTribe);
    }
    let password = random_alphanumeric(PASSWORD_CHARS);
    let hashed = match bcrypt_hash(password.as_str(), PASSWORD_COST) {
        Ok(h) => Some(h),
        Err(_) => None,
    };
    settle_account(user_id, membership, password, hashed)
}

/// Whether a login check goes through: an account of that name exists and
/// the password matches its stored hash. A stored text that is no hash
/// matches nothing.
pub open spec fn login_accepted(stored_hash: Option<Seq<char>>, password: Seq<char>) -> bool {
    match stored_hash {
        Some(h) => bcrypt_verified(password, h) == Some(true),
        None => false,
    }
}

/// Checks a login for the voice-chat authenticator. `record` is the stored
/// account of the name in the request, if there is one.
pub fn verify_login(record: Option<MumbleAccount>, payload: &VerifyLoginRequest) -> (r: Result<
    VerifyLoginResponse,
    MumbleError,
>)
    ensures
        match r {
            Ok(response) => record matches Some(account) && login_accepted(
                Some(account.password_hash@),
                payload.password@,
            ) && response.user_id == account.user_id && response.username@ == payload.username@,
            Err(e) => e == MumbleError::InvalidCredentials && !login_accepted(
                match record {
                    Some(account) => Some(account.password_hash@),
                    None => None,
                },
                payload.password@,
            ),
        },
{
    match record {
        Some(account) => {
            let matches = match bcrypt_verify(
                payload.password.as_str(),
                account.password_hash.as_str(),
            ) {
                Ok(b) => b,
                Err(_) => false,
            };
            if matches {
                Ok(
                    VerifyLoginResponse {
                        user_id: account.user_id,
                        username: payload.username.clone(),
                    },
                )
            } else {
                Err(MumbleError::InvalidCredentials)
            }
        },
        None => Err(MumbleError::InvalidCredentials),
    }
}

/// Says whether the account has a voice-chat account, and which tribe voice
/// chat requires.
pub fn get_status(username: Option<String>, required_tribe: &str) -> (r: MumbleStatusResponse)
    ensures
        opt_text(r.username) == opt_text(username),
        r.required_tribe@ == required_tribe@,
{
    MumbleStatusResponse { username, required_tribe: required_tribe.to_owned() }
}

} // verus!
