//! Privileged administration: the requests, the checks made before any
//! write, the failures, and what the audit log says of each mutation.

use vstd::prelude::*;
use vstd::string::StringExecFns;
use crate::text::{
    all_whitespace, bool_text, bool_text_of, debug_list, debug_list_of, is_blank, views_of,
};
use crate::models::{User, UserView, WalletBinding};
use crate::tribes::MAX_NAME_CHARS;
use crate::wallet::opt_binding_view;

verus! {

/// The body of a request to update an account.
#[derive(Debug)]
pub struct UpdateUserRequest {
    pub is_admin: bool,
    pub username: String,
    pub discriminator: String,
    /// The tribes in which the account is to be admin; in all others of its
    /// tribes it loses the flag.
    pub admin_tribes: Vec<String>,
}

/// The body of a request to create or rename a tribe.
#[derive(Debug)]
pub struct CreateTribeRequest {
    pub name: String,
}

/// The body of a request to add an account to a tribe.
#[derive(Debug)]
pub struct AddUserToTribeRequest {
    pub username: String,
}

/// Why a privileged mutation was refused.
#[derive(Debug, Clone, Copy, PartialEq, Eq, Structural)]
pub enum AdminError {
    /// The name is empty or blank.
    EmptyName,
    /// The tribe name is longer than `MAX_NAME_CHARS`.
    NameTooLong,
    /// The user name is longer than `MAX_NAME_CHARS`.
    UsernameTooLong,
    UserNotFound,
    WalletNotFound,
    /// A tribe of that name exists.
    TribeExists,
    AlreadyInTribe,
    TribeMissing,
    /// The acting administrator has no account.
    AdminUnknown,
    /// The store refused a write; nothing was changed.
    Storage,
}

impl AdminError {
    /// The HTTP status that reports the error.
    pub open spec fn status_spec(self) -> u16 {
        match self {
            AdminError::EmptyName => 400,
            AdminError::NameTooLong => 400,
            AdminError::UsernameTooLong => 400,
            AdminError::UserNotFound => 404,
            AdminError::WalletNotFound => 404,
            AdminError::TribeExists => 409,
            AdminError::AlreadyInTribe => 409,
            AdminError::TribeMissing => 400,
            AdminError::AdminUnknown => 500,
            AdminError::Storage => 500,
        }
    }

    pub fn status(&self) -> (r: u16)
        ensures
            r == self.status_spec(),
    {
        match self {
            AdminError::EmptyName => 400,
            AdminError::NameTooLong => 400,
            AdminError::UsernameTooLong => 400,
            AdminError::UserNotFound => 404,
            AdminError::WalletNotFound => 404,
            AdminError::TribeExists => 409,
            AdminError::AlreadyInTribe => 409,
            AdminError::TribeMissing => 400,
            AdminError::AdminUnknown => 500,
            AdminError::Storage => 500,
        }
    }

    /// The reason given to the client; empty where only the status speaks.
    pub open spec fn message_spec(self) -> Seq<char> {
        match self {
            AdminError::NameTooLong => "Tribe name exceeds maximum length (100 characters)"@,
            AdminError::UsernameTooLong => "Username exceeds maximum length (100 characters)"@,
            AdminError::UserNotFound => "User not found"@,
            AdminError::WalletNotFound => "Wallet not found or already deleted"@,
            AdminError::AlreadyInTribe => "User already in tribe"@,
            AdminError::TribeMissing => "Tribe does not exist"@,
            _ => ""@,
        }
    }

    pub fn message(&self) -> (r: &'static str)
        ensures
            r@ == self.message_spec(),
    {
        match self {
            AdminError::NameTooLong => "Tribe name exceeds maximum length (100 characters)",
            AdminError::UsernameTooLong => "Username exceeds maximum length (100 characters)",
            AdminError::UserNotFound => "User not found",
            AdminError::WalletNotFound => "Wallet not found or already deleted",
            AdminError::AlreadyInTribe => "User already in tribe",
            AdminError::TribeMissing => "Tribe does not exist",
            _ => "",
        }
    }
}

/// Whether a text may name a tribe: not blank, at most `MAX_NAME_CHARS`
/// characters.
pub open spec fn tribe_name_verdict(name: Seq<char>) -> Result<(), AdminError> {
    if all_whitespace(name) {
        Err(AdminError::EmptyName)
    } else if name.len() > MAX_NAME_CHARS {
        Err(AdminError::NameTooLong)
    } else {
        Ok(())
    }
}

/// Checks a tribe name before any transaction is opened.
pub fn validate_tribe_name(name: &str) -> (r: Result<(), AdminError>)
    ensures
        r == tribe_name_verdict(name@),
{
    if is_blank(name) {
        return Err(AdminError::EmptyName);
    }
    if name.unicode_len() > MAX_NAME_CHARS {
        return Err(AdminError::NameTooLong);
    }
    Ok(())
}

/// Whether a text may be looked up as a user name: at most `MAX_NAME_CHARS`
/// characters.
pub fn validate_username(name: &str) -> (r: Result<(), AdminError>)
    ensures
        r == if name@.len() > MAX_NAME_CHARS {
            Err::<(), AdminError>(AdminError::UsernameTooLong)
        } else {
            Ok::<(), AdminError>(())
        },
{
    if name.unicode_len() > MAX_NAME_CHARS {
        return Err(AdminError::UsernameTooLong);
    }
    Ok(())
}

/// The audit details of a tribe's creation.
pub open spec fn created_tribe_text(name: Seq<char>) -> Seq<char> {
    "Created Tribe '"@ + name + "'"@
}

pub fn created_tribe_details(name: &str) -> (r: String)
    ensures
        r@ == created_tribe_text(name@),
{
    let mut out = "Created Tribe '".to_owned();
    out.append(name);
    out.append("'");
    out
}

/// The audit details of a tribe's renaming.
pub open spec fn renamed_tribe_text(from: Seq<char>, to: Seq<char>) -> Seq<char> {
    "Renamed Tribe '"@ + from + "' to '"@ + to + "'"@
}

pub fn renamed_tribe_details(from: &str, to: &str) -> (r: String)
    ensures
        r@ == renamed_tribe_text(from@, to@),
{
    let mut out = "Renamed Tribe '".to_owned();
    out.append(from);
    out.append("' to '");
    out.append(to);
    out.append("'");
    out
}

/// The audit details of an account's addition to a tribe.
pub open spec fn added_user_text(username: Seq<char>, tribe: Seq<char>) -> Seq<char> {
    "Added User '"@ + username + "' to Tribe '"@ + tribe + "'"@
}

pub fn added_user_details(username: &str, tribe: &str) -> (r: String)
    ensures
        r@ == added_user_text(username@, tribe@),
{
    let mut out = "Added User '".to_owned();
    out.append(username);
    out.append("' to Tribe '");
    out.append(tribe);
    out.append("'");
    out
}

/// The audit details of a grant of admin rights.
pub open spec fn granted_admin_text(username: Seq<char>, tribe: Seq<char>, wallet_id: Seq<char>) -> Seq<
    char,
> {
    "Granted admin to "@ + username + " in tribe "@ + tribe + " via wallet "@ + wallet_id
}

pub fn granted_admin_details(username: &str, tribe: &str, wallet_id: &str) -> (r: String)
    ensures
        r@ == granted_admin_text(username@, tribe@, wallet_id@),
{
    let mut out = "Granted admin to ".to_owned();
    out.append(username);
    out.append(" in tribe ");
    out.append(tribe);
    out.append(" via wallet ");
    out.append(wallet_id);
    out
}

/// The audit details of an account's update: the old and the new value of
/// each field that the update sets, and the tribes to administer.
pub open spec fn updated_user_text(
    old_is_admin: bool,
    old_username: Seq<char>,
    old_discriminator: Seq<char>,
    is_admin: bool,
    username: Seq<char>,
    discriminator: Seq<char>,
    admin_tribes: Seq<Seq<char>>,
) -> Seq<char> {
    "is_admin: "@ + bool_text_of(old_is_admin) + "->"@ + bool_text_of(is_admin) + ", username: "@
        + old_username + "->"@ + username + ", discriminator: "@ + old_discriminator + "->"@
        + discriminator + ", admin_tribes: "@ + debug_list_of(admin_tribes)
}

pub fn updated_user_details(
    old_is_admin: bool,
    old_username: &str,
    old_discriminator: &str,
    payload: &UpdateUserRequest,
) -> (r: String)
    ensures
        r@ == updated_user_text(
            old_is_admin,
            old_username@,
            old_discriminator@,
            payload.is_admin,
            payload.username@,
            payload.discriminator@,
            views_of(payload.admin_tribes@),
        ),
{
    let mut out = "is_admin: ".to_owned();
    out.append(bool_text(old_is_admin));
    out.append("->");
    out.append(bool_text(payload.is_admin));
    out.append(", username: ");
    out.append(old_username);
    out.append("->");
    out.append(payload.username.as_str());
    out.append(", discriminator: ");
    out.append(old_discriminator);
    out.append("->");
    out.append(payload.discriminator.as_str());
    out.append(", admin_tribes: ");
    let list = debug_list(&payload.admin_tribes);
    out.append(list.as_str());
    assert(out@ =~= updated_user_text(
        old_is_admin,
        old_username@,
        old_discriminator@,
        payload.is_admin,
        payload.username@,
        payload.discriminator@,
        views_of(payload.admin_tribes@),
    ));
    out
}

/// Whether an account may be added to a tribe: the account must exist, must
/// not be a member yet, and the tribe must exist, checked in this order.
pub open spec fn add_user_decision(user_found: bool, already_member: bool, tribe_exists: bool) -> Result<
    (),
    AdminError,
> {
    if !user_found {
        Err(AdminError::UserNotFound)
    } else if already_member {
        Err(AdminError::AlreadyInTribe)
    } else if !tribe_exists {
        Err(AdminError::TribeMissing)
    } else {
        Ok(())
    }
}

/// Decides on the addition of an account to a tribe. `user` is the account
/// of the name in the request, if there is one; `already_member` says
/// whether it is in the tribe, `tribe_exists` whether the tribe is known.
pub fn decide_add_user(user: Option<&User>, already_member: bool, tribe_exists: bool) -> (r: Result<
    (),
    AdminError,
>)
    ensures
        r == add_user_decision(user is Some, already_member, tribe_exists),
{
    if user.is_none() {
        Err(AdminError::UserNotFound)
    } else if already_member {
        Err(AdminError::AlreadyInTribe)
    } else if !tribe_exists {
        Err(AdminError::TribeMissing)
    } else {
        Ok(())
    }
}

/// How a grant of admin rights is written.
#[derive(Debug, Clone, Copy, PartialEq, Eq, Structural)]
pub enum GrantPlan {
    /// The member is in the tribe: set the flag and the wallet reference on
    /// its membership.
    UpdateMembership,
    /// The member is not in the tribe: insert a membership with the flag and
    /// the wallet reference.
    InsertMembership,
}

/// Whether admin rights may be granted to `target` resting on `wallet`: the
/// wallet binding must exist, be active, and belong to the target.
pub open spec fn grant_decision(
    target: UserView,
    wallet: Option<crate::models::WalletBindingView>,
    is_member: bool,
) -> Result<GrantPlan, AdminError> {
    match wallet {
        Some(w) => if w.is_active() && w.user_id == target.id {
            if is_member {
                Ok(GrantPlan::UpdateMembership)
            } else {
                Ok(GrantPlan::InsertMembership)
            }
        } else {
            Err(AdminError::WalletNotFound)
        },
        None => Err(AdminError::WalletNotFound),
    }
}

/// Decides on a grant of admin rights. `wallet` is the binding with the id
/// in the request, if there is one; `is_member` says whether the target is
/// in the tribe already.
pub fn decide_grant(target: &User, wallet: Option<&WalletBinding>, is_member: bool) -> (r: Result<
    GrantPlan,
    AdminError,
>)
    ensures
        r == grant_decision(target@, opt_binding_view(wallet), is_member),
{
    match wallet {
        Some(w) => {
            if w.is_active() && w.user_id == target.id {
                if is_member {
                    Ok(GrantPlan::UpdateMembership)
                } else {
                    Ok(GrantPlan::InsertMembership)
                }
            } else {
                Err(AdminError::WalletNotFound)
            }
        },
        None => Err(AdminError::WalletNotFound),
    }
}

} // verus!
