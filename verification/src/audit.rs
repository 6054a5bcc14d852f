//! The audit log: the closed set of recorded actions, the shape of an entry,
//! and the append-only log itself.

use vstd::prelude::*;

verus! {

/// Actions that can be recorded in the audit log.
#[derive(Debug, Clone, Copy, PartialEq, Eq, Structural)]
pub enum AuditAction {
    Login,
    LinkWallet,
    UnlinkWallet,
    ViewRoster,
    ViewMember,
    AdminGrant,
    AdminRevoke,
    TribeJoin,
    TribeLeave,
    NoteCreate,
    NoteEdit,
    MumbleCreateAccount,
    MumbleLogin,
    DeleteUser,
    SuperAdminUpdateUser,
    SuperAdminCreateTribe,
    SuperAdminUpdateTribe,
    SuperAdminDeleteWallet,
}

impl AuditAction {
    /// The label under which the action is stored.
    pub open spec fn label(self) -> Seq<char> {
        match self {
            AuditAction::Login => "LOGIN"@,
            AuditAction::LinkWallet => "LINK_WALLET"@,
            AuditAction::UnlinkWallet => "UNLINK_WALLET"@,
            AuditAction::ViewRoster => "VIEW_ROSTER"@,
            AuditAction::ViewMember => "VIEW_MEMBER"@,
            AuditAction::AdminGrant => "ADMIN_GRANT"@,
            AuditAction::AdminRevoke => "ADMIN_REVOKE"@,
            AuditAction::TribeJoin => "TRIBE_JOIN"@,
            AuditAction::TribeLeave => "TRIBE_LEAVE"@,
            AuditAction::NoteCreate => "NOTE_CREATE"@,
            AuditAction::NoteEdit => "NOTE_EDIT"@,
            AuditAction::MumbleCreateAccount => "MUMBLE_CREATE_ACCOUNT"@,
            AuditAction::MumbleLogin => "MUMBLE_LOGIN"@,
            AuditAction::DeleteUser => "DELETE_USER"@,
            AuditAction::SuperAdminUpdateUser => "SUPER_ADMIN_UPDATE_USER"@,
            AuditAction::SuperAdminCreateTribe => "SUPER_ADMIN_CREATE_TRIBE"@,
            AuditAction::SuperAdminUpdateTribe => "SUPER_ADMIN_UPDATE_TRIBE"@,
            AuditAction::SuperAdminDeleteWallet => "SUPER_ADMIN_DELETE_WALLET"@,
        }
    }

    pub fn as_str(&self) -> (r: &'static str)
        ensures
            r@ == self.label(),
    {
        match self {
            AuditAction::Login => "LOGIN",
            AuditAction::LinkWallet => "LINK_WALLET",
            AuditAction::UnlinkWallet => "UNLINK_WALLET",
            AuditAction::ViewRoster => "VIEW_ROSTER",
            AuditAction::ViewMember => "VIEW_MEMBER",
            AuditAction::AdminGrant => "ADMIN_GRANT",
            AuditAction::AdminRevoke => "ADMIN_REVOKE",
            AuditAction::TribeJoin => "TRIBE_JOIN",
            AuditAction::TribeLeave => "TRIBE_LEAVE",
            AuditAction::NoteCreate => "NOTE_CREATE",
            AuditAction::NoteEdit => "NOTE_EDIT",
            AuditAction::MumbleCreateAccount => "MUMBLE_CREATE_ACCOUNT",
            AuditAction::MumbleLogin => "MUMBLE_LOGIN",
            AuditAction::DeleteUser => "DELETE_USER",
            AuditAction::SuperAdminUpdateUser => "SUPER_ADMIN_UPDATE_USER",
            AuditAction::SuperAdminCreateTribe => "SUPER_ADMIN_CREATE_TRIBE",
            AuditAction::SuperAdminUpdateTribe => "SUPER_ADMIN_UPDATE_TRIBE",
            AuditAction::SuperAdminDeleteWallet => "SUPER_ADMIN_DELETE_WALLET",
        }
    }
}

/// One record of the audit log.
#[derive(Debug)]
pub struct AuditLogEntry {
    pub id: String,
    pub action: AuditAction,
    pub actor_id: i64,
    pub target_id: Option<i64>,
    pub details: String,
    pub created_at: i64,
}

/// What an audit entry says, with texts as character sequences.
pub struct AuditLogEntryView {
    pub id: Seq<char>,
    pub action: AuditAction,
    pub actor_id: i64,
    pub target_id: Option<i64>,
    pub details: Seq<char>,
    pub created_at: i64,
}

impl View for AuditLogEntry {
    type V = AuditLogEntryView;

    open spec fn view(&self) -> AuditLogEntryView {
        AuditLogEntryView {
            id: self.id@,
            action: self.action,
            actor_id: self.actor_id,
            target_id: self.target_id,
            details: self.details@,
            created_at: self.created_at,
        }
    }
}

impl Clone for AuditLogEntry {
    fn clone(&self) -> (r: Self)
        ensures
            r@ == self@,
    {
        AuditLogEntry {
            id: self.id.clone(),
            action: self.action,
            actor_id: self.actor_id,
            target_id: self.target_id,
            details: self.details.clone(),
            created_at: self.created_at,
        }
    }
}

} // verus!
