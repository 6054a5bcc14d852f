//! The durable entities: accounts, wallet bindings, tribes and tribe
//! memberships. Times are milliseconds since the Unix epoch.

use vstd::prelude::*;

verus! {

/// An account linked to an external identity.
#[derive(Debug)]
pub struct User {
    pub id: i64,
    pub discord_id: String,
    pub username: String,
    pub discriminator: String,
    pub avatar: Option<String>,
    /// The global, legacy admin flag.
    pub is_admin: bool,
    pub last_login_at: Option<i64>,
}

pub struct UserView {
    pub id: i64,
    pub discord_id: Seq<char>,
    pub username: Seq<char>,
    pub discriminator: Seq<char>,
    pub avatar: Option<Seq<char>>,
    pub is_admin: bool,
    pub last_login_at: Option<i64>,
}

/// The view of an optional text.
pub open spec fn opt_text(t: Option<String>) -> Option<Seq<char>> {
    match t {
        Some(s) => Some(s@),
        None => None,
    }
}

/// Copies an optional text.
pub fn clone_opt_text(t: &Option<String>) -> (r: Option<String>)
    ensures
        opt_text(r) == opt_text(*t),
{
    match t {
        Some(s) => Some(s.clone()),
        None => None,
    }
}

impl View for User {
    type V = UserView;

    open spec fn view(&self) -> UserView {
        UserView {
            id: self.id,
            discord_id: self.discord_id@,
            username: self.username@,
            discriminator: self.discriminator@,
            avatar: opt_text(self.avatar),
            is_admin: self.is_admin,
            last_login_at: self.last_login_at,
        }
    }
}

impl Clone for User {
    fn clone(&self) -> (r: Self)
        ensures
            r@ == self@,
    {
        User {
            id: self.id,
            discord_id: self.discord_id.clone(),
            username: self.username.clone(),
            discriminator: self.discriminator.clone(),
            avatar: clone_opt_text(&self.avatar),
            is_admin: self.is_admin,
            last_login_at: self.last_login_at,
        }
    }
}

/// How a membership came to be.
#[derive(Debug, Clone, Copy, PartialEq, Eq, Structural)]
pub enum MembershipSource {
    /// Derived by the system from a verified wallet.
    System,
    /// Granted by hand by an administrator.
    Manual,
}

/// The membership of one account in one tribe.
#[derive(Debug)]
pub struct UserTribe {
    pub user_id: i64,
    pub tribe: String,
    /// Weak reference to the wallet binding the membership came from.
    pub wallet_id: Option<String>,
    pub created_at: Option<i64>,
    /// The per-tribe admin flag.
    pub is_admin: bool,
    pub source: MembershipSource,
}

pub struct UserTribeView {
    pub user_id: i64,
    pub tribe: Seq<char>,
    pub wallet_id: Option<Seq<char>>,
    pub created_at: Option<i64>,
    pub is_admin: bool,
    pub source: MembershipSource,
}

impl View for UserTribe {
    type V = UserTribeView;

    open spec fn view(&self) -> UserTribeView {
        UserTribeView {
            user_id: self.user_id,
            tribe: self.tribe@,
            wallet_id: opt_text(self.wallet_id),
            created_at: self.created_at,
            is_admin: self.is_admin,
            source: self.source,
        }
    }
}

impl Clone for UserTribe {
    fn clone(&self) -> (r: Self)
        ensures
            r@ == self@,
    {
        UserTribe {
            user_id: self.user_id,
            tribe: self.tribe.clone(),
            wallet_id: clone_opt_text(&self.wallet_id),
            created_at: self.created_at,
            is_admin: self.is_admin,
            source: self.source,
        }
    }
}

/// A wallet address bound to one account. `deleted_at` is the soft-delete
/// mark: `None` means the binding is active.
#[derive(Debug)]
pub struct WalletBinding {
    pub id: String,
    pub user_id: i64,
    /// The address in normalized (lower-case) form.
    pub address: String,
    pub verified_at: i64,
    pub deleted_at: Option<i64>,
}

pub struct WalletBindingView {
    pub id: Seq<char>,
    pub user_id: i64,
    pub address: Seq<char>,
    pub verified_at: i64,
    pub deleted_at: Option<i64>,
}

impl WalletBindingView {
    /// A binding is active while it carries no soft-delete mark.
    pub open spec fn is_active(self) -> bool {
        self.deleted_at is None
    }
}

impl View for WalletBinding {
    type V = WalletBindingView;

    open spec fn view(&self) -> WalletBindingView {
        WalletBindingView {
            id: self.id@,
            user_id: self.user_id,
            address: self.address@,
            verified_at: self.verified_at,
            deleted_at: self.deleted_at,
        }
    }
}

impl Clone for WalletBinding {
    fn clone(&self) -> (r: Self)
        ensures
            r@ == self@,
    {
        WalletBinding {
            id: self.id.clone(),
            user_id: self.user_id,
            address: self.address.clone(),
            verified_at: self.verified_at,
            deleted_at: self.deleted_at,
        }
    }
}

impl WalletBinding {
    /// Whether the binding is active.
    pub fn is_active(&self) -> (r: bool)
        ensures
            r == self@.is_active(),
    {
        self.deleted_at.is_none()
    }
}

/// A named group.
#[derive(Debug)]
pub struct Tribe {
    pub name: String,
    pub created_at: i64,
}

pub struct TribeView {
    pub name: Seq<char>,
    pub created_at: i64,
}

impl View for Tribe {
    type V = TribeView;

    open spec fn view(&self) -> TribeView {
        TribeView { name: self.name@, created_at: self.created_at }
    }
}

impl Clone for Tribe {
    fn clone(&self) -> (r: Self)
        ensures
            r@ == self@,
    {
        Tribe { name: self.name.clone(), created_at: self.created_at }
    }
}

/// What kind of identity a remembered fingerprint stands for.
#[derive(Debug, Clone, Copy, PartialEq, Eq, Structural)]
pub enum IdentityKind {
    Discord,
    Wallet,
}

/// The fingerprint of an erased identity. An identity whose fingerprint is
/// remembered cannot come back.
#[derive(Debug)]
pub struct IdentityHash {
    pub hash: String,
    pub kind: IdentityKind,
}

pub struct IdentityHashView {
    pub hash: Seq<char>,
    pub kind: IdentityKind,
}

impl View for IdentityHash {
    type V = IdentityHashView;

    open spec fn view(&self) -> IdentityHashView {
        IdentityHashView { hash: self.hash@, kind: self.kind }
    }
}

impl Clone for IdentityHash {
    fn clone(&self) -> (r: Self)
        ensures
            r@ == self@,
    {
        IdentityHash { hash: self.hash.clone(), kind: self.kind }
    }
}

/// What the identity provider says of a user.
#[derive(Debug)]
pub struct DiscordProfile {
    pub id: String,
    pub username: String,
    pub discriminator: String,
    pub avatar: Option<String>,
}

pub struct DiscordProfileView {
    pub id: Seq<char>,
    pub username: Seq<char>,
    pub discriminator: Seq<char>,
    pub avatar: Option<Seq<char>>,
}

impl View for DiscordProfile {
    type V = DiscordProfileView;

    open spec fn view(&self) -> DiscordProfileView {
        DiscordProfileView {
            id: self.id@,
            username: self.username@,
            discriminator: self.discriminator@,
            avatar: opt_text(self.avatar),
        }
    }
}

} // verus!
