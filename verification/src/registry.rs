//! The durable state of the service as one value: accounts, wallet bindings,
//! tribe memberships, tribes, notes, voice-chat accounts and the audit log,
//! with the invariants that tie them together. Every mutation here is paired with its audit entry: both
//! take effect, or neither does.

use vstd::prelude::*;
use vstd::string::{StringExecFns, StringSliceAdditionalSpecFns};
use vstd::utf8::encode_utf8;
use crate::admin::{
    added_user_details, added_user_text, created_tribe_details, created_tribe_text,
    decide_add_user, decide_grant, granted_admin_details, granted_admin_text,
    renamed_tribe_details, renamed_tribe_text, tribe_name_verdict, updated_user_details,
    updated_user_text, validate_tribe_name, validate_username, AdminError, GrantPlan,
    UpdateUserRequest,
};
use crate::audit::{AuditAction, AuditLogEntry, AuditLogEntryView};
use crate::auth::{hash_identity, identity_hash};
use crate::errors::ErrorKind;
use crate::models::{
    clone_opt_text, DiscordProfile, DiscordProfileView, IdentityHash, IdentityHashView,
    IdentityKind, MembershipSource, Tribe, TribeView, User, UserTribe, UserTribeView, UserView,
    WalletBinding, WalletBindingView,
};
use crate::mumble::{MumbleAccount, MumbleAccountView};
use crate::notes::{Note, NoteView};
use crate::seqs::{kept, lemma_kept_origin, lemma_kept_push};
use crate::text::{
    concat2, decimal_of_u64, format_u64, lowercase_of, normalize_address, same_text, views_of,
};
use crate::tribes::{
    find_membership, find_tribe, find_user, find_user_by_identity, find_user_by_name,
    first_user_named, first_user_with_identity, has_tribe, has_user, index_of_member,
    index_of_user, is_member, lemma_first_user_named_unique,
    lemma_first_user_with_identity_unique, rename_collides, rename_membership_rows,
    rename_tribe_rows, rename_would_collide, row_renamed, row_with_admin_flag, set_admin_flags,
    tribe_renamed, MAX_NAME_CHARS,
};
use crate::wallet::{
    link_decision, link_record, opt_binding_view, plan_link, LinkError, LinkOutcome, LinkPlan,
    SignatureCheck,
};

verus! {

/// Why a wallet binding could not be removed.
#[derive(Debug, Clone, Copy, PartialEq, Eq, Structural)]
pub enum UnlinkError {
    /// No such binding, or it is soft-deleted already, or it belongs to
    /// another account.
    NotFoundOrNotOwned,
    /// The store refused a write; nothing was changed.
    Storage,
}

impl UnlinkError {
    /// The HTTP status that reports the error.
    pub open spec fn status_spec(self) -> u16 {
        match self {
            UnlinkError::NotFoundOrNotOwned => 404,
            UnlinkError::Storage => 500,
        }
    }

    pub fn status(&self) -> (r: u16)
        ensures
            r == self.status_spec(),
    {
        match self {
            UnlinkError::NotFoundOrNotOwned => 404,
            UnlinkError::Storage => 500,
        }
    }
}

/// Whether a binding may be unlinked by `user_id`: it must exist, be active
/// and belong to that account.
pub open spec fn unlink_decision(wallet: Option<WalletBindingView>, user_id: i64) -> Result<
    (),
    UnlinkError,
> {
    match wallet {
        Some(w) => if w.is_active() && w.user_id == user_id {
            Ok(())
        } else {
            Err(UnlinkError::NotFoundOrNotOwned)
        },
        None => Err(UnlinkError::NotFoundOrNotOwned),
    }
}

/// Decides on an owner's request to unlink a binding. `wallet` is the
/// binding with the id in the request, if there is one.
pub fn decide_unlink(wallet: Option<&WalletBinding>, user_id: i64) -> (r: Result<(), UnlinkError>)
    ensures
        r == unlink_decision(opt_binding_view(wallet), user_id),
{
    match wallet {
        Some(w) => {
            if w.is_active() && w.user_id == user_id {
                Ok(())
            } else {
                Err(UnlinkError::NotFoundOrNotOwned)
            }
        },
        None => Err(UnlinkError::NotFoundOrNotOwned),
    }
}

/// Whether a binding may be removed by an administrator: it must exist and
/// be active, whoever owns it.
pub open spec fn forced_delete_decision(wallet: Option<WalletBindingView>) -> Result<
    (),
    UnlinkError,
> {
    match wallet {
        Some(w) => if w.is_active() {
            Ok(())
        } else {
            Err(UnlinkError::NotFoundOrNotOwned)
        },
        None => Err(UnlinkError::NotFoundOrNotOwned),
    }
}

/// Decides on an administrator's request to remove a binding.
pub fn decide_forced_delete(wallet: Option<&WalletBinding>) -> (r: Result<(), UnlinkError>)
    ensures
        r == forced_delete_decision(opt_binding_view(wallet)),
{
    match wallet {
        Some(w) => {
            if w.is_active() {
                Ok(())
            } else {
                Err(UnlinkError::NotFoundOrNotOwned)
            }
        },
        None => Err(UnlinkError::NotFoundOrNotOwned),
    }
}

/// What the registry holds, with texts as character sequences.
pub struct RegistryView {
    pub users: Seq<UserView>,
    pub wallets: Seq<WalletBindingView>,
    pub user_tribes: Seq<UserTribeView>,
    pub tribes: Seq<TribeView>,
    pub audit_logs: Seq<AuditLogEntryView>,
    pub identity_hashes: Seq<IdentityHashView>,
    pub notes: Seq<NoteView>,
    pub mumble_accounts: Seq<MumbleAccountView>,
}

/// Some binding holds the address.
pub open spec fn has_address(wallets: Seq<WalletBindingView>, address: Seq<char>) -> bool {
    exists|i: int| 0 <= i < wallets.len() && (#[trigger] wallets[i]).address == address
}

/// The position of a binding that holds the address.
pub open spec fn index_of_address(wallets: Seq<WalletBindingView>, address: Seq<char>) -> int {
    choose|i: int| 0 <= i < wallets.len() && (#[trigger] wallets[i]).address == address
}

/// The binding that holds the address, if there is one.
pub open spec fn binding_of_address(
    wallets: Seq<WalletBindingView>,
    address: Seq<char>,
) -> Option<WalletBindingView> {
    if has_address(wallets, address) {
        Some(wallets[index_of_address(wallets, address)])
    } else {
        None
    }
}

/// Some binding has the id.
pub open spec fn has_wallet_id(wallets: Seq<WalletBindingView>, id: Seq<char>) -> bool {
    exists|i: int| 0 <= i < wallets.len() && (#[trigger] wallets[i]).id == id
}

/// The position of a binding that has the id.
pub open spec fn index_of_wallet_id(wallets: Seq<WalletBindingView>, id: Seq<char>) -> int {
    choose|i: int| 0 <= i < wallets.len() && (#[trigger] wallets[i]).id == id
}

/// Some audit entry has the id.
pub open spec fn has_audit_id(logs: Seq<AuditLogEntryView>, id: Seq<char>) -> bool {
    exists|i: int| 0 <= i < logs.len() && (#[trigger] logs[i]).id == id
}

/// Some active binding of the account has the id.
pub open spec fn has_active_wallet(
    wallets: Seq<WalletBindingView>,
    id: Seq<char>,
    user_id: i64,
) -> bool {
    exists|i: int|
        0 <= i < wallets.len() && (#[trigger] wallets[i]).id == id && wallets[i].is_active()
            && wallets[i].user_id == user_id
}

/// A membership's weak wallet reference, where there is one, points at an
/// active binding of the member.
pub open spec fn ref_is_live(wallets: Seq<WalletBindingView>, row: UserTribeView) -> bool {
    row.wallet_id matches Some(id) ==> has_active_wallet(wallets, id, row.user_id)
}

/// A membership with its weak wallet reference cleared if it points at `id`.
pub open spec fn without_wallet_ref(row: UserTribeView, id: Seq<char>) -> UserTribeView {
    if row.wallet_id == Some(id) {
        UserTribeView { wallet_id: None, ..row }
    } else {
        row
    }
}

/// The memberships with every weak reference to the binding `id` cleared.
pub open spec fn refs_cleared(rows: Seq<UserTribeView>, id: Seq<char>) -> Seq<UserTribeView> {
    rows.map_values(|row: UserTribeView| without_wallet_ref(row, id))
}

impl RegistryView {
    /// No two bindings share an id.
    pub open spec fn wallet_ids_distinct(self) -> bool {
        forall|i: int, j: int|
            0 <= i < j < self.wallets.len() ==> (#[trigger] self.wallets[i]).id != (
            #[trigger] self.wallets[j]).id
    }

    /// No two bindings, active or soft-deleted, hold the same address.
    pub open spec fn wallet_addresses_distinct(self) -> bool {
        forall|i: int, j: int|
            0 <= i < j < self.wallets.len() ==> (#[trigger] self.wallets[i]).address != (
            #[trigger] self.wallets[j]).address
    }

    /// No two audit entries share an id.
    pub open spec fn audit_ids_distinct(self) -> bool {
        forall|i: int, j: int|
            0 <= i < j < self.audit_logs.len() ==> (#[trigger] self.audit_logs[i]).id != (
            #[trigger] self.audit_logs[j]).id
    }

    /// No two accounts share an id.
    pub open spec fn user_ids_distinct(self) -> bool {
        forall|i: int, j: int|
            0 <= i < j < self.users.len() ==> (#[trigger] self.users[i]).id != (
            #[trigger] self.users[j]).id
    }

    /// No two tribes share a name.
    pub open spec fn tribe_names_distinct(self) -> bool {
        forall|i: int, j: int|
            0 <= i < j < self.tribes.len() ==> (#[trigger] self.tribes[i]).name != (
            #[trigger] self.tribes[j]).name
    }

    /// Every tribe has a valid name: not blank, and of at most
    /// `MAX_NAME_CHARS` characters.
    pub open spec fn tribe_names_valid(self) -> bool {
        forall|i: int|
            0 <= i < self.tribes.len() ==> tribe_name_verdict((#[trigger] self.tribes[i]).name)
                is Ok
    }

    /// An account appears at most once per tribe.
    pub open spec fn memberships_distinct(self) -> bool {
        forall|i: int, j: int|
            0 <= i < j < self.user_tribes.len() ==> !((#[trigger] self.user_tribes[i]).user_id
                == (#[trigger] self.user_tribes[j]).user_id && self.user_tribes[i].tribe
                == self.user_tribes[j].tribe)
    }

    /// A membership's weak wallet reference never points at a binding that
    /// is not active, nor at one of another account.
    pub open spec fn wallet_refs_live(self) -> bool {
        forall|k: int|
            0 <= k < self.user_tribes.len() ==> ref_is_live(
                self.wallets,
                #[trigger] self.user_tribes[k],
            )
    }

    /// No two notes share an id.
    pub open spec fn note_ids_distinct(self) -> bool {
        forall|i: int, j: int|
            0 <= i < j < self.notes.len() ==> (#[trigger] self.notes[i]).id != (
            #[trigger] self.notes[j]).id
    }

    /// An account has at most one voice-chat account.
    pub open spec fn voice_accounts_distinct(self) -> bool {
        forall|i: int, j: int|
            0 <= i < j < self.mumble_accounts.len() ==> (
            #[trigger] self.mumble_accounts[i]).user_id != (
            #[trigger] self.mumble_accounts[j]).user_id
    }

    /// The invariant of the registry.
    pub open spec fn wf(self) -> bool {
        &&& self.wallet_ids_distinct()
        &&& self.wallet_addresses_distinct()
        &&& self.audit_ids_distinct()
        &&& self.user_ids_distinct()
        &&& self.tribe_names_distinct()
        &&& self.tribe_names_valid()
        &&& self.memberships_distinct()
        &&& self.wallet_refs_live()
        &&& self.note_ids_distinct()
        &&& self.voice_accounts_distinct()
    }

    /// The registry with one more audit entry.
    pub open spec fn logged(
        self,
        id: Seq<char>,
        action: AuditAction,
        actor_id: i64,
        target_id: Option<i64>,
        details: Seq<char>,
        now: i64,
    ) -> RegistryView {
        RegistryView {
            audit_logs: self.audit_logs.push(
                AuditLogEntryView { id, action, actor_id, target_id, details, created_at: now },
            ),
            ..self
        }
    }

    /// How a link attempt for `address` ends: the decision on the signature
    /// check and on the binding that holds the address, and then on whether
    /// the store takes the writes (it refuses an id that is in use).
    pub open spec fn link_result(
        self,
        check: SignatureCheck,
        address: Seq<char>,
        binding_id: Seq<char>,
        audit_id: Seq<char>,
    ) -> Result<LinkOutcome, LinkError> {
        match link_decision(check, binding_of_address(self.wallets, address)) {
            Err(e) => Err(e),
            Ok(LinkPlan::Insert) => if has_wallet_id(self.wallets, binding_id) || has_audit_id(
                self.audit_logs,
                audit_id,
            ) {
                Err(LinkError::Storage)
            } else {
                Ok(LinkOutcome::Linked)
            },
            Ok(LinkPlan::Reactivate) => if has_audit_id(self.audit_logs, audit_id) {
                Err(LinkError::Storage)
            } else {
                Ok(LinkOutcome::Relinked)
            },
        }
    }

    /// The registry after a successful link of `address` to `user_id`.
    pub open spec fn after_link(
        self,
        user_id: i64,
        address: Seq<char>,
        binding_id: Seq<char>,
        audit_id: Seq<char>,
        now: i64,
    ) -> RegistryView {
        if has_address(self.wallets, address) {
            let i = index_of_address(self.wallets, address);
            RegistryView {
                wallets: self.wallets.update(
                    i,
                    WalletBindingView {
                        user_id,
                        verified_at: now,
                        deleted_at: None,
                        ..self.wallets[i]
                    },
                ),
                ..self
            }.logged(
                audit_id,
                AuditAction::LinkWallet,
                user_id,
                None,
                "Re-linked wallet "@ + address,
                now,
            )
        } else {
            RegistryView {
                wallets: self.wallets.push(
                    WalletBindingView {
                        id: binding_id,
                        user_id,
                        address,
                        verified_at: now,
                        deleted_at: None,
                    },
                ),
                ..self
            }.logged(
                audit_id,
                AuditAction::LinkWallet,
                user_id,
                None,
                "Linked wallet "@ + address,
                now,
            )
        }
    }

    /// The registry with the binding `wallet_id` soft-deleted at `now` and
    /// every weak reference to it cleared.
    pub open spec fn soft_deleted(self, wallet_id: Seq<char>, now: i64) -> RegistryView {
        let i = index_of_wallet_id(self.wallets, wallet_id);
        RegistryView {
            wallets: self.wallets.update(
                i,
                WalletBindingView { deleted_at: Some(now), ..self.wallets[i] },
            ),
            user_tribes: refs_cleared(self.user_tribes, wallet_id),
            ..self
        }
    }

    /// The binding `wallet_id` exists and is active.
    pub open spec fn is_active_wallet(self, wallet_id: Seq<char>) -> bool {
        has_wallet_id(self.wallets, wallet_id) && self.wallets[index_of_wallet_id(
            self.wallets,
            wallet_id,
        )].is_active()
    }

    /// How an owner's request to unlink the binding `wallet_id` ends. The
    /// binding must be active and owned by the requester.
    pub open spec fn unlink_result(
        self,
        user_id: i64,
        wallet_id: Seq<char>,
        audit_id: Seq<char>,
    ) -> Result<(), UnlinkError> {
        if !self.is_active_wallet(wallet_id) || self.wallets[index_of_wallet_id(
            self.wallets,
            wallet_id,
        )].user_id != user_id {
            Err(UnlinkError::NotFoundOrNotOwned)
        } else if has_audit_id(self.audit_logs, audit_id) {
            Err(UnlinkError::Storage)
        } else {
            Ok(())
        }
    }

    /// The registry after the owner unlinked the binding `wallet_id`.
    pub open spec fn after_unlink(
        self,
        user_id: i64,
        wallet_id: Seq<char>,
        audit_id: Seq<char>,
        now: i64,
    ) -> RegistryView {
        self.soft_deleted(wallet_id, now).logged(
            audit_id,
            AuditAction::UnlinkWallet,
            user_id,
            None,
            "Unlinked wallet "@ + self.wallets[index_of_wallet_id(self.wallets, wallet_id)].address,
            now,
        )
    }

    /// How an administrator's forced removal of the binding `wallet_id`
    /// ends. The audit entry is written first, so a refused audit entry is
    /// reported before a missing binding.
    pub open spec fn delete_wallet_result(self, wallet_id: Seq<char>, audit_id: Seq<char>) -> Result<
        (),
        UnlinkError,
    > {
        if has_audit_id(self.audit_logs, audit_id) {
            Err(UnlinkError::Storage)
        } else if !self.is_active_wallet(wallet_id) {
            Err(UnlinkError::NotFoundOrNotOwned)
        } else {
            Ok(())
        }
    }

    /// The registry after an administrator removed the binding `wallet_id`.
    pub open spec fn after_delete_wallet(
        self,
        admin_id: i64,
        wallet_id: Seq<char>,
        audit_id: Seq<char>,
        now: i64,
    ) -> RegistryView {
        self.soft_deleted(wallet_id, now).logged(
            audit_id,
            AuditAction::SuperAdminDeleteWallet,
            admin_id,
            None,
            "Forced soft delete wallet "@ + wallet_id,
            now,
        )
    }
}

/// Under distinct addresses, a binding is found at its own position.
pub proof fn lemma_index_of_address(reg: RegistryView, i: int)
    requires
        reg.wallet_addresses_distinct(),
        0 <= i < reg.wallets.len(),
    ensures
        has_address(reg.wallets, reg.wallets[i].address),
        index_of_address(reg.wallets, reg.wallets[i].address) == i,
        binding_of_address(reg.wallets, reg.wallets[i].address) == Some(reg.wallets[i]),
{
    let a = reg.wallets[i].address;
    let w = index_of_address(reg.wallets, a);
    assert(0 <= w < reg.wallets.len() && reg.wallets[w].address == a);
    if w < i {
        assert(reg.wallets[w].address != reg.wallets[i].address);
    } else if i < w {
        assert(reg.wallets[i].address != reg.wallets[w].address);
    }
}

/// Under distinct ids, a binding is found at its own position.
pub proof fn lemma_index_of_wallet_id(reg: RegistryView, i: int)
    requires
        reg.wallet_ids_distinct(),
        0 <= i < reg.wallets.len(),
    ensures
        has_wallet_id(reg.wallets, reg.wallets[i].id),
        index_of_wallet_id(reg.wallets, reg.wallets[i].id) == i,
{
    let a = reg.wallets[i].id;
    let w = index_of_wallet_id(reg.wallets, a);
    assert(0 <= w < reg.wallets.len() && reg.wallets[w].id == a);
    if w < i {
        assert(reg.wallets[w].id != reg.wallets[i].id);
    } else if i < w {
        assert(reg.wallets[i].id != reg.wallets[w].id);
    }
}

/// The durable state of the service.
pub struct Registry {
    users: Vec<User>,
    wallets: Vec<WalletBinding>,
    user_tribes: Vec<UserTribe>,
    tribes: Vec<Tribe>,
    audit_logs: Vec<AuditLogEntry>,
    identity_hashes: Vec<IdentityHash>,
    notes: Vec<Note>,
    mumble_accounts: Vec<MumbleAccount>,
}

impl View for Registry {
    type V = RegistryView;

    closed spec fn view(&self) -> RegistryView {
        RegistryView {
            users: self.users@.map_values(|u: User| u@),
            wallets: self.wallets@.map_values(|w: WalletBinding| w@),
            user_tribes: self.user_tribes@.map_values(|m: UserTribe| m@),
            tribes: self.tribes@.map_values(|t: Tribe| t@),
            audit_logs: self.audit_logs@.map_values(|e: AuditLogEntry| e@),
            identity_hashes: self.identity_hashes@.map_values(|h: IdentityHash| h@),
            notes: self.notes@.map_values(|n: Note| n@),
            mumble_accounts: self.mumble_accounts@.map_values(|a: MumbleAccount| a@),
        }
    }
}

impl Registry {
    /// The invariant of the registry.
    pub open spec fn wf(&self) -> bool {
        self@.wf()
    }

    /// An empty registry.
    pub fn new() -> (r: Self)
        ensures
            r.wf(),
            r@.users.len() == 0,
            r@.wallets.len() == 0,
            r@.user_tribes.len() == 0,
            r@.tribes.len() == 0,
            r@.audit_logs.len() == 0,
            r@.identity_hashes.len() == 0,
            r@.notes.len() == 0,
            r@.mumble_accounts.len() == 0,
    {
        Registry {
            users: Vec::new(),
            wallets: Vec::new(),
            user_tribes: Vec::new(),
            tribes: Vec::new(),
            audit_logs: Vec::new(),
            identity_hashes: Vec::new(),
            notes: Vec::new(),
            mumble_accounts: Vec::new(),
        }
    }

    /// The wallet bindings, active and soft-deleted.
    pub fn wallets(&self) -> (r: &Vec<WalletBinding>)
        ensures
            r@.map_values(|w: WalletBinding| w@) == self@.wallets,
    {
        &self.wallets
    }

    /// The audit log, oldest entry first.
    pub fn audit_logs(&self) -> (r: &Vec<AuditLogEntry>)
        ensures
            r@.map_values(|e: AuditLogEntry| e@) == self@.audit_logs,
    {
        &self.audit_logs
    }

    /// The tribe memberships.
    pub fn user_tribes(&self) -> (r: &Vec<UserTribe>)
        ensures
            r@.map_values(|m: UserTribe| m@) == self@.user_tribes,
    {
        &self.user_tribes
    }

    /// The accounts.
    pub fn users(&self) -> (r: &Vec<User>)
        ensures
            r@.map_values(|u: User| u@) == self@.users,
    {
        &self.users
    }

    /// The tribes.
    pub fn tribes(&self) -> (r: &Vec<Tribe>)
        ensures
            r@.map_values(|t: Tribe| t@) == self@.tribes,
    {
        &self.tribes
    }

    fn find_wallet_by_address(&self, address: &str) -> (r: Option<usize>)
        ensures
            match r {
                Some(i) => i < self.wallets.len() && self@.wallets[i as int].address == address@,
                None => !has_address(self@.wallets, address@),
            },
    {
        let mut i: usize = 0;
        while i < self.wallets.len()
            invariant
                i <= self.wallets.len(),
                forall|j: int| 0 <= j < i ==> (#[trigger] self@.wallets[j]).address != address@,
            decreases self.wallets.len() - i,
        {
            if same_text(self.wallets[i].address.as_str(), address) {
                return Some(i);
            }
            i = i + 1;
        }
        None
    }

    fn find_wallet_by_id(&self, id: &str) -> (r: Option<usize>)
        ensures
            match r {
                Some(i) => i < self.wallets.len() && self@.wallets[i as int].id == id@,
                None => !has_wallet_id(self@.wallets, id@),
            },
    {
        let mut i: usize = 0;
        while i < self.wallets.len()
            invariant
                i <= self.wallets.len(),
                forall|j: int| 0 <= j < i ==> (#[trigger] self@.wallets[j]).id != id@,
            decreases self.wallets.len() - i,
        {
            if same_text(self.wallets[i].id.as_str(), id) {
                return Some(i);
            }
            i = i + 1;
        }
        None
    }

    fn audit_id_in_use(&self, id: &str) -> (r: bool)
        ensures
            r == has_audit_id(self@.audit_logs, id@),
    {
        let mut i: usize = 0;
        while i < self.audit_logs.len()
            invariant
                i <= self.audit_logs.len(),
                forall|j: int| 0 <= j < i ==> (#[trigger] self@.audit_logs[j]).id != id@,
            decreases self.audit_logs.len() - i,
        {
            if same_text(self.audit_logs[i].id.as_str(), id) {
                assert(self@.audit_logs[i as int].id == id@);
                return true;
            }
            i = i + 1;
        }
        false
    }

    /// Appends an audit entry.
    fn push_audit(
        &mut self,
        id: String,
        action: AuditAction,
        actor_id: i64,
        target_id: Option<i64>,
        details: String,
        now: i64,
    )
        ensures
            final(self)@ == old(self)@.logged(id@, action, actor_id, target_id, details@, now),
    {
        let entry = AuditLogEntry { id, action, actor_id, target_id, details, created_at: now };
        let ghost before = self@;
        self.audit_logs.push(entry);
        assert(self@.audit_logs =~= before.audit_logs.push(entry@));
    }

    /// Links `address` to the account `user_id`, given what the signature
    /// verifier found, and records the link in the audit log.
    ///
    /// `address` is the claimed address in normalized form. `binding_id` is
    /// the id for a new binding, `audit_id` the id for the audit entry. An
    /// address held by an active binding is refused, also where the requester
    /// owns that binding. A soft-deleted binding for the address is handed to
    /// the requester and reactivated. On any error nothing changes.
    pub fn link_wallet(
        &mut self,
        user_id: i64,
        address: &str,
        check: SignatureCheck,
        binding_id: String,
        audit_id: String,
        now: i64,
    ) -> (r: Result<LinkOutcome, LinkError>)
        requires
            old(self).wf(),
        ensures
            final(self).wf(),
            r == old(self)@.link_result(check, address@, binding_id@, audit_id@),
            r is Ok ==> final(self)@ == old(self)@.after_link(
                user_id,
                address@,
                binding_id@,
                audit_id@,
                now,
            ),
            r is Err ==> final(self)@ == old(self)@,
    {
        let ghost before = self@;
        let found = self.find_wallet_by_address(address);
        proof {
            if let Some(i) = found {
                lemma_index_of_address(before, i as int);
            }
            if before.link_result(check, address@, binding_id@, audit_id@) is Ok {
                lemma_link_preserves_wf(
                    before,
                    user_id,
                    address@,
                    check,
                    binding_id@,
                    audit_id@,
                    now,
                );
            }
        }
        let plan = match found {
            Some(i) => plan_link(check, Some(&self.wallets[i])),
            None => plan_link(check, None),
        };
        match plan {
            Err(e) => Err(e),
            Ok(LinkPlan::Insert) => {
                if self.find_wallet_by_id(binding_id.as_str()).is_some() || self.audit_id_in_use(
                    audit_id.as_str(),
                ) {
                    return Err(LinkError::Storage);
                }
                let binding = WalletBinding {
                    id: binding_id,
                    user_id,
                    address: address.to_owned(),
                    verified_at: now,
                    deleted_at: None,
                };
                self.wallets.push(binding);
                assert(self@.wallets =~= before.wallets.push(binding@));
                let (outcome, details) = link_record(LinkPlan::Insert, address);
                self.push_audit(audit_id, AuditAction::LinkWallet, user_id, None, details, now);
                Ok(outcome)
            },
            Ok(LinkPlan::Reactivate) => {
                if self.audit_id_in_use(audit_id.as_str()) {
                    return Err(LinkError::Storage);
                }
                let i = found.unwrap();
                let binding = WalletBinding {
                    id: self.wallets[i].id.clone(),
                    user_id,
                    address: self.wallets[i].address.clone(),
                    verified_at: now,
                    deleted_at: None,
                };
                self.wallets.set(i, binding);
                assert(self@.wallets =~= before.wallets.update(i as int, binding@));
                let (outcome, details) = link_record(LinkPlan::Reactivate, address);
                self.push_audit(audit_id, AuditAction::LinkWallet, user_id, None, details, now);
                Ok(outcome)
            },
        }
    }

    /// Marks the binding at position `i` soft-deleted and clears the weak
    /// references to it.
    fn soft_delete_at(&mut self, i: usize, now: i64)
        requires
            old(self).wf(),
            i < old(self)@.wallets.len(),
        ensures
            final(self)@ == old(self)@.soft_deleted(old(self)@.wallets[i as int].id, now),
    {
        let ghost before = self@;
        proof {
            lemma_index_of_wallet_id(before, i as int);
        }
        let id = self.wallets[i].id.clone();
        let binding = WalletBinding {
            id: self.wallets[i].id.clone(),
            user_id: self.wallets[i].user_id,
            address: self.wallets[i].address.clone(),
            verified_at: self.wallets[i].verified_at,
            deleted_at: Some(now),
        };
        self.wallets.set(i, binding);
        assert(self@.wallets =~= before.wallets.update(i as int, binding@));
        clear_wallet_refs(&mut self.user_tribes, id.as_str());
        assert(self@.user_tribes =~= refs_cleared(before.user_tribes, id@));
    }

    /// Unlinks the requester's own active binding `wallet_id`: marks it
    /// soft-deleted at `now`, clears the weak references that memberships
    /// hold to it, and records the removal. On any error nothing changes.
    pub fn unlink_wallet(&mut self, user_id: i64, wallet_id: &str, audit_id: String, now: i64) -> (r:
        Result<(), UnlinkError>)
        requires
            old(self).wf(),
        ensures
            final(self).wf(),
            r == old(self)@.unlink_result(user_id, wallet_id@, audit_id@),
            r is Ok ==> final(self)@ == old(self)@.after_unlink(
                user_id,
                wallet_id@,
                audit_id@,
                now,
            ),
            r is Err ==> final(self)@ == old(self)@,
    {
        let ghost before = self@;
        let found = self.find_wallet_by_id(wallet_id);
        proof {
            if let Some(i) = found {
                lemma_index_of_wallet_id(before, i as int);
            }
        }
        let decision = match found {
            Some(i) => decide_unlink(Some(&self.wallets[i]), user_id),
            None => decide_unlink(None, user_id),
        };
        match decision {
            Err(e) => {
                return Err(e);
            },
            Ok(_) => {},
        }
        let i = found.unwrap();
        if self.audit_id_in_use(audit_id.as_str()) {
            return Err(UnlinkError::Storage);
        }
        let details = concat2("Unlinked wallet ", self.wallets[i].address.as_str());
        self.soft_delete_at(i, now);
        self.push_audit(audit_id, AuditAction::UnlinkWallet, user_id, None, details, now);
        proof {
            lemma_unlink_preserves_wf(before, user_id, wallet_id@, audit_id@, now);
        }
        Ok(())
    }

    /// Removes the active binding `wallet_id` of any account on behalf of
    /// the administrator `admin_id`: the same soft delete and clearing of
    /// weak references as an unlink, recorded as a privileged action. On any
    /// error nothing changes.
    pub fn delete_wallet(&mut self, admin_id: i64, wallet_id: &str, audit_id: String, now: i64) -> (r:
        Result<(), UnlinkError>)
        requires
            old(self).wf(),
        ensures
            final(self).wf(),
            r == old(self)@.delete_wallet_result(wallet_id@, audit_id@),
            r is Ok ==> final(self)@ == old(self)@.after_delete_wallet(
                admin_id,
                wallet_id@,
                audit_id@,
                now,
            ),
            r is Err ==> final(self)@ == old(self)@,
    {
        let ghost before = self@;
        if self.audit_id_in_use(audit_id.as_str()) {
            return Err(UnlinkError::Storage);
        }
        let found = self.find_wallet_by_id(wallet_id);
        proof {
            if let Some(i) = found {
                lemma_index_of_wallet_id(before, i as int);
            }
        }
        let decision = match found {
            Some(i) => decide_forced_delete(Some(&self.wallets[i])),
            None => decide_forced_delete(None),
        };
        match decision {
            Err(e) => {
                return Err(e);
            },
            Ok(_) => {},
        }
        let i = found.unwrap();
        let details = concat2("Forced soft delete wallet ", wallet_id);
        self.soft_delete_at(i, now);
        self.push_audit(
            audit_id,
            AuditAction::SuperAdminDeleteWallet,
            admin_id,
            None,
            details,
            now,
        );
        proof {
            lemma_delete_wallet_preserves_wf(before, admin_id, wallet_id@, audit_id@, now);
        }
        Ok(())
    }
}

/// Appending an entry with an unused id keeps the audit ids distinct and
/// touches nothing else.
pub proof fn lemma_logged_preserves_wf(
    reg: RegistryView,
    id: Seq<char>,
    action: AuditAction,
    actor_id: i64,
    target_id: Option<i64>,
    details: Seq<char>,
    now: i64,
)
    requires
        reg.wf(),
        !has_audit_id(reg.audit_logs, id),
    ensures
        reg.logged(id, action, actor_id, target_id, details, now).wf(),
{
    let after = reg.logged(id, action, actor_id, target_id, details, now);
    assert forall|i: int, j: int| 0 <= i < j < after.audit_logs.len() implies (
    #[trigger] after.audit_logs[i]).id != (#[trigger] after.audit_logs[j]).id by {
        if j == reg.audit_logs.len() {
            assert(reg.audit_logs[i].id != id);
        } else {
            assert(reg.audit_logs[i].id != reg.audit_logs[j].id);
        }
    }
}

/// A link attempt keeps the invariant of the registry: in particular, no two
/// bindings ever hold the same address, so no address has two active
/// bindings.
pub proof fn lemma_link_preserves_wf(
    reg: RegistryView,
    user_id: i64,
    address: Seq<char>,
    check: SignatureCheck,
    binding_id: Seq<char>,
    audit_id: Seq<char>,
    now: i64,
)
    requires
        reg.wf(),
        reg.link_result(check, address, binding_id, audit_id) is Ok,
    ensures
        reg.after_link(user_id, address, binding_id, audit_id, now).wf(),
{
    if has_address(reg.wallets, address) {
        let i = index_of_address(reg.wallets, address);
        let mid = RegistryView {
            wallets: reg.wallets.update(
                i,
                WalletBindingView { user_id, verified_at: now, deleted_at: None, ..reg.wallets[i] },
            ),
            ..reg
        };
        assert forall|a: int, b: int| 0 <= a < b < mid.wallets.len() implies (
        #[trigger] mid.wallets[a]).id != (#[trigger] mid.wallets[b]).id && mid.wallets[a].address
            != mid.wallets[b].address by {
            assert(reg.wallets[a].id != reg.wallets[b].id);
            assert(reg.wallets[a].address != reg.wallets[b].address);
        }
        assert forall|k: int| 0 <= k < mid.user_tribes.len() implies ref_is_live(
        mid.wallets,
        #[trigger] mid.user_tribes[k],
    ) by {
            if let Some(id) = mid.user_tribes[k].wallet_id {
                assert(reg.user_tribes[k].wallet_id == Some(id));
                let w = choose|w: int|
                    0 <= w < reg.wallets.len() && (#[trigger] reg.wallets[w]).id == id
                        && reg.wallets[w].is_active() && reg.wallets[w].user_id
                        == reg.user_tribes[k].user_id;
                assert(mid.wallets[w].id == id && mid.wallets[w].is_active());
            }
        }
        assert(mid.wf());
        lemma_logged_preserves_wf(
            mid,
            audit_id,
            AuditAction::LinkWallet,
            user_id,
            None,
            "Re-linked wallet "@ + address,
            now,
        );
    } else {
        let fresh = WalletBindingView {
            id: binding_id,
            user_id,
            address,
            verified_at: now,
            deleted_at: None,
        };
        let mid = RegistryView { wallets: reg.wallets.push(fresh), ..reg };
        assert forall|a: int, b: int| 0 <= a < b < mid.wallets.len() implies (
        #[trigger] mid.wallets[a]).id != (#[trigger] mid.wallets[b]).id && mid.wallets[a].address
            != mid.wallets[b].address by {
            if b == reg.wallets.len() {
                assert(reg.wallets[a].id != binding_id);
                assert(reg.wallets[a].address != address);
            } else {
                assert(reg.wallets[a].id != reg.wallets[b].id);
                assert(reg.wallets[a].address != reg.wallets[b].address);
            }
        }
        assert forall|k: int| 0 <= k < mid.user_tribes.len() implies ref_is_live(
        mid.wallets,
        #[trigger] mid.user_tribes[k],
    ) by {
            if let Some(id) = mid.user_tribes[k].wallet_id {
                assert(reg.user_tribes[k].wallet_id == Some(id));
                let w = choose|w: int|
                    0 <= w < reg.wallets.len() && (#[trigger] reg.wallets[w]).id == id
                        && reg.wallets[w].is_active() && reg.wallets[w].user_id
                        == reg.user_tribes[k].user_id;
                assert(mid.wallets[w] == reg.wallets[w]);
            }
        }
        assert(mid.wf());
        lemma_logged_preserves_wf(
            mid,
            audit_id,
            AuditAction::LinkWallet,
            user_id,
            None,
            "Linked wallet "@ + address,
            now,
        );
    }
}

/// Clears, in a list of memberships, every weak reference to the binding
/// `id`. The memberships themselves stay.
fn clear_wallet_refs(rows: &mut Vec<UserTribe>, id: &str)
    ensures
        final(rows)@.map_values(|m: UserTribe| m@) == refs_cleared(
            old(rows)@.map_values(|m: UserTribe| m@),
            id@,
        ),
{
    let ghost before = rows@.map_values(|m: UserTribe| m@);
    let mut k: usize = 0;
    while k < rows.len()
        invariant
            k <= rows.len(),
            rows.len() == before.len(),
            forall|j: int| 0 <= j < k ==> (#[trigger] rows@[j])@ == without_wallet_ref(before[j], id@),
            forall|j: int| k <= j < rows.len() ==> (#[trigger] rows@[j])@ == before[j],
        decreases rows.len() - k,
    {
        let points_here = match &rows[k].wallet_id {
            Some(w) => same_text(w.as_str(), id),
            None => false,
        };
        if points_here {
            let row = UserTribe {
                user_id: rows[k].user_id,
                tribe: rows[k].tribe.clone(),
                wallet_id: None,
                created_at: rows[k].created_at,
                is_admin: rows[k].is_admin,
                source: rows[k].source,
            };
            rows.set(k, row);
        }
        k = k + 1;
    }
    assert(rows@.map_values(|m: UserTribe| m@) =~= refs_cleared(before, id@));
}

/// Soft-deleting an active binding and clearing the references to it keeps
/// the invariant: no membership is left pointing at the removed binding.
pub proof fn lemma_soft_delete_preserves_wf(reg: RegistryView, wallet_id: Seq<char>, now: i64)
    requires
        reg.wf(),
        has_wallet_id(reg.wallets, wallet_id),
    ensures
        reg.soft_deleted(wallet_id, now).wf(),
        reg.soft_deleted(wallet_id, now).audit_logs == reg.audit_logs,
{
    let i = index_of_wallet_id(reg.wallets, wallet_id);
    let after = reg.soft_deleted(wallet_id, now);
    assert forall|a: int, b: int| 0 <= a < b < after.wallets.len() implies (
    #[trigger] after.wallets[a]).id != (#[trigger] after.wallets[b]).id && after.wallets[a].address
        != after.wallets[b].address by {
        assert(reg.wallets[a].id != reg.wallets[b].id);
        assert(reg.wallets[a].address != reg.wallets[b].address);
    }
    assert forall|a: int, b: int| 0 <= a < b < after.user_tribes.len() implies !((
    #[trigger] after.user_tribes[a]).user_id == (#[trigger] after.user_tribes[b]).user_id
        && after.user_tribes[a].tribe == after.user_tribes[b].tribe) by {
        assert(!(reg.user_tribes[a].user_id == reg.user_tribes[b].user_id
            && reg.user_tribes[a].tribe == reg.user_tribes[b].tribe));
    }
    assert forall|k: int| 0 <= k < after.user_tribes.len() implies ref_is_live(
        after.wallets,
        #[trigger] after.user_tribes[k],
    ) by {
        if let Some(id) = after.user_tribes[k].wallet_id {
            assert(after.user_tribes[k] == without_wallet_ref(reg.user_tribes[k], wallet_id));
            assert(reg.user_tribes[k].wallet_id == Some(id));
            assert(id != wallet_id);
            let w = choose|w: int|
                    0 <= w < reg.wallets.len() && (#[trigger] reg.wallets[w]).id == id
                        && reg.wallets[w].is_active() && reg.wallets[w].user_id
                        == reg.user_tribes[k].user_id;
            assert(w != i);
            assert(after.wallets[w] == reg.wallets[w]);
        }
    }
}

/// An unlink keeps the invariant of the registry.
pub proof fn lemma_unlink_preserves_wf(
    reg: RegistryView,
    user_id: i64,
    wallet_id: Seq<char>,
    audit_id: Seq<char>,
    now: i64,
)
    requires
        reg.wf(),
        reg.unlink_result(user_id, wallet_id, audit_id) is Ok,
    ensures
        reg.after_unlink(user_id, wallet_id, audit_id, now).wf(),
{
    lemma_soft_delete_preserves_wf(reg, wallet_id, now);
    lemma_logged_preserves_wf(
        reg.soft_deleted(wallet_id, now),
        audit_id,
        AuditAction::UnlinkWallet,
        user_id,
        None,
        "Unlinked wallet "@ + reg.wallets[index_of_wallet_id(reg.wallets, wallet_id)].address,
        now,
    );
}

/// A forced removal keeps the invariant of the registry.
pub proof fn lemma_delete_wallet_preserves_wf(
    reg: RegistryView,
    admin_id: i64,
    wallet_id: Seq<char>,
    audit_id: Seq<char>,
    now: i64,
)
    requires
        reg.wf(),
        reg.delete_wallet_result(wallet_id, audit_id) is Ok,
    ensures
        reg.after_delete_wallet(admin_id, wallet_id, audit_id, now).wf(),
{
    lemma_soft_delete_preserves_wf(reg, wallet_id, now);
    lemma_logged_preserves_wf(
        reg.soft_deleted(wallet_id, now),
        audit_id,
        AuditAction::SuperAdminDeleteWallet,
        admin_id,
        None,
        "Forced soft delete wallet "@ + wallet_id,
        now,
    );
}

/// At no point do two active bindings hold the same address: under the
/// invariant, any two active bindings with one address are one binding.
pub proof fn lemma_active_address_unique(reg: RegistryView, i: int, j: int)
    requires
        reg.wf(),
        0 <= i < reg.wallets.len(),
        0 <= j < reg.wallets.len(),
        reg.wallets[i].is_active(),
        reg.wallets[j].is_active(),
        reg.wallets[i].address == reg.wallets[j].address,
    ensures
        i == j,
{
    if i < j {
        assert(reg.wallets[i].address != reg.wallets[j].address);
    } else if j < i {
        assert(reg.wallets[j].address != reg.wallets[i].address);
    }
}

/// Of two link attempts for one address, the second loses: once an attempt
/// succeeded, every further attempt for the address fails while the binding
/// stays active, and one with a valid signature fails as "already linked".
pub proof fn lemma_second_link_is_refused(
    reg: RegistryView,
    first_user: i64,
    address: Seq<char>,
    first_binding: Seq<char>,
    first_audit: Seq<char>,
    first_now: i64,
    second_check: SignatureCheck,
    second_binding: Seq<char>,
    second_audit: Seq<char>,
)
    requires
        reg.wf(),
        reg.link_result(SignatureCheck::Valid, address, first_binding, first_audit) is Ok,
    ensures
        ({
            let after = reg.after_link(first_user, address, first_binding, first_audit, first_now);
            &&& after.link_result(second_check, address, second_binding, second_audit) is Err
            &&& second_check == SignatureCheck::Valid ==> after.link_result(
                second_check,
                address,
                second_binding,
                second_audit,
            ) == Err::<LinkOutcome, LinkError>(LinkError::AlreadyLinked)
        }),
{
    let after = reg.after_link(first_user, address, first_binding, first_audit, first_now);
    lemma_link_preserves_wf(
        reg,
        first_user,
        address,
        SignatureCheck::Valid,
        first_binding,
        first_audit,
        first_now,
    );
    lemma_linked_binding(reg, first_user, address, first_binding, first_audit, first_now);
}

/// After a successful link, the binding that holds the address is active and
/// owned by the requester.
pub proof fn lemma_linked_binding(
    reg: RegistryView,
    user_id: i64,
    address: Seq<char>,
    binding_id: Seq<char>,
    audit_id: Seq<char>,
    now: i64,
)
    requires
        reg.wf(),
        reg.link_result(SignatureCheck::Valid, address, binding_id, audit_id) is Ok,
    ensures
        ({
            let after = reg.after_link(user_id, address, binding_id, audit_id, now);
            &&& after.wf()
            &&& binding_of_address(after.wallets, address) matches Some(w)
            &&& w.is_active()
            &&& w.user_id == user_id
            &&& w.address == address
            &&& w.verified_at == now
        }),
{
    let after = reg.after_link(user_id, address, binding_id, audit_id, now);
    lemma_link_preserves_wf(reg, user_id, address, SignatureCheck::Valid, binding_id, audit_id, now);
    if has_address(reg.wallets, address) {
        let i = index_of_address(reg.wallets, address);
        assert(after.wallets[i].address == address);
        lemma_index_of_address(after, i);
    } else {
        let i = reg.wallets.len() as int;
        assert(after.wallets[i].address == address);
        lemma_index_of_address(after, i);
    }
}

/// Relinking: when an address was linked to one account and unlinked again,
/// a link of the same address to another account (with a valid signature and
/// an audit id that is not in use) succeeds as a relink. Afterwards the
/// binding for the address is active and owned by the new account, and every
/// active binding for the address is owned by it, so none by the former
/// owner.
pub proof fn lemma_relink_after_unlink(
    reg: RegistryView,
    x: i64,
    y: i64,
    address: Seq<char>,
    ids: (Seq<char>, Seq<char>, Seq<char>, Seq<char>, Seq<char>),
    times: (i64, i64, i64),
)
    requires
        reg.wf(),
        reg.link_result(SignatureCheck::Valid, address, ids.0, ids.1) is Ok,
        ({
            let linked = reg.after_link(x, address, ids.0, ids.1, times.0);
            let wallet_id = binding_of_address(linked.wallets, address)->0.id;
            &&& linked.unlink_result(x, wallet_id, ids.2) is Ok
            &&& !has_audit_id(
                linked.after_unlink(x, wallet_id, ids.2, times.1).audit_logs,
                ids.4,
            )
        }),
    ensures
        ({
            let linked = reg.after_link(x, address, ids.0, ids.1, times.0);
            let wallet_id = binding_of_address(linked.wallets, address)->0.id;
            let unlinked = linked.after_unlink(x, wallet_id, ids.2, times.1);
            let relinked = unlinked.after_link(y, address, ids.3, ids.4, times.2);
            &&& unlinked.link_result(SignatureCheck::Valid, address, ids.3, ids.4) == Ok::<
                LinkOutcome,
                LinkError,
            >(LinkOutcome::Relinked)
            &&& relinked.wf()
            &&& binding_of_address(relinked.wallets, address) matches Some(w)
            &&& w.is_active()
            &&& w.user_id == y
            &&& forall|i: int|
                0 <= i < relinked.wallets.len() && (#[trigger] relinked.wallets[i]).address
                    == address && relinked.wallets[i].is_active() ==> relinked.wallets[i].user_id
                    == y
        }),
{
    let linked = reg.after_link(x, address, ids.0, ids.1, times.0);
    lemma_linked_binding(reg, x, address, ids.0, ids.1, times.0);
    let wallet_id = binding_of_address(linked.wallets, address)->0.id;
    let i = index_of_address(linked.wallets, address);
    lemma_index_of_wallet_id(linked, i);
    let unlinked = linked.after_unlink(x, wallet_id, ids.2, times.1);
    lemma_unlink_preserves_wf(linked, x, wallet_id, ids.2, times.1);
    assert(unlinked.wallets[i].address == address);
    assert(!unlinked.wallets[i].is_active());
    lemma_index_of_address(unlinked, i);
    lemma_linked_binding(unlinked, y, address, ids.3, ids.4, times.2);
    let relinked = unlinked.after_link(y, address, ids.3, ids.4, times.2);
    let j = index_of_address(relinked.wallets, address);
    assert forall|k: int|
        0 <= k < relinked.wallets.len() && (#[trigger] relinked.wallets[k]).address == address
            && relinked.wallets[k].is_active() implies relinked.wallets[k].user_id == y by {
        if k < j {
            assert(relinked.wallets[k].address != relinked.wallets[j].address);
        } else if j < k {
            assert(relinked.wallets[j].address != relinked.wallets[k].address);
        }
    }
}

impl RegistryView {
    /// How the creation of a tribe ends. The name is checked before anything
    /// is written; a name in use is a conflict.
    pub open spec fn create_tribe_result(self, name: Seq<char>, audit_id: Seq<char>) -> Result<
        (),
        AdminError,
    > {
        match tribe_name_verdict(name) {
            Err(e) => Err(e),
            Ok(_) => if has_tribe(self.tribes, name) {
                Err(AdminError::TribeExists)
            } else if has_audit_id(self.audit_logs, audit_id) {
                Err(AdminError::Storage)
            } else {
                Ok(())
            },
        }
    }

    /// The registry after the administrator `admin_id` created a tribe.
    pub open spec fn after_create_tribe(
        self,
        admin_id: i64,
        name: Seq<char>,
        audit_id: Seq<char>,
        now: i64,
    ) -> RegistryView {
        RegistryView {
            tribes: self.tribes.push(TribeView { name, created_at: now }),
            ..self
        }.logged(
            audit_id,
            AuditAction::SuperAdminCreateTribe,
            admin_id,
            None,
            created_tribe_text(name),
            now,
        )
    }

    /// How the renaming of the tribe `from` to `to` ends. The new name is
    /// checked before anything is written. A new name that another tribe has
    /// is a conflict; a renaming that would give an account two memberships
    /// in one tribe is refused by the store.
    pub open spec fn update_tribe_result(
        self,
        from: Seq<char>,
        to: Seq<char>,
        audit_id: Seq<char>,
    ) -> Result<(), AdminError> {
        match tribe_name_verdict(to) {
            Err(e) => Err(e),
            Ok(_) => if from != to && has_tribe(self.tribes, from) && has_tribe(self.tribes, to) {
                Err(AdminError::TribeExists)
            } else if rename_collides(self.user_tribes, from, to) {
                Err(AdminError::Storage)
            } else if has_audit_id(self.audit_logs, audit_id) {
                Err(AdminError::Storage)
            } else {
                Ok(())
            },
        }
    }

    /// The registry after the tribe `from` was renamed to `to`: in the tribe
    /// table and in every membership that names it.
    pub open spec fn after_update_tribe(
        self,
        admin_id: i64,
        from: Seq<char>,
        to: Seq<char>,
        audit_id: Seq<char>,
        now: i64,
    ) -> RegistryView {
        RegistryView {
            tribes: self.tribes.map_values(|t: TribeView| tribe_renamed(t, from, to)),
            user_tribes: self.user_tribes.map_values(|m: UserTribeView| row_renamed(m, from, to)),
            ..self
        }.logged(
            audit_id,
            AuditAction::SuperAdminUpdateTribe,
            admin_id,
            None,
            renamed_tribe_text(from, to),
            now,
        )
    }

    /// The first account with the name, up to the case of ASCII letters.
    pub open spec fn user_named(self, username: Seq<char>) -> UserView {
        self.users[choose|i: int| first_user_named(self.users, username, i)]
    }

    /// How the addition of the account named `username` to `tribe` ends.
    pub open spec fn add_user_to_tribe_result(
        self,
        tribe: Seq<char>,
        username: Seq<char>,
        audit_id: Seq<char>,
    ) -> Result<(), AdminError> {
        if username.len() > MAX_NAME_CHARS {
            Err(AdminError::UsernameTooLong)
        } else if !(exists|i: int| first_user_named(self.users, username, i)) {
            Err(AdminError::UserNotFound)
        } else if is_member(self.user_tribes, self.user_named(username).id, tribe) {
            Err(AdminError::AlreadyInTribe)
        } else if !has_tribe(self.tribes, tribe) {
            Err(AdminError::TribeMissing)
        } else if has_audit_id(self.audit_logs, audit_id) {
            Err(AdminError::Storage)
        } else {
            Ok(())
        }
    }

    /// The registry after the account named `username` was added to `tribe`
    /// by hand, without admin rights.
    pub open spec fn after_add_user_to_tribe(
        self,
        admin_id: i64,
        tribe: Seq<char>,
        username: Seq<char>,
        audit_id: Seq<char>,
        now: i64,
    ) -> RegistryView {
        let user = self.user_named(username);
        RegistryView {
            user_tribes: self.user_tribes.push(
                UserTribeView {
                    user_id: user.id,
                    tribe,
                    wallet_id: None,
                    created_at: Some(now),
                    is_admin: false,
                    source: MembershipSource::Manual,
                },
            ),
            ..self
        }.logged(
            audit_id,
            AuditAction::SuperAdminUpdateTribe,
            admin_id,
            Some(user.id),
            added_user_text(user.username, tribe),
            now,
        )
    }

    /// The first account with the external identity.
    pub open spec fn user_with_identity(self, discord_id: Seq<char>) -> UserView {
        self.users[choose|i: int| first_user_with_identity(self.users, discord_id, i)]
    }

    /// How a grant of admin rights in `tribe` to the account with the
    /// external identity `discord_id` ends. The grant rests on a wallet
    /// binding, which must be active and owned by that account.
    pub open spec fn grant_admin_result(
        self,
        discord_id: Seq<char>,
        wallet_id: Seq<char>,
        audit_id: Seq<char>,
    ) -> Result<(), AdminError> {
        if !(exists|i: int| first_user_with_identity(self.users, discord_id, i)) {
            Err(AdminError::UserNotFound)
        } else if !self.is_active_wallet(wallet_id) || self.wallets[index_of_wallet_id(
            self.wallets,
            wallet_id,
        )].user_id != self.user_with_identity(discord_id).id {
            Err(AdminError::WalletNotFound)
        } else if has_audit_id(self.audit_logs, audit_id) {
            Err(AdminError::Storage)
        } else {
            Ok(())
        }
    }

    /// The registry after admin rights in `tribe` were granted: the account's
    /// membership in the tribe, created where there was none, carries the
    /// admin flag, points at the wallet binding and counts as made by hand.
    pub open spec fn after_grant_admin(
        self,
        actor_id: i64,
        discord_id: Seq<char>,
        tribe: Seq<char>,
        wallet_id: Seq<char>,
        audit_id: Seq<char>,
        now: i64,
    ) -> RegistryView {
        let target = self.user_with_identity(discord_id);
        let rows = if is_member(self.user_tribes, target.id, tribe) {
            let k = index_of_member(self.user_tribes, target.id, tribe);
            self.user_tribes.update(
                k,
                UserTribeView {
                    wallet_id: Some(wallet_id),
                    is_admin: true,
                    source: MembershipSource::Manual,
                    ..self.user_tribes[k]
                },
            )
        } else {
            self.user_tribes.push(
                UserTribeView {
                    user_id: target.id,
                    tribe,
                    wallet_id: Some(wallet_id),
                    created_at: Some(now),
                    is_admin: true,
                    source: MembershipSource::Manual,
                },
            )
        };
        RegistryView { user_tribes: rows, ..self }.logged(
            audit_id,
            AuditAction::AdminGrant,
            actor_id,
            Some(target.id),
            granted_admin_text(target.username, tribe, wallet_id),
            now,
        )
    }

    /// How an update of the account `user_id` ends.
    pub open spec fn update_user_result(self, user_id: i64, audit_id: Seq<char>) -> Result<
        (),
        AdminError,
    > {
        if !has_user(self.users, user_id) {
            Err(AdminError::UserNotFound)
        } else if has_audit_id(self.audit_logs, audit_id) {
            Err(AdminError::Storage)
        } else {
            Ok(())
        }
    }

    /// The registry after an update of the account `user_id`: its global
    /// admin flag and names are set, and in each of its memberships the admin
    /// flag says whether the tribe is among `admin_tribes`.
    pub open spec fn after_update_user(
        self,
        admin_id: i64,
        user_id: i64,
        payload: (bool, Seq<char>, Seq<char>, Seq<Seq<char>>),
        audit_id: Seq<char>,
        now: i64,
    ) -> RegistryView {
        let i = index_of_user(self.users, user_id);
        RegistryView {
            users: self.users.update(
                i,
                UserView {
                    is_admin: payload.0,
                    username: payload.1,
                    discriminator: payload.2,
                    ..self.users[i]
                },
            ),
            user_tribes: self.user_tribes.map_values(
                |m: UserTribeView| row_with_admin_flag(m, user_id, payload.3),
            ),
            ..self
        }.logged(
            audit_id,
            AuditAction::SuperAdminUpdateUser,
            admin_id,
            Some(user_id),
            updated_user_text(
                self.users[i].is_admin,
                self.users[i].username,
                self.users[i].discriminator,
                payload.0,
                payload.1,
                payload.2,
                payload.3,
            ),
            now,
        )
    }

    /// The registry with one more membership.
    pub open spec fn with_membership(self, row: UserTribeView) -> RegistryView {
        RegistryView { user_tribes: self.user_tribes.push(row), ..self }
    }

    /// The registry with one more account.
    pub open spec fn with_user(self, user: UserView) -> RegistryView {
        RegistryView { users: self.users.push(user), ..self }
    }
}

/// Under distinct memberships, a membership is found at its own position.
pub proof fn lemma_index_of_member(reg: RegistryView, k: int)
    requires
        reg.memberships_distinct(),
        0 <= k < reg.user_tribes.len(),
    ensures
        is_member(reg.user_tribes, reg.user_tribes[k].user_id, reg.user_tribes[k].tribe),
        index_of_member(reg.user_tribes, reg.user_tribes[k].user_id, reg.user_tribes[k].tribe)
            == k,
{
    let u = reg.user_tribes[k].user_id;
    let t = reg.user_tribes[k].tribe;
    let w = index_of_member(reg.user_tribes, u, t);
    assert(0 <= w < reg.user_tribes.len() && reg.user_tribes[w].user_id == u
        && reg.user_tribes[w].tribe == t);
    if w < k {
        assert(!(reg.user_tribes[w].user_id == reg.user_tribes[k].user_id
            && reg.user_tribes[w].tribe == reg.user_tribes[k].tribe));
    } else if k < w {
        assert(!(reg.user_tribes[k].user_id == reg.user_tribes[w].user_id
            && reg.user_tribes[k].tribe == reg.user_tribes[w].tribe));
    }
}

/// Under distinct account ids, an account is found at its own position.
pub proof fn lemma_index_of_user(reg: RegistryView, i: int)
    requires
        reg.user_ids_distinct(),
        0 <= i < reg.users.len(),
    ensures
        has_user(reg.users, reg.users[i].id),
        index_of_user(reg.users, reg.users[i].id) == i,
{
    let id = reg.users[i].id;
    let w = index_of_user(reg.users, id);
    assert(0 <= w < reg.users.len() && reg.users[w].id == id);
    if w < i {
        assert(reg.users[w].id != reg.users[i].id);
    } else if i < w {
        assert(reg.users[i].id != reg.users[w].id);
    }
}

/// The creation of a tribe keeps the invariant of the registry.
pub proof fn lemma_create_tribe_preserves_wf(
    reg: RegistryView,
    admin_id: i64,
    name: Seq<char>,
    audit_id: Seq<char>,
    now: i64,
)
    requires
        reg.wf(),
        reg.create_tribe_result(name, audit_id) is Ok,
    ensures
        reg.after_create_tribe(admin_id, name, audit_id, now).wf(),
{
    let mid = RegistryView { tribes: reg.tribes.push(TribeView { name, created_at: now }), ..reg };
    assert forall|i: int, j: int| 0 <= i < j < mid.tribes.len() implies (
    #[trigger] mid.tribes[i]).name != (#[trigger] mid.tribes[j]).name by {
        if j == reg.tribes.len() {
            assert(reg.tribes[i].name != name);
        } else {
            assert(reg.tribes[i].name != reg.tribes[j].name);
        }
    }
    assert(mid.wf());
    lemma_logged_preserves_wf(
        mid,
        audit_id,
        AuditAction::SuperAdminCreateTribe,
        admin_id,
        None,
        created_tribe_text(name),
        now,
    );
}

/// The renaming of a tribe keeps the invariant of the registry.
pub proof fn lemma_update_tribe_preserves_wf(
    reg: RegistryView,
    admin_id: i64,
    from: Seq<char>,
    to: Seq<char>,
    audit_id: Seq<char>,
    now: i64,
)
    requires
        reg.wf(),
        reg.update_tribe_result(from, to, audit_id) is Ok,
    ensures
        reg.after_update_tribe(admin_id, from, to, audit_id, now).wf(),
{
    let mid = RegistryView {
        tribes: reg.tribes.map_values(|t: TribeView| tribe_renamed(t, from, to)),
        user_tribes: reg.user_tribes.map_values(|m: UserTribeView| row_renamed(m, from, to)),
        ..reg
    };
    assert forall|i: int, j: int| 0 <= i < j < mid.tribes.len() implies (
    #[trigger] mid.tribes[i]).name != (#[trigger] mid.tribes[j]).name by {
        assert(reg.tribes[i].name != reg.tribes[j].name);
        if mid.tribes[i].name == mid.tribes[j].name {
            if reg.tribes[i].name == from {
                assert(reg.tribes[j].name == to);
            } else {
                assert(reg.tribes[j].name == from);
                assert(reg.tribes[i].name == to);
            }
        }
    }
    assert forall|a: int, b: int| 0 <= a < b < mid.user_tribes.len() implies !((
    #[trigger] mid.user_tribes[a]).user_id == (#[trigger] mid.user_tribes[b]).user_id
        && mid.user_tribes[a].tribe == mid.user_tribes[b].tribe) by {
        assert(!(reg.user_tribes[a].user_id == reg.user_tribes[b].user_id
            && reg.user_tribes[a].tribe == reg.user_tribes[b].tribe));
        if mid.user_tribes[a].user_id == mid.user_tribes[b].user_id && mid.user_tribes[a].tribe
            == mid.user_tribes[b].tribe {
            if reg.user_tribes[a].tribe == from {
                assert(reg.user_tribes[b].tribe == to);
                assert(rename_collides(reg.user_tribes, from, to));
            } else {
                assert(reg.user_tribes[b].tribe == from);
                assert(reg.user_tribes[a].tribe == to);
                assert(rename_collides(reg.user_tribes, from, to));
            }
        }
    }
    assert forall|k: int| 0 <= k < mid.user_tribes.len() implies ref_is_live(
        mid.wallets,
        #[trigger] mid.user_tribes[k],
    ) by {
        assert(mid.user_tribes[k].wallet_id == reg.user_tribes[k].wallet_id);
    }
    assert(mid.wf());
    lemma_logged_preserves_wf(
        mid,
        audit_id,
        AuditAction::SuperAdminUpdateTribe,
        admin_id,
        None,
        renamed_tribe_text(from, to),
        now,
    );
}

/// Adding one membership, for an account that is no member of the tribe yet
/// and with a weak reference that is absent or points at an active binding,
/// keeps the invariant.
pub proof fn lemma_push_membership_preserves_wf(reg: RegistryView, row: UserTribeView)
    requires
        reg.wf(),
        !is_member(reg.user_tribes, row.user_id, row.tribe),
        ref_is_live(reg.wallets, row),
    ensures
        reg.with_membership(row).wf(),
{
    let mid = RegistryView { user_tribes: reg.user_tribes.push(row), ..reg };
    assert forall|a: int, b: int| 0 <= a < b < mid.user_tribes.len() implies !((
    #[trigger] mid.user_tribes[a]).user_id == (#[trigger] mid.user_tribes[b]).user_id
        && mid.user_tribes[a].tribe == mid.user_tribes[b].tribe) by {
        if b == reg.user_tribes.len() {
            assert(!(reg.user_tribes[a].user_id == row.user_id && reg.user_tribes[a].tribe
                == row.tribe));
        } else {
            assert(!(reg.user_tribes[a].user_id == reg.user_tribes[b].user_id
                && reg.user_tribes[a].tribe == reg.user_tribes[b].tribe));
        }
    }
    assert forall|k: int| 0 <= k < mid.user_tribes.len() implies ref_is_live(
        mid.wallets,
        #[trigger] mid.user_tribes[k],
    ) by {
        if k < reg.user_tribes.len() {
            assert(mid.user_tribes[k] == reg.user_tribes[k]);
        }
    }
}

/// The addition of an account to a tribe keeps the invariant of the
/// registry.
pub proof fn lemma_add_user_to_tribe_preserves_wf(
    reg: RegistryView,
    admin_id: i64,
    tribe: Seq<char>,
    username: Seq<char>,
    audit_id: Seq<char>,
    now: i64,
)
    requires
        reg.wf(),
        reg.add_user_to_tribe_result(tribe, username, audit_id) is Ok,
    ensures
        reg.after_add_user_to_tribe(admin_id, tribe, username, audit_id, now).wf(),
{
    let user = reg.user_named(username);
    let row = UserTribeView {
        user_id: user.id,
        tribe,
        wallet_id: None,
        created_at: Some(now),
        is_admin: false,
        source: MembershipSource::Manual,
    };
    lemma_push_membership_preserves_wf(reg, row);
    lemma_logged_preserves_wf(
        RegistryView { user_tribes: reg.user_tribes.push(row), ..reg },
        audit_id,
        AuditAction::SuperAdminUpdateTribe,
        admin_id,
        Some(user.id),
        added_user_text(user.username, tribe),
        now,
    );
}

/// Under distinct ids, an active binding found by its id is an active
/// binding with that id.
pub proof fn lemma_active_wallet(reg: RegistryView, wallet_id: Seq<char>)
    requires
        reg.is_active_wallet(wallet_id),
    ensures
        has_active_wallet(
            reg.wallets,
            wallet_id,
            reg.wallets[index_of_wallet_id(reg.wallets, wallet_id)].user_id,
        ),
{
    let i = index_of_wallet_id(reg.wallets, wallet_id);
    assert(reg.wallets[i].id == wallet_id && reg.wallets[i].is_active());
}

/// A grant of admin rights keeps the invariant of the registry.
pub proof fn lemma_grant_admin_preserves_wf(
    reg: RegistryView,
    actor_id: i64,
    discord_id: Seq<char>,
    tribe: Seq<char>,
    wallet_id: Seq<char>,
    audit_id: Seq<char>,
    now: i64,
)
    requires
        reg.wf(),
        reg.grant_admin_result(discord_id, wallet_id, audit_id) is Ok,
    ensures
        reg.after_grant_admin(actor_id, discord_id, tribe, wallet_id, audit_id, now).wf(),
{
    let target = reg.user_with_identity(discord_id);
    lemma_active_wallet(reg, wallet_id);
    if is_member(reg.user_tribes, target.id, tribe) {
        let k = index_of_member(reg.user_tribes, target.id, tribe);
        let row = UserTribeView {
            wallet_id: Some(wallet_id),
            is_admin: true,
            source: MembershipSource::Manual,
            ..reg.user_tribes[k]
        };
        let mid = RegistryView { user_tribes: reg.user_tribes.update(k, row), ..reg };
        assert forall|a: int, b: int| 0 <= a < b < mid.user_tribes.len() implies !((
        #[trigger] mid.user_tribes[a]).user_id == (#[trigger] mid.user_tribes[b]).user_id
            && mid.user_tribes[a].tribe == mid.user_tribes[b].tribe) by {
            assert(!(reg.user_tribes[a].user_id == reg.user_tribes[b].user_id
                && reg.user_tribes[a].tribe == reg.user_tribes[b].tribe));
        }
        assert forall|j: int| 0 <= j < mid.user_tribes.len() implies ref_is_live(
        mid.wallets,
        #[trigger] mid.user_tribes[j],
    ) by {
            if j != k {
                assert(mid.user_tribes[j] == reg.user_tribes[j]);
            }
        }
        assert(mid.wf());
        lemma_logged_preserves_wf(
            mid,
            audit_id,
            AuditAction::AdminGrant,
            actor_id,
            Some(target.id),
            granted_admin_text(target.username, tribe, wallet_id),
            now,
        );
    } else {
        let row = UserTribeView {
            user_id: target.id,
            tribe,
            wallet_id: Some(wallet_id),
            created_at: Some(now),
            is_admin: true,
            source: MembershipSource::Manual,
        };
        lemma_push_membership_preserves_wf(reg, row);
        lemma_logged_preserves_wf(
            RegistryView { user_tribes: reg.user_tribes.push(row), ..reg },
            audit_id,
            AuditAction::AdminGrant,
            actor_id,
            Some(target.id),
            granted_admin_text(target.username, tribe, wallet_id),
            now,
        );
    }
}

/// An update of an account keeps the invariant of the registry.
pub proof fn lemma_update_user_preserves_wf(
    reg: RegistryView,
    admin_id: i64,
    user_id: i64,
    payload: (bool, Seq<char>, Seq<char>, Seq<Seq<char>>),
    audit_id: Seq<char>,
    now: i64,
)
    requires
        reg.wf(),
        reg.update_user_result(user_id, audit_id) is Ok,
    ensures
        reg.after_update_user(admin_id, user_id, payload, audit_id, now).wf(),
{
    let i = index_of_user(reg.users, user_id);
    let mid = RegistryView {
        users: reg.users.update(
            i,
            UserView {
                is_admin: payload.0,
                username: payload.1,
                discriminator: payload.2,
                ..reg.users[i]
            },
        ),
        user_tribes: reg.user_tribes.map_values(
            |m: UserTribeView| row_with_admin_flag(m, user_id, payload.3),
        ),
        ..reg
    };
    assert forall|a: int, b: int| 0 <= a < b < mid.users.len() implies (#[trigger] mid.users[a]).id
        != (#[trigger] mid.users[b]).id by {
        assert(reg.users[a].id != reg.users[b].id);
    }
    assert forall|a: int, b: int| 0 <= a < b < mid.user_tribes.len() implies !((
    #[trigger] mid.user_tribes[a]).user_id == (#[trigger] mid.user_tribes[b]).user_id
        && mid.user_tribes[a].tribe == mid.user_tribes[b].tribe) by {
        assert(!(reg.user_tribes[a].user_id == reg.user_tribes[b].user_id
            && reg.user_tribes[a].tribe == reg.user_tribes[b].tribe));
    }
    assert forall|k: int| 0 <= k < mid.user_tribes.len() implies ref_is_live(
        mid.wallets,
        #[trigger] mid.user_tribes[k],
    ) by {
        assert(mid.user_tribes[k].wallet_id == reg.user_tribes[k].wallet_id);
    }
    assert(mid.wf());
    lemma_logged_preserves_wf(
        mid,
        audit_id,
        AuditAction::SuperAdminUpdateUser,
        admin_id,
        Some(user_id),
        updated_user_text(
            reg.users[i].is_admin,
            reg.users[i].username,
            reg.users[i].discriminator,
            payload.0,
            payload.1,
            payload.2,
            payload.3,
        ),
        now,
    );
}

impl Registry {
    /// Adds an account. An id that is in use is refused, and nothing
    /// changes.
    pub fn insert_user(&mut self, user: User) -> (r: bool)
        requires
            old(self).wf(),
        ensures
            final(self).wf(),
            r == !has_user(old(self)@.users, user.id),
            r ==> final(self)@ == old(self)@.with_user(user@),
            !r ==> final(self)@ == old(self)@,
    {
        let ghost before = self@;
        if find_user(&self.users, user.id).is_some() {
            return false;
        }
        self.users.push(user);
        assert(self@.users =~= before.users.push(user@));
        assert(self@ == before.with_user(user@));
        assert forall|i: int, j: int| 0 <= i < j < self@.users.len() implies (
        #[trigger] self@.users[i]).id != (#[trigger] self@.users[j]).id by {
            if j == before.users.len() {
                assert(before.users[i].id != user.id);
            } else {
                assert(before.users[i].id != before.users[j].id);
            }
        }
        true
    }

    /// Creates the tribe `name` on behalf of the administrator `admin_id`
    /// and records the creation. On any error nothing changes.
    pub fn create_tribe(&mut self, admin_id: i64, name: &str, audit_id: String, now: i64) -> (r:
        Result<(), AdminError>)
        requires
            old(self).wf(),
        ensures
            final(self).wf(),
            r == old(self)@.create_tribe_result(name@, audit_id@),
            r is Ok ==> final(self)@ == old(self)@.after_create_tribe(
                admin_id,
                name@,
                audit_id@,
                now,
            ),
            r is Err ==> final(self)@ == old(self)@,
    {
        let ghost before = self@;
        match validate_tribe_name(name) {
            Err(e) => {
                return Err(e);
            },
            Ok(_) => {},
        }
        if find_tribe(&self.tribes, name).is_some() {
            return Err(AdminError::TribeExists);
        }
        if self.audit_id_in_use(audit_id.as_str()) {
            return Err(AdminError::Storage);
        }
        let tribe = Tribe { name: name.to_owned(), created_at: now };
        self.tribes.push(tribe);
        assert(self@.tribes =~= before.tribes.push(tribe@));
        let details = created_tribe_details(name);
        self.push_audit(
            audit_id,
            AuditAction::SuperAdminCreateTribe,
            admin_id,
            None,
            details,
            now,
        );
        proof {
            lemma_create_tribe_preserves_wf(before, admin_id, name@, audit_id@, now);
        }
        Ok(())
    }

    /// Renames the tribe `tribe_name` to `new_name` on behalf of the
    /// administrator `admin_id`: in the tribe table and in every membership
    /// that names the tribe, and records the renaming. On any error nothing
    /// changes.
    pub fn update_tribe(
        &mut self,
        admin_id: i64,
        tribe_name: &str,
        new_name: &str,
        audit_id: String,
        now: i64,
    ) -> (r: Result<(), AdminError>)
        requires
            old(self).wf(),
        ensures
            final(self).wf(),
            r == old(self)@.update_tribe_result(tribe_name@, new_name@, audit_id@),
            r is Ok ==> final(self)@ == old(self)@.after_update_tribe(
                admin_id,
                tribe_name@,
                new_name@,
                audit_id@,
                now,
            ),
            r is Err ==> final(self)@ == old(self)@,
    {
        let ghost before = self@;
        match validate_tribe_name(new_name) {
            Err(e) => {
                return Err(e);
            },
            Ok(_) => {},
        }
        if !same_text(tribe_name, new_name) && find_tribe(&self.tribes, tribe_name).is_some()
            && find_tribe(&self.tribes, new_name).is_some() {
            return Err(AdminError::TribeExists);
        }
        if rename_would_collide(&self.user_tribes, tribe_name, new_name) {
            return Err(AdminError::Storage);
        }
        if self.audit_id_in_use(audit_id.as_str()) {
            return Err(AdminError::Storage);
        }
        rename_tribe_rows(&mut self.tribes, tribe_name, new_name);
        rename_membership_rows(&mut self.user_tribes, tribe_name, new_name);
        let details = renamed_tribe_details(tribe_name, new_name);
        self.push_audit(
            audit_id,
            AuditAction::SuperAdminUpdateTribe,
            admin_id,
            None,
            details,
            now,
        );
        proof {
            lemma_update_tribe_preserves_wf(
                before,
                admin_id,
                tribe_name@,
                new_name@,
                audit_id@,
                now,
            );
        }
        Ok(())
    }

    /// Adds the account named `username` (up to the case of ASCII letters)
    /// to the tribe `tribe_name`, as a member without admin rights, on behalf
    /// of the administrator `admin_id`, and records the addition. On any
    /// error nothing changes.
    pub fn add_user_to_tribe(
        &mut self,
        admin_id: i64,
        tribe_name: &str,
        username: &str,
        audit_id: String,
        now: i64,
    ) -> (r: Result<(), AdminError>)
        requires
            old(self).wf(),
        ensures
            final(self).wf(),
            r == old(self)@.add_user_to_tribe_result(tribe_name@, username@, audit_id@),
            r is Ok ==> final(self)@ == old(self)@.after_add_user_to_tribe(
                admin_id,
                tribe_name@,
                username@,
                audit_id@,
                now,
            ),
            r is Err ==> final(self)@ == old(self)@,
    {
        let ghost before = self@;
        match validate_username(username) {
            Err(e) => {
                return Err(e);
            },
            Ok(_) => {},
        }
        let found = find_user_by_name(&self.users, username);
        proof {
            if let Some(i) = found {
                let w = choose|k: int| first_user_named(before.users, username@, k);
                lemma_first_user_named_unique(before.users, username@, i as int, w);
            }
        }
        let decision = match found {
            Some(i) => decide_add_user(
                Some(&self.users[i]),
                find_membership(&self.user_tribes, self.users[i].id, tribe_name).is_some(),
                find_tribe(&self.tribes, tribe_name).is_some(),
            ),
            None => decide_add_user(None, false, find_tribe(&self.tribes, tribe_name).is_some()),
        };
        match decision {
            Err(e) => {
                return Err(e);
            },
            Ok(_) => {},
        }
        let i = found.unwrap();
        let user_id = self.users[i].id;
        if self.audit_id_in_use(audit_id.as_str()) {
            return Err(AdminError::Storage);
        }
        let row = UserTribe {
            user_id,
            tribe: tribe_name.to_owned(),
            wallet_id: None,
            created_at: Some(now),
            is_admin: false,
            source: MembershipSource::Manual,
        };
        let details = added_user_details(self.users[i].username.as_str(), tribe_name);
        self.user_tribes.push(row);
        assert(self@.user_tribes =~= before.user_tribes.push(row@));
        self.push_audit(
            audit_id,
            AuditAction::SuperAdminUpdateTribe,
            admin_id,
            Some(user_id),
            details,
            now,
        );
        proof {
            lemma_add_user_to_tribe_preserves_wf(
                before,
                admin_id,
                tribe_name@,
                username@,
                audit_id@,
                now,
            );
        }
        Ok(())
    }

    /// Grants the account with the external identity `discord_id` admin
    /// rights in `tribe`, resting on its active wallet binding `wallet_id`,
    /// on behalf of `actor_id`, and records the grant. On any error nothing
    /// changes.
    pub fn grant_admin(
        &mut self,
        actor_id: i64,
        discord_id: &str,
        tribe: &str,
        wallet_id: &str,
        audit_id: String,
        now: i64,
    ) -> (r: Result<(), AdminError>)
        requires
            old(self).wf(),
        ensures
            final(self).wf(),
            r == old(self)@.grant_admin_result(discord_id@, wallet_id@, audit_id@),
            r is Ok ==> final(self)@ == old(self)@.after_grant_admin(
                actor_id,
                discord_id@,
                tribe@,
                wallet_id@,
                audit_id@,
                now,
            ),
            r is Err ==> final(self)@ == old(self)@,
    {
        let ghost before = self@;
        let i = match find_user_by_identity(&self.users, discord_id) {
            Some(i) => i,
            None => {
                return Err(AdminError::UserNotFound);
            },
        };
        proof {
            let w = choose|k: int| first_user_with_identity(before.users, discord_id@, k);
            lemma_first_user_with_identity_unique(before.users, discord_id@, i as int, w);
        }
        let target_id = self.users[i].id;
        let found = self.find_wallet_by_id(wallet_id);
        proof {
            if let Some(w) = found {
                lemma_index_of_wallet_id(before, w as int);
            }
        }
        let membership = find_membership(&self.user_tribes, target_id, tribe);
        let decision = match found {
            Some(w) => decide_grant(&self.users[i], Some(&self.wallets[w]), membership.is_some()),
            None => decide_grant(&self.users[i], None, membership.is_some()),
        };
        let plan = match decision {
            Err(e) => {
                return Err(e);
            },
            Ok(plan) => plan,
        };
        if self.audit_id_in_use(audit_id.as_str()) {
            return Err(AdminError::Storage);
        }
        let details = granted_admin_details(self.users[i].username.as_str(), tribe, wallet_id);
        match membership {
            Some(k) => {
                assert(plan == GrantPlan::UpdateMembership);
                proof {
                    lemma_index_of_member(before, k as int);
                }
                let row = UserTribe {
                    user_id: self.user_tribes[k].user_id,
                    tribe: self.user_tribes[k].tribe.clone(),
                    wallet_id: Some(wallet_id.to_owned()),
                    created_at: self.user_tribes[k].created_at,
                    is_admin: true,
                    source: MembershipSource::Manual,
                };
                self.user_tribes.set(k, row);
                assert(self@.user_tribes =~= before.user_tribes.update(k as int, row@));
            },
            None => {
                let row = UserTribe {
                    user_id: target_id,
                    tribe: tribe.to_owned(),
                    wallet_id: Some(wallet_id.to_owned()),
                    created_at: Some(now),
                    is_admin: true,
                    source: MembershipSource::Manual,
                };
                self.user_tribes.push(row);
                assert(self@.user_tribes =~= before.user_tribes.push(row@));
            },
        }
        self.push_audit(audit_id, AuditAction::AdminGrant, actor_id, Some(target_id), details, now);
        proof {
            lemma_grant_admin_preserves_wf(
                before,
                actor_id,
                discord_id@,
                tribe@,
                wallet_id@,
                audit_id@,
                now,
            );
        }
        Ok(())
    }

    /// Updates the account `user_id` on behalf of the administrator
    /// `admin_id`: sets its global admin flag and its names, sets the admin
    /// flag of each of its memberships to whether the tribe is among the
    /// request's admin tribes, and records the update with the old and the
    /// new values. On any error nothing changes.
    pub fn update_user(
        &mut self,
        admin_id: i64,
        user_id: i64,
        payload: &UpdateUserRequest,
        audit_id: String,
        now: i64,
    ) -> (r: Result<(), AdminError>)
        requires
            old(self).wf(),
        ensures
            final(self).wf(),
            r == old(self)@.update_user_result(user_id, audit_id@),
            r is Ok ==> final(self)@ == old(self)@.after_update_user(
                admin_id,
                user_id,
                (
                    payload.is_admin,
                    payload.username@,
                    payload.discriminator@,
                    views_of(payload.admin_tribes@),
                ),
                audit_id@,
                now,
            ),
            r is Err ==> final(self)@ == old(self)@,
    {
        let ghost before = self@;
        let ghost change = (
            payload.is_admin,
            payload.username@,
            payload.discriminator@,
            views_of(payload.admin_tribes@),
        );
        let i = match find_user(&self.users, user_id) {
            Some(i) => i,
            None => {
                return Err(AdminError::UserNotFound);
            },
        };
        proof {
            lemma_index_of_user(before, i as int);
        }
        if self.audit_id_in_use(audit_id.as_str()) {
            return Err(AdminError::Storage);
        }
        let details = updated_user_details(
            self.users[i].is_admin,
            self.users[i].username.as_str(),
            self.users[i].discriminator.as_str(),
            payload,
        );
        let user = User {
            id: self.users[i].id,
            discord_id: self.users[i].discord_id.clone(),
            username: payload.username.clone(),
            discriminator: payload.discriminator.clone(),
            avatar: clone_opt_text(&self.users[i].avatar),
            is_admin: payload.is_admin,
            last_login_at: self.users[i].last_login_at,
        };
        self.users.set(i, user);
        assert(self@.users =~= before.users.update(i as int, user@));
        set_admin_flags(&mut self.user_tribes, user_id, &payload.admin_tribes);
        self.push_audit(
            audit_id,
            AuditAction::SuperAdminUpdateUser,
            admin_id,
            Some(user_id),
            details,
            now,
        );
        proof {
            lemma_update_user_preserves_wf(before, admin_id, user_id, change, audit_id@, now);
        }
        Ok(())
    }
}


/// Why a login did not go through.
#[derive(Debug, Clone, Copy, PartialEq, Eq, Structural)]
pub enum LoginError {
    /// The identity was erased before and stays erased.
    Erased,
    /// The store refused a write; nothing was changed.
    Storage,
}

/// What a login yields: the account, and whether the login made it admin.
#[derive(Debug)]
pub struct LoginOutcome {
    pub user: User,
    pub admin_granted: bool,
}

/// The account as a login leaves it, given the account that the identity
/// has, if it has one: a known account gets its names and the time of login
/// refreshed and keeps or gains the admin flag; an unknown identity gets a
/// new account under `new_id`.
pub open spec fn account_after_login(
    existing: Option<UserView>,
    profile: DiscordProfileView,
    is_initial_admin: bool,
    new_id: i64,
    now: i64,
) -> UserView {
    match existing {
        Some(u) => UserView {
            username: profile.username,
            discriminator: profile.discriminator,
            avatar: profile.avatar,
            is_admin: u.is_admin || is_initial_admin,
            last_login_at: Some(now),
            ..u
        },
        None => UserView {
            id: new_id,
            discord_id: profile.id,
            username: profile.username,
            discriminator: profile.discriminator,
            avatar: profile.avatar,
            is_admin: is_initial_admin,
            last_login_at: Some(now),
        },
    }
}

/// Whether a login makes the account admin: the identity is the configured
/// initial admin, and the account is new or not admin yet.
pub open spec fn promoted_by_login(existing: Option<UserView>, is_initial_admin: bool) -> bool {
    match existing {
        Some(u) => is_initial_admin && !u.is_admin,
        None => is_initial_admin,
    }
}

/// The view of an optional account.
pub open spec fn opt_account_view(user: Option<&User>) -> Option<UserView> {
    match user {
        Some(u) => Some(u@),
        None => None,
    }
}

/// Decides what a login does to the account of an identity. `existing` is
/// the account that the identity has, if it has one.
pub fn decide_login(
    existing: Option<&User>,
    profile: &DiscordProfile,
    is_initial_admin: bool,
    new_id: i64,
    now: i64,
) -> (r: LoginOutcome)
    ensures
        r.user@ == account_after_login(
            opt_account_view(existing),
            profile@,
            is_initial_admin,
            new_id,
            now,
        ),
        r.admin_granted == promoted_by_login(opt_account_view(existing), is_initial_admin),
{
    match existing {
        Some(u) => LoginOutcome {
            user: User {
                id: u.id,
                discord_id: u.discord_id.clone(),
                username: profile.username.clone(),
                discriminator: profile.discriminator.clone(),
                avatar: clone_opt_text(&profile.avatar),
                is_admin: u.is_admin || is_initial_admin,
                last_login_at: Some(now),
            },
            admin_granted: is_initial_admin && !u.is_admin,
        },
        None => LoginOutcome {
            user: User {
                id: new_id,
                discord_id: profile.id.clone(),
                username: profile.username.clone(),
                discriminator: profile.discriminator.clone(),
                avatar: clone_opt_text(&profile.avatar),
                is_admin: is_initial_admin,
                last_login_at: Some(now),
            },
            admin_granted: is_initial_admin,
        },
    }
}

/// The fingerprint is remembered.
pub open spec fn denylisted(hashes: Seq<IdentityHashView>, hash: Seq<char>) -> bool {
    exists|i: int| 0 <= i < hashes.len() && (#[trigger] hashes[i]).hash == hash
}

/// The fingerprints with one more remembered, unless it is there already.
pub open spec fn with_hash(
    hashes: Seq<IdentityHashView>,
    hash: Seq<char>,
    kind: IdentityKind,
) -> Seq<IdentityHashView> {
    if denylisted(hashes, hash) {
        hashes
    } else {
        hashes.push(IdentityHashView { hash, kind })
    }
}

/// The fingerprint of a wallet address: that of its lower-case form.
pub open spec fn wallet_hash(address: Seq<char>, pepper: Seq<u8>) -> Seq<char> {
    identity_hash(encode_utf8(lowercase_of(address)), pepper)
}

/// The fingerprints with those of every wallet of the account remembered.
pub open spec fn with_wallet_hashes(
    hashes: Seq<IdentityHashView>,
    wallets: Seq<WalletBindingView>,
    user_id: i64,
    pepper: Seq<u8>,
) -> Seq<IdentityHashView>
    decreases wallets.len(),
{
    if wallets.len() == 0 {
        hashes
    } else {
        let before = with_wallet_hashes(hashes, wallets.drop_last(), user_id, pepper);
        if wallets.last().user_id == user_id {
            with_hash(before, wallet_hash(wallets.last().address, pepper), IdentityKind::Wallet)
        } else {
            before
        }
    }
}

/// The bindings that do not belong to the account.
pub open spec fn wallet_not_of(user_id: i64) -> spec_fn(WalletBindingView) -> bool {
    |w: WalletBindingView| w.user_id != user_id
}

/// The memberships that do not belong to the account.
pub open spec fn row_not_of(user_id: i64) -> spec_fn(UserTribeView) -> bool {
    |m: UserTribeView| m.user_id != user_id
}

/// The notes that the account neither wrote nor is the subject of.
pub open spec fn note_not_about(user_id: i64) -> spec_fn(NoteView) -> bool {
    |n: NoteView| n.author_id != user_id && n.target_user_id != user_id
}

/// The voice-chat accounts of other accounts.
pub open spec fn voice_account_not_of(user_id: i64) -> spec_fn(MumbleAccountView) -> bool {
    |a: MumbleAccountView| a.user_id != user_id
}

/// Some note has the id.
pub open spec fn has_note_id(notes: Seq<NoteView>, id: Seq<char>) -> bool {
    exists|i: int| 0 <= i < notes.len() && (#[trigger] notes[i]).id == id
}

/// The position of a note that has the id.
pub open spec fn index_of_note(notes: Seq<NoteView>, id: Seq<char>) -> int {
    choose|i: int| 0 <= i < notes.len() && (#[trigger] notes[i]).id == id
}

/// The account has a voice-chat account.
pub open spec fn has_voice_account(accounts: Seq<MumbleAccountView>, user_id: i64) -> bool {
    exists|i: int| 0 <= i < accounts.len() && (#[trigger] accounts[i]).user_id == user_id
}

/// The position of the account's voice-chat account.
pub open spec fn index_of_voice_account(accounts: Seq<MumbleAccountView>, user_id: i64) -> int {
    choose|i: int| 0 <= i < accounts.len() && (#[trigger] accounts[i]).user_id == user_id
}

impl RegistryView {
    /// Some account has the external identity.
    pub open spec fn knows_identity(self, discord_id: Seq<char>) -> bool {
        exists|i: int| first_user_with_identity(self.users, discord_id, i)
    }

    /// Whether a login makes the account admin: the identity is the
    /// configured initial admin and the account is not admin yet.
    pub open spec fn login_promotes(self, discord_id: Seq<char>, is_initial_admin: bool) -> bool {
        if self.knows_identity(discord_id) {
            is_initial_admin && !self.user_with_identity(discord_id).is_admin
        } else {
            is_initial_admin
        }
    }

    /// The account as a login leaves it: a known account gets its names and
    /// the time of login refreshed and keeps or gains the admin flag; an
    /// unknown identity gets a new account under `new_id`.
    pub open spec fn login_user(
        self,
        profile: DiscordProfileView,
        is_initial_admin: bool,
        new_id: i64,
        now: i64,
    ) -> UserView {
        if self.knows_identity(profile.id) {
            let u = self.user_with_identity(profile.id);
            UserView {
                username: profile.username,
                discriminator: profile.discriminator,
                avatar: profile.avatar,
                is_admin: u.is_admin || is_initial_admin,
                last_login_at: Some(now),
                ..u
            }
        } else {
            UserView {
                id: new_id,
                discord_id: profile.id,
                username: profile.username,
                discriminator: profile.discriminator,
                avatar: profile.avatar,
                is_admin: is_initial_admin,
                last_login_at: Some(now),
            }
        }
    }

    /// How a login ends. An erased identity is turned away; ids that are in
    /// use are refused by the store.
    pub open spec fn login_result(
        self,
        discord_id: Seq<char>,
        pepper: Seq<u8>,
        is_initial_admin: bool,
        new_id: i64,
        audit_ids: (Seq<char>, Seq<char>),
    ) -> Result<(), LoginError> {
        if denylisted(self.identity_hashes, identity_hash(encode_utf8(discord_id), pepper)) {
            Err(LoginError::Erased)
        } else if has_audit_id(self.audit_logs, audit_ids.0) {
            Err(LoginError::Storage)
        } else if self.login_promotes(discord_id, is_initial_admin) && (has_audit_id(
            self.audit_logs,
            audit_ids.1,
        ) || audit_ids.0 == audit_ids.1) {
            Err(LoginError::Storage)
        } else if !self.knows_identity(discord_id) && has_user(self.users, new_id) {
            Err(LoginError::Storage)
        } else {
            Ok(())
        }
    }

    /// The registry after a login: the account is created or refreshed, the
    /// login is recorded, and so is the grant of admin rights if the login
    /// made one.
    pub open spec fn after_login(
        self,
        profile: DiscordProfileView,
        is_initial_admin: bool,
        new_id: i64,
        audit_ids: (Seq<char>, Seq<char>),
        now: i64,
    ) -> RegistryView {
        let user = self.login_user(profile, is_initial_admin, new_id, now);
        let users = if self.knows_identity(profile.id) {
            self.users.update(
                choose|i: int| first_user_with_identity(self.users, profile.id, i),
                user,
            )
        } else {
            self.users.push(user)
        };
        let first = RegistryView { users, ..self }.logged(
            audit_ids.0,
            AuditAction::Login,
            user.id,
            None,
            "User "@ + profile.username + " logged in via Discord"@,
            now,
        );
        if self.login_promotes(profile.id, is_initial_admin) {
            first.logged(
                audit_ids.1,
                AuditAction::AdminGrant,
                user.id,
                Some(user.id),
                "User "@ + profile.username + " granted admin via INITIAL_ADMIN_ID"@,
                now,
            )
        } else {
            first
        }
    }

    /// How the erasure of the account `user_id` ends.
    pub open spec fn delete_account_result(self, user_id: i64, audit_id: Seq<char>) -> Result<
        (),
        ErrorKind,
    > {
        if !has_user(self.users, user_id) {
            Err(ErrorKind::NotFound)
        } else if has_audit_id(self.audit_logs, audit_id) {
            Err(ErrorKind::Internal)
        } else {
            Ok(())
        }
    }

    /// The registry after the erasure of the account `user_id`: the
    /// fingerprints of its external identity and of its wallet addresses are
    /// remembered; its wallet bindings, its memberships, its voice-chat
    /// account and the notes written by it or about it are gone; and the
    /// account itself stays, made anonymous, so that the audit log keeps
    /// pointing at an account.
    pub open spec fn after_delete_account(
        self,
        user_id: i64,
        pepper: Seq<u8>,
        random: u64,
        audit_id: Seq<char>,
        now: i64,
    ) -> RegistryView {
        let i = index_of_user(self.users, user_id);
        RegistryView {
            users: self.users.update(
                i,
                UserView {
                    discord_id: "deleted_"@ + decimal_of_u64(random),
                    username: "Deleted User"@,
                    avatar: None,
                    is_admin: false,
                    ..self.users[i]
                },
            ),
            wallets: kept(self.wallets, wallet_not_of(user_id)),
            user_tribes: kept(self.user_tribes, row_not_of(user_id)),
            notes: kept(self.notes, note_not_about(user_id)),
            mumble_accounts: kept(self.mumble_accounts, voice_account_not_of(user_id)),
            identity_hashes: with_wallet_hashes(
                with_hash(
                    self.identity_hashes,
                    identity_hash(encode_utf8(self.users[i].discord_id), pepper),
                    IdentityKind::Discord,
                ),
                self.wallets,
                user_id,
                pepper,
            ),
            ..self
        }.logged(
            audit_id,
            AuditAction::DeleteUser,
            user_id,
            None,
            "User deleted their own account (GDPR)"@,
            now,
        )
    }
}

/// A login keeps the invariant of the registry.
pub proof fn lemma_login_preserves_wf(
    reg: RegistryView,
    profile: DiscordProfileView,
    pepper: Seq<u8>,
    is_initial_admin: bool,
    new_id: i64,
    audit_ids: (Seq<char>, Seq<char>),
    now: i64,
)
    requires
        reg.wf(),
        reg.login_result(profile.id, pepper, is_initial_admin, new_id, audit_ids) is Ok,
    ensures
        reg.after_login(profile, is_initial_admin, new_id, audit_ids, now).wf(),
{
    let user = reg.login_user(profile, is_initial_admin, new_id, now);
    let users = if reg.knows_identity(profile.id) {
        reg.users.update(choose|i: int| first_user_with_identity(reg.users, profile.id, i), user)
    } else {
        reg.users.push(user)
    };
    let mid = RegistryView { users, ..reg };
    assert forall|a: int, b: int| 0 <= a < b < mid.users.len() implies (#[trigger] mid.users[a]).id
        != (#[trigger] mid.users[b]).id by {
        if reg.knows_identity(profile.id) {
            assert(reg.users[a].id != reg.users[b].id);
        } else {
            if b == reg.users.len() {
                assert(reg.users[a].id != new_id);
            } else {
                assert(reg.users[a].id != reg.users[b].id);
            }
        }
    }
    assert(mid.wf());
    lemma_logged_preserves_wf(
        mid,
        audit_ids.0,
        AuditAction::Login,
        user.id,
        None,
        "User "@ + profile.username + " logged in via Discord"@,
        now,
    );
    let first = mid.logged(
        audit_ids.0,
        AuditAction::Login,
        user.id,
        None,
        "User "@ + profile.username + " logged in via Discord"@,
        now,
    );
    if reg.login_promotes(profile.id, is_initial_admin) {
        assert(!has_audit_id(first.audit_logs, audit_ids.1)) by {
            if has_audit_id(first.audit_logs, audit_ids.1) {
                let k = choose|k: int|
                    0 <= k < first.audit_logs.len() && (#[trigger] first.audit_logs[k]).id
                        == audit_ids.1;
                if k < reg.audit_logs.len() {
                    assert(reg.audit_logs[k].id == audit_ids.1);
                }
            }
        }
        lemma_logged_preserves_wf(
            first,
            audit_ids.1,
            AuditAction::AdminGrant,
            user.id,
            Some(user.id),
            "User "@ + profile.username + " granted admin via INITIAL_ADMIN_ID"@,
            now,
        );
    }
}

/// The erasure of an account keeps the invariant of the registry.
pub proof fn lemma_delete_account_preserves_wf(
    reg: RegistryView,
    user_id: i64,
    pepper: Seq<u8>,
    random: u64,
    audit_id: Seq<char>,
    now: i64,
)
    requires
        reg.wf(),
        reg.delete_account_result(user_id, audit_id) is Ok,
    ensures
        reg.after_delete_account(user_id, pepper, random, audit_id, now).wf(),
{
    let i = index_of_user(reg.users, user_id);
    let mid = RegistryView {
        users: reg.users.update(
            i,
            UserView {
                discord_id: "deleted_"@ + decimal_of_u64(random),
                username: "Deleted User"@,
                avatar: None,
                is_admin: false,
                ..reg.users[i]
            },
        ),
        wallets: kept(reg.wallets, wallet_not_of(user_id)),
        user_tribes: kept(reg.user_tribes, row_not_of(user_id)),
        notes: kept(reg.notes, note_not_about(user_id)),
        mumble_accounts: kept(reg.mumble_accounts, voice_account_not_of(user_id)),
        identity_hashes: with_wallet_hashes(
            with_hash(
                reg.identity_hashes,
                identity_hash(encode_utf8(reg.users[i].discord_id), pepper),
                IdentityKind::Discord,
            ),
            reg.wallets,
            user_id,
            pepper,
        ),
        ..reg
    };
    let wo = lemma_kept_origin(reg.wallets, wallet_not_of(user_id));
    let ro = lemma_kept_origin(reg.user_tribes, row_not_of(user_id));
    assert forall|a: int, b: int| 0 <= a < b < mid.users.len() implies (#[trigger] mid.users[a]).id
        != (#[trigger] mid.users[b]).id by {
        assert(reg.users[a].id != reg.users[b].id);
    }
    assert forall|a: int, b: int| 0 <= a < b < mid.wallets.len() implies (
    #[trigger] mid.wallets[a]).id != (#[trigger] mid.wallets[b]).id && mid.wallets[a].address
        != mid.wallets[b].address by {
        assert(wo[a] < wo[b]);
        assert(reg.wallets[wo[a]].id != reg.wallets[wo[b]].id);
        assert(reg.wallets[wo[a]].address != reg.wallets[wo[b]].address);
    }
    assert forall|a: int, b: int| 0 <= a < b < mid.user_tribes.len() implies !((
    #[trigger] mid.user_tribes[a]).user_id == (#[trigger] mid.user_tribes[b]).user_id
        && mid.user_tribes[a].tribe == mid.user_tribes[b].tribe) by {
        assert(ro[a] < ro[b]);
        assert(!(reg.user_tribes[ro[a]].user_id == reg.user_tribes[ro[b]].user_id
            && reg.user_tribes[ro[a]].tribe == reg.user_tribes[ro[b]].tribe));
    }
    assert forall|k: int| 0 <= k < mid.user_tribes.len() implies ref_is_live(
        mid.wallets,
        #[trigger] mid.user_tribes[k],
    ) by {
        let row = mid.user_tribes[k];
        assert(row == reg.user_tribes[ro[k]]);
        assert(ref_is_live(reg.wallets, reg.user_tribes[ro[k]]));
        if let Some(id) = row.wallet_id {
            let w = choose|w: int|
                0 <= w < reg.wallets.len() && (#[trigger] reg.wallets[w]).id == id
                    && reg.wallets[w].is_active() && reg.wallets[w].user_id == row.user_id;
            assert(wallet_not_of(user_id)(reg.wallets[w]));
            let j = choose|j: int| 0 <= j < wo.len() && #[trigger] wo[j] == w;
            assert(mid.wallets[j] == reg.wallets[w]);
        }
    }
    let no = lemma_kept_origin(reg.notes, note_not_about(user_id));
    let ao = lemma_kept_origin(reg.mumble_accounts, voice_account_not_of(user_id));
    assert forall|a: int, b: int| 0 <= a < b < mid.notes.len() implies (#[trigger] mid.notes[a]).id
        != (#[trigger] mid.notes[b]).id by {
        assert(no[a] < no[b]);
        assert(reg.notes[no[a]].id != reg.notes[no[b]].id);
    }
    assert forall|a: int, b: int| 0 <= a < b < mid.mumble_accounts.len() implies (
    #[trigger] mid.mumble_accounts[a]).user_id != (#[trigger] mid.mumble_accounts[b]).user_id by {
        assert(ao[a] < ao[b]);
        assert(reg.mumble_accounts[ao[a]].user_id != reg.mumble_accounts[ao[b]].user_id);
    }
    assert(mid.wf());
    lemma_logged_preserves_wf(
        mid,
        audit_id,
        AuditAction::DeleteUser,
        user_id,
        None,
        "User deleted their own account (GDPR)"@,
        now,
    );
}

/// The bindings that do not belong to the account, copied.
fn wallets_not_of(wallets: &Vec<WalletBinding>, user_id: i64) -> (r: Vec<WalletBinding>)
    ensures
        r@.map_values(|w: WalletBinding| w@) == kept(
            wallets@.map_values(|w: WalletBinding| w@),
            wallet_not_of(user_id),
        ),
{
    let ghost all = wallets@.map_values(|w: WalletBinding| w@);
    let mut out: Vec<WalletBinding> = Vec::new();
    let mut i: usize = 0;
    assert(all.take(0) =~= Seq::<WalletBindingView>::empty());
    while i < wallets.len()
        invariant
            i <= wallets.len(),
            all == wallets@.map_values(|w: WalletBinding| w@),
            out@.map_values(|w: WalletBinding| w@) == kept(
                all.take(i as int),
                wallet_not_of(user_id),
            ),
        decreases wallets.len() - i,
    {
        proof {
            lemma_kept_push(all.take(i as int), all[i as int], wallet_not_of(user_id));
            assert(all.take(i as int).push(all[i as int]) =~= all.take(i + 1));
        }
        if wallets[i].user_id != user_id {
            let ghost before = out@.map_values(|w: WalletBinding| w@);
            let copy = wallets[i].clone();
            out.push(copy);
            assert(out@.map_values(|w: WalletBinding| w@) =~= before.push(all[i as int]));
        }
        i = i + 1;
    }
    assert(all.take(wallets.len() as int) =~= all);
    out
}

/// The memberships that do not belong to the account, copied.
fn rows_not_of(rows: &Vec<UserTribe>, user_id: i64) -> (r: Vec<UserTribe>)
    ensures
        r@.map_values(|m: UserTribe| m@) == kept(
            rows@.map_values(|m: UserTribe| m@),
            row_not_of(user_id),
        ),
{
    let ghost all = rows@.map_values(|m: UserTribe| m@);
    let mut out: Vec<UserTribe> = Vec::new();
    let mut i: usize = 0;
    assert(all.take(0) =~= Seq::<UserTribeView>::empty());
    while i < rows.len()
        invariant
            i <= rows.len(),
            all == rows@.map_values(|m: UserTribe| m@),
            out@.map_values(|m: UserTribe| m@) == kept(all.take(i as int), row_not_of(user_id)),
        decreases rows.len() - i,
    {
        proof {
            lemma_kept_push(all.take(i as int), all[i as int], row_not_of(user_id));
            assert(all.take(i as int).push(all[i as int]) =~= all.take(i + 1));
        }
        if rows[i].user_id != user_id {
            let ghost before = out@.map_values(|m: UserTribe| m@);
            let copy = rows[i].clone();
            out.push(copy);
            assert(out@.map_values(|m: UserTribe| m@) =~= before.push(all[i as int]));
        }
        i = i + 1;
    }
    assert(all.take(rows.len() as int) =~= all);
    out
}

/// The notes that the account neither wrote nor is the subject of, copied.
fn notes_not_about(notes: &Vec<Note>, user_id: i64) -> (r: Vec<Note>)
    ensures
        r@.map_values(|n: Note| n@) == kept(
            notes@.map_values(|n: Note| n@),
            note_not_about(user_id),
        ),
{
    let ghost all = notes@.map_values(|n: Note| n@);
    let mut out: Vec<Note> = Vec::new();
    let mut i: usize = 0;
    assert(all.take(0) =~= Seq::<NoteView>::empty());
    while i < notes.len()
        invariant
            i <= notes.len(),
            all == notes@.map_values(|n: Note| n@),
            out@.map_values(|n: Note| n@) == kept(all.take(i as int), note_not_about(user_id)),
        decreases notes.len() - i,
    {
        proof {
            lemma_kept_push(all.take(i as int), all[i as int], note_not_about(user_id));
            assert(all.take(i as int).push(all[i as int]) =~= all.take(i + 1));
        }
        if notes[i].author_id != user_id && notes[i].target_user_id != user_id {
            let ghost before = out@.map_values(|n: Note| n@);
            let copy = notes[i].clone();
            out.push(copy);
            assert(out@.map_values(|n: Note| n@) =~= before.push(all[i as int]));
        }
        i = i + 1;
    }
    assert(all.take(notes.len() as int) =~= all);
    out
}

/// The voice-chat accounts of other accounts, copied.
fn voice_accounts_not_of(accounts: &Vec<MumbleAccount>, user_id: i64) -> (r: Vec<MumbleAccount>)
    ensures
        r@.map_values(|a: MumbleAccount| a@) == kept(
            accounts@.map_values(|a: MumbleAccount| a@),
            voice_account_not_of(user_id),
        ),
{
    let ghost all = accounts@.map_values(|a: MumbleAccount| a@);
    let mut out: Vec<MumbleAccount> = Vec::new();
    let mut i: usize = 0;
    assert(all.take(0) =~= Seq::<MumbleAccountView>::empty());
    while i < accounts.len()
        invariant
            i <= accounts.len(),
            all == accounts@.map_values(|a: MumbleAccount| a@),
            out@.map_values(|a: MumbleAccount| a@) == kept(
                all.take(i as int),
                voice_account_not_of(user_id),
            ),
        decreases accounts.len() - i,
    {
        proof {
            lemma_kept_push(all.take(i as int), all[i as int], voice_account_not_of(user_id));
            assert(all.take(i as int).push(all[i as int]) =~= all.take(i + 1));
        }
        if accounts[i].user_id != user_id {
            let ghost before = out@.map_values(|a: MumbleAccount| a@);
            let copy = accounts[i].clone();
            out.push(copy);
            assert(out@.map_values(|a: MumbleAccount| a@) =~= before.push(all[i as int]));
        }
        i = i + 1;
    }
    assert(all.take(accounts.len() as int) =~= all);
    out
}

/// Remembers a fingerprint, unless it is remembered already.
fn remember_hash(hashes: &mut Vec<IdentityHash>, hash: String, kind: IdentityKind)
    ensures
        final(hashes)@.map_values(|h: IdentityHash| h@) == with_hash(
            old(hashes)@.map_values(|h: IdentityHash| h@),
            hash@,
            kind,
        ),
{
    let ghost before = hashes@.map_values(|h: IdentityHash| h@);
    if !hash_is_remembered(hashes, hash.as_str()) {
        let entry = IdentityHash { hash, kind };
        hashes.push(entry);
        assert(hashes@.map_values(|h: IdentityHash| h@) =~= before.push(entry@));
    }
}

/// Whether a fingerprint is remembered.
fn hash_is_remembered(hashes: &Vec<IdentityHash>, hash: &str) -> (r: bool)
    ensures
        r == denylisted(hashes@.map_values(|h: IdentityHash| h@), hash@),
{
    let ghost all = hashes@.map_values(|h: IdentityHash| h@);
    let mut i: usize = 0;
    while i < hashes.len()
        invariant
            i <= hashes.len(),
            all == hashes@.map_values(|h: IdentityHash| h@),
            forall|j: int| 0 <= j < i ==> (#[trigger] all[j]).hash != hash@,
        decreases hashes.len() - i,
    {
        if same_text(hashes[i].hash.as_str(), hash) {
            assert(all[i as int].hash == hash@);
            return true;
        }
        i = i + 1;
    }
    false
}

impl Registry {
    /// The remembered fingerprints of erased identities.
    pub fn identity_hashes(&self) -> (r: &Vec<IdentityHash>)
        ensures
            r@.map_values(|h: IdentityHash| h@) == self@.identity_hashes,
    {
        &self.identity_hashes
    }

    /// Whether the external identity was erased before.
    pub fn is_erased(&self, discord_id: &str, pepper: &str) -> (r: bool)
        ensures
            r == denylisted(
                self@.identity_hashes,
                identity_hash(encode_utf8(discord_id@), pepper.spec_bytes()),
            ),
    {
        let hash = hash_identity(discord_id, pepper);
        hash_is_remembered(&self.identity_hashes, hash.as_str())
    }

    /// Logs an identity in: finds its account or creates one under `new_id`,
    /// refreshes the account's names and time of login, makes it admin if
    /// the identity is the configured initial admin, and records the login
    /// and, where one was made, the grant. An identity that was erased
    /// before is turned away. On any error nothing changes.
    pub fn login(
        &mut self,
        profile: &DiscordProfile,
        pepper: &str,
        is_initial_admin: bool,
        new_id: i64,
        audit_ids: (String, String),
        now: i64,
    ) -> (r: Result<LoginOutcome, LoginError>)
        requires
            old(self).wf(),
        ensures
            final(self).wf(),
            match r {
                Ok(outcome) => {
                    &&& old(self)@.login_result(
                        profile.id@,
                        pepper.spec_bytes(),
                        is_initial_admin,
                        new_id,
                        (audit_ids.0@, audit_ids.1@),
                    ) is Ok
                    &&& outcome.user@ == old(self)@.login_user(
                        profile@,
                        is_initial_admin,
                        new_id,
                        now,
                    )
                    &&& outcome.admin_granted == old(self)@.login_promotes(
                        profile.id@,
                        is_initial_admin,
                    )
                    &&& final(self)@ == old(self)@.after_login(
                        profile@,
                        is_initial_admin,
                        new_id,
                        (audit_ids.0@, audit_ids.1@),
                        now,
                    )
                },
                Err(e) => {
                    &&& old(self)@.login_result(
                        profile.id@,
                        pepper.spec_bytes(),
                        is_initial_admin,
                        new_id,
                        (audit_ids.0@, audit_ids.1@),
                    ) == Err::<(), LoginError>(e)
                    &&& final(self)@ == old(self)@
                },
            },
    {
        let ghost before = self@;
        let ghost ids = (audit_ids.0@, audit_ids.1@);
        if self.is_erased(profile.id.as_str(), pepper) {
            return Err(LoginError::Erased);
        }
        if self.audit_id_in_use(audit_ids.0.as_str()) {
            return Err(LoginError::Storage);
        }
        let found = find_user_by_identity(&self.users, profile.id.as_str());
        proof {
            if let Some(i) = found {
                let w = choose|k: int| first_user_with_identity(before.users, profile.id@, k);
                lemma_first_user_with_identity_unique(before.users, profile.id@, i as int, w);
            } else {
                assert(!before.knows_identity(profile.id@)) by {
                    if before.knows_identity(profile.id@) {
                        let w = choose|k: int|
                            first_user_with_identity(before.users, profile.id@, k);
                        assert(before.users[w].discord_id != profile.id@);
                    }
                }
            }
        }
        let outcome = match found {
            Some(i) => decide_login(Some(&self.users[i]), profile, is_initial_admin, new_id, now),
            None => decide_login(None, profile, is_initial_admin, new_id, now),
        };
        let promotes = outcome.admin_granted;
        if promotes && (self.audit_id_in_use(audit_ids.1.as_str()) || same_text(
            audit_ids.0.as_str(),
            audit_ids.1.as_str(),
        )) {
            return Err(LoginError::Storage);
        }
        let user = outcome.user;
        match found {
            Some(i) => {
                self.users.set(i, user.clone());
                assert(self@.users =~= before.users.update(i as int, user@));
            },
            None => {
                if find_user(&self.users, new_id).is_some() {
                    return Err(LoginError::Storage);
                }
                self.users.push(user.clone());
                assert(self@.users =~= before.users.push(user@));
            },
        }
        let mut details = "User ".to_owned();
        details.append(profile.username.as_str());
        details.append(" logged in via Discord");
        self.push_audit(audit_ids.0, AuditAction::Login, user.id, None, details, now);
        if promotes {
            let mut granted = "User ".to_owned();
            granted.append(profile.username.as_str());
            granted.append(" granted admin via INITIAL_ADMIN_ID");
            self.push_audit(
                audit_ids.1,
                AuditAction::AdminGrant,
                user.id,
                Some(user.id),
                granted,
                now,
            );
        }
        proof {
            lemma_login_preserves_wf(
                before,
                profile@,
                pepper.spec_bytes(),
                is_initial_admin,
                new_id,
                ids,
                now,
            );
        }
        Ok(LoginOutcome { user, admin_granted: promotes })
    }

    /// Erases the account `user_id` at its owner's request: remembers the
    /// fingerprints of its external identity and of its wallet addresses,
    /// removes its wallet bindings, its memberships, its voice-chat account
    /// and the notes written by it or about it, makes the account itself
    /// anonymous, and records the erasure. `random` makes the placeholder
    /// identity. On any error nothing changes.
    pub fn delete_account(
        &mut self,
        user_id: i64,
        pepper: &str,
        random: u64,
        audit_id: String,
        now: i64,
    ) -> (r: Result<(), ErrorKind>)
        requires
            old(self).wf(),
        ensures
            final(self).wf(),
            r == old(self)@.delete_account_result(user_id, audit_id@),
            r is Ok ==> final(self)@ == old(self)@.after_delete_account(
                user_id,
                pepper.spec_bytes(),
                random,
                audit_id@,
                now,
            ),
            r is Err ==> final(self)@ == old(self)@,
    {
        let ghost before = self@;
        let i = match find_user(&self.users, user_id) {
            Some(i) => i,
            None => {
                return Err(ErrorKind::NotFound);
            },
        };
        proof {
            lemma_index_of_user(before, i as int);
        }
        if self.audit_id_in_use(audit_id.as_str()) {
            return Err(ErrorKind::Internal);
        }
        let discord_hash = hash_identity(self.users[i].discord_id.as_str(), pepper);
        remember_hash(&mut self.identity_hashes, discord_hash, IdentityKind::Discord);
        let ghost start = self@.identity_hashes;
        let mut k: usize = 0;
        assert(before.wallets.take(0) =~= Seq::<WalletBindingView>::empty());
        while k < self.wallets.len()
            invariant
                k <= self.wallets.len(),
                self@.wallets == before.wallets,
                self@.users == before.users,
                self@.user_tribes == before.user_tribes,
                self@.tribes == before.tribes,
                self@.audit_logs == before.audit_logs,
                self@.notes == before.notes,
                self@.mumble_accounts == before.mumble_accounts,
                self@.identity_hashes == with_wallet_hashes(
                    start,
                    before.wallets.take(k as int),
                    user_id,
                    pepper.spec_bytes(),
                ),
            decreases self.wallets.len() - k,
        {
            proof {
                assert(before.wallets.take(k + 1).drop_last() =~= before.wallets.take(k as int));
                assert(before.wallets.take(k + 1).last() == before.wallets[k as int]);
            }
            if self.wallets[k].user_id == user_id {
                let normalized = normalize_address(self.wallets[k].address.as_str());
                let hash = hash_identity(normalized.as_str(), pepper);
                remember_hash(&mut self.identity_hashes, hash, IdentityKind::Wallet);
            }
            k = k + 1;
        }
        assert(before.wallets.take(self.wallets.len() as int) =~= before.wallets);
        let remaining = wallets_not_of(&self.wallets, user_id);
        self.wallets = remaining;
        let rows = rows_not_of(&self.user_tribes, user_id);
        self.user_tribes = rows;
        let notes = notes_not_about(&self.notes, user_id);
        self.notes = notes;
        let accounts = voice_accounts_not_of(&self.mumble_accounts, user_id);
        self.mumble_accounts = accounts;
        let mut placeholder = "deleted_".to_owned();
        placeholder.append(format_u64(random).as_str());
        let user = User {
            id: self.users[i].id,
            discord_id: placeholder,
            username: "Deleted User".to_owned(),
            discriminator: self.users[i].discriminator.clone(),
            avatar: None,
            is_admin: false,
            last_login_at: self.users[i].last_login_at,
        };
        self.users.set(i, user);
        assert(self@.users =~= before.users.update(i as int, user@));
        self.push_audit(
            audit_id,
            AuditAction::DeleteUser,
            user_id,
            None,
            "User deleted their own account (GDPR)".to_owned(),
            now,
        );
        proof {
            lemma_delete_account_preserves_wf(
                before,
                user_id,
                pepper.spec_bytes(),
                random,
                audit_id@,
                now,
            );
        }
        Ok(())
    }
}


impl Registry {
    /// Appends an entry to the audit log. An id that is in use is refused,
    /// and nothing changes.
    pub fn log_audit(
        &mut self,
        id: String,
        action: AuditAction,
        actor_id: i64,
        target_id: Option<i64>,
        details: &str,
        now: i64,
    ) -> (r: bool)
        requires
            old(self).wf(),
        ensures
            final(self).wf(),
            r == !has_audit_id(old(self)@.audit_logs, id@),
            r ==> final(self)@ == old(self)@.logged(id@, action, actor_id, target_id, details@, now),
            !r ==> final(self)@ == old(self)@,
    {
        if self.audit_id_in_use(id.as_str()) {
            return false;
        }
        proof {
            lemma_logged_preserves_wf(self@, id@, action, actor_id, target_id, details@, now);
        }
        self.push_audit(id, action, actor_id, target_id, details.to_owned(), now);
        true
    }
}

/// Atomic pairing: a mutation whose audit entry the store refuses does not
/// take place. Whatever the request, every mutation of wallets, tribes and
/// accounts fails when the id of its audit entry is in use, and a failed
/// mutation changes nothing.
pub proof fn lemma_refused_audit_fails_mutation(
    reg: RegistryView,
    audit_id: Seq<char>,
    user_id: i64,
    texts: (Seq<char>, Seq<char>, Seq<char>),
)
    requires
        has_audit_id(reg.audit_logs, audit_id),
    ensures
        reg.link_result(SignatureCheck::Valid, texts.0, texts.1, audit_id) is Err,
        reg.unlink_result(user_id, texts.0, audit_id) is Err,
        reg.delete_wallet_result(texts.0, audit_id) is Err,
        reg.create_tribe_result(texts.0, audit_id) is Err,
        reg.update_tribe_result(texts.0, texts.1, audit_id) is Err,
        reg.add_user_to_tribe_result(texts.0, texts.1, audit_id) is Err,
        reg.grant_admin_result(texts.0, texts.1, audit_id) is Err,
        reg.update_user_result(user_id, audit_id) is Err,
        reg.delete_account_result(user_id, audit_id) is Err,
{
}

/// Atomic pairing, the other way round: a mutation that takes place leaves
/// exactly one new audit entry, under the given id, after the entries that
/// were there.
pub proof fn lemma_mutation_is_audited(
    reg: RegistryView,
    audit_id: Seq<char>,
    ids: (i64, i64),
    texts: (Seq<char>, Seq<char>, Seq<char>),
    now: i64,
)
    ensures
        audited_once(reg, reg.after_link(ids.0, texts.0, texts.1, audit_id, now), audit_id),
        audited_once(reg, reg.after_unlink(ids.0, texts.0, audit_id, now), audit_id),
        audited_once(reg, reg.after_delete_wallet(ids.0, texts.0, audit_id, now), audit_id),
        audited_once(reg, reg.after_create_tribe(ids.0, texts.0, audit_id, now), audit_id),
        audited_once(
            reg,
            reg.after_update_tribe(ids.0, texts.0, texts.1, audit_id, now),
            audit_id,
        ),
        audited_once(
            reg,
            reg.after_add_user_to_tribe(ids.0, texts.0, texts.1, audit_id, now),
            audit_id,
        ),
        audited_once(
            reg,
            reg.after_grant_admin(ids.0, texts.0, texts.1, texts.2, audit_id, now),
            audit_id,
        ),
{
    let a = reg.after_link(ids.0, texts.0, texts.1, audit_id, now);
    assert(a.audit_logs.drop_last() =~= reg.audit_logs);
    let b = reg.after_unlink(ids.0, texts.0, audit_id, now);
    assert(b.audit_logs.drop_last() =~= reg.audit_logs);
    let c = reg.after_delete_wallet(ids.0, texts.0, audit_id, now);
    assert(c.audit_logs.drop_last() =~= reg.audit_logs);
    let d = reg.after_create_tribe(ids.0, texts.0, audit_id, now);
    assert(d.audit_logs.drop_last() =~= reg.audit_logs);
    let e = reg.after_update_tribe(ids.0, texts.0, texts.1, audit_id, now);
    assert(e.audit_logs.drop_last() =~= reg.audit_logs);
    let f = reg.after_add_user_to_tribe(ids.0, texts.0, texts.1, audit_id, now);
    assert(f.audit_logs.drop_last() =~= reg.audit_logs);
    let g = reg.after_grant_admin(ids.0, texts.0, texts.1, texts.2, audit_id, now);
    assert(g.audit_logs.drop_last() =~= reg.audit_logs);
}

/// `after` holds the audit entries of `before` and one more, under `id`.
pub open spec fn audited_once(before: RegistryView, after: RegistryView, id: Seq<char>) -> bool {
    &&& after.audit_logs.len() == before.audit_logs.len() + 1
    &&& after.audit_logs.drop_last() == before.audit_logs
    &&& after.audit_logs.last().id == id
}


/// The audit log is append-only: whatever a mutation does, the entries that
/// were there stay in place, in order, and new entries come after them.
pub open spec fn log_only_grew(before: RegistryView, after: RegistryView) -> bool {
    before.audit_logs.len() <= after.audit_logs.len() && after.audit_logs.take(
        before.audit_logs.len() as int,
    ) == before.audit_logs
}

/// No operation of the registry alters or removes an audit entry.
pub proof fn lemma_audit_log_is_append_only(
    reg: RegistryView,
    audit_ids: (Seq<char>, Seq<char>),
    ids: (i64, i64, u64),
    texts: (Seq<char>, Seq<char>, Seq<char>),
    profile: DiscordProfileView,
    flags: (bool, Seq<Seq<char>>),
    pepper: Seq<u8>,
    now: i64,
)
    ensures
        log_only_grew(reg, reg.after_link(ids.0, texts.0, texts.1, audit_ids.0, now)),
        log_only_grew(reg, reg.after_unlink(ids.0, texts.0, audit_ids.0, now)),
        log_only_grew(reg, reg.after_delete_wallet(ids.0, texts.0, audit_ids.0, now)),
        log_only_grew(reg, reg.after_create_tribe(ids.0, texts.0, audit_ids.0, now)),
        log_only_grew(reg, reg.after_update_tribe(ids.0, texts.0, texts.1, audit_ids.0, now)),
        log_only_grew(
            reg,
            reg.after_add_user_to_tribe(ids.0, texts.0, texts.1, audit_ids.0, now),
        ),
        log_only_grew(
            reg,
            reg.after_grant_admin(ids.0, texts.0, texts.1, texts.2, audit_ids.0, now),
        ),
        log_only_grew(
            reg,
            reg.after_update_user(ids.0, ids.1, (flags.0, texts.0, texts.1, flags.1), audit_ids.0, now),
        ),
        log_only_grew(reg, reg.after_login(profile, flags.0, ids.1, audit_ids, now)),
        log_only_grew(reg, reg.after_delete_account(ids.0, pepper, ids.2, audit_ids.0, now)),
{
    let n = reg.audit_logs.len() as int;
    assert(reg.after_link(ids.0, texts.0, texts.1, audit_ids.0, now).audit_logs.take(n)
        =~= reg.audit_logs);
    assert(reg.after_unlink(ids.0, texts.0, audit_ids.0, now).audit_logs.take(n)
        =~= reg.audit_logs);
    assert(reg.after_delete_wallet(ids.0, texts.0, audit_ids.0, now).audit_logs.take(n)
        =~= reg.audit_logs);
    assert(reg.after_create_tribe(ids.0, texts.0, audit_ids.0, now).audit_logs.take(n)
        =~= reg.audit_logs);
    assert(reg.after_update_tribe(ids.0, texts.0, texts.1, audit_ids.0, now).audit_logs.take(n)
        =~= reg.audit_logs);
    assert(reg.after_add_user_to_tribe(ids.0, texts.0, texts.1, audit_ids.0, now).audit_logs.take(
        n,
    ) =~= reg.audit_logs);
    assert(reg.after_grant_admin(
        ids.0,
        texts.0,
        texts.1,
        texts.2,
        audit_ids.0,
        now,
    ).audit_logs.take(n) =~= reg.audit_logs);
    assert(reg.after_update_user(
        ids.0,
        ids.1,
        (flags.0, texts.0, texts.1, flags.1),
        audit_ids.0,
        now,
    ).audit_logs.take(n) =~= reg.audit_logs);
    assert(reg.after_login(profile, flags.0, ids.1, audit_ids, now).audit_logs.take(n)
        =~= reg.audit_logs);
    assert(reg.after_delete_account(ids.0, pepper, ids.2, audit_ids.0, now).audit_logs.take(n)
        =~= reg.audit_logs);
}

/// Every transition of a binding into the soft-deleted state clears the
/// weak references to it: afterwards no membership points at the binding,
/// and every membership is still there, in place.
pub proof fn lemma_soft_delete_clears_refs(reg: RegistryView, wallet_id: Seq<char>, now: i64)
    requires
        reg.wf(),
        has_wallet_id(reg.wallets, wallet_id),
    ensures
        ({
            let after = reg.soft_deleted(wallet_id, now);
            &&& !after.is_active_wallet(wallet_id)
            &&& after.user_tribes.len() == reg.user_tribes.len()
            &&& forall|k: int|
                0 <= k < after.user_tribes.len() ==> (#[trigger] after.user_tribes[k]).wallet_id
                    != Some(wallet_id) && after.user_tribes[k].user_id
                    == reg.user_tribes[k].user_id && after.user_tribes[k].tribe
                    == reg.user_tribes[k].tribe && after.user_tribes[k].is_admin
                    == reg.user_tribes[k].is_admin
        }),
{
    let after = reg.soft_deleted(wallet_id, now);
    let i = index_of_wallet_id(reg.wallets, wallet_id);
    lemma_soft_delete_preserves_wf(reg, wallet_id, now);
    assert(after.wallets[i].id == wallet_id);
    lemma_index_of_wallet_id(after, i);
}


/// A link is recorded: after a successful link the newest audit entry says
/// that the requester linked a wallet, and its details end in the address.
pub proof fn lemma_link_is_recorded(
    reg: RegistryView,
    user_id: i64,
    address: Seq<char>,
    binding_id: Seq<char>,
    audit_id: Seq<char>,
    now: i64,
)
    ensures
        ({
            let entry = reg.after_link(user_id, address, binding_id, audit_id, now).audit_logs.last();
            &&& entry.id == audit_id
            &&& entry.action == AuditAction::LinkWallet
            &&& entry.actor_id == user_id
            &&& entry.target_id is None
            &&& entry.created_at == now
            &&& entry.details.len() >= address.len()
            &&& entry.details.skip(entry.details.len() - address.len()) == address
        }),
{
    let entry = reg.after_link(user_id, address, binding_id, audit_id, now).audit_logs.last();
    if has_address(reg.wallets, address) {
        let prefix = "Re-linked wallet "@;
        assert(entry.details == prefix + address);
        assert((prefix + address).skip(prefix.len() as int) =~= address);
    } else {
        let prefix = "Linked wallet "@;
        assert(entry.details == prefix + address);
        assert((prefix + address).skip(prefix.len() as int) =~= address);
    }
}


impl RegistryView {
    /// The registry with one more note.
    pub open spec fn with_note(self, note: NoteView) -> RegistryView {
        RegistryView { notes: self.notes.push(note), ..self }
    }

    /// The registry with the note of the same id replaced.
    pub open spec fn with_note_replaced(self, note: NoteView) -> RegistryView {
        RegistryView {
            notes: self.notes.update(index_of_note(self.notes, note.id), note),
            ..self
        }
    }

    /// The registry with a voice-chat account stored: in place of the one
    /// that the account had, or as its first.
    pub open spec fn with_voice_account(self, account: MumbleAccountView) -> RegistryView {
        if has_voice_account(self.mumble_accounts, account.user_id) {
            RegistryView {
                mumble_accounts: self.mumble_accounts.update(
                    index_of_voice_account(self.mumble_accounts, account.user_id),
                    account,
                ),
                ..self
            }
        } else {
            RegistryView { mumble_accounts: self.mumble_accounts.push(account), ..self }
        }
    }
}

impl Registry {
    /// The notes, oldest first.
    pub fn notes(&self) -> (r: &Vec<Note>)
        ensures
            r@.map_values(|n: Note| n@) == self@.notes,
    {
        &self.notes
    }

    /// The voice-chat accounts.
    pub fn mumble_accounts(&self) -> (r: &Vec<MumbleAccount>)
        ensures
            r@.map_values(|a: MumbleAccount| a@) == self@.mumble_accounts,
    {
        &self.mumble_accounts
    }

    fn find_note(&self, id: &str) -> (r: Option<usize>)
        ensures
            match r {
                Some(i) => i < self.notes.len() && self@.notes[i as int].id == id@,
                None => !has_note_id(self@.notes, id@),
            },
    {
        let mut i: usize = 0;
        while i < self.notes.len()
            invariant
                i <= self.notes.len(),
                forall|j: int| 0 <= j < i ==> (#[trigger] self@.notes[j]).id != id@,
            decreases self.notes.len() - i,
        {
            if same_text(self.notes[i].id.as_str(), id) {
                return Some(i);
            }
            i = i + 1;
        }
        None
    }

    fn find_voice_account(&self, user_id: i64) -> (r: Option<usize>)
        ensures
            match r {
                Some(i) => i < self.mumble_accounts.len() && self@.mumble_accounts[i as int].user_id
                    == user_id,
                None => !has_voice_account(self@.mumble_accounts, user_id),
            },
    {
        let mut i: usize = 0;
        while i < self.mumble_accounts.len()
            invariant
                i <= self.mumble_accounts.len(),
                forall|j: int|
                    0 <= j < i ==> (#[trigger] self@.mumble_accounts[j]).user_id != user_id,
            decreases self.mumble_accounts.len() - i,
        {
            if self.mumble_accounts[i].user_id == user_id {
                return Some(i);
            }
            i = i + 1;
        }
        None
    }

    /// Stores a new note. An id that is in use is refused, and nothing
    /// changes.
    pub fn add_note(&mut self, note: Note) -> (r: bool)
        requires
            old(self).wf(),
        ensures
            final(self).wf(),
            r == !has_note_id(old(self)@.notes, note.id@),
            r ==> final(self)@ == old(self)@.with_note(note@),
            !r ==> final(self)@ == old(self)@,
    {
        let ghost before = self@;
        if self.find_note(note.id.as_str()).is_some() {
            return false;
        }
        self.notes.push(note);
        assert(self@.notes =~= before.notes.push(note@));
        assert(self@ == before.with_note(note@));
        assert forall|i: int, j: int| 0 <= i < j < self@.notes.len() implies (
        #[trigger] self@.notes[i]).id != (#[trigger] self@.notes[j]).id by {
            if j == before.notes.len() {
                assert(before.notes[i].id != note.id@);
            } else {
                assert(before.notes[i].id != before.notes[j].id);
            }
        }
        true
    }

    /// Stores an edited note in place of the note of the same id. Where
    /// there is no such note, nothing changes.
    pub fn replace_note(&mut self, note: Note) -> (r: bool)
        requires
            old(self).wf(),
        ensures
            final(self).wf(),
            r == has_note_id(old(self)@.notes, note.id@),
            r ==> final(self)@ == old(self)@.with_note_replaced(note@),
            !r ==> final(self)@ == old(self)@,
    {
        let ghost before = self@;
        let i = match self.find_note(note.id.as_str()) {
            Some(i) => i,
            None => {
                return false;
            },
        };
        proof {
            let w = index_of_note(before.notes, note.id@);
            if w < i {
                assert(before.notes[w].id != before.notes[i as int].id);
            } else if (i as int) < w {
                assert(before.notes[i as int].id != before.notes[w].id);
            }
        }
        self.notes.set(i, note);
        assert(self@.notes =~= before.notes.update(i as int, note@));
        assert(self@ == before.with_note_replaced(note@));
        assert forall|a: int, b: int| 0 <= a < b < self@.notes.len() implies (
        #[trigger] self@.notes[a]).id != (#[trigger] self@.notes[b]).id by {
            assert(before.notes[a].id != before.notes[b].id);
        }
        true
    }

    /// Stores the voice-chat account of an account: in place of the one it
    /// had, or as its first.
    pub fn save_mumble_account(&mut self, account: MumbleAccount)
        requires
            old(self).wf(),
        ensures
            final(self).wf(),
            final(self)@ == old(self)@.with_voice_account(account@),
    {
        let ghost before = self@;
        proof {
            lemma_voice_account_preserves_wf(before, account@);
        }
        match self.find_voice_account(account.user_id) {
            Some(i) => {
                proof {
                    lemma_index_of_voice_account(before, i as int);
                }
                self.mumble_accounts.set(i, account);
                assert(self@.mumble_accounts =~= before.mumble_accounts.update(
                    i as int,
                    account@,
                ));
            },
            None => {
                self.mumble_accounts.push(account);
                assert(self@.mumble_accounts =~= before.mumble_accounts.push(account@));
            },
        }
    }
}

/// Under the invariant, a voice-chat account is found at its own position.
pub proof fn lemma_index_of_voice_account(reg: RegistryView, i: int)
    requires
        reg.voice_accounts_distinct(),
        0 <= i < reg.mumble_accounts.len(),
    ensures
        has_voice_account(reg.mumble_accounts, reg.mumble_accounts[i].user_id),
        index_of_voice_account(reg.mumble_accounts, reg.mumble_accounts[i].user_id) == i,
{
    let u = reg.mumble_accounts[i].user_id;
    let w = index_of_voice_account(reg.mumble_accounts, u);
    assert(0 <= w < reg.mumble_accounts.len() && reg.mumble_accounts[w].user_id == u);
    if w < i {
        assert(reg.mumble_accounts[w].user_id != reg.mumble_accounts[i].user_id);
    } else if i < w {
        assert(reg.mumble_accounts[i].user_id != reg.mumble_accounts[w].user_id);
    }
}

/// Storing a voice-chat account keeps the invariant of the registry: an
/// account never has two.
pub proof fn lemma_voice_account_preserves_wf(reg: RegistryView, account: MumbleAccountView)
    requires
        reg.wf(),
    ensures
        reg.with_voice_account(account).wf(),
{
    let after = reg.with_voice_account(account);
    assert forall|a: int, b: int| 0 <= a < b < after.mumble_accounts.len() implies (
    #[trigger] after.mumble_accounts[a]).user_id != (#[trigger] after.mumble_accounts[b]).user_id by {
        if has_voice_account(reg.mumble_accounts, account.user_id) {
            let i = index_of_voice_account(reg.mumble_accounts, account.user_id);
            assert(reg.mumble_accounts[a].user_id != reg.mumble_accounts[b].user_id);
        } else {
            if b == reg.mumble_accounts.len() {
                assert(reg.mumble_accounts[a].user_id != account.user_id);
            } else {
                assert(reg.mumble_accounts[a].user_id != reg.mumble_accounts[b].user_id);
            }
        }
    }
}

/// After an erasure nothing of the account is left but its anonymous row:
/// no wallet binding, no membership, no voice-chat account, and no note that
/// it wrote or that is about it.
pub proof fn lemma_erasure_leaves_nothing(
    reg: RegistryView,
    user_id: i64,
    pepper: Seq<u8>,
    random: u64,
    audit_id: Seq<char>,
    now: i64,
)
    ensures
        ({
            let after = reg.after_delete_account(user_id, pepper, random, audit_id, now);
            &&& forall|i: int|
                0 <= i < after.wallets.len() ==> (#[trigger] after.wallets[i]).user_id != user_id
            &&& forall|i: int|
                0 <= i < after.user_tribes.len() ==> (#[trigger] after.user_tribes[i]).user_id
                    != user_id
            &&& !has_voice_account(after.mumble_accounts, user_id)
            &&& forall|i: int|
                0 <= i < after.notes.len() ==> (#[trigger] after.notes[i]).author_id != user_id
                    && after.notes[i].target_user_id != user_id
        }),
{
    let after = reg.after_delete_account(user_id, pepper, random, audit_id, now);
    let wo = lemma_kept_origin(reg.wallets, wallet_not_of(user_id));
    let ro = lemma_kept_origin(reg.user_tribes, row_not_of(user_id));
    let no = lemma_kept_origin(reg.notes, note_not_about(user_id));
    let ao = lemma_kept_origin(reg.mumble_accounts, voice_account_not_of(user_id));
    assert forall|i: int| 0 <= i < after.wallets.len() implies (#[trigger] after.wallets[i]).user_id
        != user_id by {
        assert(wallet_not_of(user_id)(reg.wallets[wo[i]]));
    }
    assert forall|i: int| 0 <= i < after.user_tribes.len() implies (
    #[trigger] after.user_tribes[i]).user_id != user_id by {
        assert(row_not_of(user_id)(reg.user_tribes[ro[i]]));
    }
    assert forall|i: int| 0 <= i < after.notes.len() implies (#[trigger] after.notes[i]).author_id
        != user_id && after.notes[i].target_user_id != user_id by {
        assert(note_not_about(user_id)(reg.notes[no[i]]));
    }
    assert(!has_voice_account(after.mumble_accounts, user_id)) by {
        if has_voice_account(after.mumble_accounts, user_id) {
            let i = index_of_voice_account(after.mumble_accounts, user_id);
            assert(voice_account_not_of(user_id)(reg.mumble_accounts[ao[i]]));
        }
    }
}


} // verus!
