//! Views of the registry: an account's profile, the accounts as a super
//! admin sees them, the roster of a tribe, and the notes on a member. Only
//! the look at a roster writes: it is recorded in the audit log.

use vstd::prelude::*;
use crate::access::{
    admin_eligible, opt_str_view, resolved_tribe, tribe_names, tribe_names_of, AccessError,
};
use crate::audit::{AuditAction, AuditLogEntry, AuditLogEntryView};
use crate::auth::{AuthError, AuthenticatedUser, SuperAdmins};
use crate::helpers::{
    get_user_by_id, memberships_of, require_admin_in_tribe, row_of, user_by_id,
};
use crate::matching::{like, like_exec};
use crate::models::{
    clone_opt_text, opt_text, Tribe, TribeView, User, UserTribe, UserTribeView, UserView,
    WalletBinding, WalletBindingView,
};
use crate::notes::{Note, NoteView, NoteWithAuthor, NoteWithAuthorView};
use crate::platform::{fresh_uuid, now_millis};
use crate::registry::{has_audit_id, lemma_index_of_user, Registry, RegistryView};
use crate::roster::{
    plan_roster, planned_by_count, planned_column, planned_descending, planned_pattern,
    roster_access, roster_scope, LinkedWallet, LinkedWalletView, PageWindow, RosterMember,
    RosterQuery, SortColumn,
};
use crate::seqs::{is_origin, kept, lemma_kept_origin, lemma_kept_push};
use crate::service::well_drawn;
use crate::sorting::{
    arranged, key_le, keys_view, lemma_sorted_by_carries_keys, lemma_sorted_by_holds_the_rows,
    lemma_sorted_by_is_ordered, positions, sorted_by, stable_order, stable_order_of, SortKey,
    SortKeyView,
};
use crate::text::{chars_of, concat2, decimal_of, format_i64, opt_text_is, same_text, views_of};
use crate::tribes::{find_membership, find_user, has_user, index_of_user, is_member, users_view};
use vstd::string::StringSliceAdditionalSpecFns;
use vstd::utf8::encode_utf8;

verus! {

/// The memberships that rest on the binding `wallet_id`.
pub open spec fn refers_to(wallet_id: Seq<char>) -> spec_fn(UserTribeView) -> bool {
    |m: UserTribeView| m.wallet_id == Some(wallet_id)
}

/// The memberships in which the account has admin rights.
pub open spec fn eligible_row(user: UserView) -> spec_fn(UserTribeView) -> bool {
    |m: UserTribeView| admin_eligible(user, m)
}

/// The bindings of the account; with `active_only`, the active ones.
pub open spec fn wallet_of(user_id: i64, active_only: bool) -> spec_fn(WalletBindingView) -> bool {
    |w: WalletBindingView| w.user_id == user_id && (active_only ==> w.is_active())
}

/// A binding with the tribes whose memberships rest on it.
pub open spec fn linked(w: WalletBindingView, rows: Seq<UserTribeView>) -> LinkedWalletView {
    LinkedWalletView {
        id: w.id,
        user_id: w.user_id,
        address: w.address,
        verified_at: w.verified_at,
        deleted_at: w.deleted_at,
        tribes: tribe_names(kept(rows, refers_to(w.id))),
    }
}

/// The bindings of the account, each with its tribes.
pub open spec fn linked_wallets(
    wallets: Seq<WalletBindingView>,
    rows: Seq<UserTribeView>,
    user_id: i64,
    active_only: bool,
) -> Seq<LinkedWalletView> {
    kept(wallets, wallet_of(user_id, active_only)).map_values(
        |w: WalletBindingView| linked(w, rows),
    )
}

/// The tribes of the memberships that rest on the binding `wallet_id`.
fn tribes_resting_on(rows: &Vec<UserTribe>, wallet_id: &str) -> (r: Vec<String>)
    ensures
        views_of(r@) == tribe_names(
            kept(rows@.map_values(|m: UserTribe| m@), refers_to(wallet_id@)),
        ),
{
    let ghost all = rows@.map_values(|m: UserTribe| m@);
    let mut out: Vec<String> = Vec::new();
    let mut i: usize = 0;
    assert(all.take(0) =~= Seq::<UserTribeView>::empty());
    assert(views_of(out@) =~= tribe_names(kept(all.take(0), refers_to(wallet_id@))));
    while i < rows.len()
        invariant
            i <= rows.len(),
            all == rows@.map_values(|m: UserTribe| m@),
            views_of(out@) == tribe_names(kept(all.take(i as int), refers_to(wallet_id@))),
        decreases rows.len() - i,
    {
        proof {
            lemma_kept_push(all.take(i as int), all[i as int], refers_to(wallet_id@));
            assert(all.take(i as int).push(all[i as int]) =~= all.take(i + 1));
        }
        if opt_text_is(&rows[i].wallet_id, wallet_id) {
            let ghost before = views_of(out@);
            out.push(rows[i].tribe.clone());
            assert(views_of(out@) =~= before.push(all[i as int].tribe));
            assert(tribe_names(
                kept(all.take(i as int), refers_to(wallet_id@)).push(all[i as int]),
            ) =~= before.push(all[i as int].tribe));
        }
        i = i + 1;
    }
    assert(all.take(rows.len() as int) =~= all);
    out
}

/// The wallet bindings of an account, each with the tribes whose
/// memberships rest on it; with `active_only`, the active bindings only.
pub fn wallets_of_user(db: &Registry, user_id: i64, active_only: bool) -> (r: Vec<LinkedWallet>)
    ensures
        r@.map_values(|w: LinkedWallet| w@) == linked_wallets(
            db@.wallets,
            db@.user_tribes,
            user_id,
            active_only,
        ),
{
    let wallets = db.wallets();
    let rows = db.user_tribes();
    let ghost all = db@.wallets;
    let ghost keep = wallet_of(user_id, active_only);
    let mut out: Vec<LinkedWallet> = Vec::new();
    let mut i: usize = 0;
    assert(all.take(0) =~= Seq::<WalletBindingView>::empty());
    assert(out@.map_values(|w: LinkedWallet| w@) =~= kept(all.take(0), keep).map_values(
        |w: WalletBindingView| linked(w, db@.user_tribes),
    ));
    while i < wallets.len()
        invariant
            i <= wallets.len(),
            all == wallets@.map_values(|w: WalletBinding| w@),
            all == db@.wallets,
            rows@.map_values(|m: UserTribe| m@) == db@.user_tribes,
            keep == wallet_of(user_id, active_only),
            out@.map_values(|w: LinkedWallet| w@) == kept(all.take(i as int), keep).map_values(
                |w: WalletBindingView| linked(w, db@.user_tribes),
            ),
        decreases wallets.len() - i,
    {
        proof {
            lemma_kept_push(all.take(i as int), all[i as int], keep);
            assert(all.take(i as int).push(all[i as int]) =~= all.take(i + 1));
        }
        let w = &wallets[i];
        if w.user_id == user_id && (!active_only || w.is_active()) {
            let ghost before = out@.map_values(|w: LinkedWallet| w@);
            let entry = LinkedWallet {
                id: w.id.clone(),
                user_id: w.user_id,
                address: w.address.clone(),
                verified_at: w.verified_at,
                deleted_at: w.deleted_at,
                tribes: tribes_resting_on(rows, w.id.as_str()),
            };
            assert(entry@ == linked(all[i as int], db@.user_tribes));
            out.push(entry);
            assert(out@.map_values(|w: LinkedWallet| w@) =~= before.push(entry@));
            assert(kept(all.take(i as int), keep).push(all[i as int]).map_values(
                |w: WalletBindingView| linked(w, db@.user_tribes),
            ) =~= before.push(entry@));
        }
        i = i + 1;
    }
    assert(all.take(wallets.len() as int) =~= all);
    out
}

/// The names of the tribes in which the account has admin rights, through
/// its global flag or the membership's own.
pub fn admin_tribes_of(user: &User, rows: &Vec<UserTribe>) -> (r: Vec<String>)
    ensures
        views_of(r@) == tribe_names(
            kept(rows@.map_values(|m: UserTribe| m@), eligible_row(user@)),
        ),
{
    let ghost all = rows@.map_values(|m: UserTribe| m@);
    let ghost keep = eligible_row(user@);
    let mut out: Vec<String> = Vec::new();
    let mut i: usize = 0;
    assert(all.take(0) =~= Seq::<UserTribeView>::empty());
    assert(views_of(out@) =~= tribe_names(kept(all.take(0), keep)));
    while i < rows.len()
        invariant
            i <= rows.len(),
            all == rows@.map_values(|m: UserTribe| m@),
            keep == eligible_row(user@),
            views_of(out@) == tribe_names(kept(all.take(i as int), keep)),
        decreases rows.len() - i,
    {
        proof {
            lemma_kept_push(all.take(i as int), all[i as int], keep);
            assert(all.take(i as int).push(all[i as int]) =~= all.take(i + 1));
        }
        if user.is_admin || rows[i].is_admin {
            let ghost before = views_of(out@);
            out.push(rows[i].tribe.clone());
            assert(views_of(out@) =~= before.push(all[i as int].tribe));
            assert(tribe_names(kept(all.take(i as int), keep).push(all[i as int])) =~= before.push(
                all[i as int].tribe,
            ));
        }
        i = i + 1;
    }
    assert(all.take(rows.len() as int) =~= all);
    out
}

/// An account as its owner or a super admin sees it.
#[derive(Debug)]
pub struct UserResponse {
    /// The account id, in decimal.
    pub id: String,
    pub discord_id: String,
    pub username: String,
    pub discriminator: String,
    pub avatar: Option<String>,
    pub tribes: Vec<String>,
    pub admin_tribes: Vec<String>,
    pub is_admin: bool,
    pub is_super_admin: bool,
    pub last_login_at: Option<i64>,
    pub wallets: Vec<LinkedWallet>,
}

/// What a profile says, given the account and the registry it lives in.
pub open spec fn profile_matches(
    response: UserResponse,
    user: UserView,
    wallets: Seq<WalletBindingView>,
    rows: Seq<UserTribeView>,
    flags: (bool, bool),
) -> bool {
    &&& response.id@ == decimal_of(user.id)
    &&& response.discord_id@ == user.discord_id
    &&& response.username@ == user.username
    &&& response.discriminator@ == user.discriminator
    &&& opt_text(response.avatar) == user.avatar
    &&& views_of(response.tribes@) == tribe_names(kept(rows, row_of(user.id)))
    &&& views_of(response.admin_tribes@) == tribe_names(
        kept(kept(rows, row_of(user.id)), eligible_row(user)),
    )
    &&& response.is_admin == user.is_admin
    &&& response.is_super_admin == flags.0
    &&& response.last_login_at == user.last_login_at
    &&& response.wallets@.map_values(|w: LinkedWallet| w@) == linked_wallets(
        wallets,
        rows,
        user.id,
        flags.1,
    )
}

/// Builds the profile of an account.
fn profile_of(db: &Registry, user: &User, is_super_admin: bool, active_only: bool) -> (r:
    UserResponse)
    ensures
        profile_matches(r, user@, db@.wallets, db@.user_tribes, (is_super_admin, active_only)),
{
    let rows = memberships_of(db, user.id);
    UserResponse {
        id: format_i64(user.id),
        discord_id: user.discord_id.clone(),
        username: user.username.clone(),
        discriminator: user.discriminator.clone(),
        avatar: clone_opt_text(&user.avatar),
        tribes: tribe_names_of(&rows),
        admin_tribes: admin_tribes_of(user, &rows),
        is_admin: user.is_admin,
        is_super_admin,
        last_login_at: user.last_login_at,
        wallets: wallets_of_user(db, user.id, active_only),
    }
}

/// The caller's own profile: the account, its tribes, the tribes it
/// administers, and its active wallet bindings. A caller without an account
/// is not authorized.
pub fn get_me(db: &Registry, auth_user: &AuthenticatedUser) -> (r: Result<UserResponse, AuthError>)
    requires
        db.wf(),
    ensures
        match r {
            Ok(response) => user_by_id(db@.users, auth_user.user_id) matches Some(u)
                && profile_matches(
                response,
                u,
                db@.wallets,
                db@.user_tribes,
                (auth_user.is_super_admin, true),
            ),
            Err(e) => e == AuthError::UserNotFound && user_by_id(db@.users, auth_user.user_id)
                is None,
        },
{
    match get_user_by_id(db, auth_user.user_id) {
        Some(u) => Ok(profile_of(db, &u, auth_user.is_super_admin, true)),
        None => Err(AuthError::UserNotFound),
    }
}

/// The most accounts that one listing shows.
pub const MAX_LISTED_USERS: usize = 100;

/// The key of an account in the given column.
pub open spec fn user_key(u: UserView, column: SortColumn) -> SortKeyView {
    match column {
        SortColumn::Username => SortKeyView::Text(encode_utf8(u.username)),
        SortColumn::LastLogin => SortKeyView::Time(u.last_login_at),
    }
}

/// The keys of a list of accounts in the given column.
pub open spec fn user_keys(users: Seq<UserView>, column: SortColumn) -> Seq<SortKeyView> {
    users.map_values(|u: UserView| user_key(u, column))
}

/// The number of wallet bindings of each account, as keys.
pub open spec fn count_keys(users: Seq<UserView>, wallets: Seq<WalletBindingView>) -> Seq<
    SortKeyView,
> {
    users.map_values(
        |u: UserView| SortKeyView::Count(kept(wallets, wallet_of(u.id, false)).len()),
    )
}

/// The keys of a list of tribes: their names.
pub open spec fn tribe_keys(tribes: Seq<TribeView>) -> Seq<SortKeyView> {
    tribes.map_values(|t: TribeView| SortKeyView::Text(encode_utf8(t.name)))
}

/// The keys of the accounts in the given column.
fn keys_of_users(users: &Vec<User>, column: SortColumn) -> (r: Vec<SortKey>)
    ensures
        keys_view(r@) == user_keys(users_view(users@), column),
{
    let mut keys: Vec<SortKey> = Vec::new();
    let mut i: usize = 0;
    while i < users.len()
        invariant
            i <= users.len(),
            keys.len() == i,
            forall|j: int|
                0 <= j < i ==> (#[trigger] keys@[j])@ == user_key(users_view(users@)[j], column),
        decreases users.len() - i,
    {
        let key = match column {
            SortColumn::Username => SortKey::Text(users[i].username.as_str().as_bytes_vec()),
            SortColumn::LastLogin => SortKey::Time(users[i].last_login_at),
        };
        keys.push(key);
        i = i + 1;
    }
    assert(keys_view(keys@) =~= user_keys(users_view(users@), column));
    keys
}

/// The numbers of wallet bindings of the accounts, as keys.
fn wallet_count_keys(db: &Registry, users: &Vec<User>) -> (r: Vec<SortKey>)
    ensures
        keys_view(r@) == count_keys(users_view(users@), db@.wallets),
{
    let mut keys: Vec<SortKey> = Vec::new();
    let mut i: usize = 0;
    while i < users.len()
        invariant
            i <= users.len(),
            keys.len() == i,
            forall|j: int|
                0 <= j < i ==> (#[trigger] keys@[j])@ == SortKeyView::Count(
                    kept(db@.wallets, wallet_of(users_view(users@)[j].id, false)).len(),
                ),
        decreases users.len() - i,
    {
        let wallets = wallets_of_user(db, users[i].id, false);
        assert(wallets@.map_values(|w: LinkedWallet| w@).len() == kept(
            db@.wallets,
            wallet_of(users@[i as int].id, false),
        ).len());
        keys.push(SortKey::Count(wallets.len()));
        i = i + 1;
    }
    assert(keys_view(keys@) =~= count_keys(users_view(users@), db@.wallets));
    keys
}

/// Copies the accounts in the given order of positions; in reverse where
/// `descending` is set.
fn arrange_users(users: &Vec<User>, order: &Vec<usize>, descending: bool) -> (r: Vec<User>)
    requires
        forall|i: int| 0 <= i < order.len() ==> (#[trigger] order@[i]) < users.len(),
    ensures
        users_view(r@) == arranged(users_view(users@), positions(order@), descending),
{
    let ghost want = arranged(users_view(users@), positions(order@), descending);
    let n = order.len();
    let mut out: Vec<User> = Vec::new();
    let mut i: usize = 0;
    while i < n
        invariant
            i <= n,
            n == order.len(),
            out.len() == i,
            want == arranged(users_view(users@), positions(order@), descending),
            forall|k: int| 0 <= k < order.len() ==> (#[trigger] order@[k]) < users.len(),
            forall|j: int| 0 <= j < i ==> (#[trigger] out@[j])@ == want[j],
        decreases n - i,
    {
        let at = if descending {
            order[n - 1 - i]
        } else {
            order[i]
        };
        let copy = users[at].clone();
        assert(copy@ == want[i as int]);
        out.push(copy);
        i = i + 1;
    }
    assert(users_view(out@) =~= want);
    out
}

/// The accounts that a listing shows: the first `MAX_LISTED_USERS` in the
/// order of their user names.
pub open spec fn listed_users(users: Seq<UserView>) -> Seq<UserView> {
    let ordered = sorted_by(users, user_keys(users, SortColumn::Username), false);
    if ordered.len() < MAX_LISTED_USERS {
        ordered
    } else {
        ordered.take(MAX_LISTED_USERS as int)
    }
}

/// The accounts as a super admin sees them: the first `MAX_LISTED_USERS`
/// accounts in the order of their user names, each with its tribes, the
/// tribes it administers, all its wallet bindings, and whether it is a super
/// admin.
pub fn list_users(db: &Registry, admins: &SuperAdmins) -> (r: Vec<UserResponse>)
    ensures
        r.len() == listed_users(db@.users).len(),
        forall|i: int|
            0 <= i < r.len() ==> profile_matches(
                #[trigger] r@[i],
                listed_users(db@.users)[i],
                db@.wallets,
                db@.user_tribes,
                (views_of(admins.ids@).contains(listed_users(db@.users)[i].discord_id), false),
            ),
{
    let users = db.users();
    let keys = keys_of_users(users, SortColumn::Username);
    let order = stable_order_of(&keys);
    let ghost ordered = sorted_by(db@.users, user_keys(db@.users, SortColumn::Username), false);
    let ghost listed = listed_users(db@.users);
    let mut out: Vec<UserResponse> = Vec::new();
    let mut i: usize = 0;
    while i < order.len() && i < MAX_LISTED_USERS
        invariant
            i <= order.len(),
            i <= MAX_LISTED_USERS,
            out.len() == i,
            users@.map_values(|u: User| u@) == db@.users,
            order.len() == users.len(),
            positions(order@) == stable_order(user_keys(db@.users, SortColumn::Username)),
            forall|k: int| 0 <= k < order.len() ==> (#[trigger] order@[k]) < users.len(),
            ordered == sorted_by(db@.users, user_keys(db@.users, SortColumn::Username), false),
            listed == listed_users(db@.users),
            forall|j: int|
                0 <= j < i ==> profile_matches(
                    #[trigger] out@[j],
                    listed[j],
                    db@.wallets,
                    db@.user_tribes,
                    (views_of(admins.ids@).contains(listed[j].discord_id), false),
                ),
        decreases order.len() - i,
    {
        let user = &users[order[i]];
        assert(user@ == ordered[i as int]);
        assert(ordered[i as int] == listed[i as int]);
        let is_super_admin = admins.contains(user.discord_id.as_str());
        let entry = profile_of(db, user, is_super_admin, false);
        out.push(entry);
        i = i + 1;
    }
    out
}

/// The names of all tribes, in the order of the names.
pub fn list_tribes(db: &Registry) -> (r: Vec<String>)
    ensures
        views_of(r@) == sorted_by(db@.tribes, tribe_keys(db@.tribes), false).map_values(
            |t: TribeView| t.name,
        ),
{
    let tribes = db.tribes();
    let mut keys: Vec<SortKey> = Vec::new();
    let mut k: usize = 0;
    while k < tribes.len()
        invariant
            k <= tribes.len(),
            keys.len() == k,
            tribes@.map_values(|t: Tribe| t@) == db@.tribes,
            forall|j: int|
                0 <= j < k ==> (#[trigger] keys@[j])@ == SortKeyView::Text(
                    encode_utf8(db@.tribes[j].name),
                ),
        decreases tribes.len() - k,
    {
        keys.push(SortKey::Text(tribes[k].name.as_str().as_bytes_vec()));
        k = k + 1;
    }
    assert(keys_view(keys@) =~= tribe_keys(db@.tribes));
    let order = stable_order_of(&keys);
    let ghost ordered = sorted_by(db@.tribes, tribe_keys(db@.tribes), false);
    let mut out: Vec<String> = Vec::new();
    let mut i: usize = 0;
    while i < order.len()
        invariant
            i <= order.len(),
            out.len() == i,
            tribes@.map_values(|t: Tribe| t@) == db@.tribes,
            order.len() == tribes.len(),
            positions(order@) == stable_order(tribe_keys(db@.tribes)),
            forall|k: int| 0 <= k < order.len() ==> (#[trigger] order@[k]) < tribes.len(),
            ordered == sorted_by(db@.tribes, tribe_keys(db@.tribes), false),
            forall|j: int| 0 <= j < i ==> (#[trigger] out@[j])@ == ordered[j].name,
        decreases order.len() - i,
    {
        let tribe = &tribes[order[i]];
        assert(tribe@ == ordered[i as int]);
        out.push(tribe.name.clone());
        i = i + 1;
    }
    assert(views_of(out@) =~= ordered.map_values(|t: TribeView| t.name));
    out
}

/// The accounts that are members of the tribe.
pub open spec fn member_of(rows: Seq<UserTribeView>, tribe: Seq<char>) -> spec_fn(UserView) -> bool {
    |u: UserView| is_member(rows, u.id, tribe)
}

/// What a roster entry says of an account.
pub open spec fn roster_entry_matches(
    entry: RosterMember,
    user: UserView,
    wallets: Seq<WalletBindingView>,
    rows: Seq<UserTribeView>,
) -> bool {
    &&& entry.discord_id@ == user.discord_id
    &&& entry.username@ == user.username
    &&& opt_text(entry.avatar) == user.avatar
    &&& entry.last_login_at == user.last_login_at
    &&& entry.wallets@.map_values(|w: LinkedWallet| w@) == linked_wallets(
        wallets,
        rows,
        user.id,
        false,
    )
    &&& entry.audits is None
}

fn roster_entry(db: &Registry, user: &User) -> (r: RosterMember)
    ensures
        roster_entry_matches(r, user@, db@.wallets, db@.user_tribes),
{
    RosterMember {
        discord_id: user.discord_id.clone(),
        username: user.username.clone(),
        avatar: clone_opt_text(&user.avatar),
        last_login_at: user.last_login_at,
        wallets: wallets_of_user(db, user.id, false),
        audits: None,
    }
}

/// The members of the tribe, in the registry's order, each with all its
/// wallet bindings.
pub fn members_of_tribe(db: &Registry, tribe: &str) -> (r: Vec<RosterMember>)
    ensures
        r.len() == kept(db@.users, member_of(db@.user_tribes, tribe@)).len(),
        forall|i: int|
            0 <= i < r.len() ==> roster_entry_matches(
                #[trigger] r@[i],
                kept(db@.users, member_of(db@.user_tribes, tribe@))[i],
                db@.wallets,
                db@.user_tribes,
            ),
{
    let users = db.users();
    let rows = db.user_tribes();
    let ghost all = db@.users;
    let ghost keep = member_of(db@.user_tribes, tribe@);
    let mut out: Vec<RosterMember> = Vec::new();
    let mut i: usize = 0;
    assert(all.take(0) =~= Seq::<UserView>::empty());
    while i < users.len()
        invariant
            i <= users.len(),
            all == users@.map_values(|u: User| u@),
            all == db@.users,
            rows@.map_values(|m: UserTribe| m@) == db@.user_tribes,
            keep == member_of(db@.user_tribes, tribe@),
            out.len() == kept(all.take(i as int), keep).len(),
            forall|j: int|
                0 <= j < out.len() ==> roster_entry_matches(
                    #[trigger] out@[j],
                    kept(all.take(i as int), keep)[j],
                    db@.wallets,
                    db@.user_tribes,
                ),
        decreases users.len() - i,
    {
        proof {
            lemma_kept_push(all.take(i as int), all[i as int], keep);
            assert(all.take(i as int).push(all[i as int]) =~= all.take(i + 1));
        }
        if find_membership(rows, users[i].id, tribe).is_some() {
            let entry = roster_entry(db, &users[i]);
            out.push(entry);
        }
        i = i + 1;
    }
    assert(all.take(users.len() as int) =~= all);
    out
}

/// Whether an account is found by a search: there is no pattern, or its
/// user name or its external identity matches the pattern.
pub open spec fn found_by(u: UserView, pattern: Option<Seq<char>>) -> bool {
    match pattern {
        Some(p) => like(p, u.username) || like(p, u.discord_id),
        None => true,
    }
}

/// The members of the tribe that a search finds.
pub open spec fn on_roster(
    rows: Seq<UserTribeView>,
    tribe: Seq<char>,
    pattern: Option<Seq<char>>,
) -> spec_fn(UserView) -> bool {
    |u: UserView| is_member(rows, u.id, tribe) && found_by(u, pattern)
}

/// The members of the tribe that the search finds, copied, in the
/// registry's order.
fn users_in_tribe(db: &Registry, tribe: &str, pattern: &Option<String>) -> (r: Vec<User>)
    ensures
        users_view(r@) == kept(db@.users, on_roster(db@.user_tribes, tribe@, opt_text(*pattern))),
{
    let users = db.users();
    let rows = db.user_tribes();
    let ghost all = db@.users;
    let ghost keep = on_roster(db@.user_tribes, tribe@, opt_text(*pattern));
    let wanted: Option<Vec<char>> = match pattern {
        Some(p) => Some(chars_of(p.as_str())),
        None => None,
    };
    let mut out: Vec<User> = Vec::new();
    let mut i: usize = 0;
    assert(all.take(0) =~= Seq::<UserView>::empty());
    assert(users_view(out@) =~= kept(all.take(0), keep));
    while i < users.len()
        invariant
            i <= users.len(),
            all == users@.map_values(|u: User| u@),
            all == db@.users,
            rows@.map_values(|m: UserTribe| m@) == db@.user_tribes,
            keep == on_roster(db@.user_tribes, tribe@, opt_text(*pattern)),
            match wanted {
                Some(w) => opt_text(*pattern) == Some(w@),
                None => opt_text(*pattern) is None,
            },
            users_view(out@) == kept(all.take(i as int), keep),
        decreases users.len() - i,
    {
        proof {
            lemma_kept_push(all.take(i as int), all[i as int], keep);
            assert(all.take(i as int).push(all[i as int]) =~= all.take(i + 1));
        }
        let member = find_membership(rows, users[i].id, tribe).is_some();
        let found = match &wanted {
            Some(w) => like_exec(w, &chars_of(users[i].username.as_str())) || like_exec(
                w,
                &chars_of(users[i].discord_id.as_str()),
            ),
            None => true,
        };
        if member && found {
            let ghost before = users_view(out@);
            out.push(users[i].clone());
            assert(users_view(out@) =~= before.push(all[i as int]));
        }
        i = i + 1;
    }
    assert(all.take(users.len() as int) =~= all);
    out
}

/// The accounts on the roster of a tribe, in the order that the query asks
/// for: the members of the tribe that the query's search finds, ordered by
/// the planned column (user name, or time of last login), downwards where
/// the query says so; and, where the query sorts by wallets, ordered by the
/// number of wallet bindings after that, members with equal numbers keeping
/// their order, again downwards where the query says so.
pub open spec fn roster_users(
    reg: RegistryView,
    tribe: Seq<char>,
    sort: Option<Seq<char>>,
    order: Option<Seq<char>>,
    search: Option<Seq<char>>,
) -> Seq<UserView> {
    let members = kept(reg.users, on_roster(reg.user_tribes, tribe, planned_pattern(search)));
    let descending = planned_descending(order);
    let by_column = sorted_by(members, user_keys(members, planned_column(sort)), descending);
    if planned_by_count(sort) {
        sorted_by(by_column, count_keys(by_column, reg.wallets), descending)
    } else {
        by_column
    }
}

/// The key by which a roster is ordered in the end: the number of wallet
/// bindings where the query sorts by wallets, else the planned column.
pub open spec fn roster_key(reg: RegistryView, sort: Option<Seq<char>>) -> spec_fn(
    UserView,
) -> SortKeyView {
    |u: UserView|
        if planned_by_count(sort) {
            SortKeyView::Count(kept(reg.wallets, wallet_of(u.id, false)).len())
        } else {
            user_key(u, planned_column(sort))
        }
}

/// A roster holds the members of the tribe that the search finds, each
/// once, and no one else.
pub proof fn lemma_roster_holds_the_members(
    reg: RegistryView,
    tribe: Seq<char>,
    sort: Option<Seq<char>>,
    order: Option<Seq<char>>,
    search: Option<Seq<char>>,
)
    ensures
        ({
            let roster = roster_users(reg, tribe, sort, order, search);
            let keep = on_roster(reg.user_tribes, tribe, planned_pattern(search));
            &&& roster.len() == kept(reg.users, keep).len()
            &&& forall|i: int|
                0 <= i < roster.len() ==> reg.users.contains(#[trigger] roster[i]) && keep(
                    roster[i],
                )
            &&& forall|k: int|
                0 <= k < reg.users.len() && keep(#[trigger] reg.users[k]) ==> roster.contains(
                    reg.users[k],
                )
        }),
{
    let roster = roster_users(reg, tribe, sort, order, search);
    let keep = on_roster(reg.user_tribes, tribe, planned_pattern(search));
    let members = kept(reg.users, keep);
    let descending = planned_descending(order);
    let by_column = sorted_by(members, user_keys(members, planned_column(sort)), descending);
    let origin = lemma_kept_origin(reg.users, keep);
    lemma_sorted_by_holds_the_rows(members, user_keys(members, planned_column(sort)), descending);
    lemma_sorted_by_holds_the_rows(by_column, count_keys(by_column, reg.wallets), descending);
    assert forall|i: int| 0 <= i < roster.len() implies reg.users.contains(#[trigger] roster[i])
        && keep(roster[i]) by {
        assert(by_column.contains(roster[i])) by {
            if planned_by_count(sort) {
                assert(by_column.contains(
                    sorted_by(by_column, count_keys(by_column, reg.wallets), descending)[i],
                ));
            }
        }
        let a = choose|a: int| 0 <= a < by_column.len() && by_column[a] == roster[i];
        assert(members.contains(by_column[a]));
        let b = choose|b: int| 0 <= b < members.len() && members[b] == roster[i];
        assert(members[b] == reg.users[origin[b]]);
    }
    assert forall|k: int| 0 <= k < reg.users.len() && keep(#[trigger] reg.users[k]) implies roster.contains(
        reg.users[k],
    ) by {
        let b = choose|b: int| 0 <= b < origin.len() && #[trigger] origin[b] == k;
        assert(members[b] == reg.users[k]);
        assert(by_column.contains(members[b]));
        let a = choose|a: int| 0 <= a < by_column.len() && by_column[a] == reg.users[k];
        if planned_by_count(sort) {
            assert(roster.contains(by_column[a]));
        }
    }
}

/// A roster is in the order that the query asks for: the keys of its
/// entries rise, or fall where the query says so.
pub proof fn lemma_roster_is_ordered(
    reg: RegistryView,
    tribe: Seq<char>,
    sort: Option<Seq<char>>,
    order: Option<Seq<char>>,
    search: Option<Seq<char>>,
)
    ensures
        ({
            let roster = roster_users(reg, tribe, sort, order, search);
            let key = roster_key(reg, sort);
            forall|i: int, j: int|
                0 <= i < j < roster.len() ==> if planned_descending(order) {
                    key_le(key(#[trigger] roster[j]), key(#[trigger] roster[i]))
                } else {
                    key_le(key(roster[i]), key(roster[j]))
                }
        }),
{
    let roster = roster_users(reg, tribe, sort, order, search);
    let key = roster_key(reg, sort);
    let keep = on_roster(reg.user_tribes, tribe, planned_pattern(search));
    let members = kept(reg.users, keep);
    let descending = planned_descending(order);
    let by_column = sorted_by(members, user_keys(members, planned_column(sort)), descending);
    let rows = if planned_by_count(sort) {
        by_column
    } else {
        members
    };
    let keys = rows.map_values(key);
    assert(keys =~= if planned_by_count(sort) {
        count_keys(by_column, reg.wallets)
    } else {
        user_keys(members, planned_column(sort))
    });
    assert(roster == sorted_by(rows, keys, descending));
    lemma_sorted_by_carries_keys(rows, key, descending);
    lemma_sorted_by_is_ordered(keys, descending);
    let by_place = sorted_by(keys, keys, descending);
    assert forall|i: int, j: int| 0 <= i < j < roster.len() implies if descending {
        key_le(key(#[trigger] roster[j]), key(#[trigger] roster[i]))
    } else {
        key_le(key(roster[i]), key(roster[j]))
    } by {
        assert(roster.map_values(key)[i] == key(roster[i]));
        assert(roster.map_values(key)[j] == key(roster[j]));
        assert(by_place[i] == key(roster[i]));
        assert(by_place[j] == key(roster[j]));
    }
}

/// The entries are those of the accounts, one for one and in order.
pub open spec fn roster_matches(
    entries: Seq<RosterMember>,
    users: Seq<UserView>,
    wallets: Seq<WalletBindingView>,
    rows: Seq<UserTribeView>,
) -> bool {
    &&& entries.len() == users.len()
    &&& forall|i: int|
        0 <= i < entries.len() ==> roster_entry_matches(
            #[trigger] entries[i],
            users[i],
            wallets,
            rows,
        )
}

/// The registry after a look at the roster of `tribe` by `viewer_id`: the
/// look is recorded, unless the store refuses the drawn id because it is in
/// use; nothing else changes either way.
pub open spec fn roster_viewed(
    before: RegistryView,
    viewer_id: i64,
    tribe: Seq<char>,
    drawn: (Seq<char>, i64),
) -> RegistryView {
    if has_audit_id(before.audit_logs, drawn.0) {
        before
    } else {
        before.logged(
            drawn.0,
            AuditAction::ViewRoster,
            viewer_id,
            None,
            "Viewed roster for tribe "@ + tribe,
            drawn.1,
        )
    }
}

/// What a request for a roster did, for the id and the time that were
/// drawn.
pub open spec fn get_roster_post(
    before: RegistryView,
    after: RegistryView,
    r: Result<Vec<RosterMember>, AccessError>,
    request: (i64, Option<Seq<char>>, Option<Seq<char>>, Option<Seq<char>>, Option<Seq<char>>),
    drawn: (Seq<char>, i64),
) -> bool {
    match roster_access(
        resolved_tribe(
            user_by_id(before.users, request.0),
            kept(before.user_tribes, row_of(request.0)),
            request.1,
        ),
    ) {
        Err(e) => r == Err::<Vec<RosterMember>, AccessError>(e) && after == before,
        Ok(None) => r matches Ok(members) && members.len() == 0 && after == before,
        Ok(Some(tribe)) => {
            &&& r matches Ok(members)
            &&& roster_matches(
                members@,
                roster_users(before, tribe, request.2, request.3, request.4),
                before.wallets,
                before.user_tribes,
            )
            &&& after == roster_viewed(before, request.0, tribe, drawn)
        },
    }
}

/// The roster of the tribe that the caller administers: its members in the
/// order that the query asks for, each with all its wallet bindings. The
/// look is recorded in the audit log. A caller in no tribe sees an empty
/// roster, and nothing is recorded; any other failure to resolve the tribe
/// is an error.
pub fn get_roster(db: &mut Registry, auth_user: &AuthenticatedUser, query: &RosterQuery) -> (r:
    Result<Vec<RosterMember>, AccessError>)
    requires
        old(db).wf(),
    ensures
        final(db).wf(),
        exists|drawn: (Seq<char>, i64)|
            well_drawn(drawn.0, drawn.1) && get_roster_post(
                old(db)@,
                final(db)@,
                r,
                (
                    auth_user.user_id,
                    opt_text(query.tribe),
                    opt_text(query.sort),
                    opt_text(query.order),
                    opt_text(query.search),
                ),
                drawn,
            ),
{
    let id = fresh_uuid();
    let now = now_millis();
    let ghost drawn = (id@, now);
    let ghost before = db@;
    let ghost request = (
        auth_user.user_id,
        opt_text(query.tribe),
        opt_text(query.sort),
        opt_text(query.order),
        opt_text(query.search),
    );
    let named = match &query.tribe {
        Some(t) => Some(t.as_str()),
        None => None,
    };
    assert(opt_str_view(named) == opt_text(query.tribe));
    let r = match roster_scope(require_admin_in_tribe(db, auth_user.user_id, named)) {
        Ok(Some((_, tribe))) => {
            let plan = plan_roster(query);
            let members = users_in_tribe(db, tribe.as_str(), &plan.search_pattern);
            let keys = keys_of_users(&members, plan.column);
            let order = stable_order_of(&keys);
            let mut users = arrange_users(&members, &order, plan.descending);
            if plan.by_wallet_count {
                let counts = wallet_count_keys(db, &users);
                let by_count = stable_order_of(&counts);
                users = arrange_users(&users, &by_count, plan.descending);
            }
            assert(users_view(users@) == roster_users(
                before,
                tribe@,
                request.2,
                request.3,
                request.4,
            ));
            let mut entries: Vec<RosterMember> = Vec::new();
            let mut i: usize = 0;
            while i < users.len()
                invariant
                    i <= users.len(),
                    entries.len() == i,
                    db@ == before,
                    forall|j: int|
                        0 <= j < i ==> roster_entry_matches(
                            #[trigger] entries@[j],
                            users_view(users@)[j],
                            before.wallets,
                            before.user_tribes,
                        ),
                decreases users.len() - i,
            {
                let entry = roster_entry(db, &users[i]);
                entries.push(entry);
                i = i + 1;
            }
            let details = concat2("Viewed roster for tribe ", tribe.as_str());
            let _recorded = db.log_audit(
                id,
                AuditAction::ViewRoster,
                auth_user.user_id,
                None,
                details.as_str(),
                now,
            );
            assert(db@ == roster_viewed(before, auth_user.user_id, tribe@, drawn));
            Ok(entries)
        },
        Ok(None) => Ok(Vec::new()),
        Err(e) => Err(e),
    };
    assert(get_roster_post(before, db@, r, request, drawn));
    r
}

/// Why a member's details were not shown.
#[derive(Debug, Clone, Copy, PartialEq, Eq, Structural)]
pub enum MemberError {
    /// The caller may not act as admin of the tribe.
    Access(AccessError),
    /// No account has the external identity.
    MemberNotFound,
    /// The account is not a member of the tribe.
    NotInTribe,
}

impl MemberError {
    /// The HTTP status that reports the error.
    pub open spec fn status_spec(self) -> u16 {
        match self {
            MemberError::Access(e) => e.status_spec(),
            MemberError::MemberNotFound => 404,
            MemberError::NotInTribe => 403,
        }
    }

    pub fn status(&self) -> (r: u16)
        ensures
            r == self.status_spec(),
    {
        match self {
            MemberError::Access(e) => e.status(),
            MemberError::MemberNotFound => 404,
            MemberError::NotInTribe => 403,
        }
    }
}

/// Decides whether the caller may see the details of the member `target`
/// of the tribe `tribe`, given how the resolution of the caller's tribe went.
/// Yields the viewer's id, the member, and whether the look is recorded.
pub fn get_roster_member(
    resolution: Result<(User, String, Vec<String>), AccessError>,
    target: Option<User>,
    target_tribes: &Vec<String>,
) -> (r: Result<(User, bool), MemberError>)
    ensures
        match r {
            Ok((member, recorded)) => {
                &&& resolution matches Ok(ctx)
                &&& target matches Some(t)
                &&& views_of(target_tribes@).contains(ctx.1@)
                &&& member == t
                &&& recorded == (ctx.0.id != t.id)
            },
            Err(MemberError::Access(e)) => resolution == Err::<
                (User, String, Vec<String>),
                AccessError,
            >(e),
            Err(MemberError::MemberNotFound) => resolution is Ok && target is None,
            Err(MemberError::NotInTribe) => resolution matches Ok(ctx) && target is Some
                && !views_of(target_tribes@).contains(ctx.1@),
        },
{
    let (current_user, tribe, _) = match resolution {
        Ok(ctx) => ctx,
        Err(e) => {
            return Err(MemberError::Access(e));
        },
    };
    let member = match target {
        Some(t) => t,
        None => {
            return Err(MemberError::MemberNotFound);
        },
    };
    if !crate::text::contains_text(target_tribes, tribe.as_str()) {
        return Err(MemberError::NotInTribe);
    }
    let recorded = crate::roster::records_member_view(current_user.id, member.id);
    Ok((member, recorded))
}

/// The audit entries that concern an account: those that target it, and
/// those that it made on itself.
pub open spec fn about_member(id: i64) -> spec_fn(AuditLogEntryView) -> bool {
    |e: AuditLogEntryView| e.target_id == Some(id) || (e.actor_id == id && e.target_id is None)
}

/// The audit entries that an account made.
pub open spec fn made_by(id: i64) -> spec_fn(AuditLogEntryView) -> bool {
    |e: AuditLogEntryView| e.actor_id == id
}

/// The views of a list of audit entries.
pub open spec fn entries_view(entries: Seq<AuditLogEntry>) -> Seq<AuditLogEntryView> {
    entries.map_values(|e: AuditLogEntry| e@)
}

/// The audit entries that concern the account, oldest first.
pub fn audits_about(db: &Registry, member_id: i64) -> (r: Vec<AuditLogEntry>)
    ensures
        entries_view(r@) == kept(db@.audit_logs, about_member(member_id)),
{
    let logs = db.audit_logs();
    let ghost all = db@.audit_logs;
    let ghost keep = about_member(member_id);
    let mut out: Vec<AuditLogEntry> = Vec::new();
    let mut i: usize = 0;
    assert(all.take(0) =~= Seq::<AuditLogEntryView>::empty());
    assert(entries_view(out@) =~= kept(all.take(0), keep));
    while i < logs.len()
        invariant
            i <= logs.len(),
            all == logs@.map_values(|e: AuditLogEntry| e@),
            keep == about_member(member_id),
            entries_view(out@) == kept(all.take(i as int), keep),
        decreases logs.len() - i,
    {
        proof {
            lemma_kept_push(all.take(i as int), all[i as int], keep);
            assert(all.take(i as int).push(all[i as int]) =~= all.take(i + 1));
        }
        let e = &logs[i];
        let targets = match e.target_id {
            Some(t) => t == member_id,
            None => e.actor_id == member_id,
        };
        if targets {
            let ghost before = entries_view(out@);
            out.push(e.clone());
            assert(entries_view(out@) =~= before.push(all[i as int]));
        }
        i = i + 1;
    }
    assert(all.take(logs.len() as int) =~= all);
    out
}

/// The audit entries that the account made, oldest first.
pub fn audits_by(db: &Registry, actor_id: i64) -> (r: Vec<AuditLogEntry>)
    ensures
        entries_view(r@) == kept(db@.audit_logs, made_by(actor_id)),
{
    let logs = db.audit_logs();
    let ghost all = db@.audit_logs;
    let ghost keep = made_by(actor_id);
    let mut out: Vec<AuditLogEntry> = Vec::new();
    let mut i: usize = 0;
    assert(all.take(0) =~= Seq::<AuditLogEntryView>::empty());
    assert(entries_view(out@) =~= kept(all.take(0), keep));
    while i < logs.len()
        invariant
            i <= logs.len(),
            all == logs@.map_values(|e: AuditLogEntry| e@),
            keep == made_by(actor_id),
            entries_view(out@) == kept(all.take(i as int), keep),
        decreases logs.len() - i,
    {
        proof {
            lemma_kept_push(all.take(i as int), all[i as int], keep);
            assert(all.take(i as int).push(all[i as int]) =~= all.take(i + 1));
        }
        if logs[i].actor_id == actor_id {
            let ghost before = entries_view(out@);
            out.push(logs[i].clone());
            assert(entries_view(out@) =~= before.push(all[i as int]));
        }
        i = i + 1;
    }
    assert(all.take(logs.len() as int) =~= all);
    out
}

/// A bound of a page, clipped to the list.
pub open spec fn clipped(bound: int, len: nat) -> int {
    if bound < 0 {
        0
    } else if bound > len {
        len as int
    } else {
        bound
    }
}

/// The entries that a page shows, newest first: of the list in reverse,
/// those from the window's offset on, as many as fit the page.
pub open spec fn page_of<T>(entries: Seq<T>, window: PageWindow) -> Seq<T> {
    let from = clipped(window.offset as int, entries.len());
    let to = clipped(window.offset + window.per_page, entries.len());
    if from < to {
        entries.reverse().subrange(from, to)
    } else {
        Seq::<T>::empty()
    }
}

/// Cuts one page out of a list of audit entries that is ordered oldest
/// first. The page shows the newest entries first.
pub fn page_of_audits(entries: &Vec<AuditLogEntry>, window: &PageWindow) -> (r: Vec<AuditLogEntry>)
    ensures
        entries_view(r@) == page_of(entries_view(entries@), *window),
{
    let len = entries.len();
    let ghost all = entries_view(entries@);
    let mut out: Vec<AuditLogEntry> = Vec::new();
    if window.offset < 0 && window.per_page < 0 {
        assert(entries_view(out@) =~= page_of(all, *window));
        return out;
    }
    let wide_from: i128 = if window.offset < 0 {
        0
    } else {
        window.offset as i128
    };
    let wide_to: i128 = (window.offset as i128) + (window.per_page as i128);
    let from: usize = if wide_from > (len as i128) {
        len
    } else {
        wide_from as usize
    };
    let to: usize = if wide_to < 0 {
        0
    } else if wide_to > (len as i128) {
        len
    } else {
        wide_to as usize
    };
    assert(from == clipped(window.offset as int, all.len()));
    assert(to == clipped(window.offset + window.per_page, all.len()));
    if from >= to {
        assert(entries_view(out@) =~= page_of(all, *window));
        return out;
    }
    let mut k: usize = from;
    while k < to
        invariant
            from <= k <= to <= len,
            len == entries.len(),
            all == entries_view(entries@),
            entries_view(out@) == all.reverse().subrange(from as int, k as int),
        decreases to - k,
    {
        let ghost before = entries_view(out@);
        out.push(entries[len - 1 - k].clone());
        assert(entries_view(out@) =~= before.push(all[len - 1 - k]));
        assert(all.reverse()[k as int] == all[len - 1 - k]);
        assert(all.reverse().subrange(from as int, k as int).push(all.reverse()[k as int])
            =~= all.reverse().subrange(from as int, k + 1));
        k = k + 1;
    }
    out
}

/// The notes that a look at a member shows: those on the member in the
/// tribe whose author has an account.
pub open spec fn note_on(users: Seq<UserView>, target_user_id: i64, tribe: Seq<char>) -> spec_fn(
    NoteView,
) -> bool {
    |n: NoteView| n.target_user_id == target_user_id && n.tribe == tribe && has_user(users, n.author_id)
}

/// The times at which the notes were written, as keys.
pub open spec fn note_keys(notes: Seq<NoteView>) -> Seq<SortKeyView> {
    notes.map_values(|n: NoteView| SortKeyView::Time(Some(n.created_at)))
}

/// A note with the public name of its author.
pub open spec fn with_author(users: Seq<UserView>) -> spec_fn(NoteView) -> NoteWithAuthorView {
    |n: NoteView|
        {
            let author = users[index_of_user(users, n.author_id)];
            NoteWithAuthorView {
                id: n.id,
                target_user_id: n.target_user_id,
                author_id: n.author_id,
                tribe: n.tribe,
                content: n.content,
                created_at: n.created_at,
                updated_at: n.updated_at,
                author_username: author.username,
                author_discriminator: author.discriminator,
            }
        }
}

/// The notes on a member in a tribe as they are shown: newest first, each
/// with its author's public name.
pub open spec fn notes_shown(reg: RegistryView, target_user_id: i64, tribe: Seq<char>) -> Seq<
    NoteWithAuthorView,
> {
    let found = kept(reg.notes, note_on(reg.users, target_user_id, tribe));
    sorted_by(found, note_keys(found), true).map_values(with_author(reg.users))
}

/// The views of a list of notes.
pub open spec fn notes_view(notes: Seq<Note>) -> Seq<NoteView> {
    notes.map_values(|n: Note| n@)
}

/// The notes on the member in the tribe whose author has an account, copied,
/// oldest first.
fn notes_found(db: &Registry, target_user_id: i64, tribe: &str) -> (r: Vec<Note>)
    ensures
        notes_view(r@) == kept(db@.notes, note_on(db@.users, target_user_id, tribe@)),
{
    let notes = db.notes();
    let users = db.users();
    let ghost all = db@.notes;
    let ghost keep = note_on(db@.users, target_user_id, tribe@);
    let mut out: Vec<Note> = Vec::new();
    let mut i: usize = 0;
    assert(all.take(0) =~= Seq::<NoteView>::empty());
    assert(notes_view(out@) =~= kept(all.take(0), keep));
    while i < notes.len()
        invariant
            i <= notes.len(),
            all == notes@.map_values(|n: Note| n@),
            users_view(users@) == db@.users,
            keep == note_on(db@.users, target_user_id, tribe@),
            notes_view(out@) == kept(all.take(i as int), keep),
        decreases notes.len() - i,
    {
        proof {
            lemma_kept_push(all.take(i as int), all[i as int], keep);
            assert(all.take(i as int).push(all[i as int]) =~= all.take(i + 1));
        }
        let n = &notes[i];
        if n.target_user_id == target_user_id && same_text(n.tribe.as_str(), tribe) && find_user(
            users,
            n.author_id,
        ).is_some() {
            let ghost before = notes_view(out@);
            out.push(n.clone());
            assert(notes_view(out@) =~= before.push(all[i as int]));
        }
        i = i + 1;
    }
    assert(all.take(notes.len() as int) =~= all);
    out
}

/// The notes on a member in a tribe, newest first, each with its author's
/// public name. A note whose author has no account is not shown.
pub fn notes_on(db: &Registry, target_user_id: i64, tribe: &str) -> (r: Vec<NoteWithAuthor>)
    requires
        db.wf(),
    ensures
        r@.map_values(|n: NoteWithAuthor| n@) == notes_shown(db@, target_user_id, tribe@),
{
    let users = db.users();
    let found = notes_found(db, target_user_id, tribe);
    let ghost keep = note_on(db@.users, target_user_id, tribe@);
    let ghost rows = notes_view(found@);
    let mut keys: Vec<SortKey> = Vec::new();
    let mut i: usize = 0;
    while i < found.len()
        invariant
            i <= found.len(),
            keys.len() == i,
            rows == notes_view(found@),
            forall|j: int|
                0 <= j < i ==> (#[trigger] keys@[j])@ == SortKeyView::Time(Some(rows[j].created_at)),
        decreases found.len() - i,
    {
        keys.push(SortKey::Time(Some(found[i].created_at)));
        i = i + 1;
    }
    assert(keys_view(keys@) =~= note_keys(rows));
    let order = stable_order_of(&keys);
    let ghost want = notes_shown(db@, target_user_id, tribe@);
    let ghost origin = lemma_kept_origin(db@.notes, keep);
    let n = order.len();
    let mut out: Vec<NoteWithAuthor> = Vec::new();
    let mut k: usize = 0;
    while k < n
        invariant
            k <= n,
            n == order.len(),
            n == found.len(),
            db.wf(),
            users_view(users@) == db@.users,
            rows == notes_view(found@),
            rows == kept(db@.notes, keep),
            keep == note_on(db@.users, target_user_id, tribe@),
            is_origin(db@.notes, keep, origin),
            positions(order@) == stable_order(note_keys(rows)),
            forall|j: int| 0 <= j < order.len() ==> (#[trigger] order@[j]) < found.len(),
            want == notes_shown(db@, target_user_id, tribe@),
            out.len() == k,
            forall|j: int| 0 <= j < k ==> (#[trigger] out@[j])@ == want[j],
        decreases n - k,
    {
        let at = order[n - 1 - k];
        let note = &found[at];
        assert(note@ == rows[at as int]);
        assert(keep(db@.notes[origin[at as int]]));
        assert(has_user(db@.users, note.author_id));
        assert(positions(order@)[n - 1 - k] == at);
        assert(sorted_by(rows, note_keys(rows), true)[k as int] == rows[at as int]);
        let a = match find_user(users, note.author_id) {
            Some(a) => a,
            None => unreached(),
        };
        proof {
            lemma_index_of_user(db@, a as int);
        }
        let entry = NoteWithAuthor {
            id: note.id.clone(),
            target_user_id: note.target_user_id,
            author_id: note.author_id,
            tribe: note.tribe.clone(),
            content: note.content.clone(),
            created_at: note.created_at,
            updated_at: note.updated_at,
            author_username: users[a].username.clone(),
            author_discriminator: users[a].discriminator.clone(),
        };
        assert(entry@ == want[k as int]);
        out.push(entry);
        k = k + 1;
    }
    assert(out@.map_values(|n: NoteWithAuthor| n@) =~= want);
    out
}

} // verus!
