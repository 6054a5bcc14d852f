//! The request handlers' work on the registry. Each handler draws the ids
//! and the time it needs, and hands them with the request to the registry,
//! which decides and writes. A handler therefore promises what the registry
//! promises, for the ids and the time that were drawn.

use vstd::prelude::*;
use crate::admin::{
    AddUserToTribeRequest, AdminError, CreateTribeRequest, UpdateUserRequest,
};
use crate::audit::AuditAction;
use crate::auth::{AuthenticatedUser, RequireSuperAdmin};
use crate::errors::ErrorKind;
use crate::access::{resolved_tribe, AccessError};
use crate::helpers::{get_user_by_discord_id, require_admin_in_tribe, row_of, user_by_id};
use crate::roster::{GrantAdminRequest, MemberQuery};
use crate::seqs::kept;
use crate::models::{DiscordProfile, DiscordProfileView};
use crate::platform::{fresh_uuid, now_millis, random_i64, random_u64};
use crate::registry::{
    LoginError, LoginOutcome, Registry, RegistryView, UnlinkError,
};
use crate::text::views_of;
use crate::tribes::{first_user_with_identity, no_user_with_identity};
use crate::wallet::{LinkError, LinkOutcome, PendingLink, SignatureCheck};
use vstd::string::StringSliceAdditionalSpecFns;

verus! {

/// What every draw gives: an id of 36 characters, and a time that is not
/// before the epoch.
pub open spec fn well_drawn(id: Seq<char>, now: i64) -> bool {
    id.len() == 36 && now >= 0
}

/// What a link attempt did, for the ids and the time that were drawn.
pub open spec fn link_verify_post(
    before: RegistryView,
    after: RegistryView,
    r: Result<LinkOutcome, LinkError>,
    request: (i64, Seq<char>, SignatureCheck),
    drawn: (Seq<char>, Seq<char>, i64),
) -> bool {
    &&& r == before.link_result(request.2, request.1, drawn.0, drawn.1)
    &&& r is Ok ==> after == before.after_link(request.0, request.1, drawn.0, drawn.1, drawn.2)
    &&& r is Err ==> after == before
}

/// Completes a link attempt whose challenge was consumed: given what the
/// signature verifier found, links the address to the caller's account or
/// turns the attempt down, and records a link.
pub fn link_verify(
    db: &mut Registry,
    auth_user: &AuthenticatedUser,
    pending: &PendingLink,
    check: SignatureCheck,
) -> (r: Result<LinkOutcome, LinkError>)
    requires
        old(db).wf(),
    ensures
        final(db).wf(),
        exists|drawn: (Seq<char>, Seq<char>, i64)|
            drawn.0.len() == 36 && well_drawn(drawn.1, drawn.2) && link_verify_post(
                old(db)@,
                final(db)@,
                r,
                (auth_user.user_id, pending.address@, check),
                drawn,
            ),
{
    let binding_id = fresh_uuid();
    let audit_id = fresh_uuid();
    let now = now_millis();
    let ghost drawn = (binding_id@, audit_id@, now);
    let r = db.link_wallet(
        auth_user.user_id,
        pending.address.as_str(),
        check,
        binding_id,
        audit_id,
        now,
    );
    assert(link_verify_post(
        old(db)@,
        db@,
        r,
        (auth_user.user_id, pending.address@, check),
        drawn,
    ));
    r
}

/// What an unlink did, for the id and the time that were drawn.
pub open spec fn unlink_wallet_post(
    before: RegistryView,
    after: RegistryView,
    r: Result<(), UnlinkError>,
    request: (i64, Seq<char>),
    drawn: (Seq<char>, i64),
) -> bool {
    &&& r == before.unlink_result(request.0, request.1, drawn.0)
    &&& r is Ok ==> after == before.after_unlink(request.0, request.1, drawn.0, drawn.1)
    &&& r is Err ==> after == before
}

/// Unlinks the caller's own active wallet binding.
pub fn unlink_wallet(db: &mut Registry, wallet_id: &str, auth_user: &AuthenticatedUser) -> (r:
    Result<(), UnlinkError>)
    requires
        old(db).wf(),
    ensures
        final(db).wf(),
        exists|drawn: (Seq<char>, i64)|
            well_drawn(drawn.0, drawn.1) && unlink_wallet_post(old(db)@, final(db)@, r, (auth_user.user_id, wallet_id@), drawn),
{
    let audit_id = fresh_uuid();
    let now = now_millis();
    let ghost drawn = (audit_id@, now);
    let r = db.unlink_wallet(auth_user.user_id, wallet_id, audit_id, now);
    assert(unlink_wallet_post(old(db)@, db@, r, (auth_user.user_id, wallet_id@), drawn));
    r
}

/// The account id of an administrator, by its external identity.
pub fn get_admin_id(db: &Registry, discord_id: &str) -> (r: Option<i64>)
    ensures
        match r {
            Some(id) => exists|i: int|
                first_user_with_identity(db@.users, discord_id@, i) && db@.users[i].id == id,
            None => no_user_with_identity(db@.users, discord_id@),
        },
{
    match get_user_by_discord_id(db, discord_id) {
        Some(u) => Some(u.id),
        None => None,
    }
}

/// The administrator's account id, where the administrator has an account.
pub open spec fn admin_id_of(reg: RegistryView, discord_id: Seq<char>) -> Option<i64> {
    if exists|i: int| first_user_with_identity(reg.users, discord_id, i) {
        Some(reg.user_with_identity(discord_id).id)
    } else {
        None
    }
}

proof fn lemma_admin_id(reg: RegistryView, discord_id: Seq<char>, i: int)
    requires
        first_user_with_identity(reg.users, discord_id, i),
    ensures
        admin_id_of(reg, discord_id) == Some(reg.users[i].id),
{
    let w = choose|k: int| first_user_with_identity(reg.users, discord_id, k);
    crate::tribes::lemma_first_user_with_identity_unique(reg.users, discord_id, i, w);
}

fn admin_id(db: &Registry, admin: &RequireSuperAdmin) -> (r: Option<i64>)
    ensures
        r == admin_id_of(db@, admin.discord_id@),
{
    let r = get_admin_id(db, admin.discord_id.as_str());
    proof {
        match r {
            Some(id) => {
                let i = choose|i: int|
                    first_user_with_identity(db@.users, admin.discord_id@, i) && db@.users[i].id
                        == id;
                lemma_admin_id(db@, admin.discord_id@, i);
            },
            None => {
                assert(admin_id_of(db@, admin.discord_id@) is None) by {
                    if exists|i: int| first_user_with_identity(db@.users, admin.discord_id@, i) {
                        let i = choose|i: int|
                            first_user_with_identity(db@.users, admin.discord_id@, i);
                        assert(db@.users[i].discord_id != admin.discord_id@);
                    }
                }
            },
        }
    }
    r
}

/// What a forced removal did, for the id and the time that were drawn.
pub open spec fn delete_wallet_post(
    before: RegistryView,
    after: RegistryView,
    r: Result<(), AdminError>,
    request: (Seq<char>, Seq<char>),
    drawn: (Seq<char>, i64),
) -> bool {
    match admin_id_of(before, request.0) {
        None => r == Err::<(), AdminError>(AdminError::AdminUnknown) && after == before,
        Some(admin_id) => match before.delete_wallet_result(request.1, drawn.0) {
            Ok(_) => r is Ok && after == before.after_delete_wallet(
                admin_id,
                request.1,
                drawn.0,
                drawn.1,
            ),
            Err(UnlinkError::NotFoundOrNotOwned) => r == Err::<(), AdminError>(
                AdminError::WalletNotFound,
            ) && after == before,
            Err(UnlinkError::Storage) => r == Err::<(), AdminError>(AdminError::Storage) && after
                == before,
        },
    }
}

/// Removes a wallet binding of any account on behalf of a super admin.
pub fn delete_wallet(db: &mut Registry, admin: &RequireSuperAdmin, wallet_id: &str) -> (r: Result<
    (),
    AdminError,
>)
    requires
        old(db).wf(),
    ensures
        final(db).wf(),
        exists|drawn: (Seq<char>, i64)|
            well_drawn(drawn.0, drawn.1) && delete_wallet_post(old(db)@, final(db)@, r, (admin.discord_id@, wallet_id@), drawn),
{
    let audit_id = fresh_uuid();
    let now = now_millis();
    let ghost drawn = (audit_id@, now);
    let r = match admin_id(db, admin) {
        None => Err(AdminError::AdminUnknown),
        Some(id) => match db.delete_wallet(id, wallet_id, audit_id, now) {
            Ok(_) => Ok(()),
            Err(UnlinkError::NotFoundOrNotOwned) => Err(AdminError::WalletNotFound),
            Err(UnlinkError::Storage) => Err(AdminError::Storage),
        },
    };
    assert(delete_wallet_post(old(db)@, db@, r, (admin.discord_id@, wallet_id@), drawn));
    r
}

/// What the creation of a tribe did, for the id and the time that were
/// drawn. The name is checked before the administrator is looked up.
pub open spec fn create_tribe_post(
    before: RegistryView,
    after: RegistryView,
    r: Result<(), AdminError>,
    request: (Seq<char>, Seq<char>),
    drawn: (Seq<char>, i64),
) -> bool {
    match crate::admin::tribe_name_verdict(request.1) {
        Err(e) => r == Err::<(), AdminError>(e) && after == before,
        Ok(_) => match admin_id_of(before, request.0) {
            None => r == Err::<(), AdminError>(AdminError::AdminUnknown) && after == before,
            Some(admin_id) => {
                &&& r == before.create_tribe_result(request.1, drawn.0)
                &&& r is Ok ==> after == before.after_create_tribe(
                    admin_id,
                    request.1,
                    drawn.0,
                    drawn.1,
                )
                &&& r is Err ==> after == before
            },
        },
    }
}

/// Creates a tribe on behalf of a super admin.
pub fn create_tribe(db: &mut Registry, admin: &RequireSuperAdmin, payload: &CreateTribeRequest) -> (r:
    Result<(), AdminError>)
    requires
        old(db).wf(),
    ensures
        final(db).wf(),
        exists|drawn: (Seq<char>, i64)|
            well_drawn(drawn.0, drawn.1) && create_tribe_post(
                old(db)@,
                final(db)@,
                r,
                (admin.discord_id@, payload.name@),
                drawn,
            ),
{
    let audit_id = fresh_uuid();
    let now = now_millis();
    let ghost drawn = (audit_id@, now);
    let r = match crate::admin::validate_tribe_name(payload.name.as_str()) {
        Err(e) => Err(e),
        Ok(_) => match admin_id(db, admin) {
            None => Err(AdminError::AdminUnknown),
            Some(id) => db.create_tribe(id, payload.name.as_str(), audit_id, now),
        },
    };
    assert(create_tribe_post(old(db)@, db@, r, (admin.discord_id@, payload.name@), drawn));
    r
}

/// What the renaming of a tribe did, for the id and the time that were
/// drawn.
pub open spec fn update_tribe_post(
    before: RegistryView,
    after: RegistryView,
    r: Result<(), AdminError>,
    request: (Seq<char>, Seq<char>, Seq<char>),
    drawn: (Seq<char>, i64),
) -> bool {
    match crate::admin::tribe_name_verdict(request.2) {
        Err(e) => r == Err::<(), AdminError>(e) && after == before,
        Ok(_) => match admin_id_of(before, request.0) {
            None => r == Err::<(), AdminError>(AdminError::AdminUnknown) && after == before,
            Some(admin_id) => {
                &&& r == before.update_tribe_result(request.1, request.2, drawn.0)
                &&& r is Ok ==> after == before.after_update_tribe(
                    admin_id,
                    request.1,
                    request.2,
                    drawn.0,
                    drawn.1,
                )
                &&& r is Err ==> after == before
            },
        },
    }
}

/// Renames a tribe on behalf of a super admin.
pub fn update_tribe(
    db: &mut Registry,
    admin: &RequireSuperAdmin,
    tribe_name: &str,
    payload: &CreateTribeRequest,
) -> (r: Result<(), AdminError>)
    requires
        old(db).wf(),
    ensures
        final(db).wf(),
        exists|drawn: (Seq<char>, i64)|
            well_drawn(drawn.0, drawn.1) && update_tribe_post(
                old(db)@,
                final(db)@,
                r,
                (admin.discord_id@, tribe_name@, payload.name@),
                drawn,
            ),
{
    let audit_id = fresh_uuid();
    let now = now_millis();
    let ghost drawn = (audit_id@, now);
    let r = match crate::admin::validate_tribe_name(payload.name.as_str()) {
        Err(e) => Err(e),
        Ok(_) => match admin_id(db, admin) {
            None => Err(AdminError::AdminUnknown),
            Some(id) => db.update_tribe(id, tribe_name, payload.name.as_str(), audit_id, now),
        },
    };
    assert(update_tribe_post(
        old(db)@,
        db@,
        r,
        (admin.discord_id@, tribe_name@, payload.name@),
        drawn,
    ));
    r
}

/// What the addition of an account to a tribe did, for the id and the time
/// that were drawn.
pub open spec fn add_user_to_tribe_post(
    before: RegistryView,
    after: RegistryView,
    r: Result<(), AdminError>,
    request: (Seq<char>, Seq<char>, Seq<char>),
    drawn: (Seq<char>, i64),
) -> bool {
    match admin_id_of(before, request.0) {
        None => r == Err::<(), AdminError>(AdminError::AdminUnknown) && after == before,
        Some(admin_id) => {
            &&& r == before.add_user_to_tribe_result(request.1, request.2, drawn.0)
            &&& r is Ok ==> after == before.after_add_user_to_tribe(
                admin_id,
                request.1,
                request.2,
                drawn.0,
                drawn.1,
            )
            &&& r is Err ==> after == before
        },
    }
}

/// Adds an account to a tribe on behalf of a super admin.
pub fn add_user_to_tribe(
    db: &mut Registry,
    admin: &RequireSuperAdmin,
    tribe_name: &str,
    payload: &AddUserToTribeRequest,
) -> (r: Result<(), AdminError>)
    requires
        old(db).wf(),
    ensures
        final(db).wf(),
        exists|drawn: (Seq<char>, i64)|
            well_drawn(drawn.0, drawn.1) && add_user_to_tribe_post(
                old(db)@,
                final(db)@,
                r,
                (admin.discord_id@, tribe_name@, payload.username@),
                drawn,
            ),
{
    let audit_id = fresh_uuid();
    let now = now_millis();
    let ghost drawn = (audit_id@, now);
    let r = match admin_id(db, admin) {
        None => Err(AdminError::AdminUnknown),
        Some(id) => db.add_user_to_tribe(
            id,
            tribe_name,
            payload.username.as_str(),
            audit_id,
            now,
        ),
    };
    assert(add_user_to_tribe_post(
        old(db)@,
        db@,
        r,
        (admin.discord_id@, tribe_name@, payload.username@),
        drawn,
    ));
    r
}

/// What an update of an account did, for the id and the time that were
/// drawn.
pub open spec fn update_user_post(
    before: RegistryView,
    after: RegistryView,
    r: Result<(), AdminError>,
    request: (Seq<char>, i64, (bool, Seq<char>, Seq<char>, Seq<Seq<char>>)),
    drawn: (Seq<char>, i64),
) -> bool {
    match admin_id_of(before, request.0) {
        None => r == Err::<(), AdminError>(AdminError::AdminUnknown) && after == before,
        Some(admin_id) => {
            &&& r == before.update_user_result(request.1, drawn.0)
            &&& r is Ok ==> after == before.after_update_user(
                admin_id,
                request.1,
                request.2,
                drawn.0,
                drawn.1,
            )
            &&& r is Err ==> after == before
        },
    }
}

/// Updates an account on behalf of a super admin.
pub fn update_user(
    db: &mut Registry,
    admin: &RequireSuperAdmin,
    user_id: i64,
    payload: &UpdateUserRequest,
) -> (r: Result<(), AdminError>)
    requires
        old(db).wf(),
    ensures
        final(db).wf(),
        exists|drawn: (Seq<char>, i64)|
            well_drawn(drawn.0, drawn.1) && update_user_post(
                old(db)@,
                final(db)@,
                r,
                (
                    admin.discord_id@,
                    user_id,
                    (
                        payload.is_admin,
                        payload.username@,
                        payload.discriminator@,
                        views_of(payload.admin_tribes@),
                    ),
                ),
                drawn,
            ),
{
    let audit_id = fresh_uuid();
    let now = now_millis();
    let ghost drawn = (audit_id@, now);
    let r = match admin_id(db, admin) {
        None => Err(AdminError::AdminUnknown),
        Some(id) => db.update_user(id, user_id, payload, audit_id, now),
    };
    assert(update_user_post(
        old(db)@,
        db@,
        r,
        (
            admin.discord_id@,
            user_id,
            (
                payload.is_admin,
                payload.username@,
                payload.discriminator@,
                views_of(payload.admin_tribes@),
            ),
        ),
        drawn,
    ));
    r
}

/// What an erasure did, for what was drawn.
pub open spec fn delete_me_post(
    before: RegistryView,
    after: RegistryView,
    r: Result<(), ErrorKind>,
    request: (i64, Seq<u8>),
    drawn: (u64, Seq<char>, i64),
) -> bool {
    &&& r == before.delete_account_result(request.0, drawn.1)
    &&& r is Ok ==> after == before.after_delete_account(
        request.0,
        request.1,
        drawn.0,
        drawn.1,
        drawn.2,
    )
    &&& r is Err ==> after == before
}

/// Erases the caller's own account.
pub fn delete_me(db: &mut Registry, auth_user: &AuthenticatedUser, pepper: &str) -> (r: Result<
    (),
    ErrorKind,
>)
    requires
        old(db).wf(),
    ensures
        final(db).wf(),
        exists|drawn: (u64, Seq<char>, i64)|
            well_drawn(drawn.1, drawn.2) && delete_me_post(
                old(db)@,
                final(db)@,
                r,
                (auth_user.user_id, pepper.spec_bytes()),
                drawn,
            ),
{
    let random = random_u64();
    let audit_id = fresh_uuid();
    let now = now_millis();
    let ghost drawn = (random, audit_id@, now);
    let r = db.delete_account(auth_user.user_id, pepper, random, audit_id, now);
    assert(delete_me_post(old(db)@, db@, r, (auth_user.user_id, pepper.spec_bytes()), drawn));
    r
}

/// The id of a new account, made from a random number: its magnitude, and
/// never zero.
pub open spec fn account_id_from(raw: i64) -> i64 {
    if raw == i64::MIN {
        i64::MAX
    } else if raw < 0 {
        (-raw) as i64
    } else if raw == 0 {
        1
    } else {
        raw
    }
}

/// Makes the id of a new account from a random number.
pub fn new_account_id(raw: i64) -> (r: i64)
    ensures
        r == account_id_from(raw),
        r >= 1,
{
    if raw == i64::MIN {
        i64::MAX
    } else if raw < 0 {
        -raw
    } else if raw == 0 {
        1
    } else {
        raw
    }
}

/// What a login did, for what was drawn.
pub open spec fn discord_callback_post(
    before: RegistryView,
    after: RegistryView,
    r: Result<LoginOutcome, LoginError>,
    request: (DiscordProfileView, Seq<u8>, bool),
    drawn: (i64, Seq<char>, Seq<char>, i64),
) -> bool {
    let ids = (drawn.1, drawn.2);
    match r {
        Ok(outcome) => {
            &&& drawn.0 >= 1
            &&& before.login_result(request.0.id, request.1, request.2, drawn.0, ids) is Ok
            &&& outcome.user@ == before.login_user(request.0, request.2, drawn.0, drawn.3)
            &&& outcome.admin_granted == before.login_promotes(request.0.id, request.2)
            &&& after == before.after_login(request.0, request.2, drawn.0, ids, drawn.3)
        },
        Err(e) => {
            &&& before.login_result(request.0.id, request.1, request.2, drawn.0, ids) == Err::<
                (),
                LoginError,
            >(e)
            &&& after == before
        },
    }
}

/// Logs in the user that the identity provider vouched for: finds or
/// creates the account, refreshes it, and records the login.
pub fn discord_callback(
    db: &mut Registry,
    profile: &DiscordProfile,
    pepper: &str,
    is_initial_admin: bool,
) -> (r: Result<LoginOutcome, LoginError>)
    requires
        old(db).wf(),
    ensures
        final(db).wf(),
        exists|drawn: (i64, Seq<char>, Seq<char>, i64)|
            drawn.0 >= 1 && drawn.1.len() == 36 && well_drawn(drawn.2, drawn.3) && discord_callback_post(
                old(db)@,
                final(db)@,
                r,
                (profile@, pepper.spec_bytes(), is_initial_admin),
                drawn,
            ),
{
    let new_id = new_account_id(random_i64());
    let login_audit = fresh_uuid();
    let grant_audit = fresh_uuid();
    let now = now_millis();
    let ghost drawn = (new_id, login_audit@, grant_audit@, now);
    let r = db.login(profile, pepper, is_initial_admin, new_id, (login_audit, grant_audit), now);
    assert(discord_callback_post(
        old(db)@,
        db@,
        r,
        (profile@, pepper.spec_bytes(), is_initial_admin),
        drawn,
    ));
    r
}

/// Why a grant of admin rights failed.
#[derive(Debug, Clone, Copy, PartialEq, Eq, Structural)]
pub enum GrantError {
    /// The caller may not act as admin of the tribe.
    Access(AccessError),
    /// The grant itself was refused.
    Admin(AdminError),
}

impl GrantError {
    /// The HTTP status that reports the error.
    pub open spec fn status_spec(self) -> u16 {
        match self {
            GrantError::Access(e) => e.status_spec(),
            GrantError::Admin(e) => e.status_spec(),
        }
    }

    pub fn status(&self) -> (r: u16)
        ensures
            r == self.status_spec(),
    {
        match self {
            GrantError::Access(e) => e.status(),
            GrantError::Admin(e) => e.status(),
        }
    }
}

/// The view of an optional text.
pub open spec fn opt_string_view(t: Option<String>) -> Option<Seq<char>> {
    match t {
        Some(s) => Some(s@),
        None => None,
    }
}

/// What a grant of admin rights did, for the id and the time that were
/// drawn. The caller's own right to act in the tribe is resolved first.
pub open spec fn grant_admin_post(
    before: RegistryView,
    after: RegistryView,
    r: Result<(), GrantError>,
    request: (i64, Option<Seq<char>>, Seq<char>, Seq<char>),
    drawn: (Seq<char>, i64),
) -> bool {
    match resolved_tribe(
        user_by_id(before.users, request.0),
        kept(before.user_tribes, row_of(request.0)),
        request.1,
    ) {
        Err(e) => r == Err::<(), GrantError>(GrantError::Access(e)) && after == before,
        Ok(tribe) => match before.grant_admin_result(request.2, request.3, drawn.0) {
            Err(e) => r == Err::<(), GrantError>(GrantError::Admin(e)) && after == before,
            Ok(_) => r is Ok && after == before.after_grant_admin(
                request.0,
                request.2,
                tribe,
                request.3,
                drawn.0,
                drawn.1,
            ),
        },
    }
}

/// Grants a member admin rights in the tribe that the caller administers.
pub fn grant_admin(
    db: &mut Registry,
    discord_id: &str,
    query: &MemberQuery,
    auth_user: &AuthenticatedUser,
    payload: &GrantAdminRequest,
) -> (r: Result<(), GrantError>)
    requires
        old(db).wf(),
    ensures
        final(db).wf(),
        exists|drawn: (Seq<char>, i64)|
            well_drawn(drawn.0, drawn.1) && grant_admin_post(
                old(db)@,
                final(db)@,
                r,
                (auth_user.user_id, opt_string_view(query.tribe), discord_id@, payload.wallet_id@),
                drawn,
            ),
{
    let audit_id = fresh_uuid();
    let now = now_millis();
    let ghost drawn = (audit_id@, now);
    let named = match &query.tribe {
        Some(t) => Some(t.as_str()),
        None => None,
    };
    let r = match require_admin_in_tribe(db, auth_user.user_id, named) {
        Err(e) => Err(GrantError::Access(e)),
        Ok((_, tribe, _)) => match db.grant_admin(
            auth_user.user_id,
            discord_id,
            tribe.as_str(),
            payload.wallet_id.as_str(),
            audit_id,
            now,
        ) {
            Ok(_) => Ok(()),
            Err(e) => Err(GrantError::Admin(e)),
        },
    };
    assert(grant_admin_post(
        old(db)@,
        db@,
        r,
        (auth_user.user_id, opt_string_view(query.tribe), discord_id@, payload.wallet_id@),
        drawn,
    ));
    r
}

/// What recording an action did, for the id and the time that were drawn:
/// the store refuses an id that is in use, and nothing changes; else the
/// entry is appended.
pub open spec fn log_audit_post(
    before: RegistryView,
    after: RegistryView,
    r: Result<(), ErrorKind>,
    request: (AuditAction, i64, Option<i64>, Seq<char>),
    drawn: (Seq<char>, i64),
) -> bool {
    if crate::registry::has_audit_id(before.audit_logs, drawn.0) {
        r == Err::<(), ErrorKind>(ErrorKind::Internal) && after == before
    } else {
        r is Ok && after == before.logged(
            drawn.0,
            request.0,
            request.1,
            request.2,
            request.3,
            drawn.1,
        )
    }
}

/// Records an action in the audit log, under a fresh id and with the
/// current time. Recording fails only where the store refuses the drawn id
/// because it is in use.
pub fn log_audit(
    db: &mut Registry,
    action: AuditAction,
    actor_id: i64,
    target_id: Option<i64>,
    details: &str,
) -> (r: Result<(), ErrorKind>)
    requires
        old(db).wf(),
    ensures
        final(db).wf(),
        exists|drawn: (Seq<char>, i64)|
            well_drawn(drawn.0, drawn.1) && log_audit_post(
                old(db)@,
                final(db)@,
                r,
                (action, actor_id, target_id, details@),
                drawn,
            ),
{
    let id = fresh_uuid();
    let now = now_millis();
    let ghost drawn = (id@, now);
    let r = if db.log_audit(id, action, actor_id, target_id, details, now) {
        Ok(())
    } else {
        Err(ErrorKind::Internal)
    };
    assert(log_audit_post(old(db)@, db@, r, (action, actor_id, target_id, details@), drawn));
    r
}

} // verus!
