//! Lookups on the registry that the request handlers share.

use vstd::prelude::*;
use crate::access::{
    opt_str_view, opt_user_view, resolve_admin_context, resolved_tribe, tribe_names,
    tribe_names_of, AccessError,
};
use crate::models::{User, UserTribe, UserTribeView, UserView};
use crate::registry::{lemma_index_of_user, Registry};
use crate::seqs::{kept, lemma_kept_push};
use crate::text::views_of;
use crate::tribes::{
    find_user, find_user_by_identity, first_user_with_identity, has_user, index_of_user,
    no_user_with_identity,
};

verus! {

/// The outcome of a helper that can fail with an access error.
pub type ApiResult<T> = Result<T, AccessError>;

/// The memberships of the account.
pub open spec fn row_of(user_id: i64) -> spec_fn(UserTribeView) -> bool {
    |m: UserTribeView| m.user_id == user_id
}

/// The account with the id, if there is one.
pub open spec fn user_by_id(users: Seq<UserView>, id: i64) -> Option<UserView> {
    if has_user(users, id) {
        Some(users[index_of_user(users, id)])
    } else {
        None
    }
}

/// Fetches an account by its id.
pub fn get_user_by_id(db: &Registry, id: i64) -> (r: Option<User>)
    requires
        db.wf(),
    ensures
        opt_user_view(r) == user_by_id(db@.users, id),
{
    let users = db.users();
    match find_user(users, id) {
        Some(i) => {
            proof {
                lemma_index_of_user(db@, i as int);
            }
            Some(users[i].clone())
        },
        None => None,
    }
}

/// Fetches the first account with the external identity.
pub fn get_user_by_discord_id(db: &Registry, discord_id: &str) -> (r: Option<User>)
    ensures
        match r {
            Some(u) => exists|i: int|
                first_user_with_identity(db@.users, discord_id@, i) && u@ == db@.users[i],
            None => no_user_with_identity(db@.users, discord_id@),
        },
{
    let users = db.users();
    match find_user_by_identity(users, discord_id) {
        Some(i) => {
            let u = users[i].clone();
            assert(first_user_with_identity(db@.users, discord_id@, i as int) && u@
                == db@.users[i as int]);
            Some(u)
        },
        None => None,
    }
}

/// The memberships of the account, in order.
pub fn memberships_of(db: &Registry, user_id: i64) -> (r: Vec<UserTribe>)
    ensures
        r@.map_values(|m: UserTribe| m@) == kept(db@.user_tribes, row_of(user_id)),
{
    let rows = db.user_tribes();
    let ghost all = db@.user_tribes;
    let mut out: Vec<UserTribe> = Vec::new();
    let mut i: usize = 0;
    assert(all.take(0) =~= Seq::<UserTribeView>::empty());
    while i < rows.len()
        invariant
            i <= rows.len(),
            all == rows@.map_values(|m: UserTribe| m@),
            out@.map_values(|m: UserTribe| m@) == kept(all.take(i as int), row_of(user_id)),
        decreases rows.len() - i,
    {
        proof {
            lemma_kept_push(all.take(i as int), all[i as int], row_of(user_id));
            assert(all.take(i as int).push(all[i as int]) =~= all.take(i + 1));
        }
        if rows[i].user_id == user_id {
            let ghost before = out@.map_values(|m: UserTribe| m@);
            let copy = rows[i].clone();
            out.push(copy);
            assert(out@.map_values(|m: UserTribe| m@) =~= before.push(all[i as int]));
        }
        i = i + 1;
    }
    assert(all.take(rows.len() as int) =~= all);
    out
}

/// The names of the tribes that the account belongs to, in order.
pub fn get_user_tribes(db: &Registry, user_id: i64) -> (r: Vec<String>)
    ensures
        views_of(r@) == tribe_names(kept(db@.user_tribes, row_of(user_id))),
{
    let rows = memberships_of(db, user_id);
    tribe_names_of(&rows)
}

/// Requires that the account exists and may act as admin of a tribe.
///
/// With `tribe` given, the account must be a member of that tribe and hold
/// the global or the tribe's own admin flag. Without it, the account must
/// have admin rights in exactly one of its tribes, which is then taken; with
/// admin rights in several, the caller must name one. On success the
/// account, the tribe and the names of all of the account's tribes come back.
pub fn require_admin_in_tribe(db: &Registry, user_id: i64, tribe: Option<&str>) -> (r: ApiResult<
    (User, String, Vec<String>),
>)
    requires
        db.wf(),
    ensures
        match r {
            Ok((u, selected, all)) => {
                &&& Some(u@) == user_by_id(db@.users, user_id)
                &&& resolved_tribe(
                    user_by_id(db@.users, user_id),
                    kept(db@.user_tribes, row_of(user_id)),
                    opt_str_view(tribe),
                ) == Ok::<Seq<char>, AccessError>(selected@)
                &&& views_of(all@) == tribe_names(kept(db@.user_tribes, row_of(user_id)))
            },
            Err(e) => resolved_tribe(
                user_by_id(db@.users, user_id),
                kept(db@.user_tribes, row_of(user_id)),
                opt_str_view(tribe),
            ) == Err::<Seq<char>, AccessError>(e),
        },
{
    let user = get_user_by_id(db, user_id);
    let rows = memberships_of(db, user_id);
    resolve_admin_context(user, &rows, tribe)
}

} // verus!
