//! Tribes and memberships as lists of rows: lookups and the row-wise changes
//! that the privileged mutations are made of.

use vstd::prelude::*;
use crate::models::{Tribe, TribeView, User, UserTribe, UserTribeView, UserView};
use crate::text::{ascii_lowered, contains_text, same_text, same_text_ignoring_ascii_case, views_of};

verus! {

/// The longest tribe name and the longest user name, in characters.
pub const MAX_NAME_CHARS: usize = 100;

/// The views of a list of tribes.
pub open spec fn tribes_view(tribes: Seq<Tribe>) -> Seq<TribeView> {
    tribes.map_values(|t: Tribe| t@)
}

/// The views of a list of memberships.
pub open spec fn rows_view(rows: Seq<UserTribe>) -> Seq<UserTribeView> {
    rows.map_values(|m: UserTribe| m@)
}

/// The views of a list of accounts.
pub open spec fn users_view(users: Seq<User>) -> Seq<UserView> {
    users.map_values(|u: User| u@)
}

/// Some tribe has the name.
pub open spec fn has_tribe(tribes: Seq<TribeView>, name: Seq<char>) -> bool {
    exists|i: int| 0 <= i < tribes.len() && (#[trigger] tribes[i]).name == name
}

/// The account is a member of the tribe.
pub open spec fn is_member(rows: Seq<UserTribeView>, user_id: i64, tribe: Seq<char>) -> bool {
    exists|i: int|
        0 <= i < rows.len() && (#[trigger] rows[i]).user_id == user_id && rows[i].tribe == tribe
}

/// The position of the account's membership in the tribe.
pub open spec fn index_of_member(rows: Seq<UserTribeView>, user_id: i64, tribe: Seq<char>) -> int {
    choose|i: int|
        0 <= i < rows.len() && (#[trigger] rows[i]).user_id == user_id && rows[i].tribe == tribe
}

/// Some account has the id.
pub open spec fn has_user(users: Seq<UserView>, id: i64) -> bool {
    exists|i: int| 0 <= i < users.len() && (#[trigger] users[i]).id == id
}

/// The position of the account with the id.
pub open spec fn index_of_user(users: Seq<UserView>, id: i64) -> int {
    choose|i: int| 0 <= i < users.len() && (#[trigger] users[i]).id == id
}

/// A tribe row after the tribe `from` was renamed to `to`.
pub open spec fn tribe_renamed(t: TribeView, from: Seq<char>, to: Seq<char>) -> TribeView {
    if t.name == from {
        TribeView { name: to, ..t }
    } else {
        t
    }
}

/// A membership after the tribe `from` was renamed to `to`.
pub open spec fn row_renamed(m: UserTribeView, from: Seq<char>, to: Seq<char>) -> UserTribeView {
    if m.tribe == from {
        UserTribeView { tribe: to, ..m }
    } else {
        m
    }
}

/// Renaming `from` to `to` would leave some account with two memberships in
/// one tribe.
pub open spec fn rename_collides(rows: Seq<UserTribeView>, from: Seq<char>, to: Seq<char>) -> bool {
    from != to && exists|i: int, j: int|
        0 <= i < rows.len() && 0 <= j < rows.len() && (#[trigger] rows[i]).tribe == from && (
        #[trigger] rows[j]).tribe == to && rows[i].user_id == rows[j].user_id
}

/// A membership of `user_id` with its admin flag set to whether its tribe is
/// among `admin_tribes`; memberships of other accounts stay.
pub open spec fn row_with_admin_flag(
    m: UserTribeView,
    user_id: i64,
    admin_tribes: Seq<Seq<char>>,
) -> UserTribeView {
    if m.user_id == user_id {
        UserTribeView { is_admin: admin_tribes.contains(m.tribe), ..m }
    } else {
        m
    }
}

/// Finds the tribe with the name.
pub fn find_tribe(tribes: &Vec<Tribe>, name: &str) -> (r: Option<usize>)
    ensures
        match r {
            Some(i) => i < tribes.len() && tribes_view(tribes@)[i as int].name == name@,
            None => !has_tribe(tribes_view(tribes@), name@),
        },
{
    let mut i: usize = 0;
    while i < tribes.len()
        invariant
            i <= tribes.len(),
            forall|j: int| 0 <= j < i ==> (#[trigger] tribes_view(tribes@)[j]).name != name@,
        decreases tribes.len() - i,
    {
        if same_text(tribes[i].name.as_str(), name) {
            return Some(i);
        }
        i = i + 1;
    }
    None
}

/// Finds the membership of the account in the tribe.
pub fn find_membership(rows: &Vec<UserTribe>, user_id: i64, tribe: &str) -> (r: Option<usize>)
    ensures
        match r {
            Some(i) => i < rows.len() && rows_view(rows@)[i as int].user_id == user_id
                && rows_view(rows@)[i as int].tribe == tribe@,
            None => !is_member(rows_view(rows@), user_id, tribe@),
        },
{
    let mut i: usize = 0;
    while i < rows.len()
        invariant
            i <= rows.len(),
            forall|j: int|
                0 <= j < i ==> !((#[trigger] rows_view(rows@)[j]).user_id == user_id && rows_view(
                    rows@,
                )[j].tribe == tribe@),
        decreases rows.len() - i,
    {
        if rows[i].user_id == user_id && same_text(rows[i].tribe.as_str(), tribe) {
            return Some(i);
        }
        i = i + 1;
    }
    None
}

/// Finds the account with the id.
pub fn find_user(users: &Vec<User>, id: i64) -> (r: Option<usize>)
    ensures
        match r {
            Some(i) => i < users.len() && users_view(users@)[i as int].id == id,
            None => !has_user(users_view(users@), id),
        },
{
    let mut i: usize = 0;
    while i < users.len()
        invariant
            i <= users.len(),
            forall|j: int| 0 <= j < i ==> (#[trigger] users_view(users@)[j]).id != id,
        decreases users.len() - i,
    {
        if users[i].id == id {
            return Some(i);
        }
        i = i + 1;
    }
    None
}

/// Renames the tribe `from` to `to` in a list of tribes.
pub fn rename_tribe_rows(tribes: &mut Vec<Tribe>, from: &str, to: &str)
    ensures
        tribes_view(final(tribes)@) == tribes_view(old(tribes)@).map_values(
            |t: TribeView| tribe_renamed(t, from@, to@),
        ),
{
    let ghost before = tribes_view(tribes@);
    let mut k: usize = 0;
    while k < tribes.len()
        invariant
            k <= tribes.len(),
            tribes.len() == before.len(),
            forall|j: int|
                0 <= j < k ==> (#[trigger] tribes@[j])@ == tribe_renamed(before[j], from@, to@),
            forall|j: int| k <= j < tribes.len() ==> (#[trigger] tribes@[j])@ == before[j],
        decreases tribes.len() - k,
    {
        if same_text(tribes[k].name.as_str(), from) {
            let row = Tribe { name: to.to_owned(), created_at: tribes[k].created_at };
            tribes.set(k, row);
        }
        k = k + 1;
    }
    assert(tribes_view(tribes@) =~= before.map_values(
        |t: TribeView| tribe_renamed(t, from@, to@),
    ));
}

/// Renames the tribe `from` to `to` in a list of memberships.
pub fn rename_membership_rows(rows: &mut Vec<UserTribe>, from: &str, to: &str)
    ensures
        rows_view(final(rows)@) == rows_view(old(rows)@).map_values(
            |m: UserTribeView| row_renamed(m, from@, to@),
        ),
{
    let ghost before = rows_view(rows@);
    let mut k: usize = 0;
    while k < rows.len()
        invariant
            k <= rows.len(),
            rows.len() == before.len(),
            forall|j: int| 0 <= j < k ==> (#[trigger] rows@[j])@ == row_renamed(before[j], from@, to@),
            forall|j: int| k <= j < rows.len() ==> (#[trigger] rows@[j])@ == before[j],
        decreases rows.len() - k,
    {
        if same_text(rows[k].tribe.as_str(), from) {
            let row = UserTribe {
                user_id: rows[k].user_id,
                tribe: to.to_owned(),
                wallet_id: crate::models::clone_opt_text(&rows[k].wallet_id),
                created_at: rows[k].created_at,
                is_admin: rows[k].is_admin,
                source: rows[k].source,
            };
            rows.set(k, row);
        }
        k = k + 1;
    }
    assert(rows_view(rows@) =~= before.map_values(
        |m: UserTribeView| row_renamed(m, from@, to@),
    ));
}

/// Whether renaming `from` to `to` would give some account two memberships
/// in one tribe.
pub fn rename_would_collide(rows: &Vec<UserTribe>, from: &str, to: &str) -> (r: bool)
    ensures
        r == rename_collides(rows_view(rows@), from@, to@),
{
    if same_text(from, to) {
        return false;
    }
    let ghost view = rows_view(rows@);
    let mut i: usize = 0;
    while i < rows.len()
        invariant
            i <= rows.len(),
            view == rows_view(rows@),
            from@ != to@,
            forall|a: int, b: int|
                0 <= a < i && 0 <= b < view.len() ==> !((#[trigger] view[a]).tribe == from@ && (
                #[trigger] view[b]).tribe == to@ && view[a].user_id == view[b].user_id),
        decreases rows.len() - i,
    {
        if same_text(rows[i].tribe.as_str(), from) {
            match find_membership(rows, rows[i].user_id, to) {
                Some(j) => {
                    assert(view[i as int].tribe == from@ && view[j as int].tribe == to@
                        && view[i as int].user_id == view[j as int].user_id);
                    return true;
                },
                None => {
                    assert forall|b: int| 0 <= b < view.len() implies !(view[i as int].tribe
                        == from@ && (#[trigger] view[b]).tribe == to@ && view[i as int].user_id
                        == view[b].user_id) by {
                        if view[b].tribe == to@ && view[i as int].user_id == view[b].user_id {
                            assert(is_member(view, view[i as int].user_id, to@));
                        }
                    }
                },
            }
        }
        i = i + 1;
    }
    false
}

/// Sets the admin flag of every membership of `user_id`: on where the tribe
/// is among `admin_tribes`, off elsewhere. Other accounts' rows stay.
pub fn set_admin_flags(rows: &mut Vec<UserTribe>, user_id: i64, admin_tribes: &Vec<String>)
    ensures
        rows_view(final(rows)@) == rows_view(old(rows)@).map_values(
            |m: UserTribeView| row_with_admin_flag(m, user_id, views_of(admin_tribes@)),
        ),
{
    let ghost before = rows_view(rows@);
    let ghost wanted = views_of(admin_tribes@);
    let mut k: usize = 0;
    while k < rows.len()
        invariant
            k <= rows.len(),
            rows.len() == before.len(),
            wanted == views_of(admin_tribes@),
            forall|j: int|
                0 <= j < k ==> (#[trigger] rows@[j])@ == row_with_admin_flag(
                    before[j],
                    user_id,
                    wanted,
                ),
            forall|j: int| k <= j < rows.len() ==> (#[trigger] rows@[j])@ == before[j],
        decreases rows.len() - k,
    {
        if rows[k].user_id == user_id {
            let flag = contains_text(admin_tribes, rows[k].tribe.as_str());
            let row = UserTribe {
                user_id: rows[k].user_id,
                tribe: rows[k].tribe.clone(),
                wallet_id: crate::models::clone_opt_text(&rows[k].wallet_id),
                created_at: rows[k].created_at,
                is_admin: flag,
                source: rows[k].source,
            };
            rows.set(k, row);
        }
        k = k + 1;
    }
    assert(rows_view(rows@) =~= before.map_values(
        |m: UserTribeView| row_with_admin_flag(m, user_id, wanted),
    ));
}

/// Row `i` is the first account whose name equals `name` up to the case of
/// ASCII letters.
pub open spec fn first_user_named(users: Seq<UserView>, name: Seq<char>, i: int) -> bool {
    &&& 0 <= i < users.len()
    &&& ascii_lowered(users[i].username) == ascii_lowered(name)
    &&& forall|j: int|
        0 <= j < i ==> ascii_lowered((#[trigger] users[j]).username) != ascii_lowered(name)
}

/// No account has the name, up to the case of ASCII letters.
pub open spec fn no_user_named(users: Seq<UserView>, name: Seq<char>) -> bool {
    forall|j: int|
        0 <= j < users.len() ==> ascii_lowered((#[trigger] users[j]).username) != ascii_lowered(
            name,
        )
}

/// Row `i` is the first account with the external identity `discord_id`.
pub open spec fn first_user_with_identity(users: Seq<UserView>, discord_id: Seq<char>, i: int) -> bool {
    &&& 0 <= i < users.len()
    &&& users[i].discord_id == discord_id
    &&& forall|j: int| 0 <= j < i ==> (#[trigger] users[j]).discord_id != discord_id
}

/// No account has the external identity.
pub open spec fn no_user_with_identity(users: Seq<UserView>, discord_id: Seq<char>) -> bool {
    forall|j: int| 0 <= j < users.len() ==> (#[trigger] users[j]).discord_id != discord_id
}

/// The first account with a name is one account.
pub proof fn lemma_first_user_named_unique(users: Seq<UserView>, name: Seq<char>, i: int, j: int)
    requires
        first_user_named(users, name, i),
        first_user_named(users, name, j),
    ensures
        i == j,
{
    if i < j {
        assert(ascii_lowered(users[i].username) != ascii_lowered(name));
    } else if j < i {
        assert(ascii_lowered(users[j].username) != ascii_lowered(name));
    }
}

/// The first account with an external identity is one account.
pub proof fn lemma_first_user_with_identity_unique(
    users: Seq<UserView>,
    discord_id: Seq<char>,
    i: int,
    j: int,
)
    requires
        first_user_with_identity(users, discord_id, i),
        first_user_with_identity(users, discord_id, j),
    ensures
        i == j,
{
    if i < j {
        assert(users[i].discord_id != discord_id);
    } else if j < i {
        assert(users[j].discord_id != discord_id);
    }
}

/// Finds the first account with the name, ignoring the case of ASCII
/// letters.
pub fn find_user_by_name(users: &Vec<User>, name: &str) -> (r: Option<usize>)
    ensures
        match r {
            Some(i) => first_user_named(users_view(users@), name@, i as int),
            None => no_user_named(users_view(users@), name@),
        },
{
    let mut i: usize = 0;
    while i < users.len()
        invariant
            i <= users.len(),
            forall|j: int|
                0 <= j < i ==> ascii_lowered((#[trigger] users_view(users@)[j]).username)
                    != ascii_lowered(name@),
        decreases users.len() - i,
    {
        if same_text_ignoring_ascii_case(users[i].username.as_str(), name) {
            return Some(i);
        }
        i = i + 1;
    }
    None
}

/// Finds the first account with the external identity.
pub fn find_user_by_identity(users: &Vec<User>, discord_id: &str) -> (r: Option<usize>)
    ensures
        match r {
            Some(i) => first_user_with_identity(users_view(users@), discord_id@, i as int),
            None => no_user_with_identity(users_view(users@), discord_id@),
        },
{
    let mut i: usize = 0;
    while i < users.len()
        invariant
            i <= users.len(),
            forall|j: int|
                0 <= j < i ==> (#[trigger] users_view(users@)[j]).discord_id != discord_id@,
        decreases users.len() - i,
    {
        if same_text(users[i].discord_id.as_str(), discord_id) {
            return Some(i);
        }
        i = i + 1;
    }
    None
}

} // verus!
