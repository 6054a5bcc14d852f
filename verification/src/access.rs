//! Tribe-scoped authorization: which tribe an admin action applies to, and
//! whether the caller may act in it.

use vstd::prelude::*;
use crate::models::{User, UserTribe, UserTribeView, UserView};
use crate::text::{same_text, views_of};

verus! {

/// Why an account may not act as a tribe admin.
#[derive(Debug, Clone, Copy, PartialEq, Eq, Structural)]
pub enum AccessError {
    /// The account does not exist.
    UserNotFound,
    /// The account belongs to no tribe.
    NotInAnyTribe,
    /// A tribe was named and the account is not a member of it.
    NotInSpecifiedTribe,
    /// A tribe was named and the account has no admin rights in it.
    NotAdminOfTribe,
    /// No tribe was named and the account has admin rights in none.
    NotAdminOfAnyTribe,
    /// No tribe was named and the account has admin rights in several.
    AmbiguousTribe,
}

impl AccessError {
    /// The HTTP status that reports the error.
    pub open spec fn status_spec(self) -> u16 {
        match self {
            AccessError::UserNotFound => 401,
            AccessError::AmbiguousTribe => 400,
            _ => 403,
        }
    }

    pub fn status(&self) -> (r: u16)
        ensures
            r == self.status_spec(),
    {
        match self {
            AccessError::UserNotFound => 401,
            AccessError::AmbiguousTribe => 400,
            _ => 403,
        }
    }

    /// The reason given to the client.
    pub open spec fn message_spec(self) -> Seq<char> {
        match self {
            AccessError::UserNotFound => "User not found"@,
            AccessError::NotInAnyTribe => "Access denied: You are not in any tribe"@,
            AccessError::NotInSpecifiedTribe => "Access denied: You are not in the specified tribe"@,
            AccessError::NotAdminOfTribe => "Access denied: You are not an admin of this tribe"@,
            AccessError::NotAdminOfAnyTribe => "Access denied: You are not an admin of any tribe"@,
            AccessError::AmbiguousTribe => "Please specify a tribe - you manage multiple tribes"@,
        }
    }

    pub fn message(&self) -> (r: &'static str)
        ensures
            r@ == self.message_spec(),
    {
        match self {
            AccessError::UserNotFound => "User not found",
            AccessError::NotInAnyTribe => "Access denied: You are not in any tribe",
            AccessError::NotInSpecifiedTribe => "Access denied: You are not in the specified tribe",
            AccessError::NotAdminOfTribe => "Access denied: You are not an admin of this tribe",
            AccessError::NotAdminOfAnyTribe => "Access denied: You are not an admin of any tribe",
            AccessError::AmbiguousTribe => "Please specify a tribe - you manage multiple tribes",
        }
    }
}

/// The views of a list of memberships.
pub open spec fn memberships_view(rows: Seq<UserTribe>) -> Seq<UserTribeView> {
    rows.map_values(|m: UserTribe| m@)
}

/// The tribe names of a list of memberships, in order.
pub open spec fn tribe_names(rows: Seq<UserTribeView>) -> Seq<Seq<char>> {
    rows.map_values(|m: UserTribeView| m.tribe)
}

/// An account may administer a tribe it belongs to when it holds the global
/// admin flag or the membership's own admin flag.
pub open spec fn admin_eligible(user: UserView, row: UserTribeView) -> bool {
    user.is_admin || row.is_admin
}

/// Row `i` is the first membership in the named tribe.
pub open spec fn first_in_tribe(rows: Seq<UserTribeView>, tribe: Seq<char>, i: int) -> bool {
    &&& 0 <= i < rows.len()
    &&& rows[i].tribe == tribe
    &&& forall|j: int| 0 <= j < i ==> (#[trigger] rows[j]).tribe != tribe
}

/// No membership is in the named tribe.
pub open spec fn not_a_member(rows: Seq<UserTribeView>, tribe: Seq<char>) -> bool {
    forall|j: int| 0 <= j < rows.len() ==> (#[trigger] rows[j]).tribe != tribe
}

/// Row `i` is the only membership in which the account has admin rights.
pub open spec fn sole_admin_row(user: UserView, rows: Seq<UserTribeView>, i: int) -> bool {
    &&& 0 <= i < rows.len()
    &&& admin_eligible(user, rows[i])
    &&& forall|j: int| 0 <= j < rows.len() && j != i ==> !admin_eligible(user, #[trigger] rows[j])
}

/// The account has admin rights in no membership.
pub open spec fn no_admin_row(user: UserView, rows: Seq<UserTribeView>) -> bool {
    forall|j: int| 0 <= j < rows.len() ==> !admin_eligible(user, #[trigger] rows[j])
}

/// The tribe that an admin action of the account applies to, or the reason
/// why there is none.
///
/// With a named tribe, the first membership in that tribe decides. Without
/// one, the account must have admin rights in exactly one membership.
pub open spec fn resolved_tribe(
    user: Option<UserView>,
    rows: Seq<UserTribeView>,
    tribe: Option<Seq<char>>,
) -> Result<Seq<char>, AccessError> {
    match user {
        None => Err(AccessError::UserNotFound),
        Some(u) => {
            if rows.len() == 0 {
                Err(AccessError::NotInAnyTribe)
            } else {
                match tribe {
                    Some(t) => {
                        if not_a_member(rows, t) {
                            Err(AccessError::NotInSpecifiedTribe)
                        } else if admin_eligible(
                            u,
                            rows[choose|i: int| first_in_tribe(rows, t, i)],
                        ) {
                            Ok(t)
                        } else {
                            Err(AccessError::NotAdminOfTribe)
                        }
                    },
                    None => {
                        if no_admin_row(u, rows) {
                            Err(AccessError::NotAdminOfAnyTribe)
                        } else if exists|i: int| sole_admin_row(u, rows, i) {
                            Ok(rows[choose|i: int| sole_admin_row(u, rows, i)].tribe)
                        } else {
                            Err(AccessError::AmbiguousTribe)
                        }
                    },
                }
            }
        },
    }
}

/// The view of an optional account.
pub open spec fn opt_user_view(user: Option<User>) -> Option<UserView> {
    match user {
        Some(u) => Some(u@),
        None => None,
    }
}

/// The view of an optional string slice.
pub open spec fn opt_str_view(t: Option<&str>) -> Option<Seq<char>> {
    match t {
        Some(s) => Some(s@),
        None => None,
    }
}

/// The tribe names of an account's memberships, in order.
pub fn tribe_names_of(user_tribes: &Vec<UserTribe>) -> (r: Vec<String>)
    ensures
        views_of(r@) == tribe_names(memberships_view(user_tribes@)),
{
    let mut names: Vec<String> = Vec::new();
    let mut i: usize = 0;
    while i < user_tribes.len()
        invariant
            i <= user_tribes.len(),
            names.len() == i,
            forall|j: int| 0 <= j < i ==> (#[trigger] names@[j])@ == user_tribes@[j].tribe@,
        decreases user_tribes.len() - i,
    {
        names.push(user_tribes[i].tribe.clone());
        i = i + 1;
    }
    assert(views_of(names@) =~= tribe_names(memberships_view(user_tribes@)));
    names
}

/// Finds the first membership in the named tribe.
fn find_tribe_row(user_tribes: &Vec<UserTribe>, tribe: &str) -> (r: Option<usize>)
    ensures
        match r {
            Some(i) => first_in_tribe(memberships_view(user_tribes@), tribe@, i as int),
            None => not_a_member(memberships_view(user_tribes@), tribe@),
        },
{
    let mut i: usize = 0;
    while i < user_tribes.len()
        invariant
            i <= user_tribes.len(),
            forall|j: int|
                0 <= j < i ==> (#[trigger] memberships_view(user_tribes@)[j]).tribe != tribe@,
        decreases user_tribes.len() - i,
    {
        if same_text(user_tribes[i].tribe.as_str(), tribe) {
            return Some(i);
        }
        i = i + 1;
    }
    None
}

/// Decides which tribe an admin action of `user` applies to.
///
/// `user` is the caller's account, if it exists; `user_tribes` are all of its
/// memberships; `tribe` is the tribe the caller named, if any. On success the
/// account, the resolved tribe and the names of all member tribes come back.
pub fn resolve_admin_context(
    user: Option<User>,
    user_tribes: &Vec<UserTribe>,
    tribe: Option<&str>,
) -> (r: Result<(User, String, Vec<String>), AccessError>)
    ensures
        match r {
            Ok((u, selected, all)) => {
                &&& Some(u@) == opt_user_view(user)
                &&& resolved_tribe(
                    opt_user_view(user),
                    memberships_view(user_tribes@),
                    opt_str_view(tribe),
                ) == Ok::<Seq<char>, AccessError>(selected@)
                &&& views_of(all@) == tribe_names(memberships_view(user_tribes@))
            },
            Err(e) => resolved_tribe(
                opt_user_view(user),
                memberships_view(user_tribes@),
                opt_str_view(tribe),
            ) == Err::<Seq<char>, AccessError>(e),
        },
{
    let ghost rows = memberships_view(user_tribes@);
    let user = match user {
        Some(u) => u,
        None => {
            return Err(AccessError::UserNotFound);
        },
    };
    let all_tribe_names = tribe_names_of(user_tribes);
    if user_tribes.len() == 0 {
        return Err(AccessError::NotInAnyTribe);
    }
    match tribe {
        Some(t) => {
            match find_tribe_row(user_tribes, t) {
                Some(i) => {
                    let ghost w = choose|k: int| first_in_tribe(rows, t@, k);
                    assert(first_in_tribe(rows, t@, i as int));
                    assert(w == i as int) by {
                        if w < i as int {
                            assert(rows[w].tribe != t@);
                        } else if (i as int) < w {
                            assert(rows[i as int].tribe != t@);
                        }
                    }
                    assert(!not_a_member(rows, t@)) by {
                        assert(rows[i as int].tribe == t@);
                    }
                    if !user.is_admin && !user_tribes[i].is_admin {
                        return Err(AccessError::NotAdminOfTribe);
                    }
                    let selected = user_tribes[i].tribe.clone();
                    Ok((user, selected, all_tribe_names))
                },
                None => Err(AccessError::NotInSpecifiedTribe),
            }
        },
        None => {
            let mut count: usize = 0;
            let mut first: usize = 0;
            let mut i: usize = 0;
            while i < user_tribes.len()
                invariant
                    i <= user_tribes.len(),
                    rows == memberships_view(user_tribes@),
                    count <= i,
                    count == 0 ==> forall|j: int|
                        0 <= j < i ==> !admin_eligible(user@, #[trigger] rows[j]),
                    count == 1 ==> first < i && admin_eligible(user@, rows[first as int])
                        && forall|j: int|
                        0 <= j < i && j != first ==> !admin_eligible(user@, #[trigger] rows[j]),
                    count >= 2 ==> exists|a: int, b: int|
                        0 <= a < b < i && admin_eligible(user@, #[trigger] rows[a])
                            && admin_eligible(user@, #[trigger] rows[b]),
                decreases user_tribes.len() - i,
            {
                if user.is_admin || user_tribes[i].is_admin {
                    if count == 0 {
                        first = i;
                    } else if count == 1 {
                        assert(admin_eligible(user@, rows[first as int]) && admin_eligible(
                            user@,
                            rows[i as int],
                        ));
                    }
                    count = count + 1;
                }
                i = i + 1;
            }
            if count == 0 {
                assert(no_admin_row(user@, rows));
                Err(AccessError::NotAdminOfAnyTribe)
            } else if count == 1 {
                assert(sole_admin_row(user@, rows, first as int));
                let ghost w = choose|k: int| sole_admin_row(user@, rows, k);
                assert(w == first as int);
                assert(!no_admin_row(user@, rows));
                let selected = user_tribes[first].tribe.clone();
                Ok((user, selected, all_tribe_names))
            } else {
                let ghost (a, b) = choose|a: int, b: int|
                    0 <= a < b < rows.len() && admin_eligible(user@, #[trigger] rows[a])
                        && admin_eligible(user@, #[trigger] rows[b]);
                assert(!no_admin_row(user@, rows));
                assert(forall|k: int| !sole_admin_row(user@, rows, k)) by {
                    assert forall|k: int| !sole_admin_row(user@, rows, k) by {
                        if sole_admin_row(user@, rows, k) {
                            if k != a {
                                assert(!admin_eligible(user@, rows[a]));
                            } else {
                                assert(!admin_eligible(user@, rows[b]));
                            }
                        }
                    }
                }
                Err(AccessError::AmbiguousTribe)
            }
        },
    }
}

/// An account with admin rights in two of its memberships, and no tribe
/// named, is told to name one: no tribe is picked silently.
pub proof fn lemma_several_admin_tribes_are_ambiguous(
    user: UserView,
    rows: Seq<UserTribeView>,
    i: int,
    j: int,
)
    requires
        0 <= i < rows.len(),
        0 <= j < rows.len(),
        i != j,
        admin_eligible(user, rows[i]),
        admin_eligible(user, rows[j]),
    ensures
        resolved_tribe(Some(user), rows, None) == Err::<Seq<char>, AccessError>(
            AccessError::AmbiguousTribe,
        ),
{
    assert(!no_admin_row(user, rows));
    assert forall|k: int| !sole_admin_row(user, rows, k) by {
        if sole_admin_row(user, rows, k) {
            if k != i {
                assert(!admin_eligible(user, rows[i]));
            } else {
                assert(!admin_eligible(user, rows[j]));
            }
        }
    }
}

/// An account with admin rights in exactly one of its memberships, and no
/// tribe named, acts in that tribe.
pub proof fn lemma_sole_admin_tribe_is_default(user: UserView, rows: Seq<UserTribeView>, i: int)
    requires
        sole_admin_row(user, rows, i),
    ensures
        resolved_tribe(Some(user), rows, None) == Ok::<Seq<char>, AccessError>(rows[i].tribe),
{
    assert(!no_admin_row(user, rows));
    let w = choose|k: int| sole_admin_row(user, rows, k);
    if w != i {
        assert(!admin_eligible(user, rows[i]));
    }
}

/// Naming a tribe settles the choice: a member with admin rights in the
/// named tribe acts in it, whatever its other memberships are; and naming a
/// tribe that the account is no member of is refused, whatever rights the
/// account has elsewhere or globally.
pub proof fn lemma_named_tribe_decides(user: UserView, rows: Seq<UserTribeView>, tribe: Seq<char>)
    ensures
        not_a_member(rows, tribe) && rows.len() > 0 ==> resolved_tribe(
            Some(user),
            rows,
            Some(tribe),
        ) == Err::<Seq<char>, AccessError>(AccessError::NotInSpecifiedTribe),
        forall|i: int|
            first_in_tribe(rows, tribe, i) && admin_eligible(user, rows[i]) ==> resolved_tribe(
                Some(user),
                rows,
                Some(tribe),
            ) == Ok::<Seq<char>, AccessError>(tribe),
{
    assert forall|i: int|
        first_in_tribe(rows, tribe, i) && admin_eligible(user, rows[i]) implies resolved_tribe(
        Some(user),
        rows,
        Some(tribe),
    ) == Ok::<Seq<char>, AccessError>(tribe) by {
        let w = choose|k: int| first_in_tribe(rows, tribe, k);
        assert(!not_a_member(rows, tribe)) by {
            assert(rows[i].tribe == tribe);
        }
        if w < i {
            assert(rows[w].tribe != tribe);
        } else if i < w {
            assert(rows[i].tribe != tribe);
        }
    }
}

} // verus!
