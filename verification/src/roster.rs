//! Rosters: the members of a tribe as its admins see them. The queries are
//! planned here as fixed variants, so that no text from a client ever names
//! a column or an order.

use vstd::prelude::*;
use vstd::seq_lib::to_multiset_build;
use vstd::string::StringExecFns;
use crate::access::AccessError;
use crate::models::{opt_text, User};
use crate::text::{clone_texts, concat3, contains_text, opt_text_is, same_text, views_of};

verus! {

/// The query of a request for one member.
#[derive(Debug)]
pub struct MemberQuery {
    pub tribe: Option<String>,
    pub audit_page: Option<i64>,
    pub audit_per_page: Option<i64>,
}

/// The query of a request for a roster.
#[derive(Debug)]
pub struct RosterQuery {
    pub tribe: Option<String>,
    /// "username", "wallet_count" or "last_login".
    pub sort: Option<String>,
    /// "asc" or "desc".
    pub order: Option<String>,
    pub search: Option<String>,
}

/// The body of a request to grant admin rights.
#[derive(Debug)]
pub struct GrantAdminRequest {
    pub wallet_id: String,
}

/// A wallet binding with the tribes whose memberships rest on it.
#[derive(Debug)]
pub struct LinkedWallet {
    pub id: String,
    pub user_id: i64,
    pub address: String,
    pub verified_at: i64,
    pub deleted_at: Option<i64>,
    pub tribes: Vec<String>,
}

pub struct LinkedWalletView {
    pub id: Seq<char>,
    pub user_id: i64,
    pub address: Seq<char>,
    pub verified_at: i64,
    pub deleted_at: Option<i64>,
    pub tribes: Seq<Seq<char>>,
}

impl View for LinkedWallet {
    type V = LinkedWalletView;

    open spec fn view(&self) -> LinkedWalletView {
        LinkedWalletView {
            id: self.id@,
            user_id: self.user_id,
            address: self.address@,
            verified_at: self.verified_at,
            deleted_at: self.deleted_at,
            tribes: views_of(self.tribes@),
        }
    }
}

impl Clone for LinkedWallet {
    fn clone(&self) -> (r: Self)
        ensures
            r@ == self@,
    {
        LinkedWallet {
            id: self.id.clone(),
            user_id: self.user_id,
            address: self.address.clone(),
            verified_at: self.verified_at,
            deleted_at: self.deleted_at,
            tribes: clone_texts(&self.tribes),
        }
    }
}

/// One row of a wallet binding joined with a membership that rests on it:
/// the binding, and the membership's tribe where there is one.
#[derive(Debug)]
pub struct FlatLinkedWallet {
    pub id: String,
    pub user_id: i64,
    pub address: String,
    pub verified_at: i64,
    pub deleted_at: Option<i64>,
    pub tribe: Option<String>,
}

pub struct FlatLinkedWalletView {
    pub id: Seq<char>,
    pub user_id: i64,
    pub address: Seq<char>,
    pub verified_at: i64,
    pub deleted_at: Option<i64>,
    pub tribe: Option<Seq<char>>,
}

impl View for FlatLinkedWallet {
    type V = FlatLinkedWalletView;

    open spec fn view(&self) -> FlatLinkedWalletView {
        FlatLinkedWalletView {
            id: self.id@,
            user_id: self.user_id,
            address: self.address@,
            verified_at: self.verified_at,
            deleted_at: self.deleted_at,
            tribe: opt_text(self.tribe),
        }
    }
}

/// An audit entry with its actor's public name.
#[derive(Debug)]
pub struct AuditLogWithActor {
    pub id: String,
    pub action: String,
    pub actor_id: i64,
    pub target_id: Option<i64>,
    pub details: String,
    pub created_at: i64,
    pub actor_username: String,
    pub actor_discriminator: String,
}

/// One page of audit entries.
#[derive(Debug)]
pub struct PaginatedAudits {
    pub items: Vec<AuditLogWithActor>,
    pub total: i64,
    pub page: i64,
    pub per_page: i64,
    pub total_pages: i64,
}

/// A member of a tribe as an admin sees it.
#[derive(Debug)]
pub struct RosterMember {
    pub discord_id: String,
    pub username: String,
    pub avatar: Option<String>,
    pub last_login_at: Option<i64>,
    pub wallets: Vec<LinkedWallet>,
    pub audits: Option<PaginatedAudits>,
}

/// The columns by which the store can order a roster.
#[derive(Debug, Clone, Copy, PartialEq, Eq, Structural)]
pub enum SortColumn {
    Username,
    LastLogin,
}

/// How a roster is fetched: which column the store orders by and in which
/// direction, which pattern it filters by, and whether the result is then
/// ordered by the number of wallets.
#[derive(Debug)]
pub struct RosterPlan {
    pub column: SortColumn,
    pub descending: bool,
    /// The pattern that user names and external identities are matched
    /// against: the search text between two `%`.
    pub search_pattern: Option<String>,
    pub by_wallet_count: bool,
}

/// The column that the store orders a roster by: the time of the last login
/// where the sort key says so, else the user name.
pub open spec fn planned_column(sort: Option<Seq<char>>) -> SortColumn {
    if sort == Some("last_login"@) {
        SortColumn::LastLogin
    } else {
        SortColumn::Username
    }
}

/// Whether a roster is ordered downwards: only where the order says "desc".
pub open spec fn planned_descending(order: Option<Seq<char>>) -> bool {
    order == Some("desc"@)
}

/// The pattern that a search text stands for: the text anywhere in the
/// name, so the text between two `%`; an empty text is no search.
pub open spec fn planned_pattern(search: Option<Seq<char>>) -> Option<Seq<char>> {
    match search {
        Some(s) => if s.len() == 0 {
            None
        } else {
            Some("%"@ + s + "%"@)
        },
        None => None,
    }
}

/// Whether a roster is ordered by the number of wallets in the end.
pub open spec fn planned_by_count(sort: Option<Seq<char>>) -> bool {
    sort == Some("wallet_count"@)
}

/// The plan for a roster query. Any sort key but "last_login" orders by user
/// name; any order but "desc" is ascending; an empty search text is no
/// search.
pub fn plan_roster(query: &RosterQuery) -> (r: RosterPlan)
    ensures
        r.column == planned_column(opt_text(query.sort)),
        r.descending == planned_descending(opt_text(query.order)),
        r.by_wallet_count == planned_by_count(opt_text(query.sort)),
        opt_text(r.search_pattern) == planned_pattern(opt_text(query.search)),
{
    let column = if opt_text_is(&query.sort, "last_login") {
        SortColumn::LastLogin
    } else {
        SortColumn::Username
    };
    let search_pattern = match &query.search {
        Some(s) => {
            if s.as_str().unicode_len() == 0 {
                None
            } else {
                Some(concat3("%", s.as_str(), "%"))
            }
        },
        None => None,
    };
    RosterPlan {
        column,
        descending: opt_text_is(&query.order, "desc"),
        search_pattern,
        by_wallet_count: opt_text_is(&query.sort, "wallet_count"),
    }
}

/// The most audit entries on one page.
pub const MAX_PER_PAGE: i64 = 100;

/// The audit entries on one page where the request names no number.
pub const DEFAULT_PER_PAGE: i64 = 10;

/// Which part of a list a page shows.
#[derive(Debug, Clone, Copy, PartialEq, Eq, Structural)]
pub struct PageWindow {
    /// The page, counted from one.
    pub page: i64,
    pub per_page: i64,
    /// How many entries come before the page.
    pub offset: i64,
    pub total_pages: i64,
}

/// The page that a request asks for: at least the first.
pub open spec fn page_of(audit_page: Option<i64>) -> i64 {
    match audit_page {
        Some(p) => if p < 1 {
            1
        } else {
            p
        },
        None => 1,
    }
}

/// The page size that a request asks for: between one and `MAX_PER_PAGE`.
pub open spec fn per_page_of(audit_per_page: Option<i64>) -> i64 {
    match audit_per_page {
        Some(n) => if n < 1 {
            1
        } else if n > MAX_PER_PAGE {
            MAX_PER_PAGE
        } else {
            n
        },
        None => DEFAULT_PER_PAGE,
    }
}

/// The number of pages that `total` entries fill: `total` divided by the
/// page size, rounded up.
pub open spec fn pages_for(total: i64, per_page: i64) -> int {
    if total <= 0 {
        0
    } else {
        (total + per_page - 1) / (per_page as int)
    }
}

/// The window of a page: the entries before it number `(page - 1) *
/// per_page`, capped at the largest number where the product does not fit.
pub open spec fn window_for(query: MemberQuery, total: i64) -> PageWindow {
    let page = page_of(query.audit_page);
    let per_page = per_page_of(query.audit_per_page);
    PageWindow {
        page,
        per_page,
        offset: if (page - 1) * per_page > i64::MAX {
            i64::MAX
        } else {
            ((page - 1) * per_page) as i64
        },
        total_pages: pages_for(total, per_page) as i64,
    }
}

/// Works out which audit entries a request for a member shows.
pub fn paginate(query: &MemberQuery, total: i64) -> (r: PageWindow)
    ensures
        r == window_for(*query, total),
        1 <= r.page,
        1 <= r.per_page <= MAX_PER_PAGE,
        0 <= r.offset,
        0 <= r.total_pages <= total || total <= 0,
{
    let page: i64 = match query.audit_page {
        Some(p) => if p < 1 {
            1
        } else {
            p
        },
        None => 1,
    };
    let per_page: i64 = match query.audit_per_page {
        Some(n) => if n < 1 {
            1
        } else if n > MAX_PER_PAGE {
            MAX_PER_PAGE
        } else {
            n
        },
        None => DEFAULT_PER_PAGE,
    };
    assert(0 <= (page - 1) * per_page <= 0x7fff_ffff_ffff_ffff * 100) by (nonlinear_arith)
        requires
            1 <= page <= 0x7fff_ffff_ffff_ffff,
            1 <= per_page <= 100,
    ;
    let wide: i128 = ((page - 1) as i128) * (per_page as i128);
    let offset: i64 = if wide > (i64::MAX as i128) {
        i64::MAX
    } else {
        wide as i64
    };
    let total_pages: i64 = if total <= 0 {
        0
    } else {
        let sum: i128 = (total as i128) + (per_page as i128) - 1;
        let pages = sum / (per_page as i128);
        assert(0 <= pages <= total) by (nonlinear_arith)
            requires
                pages == sum / (per_page as i128),
                sum == total + per_page - 1,
                total >= 1,
                per_page >= 1,
        ;
        pages as i64
    };
    PageWindow { page, per_page, offset, total_pages }
}

/// Whether a look at a member's details is recorded: only where an admin
/// looks at someone else.
pub fn records_member_view(viewer_id: i64, member_id: i64) -> (r: bool)
    ensures
        r == (viewer_id != member_id),
{
    viewer_id != member_id
}

/// What a request for a roster is answered with, given how the resolution
/// of the tribe went: an account in no tribe sees an empty roster instead of
/// an error.
pub open spec fn roster_access(resolution: Result<Seq<char>, AccessError>) -> Result<
    Option<Seq<char>>,
    AccessError,
> {
    match resolution {
        Ok(tribe) => Ok(Some(tribe)),
        Err(AccessError::NotInAnyTribe) => Ok(None),
        Err(e) => Err(e),
    }
}

/// The views of a list of joined rows.
pub open spec fn flat_view(rows: Seq<FlatLinkedWallet>) -> Seq<FlatLinkedWalletView> {
    rows.map_values(|row: FlatLinkedWallet| row@)
}

/// The views of a list of wallets.
pub open spec fn wallets_view(wallets: Seq<LinkedWallet>) -> Seq<LinkedWalletView> {
    wallets.map_values(|w: LinkedWallet| w@)
}

/// The first row of the binding `id`, if there is one.
pub open spec fn first_row(rows: Seq<FlatLinkedWalletView>, id: Seq<char>) -> Option<
    FlatLinkedWalletView,
>
    decreases rows.len(),
{
    if rows.len() == 0 {
        None
    } else {
        match first_row(rows.drop_last(), id) {
            Some(row) => Some(row),
            None => if rows.last().id == id {
                Some(rows.last())
            } else {
                None
            },
        }
    }
}

/// The ids of the bindings in the rows, each once, in the order in which
/// they first appear.
pub open spec fn group_ids(rows: Seq<FlatLinkedWalletView>) -> Seq<Seq<char>>
    decreases rows.len(),
{
    if rows.len() == 0 {
        Seq::<Seq<char>>::empty()
    } else {
        let before = group_ids(rows.drop_last());
        if before.contains(rows.last().id) {
            before
        } else {
            before.push(rows.last().id)
        }
    }
}

/// The tribes in the rows of the binding `id`, each once, in the order in
/// which they first appear.
pub open spec fn tribes_of_wallet(rows: Seq<FlatLinkedWalletView>, id: Seq<char>) -> Seq<Seq<char>>
    decreases rows.len(),
{
    if rows.len() == 0 {
        Seq::<Seq<char>>::empty()
    } else {
        let before = tribes_of_wallet(rows.drop_last(), id);
        let row = rows.last();
        if row.id == id && row.tribe is Some && !before.contains(row.tribe->0) {
            before.push(row.tribe->0)
        } else {
            before
        }
    }
}

/// The binding `id` as the rows describe it: the fields of its first row,
/// with the tribes of all its rows.
pub open spec fn grouped_wallet(rows: Seq<FlatLinkedWalletView>, id: Seq<char>) -> LinkedWalletView {
    let row = first_row(rows, id)->0;
    LinkedWalletView {
        id,
        user_id: row.user_id,
        address: row.address,
        verified_at: row.verified_at,
        deleted_at: row.deleted_at,
        tribes: tribes_of_wallet(rows, id),
    }
}

/// The bindings that the rows describe, each once, in the order in which
/// they first appear.
pub open spec fn grouped(rows: Seq<FlatLinkedWalletView>) -> Seq<LinkedWalletView> {
    group_ids(rows).map_values(|id: Seq<char>| grouped_wallet(rows, id))
}

proof fn lemma_group_membership(rows: Seq<FlatLinkedWalletView>, id: Seq<char>)
    ensures
        group_ids(rows).contains(id) <==> first_row(rows, id) is Some,
        first_row(rows, id) matches Some(row) ==> row.id == id,
        !group_ids(rows).contains(id) ==> tribes_of_wallet(rows, id).len() == 0,
    decreases rows.len(),
{
    if rows.len() > 0 {
        let init = rows.drop_last();
        lemma_group_membership(init, id);
        let before = group_ids(init);
        if before.contains(rows.last().id) {
            if rows.last().id == id {
            }
        } else {
            let after = before.push(rows.last().id);
            assert(after[before.len() as int] == rows.last().id);
            if after.contains(id) {
                let k = choose|k: int| 0 <= k < after.len() && after[k] == id;
                if k < before.len() {
                    assert(before[k] == id);
                }
            }
            if before.contains(id) {
                let k = choose|k: int| 0 <= k < before.len() && before[k] == id;
                assert(after[k] == id);
            }
        }
    }
}

proof fn lemma_group_ids_distinct(rows: Seq<FlatLinkedWalletView>)
    ensures
        forall|a: int, b: int|
            0 <= a < b < group_ids(rows).len() ==> group_ids(rows)[a] != group_ids(rows)[b],
    decreases rows.len(),
{
    if rows.len() > 0 {
        let init = rows.drop_last();
        lemma_group_ids_distinct(init);
        let before = group_ids(init);
        if !before.contains(rows.last().id) {
            let after = before.push(rows.last().id);
            assert forall|a: int, b: int| 0 <= a < b < after.len() implies after[a] != after[b] by {
                if b == before.len() {
                    if after[a] == after[b] {
                        assert(before[a] == rows.last().id);
                    }
                }
            }
        }
    }
}

proof fn lemma_grouped_other(rows: Seq<FlatLinkedWalletView>, row: FlatLinkedWalletView, id: Seq<char>)
    requires
        id != row.id,
    ensures
        grouped_wallet(rows.push(row), id) == grouped_wallet(rows, id),
{
    assert(rows.push(row).drop_last() =~= rows);
}

/// Groups joined rows into wallet bindings: one entry for each binding, in
/// the order in which the bindings first appear, with the fields of the
/// binding's first row and the tribes of all its rows, each tribe once.
pub fn group_wallets(rows: &Vec<FlatLinkedWallet>) -> (r: Vec<LinkedWallet>)
    ensures
        wallets_view(r@) == grouped(flat_view(rows@)),
{
    let ghost all = flat_view(rows@);
    let mut out: Vec<LinkedWallet> = Vec::new();
    let mut i: usize = 0;
    assert(all.take(0) =~= Seq::<FlatLinkedWalletView>::empty());
    assert(wallets_view(out@) =~= grouped(all.take(0)));
    while i < rows.len()
        invariant
            i <= rows.len(),
            all == flat_view(rows@),
            wallets_view(out@) == grouped(all.take(i as int)),
        decreases rows.len() - i,
    {
        let ghost prev = all.take(i as int);
        let ghost next = all.take(i + 1);
        let ghost row = all[i as int];
        let ghost before = wallets_view(out@);
        proof {
            assert(next =~= prev.push(row));
            assert(next.drop_last() =~= prev);
            lemma_group_membership(prev, row.id);
            lemma_group_ids_distinct(prev);
            assert(before.len() == group_ids(prev).len());
            assert forall|q: int| 0 <= q < before.len() implies (#[trigger] before[q]).id
                == group_ids(prev)[q] by {}
        }
        let mut pos: Option<usize> = None;
        let mut k: usize = 0;
        while k < out.len() && pos.is_none()
            invariant
                k <= out.len(),
                before == wallets_view(out@),
                pos is None ==> forall|q: int| 0 <= q < k ==> (#[trigger] before[q]).id != row.id,
                pos matches Some(p) ==> p < out.len() && before[p as int].id == row.id,
                row == flat_view(rows@)[i as int],
                i < rows.len(),
            decreases out.len() - k + (if pos is None { 1int } else { 0int }),
        {
            if same_text(out[k].id.as_str(), rows[i].id.as_str()) {
                pos = Some(k);
            } else {
                k = k + 1;
            }
        }
        match pos {
            Some(p) => {
                proof {
                    assert(group_ids(prev)[p as int] == row.id);
                    assert(group_ids(prev).contains(row.id));
                    assert(group_ids(next) == group_ids(prev));
                }
                let add = match &rows[i].tribe {
                    Some(t) => !contains_text(&out[p].tribes, t.as_str()),
                    None => false,
                };
                if add {
                    let mut tribes = clone_texts(&out[p].tribes);
                    let ghost old_tribes = views_of(tribes@);
                    match &rows[i].tribe {
                        Some(t) => {
                            tribes.push(t.clone());
                        },
                        None => {},
                    }
                    assert(views_of(tribes@) =~= old_tribes.push(row.tribe->0));
                    let wallet = LinkedWallet {
                        id: out[p].id.clone(),
                        user_id: out[p].user_id,
                        address: out[p].address.clone(),
                        verified_at: out[p].verified_at,
                        deleted_at: out[p].deleted_at,
                        tribes,
                    };
                    out.set(p, wallet);
                    assert(wallets_view(out@) =~= before.update(p as int, wallet@));
                }
                proof {
                    let after = wallets_view(out@);
                    assert forall|q: int| 0 <= q < after.len() implies after[q] == grouped_wallet(
                        next,
                        group_ids(next)[q],
                    ) by {
                        let id = group_ids(prev)[q];
                        assert(before[q] == grouped_wallet(prev, id));
                        if q != p as int {
                            if q < p as int {
                                assert(group_ids(prev)[q] != group_ids(prev)[p as int]);
                            } else {
                                assert(group_ids(prev)[p as int] != group_ids(prev)[q]);
                            }
                            lemma_grouped_other(prev, row, id);
                        }
                    }
                    assert(after =~= grouped(next));
                }
            },
            None => {
                proof {
                    assert(!group_ids(prev).contains(row.id)) by {
                        if group_ids(prev).contains(row.id) {
                            let q = choose|q: int|
                                0 <= q < group_ids(prev).len() && group_ids(prev)[q] == row.id;
                            assert(before[q].id == row.id);
                        }
                    }
                    assert(group_ids(next) == group_ids(prev).push(row.id));
                }
                let mut tribes: Vec<String> = Vec::new();
                match &rows[i].tribe {
                    Some(t) => {
                        tribes.push(t.clone());
                        assert(views_of(tribes@) =~= seq![row.tribe->0]);
                    },
                    None => {
                        assert(views_of(tribes@) =~= Seq::<Seq<char>>::empty());
                    },
                }
                let wallet = LinkedWallet {
                    id: rows[i].id.clone(),
                    user_id: rows[i].user_id,
                    address: rows[i].address.clone(),
                    verified_at: rows[i].verified_at,
                    deleted_at: rows[i].deleted_at,
                    tribes,
                };
                out.push(wallet);
                proof {
                    let after = wallets_view(out@);
                    assert(after =~= before.push(wallet@));
                    assert(tribes_of_wallet(prev, row.id) =~= Seq::<Seq<char>>::empty());
                    assert(wallet@.tribes =~= tribes_of_wallet(next, row.id));
                    assert forall|q: int| 0 <= q < after.len() implies after[q] == grouped_wallet(
                        next,
                        group_ids(next)[q],
                    ) by {
                        if q < before.len() {
                            let id = group_ids(prev)[q];
                            assert(before[q] == grouped_wallet(prev, id));
                            assert(id != row.id) by {
                                if id == row.id {
                                    assert(before[q].id == row.id);
                                }
                            }
                            lemma_grouped_other(prev, row, id);
                        }
                    }
                    assert(after =~= grouped(next));
                }
            },
        }
        i = i + 1;
    }
    assert(all.take(rows.len() as int) =~= all);
    out
}

/// The members are in the order of their numbers of wallets: rising, or
/// falling where `descending` is set.
pub open spec fn ordered_by_wallet_count(roster: Seq<RosterMember>, descending: bool) -> bool {
    forall|i: int, j: int|
        0 <= i < j < roster.len() ==> if descending {
            (#[trigger] roster[i]).wallets.len() >= (#[trigger] roster[j]).wallets.len()
        } else {
            roster[i].wallets.len() <= roster[j].wallets.len()
        }
}

/// How many of the leading members have no more wallets than `member`: the
/// place after them is where `member` goes.
pub open spec fn count_point(sorted: Seq<RosterMember>, member: RosterMember) -> int
    decreases sorted.len(),
{
    if sorted.len() == 0 {
        0
    } else if sorted[0].wallets.len() <= member.wallets.len() {
        1 + count_point(sorted.drop_first(), member)
    } else {
        0
    }
}

/// The members in the rising order of their numbers of wallets, members
/// with equal numbers in the order they had: each member in turn is put
/// after the leading members that have no more wallets.
pub open spec fn stable_by_count(roster: Seq<RosterMember>) -> Seq<RosterMember>
    decreases roster.len(),
{
    if roster.len() == 0 {
        roster
    } else {
        let before = stable_by_count(roster.drop_last());
        before.insert(count_point(before, roster.last()), roster.last())
    }
}

/// The members ordered by their numbers of wallets: rising and stable, and
/// the reverse of that where `descending` is set.
pub open spec fn sorted_by_wallet_count(roster: Seq<RosterMember>, descending: bool) -> Seq<
    RosterMember,
> {
    if descending {
        stable_by_count(roster).reverse()
    } else {
        stable_by_count(roster)
    }
}

/// The place where a member goes lies after every member with no more
/// wallets and before a member with more.
pub proof fn lemma_count_point(sorted: Seq<RosterMember>, member: RosterMember)
    ensures
        0 <= count_point(sorted, member) <= sorted.len(),
        forall|j: int|
            0 <= j < count_point(sorted, member) ==> (#[trigger] sorted[j]).wallets.len()
                <= member.wallets.len(),
        count_point(sorted, member) < sorted.len() ==> sorted[count_point(
            sorted,
            member,
        )].wallets.len() > member.wallets.len(),
    decreases sorted.len(),
{
    if sorted.len() > 0 && sorted[0].wallets.len() <= member.wallets.len() {
        let rest = sorted.drop_first();
        lemma_count_point(rest, member);
        let p = count_point(rest, member);
        assert forall|j: int| 0 <= j < p + 1 implies (#[trigger] sorted[j]).wallets.len()
            <= member.wallets.len() by {
            if j > 0 {
                assert(sorted[j] == rest[j - 1]);
            }
        }
        if p + 1 < sorted.len() {
            assert(sorted[p + 1] == rest[p]);
        }
    }
}

/// Ordering by wallets keeps every member, each as often as before, and
/// puts them in rising order.
pub proof fn lemma_stable_by_count(roster: Seq<RosterMember>)
    ensures
        stable_by_count(roster).len() == roster.len(),
        stable_by_count(roster).to_multiset() == roster.to_multiset(),
        ordered_by_wallet_count(stable_by_count(roster), false),
    decreases roster.len(),
{
    if roster.len() > 0 {
        let init = roster.drop_last();
        let x = roster.last();
        lemma_stable_by_count(init);
        let before = stable_by_count(init);
        lemma_count_point(before, x);
        let p = count_point(before, x);
        let after = before.insert(p, x);
        vstd::seq_lib::to_multiset_insert(before, p, x);
        to_multiset_build(init, x);
        assert(init.push(x) =~= roster);
        assert forall|i: int, j: int| 0 <= i < j < after.len() implies (
        #[trigger] after[i]).wallets.len() <= (#[trigger] after[j]).wallets.len() by {
            if j < p {
                assert(after[i] == before[i] && after[j] == before[j]);
            } else if j == p {
                assert(after[i] == before[i]);
            } else if i < p {
                assert(after[i] == before[i] && after[j] == before[j - 1]);
                if p < j - 1 {
                    assert(before[p].wallets.len() <= before[j - 1].wallets.len());
                }
            } else if i == p {
                assert(after[j] == before[j - 1]);
                if p < j - 1 {
                    assert(before[p].wallets.len() <= before[j - 1].wallets.len());
                }
            } else {
                assert(after[i] == before[i - 1] && after[j] == before[j - 1]);
            }
        }
    }
}

/// Orders a roster by the members' numbers of wallets, rising; members with
/// equal numbers keep their order. Where `descending` is set the whole
/// order is reversed. The result holds the same members, each as often as
/// before.
pub fn sort_by_wallet_count(roster: Vec<RosterMember>, descending: bool) -> (r: Vec<RosterMember>)
    ensures
        r@ == sorted_by_wallet_count(roster@, descending),
        r@.to_multiset() == roster@.to_multiset(),
        ordered_by_wallet_count(r@, descending),
{
    let ghost given = roster@;
    let mut rest = roster;
    let mut rising: Vec<RosterMember> = Vec::new();
    let ghost mut done: int = 0;
    assert(given.take(0) =~= Seq::<RosterMember>::empty());
    assert(given.skip(0) =~= given);
    while rest.len() > 0
        invariant
            0 <= done <= given.len(),
            rest@ == given.skip(done),
            rising@ == stable_by_count(given.take(done)),
        decreases rest.len(),
    {
        let ghost before = rising@;
        let member = rest.remove(0);
        proof {
            assert(member == given[done]);
            assert(rest@ =~= given.skip(done + 1));
            assert(given.take(done + 1).drop_last() =~= given.take(done));
            assert(given.take(done + 1).last() == member);
            assert(before.skip(0) =~= before);
        }
        let mut at: usize = 0;
        while at < rising.len() && rising[at].wallets.len() <= member.wallets.len()
            invariant
                at <= rising.len(),
                rising@ == before,
                count_point(before, member) == at + count_point(before.skip(at as int), member),
            decreases rising.len() - at,
        {
            proof {
                assert(before.skip(at as int)[0] == before[at as int]);
                assert(before.skip(at as int).drop_first() =~= before.skip(at + 1));
            }
            at = at + 1;
        }
        proof {
            if at < rising.len() {
                assert(before.skip(at as int)[0] == before[at as int]);
            }
            assert(count_point(before.skip(at as int), member) == 0);
        }
        rising.insert(at, member);
        proof {
            done = done + 1;
        }
    }
    proof {
        assert(given.take(given.len() as int) =~= given);
        lemma_stable_by_count(given);
    }
    if !descending {
        return rising;
    }
    let ghost up = rising@;
    let mut falling: Vec<RosterMember> = Vec::new();
    while rising.len() > 0
        invariant
            rising.len() + falling.len() == up.len(),
            rising@ == up.take(rising.len() as int),
            falling@ == up.reverse().take(falling.len() as int),
        decreases rising.len(),
    {
        let ghost before = falling@;
        let last = rising.len() - 1;
        let member = rising.remove(last);
        assert(member == up[last as int]);
        assert(rising@ =~= up.take(last as int));
        falling.push(member);
        assert(up.reverse()[before.len() as int] == up[last as int]);
        assert(falling@ =~= up.reverse().take(before.len() as int + 1));
    }
    proof {
        assert(falling@ =~= up.reverse());
        up.lemma_reverse_to_multiset();
        assert forall|i: int, j: int| 0 <= i < j < falling.len() implies (
        #[trigger] falling@[i]).wallets.len() >= (#[trigger] falling@[j]).wallets.len() by {
            assert(falling@[i] == up[up.len() - 1 - i]);
            assert(falling@[j] == up[up.len() - 1 - j]);
        }
    }
    falling
}

/// The tribe whose roster a request sees, given how the resolution of the
/// caller's tribe went: the caller and the resolved tribe; nothing for a
/// caller in no tribe, who sees an empty roster; any other failure as it
/// is.
pub fn roster_scope(resolution: Result<(User, String, Vec<String>), AccessError>) -> (r: Result<
    Option<(User, String)>,
    AccessError,
>)
    ensures
        match r {
            Ok(Some(scope)) => resolution matches Ok(ctx) && scope.0 == ctx.0 && scope.1
                == ctx.1,
            Ok(None) => resolution == Err::<(User, String, Vec<String>), AccessError>(
                AccessError::NotInAnyTribe,
            ),
            Err(e) => e != AccessError::NotInAnyTribe && resolution == Err::<
                (User, String, Vec<String>),
                AccessError,
            >(e),
        },
{
    match resolution {
        Ok((user, tribe, _)) => Ok(Some((user, tribe))),
        Err(AccessError::NotInAnyTribe) => Ok(None),
        Err(e) => Err(e),
    }
}

} // verus!
