//! Short-lived, single-use tokens held in memory: a keyed store in which
//! every entry carries its time of issue, is handed out at most once and is
//! refused once it is older than the store's time to live.

use vstd::prelude::*;
use crate::text::same_text;

verus! {

/// One stored token.
#[derive(Debug)]
pub struct StoredToken {
    pub key: String,
    pub value: String,
    pub issued_at: i64,
}

pub struct StoredTokenView {
    pub key: Seq<char>,
    pub value: Seq<char>,
    pub issued_at: i64,
}

impl View for StoredToken {
    type V = StoredTokenView;

    open spec fn view(&self) -> StoredTokenView {
        StoredTokenView { key: self.key@, value: self.value@, issued_at: self.issued_at }
    }
}

/// Why a token could not be consumed.
#[derive(Debug, Clone, Copy, PartialEq, Eq, Structural)]
pub enum ConsumeError {
    /// Nothing is stored under the key: never issued, or consumed already.
    NotFound,
    /// The stored token was older than the time to live.
    Expired,
}

/// The views of a list of stored tokens.
pub open spec fn tokens_view(entries: Seq<StoredToken>) -> Seq<StoredTokenView> {
    entries.map_values(|e: StoredToken| e@)
}

/// No two entries share a key.
pub open spec fn keys_distinct(entries: Seq<StoredTokenView>) -> bool {
    forall|i: int, j: int|
        0 <= i < j < entries.len() ==> (#[trigger] entries[i]).key != (#[trigger] entries[j]).key
}

/// Some entry is stored under the key.
pub open spec fn has_key(entries: Seq<StoredTokenView>, key: Seq<char>) -> bool {
    exists|i: int| 0 <= i < entries.len() && (#[trigger] entries[i]).key == key
}

/// The position of an entry stored under the key.
pub open spec fn index_of_key(entries: Seq<StoredTokenView>, key: Seq<char>) -> int {
    choose|i: int| 0 <= i < entries.len() && (#[trigger] entries[i]).key == key
}

/// The entries as a map from key to token and time of issue.
pub open spec fn tokens_map(entries: Seq<StoredTokenView>) -> Map<Seq<char>, (Seq<char>, i64)> {
    Map::new(
        |k: Seq<char>| has_key(entries, k),
        |k: Seq<char>|
            (entries[index_of_key(entries, k)].value, entries[index_of_key(entries, k)].issued_at),
    )
}

/// A token is stale when more than `ttl` milliseconds passed since its issue.
pub open spec fn is_stale(issued_at: i64, now: i64, ttl: i64) -> bool {
    now - issued_at > ttl
}

/// What consuming the token under `key` at time `now` hands out.
pub open spec fn consumed(
    stored: Map<Seq<char>, (Seq<char>, i64)>,
    key: Seq<char>,
    now: i64,
    ttl: i64,
) -> Result<Seq<char>, ConsumeError> {
    if !stored.contains_key(key) {
        Err(ConsumeError::NotFound)
    } else if is_stale(stored[key].1, now, ttl) {
        Err(ConsumeError::Expired)
    } else {
        Ok(stored[key].0)
    }
}

/// A token is single-use: once the token under a key was consumed, at any
/// time and whether it was fresh or stale, consuming under the same key again
/// finds nothing, until a new token is issued.
pub proof fn lemma_consume_is_single_use(
    stored: Map<Seq<char>, (Seq<char>, i64)>,
    key: Seq<char>,
    later: i64,
    ttl: i64,
)
    ensures
        consumed(stored.remove(key), key, later, ttl) == Err::<Seq<char>, ConsumeError>(
            ConsumeError::NotFound,
        ),
{
}

/// A token that was just stored is handed out by the next consumption under
/// its key, if that comes within the time to live, and not after.
pub proof fn lemma_stored_token_is_consumed(
    stored: Map<Seq<char>, (Seq<char>, i64)>,
    key: Seq<char>,
    value: Seq<char>,
    issued_at: i64,
    now: i64,
    ttl: i64,
)
    ensures
        consumed(stored.insert(key, (value, issued_at)), key, now, ttl) == if now - issued_at
            > ttl {
            Err::<Seq<char>, ConsumeError>(ConsumeError::Expired)
        } else {
            Ok::<Seq<char>, ConsumeError>(value)
        },
{
}

proof fn lemma_index_of_key(entries: Seq<StoredTokenView>, i: int)
    requires
        keys_distinct(entries),
        0 <= i < entries.len(),
    ensures
        has_key(entries, entries[i].key),
        index_of_key(entries, entries[i].key) == i,
{
    let k = entries[i].key;
    let w = index_of_key(entries, k);
    assert(0 <= w < entries.len() && entries[w].key == k);
    if w < i {
        assert(entries[w].key != entries[i].key);
    } else if i < w {
        assert(entries[i].key != entries[w].key);
    }
}

proof fn lemma_map_push(entries: Seq<StoredTokenView>, e: StoredTokenView)
    requires
        keys_distinct(entries),
        !has_key(entries, e.key),
    ensures
        keys_distinct(entries.push(e)),
        tokens_map(entries.push(e)) == tokens_map(entries).insert(e.key, (e.value, e.issued_at)),
{
    let after = entries.push(e);
    assert(keys_distinct(after)) by {
        assert forall|i: int, j: int| 0 <= i < j < after.len() implies (#[trigger] after[i]).key
            != (#[trigger] after[j]).key by {
            if j == entries.len() {
                assert(entries[i].key != e.key);
            } else {
                assert(entries[i].key != entries[j].key);
            }
        }
    }
    let want = tokens_map(entries).insert(e.key, (e.value, e.issued_at));
    assert forall|k: Seq<char>| tokens_map(after).dom().contains(k) <==> want.dom().contains(
        k,
    ) by {
        if has_key(after, k) {
            let i = index_of_key(after, k);
            if i < entries.len() {
                assert(entries[i].key == k);
            }
        }
        if has_key(entries, k) {
            let i = index_of_key(entries, k);
            assert(after[i].key == k);
        }
        if k == e.key {
            assert(after[entries.len() as int].key == k);
        }
    }
    assert forall|k: Seq<char>| tokens_map(after).dom().contains(k) implies tokens_map(after)[k]
        == want[k] by {
        let i = index_of_key(after, k);
        lemma_index_of_key(after, i);
        if i < entries.len() {
            lemma_index_of_key(entries, i);
        }
    }
    assert(tokens_map(after) =~= want);
}

proof fn lemma_map_update(entries: Seq<StoredTokenView>, i: int, e: StoredTokenView)
    requires
        keys_distinct(entries),
        0 <= i < entries.len(),
        entries[i].key == e.key,
    ensures
        keys_distinct(entries.update(i, e)),
        tokens_map(entries.update(i, e)) == tokens_map(entries).insert(
            e.key,
            (e.value, e.issued_at),
        ),
{
    let after = entries.update(i, e);
    assert(keys_distinct(after)) by {
        assert forall|a: int, b: int| 0 <= a < b < after.len() implies (#[trigger] after[a]).key
            != (#[trigger] after[b]).key by {
            assert(entries[a].key != entries[b].key);
        }
    }
    let want = tokens_map(entries).insert(e.key, (e.value, e.issued_at));
    assert forall|k: Seq<char>| tokens_map(after).dom().contains(k) <==> want.dom().contains(
        k,
    ) by {
        if has_key(after, k) {
            let j = index_of_key(after, k);
            assert(entries[j].key == k);
        }
        if has_key(entries, k) {
            let j = index_of_key(entries, k);
            assert(after[j].key == k);
        }
        if k == e.key {
            assert(after[i].key == k);
        }
    }
    assert forall|k: Seq<char>| tokens_map(after).dom().contains(k) implies tokens_map(after)[k]
        == want[k] by {
        let j = index_of_key(after, k);
        lemma_index_of_key(after, j);
        lemma_index_of_key(entries, j);
    }
    assert(tokens_map(after) =~= want);
}

proof fn lemma_map_remove(entries: Seq<StoredTokenView>, i: int)
    requires
        keys_distinct(entries),
        0 <= i < entries.len(),
    ensures
        keys_distinct(entries.remove(i)),
        !has_key(entries.remove(i), entries[i].key),
        tokens_map(entries.remove(i)) == tokens_map(entries).remove(entries[i].key),
        tokens_map(entries)[entries[i].key] == (entries[i].value, entries[i].issued_at),
{
    let after = entries.remove(i);
    let gone = entries[i].key;
    assert forall|a: int| 0 <= a < after.len() implies (#[trigger] after[a]) == entries[if a
        < i {
        a
    } else {
        a + 1
    }] by {}
    assert(keys_distinct(after)) by {
        assert forall|a: int, b: int| 0 <= a < b < after.len() implies (#[trigger] after[a]).key
            != (#[trigger] after[b]).key by {
            let a0 = if a < i { a } else { a + 1 };
            let b0 = if b < i { b } else { b + 1 };
            assert(entries[a0].key != entries[b0].key);
        }
    }
    assert(!has_key(after, gone)) by {
        if has_key(after, gone) {
            let a = index_of_key(after, gone);
            let a0 = if a < i { a } else { a + 1 };
            assert(after[a] == entries[a0]);
            if a0 < i {
                assert(entries[a0].key != entries[i].key);
            } else {
                assert(entries[i].key != entries[a0].key);
            }
        }
    }
    let want = tokens_map(entries).remove(gone);
    assert forall|k: Seq<char>| tokens_map(after).dom().contains(k) <==> want.dom().contains(
        k,
    ) by {
        if has_key(after, k) {
            let a = index_of_key(after, k);
            let a0 = if a < i { a } else { a + 1 };
            assert(after[a] == entries[a0]);
            assert(entries[a0].key == k);
        }
        if has_key(entries, k) && k != gone {
            let j = index_of_key(entries, k);
            let a = if j < i { j } else { j - 1 };
            assert(after[a] == entries[j]);
            assert(after[a].key == k);
        }
    }
    assert forall|k: Seq<char>| tokens_map(after).dom().contains(k) implies tokens_map(after)[k]
        == want[k] by {
        let a = index_of_key(after, k);
        let a0 = if a < i { a } else { a + 1 };
        assert(after[a] == entries[a0]);
        lemma_index_of_key(after, a);
        lemma_index_of_key(entries, a0);
    }
    assert(tokens_map(after) =~= want);
    lemma_index_of_key(entries, i);
}

/// A keyed store of single-use tokens with a time to live.
pub struct TokenStore {
    entries: Vec<StoredToken>,
    ttl_millis: i64,
}

impl TokenStore {
    /// The store's invariant: no key is stored twice.
    pub closed spec fn wf(&self) -> bool {
        keys_distinct(tokens_view(self.entries@))
    }

    /// What is stored: for each key, its token and the time of its issue.
    pub closed spec fn view(&self) -> Map<Seq<char>, (Seq<char>, i64)> {
        tokens_map(tokens_view(self.entries@))
    }

    /// The time to live, in milliseconds.
    pub closed spec fn ttl(&self) -> i64 {
        self.ttl_millis
    }

    /// An empty store whose tokens live `ttl_millis` milliseconds.
    pub fn new(ttl_millis: i64) -> (r: Self)
        ensures
            r.wf(),
            r@ == Map::<Seq<char>, (Seq<char>, i64)>::empty(),
            r.ttl() == ttl_millis,
    {
        let r = TokenStore { entries: Vec::new(), ttl_millis };
        assert(r@ =~= Map::<Seq<char>, (Seq<char>, i64)>::empty());
        r
    }

    /// The time to live, in milliseconds.
    pub fn ttl_millis(&self) -> (r: i64)
        ensures
            r == self.ttl(),
    {
        self.ttl_millis
    }

    fn find(&self, key: &str) -> (r: Option<usize>)
        ensures
            match r {
                Some(i) => i < self.entries.len() && tokens_view(self.entries@)[i as int].key
                    == key@,
                None => !has_key(tokens_view(self.entries@), key@),
            },
    {
        let mut i: usize = 0;
        while i < self.entries.len()
            invariant
                i <= self.entries.len(),
                forall|j: int|
                    0 <= j < i ==> (#[trigger] tokens_view(self.entries@)[j]).key != key@,
            decreases self.entries.len() - i,
        {
            if same_text(self.entries[i].key.as_str(), key) {
                return Some(i);
            }
            i = i + 1;
        }
        None
    }

    /// Whether a token is stored under the key, fresh or stale.
    pub fn contains(&self, key: &str) -> (r: bool)
        requires
            self.wf(),
        ensures
            r == self@.contains_key(key@),
    {
        self.find(key).is_some()
    }

    /// Stores `value` under `key` with the time of issue `now`. A token that
    /// was stored under the key before is replaced.
    pub fn insert(&mut self, key: String, value: String, now: i64)
        requires
            old(self).wf(),
        ensures
            final(self).wf(),
            final(self).ttl() == old(self).ttl(),
            final(self)@ == old(self)@.insert(key@, (value@, now)),
    {
        let ghost before = tokens_view(self.entries@);
        let entry = StoredToken { key, value, issued_at: now };
        match self.find(entry.key.as_str()) {
            Some(i) => {
                proof {
                    lemma_map_update(before, i as int, entry@);
                }
                self.entries.set(i, entry);
                assert(tokens_view(self.entries@) =~= before.update(i as int, entry@));
            },
            None => {
                proof {
                    lemma_map_push(before, entry@);
                }
                self.entries.push(entry);
                assert(tokens_view(self.entries@) =~= before.push(entry@));
            },
        }
    }

    /// Removes the token stored under `key` and hands it out if it is still
    /// fresh at time `now`. The token is removed whether fresh or stale, so
    /// that no token is handed out twice.
    pub fn consume(&mut self, key: &str, now: i64) -> (r: Result<String, ConsumeError>)
        requires
            old(self).wf(),
        ensures
            final(self).wf(),
            final(self).ttl() == old(self).ttl(),
            final(self)@ == old(self)@.remove(key@),
            match r {
                Ok(value) => consumed(old(self)@, key@, now, old(self).ttl()) == Ok::<
                    Seq<char>,
                    ConsumeError,
                >(value@),
                Err(e) => consumed(old(self)@, key@, now, old(self).ttl()) == Err::<
                    Seq<char>,
                    ConsumeError,
                >(e),
            },
    {
        let ghost before = tokens_view(self.entries@);
        match self.find(key) {
            Some(i) => {
                proof {
                    lemma_map_remove(before, i as int);
                }
                let entry = self.entries.remove(i);
                assert(tokens_view(self.entries@) =~= before.remove(i as int));
                assert(entry@ == before[i as int]);
                if (now as i128) - (entry.issued_at as i128) > (self.ttl_millis as i128) {
                    Err(ConsumeError::Expired)
                } else {
                    Ok(entry.value)
                }
            },
            None => {
                assert(self@ =~= self@.remove(key@));
                Err(ConsumeError::NotFound)
            },
        }
    }

    /// The number of stored tokens, fresh or stale.
    pub fn len(&self) -> (r: usize)
        requires
            self.wf(),
        ensures
            r == self@.dom().len(),
            self@.dom().finite(),
    {
        proof {
            lemma_map_size(tokens_view(self.entries@));
        }
        self.entries.len()
    }
}

proof fn lemma_map_size(entries: Seq<StoredTokenView>)
    requires
        keys_distinct(entries),
    ensures
        tokens_map(entries).dom().finite(),
        tokens_map(entries).dom().len() == entries.len(),
    decreases entries.len(),
{
    if entries.len() == 0 {
        assert(tokens_map(entries).dom() =~= Set::<Seq<char>>::empty());
    } else {
        let last = entries.last();
        let init = entries.drop_last();
        assert(keys_distinct(init)) by {
            assert forall|i: int, j: int| 0 <= i < j < init.len() implies (#[trigger] init[i]).key
                != (#[trigger] init[j]).key by {
                assert(entries[i].key != entries[j].key);
            }
        }
        assert(!has_key(init, last.key)) by {
            if has_key(init, last.key) {
                let i = index_of_key(init, last.key);
                assert(entries[i].key != entries[entries.len() - 1].key);
            }
        }
        lemma_map_size(init);
        lemma_map_push(init, last);
        assert(init.push(last) =~= entries);
    }
}

} // verus!
