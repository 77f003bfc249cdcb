//! In-memory token pool: access tokens of at most `LRU_CAPACITY` accounts,
//! evicted least-recently-stored first, and the currently active account.
use vstd::prelude::*;
use crate::fingerprint::unix_time_secs;

verus! {

/// Most accounts whose tokens are held in memory at once.
pub const LRU_CAPACITY: usize = 10;

/// Tokens of one account.
#[derive(Debug, Clone)]
pub struct TokenEntry {
    pub account_id: String,
    pub email: String,
    pub access_token: String,
    pub refresh_token: String,
    /// Unix timestamp (seconds).
    pub expires_at: i64,
}

/// The current Unix time in seconds as an `i64`, read from the system clock
/// (0 before the epoch, `i64::MAX` past its range). It reads the clock on
/// every call.
fn unix_timestamp_now() -> i64 {
    let secs = unix_time_secs();
    if secs > i64::MAX as u64 {
        i64::MAX
    } else {
        secs as i64
    }
}

/// A token counts as expired from 60 seconds before its expiry time on.
pub open spec fn spec_is_expired_at(expires_at: i64, now: i64) -> bool {
    now >= expires_at - 60
}

/// A field-by-field copy of an entry.
pub fn copy_entry(e: &TokenEntry) -> (r: TokenEntry)
    ensures
        r == *e,
{
    TokenEntry {
        account_id: e.account_id.clone(),
        email: e.email.clone(),
        access_token: e.access_token.clone(),
        refresh_token: e.refresh_token.clone(),
        expires_at: e.expires_at,
    }
}

impl TokenEntry {
    /// Whether the token is expired at Unix time `now` (refreshed 60 s early).
    pub fn is_expired_at(&self, now: i64) -> (r: bool)
        ensures
            r == spec_is_expired_at(self.expires_at, now),
    {
        now as i128 >= self.expires_at as i128 - 60
    }

    /// Whether the token is expired now; the system clock is read on every
    /// call. The reading is not named, so this states nothing beyond
    /// `is_expired_at` at some instant.
    pub fn is_expired(&self) -> (r: bool)
        ensures
            exists|now: i64| r == spec_is_expired_at(self.expires_at, now),
    {
        let now = unix_timestamp_now();
        self.is_expired_at(now)
    }
}

/// The token pool: the recency queue (oldest first), the stored entries and
/// the active account.
pub struct TokenStore {
    lru: Vec<String>,
    entries: Vec<TokenEntry>,
    current: Option<String>,
}

/// The ids of a sequence of entries.
pub open spec fn entry_ids(v: Seq<TokenEntry>) -> Seq<Seq<char>> {
    v.map_values(|e: TokenEntry| e.account_id@)
}

/// A position of the entry for account `id`.
pub open spec fn entry_index(v: Seq<TokenEntry>, id: Seq<char>) -> int {
    choose|i: int| 0 <= i < v.len() && v[i].account_id@ == id
}

/// Entries keyed by account id.
pub open spec fn entry_map(v: Seq<TokenEntry>) -> Map<Seq<char>, TokenEntry> {
    Map::new(|id: Seq<char>| entry_ids(v).contains(id), |id: Seq<char>| v[entry_index(v, id)])
}

proof fn lemma_entry_index(v: Seq<TokenEntry>, i: int)
    requires
        entry_ids(v).no_duplicates(),
        0 <= i < v.len(),
    ensures
        entry_index(v, v[i].account_id@) == i,
        entry_ids(v).contains(v[i].account_id@),
        entry_map(v)[v[i].account_id@] == v[i],
{
    assert(entry_ids(v)[i] == v[i].account_id@);
    let j = entry_index(v, v[i].account_id@);
    assert(entry_ids(v)[j] == v[j].account_id@);
}

proof fn lemma_ids_contains(v: Seq<TokenEntry>, id: Seq<char>)
    ensures
        entry_ids(v).contains(id) <==> exists|i: int| 0 <= i < v.len() && #[trigger] v[i].account_id@ == id,
{
    if entry_ids(v).contains(id) {
        let k = choose|k: int| 0 <= k < entry_ids(v).len() && entry_ids(v)[k] == id;
        assert(v[k].account_id@ == id);
    }
    if exists|i: int| 0 <= i < v.len() && #[trigger] v[i].account_id@ == id {
        let i = choose|i: int| 0 <= i < v.len() && #[trigger] v[i].account_id@ == id;
        assert(entry_ids(v)[i] == id);
    }
}

/// Position of the entry for account `id`.
fn find_entry(entries: &Vec<TokenEntry>, id: &String) -> (r: Option<usize>)
    ensures
        r matches Some(i) ==> i < entries@.len() && entries@[i as int].account_id@ == id@,
        r is None ==> !entry_ids(entries@).contains(id@),
{
    for i in 0..entries.len()
        invariant
            forall|k: int| 0 <= k < i ==> #[trigger] entries@[k].account_id@ != id@,
    {
        if entries[i].account_id == *id {
            return Some(i);
        }
    }
    proof {
        lemma_ids_contains(entries@, id@);
    }
    None
}

/// Stores `e` under its account id, replacing an earlier entry of that account.
fn put_entry(entries: &mut Vec<TokenEntry>, e: TokenEntry)
    requires
        entry_ids(old(entries)@).no_duplicates(),
    ensures
        entry_ids(final(entries)@).no_duplicates(),
        entry_map(final(entries)@) == entry_map(old(entries)@).insert(e.account_id@, e),
{
    let ghost v0 = entries@;
    let ghost id = e.account_id@;
    match find_entry(entries, &e.account_id) {
        Some(i) => {
            entries.set(i, e);
            let ghost v1 = entries@;
            proof {
                assert(entry_ids(v1) =~= entry_ids(v0));
                lemma_entry_index(v1, i as int);
                assert forall|x: Seq<char>| #[trigger] entry_map(v1).dom().contains(x) == entry_map(
                    v0,
                ).insert(id, e).dom().contains(x) by {
                    assert(entry_ids(v1) == entry_ids(v0));
                    if x == id {
                        assert(entry_ids(v0)[i as int] == id);
                    }
                }
                assert forall|x: Seq<char>| #[trigger] entry_map(v1).dom().contains(x) implies entry_map(
                    v1,
                )[x] == entry_map(v0).insert(id, e)[x] by {
                    if x != id {
                        let k = entry_index(v0, x);
                        lemma_ids_contains(v0, x);
                        lemma_entry_index(v0, k);
                        assert(k != i);
                        assert(v1[k] == v0[k]);
                        lemma_entry_index(v1, k);
                    }
                }
                assert(entry_map(v1) =~= entry_map(v0).insert(id, e));
            }
        },
        None => {
            entries.push(e);
            let ghost v1 = entries@;
            proof {
                assert(entry_ids(v1) =~= entry_ids(v0).push(id));
                assert(entry_ids(v1).no_duplicates()) by {
                    assert forall|a: int, b: int|
                        0 <= a < entry_ids(v1).len() && 0 <= b < entry_ids(v1).len() && a != b
                        implies entry_ids(v1)[a] != entry_ids(v1)[b] by {
                        if a == v0.len() as int {
                            assert(entry_ids(v0)[b] == entry_ids(v1)[b]);
                        } else if b == v0.len() as int {
                            assert(entry_ids(v0)[a] == entry_ids(v1)[a]);
                        }
                    }
                }
                lemma_entry_index(v1, v0.len() as int);
                assert forall|x: Seq<char>| #[trigger] entry_map(v1).dom().contains(x) == entry_map(
                    v0,
                ).insert(id, e).dom().contains(x) by {
                    lemma_ids_contains(v0, x);
                    lemma_ids_contains(v1, x);
                    if entry_ids(v0).contains(x) {
                        let k = choose|k: int| 0 <= k < v0.len() && #[trigger] v0[k].account_id@ == x;
                        assert(v1[k].account_id@ == x);
                    }
                }
                assert forall|x: Seq<char>| #[trigger] entry_map(v1).dom().contains(x) implies entry_map(
                    v1,
                )[x] == entry_map(v0).insert(id, e)[x] by {
                    if x != id {
                        lemma_ids_contains(v0, x);
                        lemma_ids_contains(v1, x);
                        let k = choose|k: int| 0 <= k < v1.len() && #[trigger] v1[k].account_id@ == x;
                        assert(k < v0.len());
                        assert(v1[k] == v0[k]);
                        lemma_entry_index(v0, k);
                        lemma_entry_index(v1, k);
                    }
                }
                assert(entry_map(v1) =~= entry_map(v0).insert(id, e));
            }
        },
    }
}

/// Removes the entry of account `id`, if any.
fn drop_entry(entries: &mut Vec<TokenEntry>, id: &String)
    requires
        entry_ids(old(entries)@).no_duplicates(),
    ensures
        entry_ids(final(entries)@).no_duplicates(),
        entry_map(final(entries)@) == entry_map(old(entries)@).remove(id@),
{
    let ghost v0 = entries@;
    match find_entry(entries, id) {
        Some(i) => {
            entries.remove(i);
            let ghost v1 = entries@;
            proof {
                assert(entry_ids(v1) =~= entry_ids(v0).remove(i as int));
                assert(entry_ids(v1).no_duplicates()) by {
                    assert forall|a: int, b: int|
                        0 <= a < entry_ids(v1).len() && 0 <= b < entry_ids(v1).len() && a != b
                        implies entry_ids(v1)[a] != entry_ids(v1)[b] by {
                        let a0 = if a < i { a } else { a + 1 };
                        let b0 = if b < i { b } else { b + 1 };
                        assert(entry_ids(v1)[a] == entry_ids(v0)[a0]);
                        assert(entry_ids(v1)[b] == entry_ids(v0)[b0]);
                    }
                }
                assert forall|x: Seq<char>| #[trigger] entry_map(v1).dom().contains(x) == entry_map(
                    v0,
                ).remove(id@).dom().contains(x) by {
                    lemma_ids_contains(v0, x);
                    lemma_ids_contains(v1, x);
                    if entry_ids(v1).contains(x) {
                        let k = choose|k: int| 0 <= k < v1.len() && #[trigger] v1[k].account_id@ == x;
                        let k0 = if k < i { k } else { k + 1 };
                        assert(v0[k0].account_id@ == x);
                        if x == id@ {
                            lemma_entry_index(v0, k0);
                            lemma_entry_index(v0, i as int);
                        }
                    }
                    if entry_ids(v0).contains(x) && x != id@ {
                        let k0 = choose|k: int| 0 <= k < v0.len() && #[trigger] v0[k].account_id@ == x;
                        assert(k0 != i);
                        let k = if k0 < i { k0 } else { k0 - 1 };
                        assert(v1[k].account_id@ == x);
                    }
                }
                assert forall|x: Seq<char>| #[trigger] entry_map(v1).dom().contains(x) implies entry_map(
                    v1,
                )[x] == entry_map(v0).remove(id@)[x] by {
                    lemma_ids_contains(v1, x);
                    let k = choose|k: int| 0 <= k < v1.len() && #[trigger] v1[k].account_id@ == x;
                    let k0 = if k < i { k } else { k + 1 };
                    assert(v1[k] == v0[k0]);
                    lemma_entry_index(v0, k0);
                    lemma_entry_index(v1, k);
                }
                assert(entry_map(v1) =~= entry_map(v0).remove(id@));
            }
        },
        None => {
            proof {
                assert(entry_map(v0) =~= entry_map(v0).remove(id@));
            }
        },
    }
}

/// The recency queue after `id` was used: moved (or added) to the back.
pub open spec fn lru_touch(q: Seq<Seq<char>>, id: Seq<char>) -> Seq<Seq<char>> {
    q.filter(other_than(id)).push(id)
}

/// Ids other than `id`.
pub open spec fn other_than(id: Seq<char>) -> spec_fn(Seq<char>) -> bool {
    |x: Seq<char>| x != id
}

impl TokenStore {
    /// The recency queue, oldest first.
    pub closed spec fn lru_view(&self) -> Seq<Seq<char>> {
        self.lru@.map_values(|s: String| s@)
    }

    /// The stored entries by account id.
    pub closed spec fn tokens(&self) -> Map<Seq<char>, TokenEntry> {
        entry_map(self.entries@)
    }

    /// The active account.
    pub closed spec fn current_view(&self) -> Option<Seq<char>> {
        match self.current {
            Some(s) => Some(s@),
            None => None,
        }
    }

    /// The pool's invariant: the queue names each account once and holds at
    /// most `LRU_CAPACITY` ids, and entries are unique per account.
    pub closed spec fn wf(&self) -> bool {
        &&& self.lru_view().no_duplicates()
        &&& self.lru_view().len() <= LRU_CAPACITY
        &&& entry_ids(self.entries@).no_duplicates()
    }

    /// Every stored account is in the recency queue, so eviction governs it.
    pub open spec fn pool_tracked(&self) -> bool {
        forall|id: Seq<char>| #[trigger]
            self.tokens().contains_key(id) ==> self.lru_view().contains(id)
    }

    /// An empty pool with no active account.
    pub fn new() -> (s: TokenStore)
        ensures
            s.wf(),
            s.pool_tracked(),
            s.lru_view() == Seq::<Seq<char>>::empty(),
            s.tokens() == Map::<Seq<char>, TokenEntry>::empty(),
            s.current_view() is None,
    {
        let s = TokenStore { lru: Vec::new(), entries: Vec::new(), current: None };
        assert(s.lru_view() =~= Seq::<Seq<char>>::empty());
        assert(entry_ids(s.entries@) =~= Seq::<Seq<char>>::empty());
        assert(s.tokens() =~= Map::<Seq<char>, TokenEntry>::empty());
        s
    }
}


proof fn lemma_filter_no_duplicates(s: Seq<Seq<char>>, p: spec_fn(Seq<char>) -> bool)
    requires
        s.no_duplicates(),
    ensures
        s.filter(p).no_duplicates(),
    decreases s.len(),
{
    if s.len() > 0 {
        let d = s.drop_last();
        let e = s.last();
        assert(d.no_duplicates());
        lemma_filter_no_duplicates(d, p);
        assert(s =~= d.push(e));
        d.lemma_filter_push(e, p);
        if p(e) {
            assert(!d.filter(p).contains(e)) by {
                if d.filter(p).contains(e) {
                    d.lemma_filter_contains_rev(p, e);
                    let k = choose|k: int| 0 <= k < d.len() && d[k] == e;
                    assert(s[k] == s[s.len() - 1]);
                }
            }
            let f = d.filter(p).push(e);
            assert forall|a: int, b: int|
                #![trigger f[a], f[b]]
                0 <= a < f.len() && 0 <= b < f.len() && a != b implies f[a] != f[b] by {
                if a == f.len() - 1 {
                    assert(d.filter(p)[b] == f[b]);
                } else if b == f.len() - 1 {
                    assert(d.filter(p)[a] == f[a]);
                }
            }
        }
    }
}

/// Removes every occurrence of `id` from the queue.
fn lru_without(q: &Vec<String>, id: &String) -> (r: Vec<String>)
    requires
        q@.map_values(|s: String| s@).no_duplicates(),
    ensures
        r@.map_values(|s: String| s@) == q@.map_values(|s: String| s@).filter(other_than(id@)),
        r@.map_values(|s: String| s@).no_duplicates(),
{
    let ghost qv = q@.map_values(|s: String| s@);
    let ghost pred = other_than(id@);
    let mut r: Vec<String> = Vec::new();
    for i in 0..q.len()
        invariant
            qv == q@.map_values(|s: String| s@),
            pred == other_than(id@),
            r@.map_values(|s: String| s@) == qv.take(i as int).filter(pred),
    {
        let ghost rv0 = r@.map_values(|s: String| s@);
        proof {
            assert(qv.take(i + 1) =~= qv.take(i as int).push(qv[i as int]));
            qv.take(i as int).lemma_filter_push(qv[i as int], pred);
        }
        if q[i] != *id {
            r.push(q[i].clone());
            assert(r@.map_values(|s: String| s@) =~= rv0.push(qv[i as int]));
        }
    }
    assert(qv.take(q@.len() as int) =~= qv);
    proof {
        lemma_filter_no_duplicates(qv, pred);
    }
    r
}


/// The recency queue after storing a token of account `id`: `id` moves to the
/// back, and the front id is evicted when the queue would exceed capacity.
pub open spec fn lru_after_store(q: Seq<Seq<char>>, id: Seq<char>) -> Seq<Seq<char>> {
    let q1 = lru_touch(q, id);
    if q1.len() > LRU_CAPACITY {
        q1.drop_first()
    } else {
        q1
    }
}

/// The account evicted by storing a token of account `id`, if any.
pub open spec fn evicted_by_store(q: Seq<Seq<char>>, id: Seq<char>) -> Option<Seq<char>> {
    let q1 = lru_touch(q, id);
    if q1.len() > LRU_CAPACITY {
        Some(q1[0])
    } else {
        None
    }
}

/// The stored tokens after storing `e`: the evicted account's entry is gone
/// and `e` is stored under its account id.
pub open spec fn tokens_after_store(
    q: Seq<Seq<char>>,
    m: Map<Seq<char>, TokenEntry>,
    e: TokenEntry,
) -> Map<Seq<char>, TokenEntry> {
    match evicted_by_store(q, e.account_id@) {
        Some(x) => m.remove(x).insert(e.account_id@, e),
        None => m.insert(e.account_id@, e),
    }
}

/// Loads a token into memory (after OAuth or an account switch). When the
/// pool already holds `LRU_CAPACITY` accounts, the least recently stored one
/// is evicted.
pub fn store_token(store: &mut TokenStore, entry: TokenEntry)
    requires
        old(store).wf(),
    ensures
        final(store).wf(),
        final(store).lru_view() == lru_after_store(old(store).lru_view(), entry.account_id@),
        final(store).tokens() == tokens_after_store(
            old(store).lru_view(),
            old(store).tokens(),
            entry,
        ),
        final(store).current_view() == old(store).current_view(),
        old(store).pool_tracked() ==> final(store).pool_tracked(),
{
    let ghost q0 = store.lru_view();
    let ghost m0 = store.tokens();
    let ghost id = entry.account_id@;
    let ghost pred = other_than(id);
    let key = entry.account_id.clone();
    let mut queue = lru_without(&store.lru, &key);
    let ghost f = queue@.map_values(|s: String| s@);
    assert(f == q0.filter(pred));
    proof {
        q0.lemma_filter_len(pred);
        assert(!f.contains(id)) by {
            if f.contains(id) {
                let k = choose|k: int| 0 <= k < f.len() && f[k] == id;
                q0.lemma_filter_pred(pred, k);
            }
        }
    }
    queue.push(key.clone());
    let ghost q1 = queue@.map_values(|s: String| s@);
    proof {
        assert(q1 =~= lru_touch(q0, id));
        assert forall|a: int, b: int|
            #![trigger q1[a], q1[b]]
            0 <= a < q1.len() && 0 <= b < q1.len() && a != b implies q1[a] != q1[b] by {
            if a == f.len() {
                assert(f[b] == q1[b]);
            } else if b == f.len() {
                assert(f[a] == q1[a]);
            } else {
                assert(f[a] == q1[a] && f[b] == q1[b]);
            }
        }
    }
    if queue.len() > LRU_CAPACITY {
        let evicted = queue.remove(0);
        assert(evicted@ == q1[0]);
        drop_entry(&mut store.entries, &evicted);
        proof {
            assert(queue@.map_values(|s: String| s@) =~= q1.drop_first());
        }
    }
    store.lru = queue;
    put_entry(&mut store.entries, entry);
    proof {
        let q2 = store.lru_view();
        assert(q2 == lru_after_store(q0, id));
        assert(q2.no_duplicates()) by {
            assert forall|a: int, b: int|
                #![trigger q2[a], q2[b]]
                0 <= a < q2.len() && 0 <= b < q2.len() && a != b implies q2[a] != q2[b] by {
                if q1.len() > LRU_CAPACITY {
                    assert(q2[a] == q1[a + 1] && q2[b] == q1[b + 1]);
                } else {
                    assert(q2[a] == q1[a] && q2[b] == q1[b]);
                }
            }
        }
        if old(store).pool_tracked() {
            assert forall|x: Seq<char>| #[trigger] store.tokens().contains_key(x) implies q2.contains(
                x,
            ) by {
                if x == id {
                    assert(q1[q1.len() - 1] == id);
                    if q1.len() > LRU_CAPACITY {
                        assert(q2[q2.len() - 1] == id);
                    }
                } else {
                    assert(m0.contains_key(x));
                    assert(q0.contains(x));
                    let k = choose|k: int| 0 <= k < q0.len() && q0[k] == x;
                    q0.lemma_filter_contains(pred, k);
                    let j = choose|j: int| 0 <= j < f.len() && f[j] == x;
                    assert(q1[j] == x);
                    if q1.len() > LRU_CAPACITY {
                        assert(j != 0);
                        assert(q2[j - 1] == x);
                    }
                }
            }
        }
    }
}

/// Number of accounts whose tokens are in memory.
pub fn pool_size(store: &TokenStore) -> (n: usize)
    requires
        store.wf(),
    ensures
        n == store.tokens().dom().len(),
{
    proof {
        let v = store.entries@;
        assert(store.tokens().dom() =~= entry_ids(v).to_set());
        entry_ids(v).unique_seq_to_set();
    }
    store.entries.len()
}

/// What every well-formed pool satisfies: the recency queue names each
/// account at most once and holds at most `LRU_CAPACITY` ids, finitely many
/// accounts have a stored token, and the entry stored for an account carries
/// that account's id.
pub proof fn lemma_store_invariant(store: &TokenStore)
    requires
        store.wf(),
    ensures
        store.lru_view().no_duplicates(),
        store.lru_view().len() <= LRU_CAPACITY,
        store.tokens().dom().finite(),
        forall|id: Seq<char>| #[trigger]
            store.tokens().contains_key(id) ==> store.tokens()[id].account_id@ == id,
{
    let v = store.entries@;
    assert(store.tokens().dom() =~= entry_ids(v).to_set());
    assert forall|id: Seq<char>| #[trigger] store.tokens().contains_key(id) implies store.tokens()[id].account_id@
        == id by {
        let k = choose|k: int| 0 <= k < entry_ids(v).len() && entry_ids(v)[k] == id;
        assert(v[k].account_id@ == id);
        lemma_entry_index(v, k);
    }
}

/// While every stored account is in the recency queue, the pool never holds
/// more than `LRU_CAPACITY` accounts.
pub proof fn lemma_pool_bounded(store: &TokenStore)
    requires
        store.wf(),
        store.pool_tracked(),
    ensures
        store.tokens().dom().len() <= LRU_CAPACITY,
        store.tokens().dom().finite(),
{
    let q = store.lru_view();
    assert(store.tokens().dom().subset_of(q.to_set()));
    q.unique_seq_to_set();
    vstd::set_lib::lemma_len_subset(store.tokens().dom(), q.to_set());
}

/// Makes `account_id` the active account.
pub fn set_current(store: &mut TokenStore, account_id: &str)
    requires
        old(store).wf(),
    ensures
        final(store).wf(),
        final(store).current_view() == Some(account_id@),
        final(store).tokens() == old(store).tokens(),
        final(store).lru_view() == old(store).lru_view(),
{
    store.current = Some(account_id.to_owned());
}

/// Drops the token of `account_id` from memory (on account deletion); the
/// active account is cleared when it is this one.
pub fn remove_token(store: &mut TokenStore, account_id: &str)
    requires
        old(store).wf(),
    ensures
        final(store).wf(),
        final(store).tokens() == old(store).tokens().remove(account_id@),
        final(store).current_view() == (if old(store).current_view() == Some(account_id@) {
            None::<Seq<char>>
        } else {
            old(store).current_view()
        }),
        final(store).lru_view() == old(store).lru_view(),
        old(store).pool_tracked() ==> final(store).pool_tracked(),
{
    let key = account_id.to_owned();
    drop_entry(&mut store.entries, &key);
    let clear = match &store.current {
        Some(c) => *c == key,
        None => false,
    };
    if clear {
        store.current = None;
    }
    proof {
        if old(store).pool_tracked() {
            assert forall|x: Seq<char>| #[trigger] store.tokens().contains_key(x) implies store.lru_view().contains(
                x,
            ) by {
                assert(old(store).tokens().contains_key(x));
            }
        }
    }
}


/// What fetching a fresh access token for the active account requires.
pub enum FreshTokenStep {
    /// No active account, or no token in memory for it.
    NoToken,
    /// The stored access token is still valid.
    Valid(String),
    /// The stored token is expired and has to be refreshed.
    Refresh(TokenEntry),
}

/// The step that fetching a fresh token takes at Unix time `now`.
pub open spec fn spec_fresh_token_step(
    current: Option<Seq<char>>,
    tokens: Map<Seq<char>, TokenEntry>,
    now: i64,
) -> Option<(TokenEntry, bool)> {
    match current {
        None => None,
        Some(id) => if tokens.contains_key(id) {
            Some((tokens[id], spec_is_expired_at(tokens[id].expires_at, now)))
        } else {
            None
        },
    }
}

/// Decides, at Unix time `now`, whether the active account's stored token can
/// be handed out or must be refreshed first.
pub fn fresh_token_step(store: &TokenStore, now: i64) -> (r: FreshTokenStep)
    requires
        store.wf(),
    ensures
        match spec_fresh_token_step(store.current_view(), store.tokens(), now) {
            None => r is NoToken,
            Some((e, expired)) => if expired {
                r matches FreshTokenStep::Refresh(x) && x == e
            } else {
                r matches FreshTokenStep::Valid(t) && t@ == e.access_token@
            },
        },
{
    let id = match &store.current {
        Some(c) => c,
        None => {
            return FreshTokenStep::NoToken;
        },
    };
    match find_entry(&store.entries, id) {
        None => FreshTokenStep::NoToken,
        Some(i) => {
            proof {
                lemma_entry_index(store.entries@, i as int);
            }
            let e = &store.entries[i];
            if !e.is_expired_at(now) {
                FreshTokenStep::Valid(e.access_token.clone())
            } else {
                FreshTokenStep::Refresh(copy_entry(e))
            }
        },
    }
}

/// The entry written after a successful refresh of `e` at Unix time `now`.
pub open spec fn refreshed_entry(
    e: TokenEntry,
    access_token: String,
    refresh_token: Option<String>,
    expires_in: i64,
    now: i64,
) -> TokenEntry {
    TokenEntry {
        account_id: e.account_id,
        email: e.email,
        access_token: access_token,
        refresh_token: match refresh_token {
            Some(r) => r,
            None => e.refresh_token,
        },
        expires_at: (now + expires_in) as i64,
    }
}

/// Stores the tokens of a successful refresh of `entry` (a new refresh token
/// only if the server sent one; expiry `now + expires_in`) and returns the new
/// access token. The entry is written straight into the pool, without
/// touching the recency queue.
pub fn apply_refreshed_token(
    store: &mut TokenStore,
    entry: &TokenEntry,
    access_token: String,
    refresh_token: Option<String>,
    expires_in: i64,
    now: i64,
) -> (r: String)
    requires
        old(store).wf(),
        i64::MIN <= now + expires_in <= i64::MAX,
    ensures
        final(store).wf(),
        r@ == access_token@,
        final(store).tokens() == old(store).tokens().insert(
            entry.account_id@,
            refreshed_entry(*entry, access_token, refresh_token, expires_in, now),
        ),
        final(store).lru_view() == old(store).lru_view(),
        final(store).current_view() == old(store).current_view(),
        old(store).pool_tracked() && old(store).lru_view().contains(entry.account_id@)
            ==> final(store).pool_tracked(),
        final(store).tokens().contains_key(entry.account_id@),
        final(store).tokens()[entry.account_id@].account_id@ == entry.account_id@,
        final(store).tokens()[entry.account_id@].email@ == entry.email@,
        final(store).tokens()[entry.account_id@].access_token@ == access_token@,
        final(store).tokens()[entry.account_id@].refresh_token@ == (match refresh_token {
            Some(t) => t@,
            None => entry.refresh_token@,
        }),
        final(store).tokens()[entry.account_id@].expires_at == now + expires_in,
{
    let result = access_token.clone();
    let new_entry = TokenEntry {
        account_id: entry.account_id.clone(),
        email: entry.email.clone(),
        access_token,
        refresh_token: match refresh_token {
            Some(r) => r,
            None => entry.refresh_token.clone(),
        },
        expires_at: now + expires_in,
    };
    put_entry(&mut store.entries, new_entry);
    proof {
        if old(store).pool_tracked() && old(store).lru_view().contains(entry.account_id@) {
            assert forall|x: Seq<char>| #[trigger] store.tokens().contains_key(x) implies store.lru_view().contains(
                x,
            ) by {
                if x != entry.account_id@ {
                    assert(old(store).tokens().contains_key(x));
                }
            }
        }
    }
    result
}

/// The entry that `fresh_token_step` hands out for refreshing is the active
/// account's own entry: its account id is the active account, so the
/// refreshed tokens (`apply_refreshed_token`) are stored under the active
/// account, and while every stored account is queued that account is queued
/// too, so the pool stays tracked (and bounded) after the refresh.
pub proof fn lemma_refresh_targets_current(store: &TokenStore, e: TokenEntry, now: i64)
    requires
        store.wf(),
        spec_fresh_token_step(store.current_view(), store.tokens(), now) == Some((e, true)),
    ensures
        store.current_view() == Some(e.account_id@),
        store.tokens().contains_key(e.account_id@),
        store.tokens()[e.account_id@] == e,
        store.pool_tracked() ==> store.lru_view().contains(e.account_id@),
{
    lemma_store_invariant(store);
    let id = store.current_view()->Some_0;
    assert(store.tokens().contains_key(id));
    assert(store.tokens()[id].account_id@ == id);
}

/// Refreshing rotates the tokens: after the refreshed tokens of the active
/// account are stored, the next step hands out the new access token until
/// 60 seconds before `now + expires_in`, and from then on asks for a refresh
/// with the refresh token the server sent last (the one held before only when
/// the server sent none).
pub proof fn lemma_refresh_rotates_tokens(
    store: &TokenStore,
    e: TokenEntry,
    access_token: String,
    refresh_token: Option<String>,
    expires_in: i64,
    now: i64,
    later: i64,
)
    requires
        store.wf(),
        spec_fresh_token_step(store.current_view(), store.tokens(), now) == Some((e, true)),
        i64::MIN <= now + expires_in <= i64::MAX,
    ensures
        ({
            let tokens = store.tokens().insert(
                e.account_id@,
                refreshed_entry(e, access_token, refresh_token, expires_in, now),
            );
            spec_fresh_token_step(store.current_view(), tokens, later) matches Some((x, expired))
                && x.access_token@ == access_token@ && (expired <==> later >= now + expires_in
                - 60) && x.refresh_token@ == (match refresh_token {
                Some(t) => t@,
                None => e.refresh_token@,
            })
        }),
{
    lemma_refresh_targets_current(store, e, now);
}

/// Reading back what was stored: right after `store_token(e)`, the pool holds
/// `e` under its account id, and storing never pushes the queue past
/// capacity.
pub proof fn lemma_store_token_reads_back(q: Seq<Seq<char>>, m: Map<Seq<char>, TokenEntry>, e: TokenEntry)
    requires
        q.len() <= LRU_CAPACITY,
    ensures
        tokens_after_store(q, m, e).contains_key(e.account_id@),
        tokens_after_store(q, m, e)[e.account_id@] == e,
        lru_after_store(q, e.account_id@).len() <= LRU_CAPACITY,
        lru_after_store(q, e.account_id@).last() == e.account_id@,
{
    q.lemma_filter_len(other_than(e.account_id@));
}

} // verus!
