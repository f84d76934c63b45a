//! Messaging tokens and the store that keeps one per app.
use vstd::prelude::*;

use crate::messaging::error::MessagingResult;
use crate::text::{owned, str_equal};

verus! {

/// The push subscription a token was issued for.
#[derive(Debug)]
pub struct SubscriptionInfo {
    pub vapid_key: String,
    pub scope: String,
    pub endpoint: String,
    pub auth: String,
    pub p256dh: String,
}

/// The content of a subscription.
pub struct SubscriptionModel {
    pub vapid_key: Seq<char>,
    pub scope: Seq<char>,
    pub endpoint: Seq<char>,
    pub auth: Seq<char>,
    pub p256dh: Seq<char>,
}

impl View for SubscriptionInfo {
    type V = SubscriptionModel;

    open spec fn view(&self) -> SubscriptionModel {
        SubscriptionModel {
            vapid_key: self.vapid_key@,
            scope: self.scope@,
            endpoint: self.endpoint@,
            auth: self.auth@,
            p256dh: self.p256dh@,
        }
    }
}

impl Clone for SubscriptionInfo {
    fn clone(&self) -> (r: Self)
        ensures
            r@ == self@,
    {
        SubscriptionInfo {
            vapid_key: self.vapid_key.clone(),
            scope: self.scope.clone(),
            endpoint: self.endpoint.clone(),
            auth: self.auth.clone(),
            p256dh: self.p256dh.clone(),
        }
    }
}

impl SubscriptionInfo {
    /// Field-by-field equality.
    pub fn equals(&self, other: &SubscriptionInfo) -> (r: bool)
        ensures
            r == (self@ == other@),
    {
        str_equal(self.vapid_key.as_str(), other.vapid_key.as_str()) && str_equal(
            self.scope.as_str(),
            other.scope.as_str(),
        ) && str_equal(self.endpoint.as_str(), other.endpoint.as_str()) && str_equal(
            self.auth.as_str(),
            other.auth.as_str(),
        ) && str_equal(self.p256dh.as_str(), other.p256dh.as_str())
    }
}

/// A stored token: its text, when it was created and for which subscription.
#[derive(Debug)]
pub struct TokenRecord {
    pub token: String,
    pub create_time_ms: u64,
    pub subscription: Option<SubscriptionInfo>,
}

/// The content of a token record.
pub struct TokenModel {
    pub token: Seq<char>,
    pub create_time_ms: u64,
    pub subscription: Option<SubscriptionModel>,
}

impl View for TokenRecord {
    type V = TokenModel;

    open spec fn view(&self) -> TokenModel {
        TokenModel {
            token: self.token@,
            create_time_ms: self.create_time_ms,
            subscription: match self.subscription {
                Some(s) => Some(s@),
                None => None,
            },
        }
    }
}

impl Clone for TokenRecord {
    fn clone(&self) -> (r: Self)
        ensures
            r@ == self@,
    {
        let subscription = match &self.subscription {
            Some(s) => Some(s.clone()),
            None => None,
        };
        TokenRecord { token: self.token.clone(), create_time_ms: self.create_time_ms, subscription }
    }
}

/// `now - created`, or zero when the clock reads earlier.
pub open spec fn age(now_ms: u64, created_ms: u64) -> int {
    if now_ms >= created_ms {
        now_ms - created_ms
    } else {
        0
    }
}

impl TokenRecord {
    /// Whether the token is at least `ttl_ms` old at `now_ms`.
    pub fn is_expired(&self, now_ms: u64, ttl_ms: u64) -> (r: bool)
        ensures
            r == (age(now_ms, self.create_time_ms) >= ttl_ms),
    {
        now_ms.saturating_sub(self.create_time_ms) >= ttl_ms
    }

    /// Whether the token was issued for exactly this subscription.
    pub fn matches_subscription(&self, info: &SubscriptionInfo) -> (r: bool)
        ensures
            r == (self@.subscription == Some(info@)),
    {
        match &self.subscription {
            Some(s) => s.equals(info),
            None => false,
        }
    }
}

/// The tokens of the apps, keyed by app name.
pub struct TokenStore {
    entries: Vec<(String, TokenRecord)>,
}

/// The map held by a list of entries with distinct keys.
pub open spec fn entries_map(es: Seq<(String, TokenRecord)>) -> Map<Seq<char>, TokenModel>
    decreases es.len(),
{
    if es.len() == 0 {
        Map::empty()
    } else {
        entries_map(es.drop_last()).insert(es.last().0@, es.last().1@)
    }
}

/// Keys are distinct.
pub open spec fn distinct_keys(es: Seq<(String, TokenRecord)>) -> bool {
    forall|i: int, j: int| 0 <= i < j < es.len() ==> (#[trigger] es[i]).0@ != (#[trigger] es[j]).0@
}

proof fn lemma_entries_map_has(es: Seq<(String, TokenRecord)>, i: int)
    requires
        distinct_keys(es),
        0 <= i < es.len(),
    ensures
        entries_map(es).dom().contains(es[i].0@),
        entries_map(es)[es[i].0@] == es[i].1@,
    decreases es.len(),
{
    if i < es.len() - 1 {
        lemma_entries_map_has(es.drop_last(), i);
    }
}

proof fn lemma_entries_map_lacks(es: Seq<(String, TokenRecord)>, k: Seq<char>)
    requires
        forall|i: int| 0 <= i < es.len() ==> (#[trigger] es[i]).0@ != k,
    ensures
        !entries_map(es).dom().contains(k),
    decreases es.len(),
{
    if es.len() > 0 {
        lemma_entries_map_lacks(es.drop_last(), k);
    }
}

proof fn lemma_entries_map_update(es: Seq<(String, TokenRecord)>, j: int, e: (String, TokenRecord))
    requires
        distinct_keys(es),
        0 <= j < es.len(),
        es[j].0@ == e.0@,
    ensures
        entries_map(es.update(j, e)) == entries_map(es).insert(e.0@, e.1@),
        distinct_keys(es.update(j, e)),
    decreases es.len(),
{
    let ws = es.update(j, e);
    if j == es.len() - 1 {
        assert(ws.drop_last() =~= es.drop_last());
        assert(entries_map(ws) =~= entries_map(es).insert(e.0@, e.1@));
    } else {
        assert(ws.drop_last() =~= es.drop_last().update(j, e));
        lemma_entries_map_update(es.drop_last(), j, e);
        assert(es.last().0@ != e.0@);
        assert(entries_map(ws) =~= entries_map(es).insert(e.0@, e.1@));
    }
}

proof fn lemma_entries_map_remove(es: Seq<(String, TokenRecord)>, j: int)
    requires
        distinct_keys(es),
        0 <= j < es.len(),
    ensures
        entries_map(es.remove(j)) == entries_map(es).remove(es[j].0@),
        distinct_keys(es.remove(j)),
    decreases es.len(),
{
    let ws = es.remove(j);
    let k = es[j].0@;
    if j == es.len() - 1 {
        assert(ws =~= es.drop_last());
        assert forall|i: int| 0 <= i < ws.len() implies (#[trigger] ws[i]).0@ != k by {
            assert(ws[i] == es[i]);
        }
        lemma_entries_map_lacks(ws, k);
        assert(entries_map(ws) =~= entries_map(es).remove(k));
    } else {
        assert(ws.drop_last() =~= es.drop_last().remove(j));
        lemma_entries_map_remove(es.drop_last(), j);
        assert(ws.last() == es.last());
        assert(es.last().0@ != k);
        assert(entries_map(ws) =~= entries_map(es).remove(k));
    }
    assert forall|a: int, b: int| 0 <= a < b < ws.len() implies (#[trigger] ws[a]).0@ != (
    #[trigger] ws[b]).0@ by {
        let x = if a < j {
            a
        } else {
            a + 1
        };
        let y = if b < j {
            b
        } else {
            b + 1
        };
        assert(ws[a] == es[x] && ws[b] == es[y]);
    }
}

impl View for TokenStore {
    type V = Map<Seq<char>, TokenModel>;

    closed spec fn view(&self) -> Map<Seq<char>, TokenModel> {
        entries_map(self.entries@)
    }
}

impl TokenStore {
    #[verifier::type_invariant]
    spec fn keys_distinct(&self) -> bool {
        distinct_keys(self.entries@)
    }

    /// An empty store.
    pub fn new() -> (s: Self)
        ensures
            s@ == Map::<Seq<char>, TokenModel>::empty(),
    {
        TokenStore { entries: Vec::new() }
    }

    fn position(&self, key: &str) -> (r: Option<usize>)
        ensures
            match r {
                Some(j) => j < self.entries@.len() && self.entries@[j as int].0@ == key@,
                None => forall|m: int| 0 <= m < self.entries@.len() ==> (
                #[trigger] self.entries@[m]).0@ != key@,
            },
    {
        let mut j: usize = 0;
        while j < self.entries.len()
            invariant
                j <= self.entries@.len(),
                forall|m: int| 0 <= m < j ==> (#[trigger] self.entries@[m]).0@ != key@,
            decreases self.entries@.len() - j,
        {
            if str_equal(self.entries[j].0.as_str(), key) {
                return Some(j);
            }
            j = j + 1;
        }
        None
    }

    /// The record stored for `app_key`, if any.
    pub fn read(&self, app_key: &str) -> (r: Option<TokenRecord>)
        ensures
            match r {
                Some(t) => self@.dom().contains(app_key@) && t@ == self@[app_key@],
                None => !self@.dom().contains(app_key@),
            },
    {
        proof {
            use_type_invariant(self);
        }
        match self.position(app_key) {
            Some(j) => {
                proof {
                    lemma_entries_map_has(self.entries@, j as int);
                }
                Some(self.entries[j].1.clone())
            },
            None => {
                proof {
                    lemma_entries_map_lacks(self.entries@, app_key@);
                }
                None
            },
        }
    }

    /// Stores `record` for `app_key`, replacing any previous record.
    pub fn write(&mut self, app_key: &str, record: &TokenRecord)
        ensures
            final(self)@ == old(self)@.insert(app_key@, record@),
    {
        proof {
            use_type_invariant(&*self);
        }
        let entry = (owned(app_key), record.clone());
        let found = self.position(app_key);
        let mut entries = Vec::new();
        std::mem::swap(&mut entries, &mut self.entries);
        let ghost before = entries@;
        match found {
            Some(j) => {
                proof {
                    lemma_entries_map_update(before, j as int, entry);
                }
                entries.set(j, entry);
            },
            None => {
                entries.push(entry);
                proof {
                    assert(entries@.drop_last() =~= before);
                    assert forall|a: int, b: int| 0 <= a < b < entries@.len() implies (
                    #[trigger] entries@[a]).0@ != (#[trigger] entries@[b]).0@ by {
                        assert(entries@[a] == before[a]);
                        if b < entries@.len() - 1 {
                            assert(entries@[b] == before[b]);
                        }
                    }
                }
            },
        }
        self.entries = entries;
    }

    /// Removes the record of `app_key`; tells whether there was one.
    pub fn remove(&mut self, app_key: &str) -> (r: bool)
        ensures
            r == old(self)@.dom().contains(app_key@),
            final(self)@ == old(self)@.remove(app_key@),
    {
        proof {
            use_type_invariant(&*self);
        }
        match self.position(app_key) {
            Some(j) => {
                let mut entries = Vec::new();
                std::mem::swap(&mut entries, &mut self.entries);
                proof {
                    lemma_entries_map_remove(entries@, j as int);
                    lemma_entries_map_has(entries@, j as int);
                }
                entries.remove(j);
                self.entries = entries;
                true
            },
            None => {
                proof {
                    lemma_entries_map_lacks(self.entries@, app_key@);
                    assert(self@.remove(app_key@) =~= self@);
                }
                false
            },
        }
    }
}

/// Reading a key after writing it gives the written record, and other keys
/// keep their records.
pub proof fn lemma_read_after_write(store: Map<Seq<char>, TokenModel>, key: Seq<char>, record: TokenModel, other: Seq<char>)
    ensures
        store.insert(key, record).dom().contains(key),
        store.insert(key, record)[key] == record,
        other != key ==> (store.insert(key, record).dom().contains(other) == store.dom().contains(
            other,
        ) && (store.dom().contains(other) ==> store.insert(key, record)[other] == store[other])),
{
}

/// After removing a key nothing is stored for it.
pub proof fn lemma_read_after_remove(store: Map<Seq<char>, TokenModel>, key: Seq<char>)
    ensures
        !store.remove(key).dom().contains(key),
{
}

/// The record stored for `app_key` in `store`.
pub fn read(store: &TokenStore, app_key: &str) -> (r: MessagingResult<Option<TokenRecord>>)
    ensures
        r matches Ok(t) && match t {
            Some(rec) => store@.dom().contains(app_key@) && rec@ == store@[app_key@],
            None => !store@.dom().contains(app_key@),
        },
{
    Ok(store.read(app_key))
}

/// Stores `record` for `app_key` in `store`.
pub fn write(store: &mut TokenStore, app_key: &str, record: &TokenRecord) -> (r: MessagingResult<()>)
    ensures
        r is Ok,
        final(store)@ == old(store)@.insert(app_key@, record@),
{
    store.write(app_key, record);
    Ok(())
}

/// Removes the record of `app_key` from `store`; tells whether there was one.
pub fn remove(store: &mut TokenStore, app_key: &str) -> (r: MessagingResult<bool>)
    ensures
        r == Ok::<bool, crate::messaging::error::MessagingError>(old(store)@.dom().contains(app_key@)),
        final(store)@ == old(store)@.remove(app_key@),
{
    Ok(store.remove(app_key))
}

/// The token of `app_key`.
pub fn read_token(store: &TokenStore, app_key: &str) -> (r: MessagingResult<Option<TokenRecord>>)
    ensures
        r matches Ok(t) && match t {
            Some(rec) => store@.dom().contains(app_key@) && rec@ == store@[app_key@],
            None => !store@.dom().contains(app_key@),
        },
{
    read(store, app_key)
}

/// Saves the token of `app_key`.
pub fn write_token(store: &mut TokenStore, app_key: &str, record: &TokenRecord) -> (r: MessagingResult<()>)
    ensures
        r is Ok,
        final(store)@ == old(store)@.insert(app_key@, record@),
{
    write(store, app_key, record)
}

/// Deletes the token of `app_key`; tells whether there was one.
pub fn remove_token(store: &mut TokenStore, app_key: &str) -> (r: MessagingResult<bool>)
    ensures
        r == Ok::<bool, crate::messaging::error::MessagingError>(old(store)@.dom().contains(app_key@)),
        final(store)@ == old(store)@.remove(app_key@),
{
    remove(store, app_key)
}

} // verus!
