//! Accounts, their usage snapshots, and the identity that is logged in now.
use vstd::prelude::*;
use crate::text::same_text;

verus! {

/// How an account is billed.
#[derive(Clone, Copy, Debug, PartialEq, Eq, Structural)]
pub enum AccountType {
    /// A plan with quotas.
    Subscription,
    /// Pay-as-you-go API access, without quotas.
    Api,
}

impl Default for AccountType {
    fn default() -> (t: Self)
        ensures
            t == AccountType::Subscription,
    {
        AccountType::Subscription
    }
}

/// A stored account.
#[derive(Debug)]
pub struct AccountRecord {
    pub id: String,
    pub email: String,
    pub auth_path: String,
    pub account_type: AccountType,
    pub plan: Option<String>,
    pub account_id: Option<String>,
}

impl AccountRecord {
    pub fn is_subscription(&self) -> (b: bool)
        ensures
            b == (self.account_type == AccountType::Subscription),
    {
        match self.account_type {
            AccountType::Subscription => true,
            AccountType::Api => false,
        }
    }

    pub fn is_api(&self) -> (b: bool)
        ensures
            b == (self.account_type == AccountType::Api),
    {
        match self.account_type {
            AccountType::Subscription => false,
            AccountType::Api => true,
        }
    }
}

impl Default for AccountRecord {
    fn default() -> (r: Self)
        ensures
            r.id@.len() == 0,
            r.email@.len() == 0,
            r.auth_path@.len() == 0,
            r.account_type == AccountType::Subscription,
            r.plan is None,
            r.account_id is None,
    {
        AccountRecord {
            id: String::new(),
            email: String::new(),
            auth_path: String::new(),
            account_type: AccountType::Subscription,
            plan: None,
            account_id: None,
        }
    }
}

/// What was last learnt about an account's quotas.
#[derive(Debug)]
pub struct UsageSnapshot {
    pub plan: Option<String>,
    pub five_hour_remaining_percent: Option<i64>,
    pub weekly_remaining_percent: Option<i64>,
    pub weekly_refresh_at: Option<String>,
    pub needs_relogin: bool,
    pub last_sync_error: Option<String>,
}

/// The snapshot of an account about which nothing is known.
pub open spec fn empty_usage() -> UsageSnapshot {
    UsageSnapshot {
        plan: None,
        five_hour_remaining_percent: None,
        weekly_remaining_percent: None,
        weekly_refresh_at: None,
        needs_relogin: false,
        last_sync_error: None,
    }
}

impl Default for UsageSnapshot {
    fn default() -> (u: Self)
        ensures
            u == empty_usage(),
    {
        UsageSnapshot {
            plan: None,
            five_hour_remaining_percent: None,
            weekly_remaining_percent: None,
            weekly_refresh_at: None,
            needs_relogin: false,
            last_sync_error: None,
        }
    }
}

/// The identity of the session that is active now.
#[derive(Debug)]
pub struct LiveIdentity {
    pub scodex_account_id: Option<String>,
    pub email: String,
    pub account_id: Option<String>,
}

impl Default for LiveIdentity {
    fn default() -> (l: Self)
        ensures
            l.scodex_account_id is None,
            l.email@.len() == 0,
            l.account_id is None,
    {
        LiveIdentity { scodex_account_id: None, email: String::new(), account_id: None }
    }
}

/// The usage snapshots, by account id.
pub struct UsageCache {
    entries: Vec<(String, UsageSnapshot)>,
}

pub open spec fn entry_keys_distinct(e: Seq<(String, UsageSnapshot)>) -> bool {
    forall|i: int, j: int| 0 <= i < j < e.len() ==> (#[trigger] e[i]).0@ != (#[trigger] e[j]).0@
}

pub open spec fn entries_map(e: Seq<(String, UsageSnapshot)>) -> Map<Seq<char>, UsageSnapshot>
    decreases e.len(),
{
    if e.len() == 0 {
        Map::empty()
    } else {
        entries_map(e.drop_last()).insert(e.last().0@, e.last().1)
    }
}

proof fn lemma_entries_map_domain(e: Seq<(String, UsageSnapshot)>, k: Seq<char>)
    ensures
        entries_map(e).contains_key(k) <==> exists|i: int| 0 <= i < e.len() && (#[trigger] e[i]).0@
            == k,
    decreases e.len(),
{
    if e.len() > 0 {
        lemma_entries_map_domain(e.drop_last(), k);
        if entries_map(e).contains_key(k) && k != e.last().0@ {
            let i = choose|i: int| 0 <= i < e.drop_last().len() && (#[trigger] e.drop_last()[i]).0@
                == k;
            assert(e[i] == e.drop_last()[i]);
        }
        if exists|i: int| 0 <= i < e.len() && (#[trigger] e[i]).0@ == k {
            let i = choose|i: int| 0 <= i < e.len() && (#[trigger] e[i]).0@ == k;
            if i < e.len() - 1 {
                assert(e.drop_last()[i] == e[i]);
            }
        }
    }
}

proof fn lemma_entries_map_value(e: Seq<(String, UsageSnapshot)>, i: int)
    requires
        entry_keys_distinct(e),
        0 <= i < e.len(),
    ensures
        entries_map(e).contains_key(e[i].0@),
        entries_map(e)[e[i].0@] == e[i].1,
    decreases e.len(),
{
    if i < e.len() - 1 {
        assert(e.drop_last()[i] == e[i]);
        lemma_entries_map_value(e.drop_last(), i);
        assert(e[i].0@ != e[e.len() - 1].0@);
    }
}

proof fn lemma_entries_map_update(
    e: Seq<(String, UsageSnapshot)>,
    i: int,
    entry: (String, UsageSnapshot),
)
    requires
        entry_keys_distinct(e),
        0 <= i < e.len(),
        entry.0@ == e[i].0@,
    ensures
        entries_map(e.update(i, entry)) == entries_map(e).insert(entry.0@, entry.1),
    decreases e.len(),
{
    let u = e.update(i, entry);
    if i == e.len() - 1 {
        assert(u.drop_last() =~= e.drop_last());
        assert(entries_map(u) =~= entries_map(e).insert(entry.0@, entry.1));
    } else {
        assert(u.drop_last() =~= e.drop_last().update(i, entry));
        assert(e.drop_last()[i] == e[i]);
        lemma_entries_map_update(e.drop_last(), i, entry);
        assert(e[i].0@ != e[e.len() - 1].0@);
        assert(entries_map(u) =~= entries_map(e).insert(entry.0@, entry.1));
    }
}

impl View for UsageCache {
    type V = Map<Seq<char>, UsageSnapshot>;

    /// The snapshot stored for each account id.
    closed spec fn view(&self) -> Map<Seq<char>, UsageSnapshot> {
        entries_map(self.entries@)
    }
}

impl UsageCache {
    #[verifier::type_invariant]
    spec fn keys_distinct(self) -> bool {
        entry_keys_distinct(self.entries@)
    }

    /// An empty cache.
    pub fn new() -> (c: UsageCache)
        ensures
            c@ == Map::<Seq<char>, UsageSnapshot>::empty(),
    {
        UsageCache { entries: Vec::new() }
    }

    fn position(&self, key: &str) -> (r: Option<usize>)
        ensures
            match r {
                Some(i) => i < self.entries@.len() && self.entries@[i as int].0@ == key@,
                None => forall|i: int|
                    0 <= i < self.entries@.len() ==> (#[trigger] self.entries@[i]).0@ != key@,
            },
    {
        let mut i: usize = 0;
        while i < self.entries.len()
            invariant
                i <= self.entries@.len(),
                forall|k: int| 0 <= k < i ==> (#[trigger] self.entries@[k]).0@ != key@,
            decreases self.entries@.len() - i,
        {
            if same_text(self.entries[i].0.as_str(), key) {
                return Some(i);
            }
            i = i + 1;
        }
        None
    }

    /// The snapshot stored for `key`, if any.
    pub fn get(&self, key: &str) -> (r: Option<&UsageSnapshot>)
        ensures
            match r {
                Some(u) => self@.contains_key(key@) && *u == self@[key@],
                None => !self@.contains_key(key@),
            },
    {
        proof {
            use_type_invariant(self);
            lemma_entries_map_domain(self.entries@, key@);
        }
        match self.position(key) {
            Some(i) => {
                proof {
                    lemma_entries_map_value(self.entries@, i as int);
                }
                Some(&self.entries[i].1)
            },
            None => None,
        }
    }

    /// Whether a snapshot is stored for `key`.
    pub fn contains_key(&self, key: &str) -> (b: bool)
        ensures
            b == self@.contains_key(key@),
    {
        self.get(key).is_some()
    }

    /// Stores `value` for `key`, replacing what was there.
    pub fn insert(&mut self, key: String, value: UsageSnapshot)
        ensures
            final(self)@ == old(self)@.insert(key@, value),
    {
        proof {
            use_type_invariant(&*self);
        }
        let found = self.position(key.as_str());
        let mut entries: Vec<(String, UsageSnapshot)> = Vec::new();
        std::mem::swap(&mut entries, &mut self.entries);
        let ghost before = entries@;
        match found {
            Some(i) => {
                proof {
                    lemma_entries_map_update(before, i as int, (key, value));
                }
                entries.set(i, (key, value));
                assert(entries@ == before.update(i as int, (key, value)));
            },
            None => {
                entries.push((key, value));
                assert(entries@.drop_last() =~= before);
            },
        }
        assert(entry_keys_distinct(entries@));
        self.entries = entries;
    }
}

impl Default for UsageCache {
    fn default() -> (c: Self)
        ensures
            c@ == Map::<Seq<char>, UsageSnapshot>::empty(),
    {
        UsageCache::new()
    }
}

/// All stored accounts and what is known of their usage.
pub struct State {
    pub accounts: Vec<AccountRecord>,
    pub usage_cache: UsageCache,
}

impl Default for State {
    fn default() -> (s: Self)
        ensures
            s.accounts@.len() == 0,
            s.usage_cache@ == Map::<Seq<char>, UsageSnapshot>::empty(),
    {
        State { accounts: Vec::new(), usage_cache: UsageCache::new() }
    }
}

} // verus!
