//! Entries with an optional expiry instant, the store of one database, and
//! the database record with its access settings.

use vstd::prelude::*;

use crate::table::{names, Table};

verus! {

/// What an entry holds, as the contracts see it.
pub struct EntryModel {
    pub value: Seq<char>,
    pub expires_at: Option<u64>,
}

/// The absolute expiry instant of an entry written at `now` with `ttl`:
/// none without a TTL, else `now + ttl`, held at `u64::MAX` when the sum does
/// not fit.
pub open spec fn expiry_of(now: u64, ttl: Option<u64>) -> Option<u64> {
    match ttl {
        Some(d) => Some(
            if now + d <= u64::MAX {
                (now + d) as u64
            } else {
                u64::MAX
            },
        ),
        None => None,
    }
}

/// An entry is expired at `now` iff it has an expiry instant and `now` is
/// strictly past it: at the instant itself it is still live.
pub open spec fn expired_at(expires_at: Option<u64>, now: u64) -> bool {
    match expires_at {
        Some(t) => now > t,
        None => false,
    }
}

/// The entries of `m` that are not expired at `now`.
pub open spec fn live_part(m: Map<Seq<char>, EntryModel>, now: u64) -> Map<Seq<char>, EntryModel> {
    m.restrict(m.dom().filter(|k: Seq<char>| !expired_at(m[k].expires_at, now)))
}

/// A stored value with its optional absolute expiry instant (milliseconds).
pub struct ValueWithExpiry {
    pub value: String,
    pub expires_at: Option<u64>,
}

impl View for ValueWithExpiry {
    type V = EntryModel;

    open spec fn view(&self) -> EntryModel {
        EntryModel { value: self.value@, expires_at: self.expires_at }
    }
}

impl ValueWithExpiry {
    /// An entry written at `now`; with `ttl` it expires `ttl` milliseconds later.
    pub fn new(value: String, ttl: Option<u64>, now: u64) -> (r: Self)
        ensures
            r.value@ == value@,
            r.expires_at == expiry_of(now, ttl),
    {
        let expires_at = match ttl {
            Some(d) => Some(now.saturating_add(d)),
            None => None,
        };
        ValueWithExpiry { value, expires_at }
    }

    /// Whether the entry is expired at `now`.
    pub fn is_expired(&self, now: u64) -> (r: bool)
        ensures
            r == expired_at(self.expires_at, now),
    {
        match self.expires_at {
            Some(t) => now > t,
            None => false,
        }
    }
}

/// The entries of one database.
pub type Store = Table<ValueWithExpiry>;

impl Table<ValueWithExpiry> {
    /// Inserts or overwrites `key`; any earlier value and TTL are discarded.
    pub fn set(&mut self, key: String, value: String, ttl: Option<u64>, now: u64)
        requires
            old(self).wf(),
        ensures
            final(self).wf(),
            final(self)@ == old(self)@.insert(
                key@,
                EntryModel { value: value@, expires_at: expiry_of(now, ttl) },
            ),
    {
        match self.find(&key) {
            Some(i) => {
                self.remove_at(i);
            },
            None => {},
        }
        let entry = ValueWithExpiry::new(value, ttl, now);
        self.push_new(key, entry);
    }

    /// Reads `key` at `now`. An absent key gives `None`; an expired one is
    /// removed and gives `None`; a live one gives its value.
    pub fn get(&mut self, key: &String, now: u64) -> (r: Option<String>)
        requires
            old(self).wf(),
        ensures
            final(self).wf(),
            !old(self)@.contains_key(key@) ==> r is None && final(self)@ == old(self)@,
            old(self)@.contains_key(key@) && expired_at(old(self)@[key@].expires_at, now) ==> r is None
                && final(self)@ == old(self)@.remove(key@),
            old(self)@.contains_key(key@) && !expired_at(old(self)@[key@].expires_at, now) ==> r is Some
                && r->0@ == old(self)@[key@].value && final(self)@ == old(self)@,
    {
        match self.find(key) {
            None => None,
            Some(i) => {
                proof {
                    self.lemma_view_at(i as int);
                }
                if self.entries[i].1.is_expired(now) {
                    self.remove_at(i);
                    None
                } else {
                    Some(self.entries[i].1.value.clone())
                }
            },
        }
    }

    /// Whether one of the first `i` entries has key `k` and is (`expired`) or
    /// is not (`!expired`) expired at `now`.
    spec fn seen(&self, i: int, k: Seq<char>, now: u64, expired: bool) -> bool {
        exists|j: int|
            0 <= j < i && #[trigger] self.key_at(j) == k && expired_at(self.entries@[j].1.expires_at, now)
                == expired
    }

    /// Removes every entry expired at `now` and returns their keys, each once.
    pub fn remove_expired(&mut self, now: u64) -> (r: Vec<String>)
        requires
            old(self).wf(),
        ensures
            final(self).wf(),
            final(self)@ == live_part(old(self)@, now),
            forall|i: int, j: int| 0 <= i < j < r@.len() ==> r@[i]@ != r@[j]@,
            forall|k: Seq<char>|
                (old(self)@.contains_key(k) && expired_at(old(self)@[k].expires_at, now)) <==> #[trigger] names(
                    r@,
                    k,
                ),
    {
        let ghost pre = *self;
        let mut kept = Table::new();
        let mut removed: Vec<String> = Vec::new();
        let mut i: usize = 0;
        while i < self.entries.len()
            invariant
                *self == pre,
                pre.wf(),
                kept.wf(),
                i <= pre.entries@.len(),
                forall|k: Seq<char>| #[trigger] kept@.contains_key(k) <==> pre.seen(i as int, k, now, false),
                forall|k: Seq<char>| #[trigger] kept@.contains_key(k) ==> kept@[k] == pre@[k],
                forall|a: int, b: int| 0 <= a < b < removed@.len() ==> removed@[a]@ != removed@[b]@,
                forall|k: Seq<char>| #[trigger] names(removed@, k) <==> pre.seen(i as int, k, now, true),
            decreases pre.entries@.len() - i,
        {
            proof {
                pre.lemma_view_at(i as int);
            }
            let ghost k = pre.key_at(i as int);
            let ghost ex = expired_at(pre.entries@[i as int].1.expires_at, now);
            assert forall|j: int| 0 <= j < i implies pre.key_at(j) != k by {
                assert(pre.key_at(j) != pre.key_at(i as int));
            }
            assert forall|kk: Seq<char>, e: bool| #[trigger] pre.seen(i + 1, kk, now, e) <==> (pre.seen(
                i as int,
                kk,
                now,
                e,
            ) || (kk == k && e == ex)) by {
                if pre.seen(i + 1, kk, now, e) {
                    let j = choose|j: int|
                        0 <= j < i + 1 && #[trigger] pre.key_at(j) == kk && expired_at(
                            pre.entries@[j].1.expires_at,
                            now,
                        ) == e;
                    if j < i {
                        assert(pre.seen(i as int, kk, now, e));
                    }
                }
                if pre.seen(i as int, kk, now, e) {
                    let j = choose|j: int|
                        0 <= j < i && #[trigger] pre.key_at(j) == kk && expired_at(
                            pre.entries@[j].1.expires_at,
                            now,
                        ) == e;
                    assert(pre.key_at(j) == kk);
                }
                if kk == k && e == ex {
                    assert(pre.key_at(i as int) == kk);
                }
            }
            if self.entries[i].1.is_expired(now) {
                let ghost before = removed@;
                removed.push(self.entries[i].0.clone());
                assert forall|kk: Seq<char>| #[trigger] names(removed@, kk) <==> (names(before, kk) || kk == k) by {
                    if names(removed@, kk) {
                        let a = choose|a: int| 0 <= a < removed@.len() && removed@[a]@ == kk;
                        if a < before.len() {
                            assert(before[a]@ == kk);
                        }
                    }
                    if names(before, kk) {
                        let a = choose|a: int| 0 <= a < before.len() && before[a]@ == kk;
                        assert(removed@[a]@ == kk);
                    }
                    if kk == k {
                        assert(removed@[before.len() as int]@ == kk);
                    }
                }
                assert forall|a: int, b: int| 0 <= a < b < removed@.len() implies removed@[a]@ != removed@[b]@ by {
                    if b == before.len() {
                        assert(before[a]@ == removed@[a]@);
                        if before[a]@ == k {
                            assert(names(before, k));
                            let j = choose|j: int|
                                0 <= j < i && #[trigger] pre.key_at(j) == k && expired_at(
                                    pre.entries@[j].1.expires_at,
                                    now,
                                ) == true;
                        }
                    }
                }
                assert forall|kk: Seq<char>| #[trigger] kept@.contains_key(kk) implies kk != k by {}
            } else {
                let ghost before = kept@;
                assert(!kept@.contains_key(k)) by {
                    if kept@.contains_key(k) {
                        let j = choose|j: int|
                            0 <= j < i && #[trigger] pre.key_at(j) == k && expired_at(
                                pre.entries@[j].1.expires_at,
                                now,
                            ) == false;
                    }
                }
                let e = ValueWithExpiry {
                    value: self.entries[i].1.value.clone(),
                    expires_at: self.entries[i].1.expires_at,
                };
                kept.push_new(self.entries[i].0.clone(), e);
                assert forall|kk: Seq<char>| #[trigger] names(removed@, kk) implies kk != k by {
                    if kk == k {
                        let j = choose|j: int|
                            0 <= j < i && #[trigger] pre.key_at(j) == k && expired_at(
                                pre.entries@[j].1.expires_at,
                                now,
                            ) == true;
                    }
                }
            }
            i = i + 1;
        }
        assert forall|kk: Seq<char>| #[trigger] pre.seen(pre.entries@.len() as int, kk, now, false) <==> (
        pre@.contains_key(kk) && !expired_at(pre@[kk].expires_at, now)) by {
            if pre.seen(pre.entries@.len() as int, kk, now, false) {
                let j = choose|j: int|
                    0 <= j < pre.entries@.len() && #[trigger] pre.key_at(j) == kk && expired_at(
                        pre.entries@[j].1.expires_at,
                        now,
                    ) == false;
                pre.lemma_view_at(j);
            }
            if pre@.contains_key(kk) {
                let j = choose|j: int| 0 <= j < pre.entries@.len() && #[trigger] pre.key_at(j) == kk;
                pre.lemma_view_at(j);
            }
        }
        assert forall|kk: Seq<char>| #[trigger] pre.seen(pre.entries@.len() as int, kk, now, true) <==> (
        pre@.contains_key(kk) && expired_at(pre@[kk].expires_at, now)) by {
            if pre.seen(pre.entries@.len() as int, kk, now, true) {
                let j = choose|j: int|
                    0 <= j < pre.entries@.len() && #[trigger] pre.key_at(j) == kk && expired_at(
                        pre.entries@[j].1.expires_at,
                        now,
                    ) == true;
                pre.lemma_view_at(j);
            }
            if pre@.contains_key(kk) {
                let j = choose|j: int| 0 <= j < pre.entries@.len() && #[trigger] pre.key_at(j) == kk;
                pre.lemma_view_at(j);
            }
        }
        assert(kept@ =~= live_part(pre@, now));
        *self = kept;
        removed
    }

}

/// What a database record holds, as the contracts see it.
pub struct DbModel {
    pub data: Map<Seq<char>, EntryModel>,
    pub require_auth: bool,
    pub username: Option<Seq<char>>,
    pub password: Option<Seq<char>>,
}

pub open spec fn opt_view(s: Option<String>) -> Option<Seq<char>> {
    match s {
        Some(v) => Some(v@),
        None => None,
    }
}

/// Whether `username` and `password` open a database of model `db`: always
/// when it asks for none, else on exact, case-sensitive equality of both.
pub open spec fn credentials_match(db: DbModel, username: Seq<char>, password: Seq<char>) -> bool {
    !db.require_auth || (db.username == Some(username) && db.password == Some(password))
}

/// A database: its entries and its access settings.
pub struct DbInstance {
    pub data: Store,
    pub require_auth: bool,
    pub username: Option<String>,
    pub password: Option<String>,
}

impl View for DbInstance {
    type V = DbModel;

    open spec fn view(&self) -> DbModel {
        DbModel {
            data: self.data@,
            require_auth: self.require_auth,
            username: opt_view(self.username),
            password: opt_view(self.password),
        }
    }
}

impl DbInstance {
    /// Credentials are present exactly when access is protected, and the
    /// entries are well formed.
    pub open spec fn wf(&self) -> bool {
        &&& self.data.wf()
        &&& self.require_auth == self.username.is_some()
        &&& self.require_auth == self.password.is_some()
    }

    /// An empty database; protected by the given credentials when
    /// `require_auth` holds.
    pub fn new(require_auth: bool, username: Option<String>, password: Option<String>) -> (r: Self)
        requires
            require_auth == username.is_some(),
            require_auth == password.is_some(),
        ensures
            r.wf(),
            r@ == (DbModel {
                data: Map::empty(),
                require_auth,
                username: opt_view(username),
                password: opt_view(password),
            }),
    {
        DbInstance { data: Table::new(), require_auth, username, password }
    }

    /// Whether `username` and `password` open this database.
    pub fn authenticate(&self, username: &String, password: &String) -> (r: bool)
        requires
            self.wf(),
        ensures
            r == credentials_match(self@, username@, password@),
    {
        if !self.require_auth {
            return true;
        }
        match (&self.username, &self.password) {
            (Some(u), Some(p)) => *u == *username && *p == *password,
            _ => false,
        }
    }
}

} // verus!
