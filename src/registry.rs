//! The registry of named databases: creation, lookup, credential checks and
//! running a command against one database.

use vstd::prelude::*;

use crate::db::{credentials_match, DbInstance, DbModel};
use crate::parser::{after, command_of, error_text, parse_statement, reply_of};
use crate::table::Table;

verus! {

/// Why a registry operation was refused.
#[derive(PartialEq, Eq, Structural, Clone, Copy, Debug)]
pub enum DbError {
    /// No database has that name.
    NotFound,
    /// A database of that name exists already.
    NameConflict,
}

/// All databases, by name.
pub struct Registry {
    pub dbs: Table<DbInstance>,
}

impl View for Registry {
    type V = Map<Seq<char>, DbModel>;

    open spec fn view(&self) -> Map<Seq<char>, DbModel> {
        self.dbs@
    }
}

impl Registry {
    /// Names are unique and every record is well formed.
    pub open spec fn wf(&self) -> bool {
        &&& self.dbs.wf()
        &&& forall|i: int| 0 <= i < self.dbs.entries@.len() ==> (#[trigger] self.dbs.entries@[i]).1.wf()
    }

    /// A registry with no database.
    pub fn new() -> (r: Self)
        ensures
            r.wf(),
            r@ == Map::<Seq<char>, DbModel>::empty(),
    {
        Registry { dbs: Table::new() }
    }


    /// Adds database `db` under `name`, unless that name is taken.
    pub fn create(&mut self, name: String, db: DbInstance) -> (r: Result<(), DbError>)
        requires
            old(self).wf(),
            db.wf(),
        ensures
            final(self).wf(),
            old(self)@.contains_key(name@) ==> r == Err::<(), DbError>(DbError::NameConflict) && final(self)@ == old(
                self,
            )@,
            !old(self)@.contains_key(name@) ==> r is Ok && final(self)@ == old(self)@.insert(name@, db@),
    {
        match self.dbs.find(&name) {
            Some(i) => {
                proof {
                    self.dbs.lemma_view_at(i as int);
                }
                Err(DbError::NameConflict)
            },
            None => {
                let ghost pre = self.dbs.entries@;
                self.dbs.push_new(name, db);
                assert forall|i: int| 0 <= i < self.dbs.entries@.len() implies (#[trigger] self.dbs.entries@[i]).1.wf() by {
                    if i < pre.len() {
                        assert(self.dbs.entries@[i] == pre[i]);
                    }
                }
                Ok(())
            },
        }
    }

    /// Whether a database is called `name`.
    pub fn contains(&self, name: &String) -> (r: bool)
        requires
            self.wf(),
        ensures
            r == self@.contains_key(name@),
    {
        match self.dbs.find(name) {
            Some(i) => {
                proof {
                    self.dbs.lemma_view_at(i as int);
                }
                true
            },
            None => false,
        }
    }

    /// Whether database `name` asks for credentials.
    pub fn requires_auth(&self, name: &String) -> (r: Result<bool, DbError>)
        requires
            self.wf(),
        ensures
            !self@.contains_key(name@) ==> r == Err::<bool, DbError>(DbError::NotFound),
            self@.contains_key(name@) ==> r == Ok::<bool, DbError>(self@[name@].require_auth),
    {
        match self.dbs.find(name) {
            Some(i) => {
                proof {
                    self.dbs.lemma_view_at(i as int);
                }
                Ok(self.dbs.entries[i].1.require_auth)
            },
            None => Err(DbError::NotFound),
        }
    }

    /// Whether `username` and `password` open database `name`.
    pub fn authenticate(&self, name: &String, username: &String, password: &String) -> (r: Result<bool, DbError>)
        requires
            self.wf(),
        ensures
            !self@.contains_key(name@) ==> r == Err::<bool, DbError>(DbError::NotFound),
            self@.contains_key(name@) ==> r == Ok::<bool, DbError>(
                credentials_match(self@[name@], username@, password@),
            ),
    {
        match self.dbs.find(name) {
            Some(i) => {
                proof {
                    self.dbs.lemma_view_at(i as int);
                }
                Ok(self.dbs.entries[i].1.authenticate(username, password))
            },
            None => Err(DbError::NotFound),
        }
    }

    /// Interprets `line` against the store of database `name` at `now`; no
    /// other database is touched.
    pub fn execute(&mut self, name: &String, line: &str, now: u64) -> (r: Result<String, DbError>)
        requires
            old(self).wf(),
        ensures
            final(self).wf(),
            !old(self)@.contains_key(name@) ==> r is Err && r->Err_0 == DbError::NotFound && final(self)@ == old(
                self,
            )@,
            old(self)@.contains_key(name@) ==> r is Ok && final(self)@ == old(self)@.insert(
                name@,
                DbModel { data: final(self)@[name@].data, ..old(self)@[name@] },
            ) && match command_of(line@) {
                Ok(c) => r->Ok_0@ == reply_of(c, old(self)@[name@].data, now) && final(self)@[name@].data == after(
                    c,
                    old(self)@[name@].data,
                    now,
                ),
                Err(e) => r->Ok_0@ == error_text(e) && final(self)@[name@].data == old(self)@[name@].data,
            },
    {
        match self.dbs.find(name) {
            None => Err(DbError::NotFound),
            Some(i) => {
                let ghost pre = *self;
                proof {
                    pre.dbs.lemma_view_at(i as int);
                    assert(pre.dbs.entries@[i as int].1.wf());
                }
                let r = parse_statement(line, &mut self.dbs.entries[i].1.data, now);
                proof {
                    Table::lemma_same_keys(&pre.dbs, &self.dbs);
                    assert forall|j: int| 0 <= j < self.dbs.entries@.len() implies (#[trigger] self.dbs.entries@[j]).1.wf() by {
                        if j != i {
                            assert(self.dbs.entries@[j] == pre.dbs.entries@[j]);
                        }
                    }
                    let m = pre@.insert(name@, DbModel { data: self@[name@].data, ..pre@[name@] });
                    assert forall|k: Seq<char>| #[trigger] self@.contains_key(k) implies self@[k] == m[k] by {
                        let j = choose|j: int| 0 <= j < pre.dbs.entries@.len() && pre.dbs.key_at(j) == k;
                        if j != i {
                            assert(self.dbs.entries@[j] == pre.dbs.entries@[j]);
                        }
                    }
                    assert(self@ =~= m);
                }
                Ok(r)
            },
        }
    }
}

} // verus!
