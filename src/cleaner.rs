//! The sweeper pass that removes expired entries from every database.

use vstd::prelude::*;

use crate::db::{expired_at, live_part, DbModel, EntryModel};
use crate::registry::Registry;
use crate::table::{names, Table};

verus! {

/// How often the sweeper runs, in milliseconds.
pub const SWEEP_INTERVAL_MS: u64 = 5000;

/// The keys that one sweep removed from one database.
pub struct SweepReport {
    pub db_name: String,
    pub keys: Vec<String>,
}

/// Whether some entry of `m` is expired at `now`.
pub open spec fn has_expired(m: Map<Seq<char>, EntryModel>, now: u64) -> bool {
    exists|k: Seq<char>| m.contains_key(k) && expired_at(m[k].expires_at, now)
}

/// The registry `r` after one sweep at `now`: every database keeps only its
/// live entries, and nothing else changes.
pub open spec fn swept(r: Map<Seq<char>, DbModel>, now: u64) -> Map<Seq<char>, DbModel> {
    Map::new(
        |k: Seq<char>| r.contains_key(k),
        |k: Seq<char>| DbModel { data: live_part(r[k].data, now), ..r[k] },
    )
}

/// Whether `report` names database `name` and lists exactly the entries of
/// `m` expired at `now`, each once.
pub open spec fn reports_expired(report: SweepReport, name: Seq<char>, m: Map<Seq<char>, EntryModel>, now: u64) -> bool {
    &&& report.db_name@ == name
    &&& forall|a: int, b: int| 0 <= a < b < report.keys@.len() ==> report.keys@[a]@ != report.keys@[b]@
    &&& forall|k: Seq<char>| (m.contains_key(k) && expired_at(m[k].expires_at, now)) <==> #[trigger] names(report.keys@, k)
}

/// One pass of the sweeper at `now`: removes every expired entry of every
/// database, and reports, once per database that lost entries, which keys
/// went. Databases with nothing expired get no report.
pub fn clean_expired(registry: &mut Registry, now: u64) -> (r: Vec<SweepReport>)
    requires
        old(registry).wf(),
    ensures
        final(registry).wf(),
        final(registry)@ == swept(old(registry)@, now),
        forall|a: int, b: int| 0 <= a < b < r@.len() ==> r@[a].db_name@ != r@[b].db_name@,
        forall|a: int| 0 <= a < r@.len() ==> (#[trigger] r@[a]).keys@.len() > 0,
        (forall|k: Seq<char>| #[trigger] old(registry)@.contains_key(k) ==> !has_expired(old(registry)@[k].data, now))
            ==> r@.len() == 0 && final(registry)@ == old(registry)@,
        forall|a: int|
            0 <= a < r@.len() ==> old(registry)@.contains_key(#[trigger] r@[a].db_name@) && reports_expired(
                r@[a],
                r@[a].db_name@,
                old(registry)@[r@[a].db_name@].data,
                now,
            ),
        forall|k: Seq<char>|
            old(registry)@.contains_key(k) && has_expired(old(registry)@[k].data, now) ==> exists|a: int|
                0 <= a < r@.len() && #[trigger] r@[a].db_name@ == k,
{
    let ghost pre = *registry;
    let mut reports: Vec<SweepReport> = Vec::new();
    let ghost mut origin: Seq<int> = Seq::empty();
    let mut i: usize = 0;
    while i < registry.dbs.entries.len()
        invariant
            pre.wf(),
            i <= registry.dbs.entries@.len(),
            registry.dbs.entries@.len() == pre.dbs.entries@.len(),
            forall|j: int| 0 <= j < pre.dbs.entries@.len() ==> #[trigger] registry.dbs.key_at(j) == pre.dbs.key_at(j),
            forall|j: int| 0 <= j < pre.dbs.entries@.len() ==> (#[trigger] registry.dbs.entries@[j]).1.wf(),
            forall|j: int|
                0 <= j < i ==> (#[trigger] registry.dbs.entries@[j]).1@ == (DbModel {
                    data: live_part(pre.dbs.entries@[j].1@.data, now),
                    ..pre.dbs.entries@[j].1@
                }),
            forall|j: int| i <= j < pre.dbs.entries@.len() ==> #[trigger] registry.dbs.entries@[j] == pre.dbs.entries@[j],
            origin.len() == reports@.len(),
            forall|a: int|
                0 <= a < reports@.len() ==> 0 <= #[trigger] origin[a] < i && pre.dbs.key_at(origin[a])
                    == reports@[a].db_name@ && reports_expired(
                    reports@[a],
                    pre.dbs.key_at(origin[a]),
                    pre.dbs.entries@[origin[a]].1@.data,
                    now,
                ),
            forall|a: int, b: int| 0 <= a < b < reports@.len() ==> reports@[a].db_name@ != reports@[b].db_name@,
            forall|a: int| 0 <= a < reports@.len() ==> (#[trigger] reports@[a]).keys@.len() > 0,
            forall|j: int|
                0 <= j < i && has_expired(pre.dbs.entries@[j].1@.data, now) ==> exists|a: int|
                    0 <= a < reports@.len() && #[trigger] reports@[a].db_name@ == pre.dbs.key_at(j),
        decreases pre.dbs.entries@.len() - i,
    {
        let ghost before = registry.dbs.entries@;
        let ghost old_reports = reports@;
        assert forall|j: int| 0 <= j < pre.dbs.entries@.len() implies #[trigger] before[j].0@ == pre.dbs.key_at(j) by {
            assert(registry.dbs.key_at(j) == pre.dbs.key_at(j));
        }
        let removed = registry.dbs.entries[i].1.data.remove_expired(now);
        assert forall|j: int| 0 <= j < pre.dbs.entries@.len() && j != i implies #[trigger] registry.dbs.entries@[j] == before[j] by {}
        assert forall|j: int| 0 <= j < pre.dbs.entries@.len() implies #[trigger] registry.dbs.key_at(j) == pre.dbs.key_at(j) by {
            assert(before[j].0@ == pre.dbs.key_at(j));
            if j != i {
                assert(registry.dbs.entries@[j] == before[j]);
            }
        }
        if removed.len() > 0 {
            let report = SweepReport { db_name: registry.dbs.entries[i].0.clone(), keys: removed };
            reports.push(report);
            assert forall|a: int, b: int| 0 <= a < b < reports@.len() implies reports@[a].db_name@ != reports@[b].db_name@ by {
                if b == old_reports.len() {
                    assert(reports@[a] == old_reports[a]);
                    let j = origin[a];
                    assert(pre.dbs.key_at(j) != pre.dbs.key_at(i as int));
                } else {
                    assert(reports@[a] == old_reports[a]);
                    assert(reports@[b] == old_reports[b]);
                }
            }
            proof {
                origin = origin.push(i as int);
            }
            assert forall|a: int| 0 <= a < reports@.len() implies 0 <= #[trigger] origin[a] < i + 1 && pre.dbs.key_at(origin[a])
                == reports@[a].db_name@ && reports_expired(
                reports@[a],
                pre.dbs.key_at(origin[a]),
                pre.dbs.entries@[origin[a]].1@.data,
                now,
            ) by {
                if a < old_reports.len() {
                    assert(reports@[a] == old_reports[a]);
                } else {
                    assert(before[i as int] == pre.dbs.entries@[i as int]);
                    assert(reports@[a].keys@ == removed@);
                }
            }
            assert forall|j: int|
                0 <= j < i + 1 && has_expired(pre.dbs.entries@[j].1@.data, now) implies exists|a: int|
                    0 <= a < reports@.len() && #[trigger] reports@[a].db_name@ == pre.dbs.key_at(j) by {
                if j < i {
                    let a = choose|a: int| 0 <= a < old_reports.len() && #[trigger] old_reports[a].db_name@ == pre.dbs.key_at(j);
                    assert(reports@[a] == old_reports[a]);
                } else {
                    assert(reports@[old_reports.len() as int].db_name@ == pre.dbs.key_at(j));
                }
            }
        } else {
            assert(!has_expired(pre.dbs.entries@[i as int].1@.data, now)) by {
                if has_expired(pre.dbs.entries@[i as int].1@.data, now) {
                    let k = choose|k: Seq<char>|
                        pre.dbs.entries@[i as int].1@.data.contains_key(k) && expired_at(
                            pre.dbs.entries@[i as int].1@.data[k].expires_at,
                            now,
                        );
                    assert(names(removed@, k));
                }
            }
        }
        i = i + 1;
    }
    proof {
        Table::lemma_same_keys(&pre.dbs, &registry.dbs);
        let m = swept(pre@, now);
        assert forall|k: Seq<char>| #[trigger] registry@.contains_key(k) implies registry@[k] == m[k] by {
            let j = choose|j: int| 0 <= j < pre.dbs.entries@.len() && pre.dbs.key_at(j) == k;
            assert(registry.dbs.key_at(j) == k);
        }
        assert(registry@ =~= m);
        if forall|k: Seq<char>| #[trigger] pre@.contains_key(k) ==> !has_expired(pre@[k].data, now) {
            if reports@.len() > 0 {
                let j = origin[0];
                let k0 = reports@[0].keys@[0]@;
                assert(names(reports@[0].keys@, k0));
                assert(pre@[pre.dbs.key_at(j)] == pre.dbs.entries@[j].1@);
                assert(has_expired(pre@[pre.dbs.key_at(j)].data, now));
            }
            assert forall|k: Seq<char>| #[trigger] pre@.contains_key(k) implies live_part(pre@[k].data, now) =~= pre@[k].data by {
                assert forall|kk: Seq<char>| pre@[k].data.contains_key(kk) implies !expired_at(pre@[k].data[kk].expires_at, now) by {
                    if expired_at(pre@[k].data[kk].expires_at, now) {
                        assert(has_expired(pre@[k].data, now));
                    }
                }
            }
            assert(registry@ =~= pre@);
        }
        assert forall|a: int|
            0 <= a < reports@.len() implies pre@.contains_key(#[trigger] reports@[a].db_name@) && reports_expired(
                reports@[a],
                reports@[a].db_name@,
                pre@[reports@[a].db_name@].data,
                now,
            ) by {
            let j = origin[a];
            assert(pre@[pre.dbs.key_at(j)] == pre.dbs.entries@[j].1@);
        }
        assert forall|k: Seq<char>|
            pre@.contains_key(k) && has_expired(pre@[k].data, now) implies exists|a: int|
                0 <= a < reports@.len() && #[trigger] reports@[a].db_name@ == k by {
            let j = choose|j: int| 0 <= j < pre.dbs.entries@.len() && pre.dbs.key_at(j) == k;
            assert(pre@[pre.dbs.key_at(j)] == pre.dbs.entries@[j].1@);
        }
    }
    reports
}

} // verus!
