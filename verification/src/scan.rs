//! One scan over the process listing: decide, for every listing entry, whether
//! it is a direct child of the tracked root, and fold the decisions into the
//! registry. The caller enumerates the listing and reads each status record;
//! everything it hands in is decided here.

use vstd::prelude::*;
use crate::digits::spec_parse_pid;
use crate::digits::parse_pid;
use crate::record::ProcessRecord;
use crate::record::StatusDefect;
use crate::record::spec_parse_status;
use crate::record::parse_proc_status;
use crate::registry::ProcessRegistry;
use crate::registry::seq_insert_record;
use crate::registry::distinct_pids;
use crate::registry::pids_of;
use crate::registry::has_pid;
use crate::registry::record_at;
use crate::registry::lemma_insert_pids;
use crate::registry::lemma_insert_self;
use crate::registry::lemma_insert_preserves_other;
use crate::registry::lemma_prefix_trans;
use crate::registry::lemma_registry_ext;
use crate::registry::lemma_column_stable;
use crate::registry::pid_index;

verus! {

/// One entry of the process listing as the caller hands it in: the entry's
/// name, and the named process's status text — `None` when the status record
/// could not be read because the process exited between listing and read.
pub struct ProcEntry {
    pub name: String,
    pub status: Option<String>,
}

/// What one entry contributes to the scan: `Ok(Some(rec))` inserts a direct
/// child's record, `Ok(None)` skips the entry (not a pid, vanished process,
/// or not a direct child of the root), `Err` is a status-record defect.
pub open spec fn spec_entry_action(root_pid: u32, e: ProcEntry) -> Result<
    Option<ProcessRecord>,
    StatusDefect,
> {
    match spec_parse_pid(e.name@) {
        None => Ok(None),
        Some(pid) => match e.status {
            None => Ok(None),
            Some(text) => match spec_parse_status(pid, text@) {
                Err(d) => Err(d),
                Ok(rec) => if rec.parent_pid == root_pid {
                    Ok(Some(rec))
                } else {
                    Ok(None)
                },
            },
        },
    }
}

/// Fold one entry's contribution into the registry contents.
pub open spec fn apply_action(s: Seq<ProcessRecord>, a: Option<ProcessRecord>) -> Seq<
    ProcessRecord,
> {
    match a {
        None => s,
        Some(rec) => seq_insert_record(s, rec),
    }
}

/// The registry contents after one scan of `entries` over contents `s`, or
/// the first status-record defect hit.
pub open spec fn spec_scan(root_pid: u32, s: Seq<ProcessRecord>, entries: Seq<ProcEntry>) -> Result<
    Seq<ProcessRecord>,
    StatusDefect,
>
    decreases entries.len(),
{
    if entries.len() == 0 {
        Ok(s)
    } else {
        match spec_entry_action(root_pid, entries[0]) {
            Err(d) => Err(d),
            Ok(a) => spec_scan(root_pid, apply_action(s, a), entries.skip(1)),
        }
    }
}

/// Entry `e` inserts a record for pid `p`.
pub open spec fn entry_inserts(root_pid: u32, e: ProcEntry, p: u32) -> bool {
    match spec_entry_action(root_pid, e) {
        Ok(Some(rec)) => rec.pid == p,
        _ => false,
    }
}

/// Some entry of the scan inserts a record for pid `p`.
pub open spec fn scan_matches(root_pid: u32, entries: Seq<ProcEntry>, p: u32) -> bool {
    exists|i: int| 0 <= i < entries.len() && entry_inserts(root_pid, entries[i], p)
}

/// The record the scan leaves for pid `p`: the one inserted by the last
/// entry that inserts `p`, or `None` when no entry does.
pub open spec fn last_inserted(root_pid: u32, entries: Seq<ProcEntry>, p: u32) -> Option<
    ProcessRecord,
>
    decreases entries.len(),
{
    if entries.len() == 0 {
        None
    } else {
        let rest = last_inserted(root_pid, entries.skip(1), p);
        if rest is Some {
            rest
        } else {
            match spec_entry_action(root_pid, entries[0]) {
                Ok(Some(rec)) => if rec.pid == p {
                    Some(rec)
                } else {
                    None
                },
                _ => None,
            }
        }
    }
}

proof fn lemma_matches_split(root_pid: u32, entries: Seq<ProcEntry>, p: u32)
    requires
        entries.len() > 0,
    ensures
        scan_matches(root_pid, entries, p) <==> (entry_inserts(root_pid, entries[0], p)
            || scan_matches(root_pid, entries.skip(1), p)),
{
    if scan_matches(root_pid, entries.skip(1), p) {
        let i = choose|i: int|
            0 <= i < entries.skip(1).len() && entry_inserts(root_pid, entries.skip(1)[i], p);
        assert(entries.skip(1)[i] == entries[i + 1]);
        assert(entry_inserts(root_pid, entries[i + 1], p));
        assert(scan_matches(root_pid, entries, p));
    }
    if entry_inserts(root_pid, entries[0], p) {
        assert(scan_matches(root_pid, entries, p));
    }
    if scan_matches(root_pid, entries, p) && !entry_inserts(root_pid, entries[0], p) {
        let i = choose|i: int| 0 <= i < entries.len() && entry_inserts(root_pid, entries[i], p);
        assert(i >= 1);
        assert(entries.skip(1)[i - 1] == entries[i]);
        assert(scan_matches(root_pid, entries.skip(1), p));
    }
}

proof fn lemma_no_match_no_last(root_pid: u32, entries: Seq<ProcEntry>, p: u32)
    requires
        !scan_matches(root_pid, entries, p),
    ensures
        last_inserted(root_pid, entries, p) is None,
    decreases entries.len(),
{
    if entries.len() > 0 {
        lemma_matches_split(root_pid, entries, p);
        lemma_no_match_no_last(root_pid, entries.skip(1), p);
    }
}

/// Registry keys are monotonically non-decreasing, in a stable order: a
/// successful scan keeps every tracked pid in its column and only appends
/// new ones.
pub proof fn lemma_scan_keys_monotone(root_pid: u32, s: Seq<ProcessRecord>, entries: Seq<ProcEntry>)
    requires
        distinct_pids(s),
        spec_scan(root_pid, s, entries) is Ok,
    ensures
        distinct_pids(spec_scan(root_pid, s, entries)->Ok_0),
        pids_of(s).is_prefix_of(pids_of(spec_scan(root_pid, s, entries)->Ok_0)),
    decreases entries.len(),
{
    let t = spec_scan(root_pid, s, entries)->Ok_0;
    if entries.len() == 0 {
        assert(t == s);
        assert(pids_of(s).is_prefix_of(pids_of(s)));
    } else {
        let a = spec_entry_action(root_pid, entries[0])->Ok_0;
        let s1 = apply_action(s, a);
        assert(spec_scan(root_pid, s, entries) == spec_scan(root_pid, s1, entries.skip(1)));
        match a {
            Some(rec) => {
                lemma_insert_pids(s, rec);
            },
            None => {
                assert(pids_of(s).is_prefix_of(pids_of(s1)));
            },
        }
        lemma_scan_keys_monotone(root_pid, s1, entries.skip(1));
        lemma_prefix_trans(pids_of(s), pids_of(s1), pids_of(t));
    }
}

/// The registry contents after a whole run of scans, one process listing per
/// tick, or the first status-record defect hit.
pub open spec fn spec_scan_many(
    root_pid: u32,
    s: Seq<ProcessRecord>,
    scans: Seq<Seq<ProcEntry>>,
) -> Result<Seq<ProcessRecord>, StatusDefect>
    decreases scans.len(),
{
    if scans.len() == 0 {
        Ok(s)
    } else {
        match spec_scan(root_pid, s, scans[0]) {
            Err(d) => Err(d),
            Ok(t) => spec_scan_many(root_pid, t, scans.skip(1)),
        }
    }
}

/// Over any sequence of scans the key set is monotonically non-decreasing:
/// every tracked pid stays tracked, in its column, to the end of the run.
pub proof fn lemma_scan_many_keys_monotone(
    root_pid: u32,
    s: Seq<ProcessRecord>,
    scans: Seq<Seq<ProcEntry>>,
)
    requires
        distinct_pids(s),
        spec_scan_many(root_pid, s, scans) is Ok,
    ensures
        distinct_pids(spec_scan_many(root_pid, s, scans)->Ok_0),
        pids_of(s).is_prefix_of(pids_of(spec_scan_many(root_pid, s, scans)->Ok_0)),
        forall|p: u32| has_pid(s, p) ==> has_pid(spec_scan_many(root_pid, s, scans)->Ok_0, p),
    decreases scans.len(),
{
    let t = spec_scan_many(root_pid, s, scans)->Ok_0;
    if scans.len() == 0 {
        assert(t == s);
        assert(pids_of(s).is_prefix_of(pids_of(s)));
    } else {
        let s1 = spec_scan(root_pid, s, scans[0])->Ok_0;
        assert(spec_scan_many(root_pid, s, scans) == spec_scan_many(
            root_pid,
            s1,
            scans.skip(1),
        ));
        lemma_scan_keys_monotone(root_pid, s, scans[0]);
        lemma_scan_many_keys_monotone(root_pid, s1, scans.skip(1));
        lemma_prefix_trans(pids_of(s), pids_of(s1), pids_of(t));
    }
    assert forall|p: u32| has_pid(s, p) implies has_pid(t, p) by {
        crate::registry::lemma_prefix_keeps_pids(s, t, p);
    }
}

/// After a successful scan a pid is tracked exactly when it was already
/// tracked or some entry of the scan inserts it.
pub proof fn lemma_scan_has_pid(
    root_pid: u32,
    s: Seq<ProcessRecord>,
    entries: Seq<ProcEntry>,
    p: u32,
)
    requires
        distinct_pids(s),
        spec_scan(root_pid, s, entries) is Ok,
    ensures
        has_pid(spec_scan(root_pid, s, entries)->Ok_0, p) <==> (has_pid(s, p) || scan_matches(
            root_pid,
            entries,
            p,
        )),
    decreases entries.len(),
{
    let t = spec_scan(root_pid, s, entries)->Ok_0;
    if entries.len() == 0 {
        assert(t == s);
        assert(!scan_matches(root_pid, entries, p));
    } else {
        let a = spec_entry_action(root_pid, entries[0])->Ok_0;
        let s1 = apply_action(s, a);
        assert(spec_scan(root_pid, s, entries) == spec_scan(root_pid, s1, entries.skip(1)));
        match a {
            Some(rec) => {
                lemma_insert_pids(s, rec);
                if p == rec.pid {
                    lemma_insert_self(s, rec);
                    assert(entry_inserts(root_pid, entries[0], p));
                } else {
                    lemma_insert_preserves_other(s, rec, p);
                    assert(!entry_inserts(root_pid, entries[0], p));
                }
            },
            None => {
                assert(!entry_inserts(root_pid, entries[0], p));
            },
        }
        lemma_matches_split(root_pid, entries, p);
        lemma_scan_has_pid(root_pid, s1, entries.skip(1), p);
    }
}

/// Whether a scan succeeds, and with which defect it fails, depends on the
/// entries alone, never on the registry contents it starts from.
pub proof fn lemma_scan_result_shape(
    root_pid: u32,
    s1: Seq<ProcessRecord>,
    s2: Seq<ProcessRecord>,
    entries: Seq<ProcEntry>,
)
    ensures
        (spec_scan(root_pid, s1, entries) is Ok) == (spec_scan(root_pid, s2, entries) is Ok),
        spec_scan(root_pid, s1, entries) is Err ==> spec_scan(root_pid, s1, entries) == spec_scan(
            root_pid,
            s2,
            entries,
        ),
    decreases entries.len(),
{
    if entries.len() > 0 {
        match spec_entry_action(root_pid, entries[0]) {
            Err(_) => {},
            Ok(a) => {
                lemma_scan_result_shape(
                    root_pid,
                    apply_action(s1, a),
                    apply_action(s2, a),
                    entries.skip(1),
                );
            },
        }
    }
}

/// What a successful scan leaves for pid `p`: for a pid some entry inserts,
/// the record of the last such entry; for every other pid, whatever the
/// registry already held.
pub proof fn lemma_scan_record_at(
    root_pid: u32,
    s: Seq<ProcessRecord>,
    entries: Seq<ProcEntry>,
    p: u32,
)
    requires
        distinct_pids(s),
        spec_scan(root_pid, s, entries) is Ok,
    ensures
        scan_matches(root_pid, entries, p) ==> {
            let t = spec_scan(root_pid, s, entries)->Ok_0;
            &&& last_inserted(root_pid, entries, p) is Some
            &&& has_pid(t, p)
            &&& record_at(t, p) == last_inserted(root_pid, entries, p)->0
        },
        !scan_matches(root_pid, entries, p) && has_pid(s, p) ==> {
            let t = spec_scan(root_pid, s, entries)->Ok_0;
            &&& has_pid(t, p)
            &&& record_at(t, p) == record_at(s, p)
        },
    decreases entries.len(),
{
    let t = spec_scan(root_pid, s, entries)->Ok_0;
    if entries.len() == 0 {
        assert(t == s);
        assert(!scan_matches(root_pid, entries, p));
    } else {
        let a = spec_entry_action(root_pid, entries[0])->Ok_0;
        let s1 = apply_action(s, a);
        assert(spec_scan(root_pid, s, entries) == spec_scan(root_pid, s1, entries.skip(1)));
        match a {
            Some(rec) => {
                lemma_insert_pids(s, rec);
            },
            None => {},
        }
        lemma_matches_split(root_pid, entries, p);
        lemma_scan_record_at(root_pid, s1, entries.skip(1), p);
        if scan_matches(root_pid, entries, p) {
            if scan_matches(root_pid, entries.skip(1), p) {
                assert(last_inserted(root_pid, entries.skip(1), p) is Some);
                assert(last_inserted(root_pid, entries, p) == last_inserted(
                    root_pid,
                    entries.skip(1),
                    p,
                ));
            } else {
                lemma_no_match_no_last(root_pid, entries.skip(1), p);
                assert(entry_inserts(root_pid, entries[0], p));
                let rec = a->0;
                assert(rec.pid == p);
                lemma_insert_self(s, rec);
                assert(has_pid(s1, p) && record_at(s1, p) == rec);
                assert(last_inserted(root_pid, entries, p) == Some(rec));
            }
        }
        if !scan_matches(root_pid, entries, p) && has_pid(s, p) {
            match a {
                Some(rec) => {
                    assert(rec.pid != p);
                    lemma_insert_preserves_other(s, rec, p);
                },
                None => {},
            }
            assert(has_pid(s1, p) && record_at(s1, p) == record_at(s, p));
        }
    }
}

/// Scanning is idempotent: with an unchanged process listing, a second scan
/// leaves the registry exactly as the first left it — the same keys, in the
/// same order, with the same records.
pub proof fn lemma_scan_idempotent(root_pid: u32, s: Seq<ProcessRecord>, entries: Seq<ProcEntry>)
    requires
        distinct_pids(s),
        spec_scan(root_pid, s, entries) is Ok,
    ensures
        spec_scan(root_pid, spec_scan(root_pid, s, entries)->Ok_0, entries) == Ok::<
            _,
            StatusDefect,
        >(spec_scan(root_pid, s, entries)->Ok_0),
{
    let t = spec_scan(root_pid, s, entries)->Ok_0;
    lemma_scan_keys_monotone(root_pid, s, entries);
    lemma_scan_result_shape(root_pid, s, t, entries);
    let t2 = spec_scan(root_pid, t, entries)->Ok_0;
    lemma_scan_keys_monotone(root_pid, t, entries);
    assert(pids_of(t).len() <= pids_of(t2).len());
    if pids_of(t2).len() > pids_of(t).len() {
        let q = t2[pids_of(t).len() as int].pid;
        assert(pids_of(t2)[pids_of(t).len() as int] == q);
        assert(has_pid(t2, q));
        lemma_scan_has_pid(root_pid, t, entries, q);
        lemma_scan_has_pid(root_pid, s, entries, q);
        assert(has_pid(t, q));
        lemma_column_stable(t, t2, q);
        let i = pid_index(t, q);
        assert(t2[i].pid == q && 0 <= i < pids_of(t).len());
        assert(false);
    }
    assert(pids_of(t) =~= pids_of(t2));
    assert forall|p: u32| has_pid(t, p) implies record_at(t, p) == record_at(t2, p) by {
        lemma_scan_has_pid(root_pid, s, entries, p);
        lemma_scan_record_at(root_pid, s, entries, p);
        lemma_scan_record_at(root_pid, t, entries, p);
    }
    lemma_registry_ext(t, t2);
    assert(spec_scan(root_pid, t, entries) == Ok::<_, StatusDefect>(t2));
}

/// Run one scan: for each entry whose name is a pid and whose status record
/// was read, parse the record; a defect aborts the scan; a record whose
/// parent is `root_pid` is inserted into (or refreshed in) the registry.
#[verifier::loop_isolation(false)]
pub fn scan_entries(root_pid: u32, registry: &mut ProcessRegistry, entries: &Vec<ProcEntry>) -> (r:
    Result<(), StatusDefect>)
    requires
        old(registry).wf(),
    ensures
        final(registry).wf(),
        old(registry).pids().is_prefix_of(final(registry).pids()),
        match r {
            Ok(_) => spec_scan(root_pid, old(registry)@, entries@) == Ok::<_, StatusDefect>(
                final(registry)@,
            ),
            Err(d) => spec_scan(root_pid, old(registry)@, entries@) == Err::<
                Seq<ProcessRecord>,
                _,
            >(d),
        },
{
    proof {
        assert(entries@.skip(0) =~= entries@);
        assert(pids_of(registry@).is_prefix_of(pids_of(registry@)));
    }
    let n: usize = entries.len();
    let mut k: usize = 0;
    while k < n
        invariant
            0 <= k <= n,
            registry.wf(),
            old(registry).pids().is_prefix_of(registry.pids()),
            spec_scan(root_pid, old(registry)@, entries@) == spec_scan(
                root_pid,
                registry@,
                entries@.skip(k as int),
            ),
        decreases n - k,
    {
        proof {
            assert(entries@.skip(k as int)[0] == entries@[k as int]);
            assert(entries@.skip(k as int).skip(1) =~= entries@.skip(k as int + 1));
        }
        let e = &entries[k];
        if let Some(pid) = parse_pid(e.name.as_str()) {
            match &e.status {
                Some(text) => {
                    match parse_proc_status(pid, text.as_str()) {
                        Ok(rec) => {
                            if rec.parent_pid == root_pid {
                                proof {
                                    lemma_insert_pids(registry@, rec);
                                    lemma_prefix_trans(
                                        old(registry).pids(),
                                        registry.pids(),
                                        pids_of(seq_insert_record(registry@, rec)),
                                    );
                                }
                                registry.insert(rec);
                            }
                        },
                        Err(d) => {
                            return Err(d);
                        },
                    }
                },
                None => {},
            }
        }
        k = k + 1;
    }
    proof {
        assert(entries@.skip(n as int) =~= Seq::<ProcEntry>::empty());
    }
    Ok(())
}

} // verus!
