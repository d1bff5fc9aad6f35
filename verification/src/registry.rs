//! The process registry: the most recent record for every pid ever observed,
//! in discovery order. Entries are refreshed in place and never evicted, so
//! the key set only grows and a pid's position never changes once assigned.

use vstd::prelude::*;
use crate::record::ProcessRecord;

verus! {

/// The pids of a record sequence, in order.
pub open spec fn pids_of(s: Seq<ProcessRecord>) -> Seq<u32> {
    s.map_values(|r: ProcessRecord| r.pid)
}

/// Some record in `s` carries pid `p`.
pub open spec fn has_pid(s: Seq<ProcessRecord>, p: u32) -> bool {
    exists|i: int| 0 <= i < s.len() && s[i].pid == p
}

/// The position of pid `p` in `s`; meaningful only under `has_pid` and
/// `distinct_pids`, which make it unique.
pub open spec fn pid_index(s: Seq<ProcessRecord>, p: u32) -> int {
    choose|i: int| 0 <= i < s.len() && s[i].pid == p
}

/// The record of pid `p` in `s`.
pub open spec fn record_at(s: Seq<ProcessRecord>, p: u32) -> ProcessRecord {
    s[pid_index(s, p)]
}

/// No two records in `s` carry the same pid.
pub open spec fn distinct_pids(s: Seq<ProcessRecord>) -> bool {
    forall|i: int, j: int| 0 <= i < j < s.len() ==> s[i].pid != s[j].pid
}

/// Insert or refresh at the specification level: a known pid's record is
/// overwritten in place, an unknown pid's record is appended.
pub open spec fn seq_insert_record(s: Seq<ProcessRecord>, rec: ProcessRecord) -> Seq<
    ProcessRecord,
> {
    if has_pid(s, rec.pid) {
        s.update(pid_index(s, rec.pid), rec)
    } else {
        s.push(rec)
    }
}

/// Inserting keeps every pid where it was; a new pid goes to the end.
pub proof fn lemma_insert_pids(s: Seq<ProcessRecord>, rec: ProcessRecord)
    requires
        distinct_pids(s),
    ensures
        has_pid(s, rec.pid) ==> pids_of(seq_insert_record(s, rec)) == pids_of(s),
        !has_pid(s, rec.pid) ==> pids_of(seq_insert_record(s, rec)) == pids_of(s).push(rec.pid),
        distinct_pids(seq_insert_record(s, rec)),
        pids_of(s).is_prefix_of(pids_of(seq_insert_record(s, rec))),
{
    if has_pid(s, rec.pid) {
        let i = pid_index(s, rec.pid);
        assert(pids_of(s.update(i, rec)) =~= pids_of(s));
        assert(pids_of(s).is_prefix_of(pids_of(s)));
    } else {
        assert(pids_of(s.push(rec)) =~= pids_of(s).push(rec.pid));
        assert(pids_of(s) =~= pids_of(s).push(rec.pid).take(pids_of(s).len() as int));
    }
}

/// Inserting a record makes it the one record of its pid.
pub proof fn lemma_insert_self(s: Seq<ProcessRecord>, rec: ProcessRecord)
    requires
        distinct_pids(s),
    ensures
        has_pid(seq_insert_record(s, rec), rec.pid),
        record_at(seq_insert_record(s, rec), rec.pid) == rec,
{
    let t = seq_insert_record(s, rec);
    if has_pid(s, rec.pid) {
        let i = pid_index(s, rec.pid);
        assert(0 <= i < s.len() && s[i].pid == rec.pid);
        assert(t[i] == rec);
        assert(has_pid(t, rec.pid));
        let j = pid_index(t, rec.pid);
        assert(0 <= j < t.len() && t[j].pid == rec.pid);
        if j != i {
            assert(s[j].pid == t[j].pid);
            assert(false);
        }
    } else {
        let i = s.len() as int;
        assert(t[i] == rec);
        assert(has_pid(t, rec.pid));
        let j = pid_index(t, rec.pid);
        assert(0 <= j < t.len() && t[j].pid == rec.pid);
        if j != i {
            assert(s[j].pid == rec.pid);
            assert(false);
        }
    }
}

/// Inserting a record leaves every other pid's presence and record unchanged.
pub proof fn lemma_insert_preserves_other(s: Seq<ProcessRecord>, rec: ProcessRecord, p: u32)
    requires
        distinct_pids(s),
        p != rec.pid,
    ensures
        has_pid(seq_insert_record(s, rec), p) == has_pid(s, p),
        has_pid(s, p) ==> record_at(seq_insert_record(s, rec), p) == record_at(s, p),
{
    let t = seq_insert_record(s, rec);
    if has_pid(s, rec.pid) {
        let i = pid_index(s, rec.pid);
        assert(0 <= i < s.len() && s[i].pid == rec.pid);
        assert(forall|m: int| 0 <= m < s.len() && m != i ==> t[m] == s[m]);
        if has_pid(s, p) {
            let j = pid_index(s, p);
            assert(0 <= j < s.len() && s[j].pid == p);
            assert(j != i);
            assert(t[j].pid == p);
            assert(has_pid(t, p));
            let j2 = pid_index(t, p);
            assert(0 <= j2 < t.len() && t[j2].pid == p);
            if j2 != j {
                if j2 == i {
                    assert(false);
                } else {
                    assert(s[j2].pid == p);
                    assert(false);
                }
            }
            assert(record_at(t, p) == s[j]);
        } else {
            if has_pid(t, p) {
                let j2 = pid_index(t, p);
                assert(0 <= j2 < t.len() && t[j2].pid == p);
                assert(j2 != i);
                assert(s[j2].pid == p);
                assert(false);
            }
        }
    } else {
        if has_pid(s, p) {
            let j = pid_index(s, p);
            assert(0 <= j < s.len() && s[j].pid == p);
            assert(t[j].pid == p);
            assert(has_pid(t, p));
            let j2 = pid_index(t, p);
            assert(0 <= j2 < t.len() && t[j2].pid == p);
            if j2 != j {
                if j2 == s.len() as int {
                    assert(false);
                } else {
                    assert(s[j2].pid == p);
                    assert(false);
                }
            }
        } else {
            if has_pid(t, p) {
                let j2 = pid_index(t, p);
                assert(0 <= j2 < t.len() && t[j2].pid == p);
                if j2 == s.len() as int {
                    assert(false);
                } else {
                    assert(s[j2].pid == p);
                    assert(false);
                }
            }
        }
    }
}

/// A pid keeps being tracked under any contents whose pid order extends the
/// order it is tracked in.
pub proof fn lemma_prefix_keeps_pids(s: Seq<ProcessRecord>, t: Seq<ProcessRecord>, p: u32)
    requires
        pids_of(s).is_prefix_of(pids_of(t)),
        has_pid(s, p),
    ensures
        has_pid(t, p),
{
    let i = choose|i: int| 0 <= i < s.len() && s[i].pid == p;
    assert(pids_of(s)[i] == p);
    assert(pids_of(s) =~= pids_of(t).subrange(0, pids_of(s).len() as int));
    assert(pids_of(t)[i] == p);
    assert(t[i].pid == p);
}

/// Prefixes chain: a prefix of a prefix of `c` is a prefix of `c`.
pub proof fn lemma_prefix_trans(a: Seq<u32>, b: Seq<u32>, c: Seq<u32>)
    requires
        a.is_prefix_of(b),
        b.is_prefix_of(c),
    ensures
        a.is_prefix_of(c),
{
    assert(a =~= c.subrange(0, a.len() as int));
}

/// Two well-formed registry contents with the same pid order and the same
/// record for every pid are the same contents.
pub proof fn lemma_registry_ext(s: Seq<ProcessRecord>, t: Seq<ProcessRecord>)
    requires
        distinct_pids(s),
        distinct_pids(t),
        pids_of(s) == pids_of(t),
        forall|p: u32| has_pid(s, p) ==> record_at(s, p) == record_at(t, p),
    ensures
        s == t,
{
    assert(pids_of(s).len() == s.len());
    assert(pids_of(t).len() == t.len());
    assert(s.len() == t.len());
    assert forall|i: int| 0 <= i < s.len() implies s[i] == t[i] by {
        let p = s[i].pid;
        assert(pids_of(s)[i] == p);
        assert(pids_of(t)[i] == p);
        assert(t[i].pid == p);
        assert(has_pid(s, p));
        assert(has_pid(t, p));
        let j = pid_index(s, p);
        assert(0 <= j < s.len() && s[j].pid == p);
        if j != i {
            assert(false);
        }
        let j2 = pid_index(t, p);
        assert(0 <= j2 < t.len() && t[j2].pid == p);
        if j2 != i {
            assert(false);
        }
        assert(s[i] == record_at(s, p));
        assert(t[i] == record_at(t, p));
    }
    assert(s =~= t);
}

/// Column order is stable: once a pid has a column, any later well-formed
/// contents whose pid order extends the earlier one keep it in that column.
pub proof fn lemma_column_stable(s: Seq<ProcessRecord>, t: Seq<ProcessRecord>, p: u32)
    requires
        distinct_pids(s),
        distinct_pids(t),
        pids_of(s).is_prefix_of(pids_of(t)),
        has_pid(s, p),
    ensures
        has_pid(t, p),
        pid_index(t, p) == pid_index(s, p),
{
    let i = pid_index(s, p);
    assert(0 <= i < s.len() && s[i].pid == p);
    assert(pids_of(s)[i] == p);
    assert(pids_of(s) =~= pids_of(t).subrange(0, pids_of(s).len() as int));
    assert(pids_of(t)[i] == p);
    assert(t[i].pid == p);
    assert(has_pid(t, p));
    let j = pid_index(t, p);
    assert(0 <= j < t.len() && t[j].pid == p);
    if j != i {
        assert(false);
    }
}

/// The registry itself: a vector of records with pairwise distinct pids.
#[derive(Debug)]
pub struct ProcessRegistry {
    entries: Vec<ProcessRecord>,
}

impl View for ProcessRegistry {
    type V = Seq<ProcessRecord>;

    closed spec fn view(&self) -> Seq<ProcessRecord> {
        self.entries@
    }
}

impl ProcessRegistry {
    /// Registry well-formedness: one record per pid.
    pub open spec fn wf(self) -> bool {
        distinct_pids(self@)
    }

    /// The registry's pids, in discovery order: the column order of the table.
    pub open spec fn pids(self) -> Seq<u32> {
        pids_of(self@)
    }

    /// Pid `p` is tracked.
    pub open spec fn contains_pid(self, p: u32) -> bool {
        has_pid(self@, p)
    }

    /// An empty registry.
    pub fn new() -> (r: Self)
        ensures
            r@ == Seq::<ProcessRecord>::empty(),
            r.wf(),
    {
        let r = ProcessRegistry { entries: Vec::new() };
        proof {
            assert(r@ =~= Seq::<ProcessRecord>::empty());
        }
        r
    }

    /// How many processes are tracked.
    pub fn len(&self) -> (n: usize)
        ensures
            n == self@.len(),
    {
        self.entries.len()
    }

    /// The record in column `i`.
    pub fn get(&self, i: usize) -> (r: &ProcessRecord)
        requires
            i < self@.len(),
        ensures
            *r == self@[i as int],
    {
        &self.entries[i]
    }

    /// Insert or refresh `rec` under its pid: a known pid keeps its column,
    /// an unknown pid is appended as a new column.
    #[verifier::loop_isolation(false)]
    pub fn insert(&mut self, rec: ProcessRecord)
        requires
            old(self).wf(),
        ensures
            final(self).wf(),
            final(self)@ == seq_insert_record(old(self)@, rec),
    {
        let n: usize = self.entries.len();
        let mut k: usize = 0;
        while k < n
            invariant
                0 <= k <= n,
                n == self@.len(),
                forall|m: int| 0 <= m < k ==> self@[m].pid != rec.pid,
                *self == *old(self),
            decreases n - k,
        {
            if self.entries[k].pid == rec.pid {
                proof {
                    assert(has_pid(self@, rec.pid));
                    let i = pid_index(self@, rec.pid);
                    assert(0 <= i < self@.len() && self@[i].pid == rec.pid);
                    assert(i == k);
                    lemma_insert_pids(self@, rec);
                }
                self.entries[k] = rec;
                return ;
            }
            k = k + 1;
        }
        proof {
            assert(!has_pid(self@, rec.pid));
            lemma_insert_pids(self@, rec);
        }
        self.entries.push(rec);
    }
}

} // verus!
