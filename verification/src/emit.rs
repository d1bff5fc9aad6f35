//! Rendering the sample table and driving one run: seed the registry with
//! the root process, then per tick refresh it and render one row. The column
//! order is the registry's discovery order, fixed once a pid is tracked.

use vstd::prelude::*;
use vstd::string::StringExecFns;
use crate::digits::dec_of;
use crate::digits::u64_to_dec;
use crate::record::ProcessRecord;
use crate::record::StatusDefect;
use crate::record::spec_parse_status;
use crate::record::parse_proc_status;
use crate::registry::ProcessRegistry;
use crate::scan::ProcEntry;
use crate::scan::spec_scan;
use crate::scan::scan_entries;

verus! {

/// The header cells after the first: one `,PID-<pid>` per record, in order.
pub open spec fn header_cols(rs: Seq<ProcessRecord>) -> Seq<char>
    decreases rs.len(),
{
    if rs.len() == 0 {
        Seq::empty()
    } else {
        header_cols(rs.drop_last()) + ",PID-"@ + dec_of(rs.last().pid as nat)
    }
}

/// The whole header line: the elapsed-time label, one cell per column,
/// newline-terminated.
pub open spec fn header_text(rs: Seq<ProcessRecord>) -> Seq<char> {
    "seconds_elapsed"@ + header_cols(rs) + "\n"@
}

/// The row cells after the first: one `,<resident_memory_kb>` per record,
/// in the same order the header used.
pub open spec fn row_cols(rs: Seq<ProcessRecord>) -> Seq<char>
    decreases rs.len(),
{
    if rs.len() == 0 {
        Seq::empty()
    } else {
        row_cols(rs.drop_last()) + ","@ + dec_of(rs.last().resident_memory_kb as nat)
    }
}

/// One whole sample row: the step counter, one cell per column,
/// newline-terminated.
pub open spec fn row_text(step: u64, rs: Seq<ProcessRecord>) -> Seq<char> {
    dec_of(step as nat) + row_cols(rs) + "\n"@
}

/// Render the header line for the registry's current columns.
#[verifier::loop_isolation(false)]
pub fn header_line(registry: &ProcessRegistry) -> (s: String)
    ensures
        s@ == header_text(registry@),
{
    let mut out = String::from_str("seconds_elapsed");
    proof {
        assert(registry@.take(0) =~= Seq::<ProcessRecord>::empty());
        assert(out@ =~= "seconds_elapsed"@ + header_cols(registry@.take(0)));
    }
    let n: usize = registry.len();
    let mut k: usize = 0;
    while k < n
        invariant
            0 <= k <= n,
            out@ == "seconds_elapsed"@ + header_cols(registry@.take(k as int)),
        decreases n - k,
    {
        out.append(",PID-");
        let cell = u64_to_dec(registry.get(k).pid as u64);
        out.append(cell.as_str());
        proof {
            assert(registry@.take(k as int + 1).drop_last() =~= registry@.take(k as int));
            assert(registry@.take(k as int + 1).last() == registry@[k as int]);
            assert(out@ =~= "seconds_elapsed"@ + header_cols(registry@.take(k as int + 1)));
        }
        k = k + 1;
    }
    proof {
        assert(registry@.take(n as int) =~= registry@);
    }
    out.append("\n");
    out
}

/// Render the row for step counter `step` from the registry's current
/// records, in the registry's column order.
#[verifier::loop_isolation(false)]
pub fn row_line(step: u64, registry: &ProcessRegistry) -> (s: String)
    ensures
        s@ == row_text(step, registry@),
{
    let mut out = u64_to_dec(step);
    proof {
        assert(registry@.take(0) =~= Seq::<ProcessRecord>::empty());
        assert(out@ =~= dec_of(step as nat) + row_cols(registry@.take(0)));
    }
    let n: usize = registry.len();
    let mut k: usize = 0;
    while k < n
        invariant
            0 <= k <= n,
            out@ == dec_of(step as nat) + row_cols(registry@.take(k as int)),
        decreases n - k,
    {
        out.append(",");
        let cell = u64_to_dec(registry.get(k).resident_memory_kb as u64);
        out.append(cell.as_str());
        proof {
            assert(registry@.take(k as int + 1).drop_last() =~= registry@.take(k as int));
            assert(registry@.take(k as int + 1).last() == registry@[k as int]);
            assert(out@ =~= dec_of(step as nat) + row_cols(registry@.take(k as int + 1)));
        }
        k = k + 1;
    }
    proof {
        assert(registry@.take(n as int) =~= registry@);
    }
    out.append("\n");
    out
}

/// Why sampling cannot start.
#[derive(Clone, Copy, PartialEq, Eq, Structural, Debug)]
pub enum StartupError {
    /// The root process has no status record: it is not running. Nothing may
    /// be emitted, not even the header.
    RootNotFound,
    /// The root's status record is present but defective.
    RootDefect(StatusDefect),
}

/// Seed a registry with the tracked root's own record, read from its status
/// text. `None` for the text means the status record was missing, the
/// unrecoverable startup condition: no registry exists then, so no header
/// line can ever be rendered from it.
pub fn init_registry(root_pid: u32, root_status: Option<&str>) -> (r: Result<
    ProcessRegistry,
    StartupError,
>)
    ensures
        match r {
            Ok(reg) => reg.wf() && match root_status {
                Some(text) => spec_parse_status(root_pid, text@) matches Ok(rec) && reg@ == seq![
                    rec,
                ],
                None => false,
            },
            Err(e) => match e {
                StartupError::RootNotFound => root_status is None,
                StartupError::RootDefect(d) => match root_status {
                    Some(text) => spec_parse_status(root_pid, text@) == Err::<ProcessRecord, _>(d),
                    None => false,
                },
            },
        },
{
    match root_status {
        None => Err(StartupError::RootNotFound),
        Some(text) => match parse_proc_status(root_pid, text) {
            Err(d) => Err(StartupError::RootDefect(d)),
            Ok(rec) => {
                let mut reg = ProcessRegistry::new();
                reg.insert(rec);
                proof {
                    assert(reg@ =~= seq![rec]);
                }
                Ok(reg)
            },
        },
    }
}

/// One sampling tick: refresh the registry from the process listing handed
/// in, then render the row for step counter `step` over the refreshed
/// columns. A status-record defect aborts the tick and the run.
pub fn sample_tick(
    root_pid: u32,
    registry: &mut ProcessRegistry,
    entries: &Vec<ProcEntry>,
    step: u64,
) -> (r: Result<String, StatusDefect>)
    requires
        old(registry).wf(),
    ensures
        final(registry).wf(),
        old(registry).pids().is_prefix_of(final(registry).pids()),
        match r {
            Ok(row) => spec_scan(root_pid, old(registry)@, entries@) == Ok::<_, StatusDefect>(
                final(registry)@,
            ) && row@ == row_text(step, final(registry)@),
            Err(d) => spec_scan(root_pid, old(registry)@, entries@) == Err::<
                Seq<ProcessRecord>,
                _,
            >(d),
        },
{
    match scan_entries(root_pid, registry, entries) {
        Ok(_) => Ok(row_line(step, registry)),
        Err(d) => Err(d),
    }
}

} // verus!
