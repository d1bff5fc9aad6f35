//! One observed process, and how its record is parsed out of the
//! kernel-exposed status text.

use vstd::prelude::*;
use crate::digits::spec_parse_int;
use crate::digits::parse_int;
use crate::lines::find_line;
use crate::lines::get_line;

verus! {

/// One observed process at its most recent read: its pid, its parent's pid
/// at read time, and its resident set size in kilobytes.
#[derive(Clone, Copy, PartialEq, Eq, Structural, Debug)]
pub struct ProcessRecord {
    pub pid: u32,
    pub parent_pid: u32,
    pub resident_memory_kb: u32,
}

/// A status record that was found but does not hold what the kernel
/// interface promises. Distinct from a missing record: a defect is an
/// unrecoverable format-assumption violation, never skipped silently.
#[derive(Clone, Copy, PartialEq, Eq, Structural, Debug)]
pub enum StatusDefect {
    /// No line labeled with the parent-pid label.
    MissingParentLine,
    /// The parent-pid line holds no parseable number.
    MalformedParentValue,
    /// No line labeled with the resident-memory label.
    MissingMemoryLine,
    /// The resident-memory line holds no parseable number.
    MalformedMemoryValue,
}

/// What `parse_proc_status` returns for a process `pid` whose status text is
/// `text`: the record read from the two labeled lines, or the first defect.
pub open spec fn spec_parse_status(pid: u32, text: Seq<char>) -> Result<
    ProcessRecord,
    StatusDefect,
> {
    match find_line(text, "PPid"@) {
        None => Err(StatusDefect::MissingParentLine),
        Some(ppid_line) => match spec_parse_int(ppid_line) {
            None => Err(StatusDefect::MalformedParentValue),
            Some(parent_pid) => match find_line(text, "VmRSS"@) {
                None => Err(StatusDefect::MissingMemoryLine),
                Some(rss_line) => match spec_parse_int(rss_line) {
                    None => Err(StatusDefect::MalformedMemoryValue),
                    Some(resident_memory_kb) => Ok(
                        ProcessRecord { pid, parent_pid, resident_memory_kb },
                    ),
                },
            },
        },
    }
}

/// Read a process record out of its status text: the parent pid from the
/// line labeled `PPid`, the resident set size from the line labeled `VmRSS`
/// (its unit suffix ignored). A missing label or a label without a number is
/// a defect, reported as such, never defaulted.
pub fn parse_proc_status(pid: u32, text: &str) -> (r: Result<ProcessRecord, StatusDefect>)
    ensures
        r == spec_parse_status(pid, text@),
{
    let parent_pid: u32 = match get_line(text, "PPid") {
        None => {
            return Err(StatusDefect::MissingParentLine);
        },
        Some(line) => match parse_int(line) {
            None => {
                return Err(StatusDefect::MalformedParentValue);
            },
            Some(v) => v,
        },
    };
    let resident_memory_kb: u32 = match get_line(text, "VmRSS") {
        None => {
            return Err(StatusDefect::MissingMemoryLine);
        },
        Some(line) => match parse_int(line) {
            None => {
                return Err(StatusDefect::MalformedMemoryValue);
            },
            Some(v) => v,
        },
    };
    Ok(ProcessRecord { pid, parent_pid, resident_memory_kb })
}

} // verus!
