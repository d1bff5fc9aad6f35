//! Registry behavior, scans, and the rendered table.

use procmem::emit::header_line;
use procmem::emit::init_registry;
use procmem::emit::row_line;
use procmem::emit::sample_tick;
use procmem::emit::StartupError;
use procmem::record::ProcessRecord;
use procmem::record::StatusDefect;
use procmem::registry::ProcessRegistry;
use procmem::scan::scan_entries;
use procmem::scan::ProcEntry;

fn status_text(parent_pid: u32, vmrss_kb: u32) -> String {
    format!("Name:\tx\nPPid:\t{}\nVmRSS:\t    {} kB\n", parent_pid, vmrss_kb)
}

fn entry(name: &str, status: Option<String>) -> ProcEntry {
    ProcEntry { name: name.to_string(), status }
}

fn registry_pids(reg: &ProcessRegistry) -> Vec<u32> {
    let mut pids = Vec::new();
    let mut i = 0;
    while i < reg.len() {
        pids.push(reg.get(i).pid);
        i += 1;
    }
    pids
}

fn registry_records(reg: &ProcessRegistry) -> Vec<ProcessRecord> {
    let mut records = Vec::new();
    let mut i = 0;
    while i < reg.len() {
        records.push(*reg.get(i));
        i += 1;
    }
    records
}

#[test]
fn registry_insert_appends_new_and_refreshes_in_place() {
    let mut reg = ProcessRegistry::new();
    assert_eq!(reg.len(), 0);
    reg.insert(ProcessRecord { pid: 1, parent_pid: 0, resident_memory_kb: 10 });
    reg.insert(ProcessRecord { pid: 2, parent_pid: 1, resident_memory_kb: 20 });
    reg.insert(ProcessRecord { pid: 1, parent_pid: 0, resident_memory_kb: 15 });
    assert_eq!(registry_pids(&reg), vec![1, 2]);
    assert_eq!(reg.get(0).resident_memory_kb, 15);
    assert_eq!(reg.get(1).resident_memory_kb, 20);
}

#[test]
fn scan_finds_direct_children_only() {
    // Pids {10, 11, 12} with parents {-, 10, 10}, rooted at 10: exactly
    // {11, 12} are discovered. Pid 13, a grandchild via 11, is not.
    let mut reg = ProcessRegistry::new();
    reg.insert(ProcessRecord { pid: 10, parent_pid: 1, resident_memory_kb: 100 });
    let entries = vec![
        entry("10", Some(status_text(1, 100))),
        entry("11", Some(status_text(10, 40))),
        entry("12", Some(status_text(10, 50))),
        entry("13", Some(status_text(11, 60))),
        entry("self", None),
    ];
    assert_eq!(scan_entries(10, &mut reg, &entries), Ok(()));
    assert_eq!(registry_pids(&reg), vec![10, 11, 12]);
}

#[test]
fn scan_skips_non_numeric_names_and_vanished_processes() {
    let mut reg = ProcessRegistry::new();
    let entries = vec![
        entry("sys", Some(status_text(10, 1))),
        entry("11", None),
        entry("12", Some(status_text(10, 50))),
    ];
    assert_eq!(scan_entries(10, &mut reg, &entries), Ok(()));
    assert_eq!(registry_pids(&reg), vec![12]);
}

#[test]
fn scan_reports_defective_status_record() {
    let mut reg = ProcessRegistry::new();
    let entries = vec![entry("11", Some("Name:\tbroken\n".to_string()))];
    assert_eq!(
        scan_entries(10, &mut reg, &entries),
        Err(StatusDefect::MissingParentLine)
    );
}

#[test]
fn registry_keys_grow_monotonically_and_keep_column_order() {
    let mut reg = ProcessRegistry::new();
    reg.insert(ProcessRecord { pid: 10, parent_pid: 1, resident_memory_kb: 100 });
    let first = vec![entry("11", Some(status_text(10, 40)))];
    assert_eq!(scan_entries(10, &mut reg, &first), Ok(()));
    assert_eq!(registry_pids(&reg), vec![10, 11]);
    // A later scan that no longer lists pid 11 keeps its column; a new child
    // is appended after the established columns.
    let second = vec![entry("12", Some(status_text(10, 50)))];
    assert_eq!(scan_entries(10, &mut reg, &second), Ok(()));
    assert_eq!(registry_pids(&reg), vec![10, 11, 12]);
}

#[test]
fn scan_twice_with_unchanged_tree_changes_nothing() {
    let mut reg = ProcessRegistry::new();
    reg.insert(ProcessRecord { pid: 10, parent_pid: 1, resident_memory_kb: 100 });
    let entries = vec![
        entry("10", Some(status_text(1, 100))),
        entry("11", Some(status_text(10, 40))),
        entry("12", Some(status_text(10, 50))),
    ];
    assert_eq!(scan_entries(10, &mut reg, &entries), Ok(()));
    let after_first = registry_records(&reg);
    assert_eq!(scan_entries(10, &mut reg, &entries), Ok(()));
    assert_eq!(registry_records(&reg), after_first);
}

#[test]
fn end_to_end_root_and_one_child() {
    // Root pid 100 with VmRSS 500 kB, one child pid 101 with VmRSS 200 kB.
    let root_status = status_text(1, 500);
    let mut reg = init_registry(100, Some(root_status.as_str())).unwrap();
    let entries = vec![
        entry("100", Some(status_text(1, 500))),
        entry("101", Some(status_text(100, 200))),
    ];
    assert_eq!(scan_entries(100, &mut reg, &entries), Ok(()));
    assert_eq!(header_line(&reg).as_str(), "seconds_elapsed,PID-100,PID-101\n");
    let row = sample_tick(100, &mut reg, &entries, 0).unwrap();
    assert_eq!(row.as_str(), "0,500,200\n");
}

#[test]
fn missing_root_at_startup_aborts_before_any_header() {
    assert_eq!(
        init_registry(100, None).unwrap_err(),
        StartupError::RootNotFound
    );
}

#[test]
fn defective_root_status_is_reported_as_such() {
    assert_eq!(
        init_registry(100, Some("Name:\tx\n")).unwrap_err(),
        StartupError::RootDefect(StatusDefect::MissingParentLine)
    );
}

#[test]
fn sample_tick_refreshes_values_and_appends_new_columns() {
    let mut reg = init_registry(100, Some(status_text(1, 500).as_str())).unwrap();
    let first = vec![entry("101", Some(status_text(100, 200)))];
    assert_eq!(scan_entries(100, &mut reg, &first), Ok(()));
    assert_eq!(header_line(&reg).as_str(), "seconds_elapsed,PID-100,PID-101\n");
    // Next tick: the child's memory changed and a new child appeared. Its
    // column is appended even though the header was already written.
    let second = vec![
        entry("101", Some(status_text(100, 250))),
        entry("102", Some(status_text(100, 60))),
    ];
    let row = sample_tick(100, &mut reg, &second, 1).unwrap();
    assert_eq!(row.as_str(), "1,500,250,60\n");
}

#[test]
fn sample_tick_propagates_status_defect() {
    let mut reg = init_registry(100, Some(status_text(1, 500).as_str())).unwrap();
    let entries = vec![entry("101", Some("PPid:\t100\nVmRSS:\tkB\n".to_string()))];
    assert_eq!(
        sample_tick(100, &mut reg, &entries, 0),
        Err(StatusDefect::MalformedMemoryValue)
    );
}

#[test]
fn row_line_for_empty_registry_is_just_the_step() {
    let reg = ProcessRegistry::new();
    assert_eq!(header_line(&reg).as_str(), "seconds_elapsed\n");
    assert_eq!(row_line(3, &reg).as_str(), "3\n");
}
