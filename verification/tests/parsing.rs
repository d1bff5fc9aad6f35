//! Field extraction and status-record parsing.

use procmem::digits::parse_int;
use procmem::digits::parse_pid;
use procmem::digits::u64_to_dec;
use procmem::lines::get_line;
use procmem::record::parse_proc_status;
use procmem::record::ProcessRecord;
use procmem::record::StatusDefect;

#[test]
fn parse_int_reads_leading_digit_run_after_label() {
    assert_eq!(parse_int("VmRSS:\t  12345 kB"), Some(12345));
}

#[test]
fn parse_int_ignores_unit_suffix_and_later_digits() {
    assert_eq!(parse_int("a42b77"), Some(42));
    assert_eq!(parse_int("PPid:\t0"), Some(0));
}

#[test]
fn parse_int_plain_number() {
    assert_eq!(parse_int("42"), Some(42));
    assert_eq!(parse_int("007"), Some(7));
}

#[test]
fn parse_int_no_digits_is_none() {
    assert_eq!(parse_int(""), None);
    assert_eq!(parse_int("VmRSS:\t kB"), None);
}

#[test]
fn parse_int_overflow_is_none() {
    assert_eq!(parse_int("4294967295"), Some(u32::MAX));
    assert_eq!(parse_int("4294967296"), None);
    assert_eq!(parse_int("99999999999999999999 kB"), None);
}

#[test]
fn parse_pid_strict_decimal_only() {
    assert_eq!(parse_pid("123"), Some(123));
    assert_eq!(parse_pid("0"), Some(0));
    assert_eq!(parse_pid(""), None);
    assert_eq!(parse_pid("12a"), None);
    assert_eq!(parse_pid("self"), None);
    assert_eq!(parse_pid("+12"), None);
    assert_eq!(parse_pid("4294967296"), None);
}

#[test]
fn get_line_finds_first_labeled_line() {
    let text = "Name:\tcat\nPPid:\t77\nVmRSS:\t  12345 kB\nPPid:\t88\n";
    assert_eq!(get_line(text, "PPid"), Some("PPid:\t77"));
    assert_eq!(get_line(text, "VmRSS"), Some("VmRSS:\t  12345 kB"));
    assert_eq!(get_line(text, "VmSwap"), None);
}

#[test]
fn get_line_trims_before_matching_and_strips_carriage_return() {
    assert_eq!(get_line("  PPid: 7", "PPid"), Some("  PPid: 7"));
    assert_eq!(get_line("PPid: 7\r\nVmRSS: 1 kB\n", "PPid"), Some("PPid: 7"));
    // A carriage return goes only with a newline terminator: the final line,
    // which no newline terminates, keeps a bare trailing one.
    assert_eq!(get_line("PPid: 7\r", "PPid"), Some("PPid: 7\r"));
    assert_eq!(get_line("", "PPid"), None);
}

#[test]
fn parse_proc_status_reads_both_fields() {
    let text = "Name:\tcat\nPPid:\t100\nVmRSS:\t     500 kB\n";
    assert_eq!(
        parse_proc_status(7, text),
        Ok(ProcessRecord { pid: 7, parent_pid: 100, resident_memory_kb: 500 })
    );
}

#[test]
fn parse_proc_status_missing_parent_line() {
    assert_eq!(
        parse_proc_status(7, "Name:\tcat\nVmRSS:\t500 kB\n"),
        Err(StatusDefect::MissingParentLine)
    );
}

#[test]
fn parse_proc_status_malformed_parent_value() {
    assert_eq!(
        parse_proc_status(7, "PPid:\t??\nVmRSS:\t500 kB\n"),
        Err(StatusDefect::MalformedParentValue)
    );
}

#[test]
fn parse_proc_status_missing_memory_line() {
    // A kernel thread's status has no resident-memory line at all.
    assert_eq!(
        parse_proc_status(7, "Name:\tkthreadd\nPPid:\t2\n"),
        Err(StatusDefect::MissingMemoryLine)
    );
}

#[test]
fn parse_proc_status_malformed_memory_value() {
    assert_eq!(
        parse_proc_status(7, "PPid:\t1\nVmRSS:\tkB\n"),
        Err(StatusDefect::MalformedMemoryValue)
    );
}

#[test]
fn u64_to_dec_renders_decimal() {
    assert_eq!(u64_to_dec(0).as_str(), "0");
    assert_eq!(u64_to_dec(7).as_str(), "7");
    assert_eq!(u64_to_dec(1234567890).as_str(), "1234567890");
    assert_eq!(u64_to_dec(u64::MAX).as_str(), "18446744073709551615");
}
