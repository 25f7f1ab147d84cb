use hyprtrace::daemon::procfs::{parse_proc_stat, parse_vmrss_kb};

#[test]
fn proc_stat_parsing_handles_comm_with_parens_and_spaces() {
    let stat = "42 (firefox (web content)) R 1 0 0 0 0 0 0 0 0 0 250 50 0 0 0 0 0 0 12345";
    assert_eq!(parse_proc_stat(stat), Some((300, 12345)));
}

#[test]
fn proc_stat_parsing_rejects_truncated_or_malformed_input() {
    assert_eq!(parse_proc_stat(""), None);
    assert_eq!(parse_proc_stat("42 (vim) R 1 2 3"), None);
    assert_eq!(parse_proc_stat("no closing paren 1 2 3"), None);
    assert_eq!(parse_proc_stat("7 (app) R x x x x x x x x x x x 2"), None);
}

#[test]
fn vmrss_is_read_from_status_text() {
    let status = "Name:\tfirefox\nVmPeak:\t  900 kB\nVmRSS:\t  123456 kB\nThreads:\t4\n";
    assert_eq!(parse_vmrss_kb(status), Some(123456));
}

#[test]
fn vmrss_missing_or_malformed_gives_none() {
    assert_eq!(parse_vmrss_kb("Name:\tx\n"), None);
    assert_eq!(parse_vmrss_kb("VmRSS:\tlots kB\n"), None);
    assert_eq!(parse_vmrss_kb(""), None);
}

#[test]
fn vmrss_first_line_decides() {
    assert_eq!(parse_vmrss_kb("VmRSS: 5 kB\nVmRSS: 7 kB\n"), Some(5));
    assert_eq!(parse_vmrss_kb("VmRSS: bad\nVmRSS: 7 kB\n"), None);
}

#[test]
fn cpu_sum_beyond_u64_is_no_reading() {
    let stat = "7 (app) S 1 1 1 0 -1 0 0 0 0 0 18446744073709551615 1 0 0 20 0 1 0 99 0 0";
    assert_eq!(parse_proc_stat(stat), None);
    let stat = "7 (app) S 1 1 1 0 -1 0 0 0 0 0 18446744073709551614 1 0 0 20 0 1 0 99 0 0";
    assert_eq!(parse_proc_stat(stat), Some((18446744073709551615, 99)));
}
