use proc_lookup::macos::{
    decode_procargs, listed_pids, pid_buffer_len, BsdNames, PidInfoReply, PID_SLACK,
};
use proc_lookup::windows::{
    bytes_eq_ignore_ascii_case, command_line_buffer_len, command_line_text, exe_target_of,
    to_ascii_lower, wide_field_text, ToolhelpEntry, UnicodeStringHeader,
    STATUS_BUFFER_OVERFLOW, STATUS_BUFFER_TOO_SMALL, STATUS_INFO_LENGTH_MISMATCH,
};
use proc_lookup::text::{c_string_text, copy_range, find_nul};
use proc_lookup::{find_process_by_pid, find_processes_by_name, get_process_cmdline, ProcessInfo};

fn field(text: &str, width: usize) -> Vec<u8> {
    let mut v = text.as_bytes().to_vec();
    v.resize(width, 0);
    v
}

fn bsd(pid: u32, comm: &str, name: &str) -> PidInfoReply {
    PidInfoReply {
        pid,
        names: Some(BsdNames { comm: field(comm, 16), name: field(name, 32) }),
    }
}

fn wide(text: &str) -> Vec<u16> {
    let mut v: Vec<u16> = text.encode_utf16().collect();
    v.resize(260, 0);
    v
}

fn entry(pid: u32, exe: &str) -> ToolhelpEntry {
    ToolhelpEntry { pid, exe_file: wide(exe) }
}

fn procargs(argc: i32, rest: &[u8]) -> Vec<u8> {
    let mut v = argc.to_le_bytes().to_vec();
    v.extend_from_slice(rest);
    v
}

fn pairs(found: &[ProcessInfo]) -> Vec<(u32, String)> {
    found.iter().map(|p| (p.pid, p.name.clone())).collect()
}

#[test]
fn fallback_finds_no_process_by_name() {
    assert!(find_processes_by_name("ghost".to_string()).is_empty());
}

#[test]
fn fallback_finds_no_process_by_pid() {
    assert!(find_process_by_pid(999999).is_none());
}

#[test]
fn fallback_finds_no_cmdline() {
    assert!(get_process_cmdline(999999).is_none());
}

#[test]
fn procargs_joins_arguments_after_path() {
    let buf = procargs(3, b"/bin/ls\0\0\0\0ls\0-l\0/tmp\0\0\0");
    assert_eq!(decode_procargs(&buf), Some("ls -l /tmp".to_string()));
}

#[test]
fn procargs_zero_arguments_is_empty_not_absent() {
    let buf = procargs(0, b"/usr/bin/true\0\0\0PATH=/bin\0");
    assert_eq!(decode_procargs(&buf), Some(String::new()));
}

#[test]
fn procargs_count_beyond_buffer_keeps_parsed_arguments() {
    let buf = procargs(9, b"/bin/echo\0echo\0hello\0wor");
    assert_eq!(decode_procargs(&buf), Some("echo hello".to_string()));
}

#[test]
fn procargs_count_limits_arguments() {
    let buf = procargs(2, b"/bin/echo\0echo\0hello\0HOME=/root\0");
    assert_eq!(decode_procargs(&buf), Some("echo hello".to_string()));
}

#[test]
fn procargs_negative_count_reads_nothing() {
    let buf = procargs(-1, b"/bin/echo\0echo\0");
    assert_eq!(decode_procargs(&buf), Some(String::new()));
}

#[test]
fn procargs_only_padding_after_path() {
    let buf = procargs(2, b"/bin/echo\0\0\0\0");
    assert_eq!(decode_procargs(&buf), Some(String::new()));
}

#[test]
fn procargs_too_short_is_absent() {
    assert_eq!(decode_procargs(&[1, 0, 0]), None);
    assert_eq!(decode_procargs(&[]), None);
}

#[test]
fn procargs_unterminated_path_is_absent() {
    let buf = procargs(1, b"/bin/echo");
    assert_eq!(decode_procargs(&buf), None);
}

#[test]
fn procargs_invalid_bytes_are_replaced() {
    let buf = procargs(2, b"/bin/x\0x\0a\xffb\0");
    assert_eq!(decode_procargs(&buf), Some("x a\u{FFFD}b".to_string()));
}

#[test]
fn pid_buffer_len_adds_slack() {
    assert_eq!(PID_SLACK, 32);
    assert_eq!(pid_buffer_len(10), Some(42));
    assert_eq!(pid_buffer_len(0), None);
    assert_eq!(pid_buffer_len(-3), None);
}

#[test]
fn listed_pids_skips_non_positive_and_clamps() {
    let slots = vec![0, 5, -1, 7, 9];
    assert_eq!(listed_pids(&slots, 4), vec![5, 7]);
    assert_eq!(listed_pids(&slots, 100), vec![5, 7, 9]);
    assert_eq!(listed_pids(&slots, 0), Vec::<u32>::new());
    assert_eq!(listed_pids(&slots, -2), Vec::<u32>::new());
}

#[test]
fn bsd_scenario_alpha_is_found() {
    let replies = vec![bsd(1, "launchd", "launchd"), bsd(100, "alpha", "alpha")];
    let found = proc_lookup::macos::find_processes_by_name("alpha", &replies);
    assert_eq!(pairs(&found), vec![(100, "alpha".to_string())]);
}

#[test]
fn bsd_scenario_ghost_is_not_found() {
    let replies = vec![bsd(1, "launchd", "launchd"), bsd(100, "alpha", "alpha")];
    assert!(proc_lookup::macos::find_processes_by_name("ghost", &replies).is_empty());
}

#[test]
fn bsd_long_name_matches_when_short_does_not() {
    let replies = vec![bsd(7, "averyveryverylo", "averyveryverylongname")];
    let found = proc_lookup::macos::find_processes_by_name("averyveryverylongname", &replies);
    assert_eq!(pairs(&found), vec![(7, "averyveryverylongname".to_string())]);
    let short = proc_lookup::macos::find_processes_by_name("averyveryverylo", &replies);
    assert_eq!(pairs(&short), vec![(7, "averyveryverylo".to_string())]);
}

#[test]
fn bsd_matching_is_case_sensitive() {
    let replies = vec![bsd(100, "alpha", "alpha")];
    assert!(proc_lookup::macos::find_processes_by_name("Alpha", &replies).is_empty());
}

#[test]
fn bsd_failed_query_is_skipped() {
    let replies = vec![PidInfoReply { pid: 3, names: None }, bsd(4, "alpha", "alpha")];
    let found = proc_lookup::macos::find_processes_by_name("alpha", &replies);
    assert_eq!(pairs(&found), vec![(4, "alpha".to_string())]);
}

#[test]
fn bsd_requery_gives_same_records() {
    let replies = vec![bsd(100, "alpha", "alpha"), bsd(200, "alpha", "alpha")];
    let a = proc_lookup::macos::find_processes_by_name("alpha", &replies);
    let b = proc_lookup::macos::find_processes_by_name("alpha", &replies);
    assert_eq!(pairs(&a), pairs(&b));
    assert_eq!(pairs(&a), vec![(100, "alpha".to_string()), (200, "alpha".to_string())]);
}

#[test]
fn bsd_pid_lookup_prefers_short_name() {
    let names = Some(BsdNames { comm: field("zsh", 16), name: field("zsh-login", 32) });
    let found = proc_lookup::macos::find_process_by_pid(55, &names).unwrap();
    assert_eq!((found.pid, found.name), (55, "zsh".to_string()));
    assert!(proc_lookup::macos::find_process_by_pid(999999, &None).is_none());
}

#[test]
fn c_string_text_stops_at_nul_or_field_end() {
    assert_eq!(c_string_text(b"abc\0def"), "abc");
    assert_eq!(c_string_text(b"abcdef"), "abcdef");
    assert_eq!(c_string_text(b"\0abc"), "");
    assert_eq!(find_nul(b"ab\0c\0", 3), 4);
    assert_eq!(find_nul(b"abc", 0), 3);
    assert_eq!(copy_range(b"abcdef", 1, 4), b"bcd".to_vec());
}

#[test]
fn exe_target_lowers_and_adds_suffix() {
    assert_eq!(exe_target_of("Notepad"), b"notepad.exe".to_vec());
    assert_eq!(exe_target_of("NOTEPAD.EXE"), b"notepad.exe".to_vec());
    assert_eq!(exe_target_of("app.exe.exe"), b"app.exe.exe".to_vec());
    assert_eq!(exe_target_of(""), b".exe".to_vec());
    assert_eq!(to_ascii_lower(b'Q'), b'q');
    assert_eq!(to_ascii_lower(b'['), b'[');
}

#[test]
fn ascii_case_comparison() {
    assert!(bytes_eq_ignore_ascii_case(b"Notepad.EXE", b"notepad.exe"));
    assert!(!bytes_eq_ignore_ascii_case(b"notepad", b"notepad.exe"));
    assert!(!bytes_eq_ignore_ascii_case(b"a[", b"a{"));
}

#[test]
fn wide_field_trims_trailing_nuls() {
    assert_eq!(wide_field_text(&wide("Notepad.exe")), "Notepad.exe");
    assert_eq!(wide_field_text(&[0, 0, 0]), "");
    assert_eq!(wide_field_text(&[0xD800, 0x41, 0]), "\u{FFFD}A");
}

#[test]
fn toolhelp_scenario_alpha_is_found() {
    let entries = vec![entry(4, "System"), entry(100, "alpha.exe")];
    let found = proc_lookup::windows::find_processes_by_name("alpha", &entries);
    assert_eq!(pairs(&found), vec![(100, "alpha.exe".to_string())]);
}

#[test]
fn toolhelp_matching_ignores_case_and_suffix() {
    let entries = vec![entry(8, "Notepad.exe"), entry(9, "calc.exe")];
    for query in ["notepad", "NOTEPAD", "Notepad.exe", "notepad.EXE"] {
        let found = proc_lookup::windows::find_processes_by_name(query, &entries);
        assert_eq!(pairs(&found), vec![(8, "Notepad.exe".to_string())]);
    }
    assert!(proc_lookup::windows::find_processes_by_name("ghost", &entries).is_empty());
}

#[test]
fn toolhelp_name_without_exe_is_not_found_by_itself() {
    let entries = vec![entry(4, "System")];
    assert!(proc_lookup::windows::find_processes_by_name("System", &entries).is_empty());
}

#[test]
fn toolhelp_pid_lookup_takes_first_entry() {
    let entries = vec![entry(4, "System"), entry(100, "alpha.exe"), entry(100, "beta.exe")];
    let found = proc_lookup::windows::find_process_by_pid(100, &entries).unwrap();
    assert_eq!((found.pid, found.name), (100, "alpha.exe".to_string()));
    assert!(proc_lookup::windows::find_process_by_pid(999999, &entries).is_none());
}

#[test]
fn command_line_size_query_statuses() {
    assert_eq!(command_line_buffer_len(0, 120), Some(120));
    assert_eq!(command_line_buffer_len(STATUS_INFO_LENGTH_MISMATCH, 64), Some(64));
    assert_eq!(command_line_buffer_len(STATUS_BUFFER_TOO_SMALL, 64), Some(64));
    assert_eq!(command_line_buffer_len(STATUS_BUFFER_OVERFLOW, 64), Some(64));
    assert_eq!(command_line_buffer_len(STATUS_INFO_LENGTH_MISMATCH, 0), None);
    assert_eq!(command_line_buffer_len(0xC0000022u32 as i32, 64), None);
    assert_eq!(STATUS_BUFFER_OVERFLOW, 0x80000005u32 as i32);
    assert_eq!(STATUS_BUFFER_TOO_SMALL, 0xC0000023u32 as i32);
    assert_eq!(STATUS_INFO_LENGTH_MISMATCH, 0xC0000004u32 as i32);
}

#[test]
fn command_line_text_reads_inside_buffer() {
    let mut buf = vec![0u8; 16];
    for u in "a b".encode_utf16() {
        buf.extend_from_slice(&u.to_le_bytes());
    }
    let base = 0x1000usize;
    let header = Some(UnicodeStringHeader { length: 6, data_addr: base + 16 });
    assert_eq!(command_line_text(0, &buf, &header, base), Some("a b".to_string()));
    let odd = Some(UnicodeStringHeader { length: 5, data_addr: base + 16 });
    assert_eq!(command_line_text(0, &buf, &odd, base), Some("a ".to_string()));
}

#[test]
fn command_line_text_edge_cases() {
    let buf = vec![0u8; 20];
    let base = 0x1000usize;
    let empty = Some(UnicodeStringHeader { length: 0, data_addr: base + 16 });
    assert_eq!(command_line_text(0, &buf, &empty, base), Some(String::new()));
    let null = Some(UnicodeStringHeader { length: 4, data_addr: 0 });
    assert_eq!(command_line_text(0, &buf, &null, base), Some(String::new()));
    let outside = Some(UnicodeStringHeader { length: 8, data_addr: base + 16 });
    assert_eq!(command_line_text(0, &buf, &outside, base), None);
    let before = Some(UnicodeStringHeader { length: 2, data_addr: base - 2 });
    assert_eq!(command_line_text(0, &buf, &before, base), None);
    assert_eq!(command_line_text(0, &buf, &None, base), None);
    assert_eq!(command_line_text(-1073741790, &buf, &empty, base), None);
}
