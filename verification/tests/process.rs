use port_detection::process_guard::{
    access_denied_process, check_termination, decide_kill, filetime_to_unix_ms, image_file_name,
    resolve_open_failure, unknown_process_name, well_known_process,
};
use port_detection::errors::from_terminate_error;
use port_detection::{
    AppError, AppResult, ConnectionState, ProcessInfo, ProcessProvider, is_protected_process,
};
use port_detection::errors::from_win32_error;
use port_detection::port_info::parse_protocol;
use port_detection::Protocol;

fn proc_named(pid: u32, name: &str, create_time: u64) -> ProcessInfo {
    ProcessInfo {
        pid,
        name: String::from(name),
        exe_path: None,
        cmd_line: None,
        create_time,
        memory_usage: 0,
    }
}

#[test]
fn protected_names_match_case_insensitively() {
    assert!(is_protected_process("System"));
    assert!(is_protected_process("SVCHOST.EXE"));
    assert!(is_protected_process("svchost.exe"));
    assert!(is_protected_process("LsAsS.eXe"));
    assert!(!is_protected_process("notepad.exe"));
    assert!(!is_protected_process("system32"));
    assert!(!is_protected_process(""));
}

#[test]
fn protection_takes_precedence_over_creation_time() {
    // even a matching expected creation time must not allow the kill
    let info = proc_named(500, "svchost.exe", 12345);
    let r = check_termination(&info, Some(12345));
    assert!(matches!(r, Err(AppError::ProtectedProcess(ref n)) if n == "svchost.exe"));
}

#[test]
fn pid_reuse_is_detected() {
    let info = proc_named(600, "notepad.exe", 99999);
    let r = check_termination(&info, Some(11111));
    assert!(matches!(r, Err(AppError::PidReused)));
}

#[test]
fn matching_or_unknown_creation_time_passes_the_guard() {
    let info = proc_named(600, "notepad.exe", 99999);
    assert!(check_termination(&info, Some(99999)).is_ok());
    assert!(check_termination(&info, None).is_ok());
    // a zero live creation time cannot witness reuse
    let zero = proc_named(601, "notepad.exe", 0);
    assert!(check_termination(&zero, Some(11111)).is_ok());
}

struct OneProc {
    info: Option<ProcessInfo>,
}

impl ProcessProvider for OneProc {
    fn get_process_info(&self, _pid: u32) -> AppResult<Option<ProcessInfo>> {
        Ok(self.info.clone())
    }

    fn terminate_process(&self, _pid: u32) -> AppResult<()> {
        Ok(())
    }
}

#[test]
fn kill_process_refuses_protected_process() {
    let p = OneProc { info: Some(proc_named(4, "System", 7)) };
    let r = p.kill_process(4, Some(7));
    assert!(matches!(r, Err(AppError::ProtectedProcess(_))));
}

#[test]
fn kill_process_refuses_reused_pid_and_reports_missing_process() {
    let p = OneProc { info: Some(proc_named(900, "a.exe", 100)) };
    assert!(matches!(p.kill_process(900, Some(200)), Err(AppError::PidReused)));
    assert!(p.kill_process(900, Some(100)).is_ok());
    let gone = OneProc { info: None };
    assert!(matches!(gone.kill_process(900, None), Err(AppError::ProcessNotFound(900))));
}

#[test]
fn well_known_pids_resolve_to_synthetic_records() {
    let idle = well_known_process(0).unwrap();
    assert_eq!(idle.pid, 0);
    assert_eq!(idle.name, "System Idle Process");
    assert_eq!(idle.create_time, 0);
    let system = well_known_process(4).unwrap();
    assert_eq!(system.name, "System");
    assert!(well_known_process(1234).is_none());
}

#[test]
fn open_failures_classify_by_code() {
    let denied = resolve_open_failure(777, 5).unwrap().unwrap();
    assert_eq!(denied.pid, 777);
    assert_eq!(denied.name, "<access denied: 777>");
    assert_eq!(denied.create_time, 0);
    assert!(resolve_open_failure(777, 87).unwrap().is_none());
    let e = resolve_open_failure(777, 31).unwrap_err();
    assert!(matches!(e, AppError::WindowsApi(ref op, 31) if op == "OpenProcess"));
}

#[test]
fn sentinel_and_fallback_names() {
    assert_eq!(access_denied_process(42).name, "<access denied: 42>");
    assert_eq!(unknown_process_name(7), "<unknown: 7>");
}

#[test]
fn image_file_name_takes_the_part_after_the_last_separator() {
    assert_eq!(image_file_name("C:\\Windows\\System32\\svchost.exe"), "svchost.exe");
    assert_eq!(image_file_name("/usr/bin/thing"), "thing");
    assert_eq!(image_file_name("plain.exe"), "plain.exe");
    assert_eq!(image_file_name(""), "");
}

#[test]
fn filetime_conversion_is_exact() {
    // the Unix epoch itself: 116444736000000000 ticks
    assert_eq!(filetime_to_unix_ms(0xd53e_8000, 0x019d_b1de), 0);
    // one second after the epoch: 10_000_000 more ticks = 1000 ms
    let ticks: u64 = 116444736000000000 + 10_000_000;
    assert_eq!(filetime_to_unix_ms(ticks as u32, (ticks >> 32) as u32), 1000);
    // before the epoch collapses to zero
    assert_eq!(filetime_to_unix_ms(5, 0), 0);
}

#[test]
fn win32_codes_map_to_error_kinds() {
    assert!(matches!(from_win32_error("Op", 5), AppError::AccessDenied));
    let invalid = from_win32_error("Op", 87);
    assert!(matches!(invalid, AppError::Internal(ref m) if m == "Op: Invalid parameter"));
    let other = from_win32_error("Op", 1460);
    assert!(matches!(other, AppError::WindowsApi(ref op, 1460) if op == "Op"));
}

#[test]
fn error_messages_render_their_kind() {
    let e = AppError::WindowsApi(String::from("GetExtendedTcpTable"), 31);
    assert_eq!(e.message(), "Windows API error: GetExtendedTcpTable (code: 31)");
    assert_eq!(AppError::ProcessNotFound(77).message(), "Process not found: PID 77");
    assert_eq!(AppError::PortNotFound(8080).message(), "Port not found: 8080");
    assert_eq!(
        AppError::ProtectedProcess(String::from("lsass.exe")).message(),
        "Protected system process, cannot terminate: lsass.exe"
    );
    assert_eq!(AppError::MonitorAlreadyRunning.message(), "Monitor is already running");
    assert_eq!(AppError::MonitorNotRunning.message(), "Monitor is not running");
}

#[test]
fn connection_states_map_from_kernel_codes() {
    assert_eq!(ConnectionState::from_tcp_state(1), ConnectionState::Closed);
    assert_eq!(ConnectionState::from_tcp_state(2), ConnectionState::Listen);
    assert_eq!(ConnectionState::from_tcp_state(5), ConnectionState::Established);
    assert_eq!(ConnectionState::from_tcp_state(11), ConnectionState::TimeWait);
    assert_eq!(ConnectionState::from_tcp_state(12), ConnectionState::DeleteTcb);
    assert_eq!(ConnectionState::from_tcp_state(0), ConnectionState::Unknown(0));
    assert_eq!(ConnectionState::from_tcp_state(777), ConnectionState::Unknown(777));
}

#[test]
fn only_listen_and_bound_are_listening() {
    assert!(ConnectionState::Listen.is_listening());
    assert!(ConnectionState::Bound.is_listening());
    assert!(!ConnectionState::Established.is_listening());
    assert!(!ConnectionState::Closed.is_listening());
    assert!(!ConnectionState::Unknown(2).is_listening());
}

#[test]
fn protocol_names_parse_case_insensitively() {
    assert_eq!(parse_protocol("TCP"), Some(Protocol::TCP));
    assert_eq!(parse_protocol("tcp"), Some(Protocol::TCP));
    assert_eq!(parse_protocol("Udp"), Some(Protocol::UDP));
    assert_eq!(parse_protocol("icmp"), None);
    assert_eq!(parse_protocol(""), None);
}

#[test]
fn kill_decision_covers_every_resolution() {
    // vanished process: refused as not found, and only as that
    let gone = decide_kill(321, None, None);
    assert!(matches!(gone, Err(AppError::ProcessNotFound(321))));
    // protected record: refused even with a matching creation time
    let protected = decide_kill(4, Some(proc_named(4, "System", 7)), Some(7));
    assert!(matches!(protected, Err(AppError::ProtectedProcess(_))));
    // stale pid: refused
    let stale = decide_kill(9, Some(proc_named(9, "a.exe", 100)), Some(200));
    assert!(matches!(stale, Err(AppError::PidReused)));
    // ordinary record: passes and is handed back
    let passed = decide_kill(9, Some(proc_named(9, "a.exe", 100)), Some(100)).unwrap();
    assert_eq!(passed.pid, 9);
    assert_eq!(passed.name, "a.exe");
}

#[test]
fn terminate_codes_map_to_error_kinds() {
    assert!(matches!(from_terminate_error("TerminateProcess", 5), AppError::AccessDenied));
    let other = from_terminate_error("TerminateProcess", 6);
    assert!(matches!(other, AppError::WindowsApi(ref op, 6) if op == "TerminateProcess"));
}
