//! Process resolution helpers and the safe-termination check.
//!
//! The platform backend opens handles and queries the OS; everything
//! here is the decision logic around those calls: well-known pids,
//! open-failure classification, image-name extraction, creation-time
//! conversion, and the protection and PID-reuse guards.

use vstd::prelude::*;
use vstd::string::{StrSliceExecFns, StringExecFns};
use crate::errors::{AppError, AppResult};
use crate::process_info::{ProcessInfo, ProcessRec, is_protected_process, spec_is_protected};
use crate::text::{dec_u32, spec_dec};

verus! {

/// The record a well-known pid resolves to: pid 0 is the idle process
/// and pid 4 the kernel process; the OS exposes no full handle for
/// either, so both get synthetic records.
pub fn well_known_process(pid: u32) -> (r: Option<ProcessInfo>)
    ensures
        pid == 0 ==> (r matches Some(i) && i@ == (ProcessRec {
            pid: 0,
            name: "System Idle Process"@,
            exe_path: None,
            cmd_line: None,
            create_time: 0,
            memory_usage: 0,
        })),
        pid == 4 ==> (r matches Some(i) && i@ == (ProcessRec {
            pid: 4,
            name: "System"@,
            exe_path: None,
            cmd_line: None,
            create_time: 0,
            memory_usage: 0,
        })),
        pid != 0 && pid != 4 ==> r is None,
{
    if pid == 0 {
        Some(ProcessInfo::new(0, "System Idle Process".to_owned()))
    } else if pid == 4 {
        Some(ProcessInfo::new(4, "System".to_owned()))
    } else {
        None
    }
}

/// The sentinel name that marks a process whose handle could not be
/// opened for lack of permission.
pub open spec fn spec_access_denied_name(pid: u32) -> Seq<char> {
    "<access denied: "@ + spec_dec(pid as nat) + ">"@
}

/// The sentinel record for a process that exists but denied access:
/// the caller still learns that the port is owned by something.
pub fn access_denied_process(pid: u32) -> (r: ProcessInfo)
    ensures
        r@ == (ProcessRec {
            pid,
            name: spec_access_denied_name(pid),
            exe_path: None,
            cmd_line: None,
            create_time: 0,
            memory_usage: 0,
        }),
{
    let mut name = "<access denied: ".to_owned();
    let num = dec_u32(pid);
    name.append(num.as_str());
    name.append(">");
    ProcessInfo::new(pid, name)
}

/// The name used when a process's image path cannot be read.
pub open spec fn spec_unknown_name(pid: u32) -> Seq<char> {
    "<unknown: "@ + spec_dec(pid as nat) + ">"@
}

/// Renders the fallback name for a process whose image path could not
/// be read.
pub fn unknown_process_name(pid: u32) -> (r: String)
    ensures
        r@ == spec_unknown_name(pid),
{
    let mut name = "<unknown: ".to_owned();
    let num = dec_u32(pid);
    name.append(num.as_str());
    name.append(">");
    name
}

/// Classifies a failed process-open call: access denied (code 5)
/// yields the sentinel record, an invalid parameter (code 87) means
/// the pid does not exist, and anything else is a platform error.
pub fn resolve_open_failure(pid: u32, code: u32) -> (r: AppResult<Option<ProcessInfo>>)
    ensures
        code == 5 ==> (r matches Ok(Some(i)) && i@ == (ProcessRec {
            pid,
            name: spec_access_denied_name(pid),
            exe_path: None,
            cmd_line: None,
            create_time: 0,
            memory_usage: 0,
        })),
        code == 87 ==> r matches Ok(None),
        code != 5 && code != 87 ==> (r matches Err(e) && e matches AppError::WindowsApi(op, c)
            && op@ == "OpenProcess"@ && c == code),
{
    if code == 5 {
        Ok(Some(access_denied_process(pid)))
    } else if code == 87 {
        Ok(None)
    } else {
        Err(AppError::WindowsApi("OpenProcess".to_owned(), code))
    }
}

/// Index at which the file name begins: just after the last `/` or
/// `\` separator, or zero when there is none before `i`.
pub open spec fn spec_name_start(p: Seq<char>, i: int) -> int
    decreases i,
{
    if i <= 0 {
        0
    } else if p[i - 1] == '/' || p[i - 1] == '\\' {
        i
    } else {
        spec_name_start(p, i - 1)
    }
}

/// The file-name part of a path: everything after the last separator.
pub open spec fn spec_file_name(p: Seq<char>) -> Seq<char> {
    p.subrange(spec_name_start(p, p.len() as int), p.len() as int)
}


/// Extracts the file name from an image path: the part after the last
/// path separator, either kind.
pub fn image_file_name(path: &str) -> (r: String)
    ensures
        r@ == spec_file_name(path@),
{
    let n = path.unicode_len();
    let mut start: usize = n;
    // Walk left until a separator is found.
    loop
        invariant
            n == path@.len(),
            0 <= start <= n,
            spec_name_start(path@, n as int) == spec_name_start(path@, start as int),
        ensures
            0 <= start <= n,
            spec_name_start(path@, n as int) == start as int,
        decreases start,
    {
        if start == 0 {
            break ;
        }
        let c = path.get_char(start - 1);
        if c == '/' || c == '\\' {
            break ;
        }
        start -= 1;
    }
    let out = path.substring_char(start, n);
    out.to_owned()
}

/// Offset between the OS file-time epoch (1601) and the Unix epoch
/// (1970), in 100-nanosecond ticks.
pub const FILETIME_UNIX_DIFF: u64 = 116444736000000000;

/// Converts a file time, given as its low and high 32-bit halves in
/// 100-nanosecond ticks since 1601, to milliseconds since the Unix
/// epoch; times before the Unix epoch collapse to zero.
pub fn filetime_to_unix_ms(low: u32, high: u32) -> (r: u64)
    ensures
        ({
            let ticks = (high as nat) * 0x100000000 + low as nat;
            if ticks > FILETIME_UNIX_DIFF as nat {
                r == (ticks - FILETIME_UNIX_DIFF as nat) / 10000
            } else {
                r == 0
            }
        }),
{
    let ticks: u64 = (high as u64) * 0x100000000u64 + (low as u64);
    if ticks > FILETIME_UNIX_DIFF {
        (ticks - FILETIME_UNIX_DIFF) / 10000
    } else {
        0
    }
}

/// Whether a supplied expected creation time reveals that the pid now
/// names a different process: the live creation time is known (nonzero)
/// and differs from what the caller remembered.
pub open spec fn spec_pid_reused(info: ProcessRec, expected_create_time: Option<u64>) -> bool {
    match expected_create_time {
        Some(t) => info.create_time != 0 && info.create_time != t,
        None => false,
    }
}

/// The guard that runs before any termination: a protected name is
/// refused outright — even when the creation-time check would pass —
/// and a stale pid is refused when the expected creation time differs
/// from the live one.
pub fn check_termination(info: &ProcessInfo, expected_create_time: Option<u64>) -> (r: AppResult<
    (),
>)
    ensures
        r is Ok <==> !spec_is_protected(info@.name) && !spec_pid_reused(
            info@,
            expected_create_time,
        ),
        spec_is_protected(info@.name) ==> (r matches Err(e)
            && e matches AppError::ProtectedProcess(n) && n@ == info@.name),
        !spec_is_protected(info@.name) && spec_pid_reused(info@, expected_create_time) ==> (
        r matches Err(e) && e is PidReused),
{
    if is_protected_process(self_name(info)) {
        return Err(AppError::ProtectedProcess(info.name.clone()));
    }
    if let Some(expected) = expected_create_time {
        if info.create_time != 0 && info.create_time != expected {
            return Err(AppError::PidReused);
        }
    }
    Ok(())
}

/// The complete kill decision over a resolution result: a vanished
/// process (no resolution) is refused as not found; a resolved record
/// passes exactly when it is neither protected nor a reused pid, and
/// is handed back for termination.
pub fn decide_kill(
    pid: u32,
    resolved: Option<ProcessInfo>,
    expected_create_time: Option<u64>,
) -> (r: Result<ProcessInfo, AppError>)
    ensures
        resolved is None <==> (r matches Err(e) && e matches AppError::ProcessNotFound(p) && p
            == pid),
        resolved matches Some(i) ==> (r is Ok <==> !spec_is_protected(i@.name)
            && !spec_pid_reused(i@, expected_create_time)),
        resolved matches Some(i) ==> (r matches Ok(info) ==> info == i),
        resolved matches Some(i) ==> (spec_is_protected(i@.name) ==> (r matches Err(e)
            && e matches AppError::ProtectedProcess(n) && n@ == i@.name)),
        resolved matches Some(i) ==> (!spec_is_protected(i@.name) && spec_pid_reused(
            i@,
            expected_create_time,
        ) ==> (r matches Err(e) && e is PidReused)),
{
    let info = match resolved {
        Some(i) => i,
        None => {
            return Err(AppError::ProcessNotFound(pid));
        },
    };
    match check_termination(&info, expected_create_time) {
        Ok(u) => u,
        Err(e) => {
            return Err(e);
        },
    }
    Ok(info)
}

fn self_name(info: &ProcessInfo) -> (r: &str)
    ensures
        r@ == info@.name,
{
    info.name.as_str()
}

} // verus!
