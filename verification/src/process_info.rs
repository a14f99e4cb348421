//! Process data model and the protected-process list.

use vstd::prelude::*;
use crate::text::{eq_ignore_ascii_case, spec_eq_ignore_ascii_case};

verus! {

/// Mathematical value of a `ProcessInfo`.
pub ghost struct ProcessRec {
    pub pid: u32,
    pub name: Seq<char>,
    pub exe_path: Option<Seq<char>>,
    pub cmd_line: Option<Seq<char>>,
    pub create_time: u64,
    pub memory_usage: u64,
}

/// Metadata of one process, captured at scan time.
///
/// `create_time` is milliseconds since the Unix epoch; zero means the
/// creation time could not be read. `cmd_line` is never populated, as
/// reading it needs elevated access.
#[derive(Debug)]
pub struct ProcessInfo {
    pub pid: u32,
    pub name: String,
    pub exe_path: Option<String>,
    pub cmd_line: Option<String>,
    pub create_time: u64,
    pub memory_usage: u64,
}

impl View for ProcessInfo {
    type V = ProcessRec;

    open spec fn view(&self) -> ProcessRec {
        ProcessRec {
            pid: self.pid,
            name: self.name@,
            exe_path: match self.exe_path {
                Some(p) => Some(p@),
                None => None,
            },
            cmd_line: match self.cmd_line {
                Some(c) => Some(c@),
                None => None,
            },
            create_time: self.create_time,
            memory_usage: self.memory_usage,
        }
    }
}

impl Clone for ProcessInfo {
    fn clone(&self) -> (r: Self)
        ensures
            r == *self,
    {
        ProcessInfo {
            pid: self.pid,
            name: self.name.clone(),
            exe_path: match &self.exe_path {
                Some(p) => Some(p.clone()),
                None => None,
            },
            cmd_line: match &self.cmd_line {
                Some(c) => Some(c.clone()),
                None => None,
            },
            create_time: self.create_time,
            memory_usage: self.memory_usage,
        }
    }
}

impl ProcessInfo {
    /// Creates a record with only pid and name known; every optional
    /// field is absent and every numeric field is zero.
    pub fn new(pid: u32, name: String) -> (r: Self)
        ensures
            r@ == (ProcessRec {
                pid,
                name: name@,
                exe_path: None,
                cmd_line: None,
                create_time: 0,
                memory_usage: 0,
            }),
    {
        ProcessInfo {
            pid,
            name,
            exe_path: None,
            cmd_line: None,
            create_time: 0,
            memory_usage: 0,
        }
    }
}

/// Whether a name denotes one of the core OS processes that must never
/// be terminated, compared case-insensitively (ASCII).
pub open spec fn spec_is_protected(name: Seq<char>) -> bool {
    ||| spec_eq_ignore_ascii_case("System"@, name)
    ||| spec_eq_ignore_ascii_case("smss.exe"@, name)
    ||| spec_eq_ignore_ascii_case("csrss.exe"@, name)
    ||| spec_eq_ignore_ascii_case("wininit.exe"@, name)
    ||| spec_eq_ignore_ascii_case("services.exe"@, name)
    ||| spec_eq_ignore_ascii_case("lsass.exe"@, name)
    ||| spec_eq_ignore_ascii_case("svchost.exe"@, name)
    ||| spec_eq_ignore_ascii_case("winlogon.exe"@, name)
}

/// Decides whether `name` is on the fixed protected-process list,
/// ignoring ASCII case.
pub fn is_protected_process(name: &str) -> (r: bool)
    ensures
        r == spec_is_protected(name@),
{
    eq_ignore_ascii_case("System", name) || eq_ignore_ascii_case("smss.exe", name)
        || eq_ignore_ascii_case("csrss.exe", name) || eq_ignore_ascii_case("wininit.exe", name)
        || eq_ignore_ascii_case("services.exe", name) || eq_ignore_ascii_case(
        "lsass.exe",
        name,
    ) || eq_ignore_ascii_case("svchost.exe", name) || eq_ignore_ascii_case("winlogon.exe", name)
}

} // verus!
