//! Error taxonomy of the library.

use vstd::prelude::*;
use vstd::string::StringExecFns;
use crate::text::{dec_u16, dec_u32, spec_dec};

verus! {

/// Classified failure of a port or process operation.
#[derive(Debug)]
pub enum AppError {
    /// An underlying OS call failed with a non-recoverable code;
    /// carries the failing operation name and the raw code.
    WindowsApi(String, u32),
    /// The target pid does not exist at query or kill time.
    ProcessNotFound(u32),
    /// The caller's expected creation time does not match the live process.
    PidReused,
    /// The target is a core OS process and must not be terminated;
    /// carries the process name.
    ProtectedProcess(String),
    /// Permission is insufficient for the requested operation.
    AccessDenied,
    /// A specific port query matched nothing.
    PortNotFound(u16),
    /// A monitor start was requested while one is already running.
    MonitorAlreadyRunning,
    /// A monitor stop was requested while none is running.
    MonitorNotRunning,
    /// Allocation failure, malformed advisory text, or another local fault;
    /// carries a description.
    Internal(String),
}

/// Alias for results whose error is an `AppError`.
pub type AppResult<T> = Result<T, AppError>;

impl Clone for AppError {
    fn clone(&self) -> (r: Self)
        ensures
            r == *self,
    {
        match self {
            AppError::WindowsApi(op, code) => AppError::WindowsApi(op.clone(), *code),
            AppError::ProcessNotFound(pid) => AppError::ProcessNotFound(*pid),
            AppError::PidReused => AppError::PidReused,
            AppError::ProtectedProcess(name) => AppError::ProtectedProcess(name.clone()),
            AppError::AccessDenied => AppError::AccessDenied,
            AppError::PortNotFound(port) => AppError::PortNotFound(*port),
            AppError::MonitorAlreadyRunning => AppError::MonitorAlreadyRunning,
            AppError::MonitorNotRunning => AppError::MonitorNotRunning,
            AppError::Internal(msg) => AppError::Internal(msg.clone()),
        }
    }
}

/// The rendering of an error as one line of text.
pub open spec fn spec_error_message(e: AppError) -> Seq<char> {
    match e {
        AppError::WindowsApi(op, code) => "Windows API error: "@ + op@ + " (code: "@ + spec_dec(
            code as nat,
        ) + ")"@,
        AppError::ProcessNotFound(pid) => "Process not found: PID "@ + spec_dec(pid as nat),
        AppError::PidReused => "PID was reused; the target process has changed"@,
        AppError::ProtectedProcess(name) => "Protected system process, cannot terminate: "@
            + name@,
        AppError::AccessDenied => "Access denied; administrator rights are required"@,
        AppError::PortNotFound(port) => "Port not found: "@ + spec_dec(port as nat),
        AppError::MonitorAlreadyRunning => "Monitor is already running"@,
        AppError::MonitorNotRunning => "Monitor is not running"@,
        AppError::Internal(msg) => "Internal error: "@ + msg@,
    }
}

impl AppError {
    /// Renders the error as one line of text.
    pub fn message(&self) -> (r: String)
        ensures
            r@ == spec_error_message(*self),
    {
        match self {
            AppError::WindowsApi(op, code) => {
                let mut m = "Windows API error: ".to_owned();
                m.append(op.as_str());
                m.append(" (code: ");
                let num = dec_u32(*code);
                m.append(num.as_str());
                m.append(")");
                m
            },
            AppError::ProcessNotFound(pid) => {
                let mut m = "Process not found: PID ".to_owned();
                let num = dec_u32(*pid);
                m.append(num.as_str());
                m
            },
            AppError::PidReused => "PID was reused; the target process has changed".to_owned(),
            AppError::ProtectedProcess(name) => {
                let mut m = "Protected system process, cannot terminate: ".to_owned();
                m.append(name.as_str());
                m
            },
            AppError::AccessDenied => {
                "Access denied; administrator rights are required".to_owned()
            },
            AppError::PortNotFound(port) => {
                let mut m = "Port not found: ".to_owned();
                let num = dec_u16(*port);
                m.append(num.as_str());
                m
            },
            AppError::MonitorAlreadyRunning => "Monitor is already running".to_owned(),
            AppError::MonitorNotRunning => "Monitor is not running".to_owned(),
            AppError::Internal(msg) => {
                let mut m = "Internal error: ".to_owned();
                m.append(msg.as_str());
                m
            },
        }
    }
}

/// Classifies a failed OS call by its error code: permission failure
/// (code 5) is `AccessDenied`, an invalid parameter (code 87) is an
/// internal fault naming the operation, and anything else carries the
/// operation name and the raw code.
pub fn from_win32_error(function: &str, code: u32) -> (r: AppError)
    ensures
        code == 5 ==> r is AccessDenied,
        code == 87 ==> (r matches AppError::Internal(m) && m@ == function@
            + ": Invalid parameter"@),
        code != 5 && code != 87 ==> (r matches AppError::WindowsApi(op, c) && op@ == function@
            && c == code),
{
    if code == 5 {
        AppError::AccessDenied
    } else if code == 87 {
        let mut m = function.to_owned();
        m.append(": Invalid parameter");
        AppError::Internal(m)
    } else {
        AppError::WindowsApi(function.to_owned(), code)
    }
}

/// Classifies a failed terminate-path OS call by its error code:
/// permission failure (code 5) is `AccessDenied`; anything else
/// carries the operation name and the raw code.
pub fn from_terminate_error(function: &str, code: u32) -> (r: AppError)
    ensures
        code == 5 ==> r is AccessDenied,
        code != 5 ==> (r matches AppError::WindowsApi(op, c) && op@ == function@ && c == code),
{
    if code == 5 {
        AppError::AccessDenied
    } else {
        AppError::WindowsApi(function.to_owned(), code)
    }
}

} // verus!
