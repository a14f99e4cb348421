//! Platform abstraction: the capability interfaces a backend
//! implements so that another OS's connection-table and process
//! sources can serve the same scanner, monitor, and guard.

use vstd::prelude::*;
use crate::errors::{AppError, AppResult};
use crate::port_info::{PortInfo, Protocol};
use crate::process_guard::decide_kill;
use crate::process_info::{ProcessInfo, is_protected_process, spec_is_protected};

verus! {

/// The combined port list: the TCP connections first, then the UDP
/// endpoints, both in their own order.
pub fn concat_ports(tcp: Vec<PortInfo>, udp: Vec<PortInfo>) -> (r: Vec<PortInfo>)
    ensures
        r@ == tcp@ + udp@,
{
    let mut out = tcp;
    let mut rest = udp;
    out.append(&mut rest);
    out
}

/// The first record in held order that holds the port, if any.
pub open spec fn spec_find_port(s: Seq<PortInfo>, port: u16) -> Option<PortInfo>
    decreases s.len(),
{
    if s.len() == 0 {
        None
    } else if s[0]@.port == port {
        Some(s[0])
    } else {
        spec_find_port(s.drop_first(), port)
    }
}

/// Finds the first record holding the port: `None` exactly when no
/// record holds it.
pub fn find_first_port(ports: &Vec<PortInfo>, port: u16) -> (r: Option<PortInfo>)
    ensures
        r == spec_find_port(ports@, port),
        r is None <==> (forall|i: int|
            0 <= i < ports@.len() ==> (#[trigger] ports@[i])@.port != port),
        r matches Some(p) ==> p@.port == port,
{
    let n = ports.len();
    let mut i: usize = 0;
    proof {
        assert(ports@.skip(0) =~= ports@);
    }
    while i < n
        invariant
            n == ports@.len(),
            i <= n,
            spec_find_port(ports@, port) == spec_find_port(ports@.skip(i as int), port),
            forall|j: int| 0 <= j < i ==> (#[trigger] ports@[j])@.port != port,
        decreases n - i,
    {
        proof {
            assert(ports@.skip(i as int).drop_first() =~= ports@.skip(i + 1));
            assert(ports@.skip(i as int)[0] == ports@[i as int]);
        }
        if ports[i].port == port {
            let found = ports[i].clone();
            return Some(found);
        }
        i += 1;
    }
    proof {
        assert(ports@.skip(n as int) =~= Seq::<PortInfo>::empty());
    }
    None
}

/// Port information provider: the two kernel table reads, plus
/// derived queries with verified default bodies.
pub trait PortProvider {
    /// All TCP connections, both address families.
    fn get_tcp_connections(&self) -> (r: AppResult<Vec<PortInfo>>);

    /// All UDP endpoints, both address families.
    fn get_udp_endpoints(&self) -> (r: AppResult<Vec<PortInfo>>);

    /// All ports: the TCP connections followed by the UDP endpoints,
    /// combined by `concat_ports`; a failed read's error is handed on.
    fn get_all_ports(&self) -> (r: AppResult<Vec<PortInfo>>) {
        let tcp = match self.get_tcp_connections() {
            Ok(p) => p,
            Err(e) => {
                return Err(e);
            },
        };
        let udp = match self.get_udp_endpoints() {
            Ok(p) => p,
            Err(e) => {
                return Err(e);
            },
        };
        Ok(concat_ports(tcp, udp))
    }

    /// The first record in the protocol's table that holds the port,
    /// found by `find_first_port`; the table read's error is handed
    /// on.
    fn get_port_info(&self, port: u16, protocol: Protocol) -> (r: AppResult<Option<PortInfo>>)
        ensures
            r matches Ok(Some(p)) ==> p@.port == port,
    {
        let ports = match (if matches!(protocol, Protocol::TCP) {
            self.get_tcp_connections()
        } else {
            self.get_udp_endpoints()
        }) {
            Ok(p) => p,
            Err(e) => {
                return Err(e);
            },
        };
        Ok(find_first_port(&ports, port))
    }
}

/// Process operation provider: resolution and raw termination come
/// from the backend; the protection and PID-reuse guards are verified
/// default bodies and are not meant to be overridden.
pub trait ProcessProvider {
    /// Resolves process metadata by pid. `None` means the pid names no
    /// process; a returned record carries that pid; failures are
    /// platform-call errors.
    fn get_process_info(&self, pid: u32) -> (r: AppResult<Option<ProcessInfo>>)
        ensures
            r matches Ok(Some(i)) ==> i@.pid == pid,
            r matches Err(e) ==> e is WindowsApi,
    ;

    /// Requests terminate-only access and terminates the process.
    /// A permission failure is `AccessDenied`; any other failure is a
    /// platform-call error.
    fn terminate_process(&self, pid: u32) -> (r: AppResult<()>)
        ensures
            r matches Err(e) ==> e is AccessDenied || e is WindowsApi,
    ;

    /// Whether the name is on the fixed protected-process list.
    fn is_protected(&self, name: &str) -> (r: bool)
        ensures
            r == spec_is_protected(name@),
    {
        is_protected_process(name)
    }

    /// Safe termination: resolves the process, lets `decide_kill`
    /// judge the full resolution (not found, protected, or reused pid
    /// are each refused), and only then terminates.
    fn kill_process(&self, pid: u32, expected_create_time: Option<u64>) -> (r: AppResult<()>)
        ensures
            r matches Err(e) ==> (e matches AppError::ProtectedProcess(n)
                ==> spec_is_protected(n@)),
            expected_create_time is None ==> !(r matches Err(e) && e is PidReused),
            r matches Err(e) ==> (e matches AppError::ProcessNotFound(p) ==> p == pid),
    {
        let resolved = match self.get_process_info(pid) {
            Ok(o) => o,
            Err(e) => {
                return Err(e);
            },
        };
        match decide_kill(pid, resolved, expected_create_time) {
            Ok(_) => {},
            Err(e) => {
                return Err(e);
            },
        }
        self.terminate_process(pid)
    }
}

} // verus!
