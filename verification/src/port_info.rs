//! Port and connection data model.

use vstd::prelude::*;
use crate::process_info::{ProcessInfo, ProcessRec};
use crate::text::{eq_ignore_ascii_case, spec_eq_ignore_ascii_case, spec_lower_code};

verus! {

/// Transport protocol of a port record.
#[derive(Debug, Clone, Copy, PartialEq, Eq, Structural)]
pub enum Protocol {
    TCP,
    UDP,
}

/// Connection state of a TCP connection or UDP endpoint.
///
/// The numeric kernel codes 1 through 12 map to the named TCP states; UDP
/// endpoints are always `Bound`. Any other code is preserved in `Unknown`
/// so that undocumented kernel states do not break parsing.
#[derive(Debug, Clone, Copy, PartialEq, Eq, Structural)]
pub enum ConnectionState {
    Closed,
    Listen,
    SynSent,
    SynReceived,
    Established,
    FinWait1,
    FinWait2,
    CloseWait,
    Closing,
    LastAck,
    TimeWait,
    DeleteTcb,
    Bound,
    Unknown(u32),
}

/// The `ConnectionState` denoted by a raw kernel TCP state code.
pub open spec fn spec_state_of_code(state: u32) -> ConnectionState {
    if state == 1 {
        ConnectionState::Closed
    } else if state == 2 {
        ConnectionState::Listen
    } else if state == 3 {
        ConnectionState::SynSent
    } else if state == 4 {
        ConnectionState::SynReceived
    } else if state == 5 {
        ConnectionState::Established
    } else if state == 6 {
        ConnectionState::FinWait1
    } else if state == 7 {
        ConnectionState::FinWait2
    } else if state == 8 {
        ConnectionState::CloseWait
    } else if state == 9 {
        ConnectionState::Closing
    } else if state == 10 {
        ConnectionState::LastAck
    } else if state == 11 {
        ConnectionState::TimeWait
    } else if state == 12 {
        ConnectionState::DeleteTcb
    } else {
        ConnectionState::Unknown(state)
    }
}

impl ConnectionState {
    /// Maps a raw kernel TCP state code to a `ConnectionState`.
    pub fn from_tcp_state(state: u32) -> (r: Self)
        ensures
            r == spec_state_of_code(state),
    {
        match state {
            1 => Self::Closed,
            2 => Self::Listen,
            3 => Self::SynSent,
            4 => Self::SynReceived,
            5 => Self::Established,
            6 => Self::FinWait1,
            7 => Self::FinWait2,
            8 => Self::CloseWait,
            9 => Self::Closing,
            10 => Self::LastAck,
            11 => Self::TimeWait,
            12 => Self::DeleteTcb,
            _ => Self::Unknown(state),
        }
    }

    /// True exactly for the two listening states: `Listen` (TCP) and `Bound` (UDP).
    pub fn is_listening(&self) -> (r: bool)
        ensures
            r == (*self == ConnectionState::Listen || *self == ConnectionState::Bound),
    {
        matches!(self, Self::Listen | Self::Bound)
    }
}

/// Mathematical value of a `PortInfo`.
pub ghost struct PortRec {
    pub port: u16,
    pub protocol: Protocol,
    pub local_addr: Seq<char>,
    pub remote_addr: Option<Seq<char>>,
    pub remote_port: Option<u16>,
    pub state: ConnectionState,
    pub pid: u32,
    pub process: Option<ProcessRec>,
}

/// The identity key of a port record: snapshots are keyed by
/// (port, protocol) only.
pub open spec fn spec_key(p: PortRec) -> (u16, Protocol) {
    (p.port, p.protocol)
}

/// One normalized kernel-reported TCP/UDP endpoint, with optional
/// owning-process metadata.
#[derive(Debug)]
pub struct PortInfo {
    pub port: u16,
    pub protocol: Protocol,
    pub local_addr: String,
    pub remote_addr: Option<String>,
    pub remote_port: Option<u16>,
    pub state: ConnectionState,
    pub pid: u32,
    pub process: Option<ProcessInfo>,
}

impl View for PortInfo {
    type V = PortRec;

    open spec fn view(&self) -> PortRec {
        PortRec {
            port: self.port,
            protocol: self.protocol,
            local_addr: self.local_addr@,
            remote_addr: match self.remote_addr {
                Some(a) => Some(a@),
                None => None,
            },
            remote_port: self.remote_port,
            state: self.state,
            pid: self.pid,
            process: match self.process {
                Some(p) => Some(p@),
                None => None,
            },
        }
    }
}

impl Clone for PortInfo {
    fn clone(&self) -> (r: Self)
        ensures
            r == *self,
    {
        PortInfo {
            port: self.port,
            protocol: self.protocol,
            local_addr: self.local_addr.clone(),
            remote_addr: match &self.remote_addr {
                Some(a) => Some(a.clone()),
                None => None,
            },
            remote_port: self.remote_port,
            state: self.state,
            pid: self.pid,
            process: match &self.process {
                Some(p) => Some(p.clone()),
                None => None,
            },
        }
    }
}

impl PortInfo {
    /// Creates a record for a local endpoint with no remote peer, an
    /// `Unknown(0)` state, and no process metadata attached yet.
    pub fn new(port: u16, protocol: Protocol, local_addr: String, pid: u32) -> (r: Self)
        ensures
            r@ == (PortRec {
                port,
                protocol,
                local_addr: local_addr@,
                remote_addr: None,
                remote_port: None,
                state: ConnectionState::Unknown(0),
                pid,
                process: None,
            }),
    {
        PortInfo {
            port,
            protocol,
            local_addr,
            remote_addr: None,
            remote_port: None,
            state: ConnectionState::Unknown(0),
            pid,
            process: None,
        }
    }
}

/// Mathematical value of a `PortChange`.
pub ghost struct ChangeRec {
    pub added: Seq<PortRec>,
    pub removed: Seq<PortRec>,
    pub changed: Seq<PortRec>,
}

impl ChangeRec {
    /// A change set is empty exactly when all three lists are empty.
    pub open spec fn is_empty(self) -> bool {
        self.added.len() == 0 && self.removed.len() == 0 && self.changed.len() == 0
    }
}

/// The added, removed, and changed port records between two snapshots.
#[derive(Debug)]
pub struct PortChange {
    pub added: Vec<PortInfo>,
    pub removed: Vec<PortInfo>,
    pub changed: Vec<PortInfo>,
}

impl View for PortChange {
    type V = ChangeRec;

    open spec fn view(&self) -> ChangeRec {
        ChangeRec {
            added: self.added@.map_values(|p: PortInfo| p@),
            removed: self.removed@.map_values(|p: PortInfo| p@),
            changed: self.changed@.map_values(|p: PortInfo| p@),
        }
    }
}

impl PortChange {
    /// True exactly when no port was added, removed, or changed.
    pub fn is_empty(&self) -> (r: bool)
        ensures
            r == self@.is_empty(),
    {
        self.added.len() == 0 && self.removed.len() == 0 && self.changed.len() == 0
    }
}

/// Reads a protocol name, ignoring ASCII case: `tcp` and `udp` in any
/// casing; anything else denotes no protocol.
pub fn parse_protocol(s: &str) -> (r: Option<Protocol>)
    ensures
        spec_eq_ignore_ascii_case("TCP"@, s@) ==> r == Some(Protocol::TCP),
        spec_eq_ignore_ascii_case("UDP"@, s@) ==> r == Some(Protocol::UDP),
        !spec_eq_ignore_ascii_case("TCP"@, s@) && !spec_eq_ignore_ascii_case("UDP"@, s@)
            ==> r is None,
{
    proof {
        reveal_strlit("TCP");
        reveal_strlit("UDP");
        if spec_eq_ignore_ascii_case("TCP"@, s@) && spec_eq_ignore_ascii_case("UDP"@, s@) {
            assert(spec_lower_code("TCP"@[0]) == spec_lower_code(s@[0]));
            assert(spec_lower_code("UDP"@[0]) == spec_lower_code(s@[0]));
            assert(false);
        }
    }
    if eq_ignore_ascii_case("TCP", s) {
        Some(Protocol::TCP)
    } else if eq_ignore_ascii_case("UDP", s) {
        Some(Protocol::UDP)
    } else {
        None
    }
}

} // verus!
