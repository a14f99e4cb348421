//! Live inventory of a host's open network ports.
//!
//! The crate models the kernel's TCP/UDP connection tables, parses their raw
//! row buffers into normalized port records, diffs point-in-time snapshots,
//! schedules adaptive polling, and guards process termination against PID
//! reuse and protected system processes.

pub mod addr;
pub mod errors;
pub mod monitor;
pub mod port_info;
pub mod process_info;
pub mod process_guard;
pub mod reserved;
pub mod scanner;
pub mod snapshot;
pub mod table;
pub mod traits;
pub mod text;

pub use errors::AppError;
pub use errors::AppResult;
pub use monitor::MonitorConfig;
pub use monitor::PortMonitor;
pub use port_info::ConnectionState;
pub use port_info::PortChange;
pub use port_info::PortInfo;
pub use port_info::Protocol;
pub use process_info::ProcessInfo;
pub use process_info::is_protected_process;
pub use reserved::PortReservedInfo;
pub use reserved::ReservedPortRange;
pub use reserved::ReservedPortsResult;
pub use scanner::PortScanner;
pub use snapshot::Snapshot;
pub use traits::PortProvider;
pub use traits::ProcessProvider;
