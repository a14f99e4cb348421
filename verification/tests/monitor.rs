use port_detection::{
    AppError, AppResult, ConnectionState, MonitorConfig, PortInfo, PortMonitor, PortProvider,
    ProcessInfo, ProcessProvider, Protocol, Snapshot,
};

struct FakePlatform {
    tcp: Vec<PortInfo>,
    udp: Vec<PortInfo>,
}

impl PortProvider for FakePlatform {
    fn get_tcp_connections(&self) -> AppResult<Vec<PortInfo>> {
        Ok(self.tcp.clone())
    }

    fn get_udp_endpoints(&self) -> AppResult<Vec<PortInfo>> {
        Ok(self.udp.clone())
    }
}

impl ProcessProvider for FakePlatform {
    fn get_process_info(&self, pid: u32) -> AppResult<Option<ProcessInfo>> {
        Ok(Some(ProcessInfo::new(pid, format!("proc{}", pid))))
    }

    fn terminate_process(&self, _pid: u32) -> AppResult<()> {
        Ok(())
    }
}

fn rec(port: u16, protocol: Protocol, state: ConnectionState, pid: u32) -> PortInfo {
    PortInfo {
        port,
        protocol,
        local_addr: String::from("0.0.0.0"),
        remote_addr: None,
        remote_port: None,
        state,
        pid,
        process: None,
    }
}

fn fresh_monitor() -> PortMonitor<FakePlatform> {
    let platform = FakePlatform { tcp: Vec::new(), udp: Vec::new() };
    PortMonitor::new(MonitorConfig::default(), platform)
}

#[test]
fn default_config_values() {
    let c = MonitorConfig::default();
    assert_eq!(c.interval_ms, 2000);
    assert_eq!(c.max_backoff, 5);
    assert!(!c.listen_only);
}

#[test]
fn added_port_is_reported() {
    // snapshot 1: 80/TCP and 443/TCP listening; snapshot 2 adds 22/TCP
    let mut m = fresh_monitor();
    let first = vec![
        rec(80, Protocol::TCP, ConnectionState::Listen, 1),
        rec(443, Protocol::TCP, ConnectionState::Listen, 1),
    ];
    let c1 = m.apply_scan(first).expect("first scan populates the snapshot");
    assert_eq!(c1.added.len(), 2);
    let second = vec![
        rec(80, Protocol::TCP, ConnectionState::Listen, 1),
        rec(443, Protocol::TCP, ConnectionState::Listen, 1),
        rec(22, Protocol::TCP, ConnectionState::Listen, 1),
    ];
    let c2 = m.apply_scan(second).expect("a new port is a change");
    assert_eq!(c2.added.len(), 1);
    assert_eq!(c2.added[0].port, 22);
    assert!(c2.removed.is_empty());
    assert!(c2.changed.is_empty());
}

#[test]
fn rebound_port_is_reported_as_changed() {
    // 8080/TCP owned by pid 100, then rebound by pid 200
    let mut m = fresh_monitor();
    let c1 = m.apply_scan(vec![rec(8080, Protocol::TCP, ConnectionState::Listen, 100)]);
    assert!(c1.is_some());
    let c2 = m
        .apply_scan(vec![rec(8080, Protocol::TCP, ConnectionState::Listen, 200)])
        .expect("a pid change on the same key is a change");
    assert!(c2.added.is_empty());
    assert!(c2.removed.is_empty());
    assert_eq!(c2.changed.len(), 1);
    assert_eq!(c2.changed[0].port, 8080);
    assert_eq!(c2.changed[0].pid, 200);
}

#[test]
fn removed_port_is_reported() {
    let mut m = fresh_monitor();
    m.apply_scan(vec![
        rec(80, Protocol::TCP, ConnectionState::Listen, 1),
        rec(443, Protocol::TCP, ConnectionState::Listen, 1),
    ]);
    let c = m
        .apply_scan(vec![rec(443, Protocol::TCP, ConnectionState::Listen, 1)])
        .expect("a vanished port is a change");
    assert_eq!(c.removed.len(), 1);
    assert_eq!(c.removed[0].port, 80);
    assert!(c.added.is_empty());
    assert!(c.changed.is_empty());
}

#[test]
fn state_change_is_reported() {
    let mut m = fresh_monitor();
    m.apply_scan(vec![rec(443, Protocol::TCP, ConnectionState::Listen, 9)]);
    let c = m
        .apply_scan(vec![rec(443, Protocol::TCP, ConnectionState::Established, 9)])
        .expect("a state change on the same key is a change");
    assert_eq!(c.changed.len(), 1);
    assert_eq!(c.changed[0].state, ConnectionState::Established);
}

#[test]
fn same_port_different_protocol_is_a_different_key() {
    let mut m = fresh_monitor();
    m.apply_scan(vec![rec(53, Protocol::TCP, ConnectionState::Listen, 1)]);
    let c = m
        .apply_scan(vec![
            rec(53, Protocol::TCP, ConnectionState::Listen, 1),
            rec(53, Protocol::UDP, ConnectionState::Bound, 1),
        ])
        .expect("the UDP endpoint is new");
    assert_eq!(c.added.len(), 1);
    assert_eq!(c.added[0].protocol, Protocol::UDP);
}

#[test]
fn idle_counter_saturates_at_max_backoff() {
    let mut m = fresh_monitor();
    let snapshot = vec![rec(80, Protocol::TCP, ConnectionState::Listen, 1)];
    m.apply_scan(snapshot.clone());
    assert_eq!(m.idle_count, 0);
    // eight empty polls against a cap of five
    for k in 1..=8u64 {
        let r = m.apply_scan(snapshot.clone());
        assert!(r.is_none());
        assert_eq!(m.idle_count as u64, k.min(5));
    }
    assert_eq!(m.idle_count, 5);
    assert_eq!(m.current_interval(), 2000 * 6);
}

#[test]
fn interval_backs_off_linearly_and_snaps_back() {
    let mut m = fresh_monitor();
    let snapshot = vec![rec(80, Protocol::TCP, ConnectionState::Listen, 1)];
    m.apply_scan(snapshot.clone());
    assert_eq!(m.current_interval(), 2000);
    m.apply_scan(snapshot.clone());
    assert_eq!(m.current_interval(), 4000);
    m.apply_scan(snapshot.clone());
    assert_eq!(m.current_interval(), 6000);
    // activity resumes: the cadence snaps back to the base interval
    m.apply_scan(vec![rec(81, Protocol::TCP, ConnectionState::Listen, 1)])
        .expect("new port");
    assert_eq!(m.idle_count, 0);
    assert_eq!(m.current_interval(), 2000);
}

#[test]
fn snapshot_is_replaced_in_full_after_a_change() {
    let mut m = fresh_monitor();
    m.apply_scan(vec![
        rec(80, Protocol::TCP, ConnectionState::Listen, 1),
        rec(443, Protocol::TCP, ConnectionState::Listen, 1),
    ]);
    let second = vec![
        rec(443, Protocol::TCP, ConnectionState::Listen, 1),
        rec(22, Protocol::TCP, ConnectionState::Listen, 2),
    ];
    m.apply_scan(second.clone()).expect("changed");
    // the retained snapshot now equals the just-scanned records exactly
    assert_eq!(m.last_snapshot.records.len(), 2);
    let found = m.last_snapshot.find(22, Protocol::TCP).expect("22 retained");
    assert_eq!(found.pid, 2);
    assert!(m.last_snapshot.find(80, Protocol::TCP).is_none());
    // an identical scan right after is an empty diff
    assert!(m.apply_scan(second).is_none());
}

#[test]
fn duplicate_keys_in_one_scan_last_seen_wins() {
    let snap = Snapshot::from_records(vec![
        rec(80, Protocol::TCP, ConnectionState::Listen, 1),
        rec(80, Protocol::TCP, ConnectionState::Listen, 7),
    ]);
    assert_eq!(snap.len(), 1);
    assert_eq!(snap.find(80, Protocol::TCP).unwrap().pid, 7);
}

#[test]
fn reset_clears_snapshot_and_idle_counter() {
    let mut m = fresh_monitor();
    let snapshot = vec![rec(80, Protocol::TCP, ConnectionState::Listen, 1)];
    m.apply_scan(snapshot.clone());
    m.apply_scan(snapshot.clone());
    assert_eq!(m.idle_count, 1);
    m.reset();
    assert_eq!(m.idle_count, 0);
    assert_eq!(m.last_snapshot.records.len(), 0);
    // after a reset, everything is reported as added again
    let c = m.apply_scan(snapshot).expect("all added after reset");
    assert_eq!(c.added.len(), 1);
}

#[test]
fn poll_scans_through_the_provider() {
    let platform = FakePlatform {
        tcp: vec![rec(80, Protocol::TCP, ConnectionState::Listen, 42)],
        udp: vec![rec(53, Protocol::UDP, ConnectionState::Bound, 43)],
    };
    let mut m = PortMonitor::new(MonitorConfig::default(), platform);
    let c = m.poll().unwrap().expect("first poll reports everything as added");
    assert_eq!(c.added.len(), 2);
    // records were enriched through the provider
    let p80 = c.added.iter().find(|p| p.port == 80).unwrap();
    assert_eq!(p80.process.as_ref().unwrap().name, "proc42");
    // a second poll with the same inventory is quiet
    assert!(m.poll().unwrap().is_none());
    assert_eq!(m.idle_count, 1);
}

#[test]
fn poll_listen_only_filters_non_listening_records() {
    let platform = FakePlatform {
        tcp: vec![
            rec(80, Protocol::TCP, ConnectionState::Listen, 1),
            rec(50000, Protocol::TCP, ConnectionState::Established, 1),
        ],
        udp: Vec::new(),
    };
    let config = MonitorConfig { listen_only: true, ..MonitorConfig::default() };
    let mut m = PortMonitor::new(config, platform);
    let c = m.poll().unwrap().expect("listening port is added");
    assert_eq!(c.added.len(), 1);
    assert_eq!(c.added[0].port, 80);
}

#[test]
fn poll_propagates_scan_errors_unchanged() {
    struct Failing;
    impl PortProvider for Failing {
        fn get_tcp_connections(&self) -> AppResult<Vec<PortInfo>> {
            Err(AppError::WindowsApi(String::from("GetExtendedTcpTable"), 8))
        }
        fn get_udp_endpoints(&self) -> AppResult<Vec<PortInfo>> {
            Ok(Vec::new())
        }
    }
    impl ProcessProvider for Failing {
        fn get_process_info(&self, _pid: u32) -> AppResult<Option<ProcessInfo>> {
            Ok(None)
        }
        fn terminate_process(&self, _pid: u32) -> AppResult<()> {
            Ok(())
        }
    }
    let mut m = PortMonitor::new(MonitorConfig::default(), Failing);
    let e = m.poll().unwrap_err();
    assert!(matches!(e, AppError::WindowsApi(_, 8)));
    assert_eq!(m.idle_count, 0);
}
