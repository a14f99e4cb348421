use port_detection::scanner::{
    attach_process, enrich_records, filter_by_name, filter_by_pid, filter_by_port,
    filter_listening, sort_records,
};
use port_detection::traits::{concat_ports, find_first_port};
use port_detection::AppError;
use port_detection::{
    AppResult, ConnectionState, PortInfo, PortProvider, PortScanner, ProcessInfo,
    ProcessProvider, Protocol,
};

fn rec(port: u16, protocol: Protocol, state: ConnectionState, pid: u32) -> PortInfo {
    PortInfo {
        port,
        protocol,
        local_addr: String::from("0.0.0.0"),
        remote_addr: None,
        remote_port: None,
        state,
        pid,
        process: None,
    }
}

struct FakePlatform {
    tcp: Vec<PortInfo>,
    udp: Vec<PortInfo>,
    names: Vec<(u32, String)>,
}

impl PortProvider for FakePlatform {
    fn get_tcp_connections(&self) -> AppResult<Vec<PortInfo>> {
        Ok(self.tcp.clone())
    }

    fn get_udp_endpoints(&self) -> AppResult<Vec<PortInfo>> {
        Ok(self.udp.clone())
    }
}

impl ProcessProvider for FakePlatform {
    fn get_process_info(&self, pid: u32) -> AppResult<Option<ProcessInfo>> {
        for (p, name) in &self.names {
            if *p == pid {
                return Ok(Some(ProcessInfo::new(pid, name.clone())));
            }
        }
        Ok(None)
    }

    fn terminate_process(&self, _pid: u32) -> AppResult<()> {
        Ok(())
    }
}

#[test]
fn sort_orders_by_port_then_tcp_before_udp() {
    let out = sort_records(vec![
        rec(443, Protocol::UDP, ConnectionState::Bound, 1),
        rec(80, Protocol::TCP, ConnectionState::Listen, 1),
        rec(443, Protocol::TCP, ConnectionState::Listen, 1),
        rec(22, Protocol::TCP, ConnectionState::Listen, 1),
    ]);
    let keys: Vec<(u16, Protocol)> = out.iter().map(|p| (p.port, p.protocol)).collect();
    assert_eq!(
        keys,
        vec![
            (22, Protocol::TCP),
            (80, Protocol::TCP),
            (443, Protocol::TCP),
            (443, Protocol::UDP),
        ]
    );
}

#[test]
fn filter_listening_keeps_listen_and_bound_only() {
    let out = filter_listening(vec![
        rec(1, Protocol::TCP, ConnectionState::Listen, 1),
        rec(2, Protocol::TCP, ConnectionState::Established, 1),
        rec(3, Protocol::UDP, ConnectionState::Bound, 1),
        rec(4, Protocol::TCP, ConnectionState::TimeWait, 1),
    ]);
    let ports: Vec<u16> = out.iter().map(|p| p.port).collect();
    assert_eq!(ports, vec![1, 3]);
}

#[test]
fn filter_by_port_honors_optional_protocol() {
    let records = vec![
        rec(53, Protocol::TCP, ConnectionState::Listen, 1),
        rec(53, Protocol::UDP, ConnectionState::Bound, 2),
        rec(80, Protocol::TCP, ConnectionState::Listen, 3),
    ];
    let both = filter_by_port(records.clone(), 53, None);
    assert_eq!(both.len(), 2);
    let udp_only = filter_by_port(records.clone(), 53, Some(Protocol::UDP));
    assert_eq!(udp_only.len(), 1);
    assert_eq!(udp_only[0].pid, 2);
    let none = filter_by_port(records, 1234, None);
    assert!(none.is_empty());
}

#[test]
fn filter_by_pid_keeps_only_that_owner() {
    let out = filter_by_pid(
        vec![
            rec(1, Protocol::TCP, ConnectionState::Listen, 10),
            rec(2, Protocol::TCP, ConnectionState::Listen, 20),
            rec(3, Protocol::TCP, ConnectionState::Listen, 10),
        ],
        10,
    );
    let ports: Vec<u16> = out.iter().map(|p| p.port).collect();
    assert_eq!(ports, vec![1, 3]);
}

#[test]
fn name_filter_is_case_insensitive_substring_match() {
    let mut with_proc = rec(8080, Protocol::TCP, ConnectionState::Listen, 10);
    with_proc.process = Some(ProcessInfo::new(10, String::from("FireFox.exe")));
    let without_proc = rec(22, Protocol::TCP, ConnectionState::Listen, 11);
    let records = vec![with_proc, without_proc];
    // an uppercase query must still match the mixed-case process name
    let hit = filter_by_name(records.clone(), "FIREFOX");
    assert_eq!(hit.len(), 1);
    assert_eq!(hit[0].port, 8080);
    let hit2 = filter_by_name(records.clone(), "fox.EXE");
    assert_eq!(hit2.len(), 1);
    let miss = filter_by_name(records, "chrome");
    assert!(miss.is_empty());
}

#[test]
fn enrichment_attaches_resolvable_processes_and_tolerates_failures() {
    let platform = FakePlatform {
        tcp: Vec::new(),
        udp: Vec::new(),
        names: vec![(10, String::from("known.exe"))],
    };
    let out = enrich_records(
        &platform,
        vec![
            rec(1, Protocol::TCP, ConnectionState::Listen, 10),
            rec(2, Protocol::TCP, ConnectionState::Listen, 999),
        ],
    );
    assert_eq!(out.len(), 2);
    assert_eq!(out[0].process.as_ref().unwrap().name, "known.exe");
    assert!(out[1].process.is_none());
}

#[test]
fn scan_all_merges_enriches_and_sorts() {
    let platform = FakePlatform {
        tcp: vec![rec(443, Protocol::TCP, ConnectionState::Listen, 10)],
        udp: vec![rec(53, Protocol::UDP, ConnectionState::Bound, 20)],
        names: vec![(10, String::from("web.exe")), (20, String::from("dns.exe"))],
    };
    let scanner = PortScanner::new(platform);
    let all = scanner.scan_all().unwrap();
    assert_eq!(all.len(), 2);
    assert_eq!(all[0].port, 53);
    assert_eq!(all[1].port, 443);
    assert_eq!(all[0].process.as_ref().unwrap().name, "dns.exe");
    assert_eq!(all[1].process.as_ref().unwrap().name, "web.exe");
}

#[test]
fn scanner_queries_filter_the_scan() {
    let platform = FakePlatform {
        tcp: vec![
            rec(80, Protocol::TCP, ConnectionState::Listen, 10),
            rec(50000, Protocol::TCP, ConnectionState::Established, 11),
        ],
        udp: vec![rec(80, Protocol::UDP, ConnectionState::Bound, 30)],
        names: vec![(10, String::from("web.exe")), (30, String::from("other.exe"))],
    };
    let scanner = PortScanner::new(platform);
    let listening = scanner.scan_listening().unwrap();
    assert_eq!(listening.len(), 2);
    assert!(listening.iter().all(|p| p.state.is_listening()));
    let on_80 = scanner.query_port(80, None).unwrap();
    assert_eq!(on_80.len(), 2);
    let tcp_80 = scanner.query_port(80, Some(Protocol::TCP)).unwrap();
    assert_eq!(tcp_80.len(), 1);
    assert_eq!(tcp_80[0].pid, 10);
    let by_pid = scanner.query_by_pid(10).unwrap();
    assert_eq!(by_pid.len(), 1);
    let by_name = scanner.query_by_process_name("WEB").unwrap();
    assert_eq!(by_name.len(), 1);
    assert_eq!(by_name[0].port, 80);
    assert_eq!(by_name[0].protocol, Protocol::TCP);
}

#[test]
fn attach_folds_each_resolution_outcome() {
    let base = rec(80, Protocol::TCP, ConnectionState::Listen, 10);
    // a resolved record is attached
    let attached = attach_process(base.clone(), Ok(Some(ProcessInfo::new(10, String::from("x.exe")))));
    assert_eq!(attached.process.as_ref().unwrap().name, "x.exe");
    assert_eq!(attached.port, 80);
    // a vanished process leaves the record as it was
    let kept = attach_process(base.clone(), Ok(None));
    assert!(kept.process.is_none());
    // a resolution failure degrades to absent data, never an error
    let failed = attach_process(base, Err(AppError::WindowsApi(String::from("OpenProcess"), 8)));
    assert!(failed.process.is_none());
}

#[test]
fn concat_keeps_tcp_first_and_both_orders() {
    let tcp = vec![
        rec(80, Protocol::TCP, ConnectionState::Listen, 1),
        rec(22, Protocol::TCP, ConnectionState::Listen, 2),
    ];
    let udp = vec![rec(53, Protocol::UDP, ConnectionState::Bound, 3)];
    let all = concat_ports(tcp, udp);
    let ports: Vec<u16> = all.iter().map(|p| p.port).collect();
    assert_eq!(ports, vec![80, 22, 53]);
}

#[test]
fn find_first_returns_the_earliest_match_or_none() {
    let ports = vec![
        rec(80, Protocol::TCP, ConnectionState::Listen, 1),
        rec(443, Protocol::TCP, ConnectionState::Listen, 2),
        rec(443, Protocol::TCP, ConnectionState::Established, 3),
    ];
    let hit = find_first_port(&ports, 443).unwrap();
    assert_eq!(hit.pid, 2);
    assert!(find_first_port(&ports, 8080).is_none());
}

#[test]
fn get_port_info_finds_the_first_record_of_the_table() {
    let platform = FakePlatform {
        tcp: vec![
            rec(443, Protocol::TCP, ConnectionState::Listen, 7),
            rec(443, Protocol::TCP, ConnectionState::Established, 8),
        ],
        udp: Vec::new(),
        names: Vec::new(),
    };
    let found = platform.get_port_info(443, Protocol::TCP).unwrap().unwrap();
    assert_eq!(found.pid, 7);
    assert!(platform.get_port_info(80, Protocol::TCP).unwrap().is_none());
    assert!(platform.get_port_info(443, Protocol::UDP).unwrap().is_none());
}

#[test]
fn get_all_ports_is_tcp_then_udp() {
    let platform = FakePlatform {
        tcp: vec![rec(443, Protocol::TCP, ConnectionState::Listen, 1)],
        udp: vec![rec(53, Protocol::UDP, ConnectionState::Bound, 2)],
        names: Vec::new(),
    };
    let all = platform.get_all_ports().unwrap();
    let keys: Vec<(u16, Protocol)> = all.iter().map(|p| (p.port, p.protocol)).collect();
    assert_eq!(keys, vec![(443, Protocol::TCP), (53, Protocol::UDP)]);
}
