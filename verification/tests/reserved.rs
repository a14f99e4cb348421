use port_detection::reserved::{is_port_reserved, parse_reserved_ports, port_reserved_info};
use port_detection::ReservedPortRange;

#[test]
fn test_parse_reserved_ports() {
    let output = r#"
协议 tcp 端口排除范围

开始端口    结束端口
----------    --------
      1366        1465
      5985        5985
     50000       50059     *

* - 管理的端口排除。
"#;
    let ranges = parse_reserved_ports(output).unwrap();
    assert_eq!(ranges.len(), 3);
    assert_eq!(ranges[0].start_port, 1366);
    assert_eq!(ranges[0].end_port, 1465);
    assert!(!ranges[0].is_admin);
    assert!(ranges[2].is_admin);
}

#[test]
fn parse_empty_input_yields_no_ranges() {
    let ranges = parse_reserved_ports("").unwrap();
    assert!(ranges.is_empty());
}

#[test]
fn rows_before_the_separator_are_headers() {
    let output = "100 200\n----\n300 400\n";
    let ranges = parse_reserved_ports(output).unwrap();
    assert_eq!(ranges.len(), 1);
    assert_eq!(ranges[0].start_port, 300);
    assert_eq!(ranges[0].end_port, 400);
}

#[test]
fn malformed_rows_are_skipped() {
    let output = "----\nabc def\n70000 70001\n80\n1 2\n";
    let ranges = parse_reserved_ports(output).unwrap();
    assert_eq!(ranges.len(), 1);
    assert_eq!(ranges[0].start_port, 1);
    assert_eq!(ranges[0].end_port, 2);
}

#[test]
fn star_note_lines_are_skipped_and_trailing_star_marks_admin() {
    let output = "----\n* note line\n10 20 *\n";
    let ranges = parse_reserved_ports(output).unwrap();
    assert_eq!(ranges.len(), 1);
    assert!(ranges[0].is_admin);
    assert_eq!(ranges[0].start_port, 10);
    assert_eq!(ranges[0].end_port, 20);
}

#[test]
fn range_contains_is_inclusive() {
    let r = ReservedPortRange { start_port: 100, end_port: 200, is_admin: false };
    assert!(r.contains(100));
    assert!(r.contains(150));
    assert!(r.contains(200));
    assert!(!r.contains(99));
    assert!(!r.contains(201));
}

#[test]
fn port_reserved_lookup_finds_first_range() {
    let ranges = vec![
        ReservedPortRange { start_port: 10, end_port: 20, is_admin: false },
        ReservedPortRange { start_port: 15, end_port: 30, is_admin: true },
    ];
    assert!(is_port_reserved(&ranges, 18));
    assert!(!is_port_reserved(&ranges, 31));
    let info = port_reserved_info(18, &ranges);
    assert!(info.is_reserved);
    assert_eq!(info.port, 18);
    let rg = info.range.unwrap();
    assert_eq!(rg.start_port, 10);
    assert!(info.reason.is_some());
    let none = port_reserved_info(5, &ranges);
    assert!(!none.is_reserved);
    assert!(none.range.is_none());
    assert!(none.reason.is_none());
}
