use port_detection::addr::{ipv4_string, ipv6_bracketed, ipv6_string};
use port_detection::text::{contains_bytes, dec_u32, eq_ignore_ascii_case, hex_u16};
use port_detection::{PortChange, PortInfo, Protocol, ConnectionState};

#[test]
fn decimal_rendering_is_exact() {
    assert_eq!(dec_u32(0), "0");
    assert_eq!(dec_u32(7), "7");
    assert_eq!(dec_u32(65535), "65535");
    assert_eq!(dec_u32(4294967295), "4294967295");
}

#[test]
fn hex_rendering_is_lowercase_without_leading_zeros() {
    assert_eq!(hex_u16(0), "0");
    assert_eq!(hex_u16(0x1f), "1f");
    assert_eq!(hex_u16(0xdb8), "db8");
    assert_eq!(hex_u16(0xffff), "ffff");
}

#[test]
fn ipv4_text_is_dotted_decimal() {
    assert_eq!(ipv4_string(0, 0, 0, 0), "0.0.0.0");
    assert_eq!(ipv4_string(127, 0, 0, 1), "127.0.0.1");
    assert_eq!(ipv4_string(255, 255, 255, 255), "255.255.255.255");
}

#[test]
fn ipv6_text_compresses_the_leftmost_longest_zero_run() {
    assert_eq!(ipv6_string(&[0; 16]), "::");
    let mut loopback = [0u8; 16];
    loopback[15] = 1;
    assert_eq!(ipv6_string(&loopback), "::1");
    let doc = [0x20, 0x01, 0x0d, 0xb8, 0, 0, 0, 0, 0, 0, 0, 0, 0, 0, 0, 1];
    assert_eq!(ipv6_string(&doc), "2001:db8::1");
    // tie between two runs of two: the leftmost is compressed
    let tie = [0, 0, 0, 0, 0, 1, 0, 0, 0, 0, 0, 1, 0, 2, 0, 3];
    assert_eq!(ipv6_string(&tie), "::1:0:0:1:2:3");
    // a single zero group is not compressed
    let single = [0, 1, 0, 0, 0, 2, 0, 3, 0, 4, 0, 5, 0, 6, 0, 7];
    assert_eq!(ipv6_string(&single), "1:0:2:3:4:5:6:7");
}

#[test]
fn ipv6_mapped_prefix_renders_the_embedded_ipv4() {
    let mapped = [0, 0, 0, 0, 0, 0, 0, 0, 0, 0, 0xff, 0xff, 192, 168, 0, 1];
    assert_eq!(ipv6_string(&mapped), "::ffff:192.168.0.1");
    assert_eq!(ipv6_bracketed(&mapped), "[::ffff:192.168.0.1]");
}

#[test]
fn ascii_case_insensitive_equality() {
    assert!(eq_ignore_ascii_case("svchost.exe", "SVCHOST.EXE"));
    assert!(eq_ignore_ascii_case("TCP", "tcp"));
    assert!(!eq_ignore_ascii_case("tcp", "udp"));
    assert!(!eq_ignore_ascii_case("tcp", "tcpx"));
    assert!(eq_ignore_ascii_case("", ""));
}

#[test]
fn byte_substring_search() {
    assert!(contains_bytes(b"firefox.exe", b"fox"));
    assert!(contains_bytes(b"firefox.exe", b""));
    assert!(contains_bytes(b"abc", b"abc"));
    assert!(!contains_bytes(b"abc", b"abcd"));
    assert!(!contains_bytes(b"firefox", b"fix"));
}

#[test]
fn change_set_is_empty_only_when_all_lists_are() {
    let empty = PortChange { added: vec![], removed: vec![], changed: vec![] };
    assert!(empty.is_empty());
    let one = PortInfo {
        port: 1,
        protocol: Protocol::TCP,
        local_addr: String::from("0.0.0.0"),
        remote_addr: None,
        remote_port: None,
        state: ConnectionState::Listen,
        pid: 0,
        process: None,
    };
    let with_removed = PortChange { added: vec![], removed: vec![one.clone()], changed: vec![] };
    assert!(!with_removed.is_empty());
    let with_changed = PortChange { added: vec![], removed: vec![], changed: vec![one] };
    assert!(!with_changed.is_empty());
}

#[test]
fn port_info_new_defaults() {
    let p = PortInfo::new(8080, Protocol::TCP, String::from("1.2.3.4"), 77);
    assert_eq!(p.port, 8080);
    assert_eq!(p.protocol, Protocol::TCP);
    assert_eq!(p.local_addr, "1.2.3.4");
    assert!(p.remote_addr.is_none());
    assert!(p.remote_port.is_none());
    assert_eq!(p.state, ConnectionState::Unknown(0));
    assert_eq!(p.pid, 77);
    assert!(p.process.is_none());
}
