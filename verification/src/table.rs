//! Kernel connection-table acquisition and row parsing.
//!
//! A table arrives as one owned byte buffer: a 32-bit row count followed
//! by fixed-width rows. Ports are stored in network byte order inside a
//! 32-bit field; 32-bit fields are little endian; addresses are raw
//! 4-byte (IPv4) or 16-byte (IPv6) values. Every row read is bounds
//! checked: rows the buffer cannot hold are ignored, never read past the
//! end.

use vstd::prelude::*;
use vstd::arithmetic::div_mod::{
    lemma_div_by_multiple, lemma_div_denominator, lemma_div_is_ordered, lemma_fundamental_div_mod,
};
use vstd::pervasive::unreached;
use crate::addr::{ipv4_string, ipv6_bracketed, spec_ipv4, spec_ipv6};
use crate::errors::{AppError, AppResult};
use crate::port_info::{ConnectionState, PortInfo, PortRec, Protocol, spec_state_of_code};

verus! {

/// Value of the little-endian 32-bit field at `off`.
pub open spec fn spec_u32_le(b: Seq<u8>, off: int) -> u32 {
    (b[off] + b[off + 1] * 256 + b[off + 2] * 65536 + b[off + 3] * 16777216) as u32
}

/// Host-order value of the network-byte-order port stored at `off`.
pub open spec fn spec_port_be(b: Seq<u8>, off: int) -> u16 {
    (b[off] * 256 + b[off + 1]) as u16
}

fn read_u32_le(b: &[u8], off: usize) -> (r: u32)
    requires
        off + 4 <= b@.len(),
    ensures
        r == spec_u32_le(b@, off as int),
{
    (b[off] as u32) + (b[off + 1] as u32) * 256 + (b[off + 2] as u32) * 65536 + (b[off + 3]
        as u32) * 16777216
}

fn read_port_be(b: &[u8], off: usize) -> (r: u16)
    requires
        off + 2 <= b@.len(),
    ensures
        r == spec_port_be(b@, off as int),
{
    (b[off] as u16) * 256 + (b[off + 1] as u16)
}

/// How many rows of `row_size` bytes the buffer holds: the claimed row
/// count, bounded by what fits after the 4-byte count field.
pub open spec fn spec_row_count(b: Seq<u8>, row_size: int) -> int {
    if b.len() < 4 {
        0
    } else {
        let claimed = spec_u32_le(b, 0) as int;
        let cap = (b.len() - 4) / row_size;
        if claimed <= cap {
            claimed
        } else {
            cap
        }
    }
}

/// Record denoted by the IPv4 TCP row at `off`: state, local address,
/// local port, remote address, remote port, owning pid.
pub open spec fn spec_tcp4_row(b: Seq<u8>, off: int) -> PortRec {
    PortRec {
        port: spec_port_be(b, off + 8),
        protocol: Protocol::TCP,
        local_addr: spec_ipv4(b[off + 4], b[off + 5], b[off + 6], b[off + 7]),
        remote_addr: Some(spec_ipv4(b[off + 12], b[off + 13], b[off + 14], b[off + 15])),
        remote_port: Some(spec_port_be(b, off + 16)),
        state: spec_state_of_code(spec_u32_le(b, off)),
        pid: spec_u32_le(b, off + 20),
        process: None,
    }
}

/// Record denoted by the IPv6 TCP row at `off`; the address text is
/// wrapped in brackets.
pub open spec fn spec_tcp6_row(b: Seq<u8>, off: int) -> PortRec {
    PortRec {
        port: spec_port_be(b, off + 20),
        protocol: Protocol::TCP,
        local_addr: seq!['['] + spec_ipv6(b.subrange(off, off + 16)) + seq![']'],
        remote_addr: Some(seq!['['] + spec_ipv6(b.subrange(off + 24, off + 40)) + seq![']']),
        remote_port: Some(spec_port_be(b, off + 44)),
        state: spec_state_of_code(spec_u32_le(b, off + 48)),
        pid: spec_u32_le(b, off + 52),
        process: None,
    }
}

/// Record denoted by the IPv4 UDP row at `off`: UDP endpoints have no
/// remote peer and are always `Bound`.
pub open spec fn spec_udp4_row(b: Seq<u8>, off: int) -> PortRec {
    PortRec {
        port: spec_port_be(b, off + 4),
        protocol: Protocol::UDP,
        local_addr: spec_ipv4(b[off], b[off + 1], b[off + 2], b[off + 3]),
        remote_addr: None,
        remote_port: None,
        state: ConnectionState::Bound,
        pid: spec_u32_le(b, off + 8),
        process: None,
    }
}

/// Record denoted by the IPv6 UDP row at `off`.
pub open spec fn spec_udp6_row(b: Seq<u8>, off: int) -> PortRec {
    PortRec {
        port: spec_port_be(b, off + 20),
        protocol: Protocol::UDP,
        local_addr: seq!['['] + spec_ipv6(b.subrange(off, off + 16)) + seq![']'],
        remote_addr: None,
        remote_port: None,
        state: ConnectionState::Bound,
        pid: spec_u32_le(b, off + 24),
        process: None,
    }
}

/// All records denoted by an IPv4 TCP table buffer (24-byte rows).
pub open spec fn spec_parse_tcp4(b: Seq<u8>) -> Seq<PortRec> {
    Seq::new(spec_row_count(b, 24) as nat, |i: int| spec_tcp4_row(b, 4 + 24 * i))
}

/// All records denoted by an IPv6 TCP table buffer (56-byte rows).
pub open spec fn spec_parse_tcp6(b: Seq<u8>) -> Seq<PortRec> {
    Seq::new(spec_row_count(b, 56) as nat, |i: int| spec_tcp6_row(b, 4 + 56 * i))
}

/// All records denoted by an IPv4 UDP table buffer (12-byte rows).
pub open spec fn spec_parse_udp4(b: Seq<u8>) -> Seq<PortRec> {
    Seq::new(spec_row_count(b, 12) as nat, |i: int| spec_udp4_row(b, 4 + 12 * i))
}

/// All records denoted by an IPv6 UDP table buffer (28-byte rows).
pub open spec fn spec_parse_udp6(b: Seq<u8>) -> Seq<PortRec> {
    Seq::new(spec_row_count(b, 28) as nat, |i: int| spec_udp6_row(b, 4 + 28 * i))
}

/// Number of rows to read from `b`, and the arithmetic facts the row
/// loops need.
fn checked_row_count(b: &[u8], row_size: usize) -> (n: usize)
    requires
        1 <= row_size,
    ensures
        n == spec_row_count(b@, row_size as int),
        4 + n * row_size <= b@.len() || n == 0,
{
    let h = b.len();
    if h < 4 {
        return 0;
    }
    let claimed = read_u32_le(b, 0);
    let cap = (h - 4) / row_size;
    proof {
        lemma_fundamental_div_mod((h - 4) as int, row_size as int);
        assert(row_size * cap <= h - 4);
    }
    let n = if (claimed as usize) <= cap {
        claimed as usize
    } else {
        cap
    };
    proof {
        assert(n <= cap);
        assert(row_size * n <= row_size * cap) by (nonlinear_arith)
            requires
                n <= cap,
                row_size >= 1,
        ;
        assert(n * row_size == row_size * n) by (nonlinear_arith);
    }
    n
}

/// Parses an IPv4 TCP table buffer.
pub fn parse_tcp_table_v4(b: &[u8]) -> (r: Vec<PortInfo>)
    ensures
        r@.len() == spec_parse_tcp4(b@).len(),
        forall|i: int| 0 <= i < r@.len() ==> (#[trigger] r@[i])@ == spec_parse_tcp4(b@)[i],
{
    let n = checked_row_count(b, 24);
    let h = b.len();
    let mut out: Vec<PortInfo> = Vec::new();
    let mut i: usize = 0;
    while i < n
        invariant
            n == spec_row_count(b@, 24),
            h == b@.len(),
            4 + n * 24 <= b@.len() || n == 0,
            i <= n,
            out@.len() == i,
            forall|j: int| 0 <= j < i ==> (#[trigger] out@[j])@ == spec_tcp4_row(b@, 4 + 24 * j),
        decreases n - i,
    {
        proof {
            assert(24 * (i + 1) <= 24 * n && n * 24 == 24 * n) by (nonlinear_arith)
                requires
                    i + 1 <= n,
            ;
        }
        let off = 4 + 24 * i;
        let state_code = read_u32_le(b, off);
        let local_addr = ipv4_string(b[off + 4], b[off + 5], b[off + 6], b[off + 7]);
        let port = read_port_be(b, off + 8);
        let remote_addr = ipv4_string(b[off + 12], b[off + 13], b[off + 14], b[off + 15]);
        let remote_port = read_port_be(b, off + 16);
        let pid = read_u32_le(b, off + 20);
        let rec = PortInfo {
            port,
            protocol: Protocol::TCP,
            local_addr,
            remote_addr: Some(remote_addr),
            remote_port: Some(remote_port),
            state: ConnectionState::from_tcp_state(state_code),
            pid,
            process: None,
        };
        proof {
            assert(rec@ == spec_tcp4_row(b@, 4 + 24 * i));
        }
        out.push(rec);
        i += 1;
    }
    out
}

/// Parses an IPv6 TCP table buffer.
pub fn parse_tcp_table_v6(b: &[u8]) -> (r: Vec<PortInfo>)
    ensures
        r@.len() == spec_parse_tcp6(b@).len(),
        forall|i: int| 0 <= i < r@.len() ==> (#[trigger] r@[i])@ == spec_parse_tcp6(b@)[i],
{
    let n = checked_row_count(b, 56);
    let h = b.len();
    let mut out: Vec<PortInfo> = Vec::new();
    let mut i: usize = 0;
    while i < n
        invariant
            n == spec_row_count(b@, 56),
            h == b@.len(),
            4 + n * 56 <= b@.len() || n == 0,
            i <= n,
            out@.len() == i,
            forall|j: int| 0 <= j < i ==> (#[trigger] out@[j])@ == spec_tcp6_row(b@, 4 + 56 * j),
        decreases n - i,
    {
        proof {
            assert(56 * (i + 1) <= 56 * n && n * 56 == 56 * n) by (nonlinear_arith)
                requires
                    i + 1 <= n,
            ;
        }
        let off = 4 + 56 * i;
        let local_slice = vstd::slice::slice_subrange(b, off, off + 16);
        let local_addr = ipv6_bracketed(local_slice);
        let port = read_port_be(b, off + 20);
        let remote_slice = vstd::slice::slice_subrange(b, off + 24, off + 40);
        let remote_addr = ipv6_bracketed(remote_slice);
        let remote_port = read_port_be(b, off + 44);
        let state_code = read_u32_le(b, off + 48);
        let pid = read_u32_le(b, off + 52);
        let rec = PortInfo {
            port,
            protocol: Protocol::TCP,
            local_addr,
            remote_addr: Some(remote_addr),
            remote_port: Some(remote_port),
            state: ConnectionState::from_tcp_state(state_code),
            pid,
            process: None,
        };
        proof {
            assert(rec@ == spec_tcp6_row(b@, 4 + 56 * i));
        }
        out.push(rec);
        i += 1;
    }
    out
}

/// Parses an IPv4 UDP table buffer.
pub fn parse_udp_table_v4(b: &[u8]) -> (r: Vec<PortInfo>)
    ensures
        r@.len() == spec_parse_udp4(b@).len(),
        forall|i: int| 0 <= i < r@.len() ==> (#[trigger] r@[i])@ == spec_parse_udp4(b@)[i],
{
    let n = checked_row_count(b, 12);
    let h = b.len();
    let mut out: Vec<PortInfo> = Vec::new();
    let mut i: usize = 0;
    while i < n
        invariant
            n == spec_row_count(b@, 12),
            h == b@.len(),
            4 + n * 12 <= b@.len() || n == 0,
            i <= n,
            out@.len() == i,
            forall|j: int| 0 <= j < i ==> (#[trigger] out@[j])@ == spec_udp4_row(b@, 4 + 12 * j),
        decreases n - i,
    {
        proof {
            assert(12 * (i + 1) <= 12 * n && n * 12 == 12 * n) by (nonlinear_arith)
                requires
                    i + 1 <= n,
            ;
        }
        let off = 4 + 12 * i;
        let local_addr = ipv4_string(b[off], b[off + 1], b[off + 2], b[off + 3]);
        let port = read_port_be(b, off + 4);
        let pid = read_u32_le(b, off + 8);
        let rec = PortInfo {
            port,
            protocol: Protocol::UDP,
            local_addr,
            remote_addr: None,
            remote_port: None,
            state: ConnectionState::Bound,
            pid,
            process: None,
        };
        proof {
            assert(rec@ == spec_udp4_row(b@, 4 + 12 * i));
        }
        out.push(rec);
        i += 1;
    }
    out
}

/// Parses an IPv6 UDP table buffer.
pub fn parse_udp_table_v6(b: &[u8]) -> (r: Vec<PortInfo>)
    ensures
        r@.len() == spec_parse_udp6(b@).len(),
        forall|i: int| 0 <= i < r@.len() ==> (#[trigger] r@[i])@ == spec_parse_udp6(b@)[i],
{
    let n = checked_row_count(b, 28);
    let h = b.len();
    let mut out: Vec<PortInfo> = Vec::new();
    let mut i: usize = 0;
    while i < n
        invariant
            n == spec_row_count(b@, 28),
            h == b@.len(),
            4 + n * 28 <= b@.len() || n == 0,
            i <= n,
            out@.len() == i,
            forall|j: int| 0 <= j < i ==> (#[trigger] out@[j])@ == spec_udp6_row(b@, 4 + 28 * j),
        decreases n - i,
    {
        proof {
            assert(28 * (i + 1) <= 28 * n && n * 28 == 28 * n) by (nonlinear_arith)
                requires
                    i + 1 <= n,
            ;
        }
        let off = 4 + 28 * i;
        let local_slice = vstd::slice::slice_subrange(b, off, off + 16);
        let local_addr = ipv6_bracketed(local_slice);
        let port = read_port_be(b, off + 20);
        let pid = read_u32_le(b, off + 24);
        let rec = PortInfo {
            port,
            protocol: Protocol::UDP,
            local_addr,
            remote_addr: None,
            remote_port: None,
            state: ConnectionState::Bound,
            pid,
            process: None,
        };
        proof {
            assert(rec@ == spec_udp6_row(b@, 4 + 28 * i));
        }
        out.push(rec);
        i += 1;
    }
    out
}

/// Status code for a successful table call.
pub const NO_ERROR: u32 = 0;

/// Status code reporting that the supplied buffer was too small.
pub const ERROR_INSUFFICIENT_BUFFER: u32 = 122;

/// Source of one kernel connection table: the two-phase size-then-fetch
/// contract of the table query interface. The backend implements this
/// with the platform's table call; nothing else about its answers is
/// assumed.
pub trait TableSource {
    /// Asks for the byte size the table currently needs, without
    /// fetching it. Returns the status code and the required size.
    fn query_size(&mut self) -> (r: (u32, u32));

    /// Fetches the table into a buffer of `size` bytes. Returns the
    /// status code, the buffer, and the now-required size. A
    /// buffer-too-small signal must report a strictly larger required
    /// size, since otherwise no retry could make progress.
    fn fetch(&mut self, size: u32) -> (r: (u32, Vec<u8>, u32))
        ensures
            r.0 == ERROR_INSUFFICIENT_BUFFER ==> r.2 > size,
    ;
}

/// Acquires one raw table buffer: queries the size, fetches, and
/// retries with the reported larger size whenever the table grew
/// between the two calls, so a size race is never surfaced as an
/// error. In lenient mode (used for IPv6 families that may be
/// disabled) any failure degrades to `None` instead of an error.
pub fn read_table_buffer<S: TableSource>(
    src: &mut S,
    lenient: bool,
    size_op: &str,
    fetch_op: &str,
) -> (r: Result<Option<Vec<u8>>, AppError>)
    ensures
        lenient ==> !(r is Err),
        !lenient ==> !(r matches Ok(None)),
        r matches Err(e) ==> e matches AppError::WindowsApi(op, code) && (op@ == size_op@
            || op@ == fetch_op@) && code != NO_ERROR && code != ERROR_INSUFFICIENT_BUFFER,
{
    let (code0, first_size) = src.query_size();
    if code0 != ERROR_INSUFFICIENT_BUFFER && code0 != NO_ERROR {
        if lenient {
            return Ok(None);
        }
        return Err(AppError::WindowsApi(size_op.to_owned(), code0));
    }
    let mut size = first_size;
    loop
        decreases u32::MAX - size,
    {
        let (code, buf, new_size) = src.fetch(size);
        if code == NO_ERROR {
            return Ok(Some(buf));
        } else if code == ERROR_INSUFFICIENT_BUFFER {
            size = new_size;
        } else {
            if lenient {
                return Ok(None);
            }
            return Err(AppError::WindowsApi(fetch_op.to_owned(), code));
        }
    }
}

/// Reads all TCP connections: the IPv4 table, whose failure is fatal,
/// then the IPv6 table, whose failure degrades to an empty list.
pub fn get_tcp_table<S: TableSource>(v4: &mut S, v6: &mut S) -> (r: AppResult<Vec<PortInfo>>)
    ensures
        r matches Ok(v) ==> forall|i: int|
            0 <= i < v@.len() ==> (#[trigger] v@[i])@.protocol == Protocol::TCP
                && v@[i]@.process is None,
        r matches Err(e) ==> e matches AppError::WindowsApi(op, code) && code != NO_ERROR
            && code != ERROR_INSUFFICIENT_BUFFER,
{
    let b4 = match read_table_buffer(
        v4,
        false,
        "GetExtendedTcpTable (size query)",
        "GetExtendedTcpTable",
    ) {
        Ok(Some(b)) => b,
        Ok(None) => unreached(),
        Err(e) => {
            return Err(e);
        },
    };
    let mut out = parse_tcp_table_v4(b4.as_slice());
    proof {
        assert forall|i: int|
            0 <= i < out@.len() implies (#[trigger] out@[i])@.protocol == Protocol::TCP
            && out@[i]@.process is None by {
            assert(out@[i]@ == spec_parse_tcp4(b4@)[i]);
        }
    }
    match read_table_buffer(
        v6,
        true,
        "GetExtendedTcpTable (size query)",
        "GetExtendedTcpTable",
    ) {
        Ok(Some(b6)) => {
            let mut rest = parse_tcp_table_v6(b6.as_slice());
            proof {
                assert forall|i: int|
                    0 <= i < rest@.len() implies (#[trigger] rest@[i])@.protocol == Protocol::TCP
                    && rest@[i]@.process is None by {
                    assert(rest@[i]@ == spec_parse_tcp6(b6@)[i]);
                }
            }
            let ghost pre = out@;
            let ghost extra = rest@;
            out.append(&mut rest);
            proof {
                assert forall|i: int|
                    0 <= i < out@.len() implies (#[trigger] out@[i])@.protocol == Protocol::TCP
                    && out@[i]@.process is None by {
                    if i < pre.len() {
                        assert(out@[i] == pre[i]);
                    } else {
                        assert(out@[i] == extra[i - pre.len()]);
                    }
                }
            }
        },
        Ok(None) => {},
        Err(_) => unreached(),
    }
    Ok(out)
}

/// Reads all UDP endpoints: the IPv4 table, whose failure is fatal,
/// then the IPv6 table, whose failure degrades to an empty list.
pub fn get_udp_table<S: TableSource>(v4: &mut S, v6: &mut S) -> (r: AppResult<Vec<PortInfo>>)
    ensures
        r matches Ok(v) ==> forall|i: int|
            0 <= i < v@.len() ==> (#[trigger] v@[i])@.protocol == Protocol::UDP
                && v@[i]@.state == ConnectionState::Bound && v@[i]@.remote_addr is None
                && v@[i]@.remote_port is None && v@[i]@.process is None,
        r matches Err(e) ==> e matches AppError::WindowsApi(op, code) && code != NO_ERROR
            && code != ERROR_INSUFFICIENT_BUFFER,
{
    let b4 = match read_table_buffer(
        v4,
        false,
        "GetExtendedUdpTable (size query)",
        "GetExtendedUdpTable",
    ) {
        Ok(Some(b)) => b,
        Ok(None) => unreached(),
        Err(e) => {
            return Err(e);
        },
    };
    let mut out = parse_udp_table_v4(b4.as_slice());
    proof {
        assert forall|i: int|
            0 <= i < out@.len() implies (#[trigger] out@[i])@.protocol == Protocol::UDP
            && out@[i]@.state == ConnectionState::Bound && out@[i]@.remote_addr is None
            && out@[i]@.remote_port is None && out@[i]@.process is None by {
            assert(out@[i]@ == spec_parse_udp4(b4@)[i]);
        }
    }
    match read_table_buffer(
        v6,
        true,
        "GetExtendedUdpTable (size query)",
        "GetExtendedUdpTable",
    ) {
        Ok(Some(b6)) => {
            let mut rest = parse_udp_table_v6(b6.as_slice());
            proof {
                assert forall|i: int|
                    0 <= i < rest@.len() implies (#[trigger] rest@[i])@.protocol == Protocol::UDP
                    && rest@[i]@.state == ConnectionState::Bound && rest@[i]@.remote_addr is None
                    && rest@[i]@.remote_port is None && rest@[i]@.process is None by {
                    assert(rest@[i]@ == spec_parse_udp6(b6@)[i]);
                }
            }
            let ghost pre = out@;
            let ghost extra = rest@;
            out.append(&mut rest);
            proof {
                assert forall|i: int|
                    0 <= i < out@.len() implies (#[trigger] out@[i])@.protocol == Protocol::UDP
            && out@[i]@.state == ConnectionState::Bound && out@[i]@.remote_addr is None
            && out@[i]@.remote_port is None && out@[i]@.process is None by {
                    if i < pre.len() {
                        assert(out@[i] == pre[i]);
                    } else {
                        assert(out@[i] == extra[i - pre.len()]);
                    }
                }
            }
        },
        Ok(None) => {},
        Err(_) => unreached(),
    }
    Ok(out)
}

/// The four bytes of a 32-bit value, least significant first, as the
/// kernel lays such a field out in memory.
pub open spec fn spec_u32_le_bytes(x: u32) -> Seq<u8> {
    seq![
        (x % 256) as u8,
        ((x / 256) % 256) as u8,
        ((x / 65536) % 256) as u8,
        ((x / 16777216) % 256) as u8,
    ]
}

/// The four bytes of a port field: the port in network byte order in
/// the low half, the high half zero.
pub open spec fn spec_port_bytes(p: u16) -> Seq<u8> {
    seq![(p / 256) as u8, (p % 256) as u8, 0u8, 0u8]
}

proof fn lemma_u32_le_val(x: u32)
    ensures
        (x % 256) + ((x / 256) % 256) * 256 + ((x / 65536) % 256) * 65536 + ((x / 16777216)
            % 256) * 16777216 == x,
        x / 16777216 < 256,
{
    lemma_fundamental_div_mod(x as int, 256);
    lemma_fundamental_div_mod(x as int / 256, 256);
    lemma_div_denominator(x as int, 256, 256);
    lemma_fundamental_div_mod(x as int / 65536, 256);
    lemma_div_denominator(x as int, 65536, 256);
    lemma_div_is_ordered(x as int, u32::MAX as int, 16777216);
    assert(x as int / 16777216 < 256);
    assert((x as int / 16777216) % 256 == x as int / 16777216);
}

proof fn lemma_port_val(p: u16)
    ensures
        (p / 256) * 256 + (p % 256) == p,
        p / 256 < 256,
{
    lemma_fundamental_div_mod(p as int, 256);
    lemma_div_is_ordered(p as int, u16::MAX as int, 256);
}

/// Concatenation of row encodings, in order.
pub open spec fn spec_concat_rows(rows: Seq<Seq<u8>>) -> Seq<u8>
    decreases rows.len(),
{
    if rows.len() == 0 {
        Seq::empty()
    } else {
        spec_concat_rows(rows.drop_last()) + rows.last()
    }
}

proof fn lemma_concat_rows_len(rows: Seq<Seq<u8>>, size: int)
    requires
        size >= 0,
        forall|i: int| 0 <= i < rows.len() ==> (#[trigger] rows[i]).len() == size,
    ensures
        spec_concat_rows(rows).len() == size * rows.len(),
    decreases rows.len(),
{
    if rows.len() == 0 {
        assert(size * 0 == 0) by (nonlinear_arith);
    } else {
        assert(forall|i: int|
            0 <= i < rows.drop_last().len() ==> #[trigger] rows.drop_last()[i] == rows[i]);
        lemma_concat_rows_len(rows.drop_last(), size);
        assert(size * (rows.len() - 1) + size == size * rows.len()) by (nonlinear_arith);
    }
}

proof fn lemma_concat_rows_at(rows: Seq<Seq<u8>>, size: int, i: int, k: int)
    requires
        size >= 0,
        forall|j: int| 0 <= j < rows.len() ==> (#[trigger] rows[j]).len() == size,
        0 <= i < rows.len(),
        0 <= k < size,
    ensures
        spec_concat_rows(rows)[size * i + k] == rows[i][k],
    decreases rows.len(),
{
    lemma_concat_rows_len(rows, size);
    assert(forall|j: int|
        0 <= j < rows.drop_last().len() ==> #[trigger] rows.drop_last()[j] == rows[j]);
    lemma_concat_rows_len(rows.drop_last(), size);
    if i == rows.len() - 1 {
        assert(size * i + k - size * (rows.len() - 1) == k);
    } else {
        lemma_concat_rows_at(rows.drop_last(), size, i, k);
        assert(size * i + size == size * (i + 1)) by (nonlinear_arith);
        assert(size * (i + 1) <= size * (rows.len() - 1)) by (nonlinear_arith)
            requires
                size >= 0,
                i + 1 <= rows.len() - 1,
        ;
    }
}

/// Field values of one IPv4 TCP row, as the kernel lays them out.
pub ghost struct RawTcp4Row {
    pub state: u32,
    pub local_addr: Seq<u8>,
    pub local_port: u16,
    pub remote_addr: Seq<u8>,
    pub remote_port: u16,
    pub pid: u32,
}

/// The addresses hold their four octets.
pub open spec fn spec_wf_tcp4_row(r: RawTcp4Row) -> bool {
    r.local_addr.len() == 4 && r.remote_addr.len() == 4
}

/// The 24 bytes of one IPv4 TCP row.
pub open spec fn spec_encode_tcp4_row(r: RawTcp4Row) -> Seq<u8> {
    spec_u32_le_bytes(r.state) + r.local_addr + spec_port_bytes(r.local_port) + r.remote_addr
        + spec_port_bytes(r.remote_port) + spec_u32_le_bytes(r.pid)
}

/// The encodings of a sequence of IPv4 TCP rows.
pub open spec fn spec_encode_tcp4_rows(rows: Seq<RawTcp4Row>) -> Seq<Seq<u8>> {
    rows.map_values(|r: RawTcp4Row| spec_encode_tcp4_row(r))
}

/// A whole IPv4 TCP table buffer: the row count, then the rows.
pub open spec fn spec_encode_tcp4_table(rows: Seq<RawTcp4Row>) -> Seq<u8> {
    spec_u32_le_bytes(rows.len() as u32) + spec_concat_rows(spec_encode_tcp4_rows(rows))
}

/// The record an IPv4 TCP row's field values denote.
pub open spec fn spec_tcp4_record(r: RawTcp4Row) -> PortRec {
    PortRec {
        port: r.local_port,
        protocol: Protocol::TCP,
        local_addr: spec_ipv4(r.local_addr[0], r.local_addr[1], r.local_addr[2], r.local_addr[3]),
        remote_addr: Some(
            spec_ipv4(r.remote_addr[0], r.remote_addr[1], r.remote_addr[2], r.remote_addr[3]),
        ),
        remote_port: Some(r.remote_port),
        state: spec_state_of_code(r.state),
        pid: r.pid,
        process: None,
    }
}

/// Round trip for the IPv4 TCP table: a buffer encoding any
/// well-formed rows parses back to exactly those rows' records — one
/// record per row, carrying the row's ports in host order, its
/// addresses in dotted-decimal text, its state, and its owning pid.
#[verifier::rlimit(60)]
pub proof fn lemma_tcp4_round_trip(rows: Seq<RawTcp4Row>)
    requires
        rows.len() <= u32::MAX,
        forall|i: int| 0 <= i < rows.len() ==> spec_wf_tcp4_row(#[trigger] rows[i]),
    ensures
        spec_parse_tcp4(spec_encode_tcp4_table(rows)).len() == rows.len(),
        forall|i: int|
            0 <= i < rows.len() ==> spec_parse_tcp4(spec_encode_tcp4_table(rows))[i]
                == spec_tcp4_record(#[trigger] rows[i]),
{
    let enc = spec_encode_tcp4_rows(rows);
    let b = spec_encode_tcp4_table(rows);
    let n = rows.len() as int;
    assert forall|i: int| 0 <= i < n implies (#[trigger] enc[i]).len() == 24 by {
        assert(spec_wf_tcp4_row(rows[i]));
    }
    lemma_concat_rows_len(enc, 24);
    assert(b.len() == 4 + 24 * n);
    lemma_u32_le_val(rows.len() as u32);
    assert(spec_u32_le(b, 0) == n as u32);
    assert((b.len() - 4) as int / 24 == n) by {
        lemma_div_by_multiple(n, 24);
        assert(24 * n == n * 24) by (nonlinear_arith);
    }
    assert(spec_row_count(b, 24) == n);
    assert forall|i: int|
        0 <= i < n implies spec_parse_tcp4(b)[i] == spec_tcp4_record(#[trigger] rows[i]) by {
        let off = 4 + 24 * i;
        let r = rows[i];
        assert(spec_wf_tcp4_row(r));
        assert forall|k: int| 0 <= k < 24 implies b[off + k] == spec_encode_tcp4_row(r)[k] by {
            lemma_concat_rows_at(enc, 24, i, k);
            assert(b[4 + (24 * i + k)] == spec_concat_rows(enc)[24 * i + k]);
        }
        lemma_tcp4_row_fields(b, off, r);
        assert(spec_parse_tcp4(b)[i] == spec_tcp4_row(b, off));
    }
}

proof fn lemma_tcp4_row_fields(b: Seq<u8>, off: int, r: RawTcp4Row)
    requires
        spec_wf_tcp4_row(r),
        0 <= off,
        off + 24 <= b.len(),
        forall|k: int| 0 <= k < 24 ==> b[off + k] == spec_encode_tcp4_row(r)[k],
    ensures
        spec_tcp4_row(b, off) == spec_tcp4_record(r),
{
    let row = spec_encode_tcp4_row(r);
    assert(spec_u32_le_bytes(r.state).len() == 4);
    assert(spec_port_bytes(r.local_port).len() == 4);
    assert(spec_port_bytes(r.remote_port).len() == 4);
    assert(spec_u32_le_bytes(r.pid).len() == 4);
    assert(row[0] == (r.state % 256) as u8);
    assert(row[1] == ((r.state / 256) % 256) as u8);
    assert(row[2] == ((r.state / 65536) % 256) as u8);
    assert(row[3] == ((r.state / 16777216) % 256) as u8);
    assert(row[4] == r.local_addr[0]);
    assert(row[5] == r.local_addr[1]);
    assert(row[6] == r.local_addr[2]);
    assert(row[7] == r.local_addr[3]);
    assert(row[8] == (r.local_port / 256) as u8);
    assert(row[9] == (r.local_port % 256) as u8);
    assert(row[12] == r.remote_addr[0]);
    assert(row[13] == r.remote_addr[1]);
    assert(row[14] == r.remote_addr[2]);
    assert(row[15] == r.remote_addr[3]);
    assert(row[16] == (r.remote_port / 256) as u8);
    assert(row[17] == (r.remote_port % 256) as u8);
    assert(row[20] == (r.pid % 256) as u8);
    assert(row[21] == ((r.pid / 256) % 256) as u8);
    assert(row[22] == ((r.pid / 65536) % 256) as u8);
    assert(row[23] == ((r.pid / 16777216) % 256) as u8);
    assert forall|k: int| 0 <= k < 24 implies b[off + k] == row[k] by {}
    assert(b[off] == row[0]) by {
        assert(b[off + 0] == row[0]);
    }
    lemma_u32_le_val(r.state);
    lemma_u32_le_val(r.pid);
    lemma_port_val(r.local_port);
    lemma_port_val(r.remote_port);
    assert(spec_u32_le(b, off) == r.state);
    assert(spec_port_be(b, off + 8) == r.local_port);
    assert(spec_port_be(b, off + 16) == r.remote_port);
    assert(spec_u32_le(b, off + 20) == r.pid);
    assert(b[off + 4] == r.local_addr[0] && b[off + 5] == r.local_addr[1] && b[off + 6]
        == r.local_addr[2] && b[off + 7] == r.local_addr[3]);
    assert(b[off + 12] == r.remote_addr[0] && b[off + 13] == r.remote_addr[1] && b[off + 14]
        == r.remote_addr[2] && b[off + 15] == r.remote_addr[3]);
}

/// Field values of one IPv4 UDP row, as the kernel lays them out.
pub ghost struct RawUdp4Row {
    pub local_addr: Seq<u8>,
    pub local_port: u16,
    pub pid: u32,
}

/// The address holds its four octets.
pub open spec fn spec_wf_udp4_row(r: RawUdp4Row) -> bool {
    r.local_addr.len() == 4
}

/// The 12 bytes of one IPv4 UDP row.
pub open spec fn spec_encode_udp4_row(r: RawUdp4Row) -> Seq<u8> {
    r.local_addr + spec_port_bytes(r.local_port) + spec_u32_le_bytes(r.pid)
}

/// The encodings of a sequence of IPv4 UDP rows.
pub open spec fn spec_encode_udp4_rows(rows: Seq<RawUdp4Row>) -> Seq<Seq<u8>> {
    rows.map_values(|r: RawUdp4Row| spec_encode_udp4_row(r))
}

/// A whole IPv4 UDP table buffer: the row count, then the rows.
pub open spec fn spec_encode_udp4_table(rows: Seq<RawUdp4Row>) -> Seq<u8> {
    spec_u32_le_bytes(rows.len() as u32) + spec_concat_rows(spec_encode_udp4_rows(rows))
}

/// The record an IPv4 UDP row's field values denote.
pub open spec fn spec_udp4_record(r: RawUdp4Row) -> PortRec {
    PortRec {
        port: r.local_port,
        protocol: Protocol::UDP,
        local_addr: spec_ipv4(r.local_addr[0], r.local_addr[1], r.local_addr[2], r.local_addr[3]),
        remote_addr: None,
        remote_port: None,
        state: ConnectionState::Bound,
        pid: r.pid,
        process: None,
    }
}

proof fn lemma_udp4_row_fields(b: Seq<u8>, off: int, r: RawUdp4Row)
    requires
        spec_wf_udp4_row(r),
        0 <= off,
        off + 12 <= b.len(),
        forall|k: int| 0 <= k < 12 ==> b[off + k] == spec_encode_udp4_row(r)[k],
    ensures
        spec_udp4_row(b, off) == spec_udp4_record(r),
{
    let row = spec_encode_udp4_row(r);
    assert(spec_port_bytes(r.local_port).len() == 4);
    assert(spec_u32_le_bytes(r.pid).len() == 4);
    assert(row[0] == r.local_addr[0]);
    assert(row[1] == r.local_addr[1]);
    assert(row[2] == r.local_addr[2]);
    assert(row[3] == r.local_addr[3]);
    assert(row[4] == (r.local_port / 256) as u8);
    assert(row[5] == (r.local_port % 256) as u8);
    assert(row[8] == (r.pid % 256) as u8);
    assert(row[9] == ((r.pid / 256) % 256) as u8);
    assert(row[10] == ((r.pid / 65536) % 256) as u8);
    assert(row[11] == ((r.pid / 16777216) % 256) as u8);
    assert(b[off] == row[0]) by {
        assert(b[off + 0] == row[0]);
    }
    lemma_u32_le_val(r.pid);
    lemma_port_val(r.local_port);
    assert(spec_port_be(b, off + 4) == r.local_port);
    assert(spec_u32_le(b, off + 8) == r.pid);
}

/// Round trip for the IPv4 UDP table: a buffer encoding any
/// well-formed rows parses back to exactly those rows' records.
#[verifier::rlimit(60)]
pub proof fn lemma_udp4_round_trip(rows: Seq<RawUdp4Row>)
    requires
        rows.len() <= u32::MAX,
        forall|i: int| 0 <= i < rows.len() ==> spec_wf_udp4_row(#[trigger] rows[i]),
    ensures
        spec_parse_udp4(spec_encode_udp4_table(rows)).len() == rows.len(),
        forall|i: int|
            0 <= i < rows.len() ==> spec_parse_udp4(spec_encode_udp4_table(rows))[i]
                == spec_udp4_record(#[trigger] rows[i]),
{
    let enc = spec_encode_udp4_rows(rows);
    let b = spec_encode_udp4_table(rows);
    let n = rows.len() as int;
    assert forall|i: int| 0 <= i < n implies (#[trigger] enc[i]).len() == 12 by {
        assert(spec_wf_udp4_row(rows[i]));
    }
    lemma_concat_rows_len(enc, 12);
    assert(b.len() == 4 + 12 * n);
    lemma_u32_le_val(rows.len() as u32);
    assert(spec_u32_le(b, 0) == n as u32);
    assert((b.len() - 4) as int / 12 == n) by {
        lemma_div_by_multiple(n, 12);
        assert(12 * n == n * 12) by (nonlinear_arith);
    }
    assert(spec_row_count(b, 12) == n);
    assert forall|i: int|
        0 <= i < n implies spec_parse_udp4(b)[i] == spec_udp4_record(#[trigger] rows[i]) by {
        let off = 4 + 12 * i;
        let r = rows[i];
        assert(spec_wf_udp4_row(r));
        assert forall|k: int| 0 <= k < 12 implies b[off + k] == spec_encode_udp4_row(r)[k] by {
            lemma_concat_rows_at(enc, 12, i, k);
            assert(b[4 + (12 * i + k)] == spec_concat_rows(enc)[12 * i + k]);
        }
        lemma_udp4_row_fields(b, off, r);
        assert(spec_parse_udp4(b)[i] == spec_udp4_row(b, off));
    }
}

/// Field values of one IPv6 TCP row, as the kernel lays them out.
pub ghost struct RawTcp6Row {
    pub local_addr: Seq<u8>,
    pub local_scope: u32,
    pub local_port: u16,
    pub remote_addr: Seq<u8>,
    pub remote_scope: u32,
    pub remote_port: u16,
    pub state: u32,
    pub pid: u32,
}

/// The addresses hold their sixteen bytes.
pub open spec fn spec_wf_tcp6_row(r: RawTcp6Row) -> bool {
    r.local_addr.len() == 16 && r.remote_addr.len() == 16
}

/// The 56 bytes of one IPv6 TCP row.
pub open spec fn spec_encode_tcp6_row(r: RawTcp6Row) -> Seq<u8> {
    r.local_addr + spec_u32_le_bytes(r.local_scope) + spec_port_bytes(r.local_port)
        + r.remote_addr + spec_u32_le_bytes(r.remote_scope) + spec_port_bytes(r.remote_port)
        + spec_u32_le_bytes(r.state) + spec_u32_le_bytes(r.pid)
}

/// The encodings of a sequence of IPv6 TCP rows.
pub open spec fn spec_encode_tcp6_rows(rows: Seq<RawTcp6Row>) -> Seq<Seq<u8>> {
    rows.map_values(|r: RawTcp6Row| spec_encode_tcp6_row(r))
}

/// A whole IPv6 TCP table buffer: the row count, then the rows.
pub open spec fn spec_encode_tcp6_table(rows: Seq<RawTcp6Row>) -> Seq<u8> {
    spec_u32_le_bytes(rows.len() as u32) + spec_concat_rows(spec_encode_tcp6_rows(rows))
}

/// The record an IPv6 TCP row's field values denote.
pub open spec fn spec_tcp6_record(r: RawTcp6Row) -> PortRec {
    PortRec {
        port: r.local_port,
        protocol: Protocol::TCP,
        local_addr: seq!['['] + spec_ipv6(r.local_addr) + seq![']'],
        remote_addr: Some(seq!['['] + spec_ipv6(r.remote_addr) + seq![']']),
        remote_port: Some(r.remote_port),
        state: spec_state_of_code(r.state),
        pid: r.pid,
        process: None,
    }
}

#[verifier::rlimit(60)]
proof fn lemma_tcp6_row_fields(b: Seq<u8>, off: int, r: RawTcp6Row)
    requires
        spec_wf_tcp6_row(r),
        0 <= off,
        off + 56 <= b.len(),
        forall|k: int| 0 <= k < 56 ==> b[off + k] == spec_encode_tcp6_row(r)[k],
    ensures
        spec_tcp6_row(b, off) == spec_tcp6_record(r),
{
    let row = spec_encode_tcp6_row(r);
    assert(spec_u32_le_bytes(r.local_scope).len() == 4);
    assert(spec_u32_le_bytes(r.remote_scope).len() == 4);
    assert(spec_port_bytes(r.local_port).len() == 4);
    assert(spec_port_bytes(r.remote_port).len() == 4);
    assert(spec_u32_le_bytes(r.state).len() == 4);
    assert(spec_u32_le_bytes(r.pid).len() == 4);
    assert forall|k: int| 0 <= k < 16 implies row[k] == r.local_addr[k] by {}
    assert forall|j: int|
        0 <= j < 16 implies b.subrange(off, off + 16)[j] == r.local_addr[j] by {
        assert(b[off + j] == row[j]);
    }
    assert(b.subrange(off, off + 16) =~= r.local_addr);
    assert(row[20] == (r.local_port / 256) as u8);
    assert(row[21] == (r.local_port % 256) as u8);
    assert forall|k: int| 24 <= k < 40 implies row[k] == r.remote_addr[k - 24] by {}
    assert forall|j: int|
        0 <= j < 16 implies b.subrange(off + 24, off + 40)[j] == r.remote_addr[j] by {
        assert(b[off + (j + 24)] == row[j + 24]);
    }
    assert(b.subrange(off + 24, off + 40) =~= r.remote_addr);
    assert(row[44] == (r.remote_port / 256) as u8);
    assert(row[45] == (r.remote_port % 256) as u8);
    assert(row[48] == (r.state % 256) as u8);
    assert(row[49] == ((r.state / 256) % 256) as u8);
    assert(row[50] == ((r.state / 65536) % 256) as u8);
    assert(row[51] == ((r.state / 16777216) % 256) as u8);
    assert(row[52] == (r.pid % 256) as u8);
    assert(row[53] == ((r.pid / 256) % 256) as u8);
    assert(row[54] == ((r.pid / 65536) % 256) as u8);
    assert(row[55] == ((r.pid / 16777216) % 256) as u8);
    lemma_u32_le_val(r.state);
    lemma_u32_le_val(r.pid);
    lemma_port_val(r.local_port);
    lemma_port_val(r.remote_port);
    assert(spec_port_be(b, off + 20) == r.local_port);
    assert(spec_port_be(b, off + 44) == r.remote_port);
    assert(spec_u32_le(b, off + 48) == r.state);
    assert(spec_u32_le(b, off + 52) == r.pid);
}

/// Round trip for the IPv6 TCP table: a buffer encoding any
/// well-formed rows parses back to exactly those rows' records, with
/// each address rendered in brackets.
#[verifier::rlimit(60)]
pub proof fn lemma_tcp6_round_trip(rows: Seq<RawTcp6Row>)
    requires
        rows.len() <= u32::MAX,
        forall|i: int| 0 <= i < rows.len() ==> spec_wf_tcp6_row(#[trigger] rows[i]),
    ensures
        spec_parse_tcp6(spec_encode_tcp6_table(rows)).len() == rows.len(),
        forall|i: int|
            0 <= i < rows.len() ==> spec_parse_tcp6(spec_encode_tcp6_table(rows))[i]
                == spec_tcp6_record(#[trigger] rows[i]),
{
    let enc = spec_encode_tcp6_rows(rows);
    let b = spec_encode_tcp6_table(rows);
    let n = rows.len() as int;
    assert forall|i: int| 0 <= i < n implies (#[trigger] enc[i]).len() == 56 by {
        assert(spec_wf_tcp6_row(rows[i]));
    }
    lemma_concat_rows_len(enc, 56);
    assert(b.len() == 4 + 56 * n);
    lemma_u32_le_val(rows.len() as u32);
    assert(spec_u32_le(b, 0) == n as u32);
    assert((b.len() - 4) as int / 56 == n) by {
        lemma_div_by_multiple(n, 56);
        assert(56 * n == n * 56) by (nonlinear_arith);
    }
    assert(spec_row_count(b, 56) == n);
    assert forall|i: int|
        0 <= i < n implies spec_parse_tcp6(b)[i] == spec_tcp6_record(#[trigger] rows[i]) by {
        let off = 4 + 56 * i;
        let r = rows[i];
        assert(spec_wf_tcp6_row(r));
        assert forall|k: int| 0 <= k < 56 implies b[off + k] == spec_encode_tcp6_row(r)[k] by {
            lemma_concat_rows_at(enc, 56, i, k);
            assert(b[4 + (56 * i + k)] == spec_concat_rows(enc)[56 * i + k]);
        }
        lemma_tcp6_row_fields(b, off, r);
        assert(spec_parse_tcp6(b)[i] == spec_tcp6_row(b, off));
    }
}

/// Field values of one IPv6 UDP row, as the kernel lays them out.
pub ghost struct RawUdp6Row {
    pub local_addr: Seq<u8>,
    pub local_scope: u32,
    pub local_port: u16,
    pub pid: u32,
}

/// The address holds its sixteen bytes.
pub open spec fn spec_wf_udp6_row(r: RawUdp6Row) -> bool {
    r.local_addr.len() == 16
}

/// The 28 bytes of one IPv6 UDP row.
pub open spec fn spec_encode_udp6_row(r: RawUdp6Row) -> Seq<u8> {
    r.local_addr + spec_u32_le_bytes(r.local_scope) + spec_port_bytes(r.local_port)
        + spec_u32_le_bytes(r.pid)
}

/// The encodings of a sequence of IPv6 UDP rows.
pub open spec fn spec_encode_udp6_rows(rows: Seq<RawUdp6Row>) -> Seq<Seq<u8>> {
    rows.map_values(|r: RawUdp6Row| spec_encode_udp6_row(r))
}

/// A whole IPv6 UDP table buffer: the row count, then the rows.
pub open spec fn spec_encode_udp6_table(rows: Seq<RawUdp6Row>) -> Seq<u8> {
    spec_u32_le_bytes(rows.len() as u32) + spec_concat_rows(spec_encode_udp6_rows(rows))
}

/// The record an IPv6 UDP row's field values denote.
pub open spec fn spec_udp6_record(r: RawUdp6Row) -> PortRec {
    PortRec {
        port: r.local_port,
        protocol: Protocol::UDP,
        local_addr: seq!['['] + spec_ipv6(r.local_addr) + seq![']'],
        remote_addr: None,
        remote_port: None,
        state: ConnectionState::Bound,
        pid: r.pid,
        process: None,
    }
}

proof fn lemma_udp6_row_fields(b: Seq<u8>, off: int, r: RawUdp6Row)
    requires
        spec_wf_udp6_row(r),
        0 <= off,
        off + 28 <= b.len(),
        forall|k: int| 0 <= k < 28 ==> b[off + k] == spec_encode_udp6_row(r)[k],
    ensures
        spec_udp6_row(b, off) == spec_udp6_record(r),
{
    let row = spec_encode_udp6_row(r);
    assert(spec_u32_le_bytes(r.local_scope).len() == 4);
    assert(spec_port_bytes(r.local_port).len() == 4);
    assert(spec_u32_le_bytes(r.pid).len() == 4);
    assert forall|k: int| 0 <= k < 16 implies row[k] == r.local_addr[k] by {}
    assert forall|j: int|
        0 <= j < 16 implies b.subrange(off, off + 16)[j] == r.local_addr[j] by {
        assert(b[off + j] == row[j]);
    }
    assert(b.subrange(off, off + 16) =~= r.local_addr);
    assert(row[20] == (r.local_port / 256) as u8);
    assert(row[21] == (r.local_port % 256) as u8);
    assert(row[24] == (r.pid % 256) as u8);
    assert(row[25] == ((r.pid / 256) % 256) as u8);
    assert(row[26] == ((r.pid / 65536) % 256) as u8);
    assert(row[27] == ((r.pid / 16777216) % 256) as u8);
    lemma_u32_le_val(r.pid);
    lemma_port_val(r.local_port);
    assert(spec_port_be(b, off + 20) == r.local_port);
    assert(spec_u32_le(b, off + 24) == r.pid);
}

/// Round trip for the IPv6 UDP table: a buffer encoding any
/// well-formed rows parses back to exactly those rows' records.
#[verifier::rlimit(60)]
pub proof fn lemma_udp6_round_trip(rows: Seq<RawUdp6Row>)
    requires
        rows.len() <= u32::MAX,
        forall|i: int| 0 <= i < rows.len() ==> spec_wf_udp6_row(#[trigger] rows[i]),
    ensures
        spec_parse_udp6(spec_encode_udp6_table(rows)).len() == rows.len(),
        forall|i: int|
            0 <= i < rows.len() ==> spec_parse_udp6(spec_encode_udp6_table(rows))[i]
                == spec_udp6_record(#[trigger] rows[i]),
{
    let enc = spec_encode_udp6_rows(rows);
    let b = spec_encode_udp6_table(rows);
    let n = rows.len() as int;
    assert forall|i: int| 0 <= i < n implies (#[trigger] enc[i]).len() == 28 by {
        assert(spec_wf_udp6_row(rows[i]));
    }
    lemma_concat_rows_len(enc, 28);
    assert(b.len() == 4 + 28 * n);
    lemma_u32_le_val(rows.len() as u32);
    assert(spec_u32_le(b, 0) == n as u32);
    assert((b.len() - 4) as int / 28 == n) by {
        lemma_div_by_multiple(n, 28);
        assert(28 * n == n * 28) by (nonlinear_arith);
    }
    assert(spec_row_count(b, 28) == n);
    assert forall|i: int|
        0 <= i < n implies spec_parse_udp6(b)[i] == spec_udp6_record(#[trigger] rows[i]) by {
        let off = 4 + 28 * i;
        let r = rows[i];
        assert(spec_wf_udp6_row(r));
        assert forall|k: int| 0 <= k < 28 implies b[off + k] == spec_encode_udp6_row(r)[k] by {
            lemma_concat_rows_at(enc, 28, i, k);
            assert(b[4 + (28 * i + k)] == spec_concat_rows(enc)[28 * i + k]);
        }
        lemma_udp6_row_fields(b, off, r);
        assert(spec_parse_udp6(b)[i] == spec_udp6_row(b, off));
    }
}

} // verus!
