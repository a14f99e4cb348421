//! Reserved-port-range advisory parsing.
//!
//! The OS can reserve port ranges (for virtualization NAT and the
//! like); an advisory tool reports them as free-form tabular text: a
//! header, a dashed separator line, then one row of two port numbers
//! per range, with a trailing `*` marking administrator-managed
//! entries. Parsing is byte-based and treats ASCII whitespace as the
//! separator.

use vstd::prelude::*;
use vstd::slice::slice_subrange;
use vstd::string::StringSliceAdditionalSpecFns;
use crate::errors::AppResult;

verus! {

/// One reserved port range, inclusive on both ends; `is_admin` marks
/// an administrator-managed exclusion.
#[derive(Debug, Clone, Copy, PartialEq, Eq, Structural)]
pub struct ReservedPortRange {
    pub start_port: u16,
    pub end_port: u16,
    pub is_admin: bool,
}

impl ReservedPortRange {
    /// Whether the port lies in this range.
    pub fn contains(&self, port: u16) -> (r: bool)
        ensures
            r == (self.start_port <= port && port <= self.end_port),
    {
        port >= self.start_port && port <= self.end_port
    }
}

/// ASCII whitespace, as it appears in the advisory text.
pub open spec fn spec_is_ws(c: u8) -> bool {
    c == 32 || c == 9 || c == 13 || c == 10
}

fn is_ws(c: u8) -> (r: bool)
    ensures
        r == spec_is_ws(c),
{
    c == 32 || c == 9 || c == 13 || c == 10
}

/// Index of the first line feed at or after `i`, or the length when
/// there is none.
pub open spec fn spec_nl(b: Seq<u8>, i: int) -> int
    decreases b.len() - i,
{
    if i < 0 || i >= b.len() {
        b.len() as int
    } else if b[i] == 10 {
        i
    } else {
        spec_nl(b, i + 1)
    }
}

proof fn lemma_nl_bounds(b: Seq<u8>, i: int)
    requires
        0 <= i <= b.len(),
    ensures
        i <= spec_nl(b, i) <= b.len(),
        spec_nl(b, i) < b.len() ==> b[spec_nl(b, i)] == 10,
    decreases b.len() - i,
{
    if i >= b.len() || b[i] == 10 {
    } else {
        lemma_nl_bounds(b, i + 1);
    }
}

/// The lines of the text: maximal runs between line feeds, without a
/// trailing empty line.
pub open spec fn spec_lines(b: Seq<u8>) -> Seq<Seq<u8>>
    decreases b.len(),
{
    if b.len() == 0 {
        Seq::empty()
    } else {
        let e0 = spec_nl(b, 0);
        let e = if 0 <= e0 < b.len() {
            e0
        } else {
            b.len() as int
        };
        if e == b.len() {
            seq![b]
        } else {
            seq![b.subrange(0, e)] + spec_lines(b.subrange(e + 1, b.len() as int))
        }
    }
}

/// Index of the first non-whitespace byte at or after `i`, or the
/// length when there is none.
pub open spec fn spec_skip_ws(b: Seq<u8>, i: int) -> int
    decreases b.len() - i,
{
    if i < 0 || i >= b.len() {
        b.len() as int
    } else if spec_is_ws(b[i]) {
        spec_skip_ws(b, i + 1)
    } else {
        i
    }
}


/// Index of the first whitespace byte at or after `i`, or the length
/// when there is none.
pub open spec fn spec_tok_end(b: Seq<u8>, i: int) -> int
    decreases b.len() - i,
{
    if i < 0 || i >= b.len() {
        b.len() as int
    } else if spec_is_ws(b[i]) {
        i
    } else {
        spec_tok_end(b, i + 1)
    }
}


/// Index of the last byte of interest walking back from `i`: the
/// first position from the right whose predecessor is not trailing
/// whitespace.
pub open spec fn spec_end_trim(b: Seq<u8>, i: int) -> int
    decreases i,
{
    if i <= 0 {
        0
    } else if spec_is_ws(b[i - 1]) {
        spec_end_trim(b, i - 1)
    } else {
        i
    }
}


/// The text with ASCII whitespace removed from both ends.
pub open spec fn spec_trim(b: Seq<u8>) -> Seq<u8> {
    let s = spec_skip_ws(b, 0);
    let e = spec_end_trim(b, b.len() as int);
    if s <= e {
        b.subrange(s, e)
    } else {
        Seq::empty()
    }
}

/// Trims ASCII whitespace from both ends.
pub fn trim_bytes<'a>(b: &'a [u8]) -> (r: &'a [u8])
    ensures
        r@ == spec_trim(b@),
{
    let n = b.len();
    let mut s: usize = 0;
    loop
        invariant
            n == b@.len(),
            0 <= s <= n,
            spec_skip_ws(b@, 0) == spec_skip_ws(b@, s as int),
        ensures
            0 <= s <= n,
            spec_skip_ws(b@, 0) == s as int,
        decreases n - s,
    {
        if s == n {
            break ;
        }
        if !is_ws(b[s]) {
            break ;
        }
        s += 1;
    }
    let mut e: usize = n;
    loop
        invariant
            n == b@.len(),
            0 <= e <= n,
            spec_end_trim(b@, n as int) == spec_end_trim(b@, e as int),
        ensures
            0 <= e <= n,
            spec_end_trim(b@, n as int) == e as int,
        decreases e,
    {
        if e == 0 {
            break ;
        }
        if !is_ws(b[e - 1]) {
            break ;
        }
        e -= 1;
    }
    if s <= e {
        slice_subrange(b, s, e)
    } else {
        proof {
            assert(spec_trim(b@) =~= Seq::<u8>::empty());
        }
        slice_subrange(b, 0, 0)
    }
}

/// A dashed separator line: it begins with three dashes and marks the
/// start of the data section.
pub open spec fn spec_is_sep(t: Seq<u8>) -> bool {
    t.len() >= 3 && t[0] == 45 && t[1] == 45 && t[2] == 45
}

fn is_sep(t: &[u8]) -> (r: bool)
    ensures
        r == spec_is_sep(t@),
{
    t.len() >= 3 && t[0] == 45 && t[1] == 45 && t[2] == 45
}

/// The text with every trailing `*` removed.
pub open spec fn spec_strip_stars(t: Seq<u8>) -> Seq<u8>
    decreases t.len(),
{
    if t.len() > 0 && t.last() == 42 {
        spec_strip_stars(t.drop_last())
    } else {
        t
    }
}

fn strip_stars<'a>(t: &'a [u8]) -> (r: &'a [u8])
    ensures
        r@ == spec_strip_stars(t@),
{
    let n = t.len();
    let mut e: usize = n;
    proof {
        assert(t@.subrange(0, n as int) =~= t@);
    }
    loop
        invariant
            n == t@.len(),
            0 <= e <= n,
            spec_strip_stars(t@) == spec_strip_stars(t@.subrange(0, e as int)),
        ensures
            0 <= e <= n,
            spec_strip_stars(t@) == t@.subrange(0, e as int),
        decreases e,
    {
        if e == 0 {
            proof {
                assert(t@.subrange(0, 0) =~= Seq::<u8>::empty());
            }
            break ;
        }
        proof {
            assert(t@.subrange(0, e as int).drop_last() =~= t@.subrange(0, e as int - 1));
            assert(t@.subrange(0, e as int).last() == t@[e - 1]);
        }
        if t[e - 1] != 42 {
            break ;
        }
        e -= 1;
    }
    slice_subrange(t, 0, e)
}

/// The numeric value of a digit string, most significant digit first.
pub open spec fn spec_digits_val(d: Seq<u8>) -> int
    decreases d.len(),
{
    if d.len() == 0 {
        0
    } else {
        spec_digits_val(d.drop_last()) * 10 + (d.last() - 48)
    }
}

/// Every byte is an ASCII digit.
pub open spec fn spec_all_digits(d: Seq<u8>) -> bool {
    forall|i: int| 0 <= i < d.len() ==> 48 <= #[trigger] d[i] <= 57
}

proof fn lemma_digits_val_monotone(d: Seq<u8>, k: int)
    requires
        spec_all_digits(d),
        0 <= k <= d.len(),
    ensures
        spec_digits_val(d) >= spec_digits_val(d.take(k)),
        spec_digits_val(d.take(k)) >= 0,
    decreases d.len() - k,
{
    if k == d.len() {
        assert(d.take(k) =~= d);
        lemma_digits_val_nonneg(d);
    } else {
        lemma_digits_val_monotone(d, k + 1);
        assert(d.take(k + 1).drop_last() =~= d.take(k));
        lemma_digits_val_nonneg(d.take(k));
    }
}

proof fn lemma_digits_val_nonneg(d: Seq<u8>)
    requires
        spec_all_digits(d),
    ensures
        spec_digits_val(d) >= 0,
    decreases d.len(),
{
    if d.len() == 0 {
    } else {
        assert(spec_all_digits(d.drop_last())) by {
            assert(forall|i: int|
                0 <= i < d.drop_last().len() ==> #[trigger] d.drop_last()[i] == d[i]);
        }
        lemma_digits_val_nonneg(d.drop_last());
    }
}

/// The port number a token denotes: an optional leading `+`, then one
/// or more decimal digits, with a value of at most 65535; anything
/// else denotes none.
pub open spec fn spec_parse_u16(t: Seq<u8>) -> Option<u16> {
    let d = if t.len() > 0 && t[0] == 43 {
        t.drop_first()
    } else {
        t
    };
    if d.len() > 0 && spec_all_digits(d) && spec_digits_val(d) <= 65535 {
        Some(spec_digits_val(d) as u16)
    } else {
        None
    }
}

/// Parses a decimal port token.
pub fn parse_u16_token(t: &[u8]) -> (r: Option<u16>)
    ensures
        r == spec_parse_u16(t@),
{
    let n = t.len();
    let start: usize = if n > 0 && t[0] == 43 {
        1
    } else {
        0
    };
    let ghost d = if t@.len() > 0 && t@[0] == 43 {
        t@.drop_first()
    } else {
        t@
    };
    proof {
        assert(d =~= t@.subrange(start as int, n as int));
    }
    if n == start {
        return None;
    }
    let mut acc: u32 = 0;
    let mut i: usize = start;
    while i < n
        invariant
            n == t@.len(),
            start <= i <= n,
            d == t@.subrange(start as int, n as int),
            d == (if t@.len() > 0 && t@[0] == 43 {
                t@.drop_first()
            } else {
                t@
            }),
            spec_all_digits(d.take(i - start)),
            acc == spec_digits_val(d.take(i - start)),
            acc <= 65535,
        decreases n - i,
    {
        let c = t[i];
        proof {
            assert(d.take(i - start + 1).drop_last() =~= d.take(i - start));
            assert(d.take(i - start + 1).last() == t@[i as int]);
        }
        if c < 48 || c > 57 {
            proof {
                assert(d[i - start] == c);
                assert(!spec_all_digits(d));
            }
            return None;
        }
        let digit = (c - 48) as u32;
        let next = acc * 10 + digit;
        if next > 65535 {
            proof {
                assert(spec_all_digits(d.take(i - start + 1)));
                assert(spec_digits_val(d.take(i - start + 1)) == next);
                if spec_all_digits(d) {
                    lemma_digits_val_monotone(d, i - start + 1);
                    assert(spec_digits_val(d) > 65535);
                }
            }
            return None;
        }
        acc = next;
        i += 1;
    }
    proof {
        assert(d.take(n - start) =~= d);
    }
    Some(acc as u16)
}

/// The range a data row denotes, if any: after dropping trailing `*`
/// markers and whitespace, the first two whitespace-separated tokens
/// must both be port numbers; the dropped `*` marks an
/// administrator-managed range.
pub open spec fn spec_parse_row(t: Seq<u8>) -> Option<ReservedPortRange> {
    let admin = t.len() > 0 && t.last() == 42;
    let clean = spec_trim(spec_strip_stars(t));
    let s1 = spec_skip_ws(clean, 0);
    let e1 = spec_tok_end(clean, s1);
    let s2 = spec_skip_ws(clean, e1);
    let e2 = spec_tok_end(clean, s2);
    if s1 < clean.len() && s2 < clean.len() {
        match (spec_parse_u16(clean.subrange(s1, e1)), spec_parse_u16(clean.subrange(s2, e2))) {
            (Some(a), Some(b)) => Some(
                ReservedPortRange { start_port: a, end_port: b, is_admin: admin },
            ),
            _ => None,
        }
    } else {
        None
    }
}

fn skip_ws_from(b: &[u8], from: usize) -> (r: usize)
    requires
        from <= b@.len(),
    ensures
        r == spec_skip_ws(b@, from as int),
        from <= r <= b@.len(),
{
    let n = b.len();
    let mut i: usize = from;
    loop
        invariant
            n == b@.len(),
            from <= i <= n,
            spec_skip_ws(b@, from as int) == spec_skip_ws(b@, i as int),
        ensures
            from <= i <= n,
            spec_skip_ws(b@, from as int) == i as int,
        decreases n - i,
    {
        if i == n {
            break ;
        }
        if !is_ws(b[i]) {
            break ;
        }
        i += 1;
    }
    i
}

fn tok_end_from(b: &[u8], from: usize) -> (r: usize)
    requires
        from <= b@.len(),
    ensures
        r == spec_tok_end(b@, from as int),
        from <= r <= b@.len(),
{
    let n = b.len();
    let mut i: usize = from;
    loop
        invariant
            n == b@.len(),
            from <= i <= n,
            spec_tok_end(b@, from as int) == spec_tok_end(b@, i as int),
        ensures
            from <= i <= n,
            spec_tok_end(b@, from as int) == i as int,
        decreases n - i,
    {
        if i == n {
            break ;
        }
        if is_ws(b[i]) {
            break ;
        }
        i += 1;
    }
    i
}

/// Parses one data row.
pub fn parse_row(t: &[u8]) -> (r: Option<ReservedPortRange>)
    ensures
        r == spec_parse_row(t@),
{
    let admin = t.len() > 0 && t[t.len() - 1] == 42;
    let stripped = strip_stars(t);
    let clean = trim_bytes(stripped);
    let s1 = skip_ws_from(clean, 0);
    let e1 = tok_end_from(clean, s1);
    let s2 = skip_ws_from(clean, e1);
    let e2 = tok_end_from(clean, s2);
    if s1 < clean.len() && s2 < clean.len() {
        let t1 = slice_subrange(clean, s1, e1);
        let t2 = slice_subrange(clean, s2, e2);
        match (parse_u16_token(t1), parse_u16_token(t2)) {
            (Some(a), Some(b)) => Some(
                ReservedPortRange { start_port: a, end_port: b, is_admin: admin },
            ),
            _ => None,
        }
    } else {
        None
    }
}

/// Whether a dashed separator line has occurred: the data section has
/// started.
pub open spec fn spec_seen_sep(lines: Seq<Seq<u8>>) -> bool
    decreases lines.len(),
{
    if lines.len() == 0 {
        false
    } else {
        spec_seen_sep(lines.drop_last()) || spec_is_sep(spec_trim(lines.last()))
    }
}

/// The ranges the advisory lines denote: rows of the data section
/// (after the separator) that are neither empty, nor a further
/// separator, nor a `*`-prefixed note, and that parse as a range.
pub open spec fn spec_ranges_of_lines(lines: Seq<Seq<u8>>) -> Seq<ReservedPortRange>
    decreases lines.len(),
{
    if lines.len() == 0 {
        Seq::empty()
    } else {
        let rest = spec_ranges_of_lines(lines.drop_last());
        let t = spec_trim(lines.last());
        if spec_seen_sep(lines.drop_last()) && !spec_is_sep(t) && t.len() > 0 && t[0] != 42 {
            match spec_parse_row(t) {
                Some(r) => rest.push(r),
                None => rest,
            }
        } else {
            rest
        }
    }
}

/// The ranges the advisory text denotes.
pub open spec fn spec_reserved_ranges(b: Seq<u8>) -> Seq<ReservedPortRange> {
    spec_ranges_of_lines(spec_lines(b))
}

/// Parses the advisory tool's tabular output into reserved port
/// ranges. Lines before the dashed separator are headers; data rows
/// carry two port numbers and an optional trailing `*` for
/// administrator-managed ranges; malformed rows are skipped.
pub fn parse_reserved_ports(output: &str) -> (r: AppResult<Vec<ReservedPortRange>>)
    ensures
        r matches Ok(v) && v@ == spec_reserved_ranges(output.spec_bytes()),
{
    let bytes = output.as_bytes();
    let n = bytes.len();
    let mut ranges: Vec<ReservedPortRange> = Vec::new();
    let mut in_data = false;
    let mut pos: usize = 0;
    let ghost whole = bytes@;
    let ghost mut processed: Seq<Seq<u8>> = Seq::empty();
    proof {
        assert(whole.subrange(0, n as int) =~= whole);
        assert(spec_lines(whole) =~= processed + spec_lines(whole.subrange(0, n as int)));
    }
    while pos < n
        invariant
            n == bytes@.len(),
            whole == bytes@,
            pos <= n,
            spec_lines(whole) == processed + spec_lines(whole.subrange(pos as int, n as int)),
            in_data == spec_seen_sep(processed),
            ranges@ == spec_ranges_of_lines(processed),
        decreases n - pos,
    {
        let e = find_nl(bytes, pos);
        let line = slice_subrange(bytes, pos, e);
        let ghost rem = whole.subrange(pos as int, n as int);
        proof {
            lemma_nl_bounds(whole, pos as int);
            lemma_nl_shift(whole, pos as int);
            assert(rem.len() > 0);
            assert(spec_nl(rem, 0) == spec_nl(whole, pos as int) - pos);
            assert(rem.subrange(0, e - pos as int) =~= whole.subrange(pos as int, e as int));
            if e < n {
                assert(rem.subrange(e - pos as int + 1, rem.len() as int) =~= whole.subrange(
                    e + 1 as int,
                    n as int,
                ));
            }
            assert(processed.push(line@) =~= (processed + seq![line@]));
            assert((processed + seq![line@]).drop_last() =~= processed);
            assert((processed + seq![line@]).last() == line@);
        }
        let t = trim_bytes(line);
        if is_sep(t) {
            in_data = true;
        } else if in_data && t.len() > 0 {
            if t[0] != 42 {
                match parse_row(t) {
                    Some(rg) => {
                        ranges.push(rg);
                    },
                    None => {},
                }
            }
        }
        proof {
            processed = processed.push(line@);
        }
        if e < n {
            pos = e + 1;
        } else {
            pos = n;
            proof {
                assert(spec_lines(rem) =~= seq![line@]);
                assert(whole.subrange(n as int, n as int) =~= Seq::<u8>::empty());
            }
        }
    }
    proof {
        assert(whole.subrange(pos as int, n as int) =~= Seq::<u8>::empty());
        assert(spec_lines(whole) =~= processed);
    }
    Ok(ranges)
}

/// Shifting the scan start of a suffix: the first line feed of the
/// suffix lies where the first line feed after `p` lies in the whole.
proof fn lemma_nl_shift(b: Seq<u8>, p: int)
    requires
        0 <= p <= b.len(),
    ensures
        spec_nl(b.subrange(p, b.len() as int), 0) == spec_nl(b, p) - p,
{
    lemma_nl_shift_from(b, p, p);
}

proof fn lemma_nl_shift_from(b: Seq<u8>, p: int, i: int)
    requires
        0 <= p <= i <= b.len(),
    ensures
        spec_nl(b.subrange(p, b.len() as int), i - p) == spec_nl(b, i) - p,
    decreases b.len() - i,
{
    let sub = b.subrange(p, b.len() as int);
    if i >= b.len() {
    } else if b[i] == 10 {
        assert(sub[i - p] == 10);
    } else {
        assert(sub[i - p] != 10);
        lemma_nl_shift_from(b, p, i + 1);
    }
}

fn find_nl(b: &[u8], from: usize) -> (r: usize)
    requires
        from <= b@.len(),
    ensures
        r == spec_nl(b@, from as int),
        from <= r <= b@.len(),
{
    let n = b.len();
    let mut i: usize = from;
    loop
        invariant
            n == b@.len(),
            from <= i <= n,
            spec_nl(b@, from as int) == spec_nl(b@, i as int),
        ensures
            from <= i <= n,
            spec_nl(b@, from as int) == i as int,
        decreases n - i,
    {
        if i == n {
            break ;
        }
        if b[i] == 10 {
            break ;
        }
        i += 1;
    }
    i
}

/// Whether some range in the list holds the port.
pub open spec fn spec_in_ranges(rs: Seq<ReservedPortRange>, port: u16) -> bool {
    exists|i: int|
        0 <= i < rs.len() && (#[trigger] rs[i]).start_port <= port && port <= rs[i].end_port
}

/// Decides whether a port lies in any of the given reserved ranges.
pub fn is_port_reserved(ranges: &Vec<ReservedPortRange>, port: u16) -> (r: bool)
    ensures
        r == spec_in_ranges(ranges@, port),
{
    let n = ranges.len();
    let mut i: usize = 0;
    while i < n
        invariant
            n == ranges@.len(),
            i <= n,
            forall|j: int|
                0 <= j < i ==> !((#[trigger] ranges@[j]).start_port <= port && port
                    <= ranges@[j].end_port),
        decreases n - i,
    {
        if ranges[i].contains(port) {
            return true;
        }
        i += 1;
    }
    false
}

/// The first range in the list that holds the port, if any.
pub open spec fn spec_first_containing(rs: Seq<ReservedPortRange>, port: u16) -> Option<
    ReservedPortRange,
>
    decreases rs.len(),
{
    if rs.len() == 0 {
        None
    } else if rs[0].start_port <= port && port <= rs[0].end_port {
        Some(rs[0])
    } else {
        spec_first_containing(rs.drop_first(), port)
    }
}

/// The reserved ranges of both transports, as one answer.
pub struct ReservedPortsResult {
    pub tcp: Vec<ReservedPortRange>,
    pub udp: Vec<ReservedPortRange>,
}

/// The answer to a single-port reservation query: whether the port is
/// reserved, the first range holding it, and a short reason text.
pub struct PortReservedInfo {
    pub port: u16,
    pub is_reserved: bool,
    pub range: Option<ReservedPortRange>,
    pub reason: Option<String>,
}

/// Builds the reservation answer for one port against the given
/// ranges: reserved exactly when some range holds the port, reporting
/// the first such range and a fixed reason text.
pub fn port_reserved_info(port: u16, ranges: &Vec<ReservedPortRange>) -> (r: PortReservedInfo)
    ensures
        r.port == port,
        r.is_reserved == spec_in_ranges(ranges@, port),
        r.range == spec_first_containing(ranges@, port),
        r.is_reserved <==> (r.reason matches Some(m) && m@ == "Reserved by the system"@),
        !r.is_reserved ==> r.reason is None,
{
    let reserved = is_port_reserved(ranges, port);
    let n = ranges.len();
    let mut found: Option<ReservedPortRange> = None;
    let mut i: usize = 0;
    proof {
        assert(ranges@.skip(0) =~= ranges@);
    }
    loop
        invariant_except_break
            found is None,
        invariant
            n == ranges@.len(),
            0 <= i <= n,
            spec_first_containing(ranges@, port) == spec_first_containing(
                ranges@.skip(i as int),
                port,
            ),
        ensures
            spec_first_containing(ranges@, port) == found,
        decreases n - i,
    {
        if i == n {
            proof {
                assert(ranges@.skip(n as int) =~= Seq::<ReservedPortRange>::empty());
            }
            break ;
        }
        proof {
            assert(ranges@.skip(i as int).drop_first() =~= ranges@.skip(i + 1));
            assert(ranges@.skip(i as int)[0] == ranges@[i as int]);
        }
        if ranges[i].contains(port) {
            found = Some(ranges[i]);
            break ;
        }
        i += 1;
    }
    proof {
        if reserved {
            assert(found is Some) by {
                lemma_first_containing_some(ranges@, port);
            }
        }
    }
    PortReservedInfo {
        port,
        is_reserved: reserved,
        range: found,
        reason: if reserved {
            Some("Reserved by the system".to_owned())
        } else {
            None
        },
    }
}

proof fn lemma_first_containing_some(rs: Seq<ReservedPortRange>, port: u16)
    requires
        spec_in_ranges(rs, port),
    ensures
        spec_first_containing(rs, port) is Some,
    decreases rs.len(),
{
    if rs.len() == 0 {
    } else if rs[0].start_port <= port && port <= rs[0].end_port {
    } else {
        assert(spec_in_ranges(rs.drop_first(), port)) by {
            let i = choose|i: int|
                0 <= i < rs.len() && (#[trigger] rs[i]).start_port <= port && port
                    <= rs[i].end_port;
            assert(i > 0);
            assert(rs.drop_first()[i - 1] == rs[i]);
        }
        lemma_first_containing_some(rs.drop_first(), port);
    }
}

} // verus!
