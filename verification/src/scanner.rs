//! Port scanning: table acquisition through a platform provider,
//! process enrichment, deterministic ordering, and filtered queries.

use vstd::prelude::*;
use vstd::multiset::Multiset;
use vstd::seq_lib::lemma_multiset_commutative;
use crate::errors::AppResult;
use crate::port_info::{ConnectionState, PortInfo, PortRec, Protocol};
use crate::process_info::ProcessInfo;
use crate::text::{contains_bytes, lower_of, lowercase, spec_contains_bytes};
use crate::traits::{PortProvider, ProcessProvider};
use vstd::utf8::encode_utf8;

verus! {

/// Scan order: ascending port, and TCP before UDP on the same port.
pub open spec fn spec_le_record(a: PortRec, b: PortRec) -> bool {
    a.port < b.port || (a.port == b.port && (a.protocol == Protocol::TCP || b.protocol
        == Protocol::UDP))
}

/// The sequence is sorted in scan order.
pub open spec fn spec_sorted_views(s: Seq<PortInfo>) -> bool {
    forall|i: int, j: int|
        0 <= i < j < s.len() ==> spec_le_record((#[trigger] s[i])@, (#[trigger] s[j])@)
}

fn le_record(a: &PortInfo, b: &PortInfo) -> (r: bool)
    ensures
        r == spec_le_record(a@, b@),
{
    a.port < b.port || (a.port == b.port && (matches!(a.protocol, Protocol::TCP) || matches!(
        b.protocol,
        Protocol::UDP,
    )))
}

proof fn lemma_to_multiset_insert<A>(s: Seq<A>, i: int, x: A)
    requires
        0 <= i <= s.len(),
    ensures
        s.insert(i, x).to_multiset() =~= s.to_multiset().insert(x),
{
    broadcast use vstd::prelude::Seq::to_multiset_ensures;

    let pre = s.take(i);
    let post = s.skip(i);
    assert(s.insert(i, x) =~= pre + (seq![x] + post));
    assert(s =~= pre + post);
    lemma_multiset_commutative(pre, seq![x] + post);
    lemma_multiset_commutative(seq![x], post);
    lemma_multiset_commutative(pre, post);
    assert(seq![x] =~= Seq::<A>::empty().push(x));
    Seq::<A>::empty().to_multiset_ensures();
    assert(Seq::<A>::empty().to_multiset() =~= Multiset::<A>::empty()) by {
        broadcast use vstd::multiset::lemma_multiset_empty_len;

        assert(Seq::<A>::empty().to_multiset().len() == 0);
    }
    assert(Seq::<A>::empty().push(x).to_multiset() =~= Seq::<A>::empty().to_multiset().insert(x));
    assert(seq![x].to_multiset() =~= Multiset::<A>::empty().insert(x));
}

/// Sorts records by (port ascending, TCP before UDP): the result is a
/// permutation of the input, sorted in scan order.
pub fn sort_records(records: Vec<PortInfo>) -> (r: Vec<PortInfo>)
    ensures
        r@.len() == records@.len(),
        spec_sorted_views(r@),
        r@.to_multiset() == records@.to_multiset(),
{
    broadcast use vstd::prelude::Seq::to_multiset_ensures;

    let n = records.len();
    let mut out: Vec<PortInfo> = Vec::new();
    proof {
        assert(records@.take(0) =~= out@);
    }
    let mut i: usize = 0;
    while i < n
        invariant
            n == records@.len(),
            i <= n,
            out@.len() == i,
            spec_sorted_views(out@),
            out@.to_multiset() == records@.take(i as int).to_multiset(),
        decreases n - i,
    {
        let rec = records[i].clone();
        let m = out.len();
        let mut pos: usize = 0;
        loop
            invariant
                m == out@.len(),
                pos <= m,
                forall|j: int| 0 <= j < pos ==> spec_le_record((#[trigger] out@[j])@, rec@),
            ensures
                pos <= m,
                forall|j: int| 0 <= j < pos ==> spec_le_record((#[trigger] out@[j])@, rec@),
                pos < m ==> !spec_le_record(out@[pos as int]@, rec@),
            decreases m - pos,
        {
            if pos == m {
                break ;
            }
            if !le_record(&out[pos], &rec) {
                break ;
            }
            pos += 1;
        }
        let ghost pre = out@;
        out.insert(pos, rec);
        proof {
            assert(records@.take(i + 1) =~= records@.take(i as int).push(records@[i as int]));
            records@.take(i as int).to_multiset_ensures();
            assert(records@.take(i as int).push(records@[i as int]).to_multiset()
                =~= records@.take(i as int).to_multiset().insert(records@[i as int]));
            lemma_to_multiset_insert(pre, pos as int, rec);
            assert(spec_sorted_views(out@)) by {
                assert(forall|j: int| 0 <= j < pos ==> out@[j] == pre[j]);
                assert(forall|j: int| pos < j < out@.len() ==> out@[j] == pre[j - 1]);
                assert(out@[pos as int] == rec);
                assert(forall|j: int|
                    pos < j < out@.len() ==> spec_le_record(rec@, (#[trigger] out@[j])@));
            }
        }
        i += 1;
    }
    proof {
        assert(records@.take(n as int) =~= records@);
    }
    out
}

/// Whether the enriched record `b` is `a` with process metadata
/// possibly attached: every other field is unchanged, and an attached
/// record carries the port's owning pid.
pub open spec fn spec_enriched(a: PortRec, b: PortRec) -> bool {
    &&& b == (PortRec { process: b.process, ..a })
    &&& (b.process == a.process || (b.process matches Some(pr) && pr.pid == a.pid))
}

/// Folds one resolution result into one record: exactly when
/// resolution produced a record, it is attached; a missing process or
/// a resolution failure leaves the record as it was.
pub fn attach_process(rec: PortInfo, resolved: AppResult<Option<ProcessInfo>>) -> (r: PortInfo)
    ensures
        r@ == (PortRec {
            process: match resolved {
                Ok(Some(p)) => Some(p@),
                _ => rec@.process,
            },
            ..rec@
        }),
{
    let mut out = rec;
    match resolved {
        Ok(Some(process)) => {
            out.process = Some(process);
        },
        _ => {},
    }
    out
}

/// Attaches process metadata to each record, resolving the owning pid
/// through the provider and folding each answer in with
/// `attach_process`; a record whose process cannot be resolved is kept
/// unchanged rather than failing the scan.
pub fn enrich_records<P: ProcessProvider>(platform: &P, records: Vec<PortInfo>) -> (r: Vec<
    PortInfo,
>)
    ensures
        r@.len() == records@.len(),
        forall|i: int|
            0 <= i < r@.len() ==> spec_enriched(records@[i]@, (#[trigger] r@[i])@),
{
    let n = records.len();
    let mut out: Vec<PortInfo> = Vec::new();
    let mut i: usize = 0;
    while i < n
        invariant
            n == records@.len(),
            i <= n,
            out@.len() == i,
            forall|j: int|
                0 <= j < i ==> spec_enriched(records@[j]@, (#[trigger] out@[j])@),
        decreases n - i,
    {
        let rec = records[i].clone();
        let resolved = platform.get_process_info(rec.pid);
        let enriched = attach_process(rec, resolved);
        out.push(enriched);
        i += 1;
    }
    out
}

/// A record is in listening state.
pub open spec fn spec_is_listening_rec(p: PortRec) -> bool {
    p.state == ConnectionState::Listen || p.state == ConnectionState::Bound
}

/// The subsequence of records in listening state, in held order.
pub open spec fn spec_filter_listening(s: Seq<PortInfo>) -> Seq<PortInfo>
    decreases s.len(),
{
    if s.len() == 0 {
        Seq::empty()
    } else {
        let rest = spec_filter_listening(s.drop_last());
        if spec_is_listening_rec(s.last()@) {
            rest.push(s.last())
        } else {
            rest
        }
    }
}

/// The records in listening state, in held order.
pub fn filter_listening(records: Vec<PortInfo>) -> (r: Vec<PortInfo>)
    ensures
        r@ == spec_filter_listening(records@),
{
    let n = records.len();
    let mut out: Vec<PortInfo> = Vec::new();
    let mut i: usize = 0;
    while i < n
        invariant
            n == records@.len(),
            i <= n,
            out@ == spec_filter_listening(records@.take(i as int)),
        decreases n - i,
    {
        let keep = records[i].state.is_listening();
        proof {
            assert(records@.take(i + 1).drop_last() =~= records@.take(i as int));
            assert(records@.take(i + 1).last() == records@[i as int]);
        }
        if keep {
            let rec = records[i].clone();
            out.push(rec);
        }
        i += 1;
    }
    proof {
        assert(records@.take(n as int) =~= records@);
    }
    out
}

/// Every record the listening filter keeps is in listening state.
pub proof fn lemma_filter_listening_all(s: Seq<PortInfo>)
    ensures
        forall|i: int|
            0 <= i < spec_filter_listening(s).len() ==> spec_is_listening_rec(
                (#[trigger] spec_filter_listening(s)[i])@,
            ),
    decreases s.len(),
{
    if s.len() == 0 {
    } else {
        lemma_filter_listening_all(s.drop_last());
        let rest = spec_filter_listening(s.drop_last());
        let all = spec_filter_listening(s);
        assert forall|i: int| 0 <= i < all.len() implies spec_is_listening_rec(
            (#[trigger] all[i])@,
        ) by {
            if i < rest.len() {
                assert(all[i] == rest[i]);
            } else {
                assert(all[i] == s.last());
            }
        }
    }
}

/// Whether a record matches a port query: the port is equal and, when
/// a protocol is given, the protocol is equal too.
pub open spec fn spec_port_query(p: PortRec, port: u16, protocol: Option<Protocol>) -> bool {
    p.port == port && match protocol {
        Some(q) => p.protocol == q,
        None => true,
    }
}

/// The subsequence of records matching a port query, in held order.
pub open spec fn spec_filter_port(
    s: Seq<PortInfo>,
    port: u16,
    protocol: Option<Protocol>,
) -> Seq<PortInfo>
    decreases s.len(),
{
    if s.len() == 0 {
        Seq::empty()
    } else {
        let rest = spec_filter_port(s.drop_last(), port, protocol);
        if spec_port_query(s.last()@, port, protocol) {
            rest.push(s.last())
        } else {
            rest
        }
    }
}

/// The records holding the queried port (and protocol, if given), in
/// held order.
pub fn filter_by_port(records: Vec<PortInfo>, port: u16, protocol: Option<Protocol>) -> (r: Vec<
    PortInfo,
>)
    ensures
        r@ == spec_filter_port(records@, port, protocol),
{
    let n = records.len();
    let mut out: Vec<PortInfo> = Vec::new();
    let mut i: usize = 0;
    while i < n
        invariant
            n == records@.len(),
            i <= n,
            out@ == spec_filter_port(records@.take(i as int), port, protocol),
        decreases n - i,
    {
        let rec = &records[i];
        let keep = rec.port == port && match protocol {
            Some(q) => rec.protocol == q,
            None => true,
        };
        proof {
            assert(records@.take(i + 1).drop_last() =~= records@.take(i as int));
            assert(records@.take(i + 1).last() == records@[i as int]);
        }
        if keep {
            let kept = records[i].clone();
            out.push(kept);
        }
        i += 1;
    }
    proof {
        assert(records@.take(n as int) =~= records@);
    }
    out
}

/// Every record the port filter keeps matches the port query.
pub proof fn lemma_filter_port_all(s: Seq<PortInfo>, port: u16, protocol: Option<Protocol>)
    ensures
        forall|i: int|
            0 <= i < spec_filter_port(s, port, protocol).len() ==> spec_port_query(
                (#[trigger] spec_filter_port(s, port, protocol)[i])@,
                port,
                protocol,
            ),
    decreases s.len(),
{
    if s.len() == 0 {
    } else {
        lemma_filter_port_all(s.drop_last(), port, protocol);
        let rest = spec_filter_port(s.drop_last(), port, protocol);
        let all = spec_filter_port(s, port, protocol);
        assert forall|i: int| 0 <= i < all.len() implies spec_port_query(
            (#[trigger] all[i])@,
            port,
            protocol,
        ) by {
            if i < rest.len() {
                assert(all[i] == rest[i]);
            } else {
                assert(all[i] == s.last());
            }
        }
    }
}

/// The subsequence of records owned by a pid, in held order.
pub open spec fn spec_filter_pid(s: Seq<PortInfo>, pid: u32) -> Seq<PortInfo>
    decreases s.len(),
{
    if s.len() == 0 {
        Seq::empty()
    } else {
        let rest = spec_filter_pid(s.drop_last(), pid);
        if s.last()@.pid == pid {
            rest.push(s.last())
        } else {
            rest
        }
    }
}

/// The records owned by the pid, in held order.
pub fn filter_by_pid(records: Vec<PortInfo>, pid: u32) -> (r: Vec<PortInfo>)
    ensures
        r@ == spec_filter_pid(records@, pid),
{
    let n = records.len();
    let mut out: Vec<PortInfo> = Vec::new();
    let mut i: usize = 0;
    while i < n
        invariant
            n == records@.len(),
            i <= n,
            out@ == spec_filter_pid(records@.take(i as int), pid),
        decreases n - i,
    {
        let keep = records[i].pid == pid;
        proof {
            assert(records@.take(i + 1).drop_last() =~= records@.take(i as int));
            assert(records@.take(i + 1).last() == records@[i as int]);
        }
        if keep {
            let kept = records[i].clone();
            out.push(kept);
        }
        i += 1;
    }
    proof {
        assert(records@.take(n as int) =~= records@);
    }
    out
}

/// Every record the pid filter keeps is owned by the pid.
pub proof fn lemma_filter_pid_all(s: Seq<PortInfo>, pid: u32)
    ensures
        forall|i: int|
            0 <= i < spec_filter_pid(s, pid).len() ==> (#[trigger] spec_filter_pid(s, pid)[i])@.pid
                == pid,
    decreases s.len(),
{
    if s.len() == 0 {
    } else {
        lemma_filter_pid_all(s.drop_last(), pid);
    }
}

/// Whether a record's process name contains the query, both lowered:
/// the case-insensitive name match of a process-name query.
pub open spec fn spec_name_matches(p: PortRec, query: Seq<char>) -> bool {
    match p.process {
        Some(pr) => spec_contains_bytes(
            encode_utf8(lower_of(pr.name)),
            encode_utf8(lower_of(query)),
        ),
        None => false,
    }
}

/// The subsequence of records whose process name contains the query,
/// compared in lowercase, in held order.
pub open spec fn spec_filter_name(s: Seq<PortInfo>, query: Seq<char>) -> Seq<PortInfo>
    decreases s.len(),
{
    if s.len() == 0 {
        Seq::empty()
    } else {
        let rest = spec_filter_name(s.drop_last(), query);
        if spec_name_matches(s.last()@, query) {
            rest.push(s.last())
        } else {
            rest
        }
    }
}

/// The records whose process name contains the query, compared in
/// lowercase, in held order. A record without process metadata never
/// matches.
pub fn filter_by_name(records: Vec<PortInfo>, name: &str) -> (r: Vec<PortInfo>)
    ensures
        r@ == spec_filter_name(records@, name@),
{
    let name_lower = lowercase(name);
    let n = records.len();
    let mut out: Vec<PortInfo> = Vec::new();
    let mut i: usize = 0;
    while i < n
        invariant
            n == records@.len(),
            i <= n,
            name_lower@ == lower_of(name@),
            out@ == spec_filter_name(records@.take(i as int), name@),
        decreases n - i,
    {
        let keep = match &records[i].process {
            Some(pr) => {
                let proc_lower = lowercase(pr.name.as_str());
                contains_bytes(proc_lower.as_str().as_bytes(), name_lower.as_str().as_bytes())
            },
            None => false,
        };
        proof {
            assert(records@.take(i + 1).drop_last() =~= records@.take(i as int));
            assert(records@.take(i + 1).last() == records@[i as int]);
            assert(keep == spec_name_matches(records@[i as int]@, name@));
        }
        if keep {
            let kept = records[i].clone();
            out.push(kept);
        }
        i += 1;
    }
    proof {
        assert(records@.take(n as int) =~= records@);
    }
    out
}

/// Every record the name filter keeps matches the name query.
pub proof fn lemma_filter_name_all(s: Seq<PortInfo>, query: Seq<char>)
    ensures
        forall|i: int|
            0 <= i < spec_filter_name(s, query).len() ==> spec_name_matches(
                (#[trigger] spec_filter_name(s, query)[i])@,
                query,
            ),
    decreases s.len(),
{
    if s.len() == 0 {
    } else {
        lemma_filter_name_all(s.drop_last(), query);
        let rest = spec_filter_name(s.drop_last(), query);
        let all = spec_filter_name(s, query);
        assert forall|i: int| 0 <= i < all.len() implies spec_name_matches(
            (#[trigger] all[i])@,
            query,
        ) by {
            if i < rest.len() {
                assert(all[i] == rest[i]);
            } else {
                assert(all[i] == s.last());
            }
        }
    }
}

/// Orchestrates scans over a platform provider: acquires the tables,
/// enriches each record with process metadata, and answers filtered
/// queries.
pub struct PortScanner<P> {
    pub platform: P,
}

impl<P: PortProvider + ProcessProvider> PortScanner<P> {
    /// Creates a scanner over the given platform backend.
    pub fn new(platform: P) -> (r: Self)
        ensures
            r.platform == platform,
    {
        PortScanner { platform }
    }

    /// Scans all ports (TCP and UDP, both families), attaches process
    /// metadata where it resolves, and sorts by (port, TCP first).
    pub fn scan_all(&self) -> (r: AppResult<Vec<PortInfo>>)
        ensures
            r matches Ok(v) ==> spec_sorted_views(v@),
    {
        let ports = match self.platform.get_all_ports() {
            Ok(p) => p,
            Err(e) => {
                return Err(e);
            },
        };
        let enriched = enrich_records(&self.platform, ports);
        Ok(sort_records(enriched))
    }

    /// Scans and keeps only records in listening state.
    pub fn scan_listening(&self) -> (r: AppResult<Vec<PortInfo>>)
        ensures
            r matches Ok(v) ==> forall|i: int|
                0 <= i < v@.len() ==> spec_is_listening_rec((#[trigger] v@[i])@),
    {
        let all = match self.scan_all() {
            Ok(p) => p,
            Err(e) => {
                return Err(e);
            },
        };
        let kept = filter_listening(all);
        proof {
            lemma_filter_listening_all(all@);
        }
        Ok(kept)
    }

    /// Scans and keeps only records on the given port, and protocol
    /// when one is given.
    pub fn query_port(&self, port: u16, protocol: Option<Protocol>) -> (r: AppResult<Vec<
        PortInfo,
    >>)
        ensures
            r matches Ok(v) ==> forall|i: int|
                0 <= i < v@.len() ==> spec_port_query((#[trigger] v@[i])@, port, protocol),
    {
        let all = match self.scan_all() {
            Ok(p) => p,
            Err(e) => {
                return Err(e);
            },
        };
        let kept = filter_by_port(all, port, protocol);
        proof {
            lemma_filter_port_all(all@, port, protocol);
        }
        Ok(kept)
    }

    /// Scans and keeps only records owned by the pid.
    pub fn query_by_pid(&self, pid: u32) -> (r: AppResult<Vec<PortInfo>>)
        ensures
            r matches Ok(v) ==> forall|i: int| 0 <= i < v@.len() ==> (#[trigger] v@[i])@.pid
                == pid,
    {
        let all = match self.scan_all() {
            Ok(p) => p,
            Err(e) => {
                return Err(e);
            },
        };
        let kept = filter_by_pid(all, pid);
        proof {
            lemma_filter_pid_all(all@, pid);
        }
        Ok(kept)
    }

    /// Scans and keeps only records whose process name contains the
    /// query, case-insensitively.
    pub fn query_by_process_name(&self, name: &str) -> (r: AppResult<Vec<PortInfo>>)
        ensures
            r matches Ok(v) ==> forall|i: int|
                0 <= i < v@.len() ==> spec_name_matches((#[trigger] v@[i])@, name@),
    {
        let all = match self.scan_all() {
            Ok(p) => p,
            Err(e) => {
                return Err(e);
            },
        };
        let kept = filter_by_name(all, name);
        proof {
            lemma_filter_name_all(all@, name@);
        }
        Ok(kept)
    }
}

} // verus!
