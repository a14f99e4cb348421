//! Textual form of IPv4 and IPv6 addresses.
//!
//! IPv4 addresses render as dotted decimal. IPv6 addresses render as
//! colon-separated lowercase hexadecimal groups with the leftmost longest
//! run of two or more zero groups compressed to `::`, and with the
//! IPv4-mapped prefix rendered as `::ffff:` followed by the embedded
//! IPv4 address.

use vstd::prelude::*;
use vstd::string::StringExecFns;
use crate::text::{dec_u32, hex_u16, spec_dec, spec_hex};

verus! {

/// Dotted-decimal text of an IPv4 address given as its four octets.
pub open spec fn spec_ipv4(a: u8, b: u8, c: u8, d: u8) -> Seq<char> {
    spec_dec(a as nat) + seq!['.'] + spec_dec(b as nat) + seq!['.'] + spec_dec(c as nat)
        + seq!['.'] + spec_dec(d as nat)
}

/// Renders an IPv4 address as dotted decimal.
pub fn ipv4_string(a: u8, b: u8, c: u8, d: u8) -> (r: String)
    ensures
        r@ == spec_ipv4(a, b, c, d),
{
    proof {
        reveal_strlit(".");
    }
    let mut s = dec_u32(a as u32);
    s.append(".");
    let sb = dec_u32(b as u32);
    s.append(sb.as_str());
    s.append(".");
    let sc = dec_u32(c as u32);
    s.append(sc.as_str());
    s.append(".");
    let sd = dec_u32(d as u32);
    s.append(sd.as_str());
    proof {
        assert("."@ =~= seq!['.']);
        assert(s@ =~= spec_ipv4(a, b, c, d));
    }
    s
}

/// The eight 16-bit groups of an IPv6 address given as its 16 bytes,
/// in network byte order.
pub open spec fn spec_groups(b: Seq<u8>) -> Seq<u16> {
    Seq::new(8, |i: int| (b[2 * i] * 256 + b[2 * i + 1]) as u16)
}

/// Length of the run of zero groups starting at index `i`.
pub open spec fn spec_zero_run_len(g: Seq<u16>, i: int) -> int
    decreases g.len() - i,
{
    if i < 0 || i >= g.len() || g[i] != 0 {
        0
    } else {
        1 + spec_zero_run_len(g, i + 1)
    }
}

/// The leftmost index in `i..=g.len()` whose zero run is longest; the
/// sentinel index `g.len()` has a run of length zero.
pub open spec fn spec_best_zero_start(g: Seq<u16>, i: int) -> int
    decreases g.len() - i,
{
    if i >= g.len() {
        g.len() as int
    } else {
        let rest = spec_best_zero_start(g, i + 1);
        if spec_zero_run_len(g, i) >= spec_zero_run_len(g, rest) {
            i
        } else {
            rest
        }
    }
}

/// Colon-separated lowercase hexadecimal text of a sequence of groups.
pub open spec fn spec_hex_groups(g: Seq<u16>) -> Seq<char>
    decreases g.len(),
{
    if g.len() == 0 {
        Seq::empty()
    } else if g.len() == 1 {
        spec_hex(g[0] as nat)
    } else {
        spec_hex_groups(g.drop_last()) + seq![':'] + spec_hex(g.last() as nat)
    }
}

/// Whether the groups carry the IPv4-mapped prefix `::ffff:0:0/96`.
pub open spec fn spec_is_ipv4_mapped(g: Seq<u16>) -> bool {
    g[0] == 0 && g[1] == 0 && g[2] == 0 && g[3] == 0 && g[4] == 0 && g[5] == 0xffff
}

/// Text of an IPv6 address given as its 16 bytes in network byte order.
pub open spec fn spec_ipv6(b: Seq<u8>) -> Seq<char> {
    let g = spec_groups(b);
    if spec_is_ipv4_mapped(g) {
        seq![':', ':', 'f', 'f', 'f', 'f', ':'] + spec_ipv4(b[12], b[13], b[14], b[15])
    } else {
        let s = spec_best_zero_start(g, 0);
        let l = spec_zero_run_len(g, s);
        if l > 1 {
            spec_hex_groups(g.subrange(0, s)) + seq![':', ':'] + spec_hex_groups(
                g.subrange(s + l, g.len() as int),
            )
        } else {
            spec_hex_groups(g)
        }
    }
}

fn hex_groups(g: &Vec<u16>, from: usize, to: usize) -> (r: String)
    requires
        from <= to <= g@.len(),
    ensures
        r@ == spec_hex_groups(g@.subrange(from as int, to as int)),
{
    proof {
        reveal_strlit(":");
    }
    let mut s = String::new();
    let mut i: usize = from;
    while i < to
        invariant
            from <= i <= to <= g@.len(),
            s@ == spec_hex_groups(g@.subrange(from as int, i as int)),
            ":"@ == seq![':'],
        decreases to - i,
    {
        let hx = hex_u16(g[i]);
        if i > from {
            s.append(":");
        }
        s.append(hx.as_str());
        proof {
            let pre = g@.subrange(from as int, i as int);
            let cur = g@.subrange(from as int, i + 1 as int);
            assert(cur.drop_last() =~= pre);
            assert(cur.last() == g@[i as int]);
            if i > from {
                assert(s@ =~= spec_hex_groups(cur));
            } else {
                assert(cur.len() == 1);
                assert(s@ =~= spec_hex_groups(cur));
            }
        }
        i += 1;
    }
    proof {
        if from == to {
            assert(g@.subrange(from as int, to as int).len() == 0);
        }
    }
    s
}

/// Renders an IPv6 address from its 16 bytes in network byte order.
pub fn ipv6_string(b: &[u8]) -> (r: String)
    requires
        b@.len() == 16,
    ensures
        r@ == spec_ipv6(b@),
{
    let ghost gs = spec_groups(b@);
    let mut g: Vec<u16> = Vec::new();
    let mut i: usize = 0;
    while i < 8
        invariant
            b@.len() == 16,
            i <= 8,
            g@.len() == i,
            forall|j: int| 0 <= j < i ==> g@[j] == spec_groups(b@)[j],
        decreases 8 - i,
    {
        let hi = b[2 * i];
        let lo = b[2 * i + 1];
        g.push((hi as u16) * 256 + (lo as u16));
        i += 1;
    }
    proof {
        assert(g@ =~= gs);
    }
    if g[0] == 0 && g[1] == 0 && g[2] == 0 && g[3] == 0 && g[4] == 0 && g[5] == 0xffff {
        proof {
            reveal_strlit("::ffff:");
        }
        let mut s = String::new();
        s.append("::ffff:");
        let v4 = ipv4_string(b[12], b[13], b[14], b[15]);
        s.append(v4.as_str());
        proof {
            assert("::ffff:"@ =~= seq![':', ':', 'f', 'f', 'f', 'f', ':']);
            assert(s@ =~= spec_ipv6(b@));
        }
        return s;
    }
    // Zero-run lengths, computed from the right; run[8] is the sentinel.
    let mut run: Vec<usize> = Vec::new();
    let mut k: usize = 0;
    while k < 9
        invariant
            k <= 9,
            run@.len() == k,
            g@.len() == 8,
            g@ == gs,
            forall|j: int| 0 <= j < k ==> run@[j] == spec_zero_run_len(gs, 8 - j),
        decreases 9 - k,
    {
        if k == 0 {
            run.push(0);
        } else {
            let idx = 8 - k;
            if g[idx] == 0 {
                let prev = run[k - 1];
                assert(prev == spec_zero_run_len(gs, 8 - (k - 1)));
                assert(prev <= 8) by {
                    lemma_zero_run_len_bound(gs, 8 - (k as int - 1));
                }
                run.push(prev + 1);
            } else {
                run.push(0);
            }
        }
        k += 1;
    }
    // run@[8 - i] == spec_zero_run_len(gs, i)
    let mut best: usize = 8;
    let mut i2: usize = 8;
    while i2 > 0
        invariant
            run@.len() == 9,
            g@.len() == 8,
            g@ == gs,
            forall|j: int| 0 <= j < 9 ==> run@[j] == spec_zero_run_len(gs, 8 - j),
            i2 <= 8,
            best == spec_best_zero_start(gs, i2 as int),
            best <= 8,
        decreases i2,
    {
        let i3 = i2 - 1;
        if run[8 - i3] >= run[8 - best] {
            best = i3;
        }
        i2 = i3;
    }
    let l = run[8 - best];
    assert(l == spec_zero_run_len(gs, best as int));
    if l > 1 {
        proof {
            reveal_strlit("::");
            lemma_zero_run_len_bound(gs, best as int);
        }
        let mut s = hex_groups(&g, 0, best);
        s.append("::");
        let tail = hex_groups(&g, best + l, 8);
        s.append(tail.as_str());
        proof {
            assert("::"@ =~= seq![':', ':']);
            assert(s@ =~= spec_ipv6(b@));
        }
        s
    } else {
        let s = hex_groups(&g, 0, 8);
        proof {
            assert(gs.subrange(0, 8) =~= gs);
            assert(s@ =~= spec_ipv6(b@));
        }
        s
    }
}

proof fn lemma_zero_run_len_bound(g: Seq<u16>, i: int)
    ensures
        spec_zero_run_len(g, i) >= 0,
        0 <= i <= g.len() ==> spec_zero_run_len(g, i) + i <= g.len(),
    decreases g.len() - i,
{
    if i < 0 || i >= g.len() || g[i] != 0 {
    } else {
        lemma_zero_run_len_bound(g, i + 1);
    }
}

/// Renders an IPv6 address wrapped in brackets.
pub fn ipv6_bracketed(b: &[u8]) -> (r: String)
    requires
        b@.len() == 16,
    ensures
        r@ == seq!['['] + spec_ipv6(b@) + seq![']'],
{
    proof {
        reveal_strlit("[");
        reveal_strlit("]");
    }
    let mut s = String::new();
    s.append("[");
    let inner = ipv6_string(b);
    s.append(inner.as_str());
    s.append("]");
    proof {
        assert("["@ =~= seq!['[']);
        assert("]"@ =~= seq![']']);
        assert(s@ =~= seq!['['] + spec_ipv6(b@) + seq![']']);
    }
    s
}

} // verus!
