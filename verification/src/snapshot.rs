//! Point-in-time snapshots of the port inventory, keyed by
//! (port, protocol).

use vstd::prelude::*;
use vstd::pervasive::VecAdditionalExecFns;
use crate::port_info::{PortInfo, PortRec, Protocol, spec_key};

verus! {

/// The mapping denoted by a sequence of records: keys are
/// (port, protocol) and, for duplicate keys, the last record wins.
pub open spec fn spec_snap_map(s: Seq<PortRec>) -> Map<(u16, Protocol), PortRec>
    decreases s.len(),
{
    if s.len() == 0 {
        Map::empty()
    } else {
        spec_snap_map(s.drop_last()).insert(spec_key(s.last()), s.last())
    }
}

/// No two records share a (port, protocol) key.
pub open spec fn spec_unique_keys(s: Seq<PortRec>) -> bool {
    forall|i: int, j: int|
        0 <= i < j < s.len() ==> spec_key(#[trigger] s[i]) != spec_key(#[trigger] s[j])
}

/// A key is in the mapping exactly when some record carries it.
pub proof fn lemma_snap_map_contains(s: Seq<PortRec>, k: (u16, Protocol))
    ensures
        spec_snap_map(s).contains_key(k) <==> exists|i: int|
            0 <= i < s.len() && spec_key(#[trigger] s[i]) == k,
    decreases s.len(),
{
    if s.len() == 0 {
    } else {
        lemma_snap_map_contains(s.drop_last(), k);
        if spec_key(s.last()) == k {
            assert(spec_key(s[s.len() - 1]) == k);
        } else if spec_snap_map(s).contains_key(k) {
            let i = choose|i: int| 0 <= i < s.drop_last().len() && spec_key(
                #[trigger] s.drop_last()[i],
            ) == k;
            assert(spec_key(s[i]) == k);
        } else if exists|i: int| 0 <= i < s.len() && spec_key(#[trigger] s[i]) == k {
            let i = choose|i: int| 0 <= i < s.len() && spec_key(#[trigger] s[i]) == k;
            assert(i < s.len() - 1);
            assert(spec_key(s.drop_last()[i]) == k);
        }
    }
}

/// Under unique keys, the mapping sends each record's key to that record.
pub proof fn lemma_snap_map_at(s: Seq<PortRec>, i: int)
    requires
        spec_unique_keys(s),
        0 <= i < s.len(),
    ensures
        spec_snap_map(s).contains_key(spec_key(s[i])),
        spec_snap_map(s)[spec_key(s[i])] == s[i],
    decreases s.len(),
{
    if i == s.len() - 1 {
    } else {
        assert(spec_unique_keys(s.drop_last())) by {
            assert(forall|x: int, y: int|
                0 <= x < y < s.drop_last().len() ==> spec_key(#[trigger] s.drop_last()[x])
                    != spec_key(#[trigger] s.drop_last()[y])) by {
                assert(forall|x: int|
                    0 <= x < s.drop_last().len() ==> #[trigger] s.drop_last()[x] == s[x]);
            }
        }
        lemma_snap_map_at(s.drop_last(), i);
        assert(s.drop_last()[i] == s[i]);
        assert(spec_key(s[i]) != spec_key(s.last()));
    }
}

/// Replacing the record at a key's index updates the mapping at that
/// key alone.
proof fn lemma_snap_map_update(s: Seq<PortRec>, j: int, r: PortRec)
    requires
        spec_unique_keys(s),
        0 <= j < s.len(),
        spec_key(r) == spec_key(s[j]),
    ensures
        spec_snap_map(s.update(j, r)) =~= spec_snap_map(s).insert(spec_key(r), r),
    decreases s.len(),
{
    let t = s.update(j, r);
    if j == s.len() - 1 {
        assert(t.drop_last() =~= s.drop_last());
        assert(t.last() == r);
    } else {
        assert(spec_unique_keys(s.drop_last())) by {
            assert(forall|x: int|
                0 <= x < s.drop_last().len() ==> #[trigger] s.drop_last()[x] == s[x]);
        }
        assert(t.drop_last() =~= s.drop_last().update(j, r));
        assert(t.last() == s.last());
        lemma_snap_map_update(s.drop_last(), j, r);
        assert(spec_key(r) != spec_key(s.last()));
    }
}

/// A point-in-time snapshot: the complete set of port records at one
/// poll instant, with unique (port, protocol) keys. Its mathematical
/// value is the mapping from key to record. Constructors establish and
/// methods keep `wf`; methods require it.
pub struct Snapshot {
    pub records: Vec<PortInfo>,
}

impl View for Snapshot {
    type V = Map<(u16, Protocol), PortRec>;

    open spec fn view(&self) -> Map<(u16, Protocol), PortRec> {
        spec_snap_map(self.spec_records())
    }
}

impl Snapshot {
    /// The records held, as mathematical values, in held order.
    pub open spec fn spec_records(&self) -> Seq<PortRec> {
        Seq::new(self.records@.len(), |i: int| self.records@[i]@)
    }

    /// Key uniqueness, established by every constructor and kept by
    /// every method.
    pub open spec fn wf(&self) -> bool {
        spec_unique_keys(self.spec_records())
    }

    /// Creates an empty snapshot.
    pub fn new() -> (r: Self)
        ensures
            r.wf(),
            r.spec_records() =~= Seq::<PortRec>::empty(),
            r@ =~= Map::<(u16, Protocol), PortRec>::empty(),
    {
        Snapshot { records: Vec::new() }
    }

    /// Number of records held.
    pub fn len(&self) -> (n: usize)
        ensures
            n == self.spec_records().len(),
    {
        self.records.len()
    }

    /// Looks up the record holding the given key, if any.
    pub fn find(&self, port: u16, protocol: Protocol) -> (r: Option<&PortInfo>)
        requires
            self.wf(),
        ensures
            match r {
                Some(p) => self@.contains_key((port, protocol)) && p@ == self@[(port, protocol)],
                None => !self@.contains_key((port, protocol)),
            },
    {
        let n = self.records.len();
        let mut i: usize = 0;
        while i < n
            invariant
                self.wf(),
                n == self.records@.len(),
                i <= n,
                forall|j: int| 0 <= j < i ==> spec_key(self.spec_records()[j]) != (port, protocol),
            decreases n - i,
        {
            let p = &self.records[i];
            if p.port == port && p.protocol == protocol {
                proof {
                    lemma_snap_map_at(self.spec_records(), i as int);
                }
                return Some(p);
            }
            i += 1;
        }
        proof {
            lemma_snap_map_contains(self.spec_records(), (port, protocol));
        }
        None
    }

    /// Builds a snapshot from scanned records. Records are keyed by
    /// (port, protocol); for a key seen more than once, the last
    /// record wins.
    pub fn from_records(records: Vec<PortInfo>) -> (r: Snapshot)
        ensures
            r.wf(),
            r@ == spec_snap_map(Seq::new(records@.len(), |i: int| records@[i]@)),
    {
        let ghost input = Seq::new(records@.len(), |i: int| records@[i]@);
        let mut out = Snapshot::new();
        let n = records.len();
        let mut i: usize = 0;
        while i < n
            invariant
                n == records@.len(),
                i <= n,
                out.wf(),
                input == Seq::new(records@.len(), |j: int| records@[j]@),
                out@ == spec_snap_map(input.take(i as int)),
            decreases n - i,
        {
            let rec = records[i].clone();
            proof {
                assert(input.take(i + 1).drop_last() =~= input.take(i as int));
                assert(input.take(i + 1).last() == rec@);
            }
            out.insert_record(rec);
            i += 1;
        }
        proof {
            assert(input.take(n as int) =~= input);
        }
        out
    }

    /// Inserts one record, replacing any record with the same key.
    fn insert_record(&mut self, rec: PortInfo)
        requires
            old(self).wf(),
        ensures
            final(self).wf(),
            final(self)@ == old(self)@.insert(spec_key(rec@), rec@),
    {
        let n = self.records.len();
        let mut i: usize = 0;
        while i < n
            invariant
                n == self.records@.len(),
                i <= n,
                self.wf(),
                *self == *old(self),
                forall|j: int|
                    0 <= j < i ==> spec_key(self.spec_records()[j]) != spec_key(rec@),
            decreases n - i,
        {
            let same = {
                let p = &self.records[i];
                p.port == rec.port && p.protocol == rec.protocol
            };
            if same {
                let ghost pre = self.spec_records();
                self.records.set(i, rec);
                proof {
                    assert(self.spec_records() =~= pre.update(i as int, rec@));
                    lemma_snap_map_update(pre, i as int, rec@);
                    assert(spec_unique_keys(self.spec_records())) by {
                        assert(forall|x: int|
                            0 <= x < pre.len() && x != i ==> self.spec_records()[x] == pre[x]);
                        assert(spec_key(self.spec_records()[i as int]) == spec_key(pre[i as int]));
                    }
                }
                return ;
            }
            i += 1;
        }
        let ghost pre = self.spec_records();
        self.records.push(rec);
        proof {
            assert(self.spec_records() =~= pre.push(rec@));
            assert(self.spec_records().drop_last() =~= pre);
            assert(spec_unique_keys(self.spec_records())) by {
                assert(forall|x: int| 0 <= x < pre.len() ==> self.spec_records()[x] == pre[x]);
            }
        }
    }

    /// Removes every record.
    pub fn clear(&mut self)
        ensures
            final(self).wf(),
            final(self)@ =~= Map::<(u16, Protocol), PortRec>::empty(),
            final(self).spec_records().len() == 0,
    {
        self.records.clear();
        proof {
            assert(self.spec_records() =~= Seq::<PortRec>::empty());
        }
    }
}

} // verus!
