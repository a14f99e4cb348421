//! Stateful port monitoring: snapshot diffing and the adaptive
//! polling schedule.

use vstd::prelude::*;
use crate::errors::AppResult;
use crate::port_info::{PortChange, PortInfo, PortRec, Protocol, spec_key};
use crate::scanner::PortScanner;
use crate::snapshot::{Snapshot, spec_snap_map, spec_unique_keys};
use crate::traits::{PortProvider, ProcessProvider};

verus! {

/// Monitoring configuration: base poll interval, multiplier cap for
/// the idle backoff, and whether only listening ports are watched.
#[derive(Debug, Clone, Copy)]
pub struct MonitorConfig {
    pub interval_ms: u64,
    pub max_backoff: u32,
    pub listen_only: bool,
}

impl MonitorConfig {
    /// The configuration leaves room for the largest backed-off
    /// interval, `interval_ms * (1 + max_backoff)`.
    pub open spec fn wf(&self) -> bool {
        self.interval_ms * (1 + self.max_backoff as int) <= u64::MAX
    }
}

impl Default for MonitorConfig {
    /// The default configuration: poll every two seconds, back off up
    /// to five extra intervals, watch all ports.
    fn default() -> (r: Self)
        ensures
            r.interval_ms == 2000,
            r.max_backoff == 5,
            !r.listen_only,
            r.wf(),
    {
        MonitorConfig { interval_ms: 2000, max_backoff: 5, listen_only: false }
    }
}

/// Whether a record with the same key counts as changed between two
/// snapshots: its owning pid or its connection state differs.
pub open spec fn spec_changed_pair(old: PortRec, new: PortRec) -> bool {
    old.pid != new.pid || old.state != new.state
}

/// The records of the current snapshot whose key is absent from the
/// previous mapping, in held order.
pub open spec fn spec_diff_added(
    prev: Map<(u16, Protocol), PortRec>,
    cur: Seq<PortRec>,
) -> Seq<PortRec>
    decreases cur.len(),
{
    if cur.len() == 0 {
        Seq::empty()
    } else {
        let rest = spec_diff_added(prev, cur.drop_last());
        if !prev.contains_key(spec_key(cur.last())) {
            rest.push(cur.last())
        } else {
            rest
        }
    }
}

/// The records of the current snapshot whose key the previous mapping
/// holds with a different pid or state, in held order.
pub open spec fn spec_diff_changed(
    prev: Map<(u16, Protocol), PortRec>,
    cur: Seq<PortRec>,
) -> Seq<PortRec>
    decreases cur.len(),
{
    if cur.len() == 0 {
        Seq::empty()
    } else {
        let rest = spec_diff_changed(prev, cur.drop_last());
        let r = cur.last();
        if prev.contains_key(spec_key(r)) && spec_changed_pair(prev[spec_key(r)], r) {
            rest.push(r)
        } else {
            rest
        }
    }
}

/// The records of the previous snapshot whose key is absent from the
/// current mapping, in held order.
pub open spec fn spec_diff_removed(
    prev: Seq<PortRec>,
    cur: Map<(u16, Protocol), PortRec>,
) -> Seq<PortRec>
    decreases prev.len(),
{
    if prev.len() == 0 {
        Seq::empty()
    } else {
        let rest = spec_diff_removed(prev.drop_last(), cur);
        if !cur.contains_key(spec_key(prev.last())) {
            rest.push(prev.last())
        } else {
            rest
        }
    }
}

/// The idle counter after one empty poll: one more, saturating at the
/// configured cap.
pub open spec fn spec_next_idle(idle: u32, max_backoff: u32) -> u32 {
    if idle < max_backoff {
        (idle + 1) as u32
    } else {
        max_backoff
    }
}

/// The idle counter after `k` consecutive empty polls, starting from
/// a fresh (or just-active) monitor.
pub open spec fn spec_idle_after(k: nat, max_backoff: u32) -> u32
    decreases k,
{
    if k == 0 {
        0
    } else {
        spec_next_idle(spec_idle_after((k - 1) as nat, max_backoff), max_backoff)
    }
}

/// Idle-backoff saturation: after `k` consecutive empty polls the
/// idle counter equals `min(k, max_backoff)` and never exceeds the
/// cap.
pub proof fn lemma_idle_backoff_saturation(k: nat, max_backoff: u32)
    ensures
        spec_idle_after(k, max_backoff) == if k <= max_backoff {
            k as u32
        } else {
            max_backoff
        },
        spec_idle_after(k, max_backoff) <= max_backoff,
    decreases k,
{
    if k == 0 {
    } else {
        lemma_idle_backoff_saturation((k - 1) as nat, max_backoff);
    }
}

/// The set of keys carried by a sequence of records.
pub open spec fn spec_keys(s: Seq<PortRec>) -> Set<(u16, Protocol)>
    decreases s.len(),
{
    if s.len() == 0 {
        Set::empty()
    } else {
        spec_keys(s.drop_last()).insert(spec_key(s.last()))
    }
}

/// A key is in `spec_keys(s)` exactly when some record carries it.
pub proof fn lemma_keys_contains(s: Seq<PortRec>, k: (u16, Protocol))
    ensures
        spec_keys(s).contains(k) <==> exists|i: int|
            0 <= i < s.len() && spec_key(#[trigger] s[i]) == k,
    decreases s.len(),
{
    if s.len() == 0 {
    } else {
        lemma_keys_contains(s.drop_last(), k);
        if spec_key(s.last()) == k {
            assert(spec_key(s[s.len() - 1]) == k);
        } else if spec_keys(s).contains(k) {
            let i = choose|i: int|
                0 <= i < s.drop_last().len() && spec_key(#[trigger] s.drop_last()[i]) == k;
            assert(spec_key(s[i]) == k);
        } else if exists|i: int| 0 <= i < s.len() && spec_key(#[trigger] s[i]) == k {
            let i = choose|i: int| 0 <= i < s.len() && spec_key(#[trigger] s[i]) == k;
            assert(i < s.len() - 1);
            assert(spec_key(s.drop_last()[i]) == k);
        }
    }
}

proof fn lemma_added_keys(prev: Map<(u16, Protocol), PortRec>, cur: Seq<PortRec>, k: (
    u16,
    Protocol,
))
    ensures
        spec_keys(spec_diff_added(prev, cur)).contains(k) <==> ((exists|i: int|
            0 <= i < cur.len() && spec_key(#[trigger] cur[i]) == k) && !prev.contains_key(k)),
    decreases cur.len(),
{
    lemma_keys_contains(spec_diff_added(prev, cur), k);
    if cur.len() == 0 {
    } else {
        lemma_added_keys(prev, cur.drop_last(), k);
        lemma_keys_contains(spec_diff_added(prev, cur.drop_last()), k);
        let rest = spec_diff_added(prev, cur.drop_last());
        let all = spec_diff_added(prev, cur);
        if !prev.contains_key(spec_key(cur.last())) {
            assert(all == rest.push(cur.last()));
            if spec_keys(all).contains(k) {
                let i = choose|i: int| 0 <= i < all.len() && spec_key(#[trigger] all[i]) == k;
                if i < rest.len() {
                    assert(spec_keys(rest).contains(k)) by {
                        assert(rest[i] == all[i]);
                    }
                } else {
                    assert(spec_key(cur[cur.len() - 1]) == k);
                }
            }
            if (exists|i: int| 0 <= i < cur.len() && spec_key(#[trigger] cur[i]) == k)
                && !prev.contains_key(k) {
                let i = choose|i: int| 0 <= i < cur.len() && spec_key(#[trigger] cur[i]) == k;
                if i < cur.len() - 1 {
                    assert(spec_key(cur.drop_last()[i]) == k);
                    let j = choose|j: int|
                        0 <= j < rest.len() && spec_key(#[trigger] rest[j]) == k;
                    assert(spec_key(all[j]) == k);
                } else {
                    assert(spec_key(all[all.len() - 1]) == k);
                }
            }
        } else {
            assert(all == rest);
            if spec_keys(all).contains(k) {
                let j = choose|j: int| 0 <= j < all.len() && spec_key(#[trigger] all[j]) == k;
                assert(spec_keys(rest).contains(k)) by {
                    assert(rest[j] == all[j]);
                }
            }
            if (exists|i: int| 0 <= i < cur.len() && spec_key(#[trigger] cur[i]) == k)
                && !prev.contains_key(k) {
                let i = choose|i: int| 0 <= i < cur.len() && spec_key(#[trigger] cur[i]) == k;
                assert(i < cur.len() - 1 || spec_key(cur.last()) == k);
                if i < cur.len() - 1 {
                    assert(spec_key(cur.drop_last()[i]) == k);
                }
            }
        }
    }
}

proof fn lemma_changed_keys(prev: Map<(u16, Protocol), PortRec>, cur: Seq<PortRec>, k: (
    u16,
    Protocol,
))
    requires
        spec_unique_keys(cur),
    ensures
        spec_keys(spec_diff_changed(prev, cur)).contains(k) <==> ((exists|i: int|
            0 <= i < cur.len() && spec_key(#[trigger] cur[i]) == k && spec_changed_pair(
                prev[k],
                cur[i],
            )) && prev.contains_key(k)),
    decreases cur.len(),
{
    lemma_keys_contains(spec_diff_changed(prev, cur), k);
    if cur.len() == 0 {
    } else {
        assert(spec_unique_keys(cur.drop_last())) by {
            assert(forall|x: int|
                0 <= x < cur.drop_last().len() ==> #[trigger] cur.drop_last()[x] == cur[x]);
        }
        lemma_changed_keys(prev, cur.drop_last(), k);
        lemma_keys_contains(spec_diff_changed(prev, cur.drop_last()), k);
        let rest = spec_diff_changed(prev, cur.drop_last());
        let all = spec_diff_changed(prev, cur);
        let last = cur.last();
        if prev.contains_key(spec_key(last)) && spec_changed_pair(prev[spec_key(last)], last) {
            assert(all == rest.push(last));
            if spec_keys(all).contains(k) {
                let i = choose|i: int| 0 <= i < all.len() && spec_key(#[trigger] all[i]) == k;
                if i < rest.len() {
                    assert(spec_keys(rest).contains(k)) by {
                        assert(rest[i] == all[i]);
                    }
                } else {
                    assert(spec_key(cur[cur.len() - 1]) == k);
                }
            }
            if (exists|i: int|
                0 <= i < cur.len() && spec_key(#[trigger] cur[i]) == k && spec_changed_pair(
                    prev[k],
                    cur[i],
                )) && prev.contains_key(k) {
                let i = choose|i: int|
                    0 <= i < cur.len() && spec_key(#[trigger] cur[i]) == k && spec_changed_pair(
                        prev[k],
                        cur[i],
                    );
                if i < cur.len() - 1 {
                    assert(cur.drop_last()[i] == cur[i]);
                    let j = choose|j: int|
                        0 <= j < rest.len() && spec_key(#[trigger] rest[j]) == k;
                    assert(spec_key(all[j]) == k);
                } else {
                    assert(spec_key(all[all.len() - 1]) == k);
                }
            }
        } else {
            assert(all == rest);
            if spec_keys(all).contains(k) {
                let j = choose|j: int| 0 <= j < all.len() && spec_key(#[trigger] all[j]) == k;
                assert(spec_keys(rest).contains(k)) by {
                    assert(rest[j] == all[j]);
                }
            }
            if (exists|i: int|
                0 <= i < cur.len() && spec_key(#[trigger] cur[i]) == k && spec_changed_pair(
                    prev[k],
                    cur[i],
                )) && prev.contains_key(k) {
                let i = choose|i: int|
                    0 <= i < cur.len() && spec_key(#[trigger] cur[i]) == k && spec_changed_pair(
                        prev[k],
                        cur[i],
                    );
                if i == cur.len() - 1 {
                    assert(cur[i] == last);
                    assert(false);
                } else {
                    assert(cur.drop_last()[i] == cur[i]);
                }
            }
        }
    }
}

/// Diff correctness over the mathematical snapshots: added keys are
/// exactly the current keys absent before; removed keys are exactly
/// the previous keys absent now; changed keys lie in the intersection,
/// and a key in both snapshots is changed exactly when its pid or
/// state differs.
pub proof fn lemma_diff_correct(prev: Seq<PortRec>, cur: Seq<PortRec>)
    requires
        spec_unique_keys(prev),
        spec_unique_keys(cur),
    ensures
        ({
            let a = spec_snap_map(prev);
            let b = spec_snap_map(cur);
            &&& spec_keys(spec_diff_added(a, cur)) =~= b.dom().difference(a.dom())
            &&& spec_keys(spec_diff_removed(prev, b)) =~= a.dom().difference(b.dom())
            &&& spec_keys(spec_diff_changed(a, cur)) <= a.dom().intersect(b.dom())
            &&& forall|k: (u16, Protocol)|
                a.dom().contains(k) && b.dom().contains(k) ==> (#[trigger] spec_keys(
                    spec_diff_changed(a, cur),
                ).contains(k) <==> spec_changed_pair(a[k], b[k]))
        }),
{
    let a = spec_snap_map(prev);
    let b = spec_snap_map(cur);
    assert forall|k: (u16, Protocol)|
        #[trigger] spec_keys(spec_diff_added(a, cur)).contains(k) <==> (b.dom().contains(k)
            && !a.dom().contains(k)) by {
        lemma_added_keys(a, cur, k);
        crate::snapshot::lemma_snap_map_contains(cur, k);
    }
    assert(spec_keys(spec_diff_added(a, cur)) =~= b.dom().difference(a.dom()));
    assert forall|k: (u16, Protocol)|
        #[trigger] spec_keys(spec_diff_removed(prev, b)).contains(k) <==> (a.dom().contains(k)
            && !b.dom().contains(k)) by {
        lemma_removed_keys(prev, b, k);
        crate::snapshot::lemma_snap_map_contains(prev, k);
    }
    assert(spec_keys(spec_diff_removed(prev, b)) =~= a.dom().difference(b.dom()));
    assert forall|k: (u16, Protocol)| #[trigger]
        spec_keys(spec_diff_changed(a, cur)).contains(k) implies a.dom().contains(k)
        && b.dom().contains(k) by {
        lemma_changed_keys(a, cur, k);
        crate::snapshot::lemma_snap_map_contains(cur, k);
    }
    assert forall|k: (u16, Protocol)|
        a.dom().contains(k) && b.dom().contains(k) implies (#[trigger] spec_keys(
        spec_diff_changed(a, cur),
    ).contains(k) <==> spec_changed_pair(a[k], b[k])) by {
        lemma_changed_keys(a, cur, k);
        crate::snapshot::lemma_snap_map_contains(cur, k);
        if spec_keys(spec_diff_changed(a, cur)).contains(k) {
            let i = choose|i: int|
                0 <= i < cur.len() && spec_key(#[trigger] cur[i]) == k && spec_changed_pair(
                    a[k],
                    cur[i],
                );
            crate::snapshot::lemma_snap_map_at(cur, i);
        } else if spec_changed_pair(a[k], b[k]) {
            let i = choose|i: int| 0 <= i < cur.len() && spec_key(#[trigger] cur[i]) == k;
            crate::snapshot::lemma_snap_map_at(cur, i);
        }
    }
}

proof fn lemma_removed_keys(prev: Seq<PortRec>, cur: Map<(u16, Protocol), PortRec>, k: (
    u16,
    Protocol,
))
    ensures
        spec_keys(spec_diff_removed(prev, cur)).contains(k) <==> ((exists|i: int|
            0 <= i < prev.len() && spec_key(#[trigger] prev[i]) == k) && !cur.contains_key(k)),
    decreases prev.len(),
{
    lemma_keys_contains(spec_diff_removed(prev, cur), k);
    if prev.len() == 0 {
    } else {
        lemma_removed_keys(prev.drop_last(), cur, k);
        lemma_keys_contains(spec_diff_removed(prev.drop_last(), cur), k);
        let rest = spec_diff_removed(prev.drop_last(), cur);
        let all = spec_diff_removed(prev, cur);
        if !cur.contains_key(spec_key(prev.last())) {
            assert(all == rest.push(prev.last()));
            if spec_keys(all).contains(k) {
                let i = choose|i: int| 0 <= i < all.len() && spec_key(#[trigger] all[i]) == k;
                if i < rest.len() {
                    assert(spec_keys(rest).contains(k)) by {
                        assert(rest[i] == all[i]);
                    }
                } else {
                    assert(spec_key(prev[prev.len() - 1]) == k);
                }
            }
            if (exists|i: int| 0 <= i < prev.len() && spec_key(#[trigger] prev[i]) == k)
                && !cur.contains_key(k) {
                let i = choose|i: int| 0 <= i < prev.len() && spec_key(#[trigger] prev[i]) == k;
                if i < prev.len() - 1 {
                    assert(spec_key(prev.drop_last()[i]) == k);
                    let j = choose|j: int|
                        0 <= j < rest.len() && spec_key(#[trigger] rest[j]) == k;
                    assert(spec_key(all[j]) == k);
                } else {
                    assert(spec_key(all[all.len() - 1]) == k);
                }
            }
        } else {
            assert(all == rest);
            if spec_keys(all).contains(k) {
                let j = choose|j: int| 0 <= j < all.len() && spec_key(#[trigger] all[j]) == k;
                assert(spec_keys(rest).contains(k)) by {
                    assert(rest[j] == all[j]);
                }
            }
            if (exists|i: int| 0 <= i < prev.len() && spec_key(#[trigger] prev[i]) == k)
                && !cur.contains_key(k) {
                let i = choose|i: int| 0 <= i < prev.len() && spec_key(#[trigger] prev[i]) == k;
                assert(i < prev.len() - 1 || spec_key(prev.last()) == k);
                if i < prev.len() - 1 {
                    assert(spec_key(prev.drop_last()[i]) == k);
                }
            }
        }
    }
}

/// The stateful monitor: the retained snapshot, the idle counter, and
/// the scanner it polls through.
pub struct PortMonitor<P> {
    pub config: MonitorConfig,
    pub scanner: PortScanner<P>,
    pub last_snapshot: Snapshot,
    pub idle_count: u32,
}

impl<P: PortProvider + ProcessProvider> PortMonitor<P> {
    /// The monitor invariant: the configuration leaves room for the
    /// backed-off interval, the idle counter never exceeds the cap,
    /// and the retained snapshot has unique keys.
    pub open spec fn wf(&self) -> bool {
        self.config.wf() && self.idle_count <= self.config.max_backoff && self.last_snapshot.wf()
    }

    /// Creates a monitor with an empty retained snapshot and a zero
    /// idle counter, scanning through the given platform backend.
    pub fn new(config: MonitorConfig, platform: P) -> (r: Self)
        requires
            config.wf(),
        ensures
            r.wf(),
            r.config == config,
            r.idle_count == 0,
            r.last_snapshot@ =~= Map::<(u16, Protocol), PortRec>::empty(),
            r.last_snapshot.spec_records().len() == 0,
    {
        PortMonitor {
            config,
            scanner: PortScanner::new(platform),
            last_snapshot: Snapshot::new(),
            idle_count: 0,
        }
    }

    /// Compares the retained snapshot with a freshly built one and
    /// returns the added, removed, and changed records.
    pub fn diff(&self, current: &Snapshot) -> (c: PortChange)
        requires
            self.last_snapshot.wf(),
            current.wf(),
        ensures
            c@.added == spec_diff_added(self.last_snapshot@, current.spec_records()),
            c@.changed == spec_diff_changed(self.last_snapshot@, current.spec_records()),
            c@.removed == spec_diff_removed(self.last_snapshot.spec_records(), current@),
    {
        let ghost prev_map = self.last_snapshot@;
        let ghost cur = current.spec_records();
        let mut added: Vec<PortInfo> = Vec::new();
        let mut changed: Vec<PortInfo> = Vec::new();
        let n = current.records.len();
        let mut i: usize = 0;
        while i < n
            invariant
                self.last_snapshot.wf(),
                n == current.records@.len(),
                prev_map == self.last_snapshot@,
                cur == current.spec_records(),
                i <= n,
                added@.len() == spec_diff_added(prev_map, cur.take(i as int)).len(),
                forall|j: int|
                    0 <= j < added@.len() ==> (#[trigger] added@[j])@ == spec_diff_added(
                        prev_map,
                        cur.take(i as int),
                    )[j],
                changed@.len() == spec_diff_changed(prev_map, cur.take(i as int)).len(),
                forall|j: int|
                    0 <= j < changed@.len() ==> (#[trigger] changed@[j])@ == spec_diff_changed(
                        prev_map,
                        cur.take(i as int),
                    )[j],
            decreases n - i,
        {
            let rec = &current.records[i];
            proof {
                assert(cur.take(i + 1).drop_last() =~= cur.take(i as int));
                assert(cur.take(i + 1).last() == cur[i as int]);
                assert(spec_key(cur[i as int]) == (rec.port, rec.protocol));
            }
            match self.last_snapshot.find(rec.port, rec.protocol) {
                None => {
                    let kept = rec.clone();
                    added.push(kept);
                    proof {
                        assert(spec_diff_added(prev_map, cur.take(i + 1)) == spec_diff_added(
                            prev_map,
                            cur.take(i as int),
                        ).push(cur[i as int]));
                        assert(spec_diff_changed(prev_map, cur.take(i + 1)) == spec_diff_changed(
                            prev_map,
                            cur.take(i as int),
                        ));
                    }
                },
                Some(old_rec) => {
                    if old_rec.pid != rec.pid || old_rec.state != rec.state {
                        let kept = rec.clone();
                        changed.push(kept);
                        proof {
                            assert(spec_changed_pair(prev_map[spec_key(cur[i as int])], cur[i as int]));
                            assert(spec_diff_changed(prev_map, cur.take(i + 1))
                                == spec_diff_changed(prev_map, cur.take(i as int)).push(
                                cur[i as int],
                            ));
                            assert(spec_diff_added(prev_map, cur.take(i + 1)) == spec_diff_added(
                                prev_map,
                                cur.take(i as int),
                            ));
                        }
                    } else {
                        proof {
                            assert(!spec_changed_pair(prev_map[spec_key(cur[i as int])], cur[i as int]));
                            assert(spec_diff_changed(prev_map, cur.take(i + 1))
                                == spec_diff_changed(prev_map, cur.take(i as int)));
                            assert(spec_diff_added(prev_map, cur.take(i + 1)) == spec_diff_added(
                                prev_map,
                                cur.take(i as int),
                            ));
                        }
                    }
                },
            }
            i += 1;
        }
        proof {
            assert(cur.take(n as int) =~= cur);
        }
        let ghost cur_map = current@;
        let ghost prev = self.last_snapshot.spec_records();
        let mut removed: Vec<PortInfo> = Vec::new();
        let m = self.last_snapshot.records.len();
        let mut j: usize = 0;
        while j < m
            invariant
                current.wf(),
                m == self.last_snapshot.records@.len(),
                prev == self.last_snapshot.spec_records(),
                cur_map == current@,
                j <= m,
                removed@.len() == spec_diff_removed(prev.take(j as int), cur_map).len(),
                forall|t: int|
                    0 <= t < removed@.len() ==> (#[trigger] removed@[t])@ == spec_diff_removed(
                        prev.take(j as int),
                        cur_map,
                    )[t],
            decreases m - j,
        {
            let rec = &self.last_snapshot.records[j];
            proof {
                assert(prev.take(j + 1).drop_last() =~= prev.take(j as int));
                assert(prev.take(j + 1).last() == prev[j as int]);
                assert(spec_key(prev[j as int]) == (rec.port, rec.protocol));
            }
            match current.find(rec.port, rec.protocol) {
                None => {
                    let kept = rec.clone();
                    removed.push(kept);
                },
                Some(_) => {},
            }
            j += 1;
        }
        proof {
            assert(prev.take(m as int) =~= prev);
        }
        let c = PortChange { added, removed, changed };
        proof {
            assert(c@.added =~= spec_diff_added(prev_map, cur));
            assert(c@.changed =~= spec_diff_changed(prev_map, cur));
            assert(c@.removed =~= spec_diff_removed(prev, cur_map));
        }
        c
    }

    /// Folds one scan result into the monitor: builds the new
    /// snapshot, diffs it against the retained one, and either backs
    /// off (empty diff: snapshot untouched, idle counter bumped up to
    /// the cap) or activates (non-empty diff: snapshot replaced in
    /// full by the scanned one, idle counter reset, change set
    /// returned).
    pub fn apply_scan(&mut self, records: Vec<PortInfo>) -> (r: Option<PortChange>)
        requires
            old(self).wf(),
        ensures
            final(self).wf(),
            final(self).config == old(self).config,
            final(self).scanner == old(self).scanner,
            ({
                let cur_map = spec_snap_map(
                    Seq::new(records@.len(), |i: int| records@[i]@),
                );
                let prev_map = old(self).last_snapshot@;
                match r {
                    None => {
                        &&& final(self).last_snapshot == old(self).last_snapshot
                        &&& final(self).idle_count == spec_next_idle(
                            old(self).idle_count,
                            old(self).config.max_backoff,
                        )
                        &&& cur_map.dom() =~= prev_map.dom()
                        &&& forall|k: (u16, Protocol)|
                            #[trigger] cur_map.dom().contains(k) ==> !spec_changed_pair(
                                prev_map[k],
                                cur_map[k],
                            )
                    },
                    Some(c) => {
                        &&& final(self).last_snapshot@ == cur_map
                        &&& final(self).idle_count == 0
                        &&& !c@.is_empty()
                        &&& c@.added == spec_diff_added(
                            prev_map,
                            final(self).last_snapshot.spec_records(),
                        )
                        &&& c@.changed == spec_diff_changed(
                            prev_map,
                            final(self).last_snapshot.spec_records(),
                        )
                        &&& c@.removed == spec_diff_removed(
                            old(self).last_snapshot.spec_records(),
                            final(self).last_snapshot@,
                        )
                    },
                }
            }),
    {
        let current = Snapshot::from_records(records);
        let changes = self.diff(&current);
        if changes.is_empty() {
            proof {
                lemma_empty_diff_same_dom(
                    self.last_snapshot.spec_records(),
                    current.spec_records(),
                );
            }
            if self.idle_count < self.config.max_backoff {
                self.idle_count = self.idle_count + 1;
            } else {
                self.idle_count = self.config.max_backoff;
            }
            None
        } else {
            self.idle_count = 0;
            self.last_snapshot = current;
            Some(changes)
        }
    }

    /// The delay before the next poll: the base interval, stretched
    /// linearly by the idle counter.
    pub fn current_interval(&self) -> (r: u64)
        requires
            self.wf(),
        ensures
            r == self.config.interval_ms * (1 + self.idle_count as int),
    {
        proof {
            assert(self.config.interval_ms * (1 + self.idle_count as int)
                <= self.config.interval_ms * (1 + self.config.max_backoff as int))
                by (nonlinear_arith)
                requires
                    self.idle_count <= self.config.max_backoff,
                    self.config.interval_ms >= 0,
            ;
        }
        self.config.interval_ms * (1 + self.idle_count as u64)
    }

    /// Clears the retained snapshot and the idle counter, as done
    /// when the monitor is restarted.
    pub fn reset(&mut self)
        requires
            old(self).wf(),
        ensures
            final(self).wf(),
            final(self).config == old(self).config,
            final(self).idle_count == 0,
            final(self).last_snapshot@ =~= Map::<(u16, Protocol), PortRec>::empty(),
    {
        self.last_snapshot.clear();
        self.idle_count = 0;
    }

    /// Performs one scan (honoring `listen_only`) and folds it into
    /// the monitor: `Ok(None)` reports an empty diff with the snapshot
    /// untouched and the idle counter bumped; `Ok(Some(c))` reports a
    /// non-empty change set with the snapshot replaced in full and the
    /// idle counter reset; a scan failure leaves the monitor as it
    /// was.
    pub fn poll(&mut self) -> (r: AppResult<Option<PortChange>>)
        requires
            old(self).wf(),
        ensures
            final(self).wf(),
            final(self).config == old(self).config,
            final(self).scanner == old(self).scanner,
            r matches Err(_) ==> *final(self) == *old(self),
            r matches Ok(None) ==> final(self).last_snapshot == old(self).last_snapshot
                && final(self).idle_count == spec_next_idle(
                old(self).idle_count,
                old(self).config.max_backoff,
            ),
            r matches Ok(Some(c)) ==> ({
                &&& final(self).idle_count == 0
                &&& !c@.is_empty()
                &&& c@.added == spec_diff_added(
                    old(self).last_snapshot@,
                    final(self).last_snapshot.spec_records(),
                )
                &&& c@.changed == spec_diff_changed(
                    old(self).last_snapshot@,
                    final(self).last_snapshot.spec_records(),
                )
                &&& c@.removed == spec_diff_removed(
                    old(self).last_snapshot.spec_records(),
                    final(self).last_snapshot@,
                )
            }),
    {
        let scanned = if self.config.listen_only {
            self.scanner.scan_listening()
        } else {
            self.scanner.scan_all()
        };
        let records = match scanned {
            Ok(v) => v,
            Err(e) => {
                return Err(e);
            },
        };
        Ok(self.apply_scan(records))
    }
}

/// When the diff of two unique-keyed record sequences is empty, the
/// two mappings hold the same keys with no pid or state change.
proof fn lemma_empty_diff_same_dom(prev: Seq<PortRec>, cur: Seq<PortRec>)
    requires
        spec_unique_keys(prev),
        spec_unique_keys(cur),
        spec_diff_added(spec_snap_map(prev), cur).len() == 0,
        spec_diff_changed(spec_snap_map(prev), cur).len() == 0,
        spec_diff_removed(prev, spec_snap_map(cur)).len() == 0,
    ensures
        spec_snap_map(cur).dom() =~= spec_snap_map(prev).dom(),
        forall|k: (u16, Protocol)|
            #[trigger] spec_snap_map(cur).dom().contains(k) ==> !spec_changed_pair(
                spec_snap_map(prev)[k],
                spec_snap_map(cur)[k],
            ),
{
    let a = spec_snap_map(prev);
    let b = spec_snap_map(cur);
    lemma_diff_correct(prev, cur);
    assert forall|k: (u16, Protocol)| #[trigger] b.dom().contains(k) implies a.dom().contains(
        k,
    ) by {
        if !a.dom().contains(k) {
            assert(spec_keys(spec_diff_added(a, cur)).contains(k));
            lemma_keys_contains(spec_diff_added(a, cur), k);
        }
    }
    assert forall|k: (u16, Protocol)| #[trigger] a.dom().contains(k) implies b.dom().contains(
        k,
    ) by {
        if !b.dom().contains(k) {
            assert(spec_keys(spec_diff_removed(prev, b)).contains(k));
            lemma_keys_contains(spec_diff_removed(prev, b), k);
        }
    }
    assert forall|k: (u16, Protocol)| #[trigger] b.dom().contains(k) implies !spec_changed_pair(
        a[k],
        b[k],
    ) by {
        if spec_changed_pair(a[k], b[k]) {
            assert(spec_keys(spec_diff_changed(a, cur)).contains(k));
            lemma_keys_contains(spec_diff_changed(a, cur), k);
        }
    }
}

} // verus!
