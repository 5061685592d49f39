//! The centralized probe scheduler: a due-time heap over every enabled
//! monitor, stable per-key jitter, and atomic reconfiguration. The heap
//! never holds more than one pending firing per key, and a firing is
//! rescheduled from the present moment, so probe latency never shifts the
//! nominal cadence.

use crate::config::{Config, Monitor, scheduling_key, spec_scheduling_key};
use vstd::prelude::*;

verus! {

/// The 64-bit FNV-1a hash of a text, folded character by character.
pub open spec fn fnv1a_hash(s: Seq<char>) -> u64
    decreases s.len(),
{
    if s.len() == 0 {
        0xcbf29ce484222325u64
    } else {
        (fnv1a_hash(s.drop_last()) ^ (s.last() as u64)).wrapping_mul(0x100000001b3u64)
    }
}

/// The stable jitter for a key: a deterministic function of the key and the
/// jitter bound alone, so a monitor lands on the same sub-second offset
/// across restarts and reconfigurations.
pub open spec fn spec_jitter(key: Seq<char>, jitter_ms_max: u64) -> u64 {
    if jitter_ms_max == 0 {
        0u64
    } else if jitter_ms_max == u64::MAX {
        fnv1a_hash(key)
    } else {
        (fnv1a_hash(key) % ((jitter_ms_max + 1) as u64)) as u64
    }
}

/// Stable jitter in milliseconds: a hash of the key reduced to the bound.
/// Deterministic, no randomness: the same key and bound always give the
/// same offset, and a bound of zero gives no offset at all.
pub fn stable_jitter_ms(key: &str, jitter_ms_max: u64) -> (r: u64)
    ensures
        r == spec_jitter(key@, jitter_ms_max),
        r <= jitter_ms_max,
{
    if jitter_ms_max == 0 {
        return 0;
    }
    let n = key.unicode_len();
    let mut h: u64 = 0xcbf29ce484222325;
    let mut i: usize = 0;
    proof {
        assert(key@.take(0) =~= Seq::<char>::empty());
    }
    while i < n
        invariant
            i <= n == key@.len(),
            h == fnv1a_hash(key@.take(i as int)),
        decreases n - i,
    {
        let c = key.get_char(i);
        proof {
            assert(key@.take(i + 1).drop_last() =~= key@.take(i as int));
            assert(key@.take(i + 1).last() == key@[i as int]);
        }
        h = (h ^ (c as u64)).wrapping_mul(0x100000001b3);
        i = i + 1;
    }
    proof {
        assert(key@.take(n as int) =~= key@);
    }
    if jitter_ms_max == u64::MAX {
        h
    } else {
        h % (jitter_ms_max + 1)
    }
}

/// With a jitter bound of zero every key's offset vanishes: firings land
/// exactly on the interval grid.
pub proof fn lemma_zero_jitter(key: Seq<char>)
    ensures
        spec_jitter(key, 0) == 0,
{
}

/// One pending firing: the moment it is due (a millisecond timestamp) and
/// the scheduling key it belongs to.
pub struct DueItem {
    pub when: u64,
    pub key: String,
}

/// What one scheduling step decided.
pub enum DispatchOutcome {
    /// No monitors are scheduled at all.
    Idle,
    /// The earliest firing still lies in the future.
    NotDue,
    /// A due item's key had no entry; it was discarded.
    Skipped,
    /// No concurrency permit was free: the firing was pushed back briefly.
    Deferred,
    /// Fire the probe of this key; its next firing is already scheduled.
    Fire(String),
}

/// The scheduler's state: the monitor snapshot per key, the due-time heap,
/// and the jitter bound.
pub struct Scheduler {
    pub entries: Vec<(String, Monitor)>,
    pub heap: Vec<DueItem>,
    pub jitter_ms_max: u64,
}

/// An upper bound on monitor intervals (seconds), ample for a century.
pub open spec fn interval_bound() -> u64 {
    0xFFFF_FFFFu64
}

/// An upper bound on clock values handed to the scheduler, far beyond any
/// real millisecond timestamp yet leaving room for interval arithmetic.
pub open spec fn now_bound() -> u64 {
    0x4000_0000_0000_0000u64
}

impl Scheduler {
    /// A key has an entry.
    pub open spec fn has_key(self, k: Seq<char>) -> bool {
        exists|i: int| 0 <= i < self.entries@.len() && (#[trigger] self.entries@[i]).0@ == k
    }

    /// The index of a key's entry.
    pub open spec fn key_idx(self, k: Seq<char>) -> int {
        choose|i: int| 0 <= i < self.entries@.len() && (#[trigger] self.entries@[i]).0@ == k
    }

    /// The monitor snapshot scheduled under a key.
    pub open spec fn monitor_of(self, k: Seq<char>) -> Monitor {
        self.entries@[self.key_idx(k)].1
    }

    /// A pending firing for this key at this moment exists.
    pub open spec fn heap_has(self, k: Seq<char>, when: u64) -> bool {
        exists|i: int|
            0 <= i < self.heap@.len() && (#[trigger] self.heap@[i]).key@ == k && self.heap@[i].when
                == when
    }

    /// The heap holds at most one pending firing per key.
    pub open spec fn heap_unique_per_key(self) -> bool {
        forall|i: int, j: int|
            0 <= i < j < self.heap@.len() ==> (#[trigger] self.heap@[i]).key@ != (
            #[trigger] self.heap@[j]).key@
    }

    /// Well-formedness: entry keys are distinct, the heap holds at most one
    /// firing per key, every pending firing belongs to an entry, and the
    /// stored values stay within arithmetic bounds.
    pub open spec fn wf(self) -> bool {
        &&& forall|i: int, j: int|
            0 <= i < j < self.entries@.len() ==> (#[trigger] self.entries@[i]).0@ != (
            #[trigger] self.entries@[j]).0@
        &&& self.heap_unique_per_key()
        &&& forall|i: int|
            0 <= i < self.heap@.len() ==> self.has_key((#[trigger] self.heap@[i]).key@)
        &&& forall|i: int|
            0 <= i < self.entries@.len() ==> 1 <= (#[trigger] self.entries@[i]).1.interval
                <= interval_bound()
        &&& self.jitter_ms_max <= 1000000
    }

    /// No monitors are scheduled: nothing will ever fire until the next
    /// reconfiguration.
    pub open spec fn is_idle(self) -> bool {
        self.entries@.len() == 0 && self.heap@.len() == 0
    }

    /// A fresh scheduler with no monitors.
    pub fn new(jitter_ms_max: u64) -> (s: Scheduler)
        requires
            jitter_ms_max <= 1000000,
        ensures
            s.wf(),
            s.is_idle(),
            s.jitter_ms_max == jitter_ms_max,
    {
        Scheduler { entries: Vec::new(), heap: Vec::new(), jitter_ms_max }
    }

    fn find_entry(&self, key: &String) -> (r: Option<usize>)
        ensures
            match r {
                Option::Some(i) => i < self.entries@.len() && self.entries@[i as int].0@ == key@,
                Option::None => !self.has_key(key@),
            },
    {
        let n = self.entries.len();
        let mut i: usize = 0;
        while i < n
            invariant
                i <= n == self.entries@.len(),
                forall|k: int| 0 <= k < i ==> (#[trigger] self.entries@[k]).0@ != key@,
            decreases n - i,
        {
            if self.entries[i].0 == *key {
                return Option::Some(i);
            }
            i = i + 1;
        }
        Option::None
    }

    /// The monitor scheduled under a key, if any.
    pub fn get_monitor(&self, key: &String) -> (r: Option<&Monitor>)
        requires
            self.wf(),
        ensures
            match r {
                Option::Some(m) => self.has_key(key@) && *m == self.monitor_of(key@),
                Option::None => !self.has_key(key@),
            },
    {
        match self.find_entry(key) {
            Option::Some(i) => {
                proof {
                    assert(self.has_key(key@));
                    let i2 = self.key_idx(key@);
                    assert(self.entries@[i2].0@ == key@);
                    assert(i2 == i);
                }
                Option::Some(&self.entries[i].1)
            },
            Option::None => Option::None,
        }
    }

    /// Atomic reconfiguration: replace every entry and every pending firing
    /// by the enabled monitors of the new set, each first due at `now` plus
    /// its stable jitter — within the jitter bound of `now`, so a surviving
    /// monitor keeps its offset and a fresh set starts promptly. An empty
    /// set leaves the scheduler idle.
    #[verifier::rlimit(100)]
    pub fn rebuild(&mut self, cfg: Config, now: u64)
        requires
            old(self).jitter_ms_max <= 1000000,
            now <= now_bound(),
            keys_unique(cfg.monitors@),
            intervals_ok(cfg.monitors@),
        ensures
            final(self).wf(),
            final(self).jitter_ms_max == old(self).jitter_ms_max,
            forall|i: int|
                0 <= i < cfg.monitors@.len() && (#[trigger] cfg.monitors@[i]).enabled ==> {
                    let k = spec_scheduling_key(cfg.monitors@[i]);
                    &&& final(self).has_key(k)
                    &&& final(self).monitor_of(k) == cfg.monitors@[i]
                    &&& final(self).heap_has(
                        k,
                        (now + spec_jitter(k, old(self).jitter_ms_max)) as u64,
                    )
                },
            forall|k: Seq<char>|
                #[trigger] final(self).has_key(k) ==> exists|i: int|
                    0 <= i < cfg.monitors@.len() && (#[trigger] cfg.monitors@[i]).enabled
                        && spec_scheduling_key(cfg.monitors@[i]) == k,
            (forall|i: int| 0 <= i < cfg.monitors@.len() ==> !(#[trigger] cfg.monitors@[i]).enabled)
                ==> final(self).is_idle(),
    {
        let ghost src = cfg.monitors@;
        let jmax = self.jitter_ms_max;
        self.entries = Vec::new();
        self.heap = Vec::new();
        let ghost mut srcof: Seq<int> = Seq::empty();
        let ghost mut entof: Seq<int> = Seq::new(src.len(), |v: int| -1);
        let mut rest = cfg.monitors;
        loop
            invariant
                self.jitter_ms_max == old(self).jitter_ms_max,
                jmax == self.jitter_ms_max,
                jmax <= 1000000,
                now <= now_bound(),
                rest@ == src.take(rest@.len() as int),
                rest@.len() <= src.len(),
                keys_unique(src),
                intervals_ok(src),
                rebuild_inv(src, rest@.len() as int, self.entries@, self.heap@, now, jmax, srcof, entof),
            ensures
                self.jitter_ms_max == old(self).jitter_ms_max,
                jmax == self.jitter_ms_max,
                rebuild_inv(src, 0, self.entries@, self.heap@, now, jmax, srcof, entof),
            decreases rest@.len(),
        {
            let ghost t = rest@.len() as int;
            match rest.pop() {
                Option::None => {
                    proof {
                        assert(rest@.len() == 0);
                    }
                    break ;
                },
                Option::Some(m) => {
                    proof {
                        assert(rest@ =~= src.take(t - 1));
                        assert(m == src[t - 1]);
                    }
                    if m.enabled {
                        let key = scheduling_key(&m);
                        let jit = stable_jitter_ms(key.as_str(), jmax);
                        let ghost e0 = self.entries@;
                        let ghost h0 = self.heap@;
                        let ghost s0 = srcof;
                        let ghost f0 = entof;
                        self.heap.push(DueItem { when: now + jit, key: key.clone() });
                        self.entries.push((key, m));
                        proof {
                            srcof = srcof.push(t - 1);
                            entof = entof.update(t - 1, e0.len() as int);
                            lemma_rebuild_push(
                                src,
                                t,
                                e0,
                                h0,
                                self.entries@,
                                self.heap@,
                                now,
                                jmax,
                                s0,
                                f0,
                                srcof,
                                entof,
                            );
                        }
                    } else {
                        proof {
                            lemma_rebuild_skip(
                                src,
                                t,
                                self.entries@,
                                self.heap@,
                                now,
                                jmax,
                                srcof,
                                entof,
                            );
                        }
                    }
                },
            }
        }
        proof {
            lemma_rebuild_done(*self, src, now, srcof, entof);
        }
    }

    fn earliest_index(&self) -> (r: Option<usize>)
        ensures
            match r {
                Option::Some(i) => i < self.heap@.len() && forall|j: int|
                    0 <= j < self.heap@.len() ==> (#[trigger] self.heap@[j]).when
                        >= self.heap@[i as int].when,
                Option::None => self.heap@.len() == 0,
            },
    {
        let n = self.heap.len();
        if n == 0 {
            return Option::None;
        }
        let mut best: usize = 0;
        let mut i: usize = 1;
        while i < n
            invariant
                best < i <= n == self.heap@.len(),
                forall|j: int|
                    0 <= j < i ==> (#[trigger] self.heap@[j]).when
                        >= self.heap@[best as int].when,
            decreases n - i,
        {
            if self.heap[i].when < self.heap[best].when {
                best = i;
            }
            i = i + 1;
        }
        Option::Some(best)
    }

    /// One scheduling step at time `now`, with `permit_ok` saying whether a
    /// concurrency permit could be taken. When a due probe fires, its next
    /// firing is already on the heap at `now + interval + jitter(key)` —
    /// anchored to the present, never to the overdue moment, and
    /// independent of how long the probe itself will run. When no permit is
    /// free the firing is pushed back by 50 ms instead. Entries never
    /// change, and the heap keeps at most one firing per key.
    pub fn dispatch_one(&mut self, now: u64, permit_ok: bool) -> (r: DispatchOutcome)
        requires
            old(self).wf(),
            now <= now_bound(),
        ensures
            final(self).wf(),
            final(self).entries == old(self).entries,
            final(self).jitter_ms_max == old(self).jitter_ms_max,
            match r {
                DispatchOutcome::Idle => *final(self) == *old(self) && old(self).heap@.len() == 0,
                DispatchOutcome::NotDue => *final(self) == *old(self) && (forall|j: int|
                    0 <= j < old(self).heap@.len() ==> (#[trigger] old(self).heap@[j]).when > now),
                DispatchOutcome::Skipped => exists|i: int|
                    0 <= i < old(self).heap@.len() && !old(self).has_key(
                        (#[trigger] old(self).heap@[i]).key@,
                    ) && final(self).heap@ == old(self).heap@.remove(i) && (forall|j: int|
                        0 <= j < old(self).heap@.len() ==> (#[trigger] old(self).heap@[j]).when
                            >= old(self).heap@[i].when),
                DispatchOutcome::Deferred => !permit_ok && exists|i: int|
                    {
                        &&& 0 <= i < old(self).heap@.len()
                        &&& (#[trigger] old(self).heap@[i]).when <= now
                        &&& forall|j: int|
                            0 <= j < old(self).heap@.len() ==> (#[trigger] old(self).heap@[j]).when
                                >= old(self).heap@[i].when
                        &&& final(self).heap@ == old(self).heap@.remove(i).push(
                            DueItem { when: (now + 50) as u64, key: old(self).heap@[i].key },
                        )
                    },
                DispatchOutcome::Fire(key) => permit_ok && old(self).has_key(key@) && exists|
                    i: int,
                |
                    {
                        &&& 0 <= i < old(self).heap@.len()
                        &&& (#[trigger] old(self).heap@[i]).key@ == key@
                        &&& old(self).heap@[i].when <= now
                        &&& forall|j: int|
                            0 <= j < old(self).heap@.len() ==> (#[trigger] old(self).heap@[j]).when
                                >= old(self).heap@[i].when
                        &&& final(self).heap@ == old(self).heap@.remove(i).push(
                            DueItem {
                                when: (now + old(self).monitor_of(key@).interval * 1000
                                    + spec_jitter(key@, old(self).jitter_ms_max)) as u64,
                                key: old(self).heap@[i].key,
                            },
                        )
                    },
            },
    {
        let idx = match self.earliest_index() {
            Option::None => {
                return DispatchOutcome::Idle;
            },
            Option::Some(i) => i,
        };
        if self.heap[idx].when > now {
            return DispatchOutcome::NotDue;
        }
        let ghost pre = *self;
        let item = self.heap.remove(idx);
        match self.find_entry(&item.key) {
            Option::None => {
                proof {
                    lemma_heap_remove(pre, *self, idx as int);
                }
                DispatchOutcome::Skipped
            },
            Option::Some(e) => {
                if permit_ok {
                    let interval = self.entries[e].1.interval;
                    let jit = stable_jitter_ms(item.key.as_str(), self.jitter_ms_max);
                    let ghost mid = *self;
                    let when = now + interval * 1000 + jit;
                    self.heap.push(DueItem { when, key: item.key });
                    proof {
                        lemma_heap_remove(pre, mid, idx as int);
                        assert(pre.has_key(pre.heap@[idx as int].key@)) by {
                            assert(pre.entries@[e as int].0@ == pre.heap@[idx as int].key@);
                        }
                        assert(pre.monitor_of(pre.heap@[idx as int].key@)
                            == pre.entries@[e as int].1) by {
                            let w2 = pre.key_idx(pre.heap@[idx as int].key@);
                            assert(pre.entries@[w2].0@ == pre.heap@[idx as int].key@);
                            if w2 != e {
                                assert(pre.entries@[w2].0@ != pre.entries@[e as int].0@);
                            }
                        }
                        assert(self.heap@ =~= pre.heap@.remove(idx as int).push(
                            self.heap@[self.heap@.len() - 1],
                        ));
                        lemma_heap_requeue(pre, *self, idx as int);
                    }
                    DispatchOutcome::Fire(self.entries[e].0.clone())
                } else {
                    let ghost mid = *self;
                    self.heap.push(DueItem { when: now + 50, key: item.key });
                    proof {
                        lemma_heap_remove(pre, mid, idx as int);
                        assert(self.heap@ =~= pre.heap@.remove(idx as int).push(
                            self.heap@[self.heap@.len() - 1],
                        ));
                        lemma_heap_requeue(pre, *self, idx as int);
                    }
                    DispatchOutcome::Deferred
                }
            },
        }
    }
}

/// Enabled monitors carry distinct scheduling keys.
pub open spec fn keys_unique(src: Seq<Monitor>) -> bool {
    forall|i: int, j: int|
        0 <= i < j < src.len() && (#[trigger] src[i]).enabled && (#[trigger] src[j]).enabled
            ==> spec_scheduling_key(src[i]) != spec_scheduling_key(src[j])
}

/// Enabled monitors keep their intervals within the arithmetic bound.
pub open spec fn intervals_ok(src: Seq<Monitor>) -> bool {
    forall|i: int|
        0 <= i < src.len() && (#[trigger] src[i]).enabled ==> 1 <= src[i].interval
            <= interval_bound()
}

/// The state halfway through a rebuild: the monitors of `src` from position
/// `t` on have been placed. Entries and heap grow in lockstep; `srcof` maps
/// each entry to the source monitor it snapshots, and `entof` maps each
/// placed enabled source monitor to its entry.
pub open spec fn rebuild_inv(
    src: Seq<Monitor>,
    t: int,
    entries: Seq<(String, Monitor)>,
    heap: Seq<DueItem>,
    now: u64,
    jmax: u64,
    srcof: Seq<int>,
    entof: Seq<int>,
) -> bool {
    &&& heap.len() == entries.len()
    &&& srcof.len() == entries.len()
    &&& entof.len() == src.len()
    &&& forall|w: int|
        0 <= w < entries.len() ==> (#[trigger] heap[w]).key@ == entries[w].0@ && heap[w].when
            == now + spec_jitter(entries[w].0@, jmax)
    &&& forall|w: int|
        0 <= w < entries.len() ==> t <= #[trigger] srcof[w] < src.len() && src[srcof[w]].enabled
            && entries[w].1 == src[srcof[w]] && entries[w].0@ == spec_scheduling_key(
            src[srcof[w]],
        )
    &&& forall|v: int|
        t <= v < src.len() && (#[trigger] src[v]).enabled ==> 0 <= #[trigger] entof[v]
            < entries.len() && srcof[entof[v]] == v
    &&& forall|w1: int, w2: int|
        0 <= w1 < w2 < entries.len() ==> (#[trigger] entries[w1]).0@ != (
        #[trigger] entries[w2]).0@
}

/// A disabled source monitor is passed over without changing the state.
proof fn lemma_rebuild_skip(
    src: Seq<Monitor>,
    t: int,
    entries: Seq<(String, Monitor)>,
    heap: Seq<DueItem>,
    now: u64,
    jmax: u64,
    srcof: Seq<int>,
    entof: Seq<int>,
)
    requires
        1 <= t <= src.len(),
        !src[t - 1].enabled,
        rebuild_inv(src, t, entries, heap, now, jmax, srcof, entof),
    ensures
        rebuild_inv(src, t - 1, entries, heap, now, jmax, srcof, entof),
{
}

/// Placing one enabled monitor extends entries and heap in lockstep and
/// keeps the correspondence exact.
proof fn lemma_rebuild_push(
    src: Seq<Monitor>,
    t: int,
    e0: Seq<(String, Monitor)>,
    h0: Seq<DueItem>,
    e1: Seq<(String, Monitor)>,
    h1: Seq<DueItem>,
    now: u64,
    jmax: u64,
    s0: Seq<int>,
    f0: Seq<int>,
    s1: Seq<int>,
    f1: Seq<int>,
)
    requires
        1 <= t <= src.len(),
        src[t - 1].enabled,
        keys_unique(src),
        rebuild_inv(src, t, e0, h0, now, jmax, s0, f0),
        e1 =~= e0.push(e1[e0.len() as int]),
        h1 =~= h0.push(h1[h0.len() as int]),
        e1[e0.len() as int].1 == src[t - 1],
        e1[e0.len() as int].0@ == spec_scheduling_key(src[t - 1]),
        h1[h0.len() as int].key@ == e1[e0.len() as int].0@,
        h1[h0.len() as int].when == now + spec_jitter(e1[e0.len() as int].0@, jmax),
        s1 == s0.push(t - 1),
        f1 == f0.update(t - 1, e0.len() as int),
    ensures
        rebuild_inv(src, t - 1, e1, h1, now, jmax, s1, f1),
{
    let n = e0.len() as int;
    assert forall|w: int|
        0 <= w < e1.len() implies (#[trigger] h1[w]).key@ == e1[w].0@ && h1[w].when == now
            + spec_jitter(e1[w].0@, jmax) by {
        if w < n {
            assert(h1[w] == h0[w]);
            assert(e1[w] == e0[w]);
        }
    }
    assert forall|w: int|
        0 <= w < e1.len() implies t - 1 <= #[trigger] s1[w] < src.len() && src[s1[w]].enabled
            && e1[w].1 == src[s1[w]] && e1[w].0@ == spec_scheduling_key(src[s1[w]]) by {
        if w < n {
            assert(s1[w] == s0[w]);
            assert(e1[w] == e0[w]);
        } else {
            assert(s1[w] == t - 1);
        }
    }
    assert forall|v: int|
        t - 1 <= v < src.len() && (#[trigger] src[v]).enabled implies 0 <= #[trigger] f1[v]
            < e1.len() && s1[f1[v]] == v by {
        if v >= t {
            assert(f1[v] == f0[v]);
            assert(s1[f0[v]] == s0[f0[v]]);
        } else {
            assert(f1[v] == n);
            assert(s1[n] == t - 1);
        }
    }
    assert forall|w1: int, w2: int|
        0 <= w1 < w2 < e1.len() implies (#[trigger] e1[w1]).0@ != (#[trigger] e1[w2]).0@ by {
        if w2 == n {
            assert(e1[w1] == e0[w1]);
            assert(t <= s0[w1] < src.len());
            assert(e0[w1].0@ == spec_scheduling_key(src[s0[w1]]));
            assert(spec_scheduling_key(src[s0[w1]]) != spec_scheduling_key(src[t - 1]));
        } else {
            assert(e1[w1] == e0[w1]);
            assert(e1[w2] == e0[w2]);
        }
    }
}

/// When every source monitor has been placed, the scheduler is well formed
/// and mirrors exactly the enabled monitors of the source.
proof fn lemma_rebuild_done(
    s: Scheduler,
    src: Seq<Monitor>,
    now: u64,
    srcof: Seq<int>,
    entof: Seq<int>,
)
    requires
        rebuild_inv(src, 0, s.entries@, s.heap@, now, s.jitter_ms_max, srcof, entof),
        keys_unique(src),
        intervals_ok(src),
        s.jitter_ms_max <= 1000000,
    ensures
        s.wf(),
        forall|i: int|
            0 <= i < src.len() && (#[trigger] src[i]).enabled ==> {
                let k = spec_scheduling_key(src[i]);
                &&& s.has_key(k)
                &&& s.monitor_of(k) == src[i]
                &&& s.heap_has(k, (now + spec_jitter(k, s.jitter_ms_max)) as u64)
            },
        forall|k: Seq<char>|
            #[trigger] s.has_key(k) ==> exists|i: int|
                0 <= i < src.len() && (#[trigger] src[i]).enabled && spec_scheduling_key(src[i])
                    == k,
        (forall|i: int| 0 <= i < src.len() ==> !(#[trigger] src[i]).enabled) ==> s.is_idle(),
{
    let e = s.entries@;
    let h = s.heap@;
    assert(s.wf()) by {
        assert forall|i: int| 0 <= i < h.len() implies s.has_key((#[trigger] h[i]).key@) by {
            assert(h[i].key@ == e[i].0@);
            assert(s.entries@[i].0@ == h[i].key@);
        }
        assert forall|i: int, j: int|
            0 <= i < j < h.len() implies (#[trigger] h[i]).key@ != (#[trigger] h[j]).key@ by {
            assert(h[i].key@ == e[i].0@);
            assert(h[j].key@ == e[j].0@);
        }
        assert forall|i: int|
            0 <= i < e.len() implies 1 <= (#[trigger] e[i]).1.interval <= interval_bound() by {
            assert(e[i].1 == src[srcof[i]]);
            assert(src[srcof[i]].enabled);
        }
    }
    assert forall|i: int|
        0 <= i < src.len() && (#[trigger] src[i]).enabled implies {
            let k = spec_scheduling_key(src[i]);
            &&& s.has_key(k)
            &&& s.monitor_of(k) == src[i]
            &&& s.heap_has(k, (now + spec_jitter(k, s.jitter_ms_max)) as u64)
        } by {
        let k = spec_scheduling_key(src[i]);
        let w = entof[i];
        assert(srcof[w] == i);
        assert(e[w].1 == src[i] && e[w].0@ == k);
        assert(s.entries@[w].0@ == k);
        assert(s.has_key(k));
        assert(s.monitor_of(k) == src[i]) by {
            let w2 = s.key_idx(k);
            assert(s.entries@[w2].0@ == k);
            if w2 != w {
                assert(e[w2].0@ != e[w].0@);
            }
        }
        assert(h[w].key@ == k && h[w].when == now + spec_jitter(k, s.jitter_ms_max));
        assert(s.heap@[w].key@ == k && s.heap@[w].when == (now + spec_jitter(
            k,
            s.jitter_ms_max,
        )) as u64);
    }
    assert forall|k: Seq<char>| #[trigger] s.has_key(k) implies exists|i: int|
        0 <= i < src.len() && (#[trigger] src[i]).enabled && spec_scheduling_key(src[i]) == k by {
        let w = s.key_idx(k);
        assert(s.entries@[w].0@ == k);
        let v = srcof[w];
        assert(0 <= v < src.len() && src[v].enabled && spec_scheduling_key(src[v]) == k);
    }
    if forall|i: int| 0 <= i < src.len() ==> !(#[trigger] src[i]).enabled {
        if e.len() > 0 {
            assert(src[srcof[0]].enabled);
        }
    }
}

/// Removing one heap slot keeps well-formedness apart from the heap shape.
proof fn lemma_heap_remove(pre: Scheduler, post: Scheduler, i: int)
    requires
        pre.wf(),
        0 <= i < pre.heap@.len(),
        post.heap@ == pre.heap@.remove(i),
        post.entries == pre.entries,
        post.jitter_ms_max == pre.jitter_ms_max,
    ensures
        post.wf(),
{
    assert forall|a: int|
        0 <= a < post.heap@.len() implies post.has_key((#[trigger] post.heap@[a]).key@) by {
        let src = if a < i {
            a
        } else {
            a + 1
        };
        assert(post.heap@[a] == pre.heap@[src]);
        assert(pre.has_key(pre.heap@[src].key@));
        let w = pre.key_idx(pre.heap@[src].key@);
        assert(pre.entries@[w].0@ == pre.heap@[src].key@);
        assert(post.entries@[w].0@ == post.heap@[a].key@);
    }
    assert forall|a: int, b: int|
        0 <= a < b < post.heap@.len() implies (#[trigger] post.heap@[a]).key@ != (
    #[trigger] post.heap@[b]).key@ by {
        let sa = if a < i {
            a
        } else {
            a + 1
        };
        let sb = if b < i {
            b
        } else {
            b + 1
        };
        assert(post.heap@[a] == pre.heap@[sa]);
        assert(post.heap@[b] == pre.heap@[sb]);
    }
}

/// Removing a slot and pushing a fresh item under the same key keeps the
/// one-firing-per-key shape and the key coverage.
proof fn lemma_heap_requeue(pre: Scheduler, post: Scheduler, i: int)
    requires
        pre.wf(),
        0 <= i < pre.heap@.len(),
        post.heap@.len() == pre.heap@.len(),
        post.heap@ == pre.heap@.remove(i).push(post.heap@[post.heap@.len() - 1]),
        post.heap@[post.heap@.len() - 1].key@ == pre.heap@[i].key@,
        post.entries == pre.entries,
        post.jitter_ms_max == pre.jitter_ms_max,
        pre.has_key(pre.heap@[i].key@),
    ensures
        post.wf(),
{
    let n = post.heap@.len() - 1;
    assert forall|a: int|
        0 <= a < post.heap@.len() implies post.has_key((#[trigger] post.heap@[a]).key@) by {
        if a < n {
            let src = if a < i {
                a
            } else {
                a + 1
            };
            assert(post.heap@[a] == pre.heap@[src]);
            assert(pre.has_key(pre.heap@[src].key@));
            let w = pre.key_idx(pre.heap@[src].key@);
            assert(pre.entries@[w].0@ == pre.heap@[src].key@);
            assert(post.entries@[w].0@ == post.heap@[a].key@);
        } else {
            let w = pre.key_idx(pre.heap@[i].key@);
            assert(pre.entries@[w].0@ == pre.heap@[i].key@);
            assert(post.entries@[w].0@ == post.heap@[a].key@);
        }
    }
    assert forall|a: int, b: int|
        0 <= a < b < post.heap@.len() implies (#[trigger] post.heap@[a]).key@ != (
    #[trigger] post.heap@[b]).key@ by {
        let sa = if a < i {
            a
        } else {
            a + 1
        };
        if b == n {
            assert(post.heap@[a] == pre.heap@[sa]);
            assert(post.heap@[b].key@ == pre.heap@[i].key@);
            assert(sa != i);
        } else {
            let sb = if b < i {
                b
            } else {
                b + 1
            };
            assert(post.heap@[a] == pre.heap@[sa]);
            assert(post.heap@[b] == pre.heap@[sb]);
        }
    }
}

} // verus!
