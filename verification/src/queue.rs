//! The pulse retry queue: a bounded, FIFO-ordered, id-keyed buffer behind
//! the channel transport. Oldest pulses are dropped on overflow, pulses that
//! exhaust their retries are dropped, and server acknowledgment removes a
//! pulse by its id.

use vstd::prelude::*;

verus! {

/// Configuration of the pulse retry queue.
pub struct PulseQueueConfig {
    pub max_queue_size: usize,
    pub max_retries: u32,
    pub retry_delay_ms: u64,
}

impl PulseQueueConfig {
    /// The built-in configuration: capacity 10 000, 300 attempts per pulse,
    /// one second between retries.
    pub fn cached() -> (r: PulseQueueConfig)
        ensures
            r.max_queue_size == 10000,
            r.max_retries == 300,
            r.retry_delay_ms == 1000,
    {
        PulseQueueConfig { max_queue_size: 10000, max_retries: 300, retry_delay_ms: 1000 }
    }
}

impl Default for PulseQueueConfig {
    fn default() -> (r: Self)
        ensures
            r.max_queue_size == 10000,
            r.max_retries == 300,
            r.retry_delay_ms == 1000,
    {
        PulseQueueConfig::cached()
    }
}

impl Clone for PulseQueueConfig {
    fn clone(&self) -> (r: Self)
        ensures
            r == *self,
    {
        PulseQueueConfig {
            max_queue_size: self.max_queue_size,
            max_retries: self.max_retries,
            retry_delay_ms: self.retry_delay_ms,
        }
    }
}

/// The wire form of one pulse. Numeric fields carry their decimal rendering;
/// time fields carry RFC-3339 text with millisecond precision.
pub struct PushMessage {
    pub token: String,
    pub pulse_id: Option<String>,
    pub latency: Option<String>,
    pub start_time: Option<String>,
    pub end_time: Option<String>,
    pub custom1: Option<String>,
    pub custom2: Option<String>,
    pub custom3: Option<String>,
}

fn clone_opt_string(s: &Option<String>) -> (r: Option<String>)
    ensures
        r == *s,
{
    match s {
        Option::None => Option::None,
        Option::Some(v) => Option::Some(v.clone()),
    }
}

impl Clone for PushMessage {
    fn clone(&self) -> (r: Self)
        ensures
            r == *self,
    {
        PushMessage {
            token: self.token.clone(),
            pulse_id: clone_opt_string(&self.pulse_id),
            latency: clone_opt_string(&self.latency),
            start_time: clone_opt_string(&self.start_time),
            end_time: clone_opt_string(&self.end_time),
            custom1: clone_opt_string(&self.custom1),
            custom2: clone_opt_string(&self.custom2),
            custom3: clone_opt_string(&self.custom3),
        }
    }
}

/// One queued pulse: its message, how often it has been sent, and when it
/// was last sent (a millisecond timestamp).
pub struct QueuedPulse {
    pub message: PushMessage,
    pub attempts: u32,
    pub last_sent: Option<u64>,
}

/// The bounded retry queue: an insertion-ordered id list plus an id-keyed
/// entry table. The list may briefly hold ids of already-acknowledged
/// pulses; they are skipped as stale when popped.
pub struct PulseQueue {
    pub config: PulseQueueConfig,
    pub order: Vec<String>,
    pub pulses: Vec<(String, QueuedPulse)>,
}

impl PulseQueue {
    /// The queue's configuration.
    pub open spec fn spec_config(self) -> PulseQueueConfig {
        self.config
    }

    /// The number of live (unacknowledged, undropped) pulses.
    pub open spec fn size(self) -> nat {
        self.pulses@.len()
    }

    /// A live pulse with this id exists.
    pub open spec fn has_id(self, id: Seq<char>) -> bool {
        exists|i: int| 0 <= i < self.pulses@.len() && (#[trigger] self.pulses@[i]).0@ == id
    }

    /// The index of the live pulse with this id.
    pub open spec fn idx_of(self, id: Seq<char>) -> int {
        choose|i: int| 0 <= i < self.pulses@.len() && (#[trigger] self.pulses@[i]).0@ == id
    }

    /// The live pulse with this id.
    pub open spec fn entry_for(self, id: Seq<char>) -> QueuedPulse {
        self.pulses@[self.idx_of(id)].1
    }

    /// The ids in the insertion-ordered list, oldest first.
    pub open spec fn order_ids(self) -> Seq<Seq<char>> {
        self.order@.map_values(|s: String| s@)
    }

    /// Well-formedness: the capacity is positive and respected, live ids are
    /// distinct, and every live id still stands somewhere in the ordered
    /// list (so a scan of the list reaches every live pulse).
    pub open spec fn wf(self) -> bool {
        &&& self.config.max_queue_size >= 1
        &&& self.pulses@.len() <= self.config.max_queue_size
        &&& forall|i: int, j: int|
            0 <= i < j < self.pulses@.len() ==> (#[trigger] self.pulses@[i]).0@ != (
            #[trigger] self.pulses@[j]).0@
        &&& forall|i: int|
            0 <= i < self.pulses@.len() ==> self.order_ids().contains(
                (#[trigger] self.pulses@[i]).0@,
            )
        &&& forall|i: int|
            0 <= i < self.pulses@.len() ==> ((#[trigger] self.pulses@[i]).1.message.pulse_id
                matches Option::Some(p) && p@ == self.pulses@[i].0@)
    }

    /// `id` is the oldest live id: it stands in the ordered list at some
    /// position before which every id is stale.
    pub open spec fn is_oldest_live(self, id: Seq<char>) -> bool {
        exists|i: int|
            {
                &&& 0 <= i < self.order_ids().len()
                &&& (#[trigger] self.order_ids()[i]) == id
                &&& self.has_id(id)
                &&& forall|k: int| 0 <= k < i ==> !self.has_id(#[trigger] self.order_ids()[k])
            }
    }

    /// The oldest live id (meaningful whenever some pulse is live).
    pub open spec fn oldest_live_id(self) -> Seq<char> {
        choose|v: Seq<char>| self.is_oldest_live(v)
    }

    /// Dropping the oldest live pulse pops the ordered list up to and
    /// including the slot `e` holding it; everything before `e` was stale.
    pub open spec fn drops_order_prefix(pre: PulseQueue, post: PulseQueue, e: int) -> bool {
        &&& 0 <= e < pre.order_ids().len()
        &&& pre.order_ids()[e] == pre.oldest_live_id()
        &&& forall|k: int| 0 <= k < e ==> !pre.has_id(#[trigger] pre.order_ids()[k])
        &&& post.order_ids() == pre.order_ids().skip(e + 1)
    }

    /// An enqueue at capacity pops the list up to the oldest live pulse's
    /// slot `e` and appends the fresh id at the back.
    pub open spec fn order_after_eviction(
        pre: PulseQueue,
        post: PulseQueue,
        id: Seq<char>,
        e: int,
    ) -> bool {
        &&& 0 <= e < pre.order_ids().len()
        &&& pre.order_ids()[e] == pre.oldest_live_id()
        &&& forall|k: int| 0 <= k < e ==> !pre.has_id(#[trigger] pre.order_ids()[k])
        &&& post.order_ids() == pre.order_ids().skip(e + 1).push(id)
    }

    /// A fresh, empty queue.
    pub fn new(config: PulseQueueConfig) -> (q: PulseQueue)
        requires
            config.max_queue_size >= 1,
        ensures
            q.wf(),
            q.size() == 0,
            q.spec_config() == config,
            forall|id: Seq<char>| !q.has_id(id),
    {
        PulseQueue { config, order: Vec::new(), pulses: Vec::new() }
    }

    /// How many pulses are live.
    pub fn pending_count(&self) -> (r: usize)
        ensures
            r == self.size(),
    {
        self.pulses.len()
    }

    /// The retry cadence, in milliseconds.
    pub fn retry_delay(&self) -> (r: u64)
        ensures
            r == self.spec_config().retry_delay_ms,
    {
        self.config.retry_delay_ms
    }

    fn find_index(&self, id: &String) -> (r: Option<usize>)
        ensures
            match r {
                Option::Some(j) => j < self.pulses@.len() && self.pulses@[j as int].0@ == id@,
                Option::None => !self.has_id(id@),
            },
    {
        let n = self.pulses.len();
        let mut j: usize = 0;
        while j < n
            invariant
                j <= n == self.pulses@.len(),
                forall|k: int| 0 <= k < j ==> (#[trigger] self.pulses@[k]).0@ != id@,
            decreases n - j,
        {
            if self.pulses[j].0 == *id {
                return Option::Some(j);
            }
            j = j + 1;
        }
        Option::None
    }

    /// Drop the oldest live pulse: pop stale ids off the front of the list
    /// until a live one is found, and remove that pulse.
    fn drop_oldest(&mut self)
        requires
            old(self).wf(),
            old(self).size() >= 1,
        ensures
            final(self).wf(),
            final(self).spec_config() == old(self).spec_config(),
            final(self).size() == old(self).size() - 1,
            old(self).is_oldest_live(old(self).oldest_live_id()),
            !final(self).has_id(old(self).oldest_live_id()),
            forall|id: Seq<char>|
                id != old(self).oldest_live_id()
                    ==> (#[trigger] final(self).has_id(id) == old(self).has_id(id)),
            forall|id: Seq<char>|
                id != old(self).oldest_live_id() && old(self).has_id(id)
                    ==> #[trigger] final(self).entry_for(id) == old(self).entry_for(id),
            exists|e: int| #[trigger] Self::drops_order_prefix(*old(self), *final(self), e),
    {
        let ghost pre = *self;
        let ghost mut popped: int = 0;
        loop
            invariant
                pre == *old(self),
                self.wf(),
                self.pulses == pre.pulses,
                self.config == pre.config,
                pre.wf(),
                pre.size() >= 1,
                0 <= popped <= pre.order@.len(),
                self.order@ == pre.order@.skip(popped),
                forall|k: int| 0 <= k < popped ==> !pre.has_id(#[trigger] pre.order_ids()[k]),
            decreases self.order@.len(),
        {
            proof {
                // some live pulse exists, and its id stands in the list
                assert(self.order_ids().contains(self.pulses@[0].0@));
                assert(self.order.len() > 0);
            }
            let id = self.order.remove(0);
            proof {
                assert(self.order@ =~= pre.order@.skip(popped + 1));
                assert(id@ == pre.order_ids()[popped]);
            }
            match self.find_index(&id) {
                Option::None => {
                    proof {
                        popped = popped + 1;
                        // live ids keep an occurrence in the shortened list
                        assert forall|i: int|
                            0 <= i < self.pulses@.len() implies self.order_ids().contains(
                            (#[trigger] self.pulses@[i]).0@,
                        ) by {
                            let lid = self.pulses@[i].0@;
                            let prev = pre.order@.skip(popped - 1).map_values(|s: String| s@);
                            assert(prev.contains(lid));
                            let w = choose|w: int| 0 <= w < prev.len() && prev[w] == lid;
                            assert(w != 0);
                            assert(self.order_ids()[w - 1] == lid);
                        }
                    }
                },
                Option::Some(j) => {
                    let ghost mid = *self;
                    let ghost victim = id@;
                    self.pulses.remove(j);
                    proof {
                        // the victim is the first live id of the list as it stood
                        assert(pre.is_oldest_live(victim)) by {
                            assert(pre.order_ids()[popped] == victim);
                            assert(pre.has_id(victim));
                        }
                        // removing it keeps every other pulse
                        assert(mid.order@ == self.order@);
                        lemma_remove_keeps_others(
                            PulseQueue { pulses: mid.pulses, order: pre.order, config: pre.config },
                            PulseQueue {
                                pulses: self.pulses,
                                order: pre.order,
                                config: pre.config,
                            },
                            j as int,
                        );
                        // and the shortened list still carries every remaining id
                        assert forall|i: int|
                            0 <= i < self.pulses@.len() implies self.order_ids().contains(
                            (#[trigger] self.pulses@[i]).0@,
                        ) by {
                            let lid = self.pulses@[i].0@;
                            let prev = mid.order@.map_values(|s: String| s@);
                            assert(mid.order_ids() =~= pre.order_ids().skip(popped + 1));
                            let full = pre.order_ids();
                            assert(lid != victim) by {
                                if i < j {
                                    assert(mid.pulses@[i].0@ == lid);
                                } else {
                                    assert(mid.pulses@[i + 1].0@ == lid);
                                }
                            }
                            // lid occurs somewhere in the pre list
                            assert(pre.has_id(lid)) by {
                                if i < j {
                                } else {
                                    assert(mid.pulses@[i + 1].0@ == lid);
                                }
                            }
                            let w = choose|w: int| 0 <= w < full.len() && full[w] == lid;
                            assert(w > popped) by {
                                if w < popped {
                                    assert(!pre.has_id(full[w]));
                                } else if w == popped {
                                    assert(full[w] == victim);
                                }
                            }
                            assert(self.order_ids()[w - popped - 1] == lid);
                        }
                        assert(self.wf());
                        lemma_oldest_live_unique(pre, victim);
                        assert(victim == pre.oldest_live_id());
                        // transfer from the reconstructed queues to `self`
                        assert(!self.has_id(victim));
                        assert forall|oid: Seq<char>| oid != victim implies (
                        #[trigger] self.has_id(oid) == pre.has_id(oid)) by {
                            let post2 = PulseQueue {
                                pulses: self.pulses,
                                order: pre.order,
                                config: pre.config,
                            };
                            assert(post2.has_id(oid) == pre.has_id(oid));
                            assert(self.has_id(oid) == post2.has_id(oid));
                        }
                        assert forall|oid: Seq<char>|
                            oid != victim && pre.has_id(oid) implies #[trigger] self.entry_for(oid)
                            == pre.entry_for(oid) by {
                            let post2 = PulseQueue {
                                pulses: self.pulses,
                                order: pre.order,
                                config: pre.config,
                            };
                            assert(post2.entry_for(oid) == pre.entry_for(oid));
                            assert(self.entry_for(oid) == post2.entry_for(oid));
                        }
                        // the list lost exactly its prefix up to the victim
                        assert(Self::drops_order_prefix(pre, *self, popped)) by {
                            assert(self.order_ids() =~= pre.order_ids().skip(popped + 1));
                        }
                    }
                    return ;
                },
            }
        }
    }

    /// Enqueue a pulse for delivery: assign it a fresh pulse id and append
    /// it. The call never blocks; when the queue is full, the oldest live
    /// pulse is dropped first, so the size afterwards still equals the
    /// capacity.
    pub fn enqueue(&mut self, message: PushMessage) -> (r: String)
        requires
            old(self).wf(),
        ensures
            final(self).wf(),
            final(self).spec_config() == old(self).spec_config(),
            r@.len() == 36,
            final(self).has_id(r@),
            final(self).entry_for(r@) == (QueuedPulse {
                message: PushMessage {
                    token: message.token,
                    pulse_id: Option::Some(r),
                    latency: message.latency,
                    start_time: message.start_time,
                    end_time: message.end_time,
                    custom1: message.custom1,
                    custom2: message.custom2,
                    custom3: message.custom3,
                },
                attempts: 0,
                last_sent: Option::None,
            }),
            !old(self).has_id(r@) ==> final(self).size() == (if old(self).size()
                >= old(self).spec_config().max_queue_size {
                old(self).size() as int
            } else {
                old(self).size() + 1int
            }),
            (!old(self).has_id(r@) && old(self).size() < old(self).spec_config().max_queue_size)
                ==> (forall|id: Seq<char>|
                id != r@ ==> (#[trigger] final(self).has_id(id) == old(self).has_id(id)))
                && (forall|id: Seq<char>|
                id != r@ && old(self).has_id(id)
                    ==> #[trigger] final(self).entry_for(id) == old(self).entry_for(id)),
            (!old(self).has_id(r@) && old(self).size() >= old(self).spec_config().max_queue_size)
                ==> old(self).is_oldest_live(old(self).oldest_live_id()) && !final(self).has_id(
                old(self).oldest_live_id(),
            ) && (forall|id: Seq<char>|
                id != old(self).oldest_live_id() && id != r@
                    ==> (#[trigger] final(self).has_id(id) == old(self).has_id(id))) && (
            forall|id: Seq<char>|
                id != old(self).oldest_live_id() && id != r@ && old(self).has_id(id)
                    ==> #[trigger] final(self).entry_for(id) == old(self).entry_for(id)),
            final(self).order_ids().len() >= 1 && final(self).order_ids().last() == r@,
            old(self).size() < old(self).spec_config().max_queue_size ==> final(self).order_ids()
                == old(self).order_ids().push(r@),
            old(self).size() >= old(self).spec_config().max_queue_size ==> (exists|e: int|
                #[trigger] Self::order_after_eviction(*old(self), *final(self), r@, e)),
    {
        if self.pulses.len() >= self.config.max_queue_size {
            self.drop_oldest();
        }
        let ghost after_evict = *self;
        let id = fresh_pulse_id();
        // an id collision (possible in principle with random ids) replaces
        // the colliding entry rather than duplicating the id
        match self.find_index(&id) {
            Option::Some(j) => {
                let ghost mid = *self;
                proof {
                    // a collision means the id was already live, so it was
                    // live before the call too (eviction only removes)
                    assert(after_evict.has_id(id@));
                    assert(old(self).has_id(id@));
                }
                self.pulses.remove(j);
                proof {
                    lemma_remove_keeps_others(mid, *self, j as int);
                }
            },
            Option::None => {
                proof {
                    assert(*self == after_evict);
                }
            },
        }
        let ghost before_push = *self;
        proof {
            assert(old(self).has_id(id@) || before_push == after_evict);
        }
        let mut msg = message;
        msg.pulse_id = Option::Some(id.clone());
        self.order.push(id.clone());
        self.pulses.push(
            (id.clone(), QueuedPulse { message: msg, attempts: 0, last_sent: Option::None }),
        );
        proof {
            let n = before_push.pulses@.len() as int;
            assert(self.pulses@ =~= before_push.pulses@.push(
                (id, QueuedPulse { message: msg, attempts: 0, last_sent: Option::None }),
            ));
            assert(self.order_ids() =~= before_push.order_ids().push(id@));
            assert(self.pulses@[n].0@ == id@);
            assert(self.has_id(id@));
            assert(self.entry_for(id@) == self.pulses@[n].1) by {
                let i = self.idx_of(id@);
                if i < n {
                    assert(before_push.pulses@[i].0@ == id@);
                    assert(before_push.has_id(id@));
                }
            }
            assert(self.wf()) by {
                assert forall|i: int|
                    0 <= i < self.pulses@.len() implies self.order_ids().contains(
                    (#[trigger] self.pulses@[i]).0@,
                ) by {
                    if i < n {
                        let lid = before_push.pulses@[i].0@;
                        assert(before_push.order_ids().contains(lid));
                        let w = choose|w: int|
                            0 <= w < before_push.order_ids().len() && before_push.order_ids()[w]
                                == lid;
                        assert(self.order_ids()[w] == lid);
                    } else {
                        assert(self.order_ids()[self.order_ids().len() - 1] == id@);
                    }
                }
            }
            assert forall|oid: Seq<char>| oid != id@ implies (#[trigger] self.has_id(oid)
                == before_push.has_id(oid)) by {
                if before_push.has_id(oid) {
                    let i = before_push.idx_of(oid);
                    assert(self.pulses@[i].0@ == oid);
                }
                if self.has_id(oid) {
                    let i = self.idx_of(oid);
                    assert(i < n);
                    assert(before_push.pulses@[i].0@ == oid);
                }
            }
            assert forall|oid: Seq<char>|
                oid != id@ && before_push.has_id(oid) implies #[trigger] self.entry_for(oid)
                == before_push.entry_for(oid) by {
                let i = before_push.idx_of(oid);
                let i2 = self.idx_of(oid);
                assert(self.has_id(oid));
                assert(self.pulses@[i2].0@ == oid);
                assert(i2 < n);
                assert(before_push.pulses@[i2].0@ == oid);
                assert(i2 == i);
            }
            // chain back to the state before the call (the fresh-id case)
            let pre = *old(self);
            let maxq = pre.spec_config().max_queue_size as int;
            if !pre.has_id(id@) {
                assert(before_push == after_evict);
                if pre.size() < maxq {
                    assert(after_evict == pre);
                } else {
                    let victim = pre.oldest_live_id();
                    assert(victim != id@);
                    assert(!self.has_id(victim)) by {
                        assert(self.has_id(victim) == before_push.has_id(victim));
                    }
                    assert forall|oid: Seq<char>| oid != victim && oid != id@ implies (
                    #[trigger] self.has_id(oid) == pre.has_id(oid)) by {
                        assert(self.has_id(oid) == before_push.has_id(oid));
                        assert(after_evict.has_id(oid) == pre.has_id(oid));
                    }
                    assert forall|oid: Seq<char>|
                        oid != victim && oid != id@ && pre.has_id(oid) implies
                        #[trigger] self.entry_for(oid) == pre.entry_for(oid) by {
                        assert(after_evict.has_id(oid) == pre.has_id(oid));
                        assert(self.entry_for(oid) == before_push.entry_for(oid));
                        assert(after_evict.entry_for(oid) == pre.entry_for(oid));
                    }
                }
            }
            // the fresh id stands at the back of the list, behind whatever
            // the eviction left in place
            assert(before_push.order@ == after_evict.order@);
            assert(self.order_ids().last() == id@);
            if pre.size() < maxq {
                assert(after_evict == pre);
                assert(self.order_ids() =~= pre.order_ids().push(id@));
            } else {
                let e = choose|e: int|
                    #[trigger] Self::drops_order_prefix(pre, after_evict, e);
                assert(Self::order_after_eviction(pre, *self, id@, e)) by {
                    assert(after_evict.order_ids() == pre.order_ids().skip(e + 1));
                    assert(self.order_ids() =~= pre.order_ids().skip(e + 1).push(id@));
                }
            }
        }
        id
    }

    /// The next pulse to send: pop ids off the front of the list, skipping
    /// stale ones and dropping pulses out of retries, until a live pulse is
    /// found; count one more attempt against it, rotate its id to the back
    /// for fairness, and return a copy of its message. Only an id that was
    /// live before the call can come back: an acknowledged pulse is never
    /// returned again.
    pub fn next_to_send(&mut self) -> (r: Option<PushMessage>)
        requires
            old(self).wf(),
        ensures
            final(self).wf(),
            final(self).spec_config() == old(self).spec_config(),
            forall|id: Seq<char>| !old(self).has_id(id) ==> !(#[trigger] final(self).has_id(id)),
            forall|id: Seq<char>|
                old(self).has_id(id) && !(#[trigger] final(self).has_id(id)) ==> old(
                    self,
                ).entry_for(id).attempts >= old(self).spec_config().max_retries,
            match r {
                Option::Some(msg) => {
                    &&& msg.pulse_id matches Option::Some(pid) && {
                        &&& old(self).has_id(pid@)
                        &&& final(self).has_id(pid@)
                        &&& old(self).entry_for(pid@).attempts < old(
                            self,
                        ).spec_config().max_retries
                        &&& msg == old(self).entry_for(pid@).message
                        &&& final(self).entry_for(pid@) == (QueuedPulse {
                            message: old(self).entry_for(pid@).message,
                            attempts: (old(self).entry_for(pid@).attempts + 1) as u32,
                            last_sent: old(self).entry_for(pid@).last_sent,
                        })
                        &&& forall|id: Seq<char>|
                            id != pid@ && #[trigger] final(self).has_id(id)
                                ==> final(self).entry_for(id) == old(self).entry_for(id)
                        &&& exists|i: int|
                            {
                                &&& 0 <= i < old(self).order_ids().len()
                                &&& #[trigger] old(self).order_ids()[i] == pid@
                                &&& forall|k: int|
                                    0 <= k < i ==> !old(self).has_id(
                                        #[trigger] old(self).order_ids()[k],
                                    ) || old(self).entry_for(old(self).order_ids()[k]).attempts
                                        >= old(self).spec_config().max_retries
                                &&& final(self).order_ids() == old(self).order_ids().skip(
                                    i + 1,
                                ).push(pid@)
                            }
                    }
                },
                Option::None => final(self).size() == 0,
            },
    {
        let ghost pre = *self;
        let ghost mut popped: int = 0;
        loop
            invariant
                pre == *old(self),
                pre.wf(),
                self.wf(),
                self.config == pre.config,
                0 <= popped <= pre.order@.len(),
                self.order@ == pre.order@.skip(popped),
                forall|k: int|
                    0 <= k < popped ==> !pre.has_id(#[trigger] pre.order_ids()[k])
                        || pre.entry_for(pre.order_ids()[k]).attempts
                        >= pre.spec_config().max_retries,
                forall|id: Seq<char>| !pre.has_id(id) ==> !(#[trigger] self.has_id(id)),
                forall|id: Seq<char>|
                    pre.has_id(id) && !(#[trigger] self.has_id(id)) ==> pre.entry_for(id).attempts
                        >= pre.spec_config().max_retries,
                forall|id: Seq<char>|
                    #[trigger] self.has_id(id) ==> self.entry_for(id) == pre.entry_for(id),
            decreases self.order@.len(),
        {
            if self.order.len() == 0 {
                proof {
                    if self.pulses@.len() > 0 {
                        assert(self.order_ids().contains(self.pulses@[0].0@));
                    }
                }
                return Option::None;
            }
            let ghost it = *self;
            let id = self.order.remove(0);
            proof {
                assert(self.order@ =~= it.order@.skip(1));
                assert(self.order@ =~= pre.order@.skip(popped + 1));
                assert(it.order_ids()[0] == id@);
                assert(pre.order_ids()[popped] == id@);
            }
            match self.find_index(&id) {
                Option::None => {
                    proof {
                        // only the list changed: liveness and entries carry over
                        assert forall|oid: Seq<char>| #[trigger] self.has_id(oid) == it.has_id(
                            oid,
                        ) by {
                            if self.has_id(oid) {
                                let i = self.idx_of(oid);
                                assert(it.pulses@[i].0@ == oid);
                            }
                            if it.has_id(oid) {
                                let i = it.idx_of(oid);
                                assert(self.pulses@[i].0@ == oid);
                            }
                        }
                        assert forall|oid: Seq<char>| #[trigger] self.has_id(oid) implies
                            self.entry_for(oid) == it.entry_for(oid) by {
                            let a = self.idx_of(oid);
                            assert(self.pulses@[a].0@ == oid);
                            let b = it.idx_of(oid);
                            assert(it.pulses@[b].0@ == oid);
                            assert(a == b);
                        }
                        // the popped id is stale, so it was acknowledged (and
                        // never dropped for retries) or expired along the way
                        assert(!pre.has_id(id@) || pre.entry_for(id@).attempts
                            >= pre.spec_config().max_retries) by {
                            assert(!self.has_id(id@));
                        }
                        popped = popped + 1;
                        // every live id keeps an occurrence further down the list
                        assert forall|i: int|
                            0 <= i < self.pulses@.len() implies self.order_ids().contains(
                            (#[trigger] self.pulses@[i]).0@,
                        ) by {
                            let lid = self.pulses@[i].0@;
                            assert(it.order_ids().contains(lid));
                            let w = choose|w: int|
                                0 <= w < it.order_ids().len() && it.order_ids()[w] == lid;
                            assert(w != 0);
                            assert(self.order_ids()[w - 1] == lid);
                        }
                    }
                },
                Option::Some(j) => {
                    if self.pulses[j].1.attempts >= self.config.max_retries {
                        let ghost mid = *self;
                        self.pulses.remove(j);
                        proof {
                            lemma_remove_keeps_others(
                                PulseQueue { pulses: mid.pulses, order: it.order, config: it.config },
                                PulseQueue {
                                    pulses: self.pulses,
                                    order: it.order,
                                    config: it.config,
                                },
                                j as int,
                            );
                            let ghost victim = id@;
                            assert(!self.has_id(victim));
                            assert forall|oid: Seq<char>| oid != victim implies (
                            #[trigger] self.has_id(oid) == it.has_id(oid)) by {
                                let post2 = PulseQueue {
                                    pulses: self.pulses,
                                    order: it.order,
                                    config: it.config,
                                };
                                assert(post2.has_id(oid) == it.has_id(oid));
                                assert(self.has_id(oid) == post2.has_id(oid));
                            }
                            assert forall|oid: Seq<char>|
                                oid != victim && it.has_id(oid) implies #[trigger] self.entry_for(
                                oid,
                            ) == it.entry_for(oid) by {
                                let post2 = PulseQueue {
                                    pulses: self.pulses,
                                    order: it.order,
                                    config: it.config,
                                };
                                assert(post2.entry_for(oid) == it.entry_for(oid));
                                assert(self.entry_for(oid) == post2.entry_for(oid));
                            }
                            // the dropped pulse had exhausted its retries
                            assert(it.has_id(victim)) by {
                                assert(it.pulses@[j as int].0@ == victim);
                            }
                            assert(it.entry_for(victim) == it.pulses@[j as int].1) by {
                                let i2 = it.idx_of(victim);
                                assert(it.pulses@[i2].0@ == victim);
                            }
                            assert(pre.has_id(victim));
                            assert(it.entry_for(victim) == pre.entry_for(victim));
                            assert(pre.entry_for(victim).attempts
                                >= pre.spec_config().max_retries);
                            popped = popped + 1;
                            // live ids keep an occurrence in the shortened list
                            assert forall|i: int|
                                0 <= i < self.pulses@.len() implies self.order_ids().contains(
                                (#[trigger] self.pulses@[i]).0@,
                            ) by {
                                let lid = self.pulses@[i].0@;
                                assert(self.has_id(lid));
                                assert(lid != victim);
                                assert(it.has_id(lid));
                                assert(it.order_ids().contains(lid));
                                let w = choose|w: int|
                                    0 <= w < it.order_ids().len() && it.order_ids()[w] == lid;
                                assert(w != 0) by {
                                    if w == 0 {
                                        assert(it.order_ids()[0] == victim);
                                    }
                                }
                                assert(self.order_ids()[w - 1] == lid);
                            }
                            assert(self.wf());
                        }
                    } else {
                        let ghost mid = *self;
                        let mut entry = self.pulses.remove(j);
                        let prev_attempts = entry.1.attempts;
                        entry.1.attempts = prev_attempts + 1;
                        let msg = entry.1.message.clone();
                        self.pulses.push(entry);
                        self.order.push(id);
                        proof {
                            let pid = mid.pulses@[j as int].0@;
                            let n = self.pulses@.len() as int;
                            assert(self.pulses@ =~= mid.pulses@.remove(j as int).push(
                                (mid.pulses@[j as int].0, QueuedPulse {
                                    message: mid.pulses@[j as int].1.message,
                                    attempts: (mid.pulses@[j as int].1.attempts + 1) as u32,
                                    last_sent: mid.pulses@[j as int].1.last_sent,
                                }),
                            ));
                            assert(mid.order@ == it.order@.skip(1));
                            assert(self.order_ids() =~= it.order_ids().skip(1).push(pid));
                            // ids are the same multiset: removed at j, pushed at the end
                            assert forall|oid: Seq<char>| #[trigger] self.has_id(oid) == mid.has_id(
                                oid,
                            ) by {
                                if mid.has_id(oid) {
                                    let i = mid.idx_of(oid);
                                    if i < j {
                                        assert(self.pulses@[i].0@ == oid);
                                    } else if i == j {
                                        assert(self.pulses@[n - 1].0@ == oid);
                                    } else {
                                        assert(self.pulses@[i - 1].0@ == oid);
                                    }
                                }
                                if self.has_id(oid) {
                                    let i = self.idx_of(oid);
                                    if i < j {
                                        assert(mid.pulses@[i].0@ == oid);
                                    } else if i == n - 1 {
                                        assert(mid.pulses@[j as int].0@ == oid);
                                    } else {
                                        assert(mid.pulses@[i + 1].0@ == oid);
                                    }
                                }
                            }
                            // `mid` and the loop-top state agree on pulses
                            assert forall|oid: Seq<char>| #[trigger] mid.has_id(oid) == it.has_id(
                                oid,
                            ) by {
                                if mid.has_id(oid) {
                                    let i = mid.idx_of(oid);
                                    assert(it.pulses@[i].0@ == oid);
                                }
                                if it.has_id(oid) {
                                    let i = it.idx_of(oid);
                                    assert(mid.pulses@[i].0@ == oid);
                                }
                            }
                            assert forall|oid: Seq<char>| #[trigger] mid.has_id(oid) implies
                                mid.entry_for(oid) == it.entry_for(oid) by {
                                let a = mid.idx_of(oid);
                                assert(mid.pulses@[a].0@ == oid);
                                let b = it.idx_of(oid);
                                assert(it.pulses@[b].0@ == oid);
                                assert(a == b);
                            }
                            // distinctness carries over
                            assert forall|a: int, b: int|
                                0 <= a < b < self.pulses@.len() implies (
                            #[trigger] self.pulses@[a]).0@ != (#[trigger] self.pulses@[b]).0@ by {
                                let ida = if a < j {
                                    a
                                } else {
                                    a + 1
                                };
                                if b == n - 1 {
                                    assert(self.pulses@[b].0@ == mid.pulses@[j as int].0@);
                                    assert(self.pulses@[a].0@ == mid.pulses@[ida].0@);
                                    assert(ida != j);
                                } else {
                                    let idb = if b < j {
                                        b
                                    } else {
                                        b + 1
                                    };
                                    assert(self.pulses@[a].0@ == mid.pulses@[ida].0@);
                                    assert(self.pulses@[b].0@ == mid.pulses@[idb].0@);
                                }
                            }
                            // the rotated entry is the updated one
                            assert(self.entry_for(pid) == self.pulses@[n - 1].1) by {
                                let i2 = self.idx_of(pid);
                                assert(self.pulses@[i2].0@ == pid);
                                if i2 < n - 1 {
                                    let orig = if i2 < j {
                                        i2
                                    } else {
                                        i2 + 1
                                    };
                                    assert(mid.pulses@[orig].0@ == pid);
                                    assert(orig != j);
                                }
                            }
                            // other entries are untouched
                            assert forall|oid: Seq<char>|
                                oid != pid && #[trigger] self.has_id(oid) implies self.entry_for(
                                oid,
                            ) == mid.entry_for(oid) by {
                                let i2 = self.idx_of(oid);
                                assert(self.pulses@[i2].0@ == oid);
                                assert(i2 != n - 1);
                                let orig = if i2 < j {
                                    i2
                                } else {
                                    i2 + 1
                                };
                                assert(mid.pulses@[orig].0@ == oid);
                                assert(mid.entry_for(oid) == mid.pulses@[orig].1) by {
                                    let i3 = mid.idx_of(oid);
                                    assert(mid.pulses@[i3].0@ == oid);
                                }
                            }
                            // the old entry of the rotated pulse
                            assert(mid.entry_for(pid) == mid.pulses@[j as int].1) by {
                                let i3 = mid.idx_of(pid);
                                assert(mid.pulses@[i3].0@ == pid);
                            }
                            // every live id keeps an occurrence in the list
                            assert forall|i: int|
                                0 <= i < self.pulses@.len() implies self.order_ids().contains(
                                (#[trigger] self.pulses@[i]).0@,
                            ) by {
                                let lid = self.pulses@[i].0@;
                                if lid == pid {
                                    assert(self.order_ids()[self.order_ids().len() - 1] == pid);
                                } else {
                                    assert(self.has_id(lid));
                                    assert(mid.has_id(lid));
                                    assert(it.has_id(lid));
                                    assert(it.order_ids().contains(lid));
                                    let w = choose|w: int|
                                        0 <= w < it.order_ids().len() && it.order_ids()[w] == lid;
                                    assert(w != 0) by {
                                        if w == 0 {
                                            assert(it.order_ids()[0] == pid);
                                        }
                                    }
                                    assert(self.order_ids()[w - 1] == lid);
                                }
                            }
                            assert(self.wf());
                            // chain the rotated entry back to the pre state
                            assert(mid.pulses == it.pulses);
                            assert(it.has_id(pid)) by {
                                assert(it.pulses@[j as int].0@ == pid);
                            }
                            assert(it.entry_for(pid) == it.pulses@[j as int].1) by {
                                let i3 = it.idx_of(pid);
                                assert(it.pulses@[i3].0@ == pid);
                            }
                            assert(pre.has_id(pid));
                            assert(pre.entry_for(pid) == it.entry_for(pid));
                            assert(pre.entry_for(pid) == mid.entry_for(pid));
                            // the stored message carries its own id (from wf)
                            assert(msg == mid.pulses@[j as int].1.message);
                            assert(msg.pulse_id matches Option::Some(p) && p@ == pid);
                            assert(pre.entry_for(pid).message == msg);
                            // the taken pulse stood first among the eligible
                            // ids, and its id is now at the back
                            assert(pre.order_ids()[popped] == pid);
                            assert(self.order_ids() =~= pre.order_ids().skip(popped + 1).push(
                                pid,
                            )) by {
                                assert(it.order_ids() =~= pre.order_ids().skip(popped));
                                assert(it.order_ids().skip(1) =~= pre.order_ids().skip(
                                    popped + 1,
                                ));
                            }
                        }
                        return Option::Some(msg);
                    }
                },
            }
        }
    }

    /// A pulse is due for (re)transmission: it has never been sent, or the
    /// retry delay has passed since it was last sent.
    pub open spec fn ready_at(p: QueuedPulse, now_ms: u64, delay_ms: u64) -> bool {
        match p.last_sent {
            Option::None => true,
            Option::Some(t) => now_ms >= t + delay_ms,
        }
    }

    /// Some returned message carries this pulse id.
    pub open spec fn batch_took(out: Seq<PushMessage>, id: Seq<char>) -> bool {
        exists|k: int|
            0 <= k < out.len() && ((#[trigger] out[k]).pulse_id matches Option::Some(p) && p@
                == id)
    }

    /// `id` stands at most once in the list (an id can briefly stand twice
    /// after a colliding fresh id replaced an entry).
    pub open spec fn occurs_once(ids: Seq<Seq<char>>, id: Seq<char>) -> bool {
        forall|w1: int, w2: int|
            0 <= w1 < w2 < ids.len() && (#[trigger] ids[w1]) == id ==> (#[trigger] ids[w2]) != id
    }

    /// After a pass that examined the first `s` slots, the unexamined tail
    /// stands unmoved at the front of the list, and only rotated survivors
    /// of the examined slots stand behind it.
    pub open spec fn scan_rotates(old_ids: Seq<Seq<char>>, new_ids: Seq<Seq<char>>, s: int) -> bool {
        &&& 0 <= s <= old_ids.len()
        &&& new_ids.len() >= old_ids.len() - s
        &&& new_ids.len() <= old_ids.len()
        &&& new_ids.take(old_ids.len() - s) == old_ids.skip(s)
    }

    /// One pass over the current list: every live pulse that is due is taken
    /// (one more attempt counted, its send time stamped), entries out of
    /// retries are dropped, stale ids are forgotten, and every surviving id
    /// is rotated to the back for fairness. At most `max` messages come
    /// back, each one the message of a pulse that was live before the call.
    #[verifier::rlimit(100)]
    pub fn next_batch_to_send(&mut self, max: usize, now_ms: u64) -> (out: Vec<PushMessage>)
        requires
            old(self).wf(),
        ensures
            final(self).wf(),
            final(self).spec_config() == old(self).spec_config(),
            out@.len() <= max,
            forall|id: Seq<char>| !old(self).has_id(id) ==> !(#[trigger] final(self).has_id(id)),
            forall|id: Seq<char>|
                old(self).has_id(id) && !(#[trigger] final(self).has_id(id)) ==> old(
                    self,
                ).entry_for(id).attempts >= old(self).spec_config().max_retries || Self::batch_took(
                    out@,
                    id,
                ),
            forall|k: int|
                0 <= k < out@.len() ==> ((#[trigger] out@[k]).pulse_id matches Option::Some(p) && {
                    &&& old(self).has_id(p@)
                    &&& old(self).entry_for(p@).attempts < old(self).spec_config().max_retries
                    &&& out@[k] == old(self).entry_for(p@).message
                    &&& Self::ready_at(
                        old(self).entry_for(p@),
                        now_ms,
                        old(self).spec_config().retry_delay_ms,
                    )
                }),
            forall|id: Seq<char>|
                #[trigger] final(self).has_id(id) && !Self::batch_took(out@, id)
                    ==> final(self).entry_for(id) == old(self).entry_for(id),
            forall|id: Seq<char>|
                #[trigger] final(self).has_id(id) && Self::batch_took(out@, id)
                    ==> final(self).entry_for(id).message == old(self).entry_for(id).message
                    && final(self).entry_for(id).last_sent == Option::Some(now_ms)
                    && final(self).entry_for(id).attempts > old(self).entry_for(id).attempts
                    && (Self::occurs_once(old(self).order_ids(), id) ==> final(self).entry_for(
                    id,
                ).attempts == old(self).entry_for(id).attempts + 1),
            out@.len() < max ==> (forall|id: Seq<char>|
                #[trigger] old(self).has_id(id) && old(self).entry_for(id).attempts < old(
                    self,
                ).spec_config().max_retries && Self::ready_at(
                    old(self).entry_for(id),
                    now_ms,
                    old(self).spec_config().retry_delay_ms,
                ) ==> Self::batch_took(out@, id)),
            exists|slots: Seq<int>|
                {
                    &&& #[trigger] slots.len() == out@.len()
                    &&& forall|k: int|
                        0 <= k < slots.len() ==> 0 <= #[trigger] slots[k] < old(
                            self,
                        ).order_ids().len() && ((out@[k]).pulse_id matches Option::Some(p) && p@
                            == old(self).order_ids()[slots[k]])
                    &&& forall|k1: int, k2: int|
                        0 <= k1 < k2 < slots.len() ==> #[trigger] slots[k1] < #[trigger] slots[k2]
                },
            exists|s: int|
                #[trigger] Self::scan_rotates(old(self).order_ids(), final(self).order_ids(), s),
            forall|w: int|
                0 <= w < final(self).order_ids().len() ==> old(self).order_ids().contains(
                    #[trigger] final(self).order_ids()[w],
                ),
    {
        let ghost pre = *self;
        let order_len = self.order.len();
        let ghost orig = pre.order_ids();
        let mut out: Vec<PushMessage> = Vec::new();
        let mut scanned: usize = 0;
        let ghost mut slots: Seq<int> = Seq::empty();
        let ghost mut appended: Seq<Seq<char>> = Seq::empty();
        proof {
            assert(self.order_ids() =~= orig.skip(0) + appended);
            assert(self.order_ids().take(order_len as int) =~= orig.skip(0));
        }
        while scanned < order_len && out.len() < max
            invariant
                pre == *old(self),
                pre.wf(),
                self.wf(),
                self.config == pre.config,
                out@.len() <= max,
                scanned <= order_len,
                orig == pre.order_ids(),
                order_len == orig.len(),
                self.order@.len() <= order_len,
                self.order@.len() >= order_len - scanned,
                self.order_ids().take((order_len - scanned) as int) == orig.skip(scanned as int),
                self.order_ids() == orig.skip(scanned as int) + appended,
                appended.len() <= scanned,
                forall|w: int|
                    0 <= w < appended.len() ==> exists|u: int|
                        0 <= u < scanned && orig[u] == #[trigger] appended[w],
                forall|id: Seq<char>| !pre.has_id(id) ==> !(#[trigger] self.has_id(id)),
                forall|id: Seq<char>|
                    pre.has_id(id) && !(#[trigger] self.has_id(id)) ==> pre.entry_for(id).attempts
                        >= pre.spec_config().max_retries || Self::batch_took(out@, id),
                forall|k: int|
                    0 <= k < out@.len() ==> ((#[trigger] out@[k]).pulse_id matches Option::Some(p)
                        && {
                        &&& pre.has_id(p@)
                        &&& pre.entry_for(p@).attempts < pre.spec_config().max_retries
                        &&& out@[k] == pre.entry_for(p@).message
                        &&& Self::ready_at(
                            pre.entry_for(p@),
                            now_ms,
                            pre.spec_config().retry_delay_ms,
                        )
                    }),
                forall|id: Seq<char>|
                    #[trigger] self.has_id(id) && !Self::batch_took(out@, id) ==> self.entry_for(
                        id,
                    ) == pre.entry_for(id),
                forall|id: Seq<char>|
                    #[trigger] self.has_id(id) && Self::batch_took(out@, id) ==> self.entry_for(
                        id,
                    ).message == pre.entry_for(id).message && self.entry_for(id).last_sent
                        == Option::Some(now_ms) && self.entry_for(id).attempts > pre.entry_for(
                        id,
                    ).attempts && (Self::occurs_once(orig, id) ==> self.entry_for(id).attempts
                        == pre.entry_for(id).attempts + 1),
                forall|id: Seq<char>|
                    #[trigger] pre.has_id(id) && pre.entry_for(id).attempts
                        < pre.spec_config().max_retries && Self::ready_at(
                        pre.entry_for(id),
                        now_ms,
                        pre.spec_config().retry_delay_ms,
                    ) ==> Self::batch_took(out@, id) || (exists|w: int|
                        scanned <= w < orig.len() && (#[trigger] orig[w]) == id),
                slots.len() == out@.len(),
                forall|k: int|
                    0 <= k < slots.len() ==> 0 <= #[trigger] slots[k] < scanned && ((
                    out@[k]).pulse_id matches Option::Some(p) && p@ == orig[slots[k]]),
                forall|k1: int, k2: int|
                    0 <= k1 < k2 < slots.len() ==> #[trigger] slots[k1] < #[trigger] slots[k2],
            decreases order_len - scanned,
        {
            let ghost it = *self;
            let ghost out_pre = out@;
            let id = self.order.remove(0);
            proof {
                assert(self.order@ =~= it.order@.skip(1));
                assert(it.order_ids()[0] == orig[scanned as int]) by {
                    assert(it.order_ids().take((order_len - scanned) as int)[0]
                        == it.order_ids()[0]);
                }
                assert(id@ == orig[scanned as int]);
                assert(self.order_ids().take((order_len - scanned - 1) as int) =~= orig.skip(
                    scanned + 1,
                )) by {
                    assert forall|x: int|
                        0 <= x < order_len - scanned - 1 implies self.order_ids()[x] == orig[
                        scanned + 1 + x] by {
                        assert(self.order_ids()[x] == it.order_ids()[x + 1]);
                        assert(it.order_ids().take((order_len - scanned) as int)[x + 1]
                            == it.order_ids()[x + 1]);
                    }
                }
                assert(self.order_ids() =~= orig.skip(scanned + 1) + appended) by {
                    assert(it.order_ids() =~= orig.skip(scanned as int) + appended);
                    assert(orig.skip(scanned as int).len() >= 1);
                    assert forall|x: int|
                        0 <= x < self.order_ids().len() implies self.order_ids()[x] == (orig.skip(
                        scanned + 1,
                    ) + appended)[x] by {
                        assert(self.order_ids()[x] == it.order_ids()[x + 1]);
                        assert(it.order_ids()[x + 1] == (orig.skip(scanned as int) + appended)[x
                            + 1]);
                    }
                }
            }
            match self.find_index(&id) {
                Option::None => {
                    proof {
                        assert forall|oid: Seq<char>| #[trigger] self.has_id(oid) == it.has_id(
                            oid,
                        ) by {
                            if self.has_id(oid) {
                                let i = self.idx_of(oid);
                                assert(it.pulses@[i].0@ == oid);
                            }
                            if it.has_id(oid) {
                                let i = it.idx_of(oid);
                                assert(self.pulses@[i].0@ == oid);
                            }
                        }
                        assert forall|oid: Seq<char>| #[trigger] self.has_id(oid) implies
                            self.entry_for(oid) == it.entry_for(oid) by {
                            let a = self.idx_of(oid);
                            assert(self.pulses@[a].0@ == oid);
                            let b = it.idx_of(oid);
                            assert(it.pulses@[b].0@ == oid);
                            assert(a == b);
                        }
                        // an id the pass still owes cannot have had its only
                        // remaining slot here: this slot's id went stale
                        assert forall|oid: Seq<char>|
                            #[trigger] pre.has_id(oid) && pre.entry_for(oid).attempts
                                < pre.spec_config().max_retries && Self::ready_at(
                                pre.entry_for(oid),
                                now_ms,
                                pre.spec_config().retry_delay_ms,
                            ) && !Self::batch_took(out@, oid) implies (exists|w: int|
                            scanned + 1 <= w < orig.len() && (#[trigger] orig[w]) == oid) by {
                            let w = choose|w: int|
                                scanned <= w < orig.len() && (#[trigger] orig[w]) == oid;
                            if w == scanned {
                                assert(oid == id@);
                                assert(!self.has_id(oid));
                                assert(!it.has_id(oid));
                            }
                            assert(scanned + 1 <= w < orig.len() && orig[w] == oid);
                        }
                        assert forall|i: int|
                            0 <= i < self.pulses@.len() implies self.order_ids().contains(
                            (#[trigger] self.pulses@[i]).0@,
                        ) by {
                            let lid = self.pulses@[i].0@;
                            assert(it.order_ids().contains(lid));
                            let w = choose|w: int|
                                0 <= w < it.order_ids().len() && it.order_ids()[w] == lid;
                            assert(w != 0);
                            assert(self.order_ids()[w - 1] == lid);
                        }
                    }
                },
                Option::Some(j) => {
                    if self.pulses[j].1.attempts >= self.config.max_retries {
                        let ghost mid = *self;
                        self.pulses.remove(j);
                        proof {
                            lemma_remove_keeps_others(
                                PulseQueue { pulses: mid.pulses, order: it.order, config: it.config },
                                PulseQueue {
                                    pulses: self.pulses,
                                    order: it.order,
                                    config: it.config,
                                },
                                j as int,
                            );
                            let ghost victim = id@;
                            assert(!self.has_id(victim));
                            assert forall|oid: Seq<char>| oid != victim implies (
                            #[trigger] self.has_id(oid) == it.has_id(oid)) by {
                                let post2 = PulseQueue {
                                    pulses: self.pulses,
                                    order: it.order,
                                    config: it.config,
                                };
                                assert(post2.has_id(oid) == it.has_id(oid));
                                assert(self.has_id(oid) == post2.has_id(oid));
                            }
                            assert forall|oid: Seq<char>|
                                oid != victim && it.has_id(oid) implies #[trigger] self.entry_for(
                                oid,
                            ) == it.entry_for(oid) by {
                                let post2 = PulseQueue {
                                    pulses: self.pulses,
                                    order: it.order,
                                    config: it.config,
                                };
                                assert(post2.entry_for(oid) == it.entry_for(oid));
                                assert(self.entry_for(oid) == post2.entry_for(oid));
                            }
                            assert(it.has_id(victim)) by {
                                assert(it.pulses@[j as int].0@ == victim);
                            }
                            assert(it.entry_for(victim) == it.pulses@[j as int].1) by {
                                let i2 = it.idx_of(victim);
                                assert(it.pulses@[i2].0@ == victim);
                            }
                            assert(pre.has_id(victim));
                            // the dropped pulse was out of retries, or was
                            // already taken in this very pass
                            if !Self::batch_took(out@, victim) {
                                assert(it.entry_for(victim) == pre.entry_for(victim));
                                assert(pre.entry_for(victim).attempts
                                    >= pre.spec_config().max_retries);
                            }
                            assert forall|i: int|
                                0 <= i < self.pulses@.len() implies self.order_ids().contains(
                                (#[trigger] self.pulses@[i]).0@,
                            ) by {
                                let lid = self.pulses@[i].0@;
                                assert(self.has_id(lid));
                                assert(lid != victim);
                                assert(it.has_id(lid));
                                assert(it.order_ids().contains(lid));
                                let w = choose|w: int|
                                    0 <= w < it.order_ids().len() && it.order_ids()[w] == lid;
                                assert(w != 0) by {
                                    if w == 0 {
                                        assert(it.order_ids()[0] == victim);
                                    }
                                }
                                assert(self.order_ids()[w - 1] == lid);
                            }
                            assert(self.wf());
                            // an owed id's slot cannot be this one: the pulse
                            // dropped here was out of retries or already taken
                            assert forall|oid: Seq<char>|
                                #[trigger] pre.has_id(oid) && pre.entry_for(oid).attempts
                                    < pre.spec_config().max_retries && Self::ready_at(
                                    pre.entry_for(oid),
                                    now_ms,
                                    pre.spec_config().retry_delay_ms,
                                ) && !Self::batch_took(out@, oid) implies (exists|w: int|
                                scanned + 1 <= w < orig.len() && (#[trigger] orig[w]) == oid) by {
                                let w = choose|w: int|
                                    scanned <= w < orig.len() && (#[trigger] orig[w]) == oid;
                                if w == scanned {
                                    assert(oid == victim);
                                    assert(!self.has_id(oid));
                                }
                                assert(scanned + 1 <= w < orig.len() && orig[w] == oid);
                            }
                        }
                    } else {
                        let ready = match self.pulses[j].1.last_sent {
                            Option::None => true,
                            Option::Some(t) => {
                                if t > now_ms {
                                    false
                                } else {
                                    now_ms - t >= self.config.retry_delay_ms
                                }
                            },
                        };
                        let ghost mid = *self;
                        let mut entry = self.pulses.remove(j);
                        if ready {
                            let prev_attempts = entry.1.attempts;
                            entry.1.attempts = prev_attempts + 1;
                            entry.1.last_sent = Option::Some(now_ms);
                            out.push(entry.1.message.clone());
                        }
                        self.pulses.push(entry);
                        self.order.push(id);
                        proof {
                            let pid = mid.pulses@[j as int].0@;
                            assert(ready == Self::ready_at(
                                mid.pulses@[j as int].1,
                                now_ms,
                                pre.spec_config().retry_delay_ms,
                            ));
                            let n = self.pulses@.len() as int;
                            assert(mid.order@ == it.order@.skip(1));
                            assert(self.order_ids() =~= it.order_ids().skip(1).push(pid));
                            // `mid` and the loop-top state agree on pulses
                            assert forall|oid: Seq<char>| #[trigger] mid.has_id(oid) == it.has_id(
                                oid,
                            ) by {
                                if mid.has_id(oid) {
                                    let i = mid.idx_of(oid);
                                    assert(it.pulses@[i].0@ == oid);
                                }
                                if it.has_id(oid) {
                                    let i = it.idx_of(oid);
                                    assert(mid.pulses@[i].0@ == oid);
                                }
                            }
                            assert forall|oid: Seq<char>| #[trigger] mid.has_id(oid) implies
                                mid.entry_for(oid) == it.entry_for(oid) by {
                                let a = mid.idx_of(oid);
                                assert(mid.pulses@[a].0@ == oid);
                                let b = it.idx_of(oid);
                                assert(it.pulses@[b].0@ == oid);
                                assert(a == b);
                            }
                            assert(self.pulses@ =~= mid.pulses@.remove(j as int).push(
                                (mid.pulses@[j as int].0, entry.1),
                            ));
                            assert(entry.1.message == mid.pulses@[j as int].1.message);
                            // ids are the same multiset: removed at j, pushed at the end
                            assert forall|oid: Seq<char>| #[trigger] self.has_id(oid) == mid.has_id(
                                oid,
                            ) by {
                                if mid.has_id(oid) {
                                    let i = mid.idx_of(oid);
                                    if i < j {
                                        assert(self.pulses@[i].0@ == oid);
                                    } else if i == j {
                                        assert(self.pulses@[n - 1].0@ == oid);
                                    } else {
                                        assert(self.pulses@[i - 1].0@ == oid);
                                    }
                                }
                                if self.has_id(oid) {
                                    let i = self.idx_of(oid);
                                    if i < j {
                                        assert(mid.pulses@[i].0@ == oid);
                                    } else if i == n - 1 {
                                        assert(mid.pulses@[j as int].0@ == oid);
                                    } else {
                                        assert(mid.pulses@[i + 1].0@ == oid);
                                    }
                                }
                            }
                            assert forall|a: int, b: int|
                                0 <= a < b < self.pulses@.len() implies (
                            #[trigger] self.pulses@[a]).0@ != (#[trigger] self.pulses@[b]).0@ by {
                                let ida = if a < j {
                                    a
                                } else {
                                    a + 1
                                };
                                if b == n - 1 {
                                    assert(self.pulses@[b].0@ == mid.pulses@[j as int].0@);
                                    assert(self.pulses@[a].0@ == mid.pulses@[ida].0@);
                                    assert(ida != j);
                                } else {
                                    let idb = if b < j {
                                        b
                                    } else {
                                        b + 1
                                    };
                                    assert(self.pulses@[a].0@ == mid.pulses@[ida].0@);
                                    assert(self.pulses@[b].0@ == mid.pulses@[idb].0@);
                                }
                            }
                            assert(self.entry_for(pid) == self.pulses@[n - 1].1) by {
                                let i2 = self.idx_of(pid);
                                assert(self.pulses@[i2].0@ == pid);
                                if i2 < n - 1 {
                                    let orig = if i2 < j {
                                        i2
                                    } else {
                                        i2 + 1
                                    };
                                    assert(mid.pulses@[orig].0@ == pid);
                                    assert(orig != j);
                                }
                            }
                            assert forall|oid: Seq<char>|
                                oid != pid && #[trigger] self.has_id(oid) implies self.entry_for(
                                oid,
                            ) == mid.entry_for(oid) by {
                                let i2 = self.idx_of(oid);
                                assert(self.pulses@[i2].0@ == oid);
                                assert(i2 != n - 1);
                                let orig = if i2 < j {
                                    i2
                                } else {
                                    i2 + 1
                                };
                                assert(mid.pulses@[orig].0@ == oid);
                                assert(mid.entry_for(oid) == mid.pulses@[orig].1) by {
                                    let i3 = mid.idx_of(oid);
                                    assert(mid.pulses@[i3].0@ == oid);
                                }
                            }
                            assert(mid.entry_for(pid) == mid.pulses@[j as int].1) by {
                                let i3 = mid.idx_of(pid);
                                assert(mid.pulses@[i3].0@ == pid);
                            }
                            assert forall|i: int|
                                0 <= i < self.pulses@.len() implies self.order_ids().contains(
                                (#[trigger] self.pulses@[i]).0@,
                            ) by {
                                let lid = self.pulses@[i].0@;
                                if lid == pid {
                                    assert(self.order_ids()[self.order_ids().len() - 1] == pid);
                                } else {
                                    assert(self.has_id(lid));
                                    assert(mid.has_id(lid));
                                    assert(it.has_id(lid));
                                    assert(it.order_ids().contains(lid));
                                    let w = choose|w: int|
                                        0 <= w < it.order_ids().len() && it.order_ids()[w] == lid;
                                    assert(w != 0) by {
                                        if w == 0 {
                                            assert(it.order_ids()[0] == pid);
                                        }
                                    }
                                    assert(self.order_ids()[w - 1] == lid);
                                }
                            }
                            assert(self.wf());
                            assert(it.has_id(pid)) by {
                                assert(it.pulses@[j as int].0@ == pid);
                            }
                            assert(it.entry_for(pid) == it.pulses@[j as int].1) by {
                                let i2 = it.idx_of(pid);
                                assert(it.pulses@[i2].0@ == pid);
                            }
                            assert(pre.has_id(pid));
                            if ready {
                                // the taken message carries its own id, and a
                                // first take was due under the pre entry
                                assert(out@ =~= out_pre.push(entry.1.message));
                                assert(entry.1.message.pulse_id matches Option::Some(p) && p@
                                    == pid);
                                assert(Self::batch_took(out@, pid)) by {
                                    assert(out@[out@.len() - 1] == entry.1.message);
                                }
                                assert forall|oid: Seq<char>|
                                    Self::batch_took(out@, oid) implies oid == pid
                                        || Self::batch_took(out_pre, oid) by {
                                    let k = choose|k: int|
                                        0 <= k < out@.len() && ((#[trigger] out@[k]).pulse_id
                                            matches Option::Some(p) && p@ == oid);
                                    if k < out@.len() - 1 {
                                        assert(out_pre[k] == out@[k]);
                                    }
                                }
                                assert forall|oid: Seq<char>|
                                    Self::batch_took(out_pre, oid) implies Self::batch_took(
                                    out@,
                                    oid,
                                ) by {
                                    let k = choose|k: int|
                                        0 <= k < out_pre.len() && ((#[trigger] out_pre[k]).pulse_id
                                            matches Option::Some(p) && p@ == oid);
                                    assert(out@[k] == out_pre[k]);
                                }
                                assert(Self::ready_at(
                                    pre.entry_for(pid),
                                    now_ms,
                                    pre.spec_config().retry_delay_ms,
                                )) by {
                                    if !Self::batch_took(out_pre, pid) {
                                        assert(it.entry_for(pid) == pre.entry_for(pid));
                                    } else {
                                        assert(it.entry_for(pid).last_sent == Option::Some(now_ms));
                                    }
                                }
                                assert(out@[out@.len() - 1] == pre.entry_for(pid).message) by {
                                    if !Self::batch_took(out_pre, pid) {
                                        assert(it.entry_for(pid) == pre.entry_for(pid));
                                    }
                                }
                            } else {
                                assert(out@ == out_pre);
                                assert(entry.1 == mid.pulses@[j as int].1);
                            }
                            // the entry rotated here is the popped slot's
                            assert(pid == orig[scanned as int]) by {
                                assert(it.pulses@[j as int].0@ == pid);
                            }
                            // the rotated id joins the back of the list
                            assert(self.order_ids() =~= (orig.skip(scanned + 1)
                                + appended).push(pid)) by {
                                assert(mid.order_ids() =~= orig.skip(scanned + 1) + appended);
                            }
                            appended = appended.push(pid);
                            assert(self.order_ids() =~= orig.skip(scanned + 1) + appended);
                            assert forall|w: int|
                                0 <= w < appended.len() implies exists|u: int|
                                0 <= u < scanned + 1 && orig[u] == #[trigger] appended[w] by {
                                if w == appended.len() - 1 {
                                    assert(orig[scanned as int] == appended[w]);
                                }
                            }
                            if ready {
                                // the taken pulse was under the retry cap
                                // before the pass began
                                assert(pre.entry_for(pid).attempts
                                    < pre.spec_config().max_retries) by {
                                    if Self::batch_took(out_pre, pid) {
                                        assert(it.entry_for(pid).attempts > pre.entry_for(
                                            pid,
                                        ).attempts);
                                    } else {
                                        assert(it.entry_for(pid) == pre.entry_for(pid));
                                    }
                                }
                                // a second take of one id needs a second slot
                                if Self::batch_took(out_pre, pid) {
                                    let k = choose|k: int|
                                        0 <= k < out_pre.len() && ((#[trigger] out_pre[k]).pulse_id
                                            matches Option::Some(p) && p@ == pid);
                                    assert(orig[slots[k]] == pid && slots[k] < scanned);
                                    assert(!Self::occurs_once(orig, pid));
                                } else {
                                    assert(it.entry_for(pid) == pre.entry_for(pid));
                                    assert(self.entry_for(pid).attempts == pre.entry_for(
                                        pid,
                                    ).attempts + 1);
                                }
                                assert(self.entry_for(pid).attempts > pre.entry_for(
                                    pid,
                                ).attempts) by {
                                    if Self::batch_took(out_pre, pid) {
                                        assert(mid.entry_for(pid).attempts > pre.entry_for(
                                            pid,
                                        ).attempts);
                                    }
                                }
                                slots = slots.push(scanned as int);
                                assert(slots.len() == out@.len());
                                assert forall|k: int|
                                    0 <= k < slots.len() implies 0 <= #[trigger] slots[k] < scanned
                                    + 1 && ((out@[k]).pulse_id matches Option::Some(p) && p@
                                    == orig[slots[k]]) by {
                                    if k < slots.len() - 1 {
                                        assert(out@[k] == out_pre[k]);
                                    } else {
                                        assert(slots[k] == scanned as int);
                                        assert(out@[k] == entry.1.message);
                                    }
                                }
                            }
                            // an owed id is taken now, or keeps a later slot
                            assert forall|oid: Seq<char>|
                                #[trigger] pre.has_id(oid) && pre.entry_for(oid).attempts
                                    < pre.spec_config().max_retries && Self::ready_at(
                                    pre.entry_for(oid),
                                    now_ms,
                                    pre.spec_config().retry_delay_ms,
                                ) && !Self::batch_took(out@, oid) implies (exists|w: int|
                                scanned + 1 <= w < orig.len() && (#[trigger] orig[w]) == oid) by {
                                let w = choose|w: int|
                                    scanned <= w < orig.len() && (#[trigger] orig[w]) == oid;
                                if w == scanned {
                                    assert(oid == pid);
                                    if ready {
                                        assert(Self::batch_took(out@, pid));
                                    } else {
                                        assert(!Self::batch_took(out_pre, pid));
                                        assert(it.entry_for(pid) == pre.entry_for(pid));
                                        assert(mid.entry_for(pid) == it.entry_for(pid));
                                        assert(!Self::ready_at(
                                            pre.entry_for(pid),
                                            now_ms,
                                            pre.spec_config().retry_delay_ms,
                                        ));
                                    }
                                }
                                assert(scanned + 1 <= w < orig.len() && orig[w] == oid);
                            }
                        }
                    }
                },
            }
            scanned = scanned + 1;
        }
        proof {
            // the unscanned tail stands in place; survivors follow in scan order
            assert(self.order_ids() == pre.order_ids().skip(scanned as int) + appended);
            assert(Self::scan_rotates(pre.order_ids(), self.order_ids(), scanned as int)) by {
                assert(self.order_ids().take(pre.order_ids().len() - scanned as int)
                    =~= pre.order_ids().skip(scanned as int));
                assert(appended.len() <= scanned as int);
            }
            assert forall|w: int|
                0 <= w < self.order_ids().len() implies pre.order_ids().contains(
                #[trigger] self.order_ids()[w],
            ) by {
                let tail = pre.order_ids().len() - scanned as int;
                if w < tail {
                    assert(self.order_ids()[w] == pre.order_ids()[scanned as int + w]);
                } else {
                    let off = w - tail;
                    assert(self.order_ids()[w] == appended[off]);
                    let u = choose|u: int| 0 <= u < scanned && orig[u] == appended[off];
                    assert(pre.order_ids()[u] == self.order_ids()[w]);
                }
            }
            // a pass that did not fill the batch scanned the whole list
            if out@.len() < max {
                assert forall|oid: Seq<char>|
                    #[trigger] pre.has_id(oid) && pre.entry_for(oid).attempts
                        < pre.spec_config().max_retries && Self::ready_at(
                        pre.entry_for(oid),
                        now_ms,
                        pre.spec_config().retry_delay_ms,
                    ) implies Self::batch_took(out@, oid) by {
                    if !Self::batch_took(out@, oid) {
                        let w = choose|w: int|
                            scanned <= w < orig.len() && (#[trigger] orig[w]) == oid;
                        assert(w < orig.len());
                    }
                }
            }
        }
        out
    }

    /// Remove every pulse that has exhausted its retries, and compact the
    /// ordered list to the ids still live.
    #[verifier::rlimit(60)]
    pub fn prune_expired(&mut self)
        requires
            old(self).wf(),
        ensures
            final(self).wf(),
            final(self).spec_config() == old(self).spec_config(),
            forall|id: Seq<char>|
                #[trigger] final(self).has_id(id) == (old(self).has_id(id) && old(
                    self,
                ).entry_for(id).attempts < old(self).spec_config().max_retries),
            forall|id: Seq<char>|
                #[trigger] final(self).has_id(id) ==> final(self).entry_for(id) == old(
                    self,
                ).entry_for(id),
            forall|w: int|
                0 <= w < final(self).order_ids().len() ==> final(self).has_id(
                    #[trigger] final(self).order_ids()[w],
                ),
            exists|slots: Seq<int>|
                {
                    &&& #[trigger] slots.len() == final(self).order_ids().len()
                    &&& forall|w: int|
                        0 <= w < slots.len() ==> 0 <= #[trigger] slots[w]
                            < old(self).order_ids().len() && old(self).order_ids()[slots[w]]
                            == final(self).order_ids()[w]
                    &&& forall|w1: int, w2: int|
                        0 <= w1 < w2 < slots.len() ==> #[trigger] slots[w1] < #[trigger] slots[w2]
                },
    {
        let ghost pre = *self;
        let max_retries = self.config.max_retries;
        let mut i: usize = 0;
        while i < self.pulses.len()
            invariant
                pre == *old(self),
                pre.wf(),
                self.wf(),
                self.config == pre.config,
                self.order == pre.order,
                i <= self.pulses@.len(),
                forall|v: int|
                    0 <= v < i ==> (#[trigger] self.pulses@[v]).1.attempts < max_retries,
                forall|id: Seq<char>| !pre.has_id(id) ==> !(#[trigger] self.has_id(id)),
                forall|id: Seq<char>|
                    #[trigger] self.has_id(id) ==> pre.has_id(id) && self.entry_for(id)
                        == pre.entry_for(id),
                forall|id: Seq<char>|
                    pre.has_id(id) && !(#[trigger] self.has_id(id)) ==> pre.entry_for(id).attempts
                        >= max_retries,
            decreases self.pulses@.len() - i,
        {
            if self.pulses[i].1.attempts >= max_retries {
                let ghost mid = *self;
                let ghost victim = self.pulses@[i as int].0@;
                self.pulses.remove(i);
                proof {
                    lemma_remove_keeps_others(mid, *self, i as int);
                    assert(mid.has_id(victim)) by {
                        assert(mid.pulses@[i as int].0@ == victim);
                    }
                    assert(mid.entry_for(victim) == mid.pulses@[i as int].1) by {
                        let v2 = mid.idx_of(victim);
                        assert(mid.pulses@[v2].0@ == victim);
                    }
                    assert(pre.has_id(victim) && pre.entry_for(victim).attempts >= max_retries);
                    assert forall|v: int|
                        0 <= v < i implies (#[trigger] self.pulses@[v]).1.attempts < max_retries by {
                        assert(self.pulses@[v] == mid.pulses@[v]);
                    }
                }
            } else {
                i = i + 1;
            }
        }
        let ghost mid = *self;
        // compact the ordered list to the ids still live
        let mut new_order: Vec<String> = Vec::new();
        let m = self.order.len();
        let mut k: usize = 0;
        let ghost mut slots: Seq<int> = Seq::empty();
        while k < m
            invariant
                k <= m == self.order@.len(),
                *self == mid,
                forall|w: int|
                    0 <= w < k && mid.has_id(#[trigger] mid.order_ids()[w]) ==> exists|q: int|
                        0 <= q < new_order@.len() && (#[trigger] new_order@[q])@
                            == mid.order_ids()[w],
                slots.len() == new_order@.len(),
                forall|w: int|
                    0 <= w < slots.len() ==> 0 <= #[trigger] slots[w] < k && mid.order_ids()[
                        slots[w]] == (new_order@[w])@ && mid.has_id((new_order@[w])@),
                forall|w1: int, w2: int|
                    0 <= w1 < w2 < slots.len() ==> #[trigger] slots[w1] < #[trigger] slots[w2],
            decreases m - k,
        {
            let sid = self.order[k].clone();
            match self.find_index(&sid) {
                Option::Some(_) => {
                    let ghost prev = new_order@;
                    new_order.push(sid);
                    proof {
                        slots = slots.push(k as int);
                        assert forall|w: int|
                            0 <= w < k + 1 && mid.has_id(#[trigger] mid.order_ids()[w]) implies
                            exists|q: int|
                                0 <= q < new_order@.len() && (#[trigger] new_order@[q])@
                                    == mid.order_ids()[w] by {
                            if w < k {
                                let q = choose|q: int|
                                    0 <= q < prev.len() && (#[trigger] prev[q])@
                                        == mid.order_ids()[w];
                                assert((new_order@[q])@ == mid.order_ids()[w]);
                            } else {
                                assert((new_order@[new_order@.len() - 1])@ == mid.order_ids()[w]);
                            }
                        }
                        assert forall|w: int|
                            0 <= w < slots.len() implies 0 <= #[trigger] slots[w] < k + 1
                            && mid.order_ids()[slots[w]] == (new_order@[w])@ && mid.has_id(
                            (new_order@[w])@,
                        ) by {
                            if w < slots.len() - 1 {
                                assert(new_order@[w] == prev[w]);
                            } else {
                                assert(slots[w] == k as int);
                                assert((new_order@[w])@ == sid@);
                                assert(mid.order_ids()[k as int] == sid@);
                            }
                        }
                    }
                },
                Option::None => {},
            }
            k = k + 1;
        }
        self.order = new_order;
        proof {
            assert(self.pulses@ == mid.pulses@);
            assert forall|oid: Seq<char>| #[trigger] self.has_id(oid) == mid.has_id(oid) by {
                if self.has_id(oid) {
                    let i2 = self.idx_of(oid);
                    assert(mid.pulses@[i2].0@ == oid);
                }
                if mid.has_id(oid) {
                    let i2 = mid.idx_of(oid);
                    assert(self.pulses@[i2].0@ == oid);
                }
            }
            assert forall|oid: Seq<char>| #[trigger] self.has_id(oid) implies self.entry_for(oid)
                == mid.entry_for(oid) by {
                let a = self.idx_of(oid);
                assert(self.pulses@[a].0@ == oid);
                let b = mid.idx_of(oid);
                assert(mid.pulses@[b].0@ == oid);
                assert(a == b);
            }
            // every live id was live before pruning, so it stood somewhere
            // in the old list and was copied over
            assert forall|i2: int|
                0 <= i2 < self.pulses@.len() implies self.order_ids().contains(
                (#[trigger] self.pulses@[i2]).0@,
            ) by {
                let lid = self.pulses@[i2].0@;
                assert(mid.has_id(lid)) by {
                    assert(mid.pulses@[i2].0@ == lid);
                }
                assert(pre.has_id(lid));
                assert(pre.order_ids().contains(lid));
                let w = choose|w: int|
                    0 <= w < pre.order_ids().len() && #[trigger] pre.order_ids()[w] == lid;
                assert(mid.order_ids() == pre.order_ids());
                assert(mid.order_ids()[w] == lid);
                assert(mid.has_id(mid.order_ids()[w]));
                let q = choose|q: int|
                    0 <= q < new_order@.len() && (#[trigger] new_order@[q])@ == mid.order_ids()[w];
                assert(self.order_ids()[q] == lid);
            }
            assert(self.wf());
            // the compacted list holds live ids only, in their prior order
            assert forall|w: int|
                0 <= w < self.order_ids().len() implies self.has_id(
                #[trigger] self.order_ids()[w],
            ) by {
                assert(0 <= slots[w]);
                assert(mid.has_id((new_order@[w])@));
            }
            assert(slots.len() == self.order_ids().len());
            assert forall|w: int|
                0 <= w < slots.len() implies 0 <= #[trigger] slots[w] < pre.order_ids().len()
                && pre.order_ids()[slots[w]] == self.order_ids()[w] by {
                assert(mid.order_ids() == pre.order_ids());
                assert(mid.order_ids()[slots[w]] == (new_order@[w])@);
            }
        }
    }

    /// Acknowledge a delivered pulse by its id: the pulse leaves the queue,
    /// and afterwards no send ever returns a message with that id again. An
    /// id the queue never issued (or already dropped) is a no-op.
    pub fn acknowledge(&mut self, pulse_id: &str) -> (r: bool)
        requires
            old(self).wf(),
        ensures
            final(self).wf(),
            r == old(self).has_id(pulse_id@),
            !final(self).has_id(pulse_id@),
            final(self).spec_config() == old(self).spec_config(),
            final(self).order_ids() == old(self).order_ids(),
            final(self).size() == old(self).size() - (if r {
                1int
            } else {
                0int
            }),
            forall|id: Seq<char>|
                id != pulse_id@ ==> (#[trigger] final(self).has_id(id) == old(self).has_id(id)),
            forall|id: Seq<char>|
                id != pulse_id@ && old(self).has_id(id) ==> #[trigger] final(self).entry_for(id)
                    == old(self).entry_for(id),
    {
        let key = String::from_str(pulse_id);
        match self.find_index(&key) {
            Option::None => false,
            Option::Some(j) => {
                let ghost pre = *self;
                self.pulses.remove(j);
                proof {
                    lemma_remove_keeps_others(pre, *self, j as int);
                }
                true
            },
        }
    }
}

/// A pulse enqueued into an empty queue and acknowledged at once (the
/// server's `pushed` reply) leaves the queue empty again.
pub fn enqueue_then_acknowledge(q: &mut PulseQueue, message: PushMessage) -> (acked: bool)
    requires
        old(q).wf(),
        old(q).size() == 0,
    ensures
        acked,
        final(q).wf(),
        final(q).size() == 0,
{
    let id = q.enqueue(message);
    q.acknowledge(id.as_str())
}

/// Relies on `uuid::Uuid::new_v4` and `Uuid::to_string`: a freshly generated
/// random identifier in the 36-character hyphenated form. Nothing is assumed
/// beyond its length; in particular two calls may in principle collide.
#[verifier::external_body]
fn fresh_pulse_id() -> (r: String)
    ensures
        r@.len() == 36,
{
    uuid::Uuid::new_v4().to_string()
}

/// The oldest live id is unique: two ids both standing first among the live
/// ones are the same id.
proof fn lemma_oldest_live_unique(q: PulseQueue, v: Seq<char>)
    requires
        q.is_oldest_live(v),
    ensures
        q.oldest_live_id() == v,
{
    let w = q.oldest_live_id();
    assert(q.is_oldest_live(w));
    let i = choose|i: int|
        {
            &&& 0 <= i < q.order_ids().len()
            &&& (#[trigger] q.order_ids()[i]) == v
            &&& q.has_id(v)
            &&& forall|k: int| 0 <= k < i ==> !q.has_id(#[trigger] q.order_ids()[k])
        };
    let j = choose|j: int|
        {
            &&& 0 <= j < q.order_ids().len()
            &&& (#[trigger] q.order_ids()[j]) == w
            &&& q.has_id(w)
            &&& forall|k: int| 0 <= k < j ==> !q.has_id(#[trigger] q.order_ids()[k])
        };
    if i < j {
        assert(!q.has_id(q.order_ids()[i]));
    } else if j < i {
        assert(!q.has_id(q.order_ids()[j]));
    }
}

/// Removing one entry from the table keeps every other id live with the
/// same entry, and removes only that id.
proof fn lemma_remove_keeps_others(pre: PulseQueue, post: PulseQueue, j: int)
    requires
        pre.wf(),
        0 <= j < pre.pulses@.len(),
        post.pulses@ == pre.pulses@.remove(j),
        post.order@ == pre.order@,
        post.config == pre.config,
    ensures
        post.wf(),
        !post.has_id(pre.pulses@[j].0@),
        forall|id: Seq<char>|
            id != pre.pulses@[j].0@ ==> (#[trigger] post.has_id(id) == pre.has_id(id)),
        forall|id: Seq<char>|
            id != pre.pulses@[j].0@ && pre.has_id(id) ==> #[trigger] post.entry_for(id)
                == pre.entry_for(id),
{
    let removed = pre.pulses@[j].0@;
    assert forall|i: int| 0 <= i < post.pulses@.len() implies (#[trigger] post.pulses@[i])
        == if i < j {
        pre.pulses@[i]
    } else {
        pre.pulses@[i + 1]
    } by {}
    assert(!post.has_id(removed)) by {
        if post.has_id(removed) {
            let i = post.idx_of(removed);
            if i < j {
                assert(pre.pulses@[i].0@ == pre.pulses@[j].0@);
            } else {
                assert(pre.pulses@[i + 1].0@ == pre.pulses@[j].0@);
            }
        }
    }
    assert forall|id: Seq<char>| id != removed implies (#[trigger] post.has_id(id) == pre.has_id(
        id,
    )) by {
        if pre.has_id(id) {
            let i = pre.idx_of(id);
            assert(pre.pulses@[i].0@ == id);
            if i < j {
                assert(post.pulses@[i].0@ == id);
            } else {
                assert(i != j);
                assert(post.pulses@[i - 1].0@ == id);
            }
            assert(post.has_id(id));
        }
        if post.has_id(id) {
            let i = post.idx_of(id);
            assert(pre.has_id(id)) by {
                if i < j {
                    assert(pre.pulses@[i].0@ == id);
                } else {
                    assert(pre.pulses@[i + 1].0@ == id);
                }
            }
        }
    }
    assert forall|id: Seq<char>| id != removed && pre.has_id(id) implies #[trigger] post.entry_for(
        id,
    ) == pre.entry_for(id) by {
        assert(post.has_id(id));
        let i = pre.idx_of(id);
        assert(0 <= i < pre.pulses@.len() && pre.pulses@[i].0@ == id);
        let i2 = post.idx_of(id);
        assert(0 <= i2 < post.pulses@.len() && post.pulses@[i2].0@ == id);
        // distinctness pins both indexes to the same underlying entry
        if i2 < j {
            assert(pre.pulses@[i2].0@ == id);
            assert(i2 == i);
        } else {
            assert(pre.pulses@[i2 + 1].0@ == id);
            assert(i2 + 1 == i);
        }
    }
    assert(post.wf()) by {
        assert forall|i: int| 0 <= i < post.pulses@.len() implies post.order_ids().contains(
            (#[trigger] post.pulses@[i]).0@,
        ) by {
            if i < j {
                assert(pre.order_ids().contains(pre.pulses@[i].0@));
            } else {
                assert(pre.order_ids().contains(pre.pulses@[i + 1].0@));
            }
        }
    }
}

} // verus!
