//! The statistics engine: the ordered in-flight set, response matching
//! under loss and reordering, and timeout eviction.
//!
//! The in-flight set holds the requests whose responses have not arrived.
//! The generator allocates indices strictly increasingly, so the set is a
//! queue sorted by index. A response is matched against the head: older
//! heads are dropped as lost or reordered, an equal head yields exactly one
//! RTT sample, and a response below every pending index is stale and leaves
//! the queue untouched. A timeout eviction removes every entry at or below
//! the watched index in one sweep.

use vstd::prelude::*;

use crate::probe::{rtt_of, RttSample};

verus! {

/// One pending request: its index and the transmission timestamp.
#[derive(Clone, Copy, Debug, PartialEq, Eq, Structural)]
pub struct InFlightEntry {
    /// Probe index of the pending request.
    pub index: u64,
    /// Transmission timestamp in nanoseconds.
    pub timestamp: u64,
}

/// Indices strictly increase along the queue.
pub open spec fn sorted_by_index(s: Seq<InFlightEntry>) -> bool {
    forall|i: int, j: int|
        0 <= i < j < s.len() ==> #[trigger] s[i].index < #[trigger] s[j].index
}

/// How many entries at the head of `s` have an index below `idx`: the
/// entries a response with index `idx` reveals as lost or reordered.
pub open spec fn drop_count(s: Seq<InFlightEntry>, idx: u64) -> int
    decreases s.len(),
{
    if s.len() == 0 {
        0
    } else if s[0].index < idx {
        1 + drop_count(s.skip(1), idx)
    } else {
        0
    }
}

/// Whether a response with index `idx` finds its request in `s`.
pub open spec fn matched(s: Seq<InFlightEntry>, idx: u64) -> bool {
    drop_count(s, idx) < s.len() && s[drop_count(s, idx)].index == idx
}

/// The queue after a response with index `idx` is processed: the revealed
/// losses are gone, and so is the matched request if there was one.
pub open spec fn queue_after_response(s: Seq<InFlightEntry>, idx: u64) -> Seq<InFlightEntry> {
    if matched(s, idx) {
        s.skip(drop_count(s, idx) + 1)
    } else {
        s.skip(drop_count(s, idx))
    }
}

/// The sample a response with index `idx` arriving at `ts` produces: one
/// RTT measurement if it matches, nothing if it is stale.
pub open spec fn response_sample(s: Seq<InFlightEntry>, idx: u64, ts: u64) -> Option<RttSample> {
    if matched(s, idx) {
        Some(RttSample { index: idx, rtt: rtt_of(ts, s[drop_count(s, idx)].timestamp) })
    } else {
        None
    }
}

/// The indices dropped as lost or reordered by a response with index `idx`.
pub open spec fn dropped_indices(s: Seq<InFlightEntry>, idx: u64) -> Seq<u64> {
    s.take(drop_count(s, idx)).map_values(|e: InFlightEntry| e.index)
}

/// How many entries at the head of `s` have an index at or below the
/// watched index `w`: the entries a timeout for `w` evicts.
pub open spec fn evict_count(s: Seq<InFlightEntry>, w: u64) -> int
    decreases s.len(),
{
    if s.len() == 0 {
        0
    } else if s[0].index <= w {
        1 + evict_count(s.skip(1), w)
    } else {
        0
    }
}

/// The queue after a timeout for watched index `w` has swept it.
pub open spec fn queue_after_evict(s: Seq<InFlightEntry>, w: u64) -> Seq<InFlightEntry> {
    s.skip(evict_count(s, w))
}

/// The indices a timeout for watched index `w` evicts.
pub open spec fn evicted_indices(s: Seq<InFlightEntry>, w: u64) -> Seq<u64> {
    s.take(evict_count(s, w)).map_values(|e: InFlightEntry| e.index)
}

/// `drop_count` is the unique boundary: everything before it is below
/// `idx`, and the entry at it (if any) is not.
proof fn lemma_drop_count_is(s: Seq<InFlightEntry>, idx: u64, k: int)
    requires
        0 <= k <= s.len(),
        forall|i: int| 0 <= i < k ==> #[trigger] s[i].index < idx,
        k < s.len() ==> s[k].index >= idx,
    ensures
        drop_count(s, idx) == k,
    decreases s.len(),
{
    if s.len() == 0 {
    } else if k == 0 {
    } else {
        assert(s[0].index < idx);
        lemma_drop_count_is(s.skip(1), idx, k - 1);
    }
}

/// `drop_count` never exceeds the queue length.
proof fn lemma_drop_count_bounds(s: Seq<InFlightEntry>, idx: u64)
    ensures
        0 <= drop_count(s, idx) <= s.len(),
    decreases s.len(),
{
    if s.len() == 0 {
    } else if s[0].index < idx {
        lemma_drop_count_bounds(s.skip(1), idx);
    } else {
    }
}

/// `evict_count` is the unique boundary for indices at or below `w`.
proof fn lemma_evict_count_is(s: Seq<InFlightEntry>, w: u64, k: int)
    requires
        0 <= k <= s.len(),
        forall|i: int| 0 <= i < k ==> #[trigger] s[i].index <= w,
        k < s.len() ==> s[k].index > w,
    ensures
        evict_count(s, w) == k,
    decreases s.len(),
{
    if s.len() == 0 {
    } else if k == 0 {
    } else {
        assert(s[0].index <= w);
        lemma_evict_count_is(s.skip(1), w, k - 1);
    }
}

/// A suffix of a sorted queue is sorted.
proof fn lemma_sorted_skip(s: Seq<InFlightEntry>, n: int)
    requires
        sorted_by_index(s),
        0 <= n <= s.len(),
    ensures
        sorted_by_index(s.skip(n)),
{
    assert forall|i: int, j: int| 0 <= i < j < s.skip(n).len() implies #[trigger] s.skip(
        n,
    )[i].index < #[trigger] s.skip(n)[j].index by {
        assert(s.skip(n)[i] == s[i + n]);
        assert(s.skip(n)[j] == s[j + n]);
    }
}

/// The ordered set of requests awaiting a response.
pub struct InFlightQueue {
    entries: Vec<InFlightEntry>,
}

impl View for InFlightQueue {
    type V = Seq<InFlightEntry>;

    closed spec fn view(&self) -> Seq<InFlightEntry> {
        self.entries@
    }
}

/// What processing one response produced: at most one sample, and the
/// indices revealed as lost or reordered.
#[derive(Debug)]
pub struct ResponseOutcome {
    /// The RTT sample, present exactly when the response matched.
    pub sample: Option<RttSample>,
    /// Indices dropped as lost or reordered, oldest first.
    pub dropped: Vec<u64>,
}

impl InFlightQueue {
    /// The queue is well formed when its indices strictly increase.
    pub open spec fn wf(&self) -> bool {
        sorted_by_index(self@)
    }

    /// An empty in-flight set.
    pub fn new() -> (r: InFlightQueue)
        ensures
            r@ == Seq::<InFlightEntry>::empty(),
            r.wf(),
    {
        InFlightQueue { entries: Vec::new() }
    }

    /// Number of pending requests.
    pub fn len(&self) -> (r: usize)
        ensures
            r == self@.len(),
    {
        self.entries.len()
    }

    /// Append a newly sent request. The generator allocates indices
    /// strictly increasingly; a request out of order is refused and the
    /// queue is left unchanged.
    pub fn push_request(&mut self, index: u64, timestamp: u64) -> (accepted: bool)
        requires
            old(self).wf(),
        ensures
            final(self).wf(),
            accepted == (old(self)@.len() == 0 || old(self)@.last().index < index),
            accepted ==> final(self)@ == old(self)@.push(InFlightEntry { index, timestamp }),
            !accepted ==> final(self)@ == old(self)@,
    {
        if self.entries.len() == 0 || self.entries[self.entries.len() - 1].index < index {
            self.entries.push(InFlightEntry { index, timestamp });
            proof {
                let o = old(self)@;
                let s = self@;
                assert forall|i: int, j: int| 0 <= i < j < s.len() implies #[trigger] s[i].index
                    < #[trigger] s[j].index by {
                    if j == s.len() - 1 {
                        if i < o.len() - 1 {
                            assert(o[i].index < o[o.len() - 1].index);
                        }
                    }
                }
            }
            true
        } else {
            false
        }
    }

    /// Process a received response: drop lost or reordered heads, emit the
    /// sample if the response matches, leave the queue alone if it is
    /// stale.
    pub fn match_response(&mut self, index: u64, timestamp: u64) -> (out: ResponseOutcome)
        requires
            old(self).wf(),
        ensures
            final(self).wf(),
            final(self)@ == queue_after_response(old(self)@, index),
            out.sample == response_sample(old(self)@, index, timestamp),
            out.dropped@ == dropped_indices(old(self)@, index),
    {
        let ghost s = self@;
        let mut dropped: Vec<u64> = Vec::new();
        let mut sample: Option<RttSample> = None;
        let ghost mut k: int = 0;

        loop
            invariant_except_break
                self@ == s.skip(k),
                sample is None,
            invariant
                sorted_by_index(s),
                0 <= k <= s.len(),
                dropped@ == s.take(k).map_values(|e: InFlightEntry| e.index),
                forall|i: int| 0 <= i < k ==> #[trigger] s[i].index < index,
            ensures
                self@ == queue_after_response(s, index),
                sample == response_sample(s, index, timestamp),
                dropped@ == dropped_indices(s, index),
            decreases s.len() - k,
        {
            if self.entries.len() == 0 {
                proof {
                    lemma_drop_count_is(s, index, k);
                    assert(s.take(k) =~= s.take(drop_count(s, index)));
                }
                break ;
            }
            let head_index = self.entries[0].index;
            if index > head_index {
                let e = self.entries.remove(0);
                dropped.push(e.index);
                proof {
                    assert(s.skip(k)[0] == s[k]);
                    assert(self.entries@ =~= s.skip(k + 1));
                    assert(s.take(k + 1) =~= s.take(k).push(s[k]));
                    assert(dropped@ =~= s.take(k + 1).map_values(|e: InFlightEntry| e.index));
                    k = k + 1;
                }
            } else if index == head_index {
                let e = self.entries.remove(0);
                sample = Some(
                    RttSample {
                        index,
                        rtt: if timestamp >= e.timestamp {
                            timestamp - e.timestamp
                        } else {
                            0
                        },
                    },
                );
                proof {
                    assert(s.skip(k)[0] == s[k]);
                    lemma_drop_count_is(s, index, k);
                    assert(self.entries@ =~= s.skip(k + 1));
                    assert(s.take(k) =~= s.take(drop_count(s, index)));
                }
                break ;
            } else {
                proof {
                    assert(s.skip(k)[0] == s[k]);
                    lemma_drop_count_is(s, index, k);
                    assert(s.take(k) =~= s.take(drop_count(s, index)));
                }
                break ;
            }
        }
        proof {
            lemma_drop_count_bounds(s, index);
            if matched(s, index) {
                lemma_sorted_skip(s, drop_count(s, index) + 1);
            } else {
                lemma_sorted_skip(s, drop_count(s, index));
            }
        }
        ResponseOutcome { sample, dropped }
    }

    /// Evict every pending request at or below the watched index: the
    /// coalesced cleanup a timeout watcher performs. Returns the evicted
    /// indices, oldest first — one timeout notice is owed per element.
    pub fn evict_upto(&mut self, watched: u64) -> (evicted: Vec<u64>)
        requires
            old(self).wf(),
        ensures
            final(self).wf(),
            final(self)@ == queue_after_evict(old(self)@, watched),
            evicted@ == evicted_indices(old(self)@, watched),
    {
        let ghost s = self@;
        let mut evicted: Vec<u64> = Vec::new();
        let ghost mut k: int = 0;

        loop
            invariant
                sorted_by_index(s),
                0 <= k <= s.len(),
                self@ == s.skip(k),
                evicted@ == s.take(k).map_values(|e: InFlightEntry| e.index),
                forall|i: int| 0 <= i < k ==> #[trigger] s[i].index <= watched,
            ensures
                evict_count(s, watched) == k,
                self@ == s.skip(k),
                evicted@ == s.take(k).map_values(|e: InFlightEntry| e.index),
            decreases s.len() - k,
        {
            if self.entries.len() == 0 {
                proof {
                    lemma_evict_count_is(s, watched, k);
                }
                break ;
            }
            let head_index = self.entries[0].index;
            if head_index <= watched {
                let e = self.entries.remove(0);
                evicted.push(e.index);
                proof {
                    assert(s.skip(k)[0] == s[k]);
                    assert(self.entries@ =~= s.skip(k + 1));
                    assert(s.take(k + 1) =~= s.take(k).push(s[k]));
                    assert(evicted@ =~= s.take(k + 1).map_values(|e: InFlightEntry| e.index));
                    k = k + 1;
                }
            } else {
                proof {
                    assert(s.skip(k)[0] == s[k]);
                    lemma_evict_count_is(s, watched, k);
                }
                break ;
            }
        }
        proof {
            lemma_sorted_skip(s, evict_count(s, watched));
        }
        evicted
    }
}

/// What one response did to the engine: the matching outcome plus how many
/// pacing pulses are owed to the generator.
#[derive(Debug)]
pub struct EngineResponse {
    /// The matching outcome: at most one sample, and the dropped indices.
    pub outcome: ResponseOutcome,
    /// Pacing pulses owed: one per match in adaptive mode, none otherwise.
    pub pulses: u64,
}

/// What one timeout sweep did to the engine: the evicted indices — one
/// timeout notice is owed per element — plus the pacing pulses owed.
#[derive(Debug)]
pub struct EngineTimeout {
    /// Evicted indices, oldest first.
    pub evicted: Vec<u64>,
    /// Pacing pulses owed: one per eviction in adaptive mode, none
    /// otherwise.
    pub pulses: u64,
}

/// The decision core of the statistics engine. It owns the in-flight
/// queue and says, for each incoming probe event or timeout, what leaves
/// the engine: samples, loss notices, timeout notices, and — in adaptive
/// mode — the pacing pulses that unblock the generator. The caller spawns
/// one timeout watcher per accepted request and delivers its wake-up as a
/// call to `on_timeout`.
pub struct StatsEngine {
    queue: InFlightQueue,
    adaptive: bool,
}

impl View for StatsEngine {
    type V = Seq<InFlightEntry>;

    closed spec fn view(&self) -> Seq<InFlightEntry> {
        self.queue@
    }
}

impl StatsEngine {
    /// Whether the engine emits pacing pulses when requests settle.
    pub closed spec fn is_adaptive(&self) -> bool {
        self.adaptive
    }

    /// The engine's queue is well formed.
    pub open spec fn wf(&self) -> bool {
        sorted_by_index(self@)
    }

    /// A fresh engine with an empty in-flight set.
    pub fn new(adaptive: bool) -> (r: StatsEngine)
        ensures
            r@ == Seq::<InFlightEntry>::empty(),
            r.wf(),
            r.is_adaptive() == adaptive,
    {
        StatsEngine { queue: InFlightQueue::new(), adaptive }
    }

    /// A request event: record it at the tail of the in-flight set. The
    /// caller must have spawned the timeout watcher for `index` already,
    /// so that no response can be matched before its watcher exists. A
    /// request out of index order is refused and changes nothing.
    pub fn on_request(&mut self, index: u64, timestamp: u64) -> (accepted: bool)
        requires
            old(self).wf(),
        ensures
            final(self).wf(),
            final(self).is_adaptive() == old(self).is_adaptive(),
            accepted == (old(self)@.len() == 0 || old(self)@.last().index < index),
            accepted ==> final(self)@ == old(self)@.push(InFlightEntry { index, timestamp }),
            !accepted ==> final(self)@ == old(self)@,
    {
        self.queue.push_request(index, timestamp)
    }

    /// A response event: match it against the in-flight set. In adaptive
    /// mode a match settles a request, so one pacing pulse is owed.
    pub fn on_response(&mut self, index: u64, timestamp: u64) -> (r: EngineResponse)
        requires
            old(self).wf(),
        ensures
            final(self).wf(),
            final(self).is_adaptive() == old(self).is_adaptive(),
            final(self)@ == queue_after_response(old(self)@, index),
            r.outcome.sample == response_sample(old(self)@, index, timestamp),
            r.outcome.dropped@ == dropped_indices(old(self)@, index),
            r.pulses == if old(self).is_adaptive() && matched(old(self)@, index) {
                1u64
            } else {
                0u64
            },
    {
        let outcome = self.queue.match_response(index, timestamp);
        let pulses: u64 = if self.adaptive && outcome.sample.is_some() {
            1
        } else {
            0
        };
        EngineResponse { outcome, pulses }
    }

    /// A timeout watcher fired for `watched`: evict every entry at or
    /// below it. Each eviction settles a request, so in adaptive mode one
    /// pacing pulse is owed per evicted index.
    pub fn on_timeout(&mut self, watched: u64) -> (r: EngineTimeout)
        requires
            old(self).wf(),
        ensures
            final(self).wf(),
            final(self).is_adaptive() == old(self).is_adaptive(),
            final(self)@ == queue_after_evict(old(self)@, watched),
            r.evicted@ == evicted_indices(old(self)@, watched),
            r.pulses == if old(self).is_adaptive() {
                evicted_indices(old(self)@, watched).len() as u64
            } else {
                0u64
            },
    {
        let evicted = self.queue.evict_upto(watched);
        let pulses: u64 = if self.adaptive {
            evicted.len() as u64
        } else {
            0
        };
        EngineTimeout { evicted, pulses }
    }
}

/// A response matching the oldest in-flight index matches that request
/// alone: nothing is dropped, the sample is exactly the difference of the
/// response and request timestamps, and no other pending entry affects it.
pub proof fn lemma_match_oldest(s: Seq<InFlightEntry>, ts: u64)
    requires
        sorted_by_index(s),
        s.len() > 0,
    ensures
        drop_count(s, s[0].index) == 0,
        response_sample(s, s[0].index, ts) == Some(
            RttSample { index: s[0].index, rtt: rtt_of(ts, s[0].timestamp) },
        ),
        dropped_indices(s, s[0].index) == Seq::<u64>::empty(),
        queue_after_response(s, s[0].index) == s.skip(1),
{
    assert(drop_count(s, s[0].index) == 0);
    assert(matched(s, s[0].index));
    assert(dropped_indices(s, s[0].index) =~= Seq::<u64>::empty());
}

/// Every matched sample belongs to a request that was genuinely in flight
/// under that index, and its RTT is the difference of the response and
/// request timestamps — an unsigned quantity, so never negative. Responses
/// may arrive in any order: a response whose index is pending nowhere
/// produces no sample.
pub proof fn lemma_match_genuine(s: Seq<InFlightEntry>, idx: u64, ts: u64)
    requires
        sorted_by_index(s),
    ensures
        response_sample(s, idx, ts) is Some ==> {
            let r = response_sample(s, idx, ts)->Some_0;
            &&& r.index == idx
            &&& exists|j: int|
                0 <= j < s.len() && #[trigger] s[j].index == idx && r.rtt == rtt_of(
                    ts,
                    s[j].timestamp,
                )
        },
        (forall|j: int| 0 <= j < s.len() ==> #[trigger] s[j].index != idx) ==> response_sample(
            s,
            idx,
            ts,
        ) is None,
{
    if response_sample(s, idx, ts) is Some {
        let m = drop_count(s, idx);
        lemma_drop_count_bounds(s, idx);
        assert(0 <= m < s.len() && s[m].index == idx);
        assert(response_sample(s, idx, ts)->Some_0.rtt == rtt_of(ts, s[m].timestamp));
    }
}

/// One timeout sweep for watched index `w` evicts exactly the entries at or
/// below `w` — each reported once, so exactly one timeout notice is owed
/// per evicted request — and leaves exactly the entries above `w`.
pub proof fn lemma_evict_exact(s: Seq<InFlightEntry>, w: u64)
    requires
        sorted_by_index(s),
    ensures
        forall|j: int| 0 <= j < s.len() ==> (#[trigger] s[j].index <= w <==> j < evict_count(s, w)),
        evicted_indices(s, w).len() == evict_count(s, w),
        forall|i1: int, i2: int|
            0 <= i1 < i2 < evicted_indices(s, w).len() ==> #[trigger] evicted_indices(s, w)[i1]
                != #[trigger] evicted_indices(s, w)[i2],
        queue_after_evict(s, w) == s.skip(evict_count(s, w)),
        forall|j: int|
            0 <= j < queue_after_evict(s, w).len() ==> #[trigger] queue_after_evict(s, w)[j].index
                > w,
    decreases s.len(),
{
    let m = evict_count(s, w);
    lemma_evict_count_bounds(s, w);
    assert forall|j: int| 0 <= j < s.len() implies (#[trigger] s[j].index <= w <==> j < m) by {
        if j < m {
        } else {
            if m < s.len() {
                if j > m {
                    assert(s[m].index < s[j].index);
                }
            }
        }
    }
    assert forall|j: int| 0 <= j < queue_after_evict(s, w).len() implies #[trigger] queue_after_evict(
        s,
        w,
    )[j].index > w by {
        assert(queue_after_evict(s, w)[j] == s[j + m]);
    }
}

/// The boundary properties of `evict_count`: the prefix it measures is at
/// or below `w`, and the first survivor (if any) is above `w`.
proof fn lemma_evict_count_bounds(s: Seq<InFlightEntry>, w: u64)
    ensures
        0 <= evict_count(s, w) <= s.len(),
        forall|i: int| 0 <= i < evict_count(s, w) ==> #[trigger] s[i].index <= w,
        evict_count(s, w) < s.len() ==> s[evict_count(s, w)].index > w,
    decreases s.len(),
{
    if s.len() == 0 {
    } else if s[0].index <= w {
        lemma_evict_count_bounds(s.skip(1), w);
        assert forall|i: int| 0 <= i < evict_count(s, w) implies #[trigger] s[i].index <= w by {
            if i > 0 {
                assert(s.skip(1)[i - 1] == s[i]);
            }
        }
        if evict_count(s, w) < s.len() {
            assert(s.skip(1)[evict_count(s, w) - 1] == s[evict_count(s, w)]);
        }
    } else {
    }
}

} // verus!
