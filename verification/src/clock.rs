//! Clock probe bookkeeping of one session: the probe rhythm, the table of
//! outstanding probes that replies are paired against, and the counters that
//! tell "not sent" apart from "sent but never answered".
//!
//! Encoding the probe and reply datagrams, the offset estimator and the RTT
//! percentile ring live next to the transport; this ledger hands them plain
//! values and takes plain values back.
use vstd::prelude::*;

use crate::arith::seq_add;

verus! {

broadcast use vstd::std_specs::hash::group_hash_axioms;

/// Probes sent at the fast rate right after connecting.
pub const FAST_PROBES: u32 = 50;

/// Probe interval of the fast phase (ms).
pub const FAST_INTERVAL_MS: u64 = 100;

/// Probe interval of the steady phase (ms).
pub const STEADY_INTERVAL_MS: u64 = 1_000;

/// Capacity of the RTT sample ring.
pub const RTT_WINDOW: usize = 200;

/// Fewest RTT samples for which percentiles are reported.
pub const RTT_MIN_SAMPLES: usize = 8;

/// Bound of the outstanding probe table; beyond it the oldest probe is evicted.
pub const MAX_OUTSTANDING: usize = 64;

/// Probe counters and RTT percentiles of one session.
#[derive(Debug, Clone, Copy, PartialEq, Eq, Structural)]
pub struct ClockProbeStats {
    /// Probes sent by this side.
    pub sent: u64,
    /// Probes received from the peer (this side answering).
    pub received: u64,
    /// Replies paired with an outstanding probe; each one is a four-timestamp sample.
    pub replies: u64,
    /// Replies that paired with nothing: unknown or already answered sequence number,
    /// an echoed `t1` that is not ours, or a negative timestamp.
    pub unmatched: u64,
    /// P50 of the RTT ring (µs); `None` below `RTT_MIN_SAMPLES` samples.
    pub rtt_p50_us: Option<u32>,
    /// P95 of the RTT ring (µs); `None` below `RTT_MIN_SAMPLES` samples.
    pub rtt_p95_us: Option<u32>,
    /// Samples in the RTT ring (`0..=RTT_WINDOW`).
    pub rtt_samples: u32,
}

impl Default for ClockProbeStats {
    fn default() -> (r: Self)
        ensures
            r == zero_stats(),
    {
        ClockProbeStats {
            sent: 0,
            received: 0,
            replies: 0,
            unmatched: 0,
            rtt_p50_us: None,
            rtt_p95_us: None,
            rtt_samples: 0,
        }
    }
}

/// Counters of a fresh session.
pub open spec fn zero_stats() -> ClockProbeStats {
    ClockProbeStats {
        sent: 0,
        received: 0,
        replies: 0,
        unmatched: 0,
        rtt_p50_us: None,
        rtt_p95_us: None,
        rtt_samples: 0,
    }
}

/// Summary of the RTT ring: sample count, P50 and P95 (µs).
#[derive(Debug, Clone, Copy, PartialEq, Eq)]
pub struct RttSummary {
    pub count: usize,
    pub p50_us: u32,
    pub p95_us: u32,
}

/// The fields of a reply to a received probe.
#[derive(Debug, Clone, Copy, PartialEq, Eq)]
pub struct ClockReplyFields {
    /// Sequence number of the probe, echoed.
    pub probe_seq: u32,
    /// Sender timestamp of the probe, echoed.
    pub t1: i64,
    /// When the probe was received (local µs).
    pub t2: i64,
    /// When the reply leaves: equal to `t2` (no processing delay is added).
    pub t3: i64,
}

/// A reply paired with its probe: the three earlier timestamps (µs).
#[derive(Debug, Clone, Copy, PartialEq, Eq)]
pub struct PairedReply {
    pub probe_seq: u32,
    pub t1_us: u64,
    pub t2_us: u64,
    pub t3_us: u64,
}

/// `u64` µs as `i64`, saturating at `i64::MAX`.
pub open spec fn as_i64_spec(value: u64) -> i64 {
    if value <= i64::MAX as u64 { value as i64 } else { i64::MAX }
}

/// `i64` clamped into `i32`.
pub open spec fn clamp_i64_spec(value: i64) -> i32 {
    if value < i32::MIN as i64 {
        i32::MIN
    } else if value > i32::MAX as i64 {
        i32::MAX
    } else {
        value as i32
    }
}

/// A timestamp from the peer as `u64` (µs); saturates instead of failing.
pub fn as_i64(value: u64) -> (r: i64)
    ensures
        r == as_i64_spec(value),
{
    if value <= i64::MAX as u64 {
        value as i64
    } else {
        i64::MAX
    }
}

/// An `i64` clamped to the `i32` range (no wrap-around).
pub fn clamp_i64(value: i64) -> (r: i32)
    ensures
        r == clamp_i64_spec(value),
{
    if value < i32::MIN as i64 {
        i32::MIN
    } else if value > i32::MAX as i64 {
        i32::MAX
    } else {
        value as i32
    }
}

/// Saturating `u64` increment.
pub open spec fn inc_u64(x: u64) -> u64 {
    if x == u64::MAX { u64::MAX } else { (x + 1) as u64 }
}

/// Saturating `u32` increment.
pub open spec fn inc_u32_sat(x: u32) -> u32 {
    if x == u32::MAX { u32::MAX } else { (x + 1) as u32 }
}

/// Abstract state of the probe ledger.
pub struct ProbeModel {
    /// Outstanding probes: sequence number → `t1` (µs).
    pub outstanding: Map<u32, u64>,
    /// Insertion order of the outstanding probes (eviction picks the front).
    pub order: Seq<u32>,
    pub next_seq: u32,
    /// Probes sent so far (saturating); decides fast versus steady rhythm.
    pub probes: u32,
    pub stats: ClockProbeStats,
}

/// Register probe `seq` sent at `t1`: when the table is full the oldest entry is evicted.
pub open spec fn remember_probe(outstanding: Map<u32, u64>, order: Seq<u32>, seq: u32, t1: u64) -> (
    Map<u32, u64>,
    Seq<u32>,
) {
    let (m, o) = if outstanding.len() >= MAX_OUTSTANDING && order.len() > 0 {
        (outstanding.remove(order[0]), order.drop_first())
    } else {
        (outstanding, order)
    };
    (m.insert(seq, t1), o.push(seq))
}

/// The ledger after sending a probe at `now_us`, and the `(probe_seq, t1)` to put on the wire.
pub open spec fn probe_sent(m: ProbeModel, now_us: u64) -> (ProbeModel, (u32, i64)) {
    let (outstanding, order) = remember_probe(m.outstanding, m.order, m.next_seq, now_us);
    (
        ProbeModel {
            outstanding,
            order,
            next_seq: seq_add(m.next_seq, 1),
            probes: inc_u32_sat(m.probes),
            stats: ClockProbeStats { sent: inc_u64(m.stats.sent), ..m.stats },
        },
        (m.next_seq, as_i64_spec(now_us)),
    )
}

/// The ledger after a reply `(probe_seq, t1, t2, t3)`, and the paired timestamps when the
/// reply belongs to an outstanding probe of ours. A known sequence number leaves the table
/// whatever the rest of the reply says.
pub open spec fn reply_received(m: ProbeModel, probe_seq: u32, t1: i64, t2: i64, t3: i64) -> (
    ProbeModel,
    Option<PairedReply>,
) {
    if !m.outstanding.contains_key(probe_seq) {
        (ProbeModel { stats: ClockProbeStats { unmatched: inc_u64(m.stats.unmatched), ..m.stats }, ..m }, None)
    } else {
        let ours = m.outstanding[probe_seq];
        let taken = ProbeModel {
            outstanding: m.outstanding.remove(probe_seq),
            order: m.order.remove_value(probe_seq),
            ..m
        };
        if t1 < 0 || t2 < 0 || t3 < 0 || t1 as u64 != ours {
            (
                ProbeModel {
                    stats: ClockProbeStats { unmatched: inc_u64(m.stats.unmatched), ..m.stats },
                    ..taken
                },
                None,
            )
        } else {
            (
                ProbeModel {
                    stats: ClockProbeStats { replies: inc_u64(m.stats.replies), ..m.stats },
                    ..taken
                },
                Some(PairedReply { probe_seq, t1_us: ours, t2_us: t2 as u64, t3_us: t3 as u64 }),
            )
        }
    }
}

/// The published counters for an RTT ring of `rtt_len` samples summarised by `summary`.
pub open spec fn stats_with_rtt(s: ClockProbeStats, rtt_len: usize, summary: Option<RttSummary>) -> ClockProbeStats {
    let samples = if rtt_len > u32::MAX as usize { u32::MAX } else { rtt_len as u32 };
    match summary {
        Some(sum) => if sum.count >= RTT_MIN_SAMPLES {
            ClockProbeStats {
                rtt_samples: samples,
                rtt_p50_us: Some(sum.p50_us),
                rtt_p95_us: Some(sum.p95_us),
                ..s
            }
        } else {
            ClockProbeStats { rtt_samples: samples, ..s }
        },
        None => ClockProbeStats { rtt_samples: samples, ..s },
    }
}

/// Clock probe ledger of one session (one peer).
#[derive(Debug)]
pub struct ClockProbeState {
    outstanding: std::collections::HashMap<u32, u64>,
    order: std::collections::VecDeque<u32>,
    next_seq: u32,
    probes: u32,
    stats: ClockProbeStats,
}

impl View for ClockProbeState {
    type V = ProbeModel;

    closed spec fn view(&self) -> ProbeModel {
        ProbeModel {
            outstanding: self.outstanding@,
            order: self.order@,
            next_seq: self.next_seq,
            probes: self.probes,
            stats: self.stats,
        }
    }
}

impl ClockProbeState {
    /// A ledger with nothing sent and nothing outstanding.
    pub fn new() -> (r: Self)
        ensures
            r@.outstanding == Map::<u32, u64>::empty(),
            r@.order == Seq::<u32>::empty(),
            r@.next_seq == 0,
            r@.probes == 0,
            r@.stats == zero_stats(),
    {
        ClockProbeState {
            outstanding: std::collections::HashMap::new(),
            order: std::collections::VecDeque::new(),
            next_seq: 0,
            probes: 0,
            stats: ClockProbeStats::default(),
        }
    }

    /// Counters with the RTT ring's size and percentiles (`None` below
    /// `RTT_MIN_SAMPLES` samples: zero would read as "no delay").
    pub fn stats(&self, rtt_len: usize, summary: Option<RttSummary>) -> (r: ClockProbeStats)
        ensures
            r == stats_with_rtt(self@.stats, rtt_len, summary),
    {
        let mut stats = self.stats;
        stats.rtt_samples = if rtt_len > u32::MAX as usize { u32::MAX } else { rtt_len as u32 };
        if let Some(sum) = summary {
            if sum.count >= RTT_MIN_SAMPLES {
                stats.rtt_p50_us = Some(sum.p50_us);
                stats.rtt_p95_us = Some(sum.p95_us);
            }
        }
        stats
    }

    /// Number of outstanding probes.
    pub fn outstanding_count(&self) -> (r: usize)
        ensures
            r == self@.outstanding.len(),
    {
        proof {
            assert(vstd::std_specs::hash::obeys_key_model::<u32>());
            assert(vstd::std_specs::hash::builds_valid_hashers::<std::hash::RandomState>());
        }
        self.outstanding.len()
    }

    /// Interval before the next probe: `FAST_INTERVAL_MS` for the first `FAST_PROBES`
    /// probes, `STEADY_INTERVAL_MS` after.
    pub fn probe_interval_ms(&self) -> (r: u64)
        ensures
            r == (if self@.probes < FAST_PROBES { FAST_INTERVAL_MS } else { STEADY_INTERVAL_MS }),
    {
        if self.probes < FAST_PROBES {
            FAST_INTERVAL_MS
        } else {
            STEADY_INTERVAL_MS
        }
    }

    /// Register a probe sent at `now_us` (taken right before sending) and return the
    /// `(probe_seq, t1)` it carries.
    pub fn build_probe(&mut self, now_us: u64) -> (r: (u32, i64))
        ensures
            (final(self)@, r) == probe_sent(old(self)@, now_us),
    {
        let probe_seq = self.next_seq;
        self.next_seq = self.next_seq.wrapping_add(1);
        self.probes = self.probes.saturating_add(1);
        self.stats.sent = self.stats.sent.saturating_add(1);
        self.remember(probe_seq, now_us);
        (probe_seq, as_i64(now_us))
    }

    /// Answer a received probe at `now_us`: the reply echoes the probe and sets
    /// `t3 = t2 = now_us`.
    pub fn on_probe(&mut self, probe_seq: u32, t1: i64, now_us: u64) -> (r: ClockReplyFields)
        ensures
            final(self)@ == (ProbeModel {
                stats: ClockProbeStats { received: inc_u64(old(self)@.stats.received), ..old(self)@.stats },
                ..old(self)@
            }),
            r == (ClockReplyFields {
                probe_seq,
                t1,
                t2: as_i64_spec(now_us),
                t3: as_i64_spec(now_us),
            }),
    {
        self.stats.received = self.stats.received.saturating_add(1);
        let t2 = as_i64(now_us);
        ClockReplyFields { probe_seq, t1, t2, t3: t2 }
    }

    /// Pair a received reply with its outstanding probe. `None` (counted as unmatched) when
    /// the sequence number is unknown or already answered, a timestamp is negative, or the
    /// echoed `t1` is not the one sent.
    pub fn on_reply(&mut self, probe_seq: u32, t1: i64, t2: i64, t3: i64) -> (r: Option<PairedReply>)
        ensures
            (final(self)@, r) == reply_received(old(self)@, probe_seq, t1, t2, t3),
    {
        let ours = match self.take_outstanding(probe_seq) {
            Some(t) => t,
            None => {
                self.stats.unmatched = self.stats.unmatched.saturating_add(1);
                return None;
            },
        };
        if t1 < 0 || t2 < 0 || t3 < 0 {
            self.stats.unmatched = self.stats.unmatched.saturating_add(1);
            return None;
        }
        if t1 as u64 != ours {
            self.stats.unmatched = self.stats.unmatched.saturating_add(1);
            return None;
        }
        self.stats.replies = self.stats.replies.saturating_add(1);
        Some(PairedReply { probe_seq, t1_us: ours, t2_us: t2 as u64, t3_us: t3 as u64 })
    }

    /// Register an outstanding probe, evicting the oldest when the table is full.
    fn remember(&mut self, probe_seq: u32, t1: u64)
        ensures
            (final(self)@.outstanding, final(self)@.order) == remember_probe(
                old(self)@.outstanding,
                old(self)@.order,
                probe_seq,
                t1,
            ),
            final(self)@.next_seq == old(self)@.next_seq,
            final(self)@.probes == old(self)@.probes,
            final(self)@.stats == old(self)@.stats,
    {
        proof {
            assert(vstd::std_specs::hash::obeys_key_model::<u32>());
            assert(vstd::std_specs::hash::builds_valid_hashers::<std::hash::RandomState>());
        }
        if self.outstanding.len() >= MAX_OUTSTANDING {
            if let Some(oldest) = self.order.pop_front() {
                let _ = self.outstanding.remove(&oldest);
            }
        }
        let _ = self.outstanding.insert(probe_seq, t1);
        self.order.push_back(probe_seq);
    }

    /// Take an outstanding probe out of the table.
    fn take_outstanding(&mut self, probe_seq: u32) -> (r: Option<u64>)
        ensures
            old(self)@.outstanding.contains_key(probe_seq) ==> {
                &&& r == Some(old(self)@.outstanding[probe_seq])
                &&& final(self)@ == (ProbeModel {
                    outstanding: old(self)@.outstanding.remove(probe_seq),
                    order: old(self)@.order.remove_value(probe_seq),
                    ..old(self)@
                })
            },
            !old(self)@.outstanding.contains_key(probe_seq) ==> r is None && final(self)@ == old(
                self,
            )@,
    {
        proof {
            assert(vstd::std_specs::hash::obeys_key_model::<u32>());
            assert(vstd::std_specs::hash::builds_valid_hashers::<std::hash::RandomState>());
        }
        let t1 = match self.outstanding.remove(&probe_seq) {
            Some(t) => t,
            None => {
                proof {
                    assert(self.outstanding@ =~= old(self).outstanding@);
                }
                return None;
            },
        };
        proof {
            assert(old(self)@.outstanding.contains_key(probe_seq));
            assert(t1 == old(self)@.outstanding[probe_seq]);
            assert(self@.outstanding == old(self)@.outstanding.remove(probe_seq));
        }
        let ghost removed = self@;
        let ghost order = self.order@;
        proof {
            order.index_of_first_ensures(probe_seq);
        }
        let mut i: usize = 0;
        while i < self.order.len()
            invariant
                self@ == removed,
                self.order@ == order,
                old(self)@.outstanding.contains_key(probe_seq),
                t1 == old(self)@.outstanding[probe_seq],
                removed == (ProbeModel {
                    outstanding: old(self)@.outstanding.remove(probe_seq),
                    ..old(self)@
                }),
                0 <= i <= order.len(),
                forall|k: int| 0 <= k < i ==> order[k] != probe_seq,
                match order.index_of_first(probe_seq) {
                    Some(index) => {
                        &&& 0 <= index < order.len()
                        &&& order[index] == probe_seq
                        &&& forall|j: int| 0 <= j < index < order.len() ==> order[j] != probe_seq
                    },
                    None => !order.contains(probe_seq),
                },
            decreases order.len() - i,
        {
            if self.order[i] == probe_seq {
                proof {
                    let index = order.index_of_first(probe_seq);
                    assert(order.contains(probe_seq));
                    assert(index == Some(i as int));
                }
                let _ = self.order.remove(i);
                return Some(t1);
            }
            i = i + 1;
        }
        proof {
            assert(!order.contains(probe_seq));
        }
        Some(t1)
    }
}

/// The outstanding table is well formed: the order lists each outstanding probe exactly
/// once, and there are at most `MAX_OUTSTANDING` of them.
pub open spec fn probe_table_wf(m: ProbeModel) -> bool {
    &&& m.order.no_duplicates()
    &&& m.outstanding.dom() == m.order.to_set()
    &&& m.order.len() <= MAX_OUTSTANDING
}

/// A fresh ledger has a well-formed, empty table.
pub proof fn law_fresh_table_is_well_formed(next_seq: u32, probes: u32, stats: ClockProbeStats)
    ensures
        probe_table_wf(
            ProbeModel {
                outstanding: Map::empty(),
                order: Seq::empty(),
                next_seq,
                probes,
                stats,
            },
        ),
{
    assert(Seq::<u32>::empty().to_set() =~= Set::<u32>::empty());
    assert(Map::<u32, u64>::empty().dom() =~= Set::<u32>::empty());
}

/// In a well-formed table the number of outstanding probes is the length of the order.
pub proof fn law_outstanding_matches_order(m: ProbeModel)
    requires
        probe_table_wf(m),
    ensures
        m.outstanding.len() == m.order.len(),
        m.outstanding.len() <= MAX_OUTSTANDING,
{
    m.order.unique_seq_to_set();
}

/// Sending a probe keeps the table well formed, hence bounded by `MAX_OUTSTANDING` with the
/// oldest probe evicted, as long as the new sequence number is not still outstanding (it
/// can only be after the 32-bit sequence numbers wrapped while a probe that old was never
/// answered).
pub proof fn law_sending_keeps_the_table_bounded(m: ProbeModel, now_us: u64)
    requires
        probe_table_wf(m),
        !m.outstanding.contains_key(m.next_seq),
    ensures
        probe_table_wf(probe_sent(m, now_us).0),
        probe_sent(m, now_us).0.outstanding.contains_key(m.next_seq),
        probe_sent(m, now_us).0.outstanding[m.next_seq] == now_us,
{
    broadcast use vstd::seq_lib::seq_to_set_is_finite;
    let seq = m.next_seq;
    m.order.unique_seq_to_set();
    assert(m.outstanding.len() == m.order.len());
    assert(!m.order.contains(seq)) by {
        assert(!m.order.to_set().contains(seq));
    }
    if m.outstanding.len() >= MAX_OUTSTANDING && m.order.len() > 0 {
        let o0 = m.order[0];
        let o1 = m.order.drop_first();
        assert(o1.no_duplicates());
        assert(!o1.contains(o0)) by {
            if o1.contains(o0) {
                let k = choose|k: int| 0 <= k < o1.len() && o1[k] == o0;
                assert(m.order[k + 1] == o0);
            }
        }
        assert(m.outstanding.remove(o0).dom() =~= o1.to_set()) by {
            assert forall|x: u32| #[trigger] o1.to_set().contains(x) <==> m.outstanding.remove(o0).dom().contains(x) by {
                if o1.contains(x) {
                    let k = choose|k: int| 0 <= k < o1.len() && o1[k] == x;
                    assert(m.order[k + 1] == x);
                    assert(m.order.contains(x));
                }
                if m.order.contains(x) && x != o0 {
                    let k = choose|k: int| 0 <= k < m.order.len() && m.order[k] == x;
                    assert(k != 0);
                    assert(o1[k - 1] == x);
                }
            }
        }
        let o2 = o1.push(seq);
        assert(!o1.contains(seq)) by {
            if o1.contains(seq) {
                let k = choose|k: int| 0 <= k < o1.len() && o1[k] == seq;
                assert(m.order[k + 1] == seq);
            }
        }
        assert(o2.no_duplicates()) by {
            assert forall|i: int, j: int| 0 <= i < o2.len() && 0 <= j < o2.len() && i != j implies o2[i] != o2[j] by {
                if i < o1.len() && j < o1.len() {
                } else if i == o1.len() {
                    assert(o1.contains(o2[j]) || j == i);
                } else {
                    assert(o1.contains(o2[i]) || j == i);
                }
            }
        }
        assert forall|x: u32| #[trigger] o2.contains(x) <==> (o1.contains(x) || x == seq) by {
            if o2.contains(x) {
                let k = choose|k: int| 0 <= k < o2.len() && o2[k] == x;
                if k < o1.len() {
                    assert(o1[k] == x);
                }
            }
            if o1.contains(x) {
                let k = choose|k: int| 0 <= k < o1.len() && o1[k] == x;
                assert(o2[k] == x);
            }
            if x == seq {
                assert(o2[o1.len() as int] == x);
            }
        }
        assert(m.outstanding.remove(o0).insert(seq, now_us).dom() =~= o2.to_set());
    } else {
        let o2 = m.order.push(seq);
        assert(o2.no_duplicates()) by {
            assert forall|i: int, j: int| 0 <= i < o2.len() && 0 <= j < o2.len() && i != j implies o2[i] != o2[j] by {
                if i < m.order.len() && j < m.order.len() {
                } else if i == m.order.len() {
                    assert(m.order.contains(o2[j]) || j == i);
                } else {
                    assert(m.order.contains(o2[i]) || j == i);
                }
            }
        }
        assert forall|x: u32| #[trigger] o2.contains(x) <==> (m.order.contains(x) || x == seq) by {
            if o2.contains(x) {
                let k = choose|k: int| 0 <= k < o2.len() && o2[k] == x;
                if k < m.order.len() {
                    assert(m.order[k] == x);
                }
            }
            if m.order.contains(x) {
                let k = choose|k: int| 0 <= k < m.order.len() && m.order[k] == x;
                assert(o2[k] == x);
            }
            if x == seq {
                assert(o2[m.order.len() as int] == x);
            }
        }
        assert(m.outstanding.insert(seq, now_us).dom() =~= o2.to_set());
    }
}

/// A reply keeps the table well formed, and its sequence number is no longer outstanding
/// afterwards.
pub proof fn law_reply_keeps_the_table_bounded(m: ProbeModel, probe_seq: u32, t1: i64, t2: i64, t3: i64)
    requires
        probe_table_wf(m),
    ensures
        probe_table_wf(reply_received(m, probe_seq, t1, t2, t3).0),
        !reply_received(m, probe_seq, t1, t2, t3).0.outstanding.contains_key(probe_seq),
{
    broadcast use vstd::seq_lib::seq_to_set_is_finite;
    if m.outstanding.contains_key(probe_seq) {
        let o = m.order;
        assert(o.to_set().contains(probe_seq));
        o.index_of_first_ensures(probe_seq);
        let i = o.index_of_first(probe_seq)->0;
        let r = o.remove(i);
        assert(r.len() == o.len() - 1);
        assert forall|k: int| 0 <= k < r.len() implies #[trigger] r[k] == (if k < i { o[k] } else { o[k + 1] }) by {
        }
        assert(r.no_duplicates()) by {
            assert forall|a: int, b: int| 0 <= a < r.len() && 0 <= b < r.len() && a != b implies r[a] != r[b] by {
                let a2 = if a < i { a } else { a + 1 };
                let b2 = if b < i { b } else { b + 1 };
                assert(r[a] == o[a2]);
                assert(r[b] == o[b2]);
            }
        }
        assert(m.outstanding.remove(probe_seq).dom() =~= r.to_set()) by {
            assert forall|x: u32| #[trigger] r.to_set().contains(x) <==> m.outstanding.remove(probe_seq).dom().contains(x) by {
                if r.contains(x) {
                    let k = choose|k: int| 0 <= k < r.len() && r[k] == x;
                    let k2 = if k < i { k } else { k + 1 };
                    assert(o[k2] == x);
                    assert(o.contains(x));
                    assert(k2 != i);
                }
                if o.contains(x) && x != probe_seq {
                    let k = choose|k: int| 0 <= k < o.len() && o[k] == x;
                    assert(k != i);
                    if k < i {
                        assert(r[k] == x);
                    } else {
                        assert(r[k - 1] == x);
                    }
                }
            }
        }
    }
}

/// A reply pairs at most once: replaying the same reply, or any reply with the same
/// sequence number, is unmatched and counted as such.
pub proof fn law_reply_pairs_at_most_once(
    m: ProbeModel,
    probe_seq: u32,
    t1: i64,
    t2: i64,
    t3: i64,
    u1: i64,
    u2: i64,
    u3: i64,
)
    ensures
        ({
            let (m1, _first) = reply_received(m, probe_seq, t1, t2, t3);
            let (m2, second) = reply_received(m1, probe_seq, u1, u2, u3);
            &&& second is None
            &&& m2.stats.unmatched == inc_u64(m1.stats.unmatched)
            &&& m2.stats.replies == m1.stats.replies
        }),
{
}

} // verus!
