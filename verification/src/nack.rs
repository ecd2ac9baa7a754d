//! NACK retransmission bookkeeping: the receiver tracks missing sequence
//! numbers and asks for them within bounded retries; the sender keeps a window
//! of recently sent frames to answer those requests.
use vstd::prelude::*;

use crate::arith::{seq_add, seq_dist, seq_inc, seq_sub};

verus! {

/// Maximum number of requests for one missing sequence number.
pub const NACK_MAX_RETRIES: u8 = 5;

/// Spacing of two requests for the same sequence number (µs).
pub const NACK_RETRY_INTERVAL_US: u64 = 10_000;

/// Retransmission window (µs): older holes are no longer requested nor kept.
pub const NACK_WINDOW_US: u64 = 1_000_000;

/// NACK is only enabled below this RTT (µs).
pub const NACK_MAX_RTT_US: u64 = 30_000;

/// Maximum number of sequence numbers carried by one NACK message.
pub const NACK_BATCH_MAX: usize = 16;

/// Maximum number of missing sequence numbers tracked at once.
pub const NACK_MAX_TRACKED: usize = 64;

/// A forward jump of at least this many frames rebuilds the timeline.
pub const NACK_RESYNC_GAP: u32 = 1_000;

/// Capacity of the retransmission buffer (frames).
pub const NACK_RETRANSMIT_CAPACITY: usize = 128;

/// Bounded extra wait that the reorder window grants a hole while a retransmission is in flight (µs).
pub const NACK_RETRANSMIT_GRACE_US: u64 = 30_000;

/// A sequence number that is still missing.
#[derive(Debug, Clone, Copy, PartialEq, Eq)]
pub struct Missing {
    /// The missing sequence number.
    pub seq: u32,
    /// Requests made so far.
    pub attempts: u8,
    /// When the hole was first seen (µs); the window runs from here.
    pub first_seen_us: u64,
    /// Earliest time of the next request (µs).
    pub next_at_us: u64,
}

/// `now - then`, 0 when `then` is later.
pub open spec fn elapsed(now: u64, then: u64) -> int {
    if now >= then { now - then } else { 0 }
}

/// Whether `entries` tracks `seq`.
pub open spec fn tracks(entries: Seq<Missing>, seq: u32) -> bool {
    exists|i: int| 0 <= i < entries.len() && entries[i].seq == seq
}

/// No sequence number is tracked twice.
pub open spec fn distinct_seqs(entries: Seq<Missing>) -> bool {
    forall|i: int, j: int| 0 <= i < j < entries.len() ==> entries[i].seq != entries[j].seq
}

/// A fresh entry for `seq` seen at `now`.
pub open spec fn fresh(seq: u32, now: u64) -> Missing {
    Missing { seq, attempts: 0, first_seen_us: now, next_at_us: now }
}

/// Result of tracking the `n` holes `start, start+1, ...` (in that order):
/// `(entries, overflow, added)`. An already tracked hole is skipped; a hole beyond the
/// capacity only counts into the overflow.
pub open spec fn track_run(entries: Seq<Missing>, overflow: int, start: u32, n: nat, now: u64) -> (
    Seq<Missing>,
    int,
    int,
)
    decreases n,
{
    if n == 0 {
        (entries, overflow, 0)
    } else {
        let (e, o, a) = track_run(entries, overflow, start, (n - 1) as nat, now);
        let s = seq_add(start, n - 1);
        if tracks(e, s) {
            (e, o, a)
        } else if e.len() >= NACK_MAX_TRACKED {
            (e, if o + 1 > u64::MAX { u64::MAX as int } else { o + 1 }, a)
        } else {
            (e.push(fresh(s, now)), o, a + 1)
        }
    }
}

/// Whether an entry may be requested at `now`.
pub open spec fn eligible(m: Missing, now: u64) -> bool {
    m.attempts < NACK_MAX_RETRIES && now >= m.next_at_us && elapsed(now, m.first_seen_us)
        < NACK_WINDOW_US
}

/// Whether an entry is still inside the window at `now`.
pub open spec fn in_window(m: Missing, now: u64) -> bool {
    elapsed(now, m.first_seen_us) < NACK_WINDOW_US
}

/// The holes still inside their window at `now`, in their order.
pub open spec fn kept_in_window(entries: Seq<Missing>, now: u64) -> Seq<Missing> {
    entries.filter(|m: Missing| in_window(m, now))
}

/// The tracker after `seq` arrived at `now`, and how many holes were newly recognised:
/// a first arrival only sets the cursor; a late or duplicate arrival fills its hole; the
/// expected one fills its hole and moves the cursor; a jump of `NACK_RESYNC_GAP` or more
/// forgets every hole; a smaller jump tracks the skipped numbers as new holes.
pub open spec fn observe_result(o: TrackerModel, seq: u32, now: u64) -> (TrackerModel, int) {
    match o.expected {
        None => (TrackerModel { expected: Some(seq_add(seq, 1)), ..o }, 0),
        Some(expected) => {
            let d = seq_dist(seq, expected);
            let rest = o.entries.filter(|m: Missing| m.seq != seq);
            if d >= 0x8000_0000 {
                (TrackerModel { entries: rest, ..o }, 0)
            } else if d == 0 {
                (TrackerModel { entries: rest, expected: Some(seq_add(seq, 1)), ..o }, 0)
            } else if d >= NACK_RESYNC_GAP {
                (TrackerModel { entries: Seq::empty(), expected: Some(seq_add(seq, 1)), ..o }, 0)
            } else {
                let (e, ov, a) = track_run(rest, o.overflow, expected, d as nat, now);
                (TrackerModel { entries: e, overflow: ov, expected: Some(seq_add(seq, 1)) }, a)
            }
        },
    }
}

/// Receiver side tracker of missing sequence numbers.
#[derive(Debug)]
pub struct MissingTracker {
    entries: Vec<Missing>,
    expected: Option<u32>,
    overflow: u64,
}

/// Abstract state of the tracker.
pub struct TrackerModel {
    /// Tracked holes, oldest first.
    pub entries: Seq<Missing>,
    /// Next expected sequence number (highest arrived + 1).
    pub expected: Option<u32>,
    /// Holes given up because the table was full.
    pub overflow: int,
}

impl View for MissingTracker {
    type V = TrackerModel;

    closed spec fn view(&self) -> TrackerModel {
        TrackerModel { entries: self.entries@, expected: self.expected, overflow: self.overflow as int }
    }
}

impl MissingTracker {
    /// Well-formedness: distinct holes, never more than `NACK_MAX_TRACKED`, retries bounded.
    pub closed spec fn wf(&self) -> bool {
        &&& distinct_seqs(self.entries@)
        &&& self.entries@.len() <= NACK_MAX_TRACKED
        &&& forall|i: int| 0 <= i < self.entries@.len() ==> self.entries@[i].attempts <= NACK_MAX_RETRIES
    }

    /// An empty tracker.
    pub fn new() -> (r: Self)
        ensures
            r.wf(),
            r@.entries.len() == 0,
            r@.expected is None,
            r@.overflow == 0,
    {
        MissingTracker { entries: Vec::new(), expected: None, overflow: 0 }
    }

    /// Entries without `seq`.
    fn resolve(&mut self, seq: u32)
        requires
            old(self).wf(),
        ensures
            final(self).wf(),
            final(self).entries@ == old(self).entries@.filter(|m: Missing| m.seq != seq),
            final(self).expected == old(self).expected,
            final(self).overflow == old(self).overflow,
            !tracks(final(self).entries@, seq),
    {
        let ghost pred = |m: Missing| m.seq != seq;
        let ghost old_entries = self.entries@;
        let mut kept: Vec<Missing> = Vec::new();
        let mut i: usize = 0;
        while i < self.entries.len()
            invariant
                self.entries@ == old_entries,
                0 <= i <= old_entries.len(),
                kept@ == old_entries.take(i as int).filter(pred),
                pred == (|m: Missing| m.seq != seq),
                forall|k: int| 0 <= k < kept@.len() ==> kept@[k].seq != seq,
            decreases old_entries.len() - i,
        {
            let m = self.entries[i];
            if m.seq != seq {
                kept.push(m);
            }

            proof {
                reveal_with_fuel(Seq::<_>::filter, 1);
                assert(old_entries.take(i + 1).drop_last() =~= old_entries.take(i as int));
                let t = old_entries.take(i + 1);
                assert(t.last() == m);
                assert(t.len() > 0);
                assert(t.filter(pred) == (if pred(m) { old_entries.take(i as int).filter(pred).push(m) } else { old_entries.take(i as int).filter(pred) }));
                assert(kept@ =~= t.filter(pred));
            }
            i = i + 1;
        }
        proof {
            assert(old_entries.take(old_entries.len() as int) =~= old_entries);
            lemma_filter_distinct(old_entries, pred);
            assert forall|k: int| 0 <= k < kept@.len() implies kept@[k].attempts <= NACK_MAX_RETRIES by {
                assert(old_entries.contains(kept@[k]));
            }
        }
        self.entries = kept;
    }

    /// Start tracking `seq`; `false` when it is already tracked or the table is full.
    fn track(&mut self, seq: u32, now_us: u64) -> (r: bool)
        requires
            old(self).wf(),
        ensures
            final(self).wf(),
            final(self).expected == old(self).expected,
            ({
                let (e, o, a) = track_run(old(self).entries@, old(self).overflow as int, seq, 1, now_us);
                &&& final(self).entries@ == e
                &&& final(self).overflow == o
                &&& r == (a == 1)
            }),
    {
        proof {
            assert(seq_add(seq, 0) == seq);
            reveal_with_fuel(track_run, 2);
        }
        let mut i: usize = 0;
        while i < self.entries.len()
            invariant
                self.entries@ == old(self).entries@,
                self.overflow == old(self).overflow,
                self.expected == old(self).expected,
                self.wf(),
                0 <= i <= self.entries@.len(),
                forall|k: int| 0 <= k < i ==> self.entries@[k].seq != seq,
            decreases self.entries@.len() - i,
        {
            if self.entries[i].seq == seq {
                proof {
                    assert(tracks(self.entries@, seq));
                    let o0 = self.overflow as int;
                    assert(track_run(self.entries@, o0, seq, 0, now_us) == (self.entries@, o0, 0int));
                    assert(track_run(self.entries@, o0, seq, 1, now_us) == (self.entries@, o0, 0int));
                }
                return false;
            }
            i = i + 1;
        }
        if self.entries.len() >= NACK_MAX_TRACKED {
            let ghost o0 = self.overflow as int;
            self.overflow = self.overflow.saturating_add(1);
            proof {
                assert(!tracks(self.entries@, seq));
                assert(track_run(self.entries@, o0, seq, 0, now_us) == (self.entries@, o0, 0int));
                assert(track_run(self.entries@, o0, seq, 1, now_us) == (self.entries@, (if o0 + 1 > u64::MAX { u64::MAX as int } else { o0 + 1 }), 0int));
            }
            return false;
        }
        self.entries.push(Missing { seq, attempts: 0, first_seen_us: now_us, next_at_us: now_us });
        true
    }

    /// Record an arrived sequence number (primary or redundant copy). Returns how many
    /// holes were newly recognised.
    pub fn observe(&mut self, seq: u32, now_us: u64) -> (r: usize)
        requires
            old(self).wf(),
        ensures
            final(self).wf(),
            (final(self)@, r as int) == observe_result(old(self)@, seq, now_us),
    {
        let expected = match self.expected {
            None => {
                self.expected = Some(seq_inc(seq, 1));
                return 0;
            },
            Some(e) => e,
        };
        let forward = seq_sub(seq, expected);
        if forward >= 0x8000_0000 {
            self.resolve(seq);
            return 0;
        }
        self.resolve(seq);
        if forward == 0 {
            self.expected = Some(seq_inc(seq, 1));
            return 0;
        }
        if forward >= NACK_RESYNC_GAP {
            self.entries.clear();
            self.expected = Some(seq_inc(seq, 1));
            return 0;
        }
        let ghost rest = self.entries@;
        let ghost ov0 = self.overflow as int;
        let mut added: usize = 0;
        let mut offset: u32 = 0;
        while offset < forward
            invariant
                self.wf(),
                0 <= offset <= forward < NACK_RESYNC_GAP,
                self.expected == Some(expected),
                ({
                    let (e, ov, a) = track_run(rest, ov0, expected, offset as nat, now_us);
                    &&& self.entries@ == e
                    &&& self.overflow == ov
                    &&& added == a
                }),
                added <= offset,
            decreases forward - offset,
        {
            let s = seq_inc(expected, offset);
            let ghost before = self.entries@;
            let ghost ob = self.overflow as int;
            let ok = self.track(s, now_us);
            proof {
                lemma_track_run_step(rest, ov0, expected, (offset + 1) as nat, now_us);
                let (e1, o1, a1) = track_run(before, ob, s, 1, now_us);
                assert(track_run(before, ob, s, 0, now_us) == (before, ob, 0int));
            }
            if ok {
                added = added + 1;
            }
            offset = offset + 1;
        }
        self.expected = Some(seq_inc(seq, 1));
        added
    }

    /// Sequence numbers to request now: the eligible holes (retries left, retry spacing
    /// reached, still inside the window), oldest first, at most `NACK_BATCH_MAX`. The
    /// returned ones get their retry count and next request time advanced.
    pub fn due_batch(&mut self, now_us: u64) -> (r: Vec<u32>)
        requires
            old(self).wf(),
            now_us <= u64::MAX - NACK_RETRY_INTERVAL_US,
        ensures
            final(self).wf(),
            final(self)@.expected == old(self)@.expected,
            final(self)@.overflow == old(self)@.overflow,
            match old(self)@.expected {
                None => r@.len() == 0 && final(self)@.entries == old(self)@.entries,
                Some(expected) => {
                    &&& batch_of(old(self)@.entries, now_us, expected, r@)
                    &&& final(self)@.entries == old(self)@.entries.map_values(
                        |m: Missing| bump_if_sent(m, r@, now_us),
                    )
                },
            },
    {
        let expected = match self.expected {
            None => {
                return Vec::new();
            },
            Some(e) => e,
        };
        let ghost entries = self.entries@;
        // 1. the eligible holes
        let mut cand: Vec<u32> = Vec::new();
        let mut i: usize = 0;
        while i < self.entries.len()
            invariant
                self.entries@ == entries,
                self.wf(),
                0 <= i <= entries.len(),
                forall|k: int| 0 <= k < cand@.len() ==> eligible_seq(entries, now_us, #[trigger] cand@[k]),
                forall|j: int| 0 <= j < i && eligible(entries[j], now_us) ==> cand@.contains(#[trigger] entries[j].seq),
                forall|k: int| 0 <= k < cand@.len() ==> exists|j: int| 0 <= j < i && entries[j].seq == #[trigger] cand@[k],
                forall|a: int, b: int| 0 <= a < b < cand@.len() ==> cand@[a] != cand@[b],
            decreases entries.len() - i,
        {
            let m = self.entries[i];
            if m.attempts < NACK_MAX_RETRIES && now_us >= m.next_at_us && now_us.saturating_sub(
                m.first_seen_us,
            ) < NACK_WINDOW_US {
                proof {
                    assert forall|k: int| 0 <= k < cand@.len() implies cand@[k] != m.seq by {
                        let j = choose|j: int| 0 <= j < i && entries[j].seq == cand@[k];
                        assert(entries[j].seq != entries[i as int].seq);
                    }
                }
                let ghost cand_before = cand@;
                cand.push(m.seq);
                proof {
                    assert(cand@[cand@.len() - 1] == m.seq);
                    assert(eligible_seq(entries, now_us, m.seq)) by {
                        assert(entries[i as int] == m);
                    }
                    assert forall|j: int| 0 <= j < i + 1 && eligible(entries[j], now_us) implies cand@.contains(#[trigger] entries[j].seq) by {
                        if j == i {
                            assert(cand@[cand@.len() - 1] == entries[j].seq);
                        } else {
                            assert(cand_before.contains(entries[j].seq));
                            let w = choose|w: int| 0 <= w < cand_before.len() && cand_before[w] == entries[j].seq;
                            assert(cand@[w] == entries[j].seq);
                        }
                    }
                    assert forall|k: int| 0 <= k < cand@.len() implies exists|j: int| 0 <= j < i + 1 && entries[j].seq == #[trigger] cand@[k] by {
                        if k == cand@.len() - 1 {
                            assert(entries[i as int].seq == cand@[k]);
                        }
                    }
                }
            }
            i = i + 1;
        }
        // 2. selection of the oldest holes, one at a time
        let mut result: Vec<u32> = Vec::new();
        let mut rest: Vec<u32> = cand;
        let ghost cand_s = rest@;
        while result.len() < NACK_BATCH_MAX && rest.len() > 0
            invariant
                result@.len() <= NACK_BATCH_MAX,
                forall|x: u32| cand_s.contains(x) <==> (result@.contains(x) || rest@.contains(x)),
                forall|a: int, b: int| 0 <= a < b < rest@.len() ==> rest@[a] != rest@[b],
                forall|a: int, b: int| 0 <= a < result@.len() && 0 <= b < rest@.len() ==> result@[a] != rest@[b],
                forall|a: int, b: int|
                    0 <= a < b < result@.len() ==> seq_dist(expected, result@[a]) > seq_dist(expected, result@[b]),
                forall|a: int, b: int|
                    0 <= a < result@.len() && 0 <= b < rest@.len() ==> seq_dist(expected, rest@[b])
                        < seq_dist(expected, result@[a]),
            decreases rest@.len(),
        {
            let mut best: usize = 0;
            let mut best_key = seq_sub(expected, rest[0]);
            let mut k: usize = 1;
            while k < rest.len()
                invariant
                    0 <= best < rest@.len(),
                    1 <= k <= rest@.len(),
                    best_key == seq_dist(expected, rest@[best as int]),
                    forall|j: int| 0 <= j < k ==> seq_dist(expected, rest@[j]) <= best_key,
                decreases rest@.len() - k,
            {
                let key = seq_sub(expected, rest[k]);
                if key > best_key {
                    best = k;
                    best_key = key;
                }
                k = k + 1;
            }
            let ghost r0 = result@;
            let ghost rest0 = rest@;
            let picked = rest.remove(best);
            result.push(picked);
            proof {
                assert(result@ == r0.push(picked));
                assert(rest@ == rest0.remove(best as int));
                assert forall|b: int| 0 <= b < rest@.len() implies seq_dist(expected, rest@[b]) < seq_dist(
                    expected,
                    picked,
                ) by {
                    let ob = if b < best { b } else { b + 1 };
                    assert(rest@[b] == rest0[ob]);
                    assert(rest0[ob] != rest0[best as int]);
                    if seq_dist(expected, rest0[ob]) == seq_dist(expected, picked) {
                        lemma_seq_dist_injective(expected, rest0[ob], picked);
                    }
                }
                assert forall|x: u32| cand_s.contains(x) <==> (result@.contains(x) || rest@.contains(x)) by {
                    if rest0.contains(x) {
                        let w = choose|w: int| 0 <= w < rest0.len() && rest0[w] == x;
                        if w == best {
                            assert(result@[result@.len() - 1] == x);
                        } else {
                            let nw = if w < best { w } else { w - 1 };
                            assert(rest@[nw] == x);
                        }
                    }
                    if r0.contains(x) {
                        let w = choose|w: int| 0 <= w < r0.len() && r0[w] == x;
                        assert(result@[w] == x);
                    }
                    if result@.contains(x) {
                        let w = choose|w: int| 0 <= w < result@.len() && result@[w] == x;
                        if w < r0.len() {
                            assert(r0[w] == x);
                        } else {
                            assert(rest0[best as int] == x);
                        }
                    }
                    if rest@.contains(x) {
                        let w = choose|w: int| 0 <= w < rest@.len() && rest@[w] == x;
                        let ow = if w < best { w } else { w + 1 };
                        assert(rest0[ow] == x);
                    }
                }
                assert forall|a: int, b: int| 0 <= a < b < rest@.len() implies rest@[a] != rest@[b] by {
                    let oa = if a < best { a } else { a + 1 };
                    let ob = if b < best { b } else { b + 1 };
                    assert(rest@[a] == rest0[oa]);
                    assert(rest@[b] == rest0[ob]);
                }
                assert forall|a: int, b: int| 0 <= a < result@.len() && 0 <= b < rest@.len() implies result@[a] != rest@[b] by {
                    let ob = if b < best { b } else { b + 1 };
                    assert(rest@[b] == rest0[ob]);
                    if a < r0.len() {
                        assert(result@[a] == r0[a]);
                    } else {
                        assert(result@[a] == rest0[best as int]);
                    }
                }
                assert forall|a: int, b: int|
                    0 <= a < result@.len() && 0 <= b < rest@.len() implies seq_dist(expected, rest@[b])
                        < seq_dist(expected, result@[a]) by {
                    let ob = if b < best { b } else { b + 1 };
                    assert(rest@[b] == rest0[ob]);
                    if a < r0.len() {
                        assert(result@[a] == r0[a]);
                    }
                }
                assert forall|a: int, b: int|
                    0 <= a < b < result@.len() implies seq_dist(expected, result@[a]) > seq_dist(expected, result@[b]) by {
                    if b == result@.len() - 1 {
                        assert(result@[a] == r0[a]);
                        assert(rest0[best as int] == picked);
                    } else {
                        assert(result@[a] == r0[a]);
                        assert(result@[b] == r0[b]);
                    }
                }
            }
        }
        // 3. advance the requested holes
        let mut updated: Vec<Missing> = Vec::new();
        let mut j: usize = 0;
        while j < self.entries.len()
            invariant
                self.entries@ == entries,
                self.wf(),
                now_us <= u64::MAX - NACK_RETRY_INTERVAL_US,
                0 <= j <= entries.len(),
                updated@.len() == j,
                forall|k: int| 0 <= k < j ==> updated@[k] == bump_if_sent(entries[k], result@, now_us),
            decreases entries.len() - j,
        {
            let m = self.entries[j];
            if contains_u32(&result, m.seq) {
                updated.push(Missing {
                    seq: m.seq,
                    attempts: m.attempts.saturating_add(1),
                    first_seen_us: m.first_seen_us,
                    next_at_us: now_us + NACK_RETRY_INTERVAL_US,
                });
            } else {
                updated.push(m);
            }
            j = j + 1;
        }
        proof {
            let f = |m: Missing| bump_if_sent(m, result@, now_us);
            assert(updated@ =~= entries.map_values(f));
            // batch properties
            assert forall|k: int| 0 <= k < result@.len() implies eligible_seq(entries, now_us, #[trigger] result@[k]) by {
                assert(result@.contains(result@[k]));
                assert(cand_s.contains(result@[k]));
                let w = choose|w: int| 0 <= w < cand_s.len() && cand_s[w] == result@[k];
            }
            assert forall|q: int|
                0 <= q < entries.len() && eligible(entries[q], now_us) && !result@.contains(#[trigger] entries[q].seq)
                implies result@.len() == NACK_BATCH_MAX && seq_dist(expected, entries[q].seq) < seq_dist(
                expected,
                result@[NACK_BATCH_MAX - 1],
            ) by {
                assert(cand_s.contains(entries[q].seq));
                assert(rest@.contains(entries[q].seq));
                let w = choose|w: int| 0 <= w < rest@.len() && rest@[w] == entries[q].seq;
            }
            // well-formedness of the updated table
            assert forall|a: int, b: int| 0 <= a < b < updated@.len() implies updated@[a].seq != updated@[b].seq by {
                assert(updated@[a].seq == entries[a].seq);
                assert(updated@[b].seq == entries[b].seq);
            }
            assert forall|k: int| 0 <= k < updated@.len() implies updated@[k].attempts <= NACK_MAX_RETRIES by {
                if result@.contains(entries[k].seq) {
                    let w = choose|w: int| 0 <= w < result@.len() && result@[w] == entries[k].seq;
                    assert(eligible_seq(entries, now_us, result@[w]));
                    let q = choose|q: int| 0 <= q < entries.len() && entries[q].seq == result@[w] && eligible(entries[q], now_us);
                    assert(q == k);
                }
            }
        }
        self.entries = updated;
        result
    }

    /// Drop entries older than the retransmission window.
    pub fn expire(&mut self, now_us: u64)
        requires
            old(self).wf(),
        ensures
            final(self).wf(),
            final(self)@.entries == kept_in_window(old(self)@.entries, now_us),
            final(self)@.expected == old(self)@.expected,
            final(self)@.overflow == old(self)@.overflow,
    {
        let ghost pred = |m: Missing| in_window(m, now_us);
        let ghost old_entries = self.entries@;
        let mut kept: Vec<Missing> = Vec::new();
        let mut i: usize = 0;
        while i < self.entries.len()
            invariant
                self.entries@ == old_entries,
                0 <= i <= old_entries.len(),
                kept@ == old_entries.take(i as int).filter(pred),
                pred == (|m: Missing| in_window(m, now_us)),
            decreases old_entries.len() - i,
        {
            let m = self.entries[i];
            if now_us.saturating_sub(m.first_seen_us) < NACK_WINDOW_US {
                kept.push(m);
            }
            proof {
                reveal_with_fuel(Seq::<_>::filter, 1);
                assert(old_entries.take(i + 1).drop_last() =~= old_entries.take(i as int));
                let t = old_entries.take(i + 1);
                assert(t.last() == m);
                assert(t.len() > 0);
                assert(t.filter(pred) == (if pred(m) { old_entries.take(i as int).filter(pred).push(m) } else { old_entries.take(i as int).filter(pred) }));
                assert(kept@ =~= t.filter(pred));
            }
            i = i + 1;
        }
        proof {
            assert(old_entries.take(old_entries.len() as int) =~= old_entries);
            lemma_filter_distinct(old_entries, pred);
            old_entries.lemma_filter_len(pred);
            assert forall|k: int| 0 <= k < kept@.len() implies kept@[k].attempts <= NACK_MAX_RETRIES by {
                assert(old_entries.contains(kept@[k]));
            }
        }
        self.entries = kept;
    }

    /// Number of holes still missing.
    pub fn pending(&self) -> (r: usize)
        ensures
            r == self@.entries.len(),
    {
        self.entries.len()
    }

    /// Holes given up because the table was full (cumulative).
    pub fn overflowed(&self) -> (r: u64)
        ensures
            r == self@.overflow,
    {
        self.overflow
    }

    /// Forget everything (stream change or session rebuild).
    pub fn clear(&mut self)
        ensures
            final(self).wf(),
            final(self)@.entries.len() == 0,
            final(self)@.expected is None,
            final(self)@.overflow == 0,
    {
        self.entries.clear();
        self.expected = None;
        self.overflow = 0;
    }
}

/// One frame kept for retransmission.
#[derive(Debug)]
pub struct RetransmitEntry {
    seq: u32,
    sample_index: u32,
    payload: Vec<u8>,
    at_us: u64,
}

/// Abstract content of a kept frame.
pub struct SentFrame {
    /// Sequence number (kept verbatim on retransmission).
    pub seq: u32,
    /// Epoch sample index of the first sample (kept verbatim too).
    pub sample_index: u32,
    /// Encoded payload.
    pub payload: Seq<u8>,
    /// When it was first sent (µs).
    pub at_us: u64,
}

impl View for RetransmitEntry {
    type V = SentFrame;

    closed spec fn view(&self) -> SentFrame {
        SentFrame { seq: self.seq, sample_index: self.sample_index, payload: self.payload@, at_us: self.at_us }
    }
}

/// Number of leading frames that fell out of the window at `now`.
pub open spec fn leading_expired(frames: Seq<SentFrame>, now: u64, window: u64) -> nat
    decreases frames.len(),
{
    if frames.len() == 0 || elapsed(now, frames[0].at_us) < window {
        0
    } else {
        1 + leading_expired(frames.drop_first(), now, window)
    }
}

/// `frames` after dropping the frames that fell out of the window (oldest first).
pub open spec fn expired_away(frames: Seq<SentFrame>, now: u64, window: u64) -> Seq<SentFrame> {
    frames.skip(leading_expired(frames, now, window) as int)
}

/// Whether a frame with `seq` is kept.
pub open spec fn keeps(frames: Seq<SentFrame>, seq: u32) -> bool {
    exists|i: int| 0 <= i < frames.len() && frames[i].seq == seq
}

/// Frames kept after recording `frame`: the expired ones leave first; a second copy of a
/// kept sequence number is not stored; otherwise the oldest frames make room and `frame` is
/// appended.
pub open spec fn recorded(frames: Seq<SentFrame>, window: u64, frame: SentFrame) -> Seq<SentFrame> {
    let e = expired_away(frames, frame.at_us, window);
    if keeps(e, frame.seq) {
        e
    } else {
        let k = if e.len() >= NACK_RETRANSMIT_CAPACITY { e.len() - NACK_RETRANSMIT_CAPACITY + 1 } else { 0 };
        e.skip(k).push(frame)
    }
}

/// Sender side buffer of recently sent frames.
#[derive(Debug)]
pub struct RetransmitBuffer {
    window_us: u64,
    frames: Vec<RetransmitEntry>,
}

/// Abstract state of the retransmission buffer.
pub struct RetransmitModel {
    /// How long a frame is kept (µs).
    pub window_us: u64,
    /// Kept frames, oldest first.
    pub frames: Seq<SentFrame>,
}

impl View for RetransmitBuffer {
    type V = RetransmitModel;

    closed spec fn view(&self) -> RetransmitModel {
        RetransmitModel { window_us: self.window_us, frames: self.frames@.map_values(|e: RetransmitEntry| e@) }
    }
}

/// Copy of a byte slice.
fn copy_bytes(src: &[u8]) -> (r: Vec<u8>)
    ensures
        r@ == src@,
{
    let mut out: Vec<u8> = Vec::new();
    let mut i: usize = 0;
    while i < src.len()
        invariant
            0 <= i <= src@.len(),
            out@ == src@.take(i as int),
        decreases src@.len() - i,
    {
        out.push(src[i]);
        proof {
            assert(src@.take(i + 1) =~= src@.take(i as int).push(src@[i as int]));
        }
        i = i + 1;
    }
    proof {
        assert(src@.take(src@.len() as int) =~= src@);
    }
    out
}

impl RetransmitBuffer {
    /// Well-formedness: no sequence number kept twice, bounded size.
    pub closed spec fn wf(&self) -> bool {
        &&& forall|a: int, b: int|
            0 <= a < b < self.frames@.len() ==> self.frames@[a].seq != self.frames@[b].seq
        &&& self.frames@.len() <= NACK_RETRANSMIT_CAPACITY
    }

    /// A buffer with the default window (`NACK_WINDOW_US`).
    pub fn new() -> (r: Self)
        ensures
            r.wf(),
            r@.window_us == NACK_WINDOW_US,
            r@.frames.len() == 0,
    {
        RetransmitBuffer::with_window(NACK_WINDOW_US)
    }

    /// A buffer with the given window (µs).
    pub fn with_window(window_us: u64) -> (r: Self)
        ensures
            r.wf(),
            r@.window_us == window_us,
            r@.frames.len() == 0,
    {
        proof {
            assert(Seq::<RetransmitEntry>::empty().map_values(|e: RetransmitEntry| e@) =~= Seq::<SentFrame>::empty());
        }
        RetransmitBuffer { window_us, frames: Vec::new() }
    }

    /// Drop the frames that fell out of the window (kept in send order, oldest first).
    pub fn expire(&mut self, now_us: u64)
        requires
            old(self).wf(),
        ensures
            final(self).wf(),
            final(self)@.window_us == old(self)@.window_us,
            final(self)@.frames == expired_away(old(self)@.frames, now_us, old(self)@.window_us),
    {
        let ghost start = self@.frames;
        let ghost removed: int = 0;
        while self.frames.len() > 0 && now_us.saturating_sub(self.frames[0].at_us) >= self.window_us
            invariant
                self.wf(),
                self@.window_us == old(self)@.window_us,
                0 <= removed <= start.len(),
                self@.frames == start.skip(removed),
                removed + leading_expired(self@.frames, now_us, self@.window_us) == leading_expired(
                    start,
                    now_us,
                    self@.window_us,
                ),
            decreases self.frames@.len(),
        {
            let ghost before = self@.frames;
            let _dropped = self.frames.remove(0);
            proof {
                assert(self@.frames =~= before.drop_first());
                assert(before.drop_first() =~= start.skip(removed + 1));
                removed = removed + 1;
            }
        }
        proof {
            assert(leading_expired(self@.frames, now_us, self@.window_us) == 0);
        }
    }

    /// Remember a frame that was just sent. A second copy of the same sequence number
    /// (redundant send) keeps the first one; the oldest frames give way at capacity.
    pub fn record(&mut self, seq: u32, sample_index: u32, payload: &[u8], at_us: u64)
        requires
            old(self).wf(),
        ensures
            final(self).wf(),
            final(self)@.window_us == old(self)@.window_us,
            final(self)@.frames == recorded(
                old(self)@.frames,
                old(self)@.window_us,
                SentFrame { seq, sample_index, payload: payload@, at_us },
            ),
    {
        self.expire(at_us);
        let mut i: usize = 0;
        while i < self.frames.len()
            invariant
                self.wf(),
                self@.window_us == old(self)@.window_us,
                self@.frames == expired_away(old(self)@.frames, at_us, old(self)@.window_us),
                0 <= i <= self@.frames.len(),
                forall|k: int| 0 <= k < i ==> self@.frames[k].seq != seq,
            decreases self@.frames.len() - i,
        {
            if self.frames[i].seq == seq {
                proof {
                    assert(self@.frames[i as int].seq == seq);
                }
                return;
            }
            i = i + 1;
        }
        let ghost e = self@.frames;
        if self.frames.len() >= NACK_RETRANSMIT_CAPACITY {
            let _dropped = self.frames.remove(0);
            proof {
                assert(self@.frames =~= e.skip(1));
            }
        }
        let entry = RetransmitEntry { seq, sample_index, payload: copy_bytes(payload), at_us };
        let ghost before = self@.frames;
        self.frames.push(entry);
        proof {
            assert(self@.frames =~= before.push(SentFrame { seq, sample_index, payload: payload@, at_us }));
            assert forall|a: int, b: int| 0 <= a < b < self.frames@.len() implies self.frames@[a].seq != self.frames@[b].seq by {
                assert(self@.frames[a].seq == self.frames@[a].seq);
                assert(self@.frames[b].seq == self.frames@[b].seq);
                if b == self.frames@.len() - 1 {
                    if e.len() >= NACK_RETRANSMIT_CAPACITY {
                        assert(before[a] == e[a + 1]);
                    } else {
                        assert(before[a] == e[a]);
                    }
                }
            }
        }
    }

    /// `(sample_index, payload)` of the kept frame with `seq`; `None` when it was never
    /// sent or fell out of the window.
    pub fn find(&self, seq: u32) -> (r: Option<(u32, &[u8])>)
        requires
            self.wf(),
        ensures
            match r {
                None => !keeps(self@.frames, seq),
                Some((sample_index, payload)) => exists|i: int|
                    0 <= i < self@.frames.len() && self@.frames[i].seq == seq
                        && self@.frames[i].sample_index == sample_index && self@.frames[i].payload
                        == payload@,
            },
    {
        let mut i: usize = 0;
        while i < self.frames.len()
            invariant
                0 <= i <= self@.frames.len(),
                forall|k: int| 0 <= k < i ==> self@.frames[k].seq != seq,
            decreases self@.frames.len() - i,
        {
            if self.frames[i].seq == seq {
                proof {
                    assert(self@.frames[i as int] == self.frames@[i as int]@);
                }
                return Some((self.frames[i].sample_index, self.frames[i].payload.as_slice()));
            }
            i = i + 1;
        }
        None
    }

    /// Forget every kept frame.
    pub fn clear(&mut self)
        ensures
            final(self).wf(),
            final(self)@.window_us == old(self)@.window_us,
            final(self)@.frames.len() == 0,
    {
        self.frames.clear();
    }

    /// Number of kept frames.
    pub fn len(&self) -> (r: usize)
        ensures
            r == self@.frames.len(),
    {
        self.frames.len()
    }

    /// Whether no frame is kept.
    pub fn is_empty(&self) -> (r: bool)
        ensures
            r == (self@.frames.len() == 0),
    {
        self.frames.len() == 0
    }
}

/// `seq` is the sequence number of an entry eligible at `now`.
pub open spec fn eligible_seq(entries: Seq<Missing>, now: u64, seq: u32) -> bool {
    exists|j: int| 0 <= j < entries.len() && entries[j].seq == seq && eligible(entries[j], now)
}

/// `batch` is the NACK batch for `entries` at `now`: eligible holes only, oldest first
/// (strictly decreasing distance behind `expected`), at most `NACK_BATCH_MAX`, and every
/// eligible hole left out is younger than all of the batch, which is then full.
pub open spec fn batch_of(entries: Seq<Missing>, now: u64, expected: u32, batch: Seq<u32>) -> bool {
    &&& batch.len() <= NACK_BATCH_MAX
    &&& forall|k: int| 0 <= k < batch.len() ==> eligible_seq(entries, now, #[trigger] batch[k])
    &&& forall|a: int, b: int|
        0 <= a < b < batch.len() ==> seq_dist(expected, batch[a]) > seq_dist(expected, batch[b])
    &&& forall|q: int|
        0 <= q < entries.len() && eligible(entries[q], now) && !batch.contains(#[trigger] entries[q].seq)
            ==> batch.len() == NACK_BATCH_MAX && seq_dist(expected, entries[q].seq) < seq_dist(
            expected,
            batch[NACK_BATCH_MAX - 1],
        )
}

/// An entry after a batch was sent: requested ones count one more attempt and wait one interval.
pub open spec fn bump_if_sent(m: Missing, batch: Seq<u32>, now: u64) -> Missing {
    if batch.contains(m.seq) {
        Missing {
            seq: m.seq,
            attempts: if m.attempts < 255 { (m.attempts + 1) as u8 } else { 255u8 },
            first_seen_us: m.first_seen_us,
            next_at_us: (now + NACK_RETRY_INTERVAL_US) as u64,
        }
    } else {
        m
    }
}

/// Distances behind the same point identify the sequence number.
pub proof fn lemma_seq_dist_injective(e: u32, x: u32, y: u32)
    requires
        seq_dist(e, x) == seq_dist(e, y),
    ensures
        x == y,
{
}

/// Membership of `x` in `v`.
pub fn contains_u32(v: &Vec<u32>, x: u32) -> (b: bool)
    ensures
        b == v@.contains(x),
{
    let mut i: usize = 0;
    while i < v.len()
        invariant
            0 <= i <= v@.len(),
            forall|k: int| 0 <= k < i ==> v@[k] != x,
        decreases v@.len() - i,
    {
        if v[i] == x {
            proof {
                assert(v@[i as int] == x);
            }
            return true;
        }
        i = i + 1;
    }
    false
}

/// Filtering keeps sequence numbers distinct.
pub proof fn lemma_filter_distinct(e: Seq<Missing>, pred: spec_fn(Missing) -> bool)
    requires
        distinct_seqs(e),
    ensures
        distinct_seqs(e.filter(pred)),
        forall|k: int| 0 <= k < e.filter(pred).len() ==> #[trigger] e.contains(e.filter(pred)[k]),
    decreases e.len(),
{
    reveal_with_fuel(Seq::<_>::filter, 1);
    if e.len() > 0 {
        let d = e.drop_last();
        assert(distinct_seqs(d));
        lemma_filter_distinct(d, pred);
        let f = d.filter(pred);
        assert forall|k: int| 0 <= k < f.len() implies #[trigger] e.contains(f[k]) by {
            assert(d.contains(f[k]));
            let w = choose|w: int| 0 <= w < d.len() && d[w] == f[k];
            assert(e[w] == f[k]);
        }
        if pred(e.last()) {
            let g = f.push(e.last());
            assert forall|a: int, b: int| 0 <= a < b < g.len() implies g[a].seq != g[b].seq by {
                if b == g.len() - 1 {
                    assert(d.contains(f[a]));
                    let w = choose|w: int| 0 <= w < d.len() && d[w] == f[a];
                    assert(e[w] == f[a]);
                    assert(e[e.len() - 1] == e.last());
                }
            }
            assert forall|k: int| 0 <= k < g.len() implies #[trigger] e.contains(g[k]) by {
                if k == g.len() - 1 {
                    assert(e[e.len() - 1] == g[k]);
                } else {
                    assert(e.contains(f[k]));
                }
            }
        }
    }
}

/// One more step of `track_run` is `track_run` of one hole on top of the previous result.
pub proof fn lemma_track_run_step(entries: Seq<Missing>, overflow: int, start: u32, n: nat, now: u64)
    requires
        n >= 1,
    ensures
        ({
            let (e, o, a) = track_run(entries, overflow, start, (n - 1) as nat, now);
            let (e1, o1, a1) = track_run(e, o, seq_add(start, n - 1), 1, now);
            track_run(entries, overflow, start, n, now) == (e1, o1, a + a1)
        }),
{
    let (e, o, a) = track_run(entries, overflow, start, (n - 1) as nat, now);
    let s = seq_add(start, n - 1);
    assert(seq_add(s, 0) == s);
    assert(track_run(e, o, s, 0, now) == (e, o, 0int));
}

/// The tracker never follows more than `NACK_MAX_TRACKED` holes, never the same one twice,
/// and never asks for one more than `NACK_MAX_RETRIES` times.
pub proof fn law_tracker_is_bounded(tracker: &MissingTracker)
    requires
        tracker.wf(),
    ensures
        tracker@.entries.len() <= NACK_MAX_TRACKED,
        distinct_seqs(tracker@.entries),
        forall|i: int|
            0 <= i < tracker@.entries.len() ==> #[trigger] tracker@.entries[i].attempts
                <= NACK_MAX_RETRIES,
{
}

/// A hole is requested again only after the retry interval: right after a batch that
/// carried it, it is not eligible until `NACK_RETRY_INTERVAL_US` has passed; once its
/// retries are used up, or its window is over, it is never eligible again.
pub proof fn law_requests_are_spaced_and_bounded(m: Missing, batch: Seq<u32>, now: u64, later: u64)
    requires
        now <= u64::MAX - NACK_RETRY_INTERVAL_US,
    ensures
        batch.contains(m.seq) && later < now + NACK_RETRY_INTERVAL_US ==> !eligible(
            bump_if_sent(m, batch, now),
            later,
        ),
        m.attempts >= NACK_MAX_RETRIES ==> !eligible(m, later),
        !in_window(m, later) ==> !eligible(m, later),
{
}

/// After `expire(now)` every remaining hole is still inside its window.
pub proof fn law_expire_keeps_only_the_window(entries: Seq<Missing>, now: u64)
    ensures
        forall|i: int|
            0 <= i < kept_in_window(entries, now).len() ==> in_window(
                #[trigger] kept_in_window(entries, now)[i],
                now,
            ),
{
    broadcast use vstd::seq_lib::group_filter_ensures;

}

/// The expired prefix is part of the frames.
proof fn lemma_leading_expired_bound(frames: Seq<SentFrame>, now: u64, window: u64)
    ensures
        leading_expired(frames, now, window) <= frames.len(),
    decreases frames.len(),
{
    if frames.len() > 0 && elapsed(now, frames[0].at_us) >= window {
        lemma_leading_expired_bound(frames.drop_first(), now, window);
    }
}

/// What `find` gives back of `record`: right after recording a frame its sequence number is
/// kept, and when no copy was kept before, the one kept is exactly the recorded frame; a
/// second copy of a kept number leaves the first one in place.
pub proof fn law_recorded_frame_is_found(frames: Seq<SentFrame>, window: u64, frame: SentFrame)
    requires
        forall|a: int, b: int| 0 <= a < b < frames.len() ==> frames[a].seq != frames[b].seq,
    ensures
        keeps(recorded(frames, window, frame), frame.seq),
        !keeps(expired_away(frames, frame.at_us, window), frame.seq) ==> forall|i: int|
            0 <= i < recorded(frames, window, frame).len() && #[trigger] recorded(
                frames,
                window,
                frame,
            )[i].seq == frame.seq ==> recorded(frames, window, frame)[i] == frame,
        keeps(expired_away(frames, frame.at_us, window), frame.seq) ==> recorded(frames, window, frame)
            == expired_away(frames, frame.at_us, window),
{
    let e = expired_away(frames, frame.at_us, window);
    lemma_leading_expired_bound(frames, frame.at_us, window);
    if !keeps(e, frame.seq) {
        let k = if e.len() >= NACK_RETRANSMIT_CAPACITY { e.len() - NACK_RETRANSMIT_CAPACITY + 1 } else { 0 };
        let f = e.skip(k).push(frame);
        assert(f[f.len() - 1] == frame);
        assert forall|i: int| 0 <= i < f.len() && #[trigger] f[i].seq == frame.seq implies f[i] == frame by {
            if i < f.len() - 1 {
                assert(e[i + k].seq == frame.seq);
            }
        }
    }
}

/// The retransmission buffer keeps at most `NACK_RETRANSMIT_CAPACITY` frames, one per
/// sequence number.
pub proof fn law_retransmit_buffer_is_bounded(buffer: &RetransmitBuffer)
    requires
        buffer.wf(),
    ensures
        buffer@.frames.len() <= NACK_RETRANSMIT_CAPACITY,
        forall|a: int, b: int|
            0 <= a < b < buffer@.frames.len() ==> buffer@.frames[a].seq != buffer@.frames[b].seq,
{
}

/// One tracked hole after a series of batches `(time, batch)` were sent.
pub open spec fn hole_after(m: Missing, calls: Seq<(u64, Seq<u32>)>) -> Missing
    decreases calls.len(),
{
    if calls.len() == 0 {
        m
    } else {
        bump_if_sent(hole_after(m, calls.drop_last()), calls.last().1, calls.last().0)
    }
}

/// How many of the batches carried `seq`.
pub open spec fn requests_of(seq: u32, calls: Seq<(u64, Seq<u32>)>) -> nat
    decreases calls.len(),
{
    if calls.len() == 0 {
        0
    } else {
        requests_of(seq, calls.drop_last()) + if calls.last().1.contains(seq) { 1nat } else { 0nat }
    }
}

/// The batches were sent at non-decreasing times, and each one that carried the hole
/// carried it while it was eligible (as `due_batch` guarantees through `batch_of`).
pub open spec fn sent_while_eligible(m: Missing, calls: Seq<(u64, Seq<u32>)>) -> bool {
    &&& forall|a: int, b: int| 0 <= a < b < calls.len() ==> calls[a].0 <= calls[b].0
    &&& forall|k: int| 0 <= k < calls.len() ==> calls[k].0 <= u64::MAX - NACK_RETRY_INTERVAL_US
    &&& forall|k: int|
        0 <= k < calls.len() && (#[trigger] calls[k]).1.contains(m.seq) ==> eligible(
            hole_after(m, calls.take(k)),
            calls[k].0,
        )
}

proof fn lemma_hole_history(m: Missing, calls: Seq<(u64, Seq<u32>)>)
    requires
        m.attempts == 0,
        sent_while_eligible(m, calls),
    ensures
        hole_after(m, calls).seq == m.seq,
        hole_after(m, calls).first_seen_us == m.first_seen_us,
        hole_after(m, calls).attempts == requests_of(m.seq, calls),
        requests_of(m.seq, calls) <= NACK_MAX_RETRIES,
        requests_of(m.seq, calls) > 0 ==> exists|k: int|
            0 <= k < calls.len() && (#[trigger] calls[k]).1.contains(m.seq) && hole_after(m, calls).next_at_us
                == calls[k].0 + NACK_RETRY_INTERVAL_US && forall|j: int|
                k < j < calls.len() ==> !(#[trigger] calls[j]).1.contains(m.seq),
        requests_of(m.seq, calls) == 0 ==> forall|j: int|
            0 <= j < calls.len() ==> !(#[trigger] calls[j]).1.contains(m.seq),
    decreases calls.len(),
{
    if calls.len() > 0 {
        let pre = calls.drop_last();
        let n = calls.len() - 1;
        assert(calls.take(n) =~= pre);
        assert(sent_while_eligible(m, pre)) by {
            assert forall|k: int| 0 <= k < pre.len() && (#[trigger] pre[k]).1.contains(m.seq) implies eligible(
                hole_after(m, pre.take(k)),
                pre[k].0,
            ) by {
                assert(pre.take(k) =~= calls.take(k));
                assert(calls[k] == pre[k]);
            }
        }
        lemma_hole_history(m, pre);
        if calls.last().1.contains(m.seq) {
            assert(calls[n] == calls.last());
            assert(eligible(hole_after(m, pre), calls[n].0));
        } else {
            if requests_of(m.seq, pre) > 0 {
                let k = choose|k: int|
                    0 <= k < pre.len() && (#[trigger] pre[k]).1.contains(m.seq) && hole_after(m, pre).next_at_us
                        == pre[k].0 + NACK_RETRY_INTERVAL_US && forall|j: int|
                        k < j < pre.len() ==> !(#[trigger] pre[j]).1.contains(m.seq);
                assert(calls[k] == pre[k]);
                assert forall|j: int| k < j < calls.len() implies !(#[trigger] calls[j]).1.contains(m.seq) by {
                    if j < n {
                        assert(calls[j] == pre[j]);
                    }
                }
            } else {
                assert forall|j: int| 0 <= j < calls.len() implies !(#[trigger] calls[j]).1.contains(m.seq) by {
                    if j < n {
                        assert(calls[j] == pre[j]);
                    }
                }
            }
        }
    }
}

/// Over any series of batches sent at non-decreasing times, a tracked hole (starting with
/// no request) is requested at most `NACK_MAX_RETRIES` times, two requests of it are at
/// least `NACK_RETRY_INTERVAL_US` apart, and every request falls within `NACK_WINDOW_US`
/// of when the hole was first seen.
pub proof fn law_hole_requests_over_time(m: Missing, calls: Seq<(u64, Seq<u32>)>)
    requires
        m.attempts == 0,
        sent_while_eligible(m, calls),
    ensures
        requests_of(m.seq, calls) <= NACK_MAX_RETRIES,
        forall|a: int, b: int|
            0 <= a < b < calls.len() && (#[trigger] calls[a]).1.contains(m.seq) && (#[trigger] calls[b]).1.contains(
                m.seq,
            ) ==> calls[a].0 + NACK_RETRY_INTERVAL_US <= calls[b].0,
        forall|k: int|
            0 <= k < calls.len() && (#[trigger] calls[k]).1.contains(m.seq) ==> elapsed(calls[k].0, m.first_seen_us)
                < NACK_WINDOW_US,
{
    lemma_hole_history(m, calls);
    assert forall|k: int|
        0 <= k < calls.len() && (#[trigger] calls[k]).1.contains(m.seq) implies elapsed(
        calls[k].0,
        m.first_seen_us,
    ) < NACK_WINDOW_US by {
        assert(sent_while_eligible(m, calls.take(k))) by {
            assert forall|j: int| 0 <= j < calls.take(k).len() && (#[trigger] calls.take(k)[j]).1.contains(m.seq) implies eligible(
                hole_after(m, calls.take(k).take(j)),
                calls.take(k)[j].0,
            ) by {
                assert(calls.take(k).take(j) =~= calls.take(j));
            }
        }
        lemma_hole_history(m, calls.take(k));
    }
    assert forall|a: int, b: int|
        0 <= a < b < calls.len() && (#[trigger] calls[a]).1.contains(m.seq) && (#[trigger] calls[b]).1.contains(
            m.seq,
        ) implies calls[a].0 + NACK_RETRY_INTERVAL_US <= calls[b].0 by {
        let pre = calls.take(b);
        assert(sent_while_eligible(m, pre)) by {
            assert forall|j: int| 0 <= j < pre.len() && (#[trigger] pre[j]).1.contains(m.seq) implies eligible(
                hole_after(m, pre.take(j)),
                pre[j].0,
            ) by {
                assert(pre.take(j) =~= calls.take(j));
            }
        }
        lemma_hole_history(m, pre);
        assert(pre[a] == calls[a]);
        assert(requests_of(m.seq, pre) > 0);
        let k = choose|k: int|
            0 <= k < pre.len() && (#[trigger] pre[k]).1.contains(m.seq) && hole_after(m, pre).next_at_us
                == pre[k].0 + NACK_RETRY_INTERVAL_US && forall|j: int|
                k < j < pre.len() ==> !(#[trigger] pre[j]).1.contains(m.seq);
        assert(k >= a);
        assert(calls[k] == pre[k]);
    }
}

/// What one `due_batch` call hands to the history law above: a batch holds at most
/// `NACK_BATCH_MAX` numbers, none twice, and a tracked hole it carries was eligible at
/// that time.
pub proof fn law_batch_carries_eligible_holes(
    entries: Seq<Missing>,
    now: u64,
    expected: u32,
    batch: Seq<u32>,
    j: int,
)
    requires
        distinct_seqs(entries),
        batch_of(entries, now, expected, batch),
        0 <= j < entries.len(),
    ensures
        batch.len() <= NACK_BATCH_MAX,
        batch.no_duplicates(),
        batch.contains(entries[j].seq) ==> eligible(entries[j], now),
{
    if batch.contains(entries[j].seq) {
        let k = choose|k: int| 0 <= k < batch.len() && batch[k] == entries[j].seq;
        assert(eligible_seq(entries, now, batch[k]));
        let w = choose|w: int| 0 <= w < entries.len() && entries[w].seq == batch[k] && eligible(entries[w], now);
        assert(w == j);
    }
    assert forall|a: int, b: int| 0 <= a < batch.len() && 0 <= b < batch.len() && a != b implies batch[a] != batch[b] by {
        if a < b {
            assert(seq_dist(expected, batch[a]) > seq_dist(expected, batch[b]));
        } else {
            assert(seq_dist(expected, batch[b]) > seq_dist(expected, batch[a]));
        }
    }
}

/// One call on the tracker: an arrival, an expiry, or a batch `due_batch` returned.
pub enum TrackerOp {
    Observe(u32, u64),
    Expire(u64),
    Batch(u64, Seq<u32>),
}

/// The tracker after one call, as `observe`, `expire` and `due_batch` state it.
pub open spec fn tracker_step(t: TrackerModel, op: TrackerOp) -> TrackerModel {
    match op {
        TrackerOp::Observe(seq, now) => observe_result(t, seq, now).0,
        TrackerOp::Expire(now) => TrackerModel { entries: kept_in_window(t.entries, now), ..t },
        TrackerOp::Batch(now, batch) => TrackerModel {
            entries: t.entries.map_values(|m: Missing| bump_if_sent(m, batch, now)),
            ..t
        },
    }
}

/// The tracker after a series of calls.
pub open spec fn tracker_run(t: TrackerModel, ops: Seq<TrackerOp>) -> TrackerModel
    decreases ops.len(),
{
    if ops.len() == 0 {
        t
    } else {
        tracker_step(tracker_run(t, ops.drop_last()), ops.last())
    }
}

/// The batches of a series of calls, with their times, in order.
pub open spec fn batches_of(ops: Seq<TrackerOp>) -> Seq<(u64, Seq<u32>)>
    decreases ops.len(),
{
    if ops.len() == 0 {
        Seq::empty()
    } else {
        match ops.last() {
            TrackerOp::Batch(now, batch) => batches_of(ops.drop_last()).push((now, batch)),
            _ => batches_of(ops.drop_last()),
        }
    }
}

/// Each batch is what `due_batch` returns on the state it is taken from, the batches come
/// at non-decreasing times within the range `due_batch` accepts.
pub open spec fn batches_valid(t: TrackerModel, ops: Seq<TrackerOp>) -> bool {
    &&& forall|k: int| 0 <= k < ops.len() ==> (#[trigger] ops[k] matches TrackerOp::Batch(now, batch) ==> {
        let tk = tracker_run(t, ops.take(k));
        match tk.expected {
            None => batch.len() == 0,
            Some(e) => batch_of(tk.entries, now, e, batch),
        }
    })
    &&& forall|a: int, b: int| 0 <= a < b < batches_of(ops).len() ==> batches_of(ops)[a].0 <= batches_of(ops)[b].0
    &&& forall|k: int| 0 <= k < batches_of(ops).len() ==> #[trigger] batches_of(ops)[k].0 <= u64::MAX
        - NACK_RETRY_INTERVAL_US
}

/// `m` is the entry of its hole in `entries`.
pub open spec fn holds(entries: Seq<Missing>, m: Missing) -> bool {
    entries.contains(m)
}

proof fn lemma_track_run_keeps(entries: Seq<Missing>, overflow: int, start: u32, n: nat, now: u64)
    requires
        distinct_seqs(entries),
    ensures
        distinct_seqs(track_run(entries, overflow, start, n, now).0),
        forall|x: Missing| entries.contains(x) ==> #[trigger] track_run(entries, overflow, start, n, now).0.contains(x),
        forall|x: Missing| #[trigger] track_run(entries, overflow, start, n, now).0.contains(x) ==> entries.contains(x)
            || x.attempts == 0,
    decreases n,
{
    if n > 0 {
        lemma_track_run_keeps(entries, overflow, start, (n - 1) as nat, now);
        let (e, o, a) = track_run(entries, overflow, start, (n - 1) as nat, now);
        let s = seq_add(start, n - 1);
        if !tracks(e, s) && e.len() < NACK_MAX_TRACKED {
            let e2 = e.push(fresh(s, now));
            assert forall|i: int, j: int| 0 <= i < j < e2.len() implies e2[i].seq != e2[j].seq by {
                if j == e.len() {
                    assert(e2[i] == e[i]);
                }
            }
            assert forall|x: Missing| entries.contains(x) implies #[trigger] e2.contains(x) by {
                assert(e.contains(x));
                let i = choose|i: int| 0 <= i < e.len() && e[i] == x;
                assert(e2[i] == x);
            }
            assert forall|x: Missing| #[trigger] e2.contains(x) implies entries.contains(x) || x.attempts == 0 by {
                let i = choose|i: int| 0 <= i < e2.len() && e2[i] == x;
                if i < e.len() {
                    assert(e[i] == x);
                    assert(e.contains(x));
                } else {
                    assert(x == fresh(s, now));
                }
            }
        }
    }
}

/// In a list without repeated holes, two entries of the same hole are the same entry.
proof fn lemma_unique_entry(entries: Seq<Missing>, x: Missing, y: Missing)
    requires
        distinct_seqs(entries),
        entries.contains(x),
        entries.contains(y),
        x.seq == y.seq,
    ensures
        x == y,
{
    let i = choose|i: int| 0 <= i < entries.len() && entries[i] == x;
    let j = choose|j: int| 0 <= j < entries.len() && entries[j] == y;
    if i < j {
        assert(entries[i].seq != entries[j].seq);
    } else if j < i {
        assert(entries[j].seq != entries[i].seq);
    }
}

proof fn lemma_tracker_run_hole(t: TrackerModel, ops: Seq<TrackerOp>, m: Missing)
    requires
        distinct_seqs(t.entries),
        holds(t.entries, m),
        batches_valid(t, ops),
        forall|k: int| 0 <= k <= ops.len() ==> tracks(#[trigger] tracker_run(t, ops.take(k)).entries, m.seq),
    ensures
        distinct_seqs(tracker_run(t, ops).entries),
        holds(tracker_run(t, ops).entries, hole_after(m, batches_of(ops))),
        forall|k: int|
            0 <= k < batches_of(ops).len() && (#[trigger] batches_of(ops)[k]).1.contains(m.seq) ==> eligible(
                hole_after(m, batches_of(ops).take(k)),
                batches_of(ops)[k].0,
            ),
    decreases ops.len(),
{
    broadcast use vstd::seq_lib::group_filter_ensures;

    if ops.len() > 0 {
        let pre = ops.drop_last();
        let n = ops.len() - 1;
        assert(ops.take(n) =~= pre);
        assert forall|k: int| 0 <= k <= pre.len() implies tracks(#[trigger] tracker_run(t, pre.take(k)).entries, m.seq) by {
            assert(pre.take(k) =~= ops.take(k));
        }
        assert(batches_valid(t, pre)) by {
            assert forall|k: int| 0 <= k < pre.len() implies (#[trigger] pre[k] matches TrackerOp::Batch(now, batch) ==> {
                let tk = tracker_run(t, pre.take(k));
                match tk.expected {
                    None => batch.len() == 0,
                    Some(e) => batch_of(tk.entries, now, e, batch),
                }
            }) by {
                assert(pre.take(k) =~= ops.take(k));
                assert(pre[k] == ops[k]);
            }
            let bp = batches_of(pre);
            let bo = batches_of(ops);
            assert forall|k: int| 0 <= k < bp.len() implies bp[k] == bo[k] by {
                match ops.last() {
                    TrackerOp::Batch(now, batch) => {
                        assert(bo == bp.push((now, batch)));
                    },
                    _ => {},
                }
            }
        }
        lemma_tracker_run_hole(t, pre, m);
        let tp = tracker_run(t, pre);
        let cp = batches_of(pre);
        let x = hole_after(m, cp);
        assert(ops.take(ops.len() as int) =~= ops);
        let tn = tracker_run(t, ops);
        assert(tracks(tn.entries, m.seq));
        assert(x.seq == m.seq) by {
            lemma_hole_after_seq(m, cp);
        }
        match ops.last() {
            TrackerOp::Observe(seq, now) => {
                assert(batches_of(ops) == cp);
                match tp.expected {
                    None => {},
                    Some(e) => {
                        let d = seq_dist(seq, e);
                        let pred = |q: Missing| q.seq != seq;
                        let rest = tp.entries.filter(pred);
                        lemma_filter_distinct(tp.entries, pred);
                        if d >= NACK_RESYNC_GAP && d < 0x8000_0000 {
                            assert(tn.entries.len() == 0);
                        } else {
                            if seq == m.seq {
                                // The arrival fills the hole: it is no longer tracked.
                                if d >= 0x8000_0000 || d == 0 {
                                    assert(!tracks(tn.entries, m.seq)) by {
                                        if tracks(tn.entries, m.seq) {
                                            let i = choose|i: int| 0 <= i < tn.entries.len() && tn.entries[i].seq == m.seq;
                                            assert(rest.contains(tn.entries[i]));
                                        }
                                    }
                                } else {
                                    assert(tn.entries == track_run(rest, tp.overflow, e, d as nat, now).0);
                                    assert(false) by {
                                        lemma_track_run_avoids(rest, tp.overflow, e, d as nat, now, seq);
                                    }
                                }
                            }
                            assert(rest.contains(x));
                            if !(d >= 0x8000_0000 || d == 0) {
                                lemma_track_run_keeps(rest, tp.overflow, e, d as nat, now);
                            }
                        }
                    },
                }
            },
            TrackerOp::Expire(now) => {
                assert(batches_of(ops) == cp);
                let pred = |q: Missing| in_window(q, now);
                lemma_filter_distinct(tp.entries, pred);
                let i = choose|i: int| 0 <= i < tn.entries.len() && tn.entries[i].seq == m.seq;
                let y = tn.entries[i];
                assert(tp.entries.contains(y));
                lemma_unique_entry(tp.entries, x, y);
            },
            TrackerOp::Batch(now, batch) => {
                let bo = batches_of(ops);
                assert(bo == cp.push((now, batch)));
                assert(bo.take(cp.len() as int) =~= cp);
                let i = choose|i: int| 0 <= i < tp.entries.len() && tp.entries[i] == x;
                assert(tn.entries[i] == bump_if_sent(x, batch, now));
                assert(hole_after(m, bo) == bump_if_sent(x, batch, now));
                assert(distinct_seqs(tn.entries)) by {
                    assert forall|a: int, b: int| 0 <= a < b < tn.entries.len() implies tn.entries[a].seq
                        != tn.entries[b].seq by {
                        assert(tn.entries[a].seq == tp.entries[a].seq);
                        assert(tn.entries[b].seq == tp.entries[b].seq);
                    }
                }
                assert(ops[n] == ops.last());
                assert(ops.take(n) =~= pre);
                if batch.contains(m.seq) {
                    match tp.expected {
                        None => {},
                        Some(e) => {
                            law_batch_carries_eligible_holes(tp.entries, now, e, batch, i);
                        },
                    }
                }
                assert forall|k: int|
                    0 <= k < bo.len() && (#[trigger] bo[k]).1.contains(m.seq) implies eligible(
                    hole_after(m, bo.take(k)),
                    bo[k].0,
                ) by {
                    if k < cp.len() {
                        assert(bo[k] == cp[k]);
                        assert(bo.take(k) =~= cp.take(k));
                    }
                }
            },
        }
    }
}

proof fn lemma_hole_after_seq(m: Missing, calls: Seq<(u64, Seq<u32>)>)
    ensures
        hole_after(m, calls).seq == m.seq,
        hole_after(m, calls).first_seen_us == m.first_seen_us,
    decreases calls.len(),
{
    if calls.len() > 0 {
        lemma_hole_after_seq(m, calls.drop_last());
    }
}

/// Tracking the skipped numbers after `start` never tracks `start + n` itself, the number
/// that arrived.
proof fn lemma_track_run_avoids(entries: Seq<Missing>, overflow: int, start: u32, n: nat, now: u64, seq: u32)
    requires
        n < 0x8000_0000,
        seq == seq_add(start, n as int),
        !tracks(entries, seq),
    ensures
        !tracks(track_run(entries, overflow, start, n, now).0, seq),
    decreases n,
{
    lemma_track_run_avoids_upto(entries, overflow, start, n, now, n, seq);
}

proof fn lemma_dist_of_add(start: u32, k: int)
    requires
        0 <= k < 0x1_0000_0000,
    ensures
        seq_dist(seq_add(start, k), start) == k,
{
    if start + k < 0x1_0000_0000 {
        assert((start + k) % 0x1_0000_0000 == start + k) by (nonlinear_arith)
            requires 0 <= start + k < 0x1_0000_0000;
    } else {
        assert((start + k) % 0x1_0000_0000 == start + k - 0x1_0000_0000) by (nonlinear_arith)
            requires 0x1_0000_0000 <= start + k < 0x2_0000_0000;
    }
}

proof fn lemma_track_run_avoids_upto(
    entries: Seq<Missing>,
    overflow: int,
    start: u32,
    j: nat,
    now: u64,
    n: nat,
    seq: u32,
)
    requires
        j <= n < 0x8000_0000,
        seq == seq_add(start, n as int),
        !tracks(entries, seq),
    ensures
        !tracks(track_run(entries, overflow, start, j, now).0, seq),
    decreases j,
{
    if j > 0 {
        lemma_track_run_avoids_upto(entries, overflow, start, (j - 1) as nat, now, n, seq);
        let (e, o, a) = track_run(entries, overflow, start, (j - 1) as nat, now);
        let s2 = seq_add(start, j - 1);
        lemma_dist_of_add(start, j - 1);
        lemma_dist_of_add(start, n as int);
        assert(s2 != seq);
        if !tracks(e, s2) && e.len() < NACK_MAX_TRACKED {
            let e2 = e.push(fresh(s2, now));
            assert(!tracks(e2, seq)) by {
                if tracks(e2, seq) {
                    let i = choose|i: int| 0 <= i < e2.len() && e2[i].seq == seq;
                    if i < e.len() {
                        assert(e[i] == e2[i]);
                    }
                }
            }
        }
    }
}

/// Over any series of arrivals, expiries and batches (each batch as `due_batch` returned
/// it, at non-decreasing times) from the moment a hole is tracked with a fresh entry `m`
/// and while it stays tracked: the hole is requested at most `NACK_MAX_RETRIES` times, two
/// requests are at least `NACK_RETRY_INTERVAL_US` apart, and each request falls within
/// `NACK_WINDOW_US` of when the hole was first seen. (Each batch on its own holds at most
/// `NACK_BATCH_MAX` numbers, none twice, see [`law_tracker_batches_are_bounded`].)
pub proof fn law_tracker_requests_over_time(t: TrackerModel, ops: Seq<TrackerOp>, m: Missing)
    requires
        distinct_seqs(t.entries),
        holds(t.entries, m),
        m.attempts == 0,
        batches_valid(t, ops),
        forall|k: int| 0 <= k <= ops.len() ==> tracks(#[trigger] tracker_run(t, ops.take(k)).entries, m.seq),
    ensures
        requests_of(m.seq, batches_of(ops)) <= NACK_MAX_RETRIES,
        forall|a: int, b: int|
            0 <= a < b < batches_of(ops).len() && (#[trigger] batches_of(ops)[a]).1.contains(m.seq)
                && (#[trigger] batches_of(ops)[b]).1.contains(m.seq) ==> batches_of(ops)[a].0
                + NACK_RETRY_INTERVAL_US <= batches_of(ops)[b].0,
        forall|k: int|
            0 <= k < batches_of(ops).len() && (#[trigger] batches_of(ops)[k]).1.contains(m.seq) ==> elapsed(
                batches_of(ops)[k].0,
                m.first_seen_us,
            ) < NACK_WINDOW_US,
{
    lemma_tracker_run_hole(t, ops, m);
    law_hole_requests_over_time(m, batches_of(ops));
}

/// Through any series of calls the tracker keeps each hole in one entry.
proof fn lemma_tracker_run_distinct(t: TrackerModel, ops: Seq<TrackerOp>)
    requires
        distinct_seqs(t.entries),
    ensures
        distinct_seqs(tracker_run(t, ops).entries),
    decreases ops.len(),
{
    broadcast use vstd::seq_lib::group_filter_ensures;

    if ops.len() > 0 {
        let pre = ops.drop_last();
        lemma_tracker_run_distinct(t, pre);
        let tp = tracker_run(t, pre);
        let tn = tracker_run(t, ops);
        match ops.last() {
            TrackerOp::Observe(seq, now) => {
                match tp.expected {
                    None => {},
                    Some(e) => {
                        let d = seq_dist(seq, e);
                        let pred = |q: Missing| q.seq != seq;
                        let rest = tp.entries.filter(pred);
                        lemma_filter_distinct(tp.entries, pred);
                        if d < 0x8000_0000 && d != 0 && d < NACK_RESYNC_GAP {
                            lemma_track_run_keeps(rest, tp.overflow, e, d as nat, now);
                        }
                    },
                }
            },
            TrackerOp::Expire(now) => {
                lemma_filter_distinct(tp.entries, |q: Missing| in_window(q, now));
            },
            TrackerOp::Batch(now, batch) => {
                assert forall|a: int, b: int| 0 <= a < b < tn.entries.len() implies tn.entries[a].seq
                    != tn.entries[b].seq by {
                    assert(tn.entries[a].seq == tp.entries[a].seq);
                    assert(tn.entries[b].seq == tp.entries[b].seq);
                }
            },
        }
    }
}

/// Over any series of arrivals, expiries and batches, every batch (as `due_batch`
/// returned it on the tracker of that moment) holds at most `NACK_BATCH_MAX` numbers,
/// none twice, and only holes the tracker still keeps that are due at the batch's time:
/// first seen less than `NACK_WINDOW_US` before, requested fewer than
/// `NACK_MAX_RETRIES` times, and past their retry time.
pub proof fn law_tracker_batches_are_bounded(t: TrackerModel, ops: Seq<TrackerOp>)
    requires
        distinct_seqs(t.entries),
        batches_valid(t, ops),
    ensures
        forall|i: int| 0 <= i < ops.len() ==> (#[trigger] ops[i] matches TrackerOp::Batch(now, batch) ==> {
            let entries = tracker_run(t, ops.take(i)).entries;
            &&& batch.len() <= NACK_BATCH_MAX
            &&& batch.no_duplicates()
            &&& forall|s: u32| batch.contains(s) ==> exists|j: int|
                0 <= j < entries.len() && entries[j].seq == s && eligible(entries[j], now)
        }),
{
    assert forall|i: int| 0 <= i < ops.len() implies (#[trigger] ops[i] matches TrackerOp::Batch(now, batch) ==> {
        let entries = tracker_run(t, ops.take(i)).entries;
        &&& batch.len() <= NACK_BATCH_MAX
        &&& batch.no_duplicates()
        &&& forall|s: u32| batch.contains(s) ==> exists|j: int|
            0 <= j < entries.len() && entries[j].seq == s && eligible(entries[j], now)
    }) by {
        if let TrackerOp::Batch(now, batch) = ops[i] {
            let tk = tracker_run(t, ops.take(i));
            lemma_tracker_run_distinct(t, ops.take(i));
            match tk.expected {
                None => {
                    assert(batch.len() == 0);
                    assert(batch.no_duplicates());
                },
                Some(e) => {
                    assert(batch_of(tk.entries, now, e, batch));
                    if tk.entries.len() > 0 {
                        law_batch_carries_eligible_holes(tk.entries, now, e, batch, 0);
                    } else {
                        assert(batch.len() == 0) by {
                            if batch.len() > 0 {
                                assert(eligible_seq(tk.entries, now, batch[0]));
                            }
                        }
                    }
                    assert(batch.no_duplicates());
                    assert forall|s: u32| batch.contains(s) implies exists|j: int|
                        0 <= j < tk.entries.len() && tk.entries[j].seq == s && eligible(tk.entries[j], now) by {
                        let k = choose|k: int| 0 <= k < batch.len() && batch[k] == s;
                        assert(eligible_seq(tk.entries, now, batch[k]));
                    }
                },
            }
        }
    }
}

/// Whether requests may be sent at this RTT (µs): above the threshold a retransmission
/// would only stretch the latency spike.
pub fn nack_enabled(rtt_us: u64) -> (r: bool)
    ensures
        r == (rtt_us < NACK_MAX_RTT_US),
{
    rtt_us < NACK_MAX_RTT_US
}

/// Extra wait granted to holes of the reorder window (µs): two RTTs plus 5 ms, at most
/// the retransmission grace; none when no hole is pending or the playout queue holds
/// fewer than two frames (waiting would then be audible silence).
pub open spec fn grace_of(pending: nat, depth_frames: nat, rtt_us: u64) -> int {
    if pending > 0 && depth_frames >= 2 {
        let budget = 2 * rtt_us + 5_000;
        if budget < NACK_RETRANSMIT_GRACE_US { budget } else { NACK_RETRANSMIT_GRACE_US as int }
    } else {
        0
    }
}

/// Extra wait granted to holes of the reorder window (µs), see [`grace_of`].
pub fn retransmit_grace_us(pending: usize, depth_frames: usize, rtt_us: u64) -> (r: u64)
    ensures
        r == grace_of(pending as nat, depth_frames as nat, rtt_us),
        r <= NACK_RETRANSMIT_GRACE_US,
{
    if pending > 0 && depth_frames >= 2 {
        let doubled: u64 = if rtt_us > u64::MAX / 2 { u64::MAX } else { rtt_us * 2 };
        let budget: u64 = if doubled > u64::MAX - 5_000 { u64::MAX } else { doubled + 5_000 };
        if budget < NACK_RETRANSMIT_GRACE_US { budget } else { NACK_RETRANSMIT_GRACE_US }
    } else {
        0
    }
}

} // verus!
