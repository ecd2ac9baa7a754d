//! End-to-end measurement pairing: the sender records when frame `seq` was
//! sealed, the receiver when it was written to the sink; the two records are
//! paired by sequence number, in whichever order they arrive, and their
//! difference is one latency sample. Unpaired records wait in bounded queues.
//!
//! Collecting the samples into percentiles is left to the caller.
use vstd::prelude::*;

verus! {

/// Capacity of each queue of unpaired records (about 82 s of 20 ms frames).
pub const DEFAULT_CAPACITY: usize = 4_096;

/// Unpaired records `(seq, at_us)` of both sides.
#[derive(Debug)]
pub struct MeasurementTap {
    sealed: Vec<(u32, u64)>,
    played: Vec<(u32, u64)>,
    capacity: usize,
}

/// Abstract state of the tap.
pub struct TapModel {
    /// Sender-side records waiting for their playback, oldest first.
    pub sealed: Seq<(u32, u64)>,
    /// Receiver-side records waiting for their seal, oldest first.
    pub played: Seq<(u32, u64)>,
    /// Bound of each queue.
    pub capacity: nat,
}

impl View for MeasurementTap {
    type V = TapModel;

    closed spec fn view(&self) -> TapModel {
        TapModel { sealed: self.sealed@, played: self.played@, capacity: self.capacity as nat }
    }
}

/// Index of the first record of `seq` in `q`, if any.
pub open spec fn first_of(q: Seq<(u32, u64)>, seq: u32) -> Option<int>
    decreases q.len(),
{
    if q.len() == 0 {
        None
    } else if q[0].0 == seq {
        Some(0)
    } else {
        match first_of(q.drop_first(), seq) {
            Some(i) => Some(i + 1),
            None => None,
        }
    }
}

/// `q` with `(seq, at)` appended, after dropping the oldest records that would not fit
/// into `capacity` (at least one).
pub open spec fn pushed_bounded(q: Seq<(u32, u64)>, seq: u32, at: u64, capacity: nat) -> Seq<(u32, u64)> {
    let k = if q.len() >= capacity { q.len() - capacity + 1 } else { 0 };
    q.skip(k).push((seq, at))
}

/// Latency of a pair (µs): played minus sealed, 0 when the order is inverted, saturating
/// at `u32::MAX`.
pub open spec fn latency_of(sealed_at: u64, played_at: u64) -> u32 {
    if played_at <= sealed_at {
        0
    } else if played_at - sealed_at > u32::MAX {
        u32::MAX
    } else {
        (played_at - sealed_at) as u32
    }
}

/// Recording one side: pair with the first waiting record of the other side, or wait.
/// `(mine, theirs, sample)` after recording `(seq, at)` on the side whose queue is `mine`;
/// `sealed_side` tells which side that is.
pub open spec fn paired(
    mine: Seq<(u32, u64)>,
    theirs: Seq<(u32, u64)>,
    seq: u32,
    at: u64,
    capacity: nat,
    sealed_side: bool,
) -> (Seq<(u32, u64)>, Seq<(u32, u64)>, Option<u32>) {
    match first_of(theirs, seq) {
        None => (pushed_bounded(mine, seq, at, capacity), theirs, None),
        Some(i) => {
            let other_at = theirs[i].1;
            (
                mine,
                theirs.remove(i),
                Some(if sealed_side { latency_of(at, other_at) } else { latency_of(other_at, at) }),
            )
        },
    }
}

/// The first-record search finds the first record.
proof fn lemma_first_of(q: Seq<(u32, u64)>, seq: u32)
    ensures
        match first_of(q, seq) {
            Some(i) => 0 <= i < q.len() && q[i].0 == seq && forall|j: int| 0 <= j < i ==> q[j].0 != seq,
            None => forall|j: int| 0 <= j < q.len() ==> q[j].0 != seq,
        },
    decreases q.len(),
{
    if q.len() > 0 && q[0].0 != seq {
        lemma_first_of(q.drop_first(), seq);
        match first_of(q.drop_first(), seq) {
            Some(i) => {
                assert forall|j: int| 0 <= j < i + 1 implies q[j].0 != seq by {
                    if j > 0 {
                        assert(q[j] == q.drop_first()[j - 1]);
                    }
                }
            },
            None => {
                assert forall|j: int| 0 <= j < q.len() implies q[j].0 != seq by {
                    if j > 0 {
                        assert(q[j] == q.drop_first()[j - 1]);
                    }
                }
            },
        }
    }
}

/// Take the first record of `seq` out of `q`.
fn take_seq(q: &mut Vec<(u32, u64)>, seq: u32) -> (r: Option<u64>)
    ensures
        match first_of(old(q)@, seq) {
            Some(i) => r == Some(old(q)@[i].1) && final(q)@ == old(q)@.remove(i),
            None => r is None && final(q)@ == old(q)@,
        },
{
    proof {
        lemma_first_of(q@, seq);
    }
    let mut i: usize = 0;
    while i < q.len()
        invariant
            q@ == old(q)@,
            0 <= i <= q@.len(),
            forall|j: int| 0 <= j < i ==> q@[j].0 != seq,
            match first_of(q@, seq) {
                Some(k) => 0 <= k < q@.len() && q@[k].0 == seq && forall|j: int| 0 <= j < k ==> q@[j].0 != seq,
                None => forall|j: int| 0 <= j < q@.len() ==> q@[j].0 != seq,
            },
        decreases q@.len() - i,
    {
        if q[i].0 == seq {
            let (_s, at) = q.remove(i);
            return Some(at);
        }
        i = i + 1;
    }
    None
}

/// Append `(seq, at)`, dropping the oldest records first when the queue is full.
fn push_bounded(q: &mut Vec<(u32, u64)>, seq: u32, at: u64, capacity: usize)
    requires
        capacity >= 1,
    ensures
        final(q)@ == pushed_bounded(old(q)@, seq, at, capacity as nat),
{
    let ghost start = q@;
    let ghost k: int = 0;
    while q.len() >= capacity
        invariant
            capacity >= 1,
            0 <= k <= start.len(),
            q@ == start.skip(k),
            k <= (if start.len() >= capacity { start.len() - capacity + 1 } else { 0 }),
        decreases q@.len(),
    {
        let _oldest = q.remove(0);
        proof {
            k = k + 1;
            assert(q@ =~= start.skip(k));
        }
    }
    q.push((seq, at));
}

impl MeasurementTap {
    /// Invariant: a positive capacity that bounds both queues.
    pub closed spec fn wf(&self) -> bool {
        &&& self.capacity >= 1
        &&& self.sealed@.len() <= self.capacity
        &&& self.played@.len() <= self.capacity
    }

    /// A tap whose queues hold at most `capacity` records (at least one).
    pub fn new(capacity: usize) -> (r: Self)
        ensures
            r.wf(),
            r@.sealed.len() == 0,
            r@.played.len() == 0,
            r@.capacity == (if capacity == 0 { 1 } else { capacity as nat }),
    {
        MeasurementTap {
            sealed: Vec::new(),
            played: Vec::new(),
            capacity: if capacity == 0 { 1 } else { capacity },
        }
    }

    /// Sender side: frame `seq` was sealed at `at_us`. Returns the latency sample when the
    /// playback of `seq` was already recorded.
    pub fn record_sealed(&mut self, seq: u32, at_us: u64) -> (r: Option<u32>)
        requires
            old(self).wf(),
        ensures
            final(self).wf(),
            final(self)@.capacity == old(self)@.capacity,
            (final(self)@.sealed, final(self)@.played, r) == paired(
                old(self)@.sealed,
                old(self)@.played,
                seq,
                at_us,
                old(self)@.capacity,
                true,
            ),
    {
        proof {
            lemma_first_of(self.played@, seq);
        }
        match take_seq(&mut self.played, seq) {
            Some(played_at) => Some(latency(at_us, played_at)),
            None => {
                push_bounded(&mut self.sealed, seq, at_us, self.capacity);
                None
            },
        }
    }

    /// Receiver side: frame `seq` was written to the sink at `at_us`. Returns the latency
    /// sample when the seal of `seq` was already recorded.
    pub fn record_played(&mut self, seq: u32, at_us: u64) -> (r: Option<u32>)
        requires
            old(self).wf(),
        ensures
            final(self).wf(),
            final(self)@.capacity == old(self)@.capacity,
            (final(self)@.played, final(self)@.sealed, r) == paired(
                old(self)@.played,
                old(self)@.sealed,
                seq,
                at_us,
                old(self)@.capacity,
                false,
            ),
    {
        proof {
            lemma_first_of(self.sealed@, seq);
        }
        match take_seq(&mut self.sealed, seq) {
            Some(sealed_at) => Some(latency(sealed_at, at_us)),
            None => {
                push_bounded(&mut self.played, seq, at_us, self.capacity);
                None
            },
        }
    }

    /// Unpaired records `(sender side, receiver side)`.
    pub fn orphan_counts(&self) -> (r: (usize, usize))
        ensures
            r == (self@.sealed.len() as usize, self@.played.len() as usize),
    {
        (self.sealed.len(), self.played.len())
    }

    /// Forget every record (session rebuild).
    pub fn reset(&mut self)
        requires
            old(self).wf(),
        ensures
            final(self).wf(),
            final(self)@.sealed.len() == 0,
            final(self)@.played.len() == 0,
            final(self)@.capacity == old(self)@.capacity,
    {
        self.sealed.clear();
        self.played.clear();
    }
}

impl Default for MeasurementTap {
    fn default() -> (r: Self)
        ensures
            r.wf(),
            r@.sealed.len() == 0,
            r@.played.len() == 0,
            r@.capacity == DEFAULT_CAPACITY,
    {
        MeasurementTap::new(DEFAULT_CAPACITY)
    }
}

/// Latency of a pair (µs).
fn latency(sealed_at: u64, played_at: u64) -> (r: u32)
    ensures
        r == latency_of(sealed_at, played_at),
{
    if played_at <= sealed_at {
        0
    } else if played_at - sealed_at > u32::MAX as u64 {
        u32::MAX
    } else {
        (played_at - sealed_at) as u32
    }
}

/// Both queues stay within the capacity whatever is recorded.
pub proof fn law_orphan_queues_are_bounded(tap: &MeasurementTap)
    requires
        tap.wf(),
    ensures
        tap@.sealed.len() <= tap@.capacity,
        tap@.played.len() <= tap@.capacity,
        tap@.capacity >= 1,
{
}

/// No number is made up: a sample comes only from a waiting record of the other side with
/// the same sequence number, and is the time between seal and playback.
pub proof fn law_samples_come_only_from_pairs(
    mine: Seq<(u32, u64)>,
    theirs: Seq<(u32, u64)>,
    seq: u32,
    at: u64,
    capacity: nat,
    sealed_side: bool,
)
    ensures
        ({
            let (m, t, sample) = paired(mine, theirs, seq, at, capacity, sealed_side);
            &&& (sample is None <==> (forall|j: int| 0 <= j < theirs.len() ==> theirs[j].0 != seq))
            &&& (sample is None ==> t == theirs && m == pushed_bounded(mine, seq, at, capacity))
            &&& (sample is Some ==> exists|j: int|
                0 <= j < theirs.len() && theirs[j].0 == seq && sample == Some(
                    if sealed_side { latency_of(at, theirs[j].1) } else { latency_of(theirs[j].1, at) },
                ))
        }),
{
    lemma_first_of(theirs, seq);
}

/// Pairing works in either order: a seal followed by its playback, or a playback followed
/// by its seal, yields the sample `played_at - sealed_at` and leaves no orphan of `seq`.
pub proof fn law_pairs_in_either_order(
    sealed: Seq<(u32, u64)>,
    played: Seq<(u32, u64)>,
    seq: u32,
    sealed_at: u64,
    played_at: u64,
    capacity: nat,
)
    requires
        capacity >= 1,
        forall|j: int| 0 <= j < sealed.len() ==> sealed[j].0 != seq,
        forall|j: int| 0 <= j < played.len() ==> played[j].0 != seq,
    ensures
        ({
            let (s1, p1, first) = paired(sealed, played, seq, sealed_at, capacity, true);
            let (p2, s2, second) = paired(p1, s1, seq, played_at, capacity, false);
            first is None && second == Some(latency_of(sealed_at, played_at))
        }),
        ({
            let (p1, s1, first) = paired(played, sealed, seq, played_at, capacity, false);
            let (s2, p2, second) = paired(s1, p1, seq, sealed_at, capacity, true);
            first is None && second == Some(latency_of(sealed_at, played_at))
        }),
{
    lemma_first_of(played, seq);
    lemma_first_of(sealed, seq);
    let s1 = pushed_bounded(sealed, seq, sealed_at, capacity);
    lemma_first_of(s1, seq);
    assert(s1[s1.len() - 1] == (seq, sealed_at));
    assert forall|j: int| 0 <= j < s1.len() - 1 implies s1[j].0 != seq by {
        let k = if sealed.len() >= capacity { sealed.len() - capacity + 1 } else { 0 };
        assert(s1[j] == sealed[j + k]);
    }
    let p1 = pushed_bounded(played, seq, played_at, capacity);
    lemma_first_of(p1, seq);
    assert(p1[p1.len() - 1] == (seq, played_at));
    assert forall|j: int| 0 <= j < p1.len() - 1 implies p1[j].0 != seq by {
        let k = if played.len() >= capacity { played.len() - capacity + 1 } else { 0 };
        assert(p1[j] == played[j + k]);
    }
}

} // verus!
