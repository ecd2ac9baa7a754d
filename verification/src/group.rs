//! Sync groups of the sender: each group has a common epoch and lead time and a
//! member list kept sorted by certificate fingerprint, without duplicates.
//! Members can join and leave while the group runs; a group whose last member
//! left is forgotten.
use vstd::prelude::*;

use crate::epoch::EpochSchedule;

verus! {

broadcast use vstd::std_specs::hash::group_hash_axioms;

/// Lexicographic order of fingerprints.
pub open spec fn id_lt(a: Seq<u8>, b: Seq<u8>) -> bool
    decreases a.len(),
{
    if a.len() == 0 || b.len() == 0 {
        a.len() == 0 && b.len() > 0
    } else if a[0] < b[0] {
        true
    } else if a[0] > b[0] {
        false
    } else {
        id_lt(a.drop_first(), b.drop_first())
    }
}

/// `s` is strictly increasing in fingerprint order (hence free of duplicates).
pub open spec fn sorted_ids(s: Seq<[u8; 32]>) -> bool {
    forall|i: int, j: int| 0 <= i < j < s.len() ==> id_lt(s[i]@, s[j]@)
}

/// The fingerprint order is irreflexive.
pub proof fn lemma_id_lt_irreflexive(a: Seq<u8>)
    ensures
        !id_lt(a, a),
    decreases a.len(),
{
    if a.len() > 0 {
        lemma_id_lt_irreflexive(a.drop_first());
    }
}

/// The fingerprint order is transitive.
pub proof fn lemma_id_lt_transitive(a: Seq<u8>, b: Seq<u8>, c: Seq<u8>)
    requires
        id_lt(a, b),
        id_lt(b, c),
    ensures
        id_lt(a, c),
    decreases a.len(),
{
    if a.len() > 0 && b.len() > 0 && c.len() > 0 && a[0] == b[0] && b[0] == c[0] {
        lemma_id_lt_transitive(a.drop_first(), b.drop_first(), c.drop_first());
    }
}

/// Two different fingerprints of the same length are ordered one way or the other.
pub proof fn lemma_id_lt_total(a: Seq<u8>, b: Seq<u8>)
    requires
        a.len() == b.len(),
        a != b,
    ensures
        id_lt(a, b) || id_lt(b, a),
    decreases a.len(),
{
    if a.len() == 0 {
        assert(a =~= b);
    } else if a[0] == b[0] {
        if a.drop_first() == b.drop_first() {
            assert(a =~= b) by {
                assert forall|i: int| 0 <= i < a.len() implies a[i] == b[i] by {
                    if i > 0 {
                        assert(a[i] == a.drop_first()[i - 1]);
                        assert(b[i] == b.drop_first()[i - 1]);
                    }
                }
            }
        }
        lemma_id_lt_total(a.drop_first(), b.drop_first());
    }
}

proof fn lemma_id_lt_skip(a: Seq<u8>, b: Seq<u8>, i: int)
    requires
        0 <= i <= a.len(),
        a.len() == b.len(),
        forall|j: int| 0 <= j < i ==> a[j] == b[j],
    ensures
        id_lt(a, b) == id_lt(a.skip(i), b.skip(i)),
    decreases i,
{
    if i > 0 {
        assert(a[0] == b[0]);
        lemma_id_lt_skip(a.drop_first(), b.drop_first(), i - 1);
        assert(a.drop_first().skip(i - 1) =~= a.skip(i));
        assert(b.drop_first().skip(i - 1) =~= b.skip(i));
    } else {
        assert(a.skip(0) =~= a);
        assert(b.skip(0) =~= b);
    }
}

/// Whether fingerprint `a` sorts before `b`.
pub fn node_id_lt(a: &[u8; 32], b: &[u8; 32]) -> (r: bool)
    ensures
        r == id_lt(a@, b@),
{
    let mut i: usize = 0;
    while i < 32
        invariant
            0 <= i <= 32,
            a@.len() == 32,
            b@.len() == 32,
            forall|j: int| 0 <= j < i ==> a@[j] == b@[j],
        decreases 32 - i,
    {
        if a[i] != b[i] {
            proof {
                lemma_id_lt_skip(a@, b@, i as int);
                assert(a@.skip(i as int)[0] == a@[i as int]);
                assert(b@.skip(i as int)[0] == b@[i as int]);
            }
            return a[i] < b[i];
        }
        i = i + 1;
    }
    proof {
        assert(a@ =~= b@);
        lemma_id_lt_irreflexive(a@);
    }
    false
}

/// Whether two fingerprints are equal, compared byte by byte.
fn same_id(a: &[u8; 32], b: &[u8; 32]) -> (r: bool)
    ensures
        r == (*a == *b),
{
    let mut i: usize = 0;
    while i < 32
        invariant
            0 <= i <= 32,
            forall|j: int| 0 <= j < i ==> a[j] == b[j],
        decreases 32 - i,
    {
        if a[i] != b[i] {
            return false;
        }
        i = i + 1;
    }
    proof {
        assert(*a =~= *b);
    }
    true
}

/// `s` lists exactly the fingerprints of `set`, in order and once each.
pub open spec fn lists_set(s: Seq<[u8; 32]>, set: Set<[u8; 32]>) -> bool {
    sorted_ids(s) && s.to_set() == set
}

/// A sorted list holds no fingerprint twice, so it is as long as its set.
pub proof fn lemma_sorted_len(s: Seq<[u8; 32]>)
    requires
        sorted_ids(s),
    ensures
        s.no_duplicates(),
        s.to_set().len() == s.len(),
        s.to_set().finite(),
{
    assert forall|i: int, j: int| 0 <= i < s.len() && 0 <= j < s.len() && i != j implies s[i] != s[j] by {
        if s[i] == s[j] {
            lemma_id_lt_irreflexive(s[i]@);
        }
    }
    s.unique_seq_to_set();
    vstd::seq_lib::seq_to_set_is_finite(s);
}

/// `rand::Rng::random` on `rand::rng()` (the thread-local generator seeded by the OS): a
/// random `u64`. Nothing is stated about its value; the generator panics only when the
/// operating system cannot provide entropy to seed it.
#[verifier::external_body]
fn random_u64() -> u64 {
    rand::Rng::random(&mut rand::rng())
}

/// Insert `m` into the sorted list `v` at its place (nothing when already there).
fn insert_sorted(v: &mut Vec<[u8; 32]>, m: [u8; 32])
    requires
        sorted_ids(old(v)@),
    ensures
        sorted_ids(final(v)@),
        final(v)@.to_set() == old(v)@.to_set().insert(m),
        old(v)@.contains(m) ==> final(v)@ == old(v)@,
{
    let mut i: usize = 0;
    while i < v.len()
        invariant
            v@ == old(v)@,
            sorted_ids(v@),
            0 <= i <= v@.len(),
            forall|k: int| 0 <= k < i ==> id_lt(#[trigger] v@[k]@, m@),
        decreases v@.len() - i,
    {
        if !node_id_lt(&v[i], &m) {
            if same_id(&v[i], &m) {
                proof {
                    assert(v@.to_set() =~= v@.to_set().insert(m)) by {
                        assert(v@[i as int] == m);
                    }
                }
                return;
            }
            proof {
                let x = v@[i as int];
                assert(x@ != m@) by {
                    if x@ == m@ {
                        assert(x =~= m);
                    }
                }
                lemma_id_lt_total(x@, m@);
                assert forall|k: int| i <= k < v@.len() implies id_lt(m@, #[trigger] v@[k]@) by {
                    if k > i {
                        lemma_id_lt_transitive(m@, x@, v@[k]@);
                    }
                }
                assert forall|k: int| 0 <= k < v@.len() implies v@[k] != m by {
                    if k < i {
                        if v@[k] == m {
                            lemma_id_lt_irreflexive(m@);
                        }
                    } else {
                        if v@[k] == m {
                            lemma_id_lt_irreflexive(m@);
                        }
                    }
                }
            }
            let ghost before = v@;
            v.insert(i, m);
            proof {
                assert(v@ == before.insert(i as int, m));
                assert forall|a: int, b: int| 0 <= a < b < v@.len() implies id_lt(v@[a]@, v@[b]@) by {
                    if a < i && b < i {
                    } else if a < i && b == i {
                    } else if a < i && b > i {
                        assert(v@[b] == before[b - 1]);
                    } else if a == i {
                        assert(v@[b] == before[b - 1]);
                    } else {
                        assert(v@[a] == before[a - 1]);
                        assert(v@[b] == before[b - 1]);
                    }
                }
                assert(v@.to_set() =~= before.to_set().insert(m)) by {
                    assert forall|x: [u8; 32]| #[trigger] v@.contains(x) <==> (before.contains(x) || x == m) by {
                        if v@.contains(x) {
                            let k = choose|k: int| 0 <= k < v@.len() && v@[k] == x;
                            if k < i {
                                assert(before[k] == x);
                            } else if k > i {
                                assert(before[k - 1] == x);
                            }
                        }
                        if before.contains(x) {
                            let k = choose|k: int| 0 <= k < before.len() && before[k] == x;
                            if k < i {
                                assert(v@[k] == x);
                            } else {
                                assert(v@[k + 1] == x);
                            }
                        }
                        if x == m {
                            assert(v@[i as int] == m);
                        }
                    }
                }
            }
            return;
        }
        i = i + 1;
    }
    proof {
        assert forall|k: int| 0 <= k < v@.len() implies v@[k] != m by {
            if v@[k] == m {
                lemma_id_lt_irreflexive(m@);
            }
        }
    }
    let ghost before = v@;
    v.push(m);
    proof {
        assert forall|a: int, b: int| 0 <= a < b < v@.len() implies id_lt(v@[a]@, v@[b]@) by {
            if b == before.len() {
                assert(v@[a] == before[a]);
            } else {
                assert(v@[a] == before[a]);
                assert(v@[b] == before[b]);
            }
        }
        assert(v@.to_set() =~= before.to_set().insert(m)) by {
            assert forall|x: [u8; 32]| #[trigger] v@.contains(x) <==> (before.contains(x) || x == m) by {
                if v@.contains(x) {
                    let k = choose|k: int| 0 <= k < v@.len() && v@[k] == x;
                    if k < before.len() {
                        assert(before[k] == x);
                    }
                }
                if before.contains(x) {
                    let k = choose|k: int| 0 <= k < before.len() && before[k] == x;
                    assert(v@[k] == x);
                }
                if x == m {
                    assert(v@[before.len() as int] == m);
                }
            }
        }
    }
}

/// The distinct fingerprints of `members`, sorted.
pub fn sorted_members(members: &[[u8; 32]]) -> (r: Vec<[u8; 32]>)
    ensures
        lists_set(r@, members@.to_set()),
{
    let mut out: Vec<[u8; 32]> = Vec::new();
    let mut i: usize = 0;
    proof {
        assert(out@.to_set() =~= members@.take(0).to_set());
    }
    while i < members.len()
        invariant
            0 <= i <= members@.len(),
            sorted_ids(out@),
            out@.to_set() == members@.take(i as int).to_set(),
        decreases members@.len() - i,
    {
        insert_sorted(&mut out, members[i]);
        proof {
            assert(members@.take(i as int + 1).to_set() =~= members@.take(i as int).to_set().insert(members@[i as int])) by {
                assert forall|x: [u8; 32]| #[trigger] members@.take(i as int + 1).contains(x) <==> (members@.take(i as int).contains(x) || x == members@[i as int]) by {
                    if members@.take(i as int + 1).contains(x) {
                        let k = choose|k: int| 0 <= k < i + 1 && #[trigger] members@.take(i as int + 1)[k] == x;
                        if k < i {
                            assert(members@.take(i as int)[k] == x);
                        }
                    }
                    if members@.take(i as int).contains(x) {
                        let k = choose|k: int| 0 <= k < i && #[trigger] members@.take(i as int)[k] == x;
                        assert(members@.take(i as int + 1)[k] == x);
                    }
                    if x == members@[i as int] {
                        assert(members@.take(i as int + 1)[i as int] == x);
                    }
                }
            }
        }
        i = i + 1;
    }
    proof {
        assert(members@.take(members@.len() as int) =~= members@);
    }
    out
}

/// Remove `m` from the sorted list `v` (nothing when it is not there).
fn remove_sorted(v: &mut Vec<[u8; 32]>, m: [u8; 32])
    requires
        sorted_ids(old(v)@),
    ensures
        sorted_ids(final(v)@),
        final(v)@.to_set() == old(v)@.to_set().remove(m),
{
    proof {
        lemma_sorted_len(v@);
    }
    let mut i: usize = 0;
    while i < v.len()
        invariant
            v@ == old(v)@,
            sorted_ids(v@),
            v@.no_duplicates(),
            0 <= i <= v@.len(),
            forall|k: int| 0 <= k < i ==> v@[k] != m,
        decreases v@.len() - i,
    {
        if same_id(&v[i], &m) {
            let ghost before = v@;
            v.remove(i);
            proof {
                assert(v@ == before.remove(i as int));
                assert forall|a: int, b: int| 0 <= a < b < v@.len() implies id_lt(v@[a]@, v@[b]@) by {
                    if b < i {
                    } else if a < i {
                        assert(v@[b] == before[b + 1]);
                    } else {
                        assert(v@[a] == before[a + 1]);
                        assert(v@[b] == before[b + 1]);
                    }
                }
                assert(v@.to_set() =~= before.to_set().remove(m)) by {
                    assert forall|x: [u8; 32]| #[trigger] v@.contains(x) <==> (before.contains(x) && x != m) by {
                        if v@.contains(x) {
                            let k = choose|k: int| 0 <= k < v@.len() && v@[k] == x;
                            if k < i {
                                assert(before[k] == x);
                            } else {
                                assert(before[k + 1] == x);
                            }
                        }
                        if before.contains(x) && x != m {
                            let k = choose|k: int| 0 <= k < before.len() && before[k] == x;
                            if k < i {
                                assert(v@[k] == x);
                            } else {
                                assert(k != i);
                                assert(v@[k - 1] == x);
                            }
                        }
                    }
                }
            }
            return;
        }
        i = i + 1;
    }
    proof {
        assert(v@.to_set() =~= v@.to_set().remove(m));
    }
}

/// A copy of a list of fingerprints.
fn copy_ids(v: &Vec<[u8; 32]>) -> (r: Vec<[u8; 32]>)
    ensures
        r@ == v@,
{
    let mut out: Vec<[u8; 32]> = Vec::new();
    let mut i: usize = 0;
    while i < v.len()
        invariant
            0 <= i <= v@.len(),
            out@ == v@.take(i as int),
        decreases v@.len() - i,
    {
        out.push(v[i]);
        proof {
            assert(v@.take(i as int + 1) =~= v@.take(i as int).push(v@[i as int]));
        }
        i = i + 1;
    }
    proof {
        assert(v@.take(v@.len() as int) =~= v@);
    }
    out
}

/// State of one group as the table's view holds it.
pub struct GroupState {
    /// The group's epoch, fixed when the group was created.
    pub epoch: EpochSchedule,
    /// Scheduling lead (ms).
    pub lead_ms: u32,
    /// The members' fingerprints.
    pub members: Set<[u8; 32]>,
}

/// Why a group operation was refused.
#[derive(Debug, Clone, Copy, PartialEq, Eq, Structural)]
pub enum GroupError {
    /// A group needs at least one member.
    NoMembers,
    /// No group has this id.
    UnknownGroup,
    /// No session is connected to align.
    NoPeers,
}

/// A group as created: what its members are told.
#[derive(Debug)]
pub struct GroupCreated {
    pub group_id: u32,
    pub epoch_id: u64,
    pub epoch_local_us: u64,
    pub lead_ms: u32,
    /// The members, sorted by fingerprint, each once.
    pub members: Vec<[u8; 32]>,
}

/// What a member that joined must be told, and the new member count.
#[derive(Debug, Clone, Copy, PartialEq, Eq)]
pub struct GroupJoined {
    /// The group's epoch, unchanged by the join (sample 0 stays where it was).
    pub epoch: EpochSchedule,
    pub lead_ms: u32,
    /// Members after the join (saturating at `u32::MAX`).
    pub members: u32,
}

/// The group left and the member count that remains.
#[derive(Debug, Clone, Copy, PartialEq, Eq)]
pub struct GroupLeft {
    pub epoch_id: u64,
    /// Members after the departure; 0 means the group was forgotten.
    pub members: u32,
}

/// One group of a snapshot.
#[derive(Debug)]
pub struct GroupSummary {
    pub group_id: u32,
    pub epoch_id: u64,
    pub lead_ms: u32,
    /// Members, sorted by fingerprint.
    pub members: Vec<[u8; 32]>,
}

/// One group as the table stores it, under its id.
#[derive(Debug)]
struct GroupEntry {
    epoch: EpochSchedule,
    lead_ms: u32,
    members: Vec<[u8; 32]>,
}

/// The sync group table of a sender, keyed by group id.
#[derive(Debug)]
pub struct GroupTable {
    groups: std::collections::HashMap<u32, GroupEntry>,
}

spec fn state_of(e: GroupEntry) -> GroupState {
    GroupState { epoch: e.epoch, lead_ms: e.lead_ms, members: e.members@.to_set() }
}

/// Group ids in strictly ascending order.
spec fn ids_increasing(s: Seq<u32>) -> bool {
    forall|i: int, j: int| 0 <= i < j < s.len() ==> s[i] < s[j]
}

/// `u32` keys and the standard hasher behave as the map's model requires.
proof fn lemma_u32_map_facts()
    ensures
        vstd::std_specs::hash::obeys_key_model::<u32>(),
        vstd::std_specs::hash::builds_valid_hashers::<std::hash::RandomState>(),
{
}

/// Insert `x` into the ascending list `v` at its place (nothing when already there).
fn insert_id(v: &mut Vec<u32>, x: u32)
    requires
        ids_increasing(old(v)@),
    ensures
        ids_increasing(final(v)@),
        final(v)@.to_set() == old(v)@.to_set().insert(x),
{
    let mut i: usize = 0;
    while i < v.len()
        invariant
            v@ == old(v)@,
            ids_increasing(v@),
            0 <= i <= v@.len(),
            forall|k: int| 0 <= k < i ==> #[trigger] v@[k] < x,
        decreases v@.len() - i,
    {
        if v[i] == x {
            proof {
                assert(v@.to_set() =~= v@.to_set().insert(x)) by {
                    assert(v@[i as int] == x);
                }
            }
            return;
        }
        if v[i] > x {
            let ghost before = v@;
            v.insert(i, x);
            proof {
                assert(v@ == before.insert(i as int, x));
                assert forall|a: int, b: int| 0 <= a < b < v@.len() implies v@[a] < v@[b] by {
                    if a < i && b < i {
                    } else if a < i && b == i {
                    } else if a < i && b > i {
                        assert(v@[b] == before[b - 1]);
                    } else if a == i {
                        assert(v@[b] == before[b - 1]);
                        if b - 1 > i {
                            assert(before[i as int] < before[b - 1]);
                        }
                    } else {
                        assert(v@[a] == before[a - 1]);
                        assert(v@[b] == before[b - 1]);
                    }
                }
                assert(v@.to_set() =~= before.to_set().insert(x)) by {
                    assert forall|y: u32| #[trigger] v@.contains(y) <==> (before.contains(y) || y == x) by {
                        if v@.contains(y) {
                            let k = choose|k: int| 0 <= k < v@.len() && v@[k] == y;
                            if k < i {
                                assert(before[k] == y);
                            } else if k > i {
                                assert(before[k - 1] == y);
                            }
                        }
                        if before.contains(y) {
                            let k = choose|k: int| 0 <= k < before.len() && before[k] == y;
                            if k < i {
                                assert(v@[k] == y);
                            } else {
                                assert(v@[k + 1] == y);
                            }
                        }
                        if y == x {
                            assert(v@[i as int] == x);
                        }
                    }
                }
            }
            return;
        }
        i = i + 1;
    }
    let ghost before = v@;
    v.push(x);
    proof {
        assert forall|a: int, b: int| 0 <= a < b < v@.len() implies v@[a] < v@[b] by {
            assert(v@[a] == before[a]);
            if b < before.len() {
                assert(v@[b] == before[b]);
            }
        }
        before.lemma_push_to_set_commute(x);
    }
}

/// Every group of the table has at least one member.
pub open spec fn groups_inhabited(t: Map<u32, GroupState>) -> bool {
    forall|g: u32| #[trigger] t.dom().contains(g) ==> t[g].members.finite() && t[g].members.len() > 0
}

/// Group id drawn from a random seed: its low 32 bits, 0 replaced by 1.
pub open spec fn group_id_of(seed: u64) -> u32 {
    if seed as u32 == 0 { 1 } else { seed as u32 }
}

/// Epoch id drawn from a random seed: 0 replaced by 1.
pub open spec fn epoch_id_of(seed: u64) -> u64 {
    if seed == 0 { 1 } else { seed }
}

/// The table after `m` joined the group `g`.
pub open spec fn joined(t: Map<u32, GroupState>, g: u32, m: [u8; 32]) -> Map<u32, GroupState> {
    t.insert(g, GroupState { epoch: t[g].epoch, lead_ms: t[g].lead_ms, members: t[g].members.insert(m) })
}

/// The table after `m` left the group `g`: a group left empty is forgotten.
pub open spec fn left(t: Map<u32, GroupState>, g: u32, m: [u8; 32]) -> Map<u32, GroupState> {
    let rest = t[g].members.remove(m);
    if rest.len() == 0 {
        t.remove(g)
    } else {
        t.insert(g, GroupState { epoch: t[g].epoch, lead_ms: t[g].lead_ms, members: rest })
    }
}

/// Member count as reported: saturating at `u32::MAX`.
pub open spec fn count_of(n: nat) -> u32 {
    if n > u32::MAX { u32::MAX } else { n as u32 }
}

impl View for GroupTable {
    type V = Map<u32, GroupState>;

    closed spec fn view(&self) -> Map<u32, GroupState> {
        self.groups@.map_values(|e: GroupEntry| state_of(e))
    }
}

impl GroupTable {
    /// Every group's member list is sorted and non-empty.
    pub closed spec fn wf(&self) -> bool {
        forall|g: u32| #[trigger] self.groups@.contains_key(g) ==> sorted_ids(self.groups@[g].members@)
            && self.groups@[g].members@.len() > 0
    }

    /// A well-formed table has no empty group, and each group's member set is finite.
    pub proof fn law_no_group_is_empty(&self)
        requires
            self.wf(),
        ensures
            groups_inhabited(self@),
    {
        assert forall|g: u32| #[trigger] self@.dom().contains(g) implies self@[g].members.finite()
            && self@[g].members.len() > 0 by {
            assert(self.groups@.contains_key(g));
            lemma_sorted_len(self.groups@[g].members@);
        }
    }

    /// An empty table.
    pub fn new() -> (r: Self)
        ensures
            r.wf(),
            r@ == Map::<u32, GroupState>::empty(),
    {
        let r = GroupTable { groups: std::collections::HashMap::new() };
        assert(r@ =~= Map::<u32, GroupState>::empty());
        r
    }

    /// Store `e` as the group `group_id`, replacing the group with that id if there is one.
    fn put(&mut self, group_id: u32, e: GroupEntry)
        requires
            old(self).wf(),
            sorted_ids(e.members@),
            e.members@.len() > 0,
        ensures
            final(self).wf(),
            final(self)@ == old(self)@.insert(group_id, state_of(e)),
    {
        proof {
            lemma_u32_map_facts();
        }
        let ghost before = self.groups@;
        let ghost ge = e;
        self.groups.insert(group_id, e);
        proof {
            assert(self.groups@ == before.insert(group_id, ge));
            assert(self@ =~= before.map_values(|e: GroupEntry| state_of(e)).insert(group_id, state_of(ge)));
        }
    }

    /// The stored group `group_id`, if the table has one.
    fn entry(&self, group_id: u32) -> (r: Option<&GroupEntry>)
        requires
            self.wf(),
        ensures
            r is None <==> !self@.dom().contains(group_id),
            r matches Some(e) ==> self.groups@.contains_key(group_id) && self.groups@[group_id] == *e,
    {
        proof {
            lemma_u32_map_facts();
        }
        self.groups.get(&group_id)
    }

    /// The ids of all groups, ascending.
    fn group_ids(&self) -> (ids: Vec<u32>)
        ensures
            ids_increasing(ids@),
            ids@.to_set() == self.groups@.dom(),
    {
        proof {
            lemma_u32_map_facts();
        }
        let ghost all = vstd::std_specs::iter::IteratorSpec::remaining(
            &vstd::std_specs::hash::spec_keys_iter(&self.groups),
        ).unref();
        let mut ids: Vec<u32> = Vec::new();
        proof {
            assert(ids@.to_set() =~= all.take(0).to_set());
        }
        for k in it: self.groups.keys()
            invariant
                it.seq().unref() == all,
                ids_increasing(ids@),
                ids@.to_set() == all.take(it.index()).to_set(),
        {
            proof {
                assert(all.take(it.index() + 1) =~= all.take(it.index()).push(all[it.index()]));
                all.take(it.index()).lemma_push_to_set_commute(all[it.index()]);
            }
            insert_id(&mut ids, *k);
        }
        proof {
            assert(all.take(all.len() as int) =~= all);
        }
        ids
    }

    /// Create a group of the distinct `members` with the ids drawn from `group_seed`
    /// and `epoch_seed`; its epoch starts at `now_us` on the sender's clock. A group
    /// with the same id is replaced.
    pub fn create_with(
        &mut self,
        members: &[[u8; 32]],
        lead_ms: u32,
        now_us: u64,
        group_seed: u64,
        epoch_seed: u64,
    ) -> (r: Result<GroupCreated, GroupError>)
        requires
            old(self).wf(),
        ensures
            final(self).wf(),
            members@.len() == 0 ==> r == Err::<GroupCreated, GroupError>(GroupError::NoMembers)
                && final(self)@ == old(self)@,
            members@.len() > 0 ==> (r matches Ok(c) && c.group_id == group_id_of(group_seed)
                && c.epoch_id == epoch_id_of(epoch_seed) && c.epoch_local_us == now_us
                && c.lead_ms == lead_ms && lists_set(c.members@, members@.to_set())
                && final(self)@ == old(self)@.insert(
                c.group_id,
                GroupState {
                    epoch: EpochSchedule { epoch_id: c.epoch_id, epoch_local_us: now_us, lead_ms },
                    lead_ms,
                    members: members@.to_set(),
                },
            )),
    {
        if members.len() == 0 {
            return Err(GroupError::NoMembers);
        }
        let list = sorted_members(members);
        proof {
            assert(members@.to_set().contains(members@[0]));
            assert(list@.contains(members@[0]));
        }
        let low: u32 = group_seed as u32;
        let group_id: u32 = if low == 0 { 1 } else { low };
        let epoch_id: u64 = if epoch_seed == 0 { 1 } else { epoch_seed };
        let epoch = EpochSchedule::new(epoch_id, now_us, lead_ms);
        let row = GroupEntry { epoch, lead_ms, members: copy_ids(&list) };
        self.put(group_id, row);
        Ok(GroupCreated { group_id, epoch_id, epoch_local_us: now_us, lead_ms, members: list })
    }

    /// Create a group of the distinct `members` with random group and epoch ids (never 0);
    /// its epoch starts at `now_us` on the sender's clock.
    pub fn create(&mut self, members: &[[u8; 32]], lead_ms: u32, now_us: u64) -> (r: Result<
        GroupCreated,
        GroupError,
    >)
        requires
            old(self).wf(),
        ensures
            final(self).wf(),
            members@.len() == 0 ==> r == Err::<GroupCreated, GroupError>(GroupError::NoMembers)
                && final(self)@ == old(self)@,
            members@.len() > 0 ==> (r matches Ok(c) && c.group_id >= 1 && c.epoch_id >= 1
                && c.epoch_local_us == now_us && c.lead_ms == lead_ms && lists_set(
                c.members@,
                members@.to_set(),
            ) && final(self)@ == old(self)@.insert(
                c.group_id,
                GroupState {
                    epoch: EpochSchedule { epoch_id: c.epoch_id, epoch_local_us: now_us, lead_ms },
                    lead_ms,
                    members: members@.to_set(),
                },
            )),
    {
        if members.len() == 0 {
            return Err(GroupError::NoMembers);
        }
        let group_seed = random_u64();
        let epoch_seed = random_u64();
        self.create_with(members, lead_ms, now_us, group_seed, epoch_seed)
    }

    /// Add `member` to the group `group_id`. The group keeps its whole epoch, so the
    /// newcomer schedules against the same sample-0 instant as the others.
    pub fn join(&mut self, group_id: u32, member: [u8; 32]) -> (r: Result<GroupJoined, GroupError>)
        requires
            old(self).wf(),
        ensures
            final(self).wf(),
            !old(self)@.dom().contains(group_id) ==> r == Err::<GroupJoined, GroupError>(
                GroupError::UnknownGroup,
            ) && final(self)@ == old(self)@,
            old(self)@.dom().contains(group_id) ==> (r matches Ok(j) && final(self)@ == joined(
                old(self)@,
                group_id,
                member,
            ) && j.epoch == old(self)@[group_id].epoch && j.lead_ms == old(self)@[group_id].lead_ms
                && j.members == count_of(final(self)@[group_id].members.len())),
    {
        let (epoch, lead_ms, mut members) = match self.entry(group_id) {
            Some(e) => (e.epoch, e.lead_ms, copy_ids(&e.members)),
            None => return Err(GroupError::UnknownGroup),
        };
        insert_sorted(&mut members, member);
        let count = members.len();
        let n: u32 = if count > 4_294_967_295 { u32::MAX } else { count as u32 };
        proof {
            lemma_sorted_len(members@);
            assert(members@.to_set().contains(member));
        }
        self.put(group_id, GroupEntry { epoch, lead_ms, members });
        Ok(GroupJoined { epoch, lead_ms, members: n })
    }

    /// Remove `member` from the group `group_id`; a group left without members is
    /// forgotten.
    pub fn leave(&mut self, group_id: u32, member: [u8; 32]) -> (r: Result<GroupLeft, GroupError>)
        requires
            old(self).wf(),
        ensures
            final(self).wf(),
            !old(self)@.dom().contains(group_id) ==> r == Err::<GroupLeft, GroupError>(
                GroupError::UnknownGroup,
            ) && final(self)@ == old(self)@,
            old(self)@.dom().contains(group_id) ==> (r matches Ok(l) && final(self)@ == left(
                old(self)@,
                group_id,
                member,
            ) && l.epoch_id == old(self)@[group_id].epoch.epoch_id && l.members == count_of(
                old(self)@[group_id].members.remove(member).len(),
            )),
    {
        let (epoch, lead_ms, mut members) = match self.entry(group_id) {
            Some(e) => (e.epoch, e.lead_ms, copy_ids(&e.members)),
            None => return Err(GroupError::UnknownGroup),
        };
        remove_sorted(&mut members, member);
        let count = members.len();
        let n: u32 = if count > 4_294_967_295 { u32::MAX } else { count as u32 };
        proof {
            lemma_sorted_len(members@);
        }
        if count > 0 {
            self.put(group_id, GroupEntry { epoch, lead_ms, members });
        } else {
            proof {
                lemma_u32_map_facts();
            }
            let ghost before = self.groups@;
            self.groups.remove(&group_id);
            proof {
                assert(self.groups@ == before.remove(group_id));
                assert(self@ =~= before.map_values(|e: GroupEntry| state_of(e)).remove(group_id));
            }
        }
        Ok(GroupLeft { epoch_id: epoch.epoch_id, members: n })
    }

    /// The members of the group `group_id`, sorted, if the group exists.
    pub fn members_of(&self, group_id: u32) -> (r: Option<Vec<[u8; 32]>>)
        requires
            self.wf(),
        ensures
            r is None <==> !self@.dom().contains(group_id),
            r matches Some(v) ==> lists_set(v@, self@[group_id].members),
    {
        match self.entry(group_id) {
            Some(e) => Some(copy_ids(&e.members)),
            None => None,
        }
    }

    /// Every group, by ascending id, with its members sorted by fingerprint.
    pub fn snapshot(&self) -> (r: Vec<GroupSummary>)
        requires
            self.wf(),
        ensures
            forall|i: int, j: int| 0 <= i < j < r@.len() ==> r@[i].group_id < r@[j].group_id,
            forall|i: int| 0 <= i < r@.len() ==> {
                let g = #[trigger] r@[i].group_id;
                &&& self@.dom().contains(g)
                &&& r@[i].epoch_id == self@[g].epoch.epoch_id
                &&& r@[i].lead_ms == self@[g].lead_ms
                &&& lists_set(r@[i].members@, self@[g].members)
            },
            forall|g: u32| self@.dom().contains(g) ==> exists|i: int| 0 <= i < r@.len() && #[trigger] r@[i].group_id == g,
    {
        let ids = self.group_ids();
        let mut out: Vec<GroupSummary> = Vec::new();
        let mut i: usize = 0;
        while i < ids.len()
            invariant
                self.wf(),
                ids_increasing(ids@),
                ids@.to_set() == self.groups@.dom(),
                0 <= i <= ids@.len(),
                out@.len() == i,
                forall|j: int| 0 <= j < i ==> {
                    let g = ids@[j];
                    &&& (#[trigger] out@[j]).group_id == g
                    &&& self.groups@.contains_key(g)
                    &&& out@[j].epoch_id == self.groups@[g].epoch.epoch_id
                    &&& out@[j].lead_ms == self.groups@[g].lead_ms
                    &&& out@[j].members@ == self.groups@[g].members@
                },
            decreases ids@.len() - i,
        {
            let g = ids[i];
            proof {
                assert(ids@.to_set().contains(g));
            }
            match self.entry(g) {
                Some(e) => {
                    out.push(GroupSummary {
                        group_id: g,
                        epoch_id: e.epoch.epoch_id,
                        lead_ms: e.lead_ms,
                        members: copy_ids(&e.members),
                    });
                },
                None => {
                    proof {
                        assert(false);
                    }
                },
            }
            i = i + 1;
        }
        proof {
            assert forall|a: int, b: int| 0 <= a < b < out@.len() implies out@[a].group_id
                < out@[b].group_id by {
                assert(out@[a].group_id == ids@[a]);
                assert(out@[b].group_id == ids@[b]);
            }
            assert forall|g: u32| self@.dom().contains(g) implies exists|j: int|
                0 <= j < out@.len() && #[trigger] out@[j].group_id == g by {
                assert(ids@.to_set().contains(g));
                let j = choose|j: int| 0 <= j < ids@.len() && ids@[j] == g;
                assert(out@[j].group_id == g);
            }
        }
        out
    }
}


/// The common epoch a receiver broadcasts to its `peers` senders: it starts `lead_ms`
/// after `now_us` (saturating) so the senders have time to prepare, and its id comes from
/// `seed` (0 replaced by 1). Refused when no sender is connected.
pub fn receiver_epoch_with(peers: usize, now_us: u64, lead_ms: u32, seed: u64) -> (r: Result<EpochSchedule, GroupError>)
    ensures
        peers == 0 ==> r == Err::<EpochSchedule, GroupError>(GroupError::NoPeers),
        peers > 0 ==> r == Ok::<EpochSchedule, GroupError>(
            EpochSchedule {
                epoch_id: epoch_id_of(seed),
                epoch_local_us: if now_us + (lead_ms as int) * 1000 > u64::MAX {
                    u64::MAX
                } else {
                    (now_us + (lead_ms as int) * 1000) as u64
                },
                lead_ms,
            },
        ),
{
    if peers == 0 {
        return Err(GroupError::NoPeers);
    }
    let lead_us: u64 = (lead_ms as u64) * 1000;
    let start: u64 = if now_us > u64::MAX - lead_us { u64::MAX } else { now_us + lead_us };
    let epoch_id: u64 = if seed == 0 { 1 } else { seed };
    Ok(EpochSchedule::new(epoch_id, start, lead_ms))
}

/// The common epoch a receiver broadcasts, with a random id (never 0), see
/// [`receiver_epoch_with`].
pub fn receiver_epoch(peers: usize, now_us: u64, lead_ms: u32) -> (r: Result<EpochSchedule, GroupError>)
    ensures
        peers == 0 ==> r == Err::<EpochSchedule, GroupError>(GroupError::NoPeers),
        peers > 0 ==> (r matches Ok(e) && e.epoch_id >= 1 && e.lead_ms == lead_ms && e.epoch_local_us == (
            if now_us + (lead_ms as int) * 1000 > u64::MAX {
                u64::MAX
            } else {
                (now_us + (lead_ms as int) * 1000) as u64
            })),
{
    if peers == 0 {
        return Err(GroupError::NoPeers);
    }
    let seed = random_u64();
    receiver_epoch_with(peers, now_us, lead_ms, seed)
}

/// Joining changes only the group joined and keeps its whole epoch and lead: the
/// newcomer schedules against the group's first sample-0 instant.
pub proof fn law_join_keeps_the_epoch(t: Map<u32, GroupState>, g: u32, m: [u8; 32])
    requires
        t.dom().contains(g),
    ensures
        joined(t, g, m).dom() == t.dom(),
        joined(t, g, m)[g].epoch == t[g].epoch,
        joined(t, g, m)[g].lead_ms == t[g].lead_ms,
        joined(t, g, m)[g].members == t[g].members.insert(m),
        forall|h: u32| h != g && t.dom().contains(h) ==> #[trigger] joined(t, g, m)[h] == t[h],
{
    assert(joined(t, g, m).dom() =~= t.dom());
}

/// Joining twice is joining once.
pub proof fn law_join_is_idempotent(t: Map<u32, GroupState>, g: u32, m: [u8; 32])
    requires
        t.dom().contains(g),
    ensures
        joined(joined(t, g, m), g, m) == joined(t, g, m),
{
    assert(t[g].members.insert(m).insert(m) =~= t[g].members.insert(m));
    assert(joined(joined(t, g, m), g, m) =~= joined(t, g, m));
}

/// A member that joins a group it was not in and then leaves it restores the table.
pub proof fn law_join_then_leave_restores(t: Map<u32, GroupState>, g: u32, m: [u8; 32])
    requires
        t.dom().contains(g),
        t[g].members.finite(),
        t[g].members.len() > 0,
        !t[g].members.contains(m),
    ensures
        left(joined(t, g, m), g, m) == t,
{
    let once = joined(t, g, m);
    assert(once[g].members.remove(m) =~= t[g].members);
    assert(left(once, g, m) =~= t);
}

/// Leaving forgets the group exactly when its last member leaves, and touches no other group.
pub proof fn law_last_leaver_forgets_the_group(t: Map<u32, GroupState>, g: u32, m: [u8; 32])
    requires
        t.dom().contains(g),
        t[g].members.finite(),
    ensures
        left(t, g, m).dom().contains(g) <==> t[g].members.remove(m).len() > 0,
        left(t, g, m).dom().contains(g) ==> left(t, g, m)[g].epoch == t[g].epoch,
        forall|h: u32| h != g ==> (#[trigger] left(t, g, m).dom().contains(h) <==> t.dom().contains(h)),
        forall|h: u32| h != g && t.dom().contains(h) ==> #[trigger] left(t, g, m)[h] == t[h],
{
}

} // verus!
