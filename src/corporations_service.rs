use std::collections::{HashMap, HashSet, VecDeque};
use vstd::prelude::*;
use vstd::std_specs::iter::IteratorSpec;

use crate::esi::EsiID;

verus! {

broadcast use {
    vstd::std_specs::hash::group_hash_axioms,
    vstd::seq_lib::group_to_multiset_ensures,
};

/// One change to an alliance's member list.
#[derive(Debug, Clone, Copy, PartialEq, Eq, Hash, Structural)]
pub enum AllianceOp {
    /// The corporation is in the new roster and was not (as often) in the old one.
    Add(EsiID),
    /// The corporation was in the old roster and is not (as often) in the new one.
    Del(EsiID),
}

/// How many times `c` occurs in `s`.
pub open spec fn occurrences(s: Seq<EsiID>, c: EsiID) -> nat {
    s.to_multiset().count(c)
}

/// The corporation that an operation is about.
pub open spec fn op_corporation(op: AllianceOp) -> EsiID {
    match op {
        AllianceOp::Add(c) => c,
        AllianceOp::Del(c) => c,
    }
}

/// Whether the delta from `old` to `new` calls for `op`: a removal when the
/// corporation occurs more often in `old`, an addition when it occurs more
/// often in `new`.
pub open spec fn op_due(old: Seq<EsiID>, new: Seq<EsiID>, op: AllianceOp) -> bool {
    match op {
        AllianceOp::Del(c) => occurrences(old, c) > occurrences(new, c),
        AllianceOp::Add(c) => occurrences(old, c) < occurrences(new, c),
    }
}

/// `ops` is a delta from `old` to `new`: every due operation exactly once,
/// nothing else, in any order.
pub open spec fn is_delta(old: Seq<EsiID>, new: Seq<EsiID>, ops: Seq<AllianceOp>) -> bool {
    &&& ops.no_duplicates()
    &&& forall|op: AllianceOp| #[trigger] ops.contains(op) <==> op_due(old, new, op)
}

/// What a sequence holds after an append.
proof fn lemma_push_contains<A>(s: Seq<A>, x: A)
    ensures
        forall|y: A| #[trigger] s.push(x).contains(y) <==> (s.contains(y) || y == x),
{
    assert forall|y: A| #[trigger] s.push(x).contains(y) implies (s.contains(y) || y == x) by {
        let k = choose|k: int| 0 <= k < s.push(x).len() && s.push(x)[k] == y;
        if k < s.len() {
            assert(s[k] == y);
        }
    }
    assert forall|y: A| (s.contains(y) || y == x) implies #[trigger] s.push(x).contains(y) by {
        if y == x {
            assert(s.push(x)[s.len() as int] == y);
        } else {
            let k = choose|k: int| 0 <= k < s.len() && s[k] == y;
            assert(s.push(x)[k] == y);
        }
    }
}

/// Appending a new element keeps a sequence free of duplicates.
proof fn lemma_push_fresh<A>(s: Seq<A>, x: A)
    requires
        s.no_duplicates(),
        !s.contains(x),
    ensures
        s.push(x).no_duplicates(),
        forall|y: A| #[trigger] s.push(x).contains(y) <==> (s.contains(y) || y == x),
{
    lemma_push_contains(s, x);
}

/// Computes the operations that turn the old roster into the new one, from a
/// signed tally per corporation: one up for each occurrence in the old
/// roster, one down for each in the new one.
pub fn corporation_alliance_delta(
    old_corporations: &Vec<EsiID>,
    new_corporations: &Vec<EsiID>,
) -> (ops: Vec<AllianceOp>)
    ensures
        is_delta(old_corporations@, new_corporations@, ops@),
{
    let ghost old = old_corporations@;
    let ghost new = new_corporations@;
    let mut repetitions: HashMap<EsiID, i128> = HashMap::new();
    // Tallied corporations in the order they were first met.
    let mut tallied: Vec<EsiID> = Vec::new();

    let mut i: usize = 0;
    while i < old_corporations.len()
        invariant
            i <= old.len(),
            old == old_corporations@,
            tallied@.no_duplicates(),
            forall|c: EsiID| #[trigger] tallied@.contains(c) <==> repetitions@.contains_key(c),
            forall|c: EsiID| #[trigger]
                repetitions@.contains_key(c) <==> old.take(i as int).contains(c),
            forall|c: EsiID| #[trigger]
                repetitions@.contains_key(c) ==> repetitions@[c] == occurrences(
                    old.take(i as int),
                    c,
                ) && repetitions@[c] <= i,
        decreases old.len() - i,
    {
        let c = old_corporations[i];
        assert(old.take(i + 1) == old.take(i as int).push(c));
        proof {
            lemma_push_contains(old.take(i as int), c);
        }
        match repetitions.get(&c) {
            Some(rep) => {
                let next = *rep + 1;
                repetitions.insert(c, next);
            },
            None => {
                repetitions.insert(c, 1);
                proof {
                    lemma_push_fresh(tallied@, c);
                }
                tallied.push(c);
            },
        }
        i = i + 1;
    }
    assert(old.take(old.len() as int) == old);

    let mut j: usize = 0;
    while j < new_corporations.len()
        invariant
            j <= new.len(),
            old.len() <= usize::MAX,
            old == old_corporations@,
            new == new_corporations@,
            tallied@.no_duplicates(),
            forall|c: EsiID| #[trigger] tallied@.contains(c) <==> repetitions@.contains_key(c),
            forall|c: EsiID| #[trigger]
                repetitions@.contains_key(c) <==> (old.contains(c) || new.take(
                    j as int,
                ).contains(c)),
            forall|c: EsiID| #[trigger]
                repetitions@.contains_key(c) ==> repetitions@[c] == occurrences(old, c)
                    - occurrences(new.take(j as int), c) && -j <= repetitions@[c] <= old.len(),
        decreases new.len() - j,
    {
        let c = new_corporations[j];
        assert(new.take(j + 1) == new.take(j as int).push(c));
        proof {
            lemma_push_contains(new.take(j as int), c);
        }
        match repetitions.get(&c) {
            Some(rep) => {
                let next = *rep - 1;
                repetitions.insert(c, next);
            },
            None => {
                repetitions.insert(c, -1);
                proof {
                    lemma_push_fresh(tallied@, c);
                }
                tallied.push(c);
            },
        }
        j = j + 1;
    }
    assert(new.take(new.len() as int) == new);

    let mut ops: Vec<AllianceOp> = Vec::new();
    let mut k: usize = 0;
    while k < tallied.len()
        invariant
            k <= tallied@.len(),
            tallied@.no_duplicates(),
            forall|c: EsiID| #[trigger] tallied@.contains(c) <==> repetitions@.contains_key(c),
            forall|c: EsiID| #[trigger]
                repetitions@.contains_key(c) <==> (old.contains(c) || new.contains(c)),
            forall|c: EsiID| #[trigger]
                repetitions@.contains_key(c) ==> repetitions@[c] == occurrences(old, c)
                    - occurrences(new, c),
            ops@.no_duplicates(),
            forall|op: AllianceOp| #[trigger]
                ops@.contains(op) <==> (tallied@.take(k as int).contains(op_corporation(op))
                    && op_due(old, new, op)),
        decreases tallied@.len() - k,
    {
        let c = tallied[k];
        assert(tallied@.take(k + 1) == tallied@.take(k as int).push(c));
        assert(tallied@.contains(c));
        let rep: i128 = match repetitions.get(&c) {
            Some(rep) => *rep,
            None => 0,
        };
        proof {
            assert forall|d: EsiID| #[trigger] tallied@.take(k as int).contains(d) implies d != c by {
                let m = choose|m: int| 0 <= m < k && tallied@.take(k as int)[m] == d;
                assert(tallied@[m] == d);
            }
            lemma_push_fresh(tallied@.take(k as int), c);
        }
        if rep > 0 {
            proof {
                lemma_push_fresh(ops@, AllianceOp::Del(c));
            }
            ops.push(AllianceOp::Del(c));
        } else if rep < 0 {
            proof {
                lemma_push_fresh(ops@, AllianceOp::Add(c));
            }
            ops.push(AllianceOp::Add(c));
        }
        k = k + 1;
    }
    assert(tallied@.take(tallied@.len() as int) == tallied@);
    ops
}

/// A member set after one operation.
pub open spec fn apply_op(members: Set<EsiID>, op: AllianceOp) -> Set<EsiID> {
    match op {
        AllianceOp::Add(c) => members.insert(c),
        AllianceOp::Del(c) => members.remove(c),
    }
}

/// A member set after the operations, applied first to last.
pub open spec fn apply_ops(members: Set<EsiID>, ops: Seq<AllianceOp>) -> Set<EsiID>
    decreases ops.len(),
{
    if ops.len() == 0 {
        members
    } else {
        apply_op(apply_ops(members, ops.drop_last()), ops.last())
    }
}

/// The same operation with its direction reversed.
pub open spec fn inverse_op(op: AllianceOp) -> AllianceOp {
    match op {
        AllianceOp::Add(c) => AllianceOp::Del(c),
        AllianceOp::Del(c) => AllianceOp::Add(c),
    }
}

/// No two operations concern the same corporation.
pub open spec fn distinct_corporations(ops: Seq<AllianceOp>) -> bool {
    forall|i: int, j: int|
        0 <= i < j < ops.len() ==> op_corporation(#[trigger] ops[i]) != op_corporation(
            #[trigger] ops[j],
        )
}

/// A delta never holds two operations on one corporation.
proof fn lemma_delta_distinct(old: Seq<EsiID>, new: Seq<EsiID>, ops: Seq<AllianceOp>)
    requires
        is_delta(old, new, ops),
    ensures
        distinct_corporations(ops),
{
    assert forall|i: int, j: int| 0 <= i < j < ops.len() implies op_corporation(
        #[trigger] ops[i],
    ) != op_corporation(#[trigger] ops[j]) by {
        assert(ops.contains(ops[i]));
        assert(ops.contains(ops[j]));
    }
}

/// Where every corporation has at most one operation, the result of applying
/// them does not depend on their order.
proof fn lemma_apply_distinct(members: Set<EsiID>, ops: Seq<AllianceOp>)
    requires
        distinct_corporations(ops),
    ensures
        forall|c: EsiID| #[trigger]
            apply_ops(members, ops).contains(c) <==> (ops.contains(AllianceOp::Add(c)) || (
            members.contains(c) && !ops.contains(AllianceOp::Del(c)))),
    decreases ops.len(),
{
    if ops.len() > 0 {
        let init = ops.drop_last();
        let last = ops.last();
        assert(ops == init.push(last));
        assert(distinct_corporations(init)) by {
            assert forall|i: int, j: int| 0 <= i < j < init.len() implies op_corporation(
                #[trigger] init[i],
            ) != op_corporation(#[trigger] init[j]) by {
                assert(init[i] == ops[i] && init[j] == ops[j]);
            }
        }
        lemma_apply_distinct(members, init);
        lemma_push_contains(init, last);
        assert forall|op: AllianceOp| #[trigger] init.contains(op) implies op_corporation(op)
            != op_corporation(last) by {
            let k = choose|k: int| 0 <= k < init.len() && init[k] == op;
            assert(ops[k] == op);
            assert(ops[ops.len() - 1] == last);
        }
        assert forall|c: EsiID| #[trigger] apply_ops(members, ops).contains(c) <==> (ops.contains(
            AllianceOp::Add(c),
        ) || (members.contains(c) && !ops.contains(AllianceOp::Del(c)))) by {
            assert(apply_ops(members, ops) == apply_op(apply_ops(members, init), last));
            if op_corporation(last) != c {
                assert(last != AllianceOp::Add(c) && last != AllianceOp::Del(c));
            } else {
                assert(!init.contains(AllianceOp::Add(c)));
                assert(!init.contains(AllianceOp::Del(c)));
            }
        }
    }
}

/// Applying the delta from one roster to another turns the first roster's
/// member set into the second's, and no operation concerns a corporation
/// that both rosters hold. This holds wherever each corporation that both
/// rosters hold occurs in them equally often; with duplicates it fails (from
/// `[1, 1]` to `[1]` the delta removes 1).
pub proof fn lemma_delta_rebuilds_new(old: Seq<EsiID>, new: Seq<EsiID>)
    requires
        forall|c: EsiID|
            #![trigger old.contains(c), new.contains(c)]
            old.contains(c) && new.contains(c) ==> occurrences(old, c) == occurrences(new, c),
    ensures
        forall|ops: Seq<AllianceOp>| #[trigger]
            is_delta(old, new, ops) ==> apply_ops(old.to_set(), ops) == new.to_set() && forall|
                op: AllianceOp,
            | #[trigger]
                ops.contains(op) ==> !(old.contains(op_corporation(op)) && new.contains(
                    op_corporation(op),
                )),
{
    assert forall|ops: Seq<AllianceOp>| #[trigger] is_delta(old, new, ops) implies apply_ops(
        old.to_set(),
        ops,
    ) == new.to_set() && forall|op: AllianceOp| #[trigger]
        ops.contains(op) ==> !(old.contains(op_corporation(op)) && new.contains(
            op_corporation(op),
        )) by {
        lemma_delta_distinct(old, new, ops);
        lemma_apply_distinct(old.to_set(), ops);
        assert(apply_ops(old.to_set(), ops) =~= new.to_set()) by {
            assert forall|c: EsiID| #[trigger]
                apply_ops(old.to_set(), ops).contains(c) == new.to_set().contains(c) by {
                assert(ops.contains(AllianceOp::Add(c)) == op_due(old, new, AllianceOp::Add(c)));
                assert(ops.contains(AllianceOp::Del(c)) == op_due(old, new, AllianceOp::Del(c)));
            }
        }
        assert forall|op: AllianceOp| #[trigger] ops.contains(op) implies !(old.contains(
            op_corporation(op),
        ) && new.contains(op_corporation(op))) by {
            assert(op_due(old, new, op));
        }
    }
}

/// Swapping the two rosters reverses the delta: every addition becomes a
/// removal of the same corporation and the other way round, and the number of
/// operations stays the same.
pub proof fn lemma_delta_swap(a: Seq<EsiID>, b: Seq<EsiID>)
    ensures
        forall|ab: Seq<AllianceOp>, ba: Seq<AllianceOp>|
            #![trigger is_delta(a, b, ab), is_delta(b, a, ba)]
            is_delta(a, b, ab) && is_delta(b, a, ba) ==> ab.len() == ba.len() && forall|
                op: AllianceOp,
            | #[trigger] ab.contains(op) <==> ba.contains(inverse_op(op)),
{
    assert forall|ab: Seq<AllianceOp>, ba: Seq<AllianceOp>|
        is_delta(a, b, ab) && is_delta(b, a, ba) implies ab.len() == ba.len() && forall|
            op: AllianceOp,
        | #[trigger] ab.contains(op) <==> ba.contains(inverse_op(op)) by {
        assert forall|op: AllianceOp| #[trigger] ab.contains(op) <==> ba.contains(
            inverse_op(op),
        ) by {
            assert(ab.contains(op) == op_due(a, b, op));
            assert(ba.contains(inverse_op(op)) == op_due(b, a, inverse_op(op)));
        }
        let flipped = ab.map_values(|op: AllianceOp| inverse_op(op));
        assert(flipped.no_duplicates()) by {
            assert forall|i: int, j: int| 0 <= i < j < flipped.len() implies flipped[i]
                != flipped[j] by {
                assert(ab[i] != ab[j]);
            }
        }
        assert(flipped.to_set() =~= ba.to_set()) by {
            assert forall|op: AllianceOp| #[trigger] flipped.to_set().contains(op) <==> ba.to_set().contains(op) by {
                if flipped.contains(op) {
                    let k = choose|k: int| 0 <= k < flipped.len() && flipped[k] == op;
                    assert(ab.contains(ab[k]));
                }
                if ba.contains(op) {
                    assert(ab.contains(inverse_op(op)));
                    let k = choose|k: int| 0 <= k < ab.len() && ab[k] == inverse_op(op);
                    assert(flipped[k] == op);
                }
            }
        }
        flipped.unique_seq_to_set();
        ba.unique_seq_to_set();
    }
}

/// What the membership tracker holds.
pub struct TrackerView {
    /// Alliances waiting for a roster refresh, front first.
    pub queue: Seq<EsiID>,
    /// Alliances whose roster has been fetched at least once.
    pub seen: Set<EsiID>,
    /// The alliance that each tracked corporation belongs to.
    pub membership: Map<EsiID, EsiID>,
}

/// Tracks which corporations belong to which alliance, refreshing one queued
/// alliance at a time, and reports joins and departures for alliances that
/// already had a baseline.
pub struct CorporationsService {
    alliance_queue: VecDeque<EsiID>,
    alliance_seen: HashSet<EsiID>,
    corporation_alliance: HashMap<EsiID, EsiID>,
}

impl View for CorporationsService {
    type V = TrackerView;

    closed spec fn view(&self) -> TrackerView {
        TrackerView {
            queue: self.alliance_queue@,
            seen: self.alliance_seen@,
            membership: self.corporation_alliance@,
        }
    }
}

/// A roster change as the tracker reports it: (alliance, corporation).
#[derive(Debug, Clone, Copy, PartialEq, Eq, Hash, Structural)]
pub enum ServiceEvent {
    JoinAlliance(EsiID, EsiID),
    LeftAlliance(EsiID, EsiID),
}

/// Whether the tracker maps `corporation` to `alliance`.
pub open spec fn held(membership: Map<EsiID, EsiID>, alliance: EsiID, corporation: EsiID) -> bool {
    membership.contains_key(corporation) && membership[corporation] == alliance
}

/// The membership after `alliance` was refreshed with `roster`: every
/// corporation of the roster belongs to it, those it had that the roster
/// lacks are no longer tracked, and every other entry stays.
pub open spec fn refreshed_membership(
    membership: Map<EsiID, EsiID>,
    alliance: EsiID,
    roster: Seq<EsiID>,
) -> Map<EsiID, EsiID> {
    Map::new(
        |c: EsiID| roster.contains(c) || (membership.contains_key(c) && membership[c] != alliance),
        |c: EsiID|
            if roster.contains(c) {
                alliance
            } else {
                membership[c]
            },
    )
}

/// Whether refreshing `alliance` with `roster` reports `event`: a join for
/// each corporation that the roster holds more often than the tracker had
/// it, a departure for each one the tracker had that the roster lacks.
pub open spec fn event_due(
    membership: Map<EsiID, EsiID>,
    alliance: EsiID,
    roster: Seq<EsiID>,
    event: ServiceEvent,
) -> bool {
    match event {
        ServiceEvent::JoinAlliance(a, c) => a == alliance && occurrences(roster, c) > (if held(
            membership,
            alliance,
            c,
        ) {
            1nat
        } else {
            0nat
        }),
        ServiceEvent::LeftAlliance(a, c) => a == alliance && held(membership, alliance, c)
            && !roster.contains(c),
    }
}

/// One successful roster refresh of `alliance`, from `before` to `after`,
/// reporting `events`. The alliance counts as seen afterwards; only one that
/// was seen before reports anything.
pub open spec fn roster_step(
    before: TrackerView,
    alliance: EsiID,
    roster: Seq<EsiID>,
    after: TrackerView,
    events: Seq<ServiceEvent>,
) -> bool {
    &&& after.queue == before.queue
    &&& after.seen == before.seen.insert(alliance)
    &&& after.membership == refreshed_membership(before.membership, alliance, roster)
    &&& events.no_duplicates()
    &&& forall|e: ServiceEvent| #[trigger]
        events.contains(e) <==> (before.seen.contains(alliance) && event_due(
            before.membership,
            alliance,
            roster,
            e,
        ))
}

/// The event that reports an operation on `alliance`.
pub open spec fn event_of(alliance: EsiID, op: AllianceOp) -> ServiceEvent {
    match op {
        AllianceOp::Add(c) => ServiceEvent::JoinAlliance(alliance, c),
        AllianceOp::Del(c) => ServiceEvent::LeftAlliance(alliance, c),
    }
}

/// A roster without duplicates holds each of its corporations once.
proof fn lemma_occurrences_unique(s: Seq<EsiID>)
    requires
        s.no_duplicates(),
    ensures
        forall|c: EsiID| #[trigger]
            occurrences(s, c) == if s.contains(c) {
                1nat
            } else {
                0nat
            },
{
    s.lemma_multiset_has_no_duplicates();
    assert forall|c: EsiID| #[trigger]
        occurrences(s, c) == if s.contains(c) {
            1nat
        } else {
            0nat
        } by {
        if s.contains(c) {
            assert(s.to_multiset().contains(c));
        }
    }
}

/// In a sequence whose operations concern distinct corporations, those before
/// position `k` do not concern the corporation of the operation at `k`.
proof fn lemma_prefix_distinct(ops: Seq<AllianceOp>, k: int)
    requires
        distinct_corporations(ops),
        0 <= k < ops.len(),
    ensures
        forall|op: AllianceOp| #[trigger]
            ops.take(k).contains(op) ==> op_corporation(op) != op_corporation(ops[k]),
{
    assert forall|op: AllianceOp| #[trigger] ops.take(k).contains(op) implies op_corporation(op)
        != op_corporation(ops[k]) by {
        let j = choose|j: int| 0 <= j < k && ops.take(k)[j] == op;
        assert(ops[j] == op);
    }
}

impl CorporationsService {
    /// A tracker with an empty queue that has seen nothing.
    pub fn new() -> (service: Self)
        ensures
            service@.queue == Seq::<EsiID>::empty(),
            service@.seen == Set::<EsiID>::empty(),
            service@.membership == Map::<EsiID, EsiID>::empty(),
    {
        CorporationsService {
            alliance_queue: VecDeque::new(),
            alliance_seen: HashSet::new(),
            corporation_alliance: HashMap::new(),
        }
    }

    /// Replaces the work queue with the fetched alliance list, in the order
    /// given; a failed fetch (`None`) leaves the queue empty. Returns how many
    /// alliances were still queued and have been discarded.
    pub fn update_alliance_queue(&mut self, alliance_ids: Option<Vec<EsiID>>) -> (discarded: usize)
        ensures
            discarded == old(self)@.queue.len(),
            final(self)@.queue == match alliance_ids {
                Some(ids) => ids@,
                None => Seq::<EsiID>::empty(),
            },
            final(self)@.seen == old(self)@.seen,
            final(self)@.membership == old(self)@.membership,
    {
        let discarded = self.alliance_queue.len();
        self.alliance_queue.clear();
        if let Some(ids) = alliance_ids {
            let mut i: usize = 0;
            while i < ids.len()
                invariant
                    i <= ids@.len(),
                    self.alliance_queue@ == ids@.take(i as int),
                    self@.seen == old(self)@.seen,
                    self@.membership == old(self)@.membership,
                decreases ids@.len() - i,
            {
                assert(ids@.take(i + 1) == ids@.take(i as int).push(ids@[i as int]));
                self.alliance_queue.push_back(ids[i]);
                i = i + 1;
            }
            assert(ids@.take(ids@.len() as int) == ids@);
        }
        discarded
    }

    /// How many alliances one drain pass takes: at most `limit`, and the
    /// whole queue when there is no limit.
    pub fn drain_count(&self, limit: Option<usize>) -> (n: usize)
        ensures
            n == match limit {
                Some(l) => if l < self@.queue.len() {
                    l as int
                } else {
                    self@.queue.len() as int
                },
                None => self@.queue.len() as int,
            },
    {
        let queued = self.alliance_queue.len();
        match limit {
            Some(l) => if l < queued {
                l
            } else {
                queued
            },
            None => queued,
        }
    }

    /// Takes the alliance at the front of the queue, if any.
    pub fn next_alliance(&mut self) -> (next: Option<EsiID>)
        ensures
            old(self)@.queue.len() == 0 ==> next is None && final(self)@ == old(self)@,
            old(self)@.queue.len() > 0 ==> next == Some(old(self)@.queue[0])
                && final(self)@.queue == old(self)@.queue.drop_first(),
            final(self)@.seen == old(self)@.seen,
            final(self)@.membership == old(self)@.membership,
    {
        self.alliance_queue.pop_front()
    }

    /// Records a successful roster fetch for `alliance_id`: the alliance's
    /// members become the roster's corporations and the alliance counts as
    /// seen. Returns the joins and departures to report, none when the
    /// alliance had not been seen before.
    pub fn apply_roster(&mut self, alliance_id: EsiID, roster: &Vec<EsiID>) -> (events: Vec<
        ServiceEvent,
    >)
        ensures
            roster_step(old(self)@, alliance_id, roster@, final(self)@, events@),
    {
        let old_corporations = self.corporations_of(alliance_id);
        let notify = self.alliance_seen.contains(&alliance_id);
        self.alliance_seen.insert(alliance_id);
        let ops = corporation_alliance_delta(&old_corporations, roster);
        let ghost m0 = self.corporation_alliance@;
        let ghost tracked_before = old_corporations@;
        proof {
            lemma_delta_distinct(old_corporations@, roster@, ops@);
            lemma_occurrences_unique(old_corporations@);
        }
        let mut events: Vec<ServiceEvent> = Vec::new();
        let mut k: usize = 0;
        while k < ops.len()
            invariant
                k <= ops@.len(),
                distinct_corporations(ops@),
                self@.queue == old(self)@.queue,
                self@.seen == old(self)@.seen.insert(alliance_id),
                forall|c: EsiID| #[trigger]
                    self@.membership.contains_key(c) == (ops@.take(k as int).contains(
                        AllianceOp::Add(c),
                    ) || (m0.contains_key(c) && !ops@.take(k as int).contains(
                        AllianceOp::Del(c),
                    ))),
                forall|c: EsiID| #[trigger]
                    self@.membership.contains_key(c) ==> self@.membership[c] == if ops@.take(
                        k as int,
                    ).contains(AllianceOp::Add(c)) {
                        alliance_id
                    } else {
                        m0[c]
                    },
                events@ == if notify {
                    ops@.take(k as int).map_values(|op: AllianceOp| event_of(alliance_id, op))
                } else {
                    Seq::<ServiceEvent>::empty()
                },
            decreases ops@.len() - k,
        {
            let op = ops[k];
            proof {
                assert(ops@.take(k + 1) == ops@.take(k as int).push(op));
                lemma_push_contains(ops@.take(k as int), op);
                lemma_prefix_distinct(ops@, k as int);
            }
            let ghost before = self@.membership;
            match op {
                AllianceOp::Add(c) => {
                    self.corporation_alliance.insert(c, alliance_id);
                    if notify {
                        events.push(ServiceEvent::JoinAlliance(alliance_id, c));
                    }
                },
                AllianceOp::Del(c) => {
                    self.corporation_alliance.remove(&c);
                    if notify {
                        events.push(ServiceEvent::LeftAlliance(alliance_id, c));
                    }
                },
            }
            proof {
                let next = ops@.take(k + 1);
                let prev = ops@.take(k as int);
                assert forall|c: EsiID| #[trigger] self@.membership.contains_key(c) == (next.contains(
                    AllianceOp::Add(c),
                ) || (m0.contains_key(c) && !next.contains(AllianceOp::Del(c))))
                    && (self@.membership.contains_key(c) ==> self@.membership[c] == if next.contains(
                    AllianceOp::Add(c),
                ) {
                    alliance_id
                } else {
                    m0[c]
                }) by {
                    if c == op_corporation(op) {
                        assert(!prev.contains(AllianceOp::Add(c)));
                        assert(!prev.contains(AllianceOp::Del(c)));
                        assert(before.contains_key(c) == m0.contains_key(c));
                    } else {
                        assert(self@.membership.contains_key(c) == before.contains_key(c));
                        assert(before.contains_key(c) ==> self@.membership[c] == before[c]);
                        assert(op != AllianceOp::Add(c) && op != AllianceOp::Del(c));
                    }
                }
                if notify {
                    assert(events@ == ops@.take(k + 1).map_values(
                        |op: AllianceOp| event_of(alliance_id, op),
                    ));
                }
            }
            k = k + 1;
        }
        proof {
            assert(ops@.take(ops@.len() as int) == ops@);
            let m1 = self@.membership;
            assert forall|c: EsiID| #[trigger] tracked_before.contains(c) == held(m0, alliance_id, c) by {}
            assert(m1 =~= refreshed_membership(m0, alliance_id, roster@)) by {
                assert forall|c: EsiID| #[trigger] m1.contains_key(c) == refreshed_membership(
                    m0,
                    alliance_id,
                    roster@,
                ).contains_key(c) by {
                    assert(ops@.contains(AllianceOp::Add(c)) == op_due(tracked_before, roster@, AllianceOp::Add(c)));
                    assert(ops@.contains(AllianceOp::Del(c)) == op_due(tracked_before, roster@, AllianceOp::Del(c)));
                    assert(roster@.contains(c) <==> occurrences(roster@, c) > 0);
                }
            }
            let ev = events@;
            if notify {
                assert(ev.no_duplicates()) by {
                    assert forall|i: int, j: int| 0 <= i < j < ev.len() implies ev[i] != ev[j] by {
                        assert(ops@[i] != ops@[j]);
                    }
                }
                assert forall|e: ServiceEvent| #[trigger] ev.contains(e) <==> event_due(
                    m0,
                    alliance_id,
                    roster@,
                    e,
                ) by {
                    match e {
                        ServiceEvent::JoinAlliance(a, c) => {
                            assert(ops@.contains(AllianceOp::Add(c)) == op_due(tracked_before, roster@, AllianceOp::Add(c)));
                            if ev.contains(e) {
                                let j = choose|j: int| 0 <= j < ev.len() && ev[j] == e;
                                assert(ops@[j] == AllianceOp::Add(c));
                                assert(ops@.contains(ops@[j]));
                            }
                            if event_due(m0, alliance_id, roster@, e) {
                                let j = choose|j: int| 0 <= j < ops@.len() && ops@[j] == AllianceOp::Add(c);
                                assert(ev[j] == e);
                            }
                        },
                        ServiceEvent::LeftAlliance(a, c) => {
                            assert(ops@.contains(AllianceOp::Del(c)) == op_due(tracked_before, roster@, AllianceOp::Del(c)));
                            assert(roster@.contains(c) <==> occurrences(roster@, c) > 0);
                            if ev.contains(e) {
                                let j = choose|j: int| 0 <= j < ev.len() && ev[j] == e;
                                assert(ops@[j] == AllianceOp::Del(c));
                                assert(ops@.contains(ops@[j]));
                            }
                            if event_due(m0, alliance_id, roster@, e) {
                                let j = choose|j: int| 0 <= j < ops@.len() && ops@[j] == AllianceOp::Del(c);
                                assert(ev[j] == e);
                            }
                        },
                    }
                }
            }
        }
        events
    }

    /// Whether `alliance_id` has had a successful roster refresh.
    pub fn has_seen(&self, alliance_id: EsiID) -> (seen: bool)
        ensures
            seen == self@.seen.contains(alliance_id),
    {
        self.alliance_seen.contains(&alliance_id)
    }

    /// The alliance that `corporation_id` is tracked as a member of.
    pub fn alliance_of(&self, corporation_id: EsiID) -> (alliance: Option<EsiID>)
        ensures
            alliance == if self@.membership.contains_key(corporation_id) {
                Some(self@.membership[corporation_id])
            } else {
                None::<EsiID>
            },
    {
        match self.corporation_alliance.get(&corporation_id) {
            Some(a) => Some(*a),
            None => None,
        }
    }

    /// Number of alliances waiting in the queue.
    pub fn queue_len(&self) -> (n: usize)
        ensures
            n == self@.queue.len(),
    {
        self.alliance_queue.len()
    }

    /// The corporations that the tracker maps to `alliance_id`, each once.
    pub fn corporations_of(&self, alliance_id: EsiID) -> (corporations: Vec<EsiID>)
        ensures
            corporations@.no_duplicates(),
            forall|c: EsiID| #[trigger]
                corporations@.contains(c) <==> (self@.membership.contains_key(c)
                    && self@.membership[c] == alliance_id),
    {
        let mut found: Vec<EsiID> = Vec::new();
        for (c, a) in it: self.corporation_alliance.iter()
            invariant
                it.seq() == vstd::std_specs::hash::spec_hash_map_iter(
                    &self.corporation_alliance,
                ).remaining(),
                it.seq().no_duplicates(),
                found@.no_duplicates(),
                forall|d: EsiID| #[trigger]
                    found@.contains(d) <==> exists|k: int|
                        0 <= k < it.index() && *it.seq()[k].0 == d && *it.seq()[k].1 == alliance_id,
        {
            let ghost k = it.index();
            let ghost seq = it.seq();
            proof {
                assert(*c == *seq[k].0 && *a == *seq[k].1);
                assert(self.corporation_alliance@.contains_key(*seq[k].0));
            }
            if *a == alliance_id {
                proof {
                    assert forall|j: int| 0 <= j < k && *seq[j].0 == *c implies *seq[j].1 != alliance_id by {
                        assert(self.corporation_alliance@.contains_key(*seq[j].0));
                        assert(seq[j] == seq[k]);
                    }
                    lemma_push_fresh(found@, *c);
                }
                found.push(*c);
            }
            proof {
                assert forall|d: EsiID| #[trigger] found@.contains(d) <==> exists|j: int|
                    0 <= j < k + 1 && *seq[j].0 == d && *seq[j].1 == alliance_id by {
                    if exists|j: int| 0 <= j < k + 1 && *seq[j].0 == d && *seq[j].1 == alliance_id {
                        let j = choose|j: int| 0 <= j < k + 1 && *seq[j].0 == d && *seq[j].1 == alliance_id;
                        if j < k {
                            assert(exists|j: int| 0 <= j < k && *seq[j].0 == d && *seq[j].1 == alliance_id);
                        }
                    }
                }
            }
        }
        found
    }
}

/// An alliance's first successful refresh reports nothing, whatever its
/// roster holds.
pub proof fn lemma_first_refresh_is_silent(before: TrackerView, alliance: EsiID, roster: Seq<EsiID>)
    requires
        !before.seen.contains(alliance),
    ensures
        forall|after: TrackerView, events: Seq<ServiceEvent>|
            #[trigger] roster_step(before, alliance, roster, after, events) ==> events.len() == 0,
{
    assert forall|after: TrackerView, events: Seq<ServiceEvent>|
        #[trigger] roster_step(before, alliance, roster, after, events) implies events.len()
        == 0 by {
        if events.len() > 0 {
            assert(events.contains(events[0]));
        }
    }
}

/// Refreshing an alliance twice in a row with the same roster reports
/// nothing the second time, where the roster holds each corporation once (a
/// roster that repeats a corporation reports it as joining again).
pub proof fn lemma_unchanged_refresh_is_silent(
    before: TrackerView,
    alliance: EsiID,
    roster: Seq<EsiID>,
)
    requires
        roster.no_duplicates(),
    ensures
        forall|
            middle: TrackerView,
            first: Seq<ServiceEvent>,
            after: TrackerView,
            second: Seq<ServiceEvent>,
        |
            #![trigger roster_step(before, alliance, roster, middle, first), roster_step(middle, alliance, roster, after, second)]
            roster_step(before, alliance, roster, middle, first) && roster_step(
                middle,
                alliance,
                roster,
                after,
                second,
            ) ==> second.len() == 0,
{
    lemma_occurrences_unique(roster);
    assert forall|
        middle: TrackerView,
        first: Seq<ServiceEvent>,
        after: TrackerView,
        second: Seq<ServiceEvent>,
    |
        roster_step(before, alliance, roster, middle, first) && roster_step(
            middle,
            alliance,
            roster,
            after,
            second,
        ) implies second.len() == 0 by {
        if second.len() > 0 {
            let e = second[0];
            assert(second.contains(e));
            match e {
                ServiceEvent::JoinAlliance(a, c) => {
                    assert(held(middle.membership, alliance, c) == roster.contains(c));
                },
                ServiceEvent::LeftAlliance(a, c) => {
                    assert(held(middle.membership, alliance, c) == roster.contains(c));
                },
            }
        }
    }
}

} // verus!
